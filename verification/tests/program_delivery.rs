use sima_pipeline::config::{LoadedConfig, Orchestrator, PayloadSpec, Routed};
use sima_pipeline::fault::Fault;
use sima_pipeline::ordered::TextMap;
use sima_pipeline::payload::{FileEntry, Manifest};
use sima_pipeline::program_delivery::{
    advertised, deliver_to_owned, delivery_store, ingest_program, program_tree, programs_dir,
    receive_program, sdk_tree, sendable, undelivered, PayloadSource, ProgramDelivery, Received,
    Receiving,
};

const PROGRAM: &str = "0123456789abcdef0123456789abcdef0123456789abcdef0123456789abcdef";
const PACKAGE: &str = "fedcba9876543210fedcba9876543210fedcba9876543210fedcba9876543210";

fn delivery(sdk: bool) -> ProgramDelivery {
    ProgramDelivery {
        payload: PROGRAM.to_string(),
        sdk: sdk.then_some(PACKAGE.to_string()),
    }
}

fn config(routed: Option<Routed>) -> LoadedConfig {
    LoadedConfig {
        format: "acme.thing.v1".to_string(),
        routed,
        orchestrator: Orchestrator {
            migrate: None,
            pool: None,
            container: None,
        },
        hosts: TextMap::new(),
    }
}

fn routed() -> Routed {
    Routed {
        binary: "/opt/acme/worker".to_string(),
        payload: None,
        payload_digest: None,
        env: vec![],
        sdk: None,
    }
}

#[test]
fn the_arguments_name_the_directory_and_the_digests() {
    let delivery = delivery(true);
    assert_eq!(
        delivery.args("~/sima-runs/programs"),
        [
            "sync-serve",
            "~/sima-runs/programs",
            "--payload",
            PROGRAM,
            "--sdk",
            PACKAGE,
        ]
    );
    assert_eq!(delivery.payload(), PROGRAM);
}

#[test]
fn an_entry_declaring_no_sdk_names_none() {
    let args = delivery(false).args("programs");
    assert!(!args.iter().any(|arg| arg == "--sdk"), "{args:?}");
}

#[test]
fn the_two_trees_and_the_store_cannot_collide() {
    let dir = "/srv/programs";
    assert_eq!(
        program_tree(dir, PROGRAM).entry_point(),
        format!("{dir}/{PROGRAM}/installed/program")
    );
    assert_eq!(sdk_tree(dir, PROGRAM), format!("{dir}/sdk/{PROGRAM}"));
    assert_eq!(delivery_store(dir), format!("{dir}/store"));
    assert_eq!(PROGRAM.len(), 64);
}

#[test]
fn a_delivery_sends_both_manifests_and_every_file() {
    let manifest = Manifest::new(
        vec![FileEntry {
            path: "program".to_string(),
            executable: true,
            object: "f1".to_string(),
        }],
        None,
    )
    .expect("a manifest");
    let files = vec!["s1".to_string(), "s2".to_string()];
    assert_eq!(
        delivery(true).closure(&manifest, &files),
        [PROGRAM, "f1", PACKAGE, "s1", "s2"]
    );
    assert_eq!(
        delivery(false).closure(&manifest, &files),
        [PROGRAM, "f1"]
    );
    assert_eq!(advertised(&delivery(true)), [PROGRAM, PACKAGE]);
    assert_eq!(advertised(&delivery(false)), [PROGRAM]);
}

#[test]
fn a_program_that_cannot_travel_is_refused_naming_the_format_and_the_key() {
    assert_eq!(sendable(&config(None)), Ok(()));
    let stays = config(Some(routed()));
    let expected = Fault::Validation(
        "the program declared for format \"acme.thing.v1\" cannot reach another machine: its \
         [domain] entry names no `payload`, so a machine of the fleet never receives it and can \
         serve no worker for this run"
            .to_string(),
    );
    assert_eq!(sendable(&stays), Err(expected.clone()));
    match ingest_program(&stays) {
        Err(fault) => assert_eq!(fault, expected),
        Ok(other) => panic!("expected a refusal, got {other:?}"),
    }
}

#[test]
fn what_a_run_sends_is_its_files_or_the_digest_it_was_given() {
    assert!(matches!(ingest_program(&config(None)), Ok(None)));
    let mut entry = routed();
    entry.payload_digest = Some(PROGRAM.to_string());
    entry.sdk = Some("python".to_string());
    let held = config(Some(entry.clone()));
    let sending = ingest_program(&held).expect("sendable").expect("a program");
    assert!(matches!(sending.payload, PayloadSource::Held(digest) if digest == PROGRAM));
    assert_eq!(sending.sdk, Some(&"python".to_string()));
    entry.payload = Some(PayloadSpec {
        payload: "./payload".to_string(),
        install: None,
    });
    entry.sdk = None;
    let files = config(Some(entry));
    let sending = ingest_program(&files).expect("sendable").expect("a program");
    assert!(
        matches!(sending.payload, PayloadSource::Files(spec) if spec.payload == "./payload")
    );
    assert_eq!(sending.sdk, None);
}

#[test]
fn a_machine_of_yours_installs_in_its_own_image_at_the_same_path() {
    assert_eq!(programs_dir("~/sima-runs//"), "~/sima-runs/programs");
    let half = deliver_to_owned(&delivery(false), "~/sima-runs");
    assert_eq!(
        half.command,
        [
            "sima",
            "sync-serve",
            "~/sima-runs/programs",
            "--payload",
            PROGRAM
        ]
    );
    assert_eq!(half.mount, "~/sima-runs/programs:~/sima-runs/programs");
    assert_eq!(
        undelivered("gpubox", "refused"),
        Fault::Transport("cannot deliver the program to \"gpubox\": refused".to_string())
    );
}

#[test]
fn a_delivery_is_received_in_order_and_whole() {
    let mut state = Receiving::Open { sdk: true };
    for expected in [
        Receiving::Sync { sdk: true },
        Receiving::InstallProgram { sdk: true },
        Receiving::InstallSdk,
        Receiving::Over { received: true },
    ] {
        state = receive_program(state, Received::Done);
        assert_eq!(state, expected);
    }
    let program = Receiving::InstallProgram { sdk: false };
    assert_eq!(
        receive_program(program, Received::Done),
        Receiving::Over { received: true }
    );
    assert_eq!(
        receive_program(program, Received::Failed),
        Receiving::Over { received: false }
    );
    let over = Receiving::Over { received: false };
    assert_eq!(receive_program(over, Received::Done), over);
}
