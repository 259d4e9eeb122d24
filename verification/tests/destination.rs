use sima_pipeline::config::{
    Container, Host, HostForm, LoadedConfig, Orchestrator, OwnedHost, Pool, Rented,
};
use sima_pipeline::destination::destination_for;
use sima_pipeline::fault::Fault;
use sima_pipeline::ordered::TextMap;

/// A configuration whose orchestrator names `migrate` and declares `hosts`.
fn config(migrate: Option<&str>, hosts: Vec<(&str, Host)>) -> LoadedConfig {
    let mut declared: TextMap<Host> = TextMap::new();
    for (name, host) in hosts {
        declared.insert(name.to_string(), host);
    }
    LoadedConfig {
        format: "stub.v1".to_string(),
        routed: None,
        orchestrator: Orchestrator {
            migrate: migrate.map(str::to_string),
            pool: Some(Pool::Workers(2)),
            container: None,
        },
        hosts: declared,
    }
}

fn gpubox() -> Host {
    Host {
        form: HostForm::Owned(OwnedHost {
            ssh: "gpubox".to_string(),
            container: Container {
                image: "localhost/sima:latest".to_string(),
                runtime: "podman".to_string(),
                run_args: vec!["--gpus".to_string(), "all".to_string()],
            },
            pool: Pool::Workers(4),
        }),
        root: "~/sima-runs".to_string(),
        binary: "sima".to_string(),
    }
}

fn cloudbox() -> Host {
    Host {
        form: HostForm::Rented(Rented {
            provider: "stub".to_string(),
            image: "localhost/sima:latest".to_string(),
            disk_gb: 64,
            ready_timeout_ms: 600_000,
            ready_poll_ms: 1_000,
        }),
        root: "/scratch".to_string(),
        binary: "/opt/sima".to_string(),
    }
}

#[test]
fn an_orchestrator_naming_no_destination_is_an_error_naming_the_key() {
    let loaded = config(None, vec![]);
    match destination_for(&loaded) {
        Err(Fault::Validation(message)) => {
            assert!(message.contains("migrate"), "names the key: {message}");
        }
        other => panic!("expected a validation error, got {other:?}"),
    }
}

#[test]
fn a_machine_of_yours_resolves_to_its_own_declaration() {
    let loaded = config(Some("gpubox"), vec![("gpubox", gpubox())]);
    let destination = destination_for(&loaded).expect("the host is declared");
    assert_eq!(destination.name, "gpubox");
    assert_eq!(destination.root, "~/sima-runs");
    assert_eq!(destination.binary, "sima");
    let HostForm::Owned(owned) = destination.form else {
        panic!("expected a machine of yours");
    };
    assert_eq!(owned.ssh, "gpubox");
    assert_eq!(owned.container.image, "localhost/sima:latest");
    assert_eq!(owned.container.run_args, vec!["--gpus", "all"]);
    assert_eq!(owned.pool, Pool::Workers(4));
}

#[test]
fn a_rented_machine_resolves_to_its_specification_and_states_no_layout() {
    let loaded = config(Some("cloudbox"), vec![("cloudbox", cloudbox())]);
    let destination = destination_for(&loaded).expect("the host is declared");
    assert_eq!(destination.root, "/scratch");
    assert_eq!(destination.binary, "/opt/sima");
    let HostForm::Rented(rented) = destination.form else {
        panic!("expected a rented machine");
    };
    assert_eq!(rented.disk_gb, 64);
}

#[test]
fn a_host_serving_as_both_a_member_and_the_destination_resolves_the_same() {
    let alone = config(Some("gpubox"), vec![("gpubox", gpubox())]);
    let engaged = config(
        Some("gpubox"),
        vec![("gpubox", gpubox()), ("cloudbox", cloudbox())],
    );
    assert_eq!(
        destination_for(&alone).expect("declared").form,
        destination_for(&engaged).expect("declared").form
    );
}
