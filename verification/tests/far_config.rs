use sima_pipeline::config::{Container, DeviceSelector, HostForm, OwnedHost, Pool, Rented};
use sima_pipeline::devices::{DeviceInfo, DeviceType};
use sima_pipeline::far_config::{
    far_config, far_settings, relative_entry_point, FarLayout, FarWorkers, Registration,
};
use sima_pipeline::fault::Fault;

const LOCAL: &str = r#"
    [run]
    root_seed = 9
    format = "stub.v1"
    segments = 6

    [run.generator]
    id = "stub.v1"
    behaviors = ["succeed", "succeed"]

    [run.params]
    hex = "0a0b"

    [config]
    store = "/somewhere/else/store"
    max_attempts = 3
    attempt_timeout_ms = 300000
    checkpoint_interval_steps = 500

    [orchestrator]
    migrate = "gpubox"

    [[orchestrator.device]]
    select = "intel"
    workers = 2

    [host.gpubox]
    workers = 4
    image = "localhost/sima:pinned"
    runtime = "podman"
    run_args = ["--gpus", "all"]

    [host_class.lab]
    count = 3
    workers = 1

    [host.rented]
    provider = "stub"

    [fleet]
    members = ["lab", "rented"]

    [budget]
    max_spend_usd = 5.0
"#;

const EVERY_SETTING: &str = r#"
    [run]
    root_seed = 9
    format = "stub.v1"

    [run.generator]
    id = "stub.v1"
    behaviors = ["succeed"]

    [run.params]
    hex = "0a"

    [config]
    store = "/somewhere/else/store"
    max_attempts = 3
    attempt_timeout_ms = 300000
    answer_timeout_ms = 120000
    checkpoint_interval_ms = 30000
    checkpoint_interval_steps = 500

    [orchestrator]
    migrate = "gpubox"
    workers = 1

    [host.gpubox]
    workers = 4
"#;

/// A run id and another.
const RUN: &str = "9e2c0f8f3b7b4b6a9e2c0f8f3b7b4b6a9e2c0f8f3b7b4b6a9e2c0f8f3b7b4b6a";
const OTHER: &str = "1a2c0f8f3b7b4b6a9e2c0f8f3b7b4b6a9e2c0f8f3b7b4b6a9e2c0f8f3b7b4b6a";

fn table(text: &str) -> toml::Table {
    toml::from_str(text).expect("the text reads")
}

/// The `gpubox` entry of [`LOCAL`].
fn gpubox(pool: Pool) -> OwnedHost {
    OwnedHost {
        ssh: "gpubox".to_string(),
        container: Container {
            image: "localhost/sima:pinned".to_string(),
            runtime: "podman".to_string(),
            run_args: vec!["--gpus".to_string(), "all".to_string()],
        },
        pool,
    }
}

fn declared() -> toml::Table {
    let owned = gpubox(Pool::Workers(4));
    table(&far_config(LOCAL, FarWorkers::Declared(&owned), None).expect("the synthesis succeeds"))
}

fn probed(devices: Vec<DeviceInfo>) -> toml::Table {
    table(&far_config(LOCAL, FarWorkers::Probed(&devices), None).expect("the synthesis succeeds"))
}

fn device(vendor_id: u32, device_id: u32, member: u32, device_type: DeviceType) -> DeviceInfo {
    DeviceInfo {
        class: format!("{vendor_id:04x}:{device_id:04x}"),
        name: format!("device {vendor_id:04x}:{device_id:04x}"),
        device_type,
        member,
    }
}

/// The worker layout a configuration's `[orchestrator]` states.
fn pool_in(far: &toml::Table) -> Pool {
    let section = far["orchestrator"].as_table().expect("an [orchestrator]");
    if let Some(workers) = section.get("workers") {
        return Pool::Workers(workers.as_integer().expect("a count") as usize);
    }
    let tables = section["device"].as_array().expect("device tables");
    Pool::Devices(
        tables
            .iter()
            .map(|entry| DeviceSelector {
                select: entry["select"].as_str().expect("a selector").to_string(),
                workers: entry["workers"].as_integer().expect("a count") as usize,
            })
            .collect(),
    )
}

fn selector(select: &str, workers: usize) -> DeviceSelector {
    DeviceSelector {
        select: select.to_string(),
        workers,
    }
}

fn registration(env: &[&str]) -> Registration {
    Registration {
        format: "acme.thing.v1".to_string(),
        payload_digest: RUN.to_string(),
        env: env.iter().map(|name| (*name).to_string()).collect(),
        sdk: None,
    }
}

fn far_text(registration: Option<&Registration>) -> String {
    let owned = gpubox(Pool::Workers(4));
    far_config(LOCAL, FarWorkers::Declared(&owned), registration).expect("the synthesis")
}

#[test]
fn every_setting_the_section_admits_travels() {
    let local = table(EVERY_SETTING);
    let far = far_settings(&local).expect("the synthesis succeeds");
    let local_settings = local["config"].as_table().expect("a [config] table");
    assert_eq!(
        far.keys().collect::<Vec<_>>(),
        local_settings.keys().collect::<Vec<_>>(),
        "the far section carries every key of the local one"
    );
    for (key, value) in &far {
        if key == "store" {
            assert_eq!(value.as_str(), Some("./store"));
        } else {
            assert_eq!(value, &local_settings[key], "{key} travels verbatim");
        }
    }
}

#[test]
fn the_far_side_names_its_own_store() {
    let local = table(EVERY_SETTING);
    let far = far_settings(&local).expect("the synthesis succeeds");
    assert_eq!(far["store"].as_str(), Some("./store"));
    assert_ne!(far["store"], local["config"]["store"]);
}

#[test]
fn the_layout_is_derived_from_the_run_id() {
    let layout = FarLayout::new("~/sima-runs", RUN);
    assert_eq!(layout.dir(), format!("~/sima-runs/{RUN}"));
    assert_eq!(layout.config(), format!("~/sima-runs/{RUN}/sima.toml"));
    assert_eq!(layout.pid(), format!("~/sima-runs/{RUN}/run.pid"));
    assert_eq!(layout.log(), format!("~/sima-runs/{RUN}/run.log"));
    assert_eq!(layout.store(), format!("~/sima-runs/{RUN}/store"));
    assert_eq!(layout.run(), RUN);
}

#[test]
fn a_trailing_separator_on_the_root_yields_no_double_separator() {
    assert_eq!(
        FarLayout::new("/scratch/", RUN).dir(),
        FarLayout::new("/scratch", RUN).dir()
    );
    assert_eq!(
        FarLayout::new("/scratch", RUN).dir(),
        format!("/scratch/{RUN}")
    );
}

#[test]
fn two_runs_under_one_root_never_collide() {
    assert_ne!(
        FarLayout::new("~/sima-runs", RUN).dir(),
        FarLayout::new("~/sima-runs", OTHER).dir()
    );
}

#[test]
fn the_synthesized_config_is_the_same_run() {
    let run = table(LOCAL)["run"].clone();
    assert_eq!(declared()["run"], run);
    assert_eq!(
        probed(vec![device(0x10de, 0x2684, 0, DeviceType::Discrete)])["run"],
        run
    );
}

#[test]
fn nothing_naming_another_machine_survives() {
    let far = declared();
    let keys: Vec<&str> = far.keys().map(String::as_str).collect();
    assert_eq!(keys, ["config", "orchestrator", "run"]);
    assert!(!far["orchestrator"]
        .as_table()
        .expect("a table")
        .contains_key("migrate"));
}

#[test]
fn the_run_settings_travel_and_the_local_ones_do_not() {
    let far = declared();
    assert_eq!(far["config"]["max_attempts"].as_integer(), Some(3));
    assert_eq!(
        far["config"]["attempt_timeout_ms"].as_integer(),
        Some(300_000)
    );
    assert_eq!(
        far["config"]["checkpoint_interval_steps"].as_integer(),
        Some(500)
    );
    assert_ne!(pool_in(&far), Pool::Devices(vec![selector("intel", 2)]));
}

#[test]
fn a_builtin_format_synthesizes_no_domain_table() {
    let table = table(&far_text(None));
    assert!(!table.contains_key("domain"), "{table:?}");
}

#[test]
fn a_registered_format_synthesizes_the_entry_that_installs_its_program() {
    let registration = registration(&["PATH", "PYTHONPATH"]);
    let table = table(&far_text(Some(&registration)));
    let entry = table["domain"]["acme.thing.v1"]
        .as_table()
        .expect("the entry");
    assert_eq!(
        entry["binary"].as_str(),
        Some("./program/acme.thing.v1/installed/program"),
        "the binary names what the install leaves"
    );
    assert_eq!(
        entry["payload_digest"].as_str(),
        Some(registration.payload_digest.as_str())
    );
    assert_eq!(
        entry["env"].as_array().expect("the names"),
        &[
            toml::Value::String("PATH".to_string()),
            toml::Value::String("PYTHONPATH".to_string()),
        ],
        "the names travel; the values are that machine's"
    );
    assert_eq!(entry.len(), 3, "and nothing else: {entry:?}");
}

#[test]
fn an_entry_declaring_no_names_writes_no_env_key() {
    let table = table(&far_text(Some(&registration(&[]))));
    let entry = table["domain"]["acme.thing.v1"]
        .as_table()
        .expect("the entry");
    assert!(!entry.contains_key("env"), "{entry:?}");
    assert_eq!(entry.len(), 2);
}

#[test]
fn the_sdk_an_entry_declares_reaches_the_far_entry_as_it_is_declared() {
    for (env, keys) in [(vec![], 3), (vec!["PATH"], 4)] {
        let mut declared = registration(&env);
        declared.sdk = Some("python".to_string());
        let table = table(&far_text(Some(&declared)));
        let entry = table["domain"]["acme.thing.v1"]
            .as_table()
            .expect("the entry");
        assert_eq!(entry["sdk"].as_str(), Some("python"));
        assert_eq!(entry.len(), keys, "{entry:?}");
    }
}

#[test]
fn the_registration_leaves_the_run_section_byte_for_byte() {
    let with = table(&far_text(Some(&registration(&["PATH"]))))["run"].clone();
    let without = table(&far_text(None))["run"].clone();
    assert_eq!(with, without);
}

#[test]
fn a_machine_of_yours_carries_its_container_and_layout_onto_the_orchestrator() {
    let far = declared();
    let section = far["orchestrator"].as_table().expect("an [orchestrator]");
    assert_eq!(section["image"].as_str(), Some("localhost/sima:pinned"));
    assert_eq!(section["runtime"].as_str(), Some("podman"));
    assert_eq!(
        section["run_args"].as_array().expect("the arguments"),
        &[
            toml::Value::String("--gpus".to_string()),
            toml::Value::String("all".to_string()),
        ]
    );
    assert_eq!(pool_in(&far), Pool::Workers(4));
}

#[test]
fn a_machine_of_yours_carries_its_device_tables() {
    let pool = Pool::Devices(vec![selector("nvidia", 2), selector("8086:7d67", 1)]);
    let owned = gpubox(pool.clone());
    let text = far_config(LOCAL, FarWorkers::Declared(&owned), None).expect("the synthesis");
    assert_eq!(pool_in(&table(&text)), pool);
}

#[test]
fn a_rented_machine_runs_plain_workers_with_no_container() {
    let far = probed(vec![device(0x10de, 0x2684, 0, DeviceType::Discrete)]);
    let section = far["orchestrator"].as_table().expect("an [orchestrator]");
    assert!(!section.contains_key("image"));
    assert!(!section.contains_key("runtime"));
}

#[test]
fn two_identical_cards_are_one_class_carrying_two_workers() {
    let far = probed(vec![
        device(0x10de, 0x2684, 0, DeviceType::Discrete),
        device(0x10de, 0x2684, 1, DeviceType::Discrete),
    ]);
    assert_eq!(pool_in(&far), Pool::Devices(vec![selector("10de:2684", 2)]));
}

#[test]
fn two_different_cards_are_two_classes_carrying_one_worker_each() {
    let far = probed(vec![
        device(0x8086, 0x7d67, 0, DeviceType::Integrated),
        device(0x10de, 0x2684, 0, DeviceType::Discrete),
    ]);
    assert_eq!(
        pool_in(&far),
        Pool::Devices(vec![selector("10de:2684", 1), selector("8086:7d67", 1)]),
        "ordered by class, so one enumeration always writes one file"
    );
}

#[test]
fn a_rasterizer_beside_a_card_gets_no_entry() {
    let far = probed(vec![
        device(0x10005, 0x0000, 0, DeviceType::Cpu),
        device(0x10de, 0x2684, 0, DeviceType::Discrete),
    ]);
    assert_eq!(pool_in(&far), Pool::Devices(vec![selector("10de:2684", 1)]));
}

#[test]
fn a_probe_reporting_nothing_still_gets_a_worker() {
    let far = probed(vec![]);
    assert_eq!(pool_in(&far), Pool::Workers(1));
    assert!(!far["orchestrator"]
        .as_table()
        .expect("a table")
        .contains_key("image"));
}

#[test]
fn a_machine_offering_only_a_rasterizer_still_gets_it() {
    let far = probed(vec![device(0x10005, 0x0000, 0, DeviceType::Cpu)]);
    assert_eq!(
        pool_in(&far),
        Pool::Devices(vec![selector("10005:0000", 1)])
    );
}

#[test]
fn a_local_text_that_does_not_read_is_refused_with_the_reader_s_words() {
    let devices: Vec<DeviceInfo> = vec![];
    let refused = far_config("not = = toml", FarWorkers::Probed(&devices), None);
    let why = toml::from_str::<toml::Table>("not = = toml")
        .expect_err("not a document")
        .to_string();
    assert_eq!(
        refused,
        Err(Fault::Validation(format!(
            "the local config no longer parses: {why}"
        )))
    );
}

#[test]
fn a_local_config_without_its_sections_is_refused() {
    let devices: Vec<DeviceInfo> = vec![];
    assert_eq!(
        far_config("[config]\nstore = \"s\"\n", FarWorkers::Probed(&devices), None),
        Err(Fault::Validation(
            "the local config names no [run] section".to_string()
        ))
    );
    let no_settings = far_config("[run]\nroot_seed = 1\n", FarWorkers::Probed(&devices), None);
    match no_settings {
        Err(Fault::Validation(message)) => assert!(message.contains("[config]"), "{message}"),
        other => panic!("expected a refusal, got {other:?}"),
    }
}

#[test]
fn the_entry_point_is_named_by_its_format() {
    assert_eq!(
        relative_entry_point("acme.thing.v1"),
        "./program/acme.thing.v1/installed/program"
    );
}

#[test]
fn the_form_of_a_machine_decides_its_layout() {
    let devices = vec![device(0x10de, 0x2684, 0, DeviceType::Discrete)];
    let owned = HostForm::Owned(gpubox(Pool::Workers(4)));
    assert!(matches!(
        FarWorkers::for_form(&owned, &devices),
        FarWorkers::Declared(_)
    ));
    let rented = HostForm::Rented(Rented {
        provider: "stub".to_string(),
        image: "image".to_string(),
        disk_gb: 1,
        ready_timeout_ms: 1,
        ready_poll_ms: 1,
    });
    assert!(matches!(
        FarWorkers::for_form(&rented, &devices),
        FarWorkers::Probed(_)
    ));
}

#[test]
fn texts_and_flags_of_every_shape_are_the_same_on_the_far_side() {
    let local = r#"
        [run]
        root_seed = -9
        dry = true
        empty = []
        quiet = ""
        lines = "one\r\ntwo\n\"\"\"three\"\"\"\n'''four'''"
        control = "\u0001\t\u007f\\ \u2028 \U0001F600"
        "a key with.dots" = [[1, 2], [], [{ x = "]" }, { }]]

        [run.nested.deeper]

        [[run.cases]]

        [[run.cases]]
        "" = 'C:\temp'

        [config]
        store = "./here"
        flag = false
    "#;
    let devices = vec![];
    let text = far_config(local, FarWorkers::Probed(&devices), None).expect("the synthesis");
    let far = table(&text);
    assert_eq!(far["run"], table(local)["run"]);
    assert_eq!(far["config"]["flag"], toml::Value::Boolean(false));
    assert_eq!(far.len(), 3);
}

#[test]
fn dates_and_numbers_of_every_shape_are_the_same_on_the_far_side() {
    let local = r#"
        [run]
        since = 1979-05-27T07:32:00Z
        offset = 1979-05-27T00:32:00.999999-07:00
        spaced = 1979-05-27 07:32:00
        fraction = 1979-05-27T07:32:00.0
        day = 1979-05-27
        hour = 07:32:60
        days = [1979-05-27, { at = 00:32:00.999999 }]
        rate = 6.626e-34
        whole = 1e6
        huge = 1e308
        minus = -0.0
        up = inf
        down = -inf

        [[run.cases]]
        on = 2024-02-29

        [config]
        store = "./here"
        until = 2030-01-01T00:00:00+00:00
        ratio = 0.1
    "#;
    let devices = vec![];
    let text = far_config(local, FarWorkers::Probed(&devices), None).expect("the synthesis");
    let far = table(&text);
    assert_eq!(far["run"], table(local)["run"]);
    assert_eq!(far["config"]["until"], table(local)["config"]["until"]);
    assert_eq!(far["config"]["ratio"], toml::Value::Float(0.1));
    let minus = far["run"]["minus"].as_float().expect("a float");
    assert!(minus == 0.0 && minus.is_sign_negative());
}

#[test]
fn the_order_devices_are_listed_in_makes_no_difference() {
    let mut devices = vec![
        device(0x8086, 0x7d67, 0, DeviceType::Integrated),
        device(0x10de, 0x2684, 0, DeviceType::Discrete),
        device(0x10005, 0x0000, 0, DeviceType::Cpu),
        device(0x10de, 0x2684, 1, DeviceType::Discrete),
    ];
    let listed = far_config(LOCAL, FarWorkers::Probed(&devices), None).expect("the synthesis");
    assert_eq!(
        pool_in(&table(&listed)),
        Pool::Devices(vec![selector("10de:2684", 2), selector("8086:7d67", 1)])
    );
    for _ in 0..devices.len() {
        devices.rotate_left(1);
        let turned = far_config(LOCAL, FarWorkers::Probed(&devices), None).expect("the synthesis");
        assert_eq!(turned, listed);
    }
    devices.reverse();
    let turned = far_config(LOCAL, FarWorkers::Probed(&devices), None).expect("the synthesis");
    assert_eq!(turned, listed);
}
