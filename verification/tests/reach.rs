use sima_pipeline::reach::{Reach, SpawnMode, SshDestination};

/// The run every command line addresses.
const RUN: &str = "5f0c8a7f3b7b4b6a9e2c0f8f3b7b4b6a9e2c0f8f3b7b4b6a9e2c0f8f3b7b4b6a";

fn gpubox() -> Reach {
    Reach::new(&SpawnMode::Ssh, &SshDestination::known("gpubox"), "sima")
}

fn here() -> Reach {
    Reach::new(
        &SpawnMode::Local("/tmp/sima-worker".to_string()),
        &SshDestination::known("unused"),
        "/build/sima",
    )
}

#[test]
fn a_local_reach_runs_the_binary_directly() {
    let reach = Reach::new(
        &SpawnMode::Local("/tmp/sima".to_string()),
        &SshDestination::known("unused"),
        "/build/sima",
    );
    assert_eq!(
        reach.sync_serve_argv("far/store", RUN),
        ["/build/sima", "sync-serve", "far/store", "--search", RUN]
    );
}

#[test]
fn an_ssh_reach_wraps_the_far_binary_in_the_destination_s_invocation() {
    let reach = Reach::new(
        &SpawnMode::Ssh,
        &SshDestination::rented("203.0.113.7", 41022, "root"),
        "sima",
    );
    assert_eq!(
        reach.sync_serve_argv("~/sima/abc/store", RUN),
        [
            "ssh",
            "-o",
            "BatchMode=yes",
            "-o",
            "StrictHostKeyChecking=accept-new",
            "-o",
            "UserKnownHostsFile=/dev/null",
            "-o",
            "LogLevel=ERROR",
            "-o",
            "ConnectTimeout=10",
            "-p",
            "41022",
            "root@203.0.113.7",
            "--",
            "sima",
            "sync-serve",
            "~/sima/abc/store",
            "--search",
            RUN,
        ]
    );
}

#[test]
fn the_far_store_path_travels_unresolved() {
    let argv = gpubox().sync_serve_argv("~/sima/abc/store", RUN);
    assert!(argv.contains(&"~/sima/abc/store".to_string()), "{argv:?}");
}

#[test]
fn the_sync_verb_addresses_a_store_and_a_search_rather_than_a_config() {
    let argv = gpubox().sync_serve_argv("~/sima/abc/store", RUN);
    let verb = argv
        .iter()
        .position(|arg| arg == "sync-serve")
        .expect("the verb");
    assert_eq!(
        &argv[verb..],
        ["sync-serve", "~/sima/abc/store", "--search", RUN]
    );
    assert!(
        !argv.iter().any(|arg| arg.ends_with(".toml")),
        "no config travels: {argv:?}"
    );
}

#[test]
fn a_shell_argv_reaches_a_far_shell_that_reads_its_script_from_stdin() {
    assert_eq!(
        gpubox().shell_argv(),
        ["ssh", "-o", "BatchMode=yes", "gpubox", "--", "sh"]
    );
    assert_eq!(here().shell_argv(), ["/bin/sh"]);
}

#[test]
fn a_shell_script_argv_leaves_the_shell_s_input_free() {
    assert_eq!(
        gpubox().shell_script_argv("true"),
        ["ssh", "-o", "BatchMode=yes", "gpubox", "--", "sh", "-c", "true"]
    );
    assert_eq!(
        here().shell_script_argv("true"),
        ["/bin/sh", "-c", "true"]
    );
}

#[test]
fn the_binary_and_the_label_read_the_same_two_forms() {
    let over_ssh = gpubox();
    assert_eq!(over_ssh.binary(), "sima");
    assert_eq!(over_ssh.label(), "gpubox");
    let here = here();
    assert_eq!(here.binary(), "/build/sima");
    assert_eq!(here.label(), "/build/sima");
}

#[test]
fn a_follow_argv_serves_the_search_the_far_config_names() {
    let argv = gpubox().follow_serve_argv("~/sima/abc/sima.toml");
    let binary = argv.iter().position(|a| a == "sima").expect("the binary");
    assert_eq!(
        &argv[binary..],
        ["sima", "follow-serve", "~/sima/abc/sima.toml"]
    );
}

#[test]
fn a_one_shot_follow_argv_asks_the_far_side_for_the_journal_and_an_exit() {
    let argv = gpubox().follow_serve_once_argv("~/sima/abc/sima.toml");
    let binary = argv.iter().position(|a| a == "sima").expect("the binary");
    assert_eq!(
        &argv[binary..],
        ["sima", "follow-serve", "~/sima/abc/sima.toml", "--once"]
    );
}

#[test]
fn a_verb_argv_carries_every_argument_after_the_binary() {
    let argv = gpubox().verb_argv(&["search", "sima.toml"]);
    let binary = argv.iter().position(|a| a == "sima").expect("the binary");
    assert_eq!(&argv[binary..], ["sima", "search", "sima.toml"]);
}

#[test]
fn every_verb_on_one_machine_is_reached_by_the_same_words() {
    let reach = gpubox();
    let sync = reach.sync_serve_argv("s", RUN);
    let follow = reach.follow_serve_argv("c");
    assert_eq!(sync[..6], follow[..6]);
}
