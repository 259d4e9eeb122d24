use sima_pipeline::config::{Container, HostForm, OwnedHost, Pool};
use sima_pipeline::destination::Destination;
use sima_pipeline::far_config::FarLayout;
use sima_pipeline::far_side::{
    driving, driving_script, interrupt_script, journaled_script, log_tail_script, owned_contact,
    parse_pid, place_script, placed_script, rented_contact, said_yes, shell_failure, snapshot,
    start_script, started, terminate_script, Contact, Readiness, Remote, ShellFailure,
    SnapshotAnswer, SnapshotEnd, Snapshotting,
};
use sima_pipeline::fault::Fault;
use sima_pipeline::process::Exit;
use sima_pipeline::program_binding::BinaryChange;
use sima_pipeline::reach::{Reach, SpawnMode, SshDestination};

fn layout() -> FarLayout {
    FarLayout::new("~/sima-runs/", "abc")
}

fn gpubox() -> OwnedHost {
    OwnedHost {
        ssh: "gpubox".to_string(),
        container: Container {
            image: "localhost/sima:latest".to_string(),
            runtime: "podman".to_string(),
            run_args: vec![],
        },
        pool: Pool::Workers(4),
    }
}

fn exit(code: Option<i32>) -> Exit {
    Exit {
        code,
        shown: format!("exit status: {}", code.unwrap_or(-1)),
    }
}

#[test]
fn output_that_is_not_a_pid_is_named_rather_than_taken() {
    let error = parse_pid("no such command", "gpubox").expect_err("not a pid");
    assert!(error.message().contains("no such command"), "{error:?}");
    assert!(error.message().contains("gpubox"), "{error:?}");
    assert_eq!(parse_pid("", "gpubox").expect("no pid"), None);
    assert_eq!(parse_pid("4321", "gpubox").expect("a pid"), Some(4321));
}

#[test]
fn each_way_a_pid_is_malformed_is_said_in_the_parser_s_words() {
    for said in ["no such command", "4294967296", "-1", "+", "12a"] {
        let why = said.parse::<u32>().expect_err("not a pid");
        assert_eq!(
            parse_pid(said, "gpubox"),
            Err(Fault::Validation(format!(
                "gpubox reported {said:?} instead of a pid: {why}"
            )))
        );
    }
    assert_eq!(parse_pid("+7", "gpubox"), Ok(Some(7)));
    assert_eq!(parse_pid("4294967295", "gpubox"), Ok(Some(4294967295)));
}

#[test]
fn the_acceptance_of_a_changed_program_is_what_the_far_search_is_started_with() {
    for (accept, expected) in [(BinaryChange::Accept, true), (BinaryChange::Refuse, false)] {
        let script = start_script(&layout(), "sima", accept);
        assert!(script.contains("search"), "it is a search: {script}");
        assert_eq!(script.contains("--accept-binary"), expected, "{script}");
    }
}

#[test]
fn a_start_script_enters_the_directory_detaches_the_run_and_records_it() {
    assert_eq!(
        start_script(&layout(), "sima", BinaryChange::Accept),
        "cd ~/sima-runs/abc || exit 1\n\
         setsid nohup sima search ~/sima-runs/abc/sima.toml --accept-binary > \
         ~/sima-runs/abc/run.log 2>&1 < /dev/null &\n\
         pid=$!\n\
         echo $pid > ~/sima-runs/abc/run.pid\n\
         echo $pid\n"
    );
}

#[test]
fn a_place_script_writes_the_config_in_a_quoted_heredoc() {
    let config = "[search]\nhex = \"$HOME `id` \\\\ 'quoted'\"\n";
    assert_eq!(
        place_script(&layout(), config),
        format!(
            "set -e\nmkdir -p ~/sima-runs/abc\n\
             cat > ~/sima-runs/abc/sima.toml <<'SIMA_CONFIG'\n{config}\nSIMA_CONFIG\n"
        )
    );
}

#[test]
fn a_script_that_looks_for_something_exits_zero_either_way() {
    assert_eq!(
        placed_script(&layout()),
        "[ -d ~/sima-runs/abc ] && echo yes\nexit 0\n"
    );
    assert_eq!(
        journaled_script("store/journal"),
        "[ -f store/journal ] && echo yes\nexit 0\n"
    );
    assert!(said_yes("yes\n"));
    assert!(said_yes("  yes"));
    assert!(!said_yes(""));
    assert!(!said_yes("yes yes"));
}

#[test]
fn a_driving_script_says_nothing_where_nothing_is_driving() {
    assert_eq!(
        driving_script(&layout()),
        "pid=$(cat ~/sima-runs/abc/run.pid 2>/dev/null) || exit 0\n\
         [ -n \"$pid\" ] || exit 0\n\
         kill -0 \"$pid\" 2>/dev/null && echo \"$pid\"\n\
         exit 0\n"
    );
    assert_eq!(driving("\n", "gpubox"), Ok(None));
    assert_eq!(driving("4321\n", "gpubox"), Ok(Some(4321)));
}

#[test]
fn the_signals_name_the_process() {
    assert_eq!(
        interrupt_script(4321),
        "kill -INT 4321 2>/dev/null\nexit 0\n"
    );
    assert_eq!(
        terminate_script(4321),
        "kill -KILL 4321 2>/dev/null\nexit 0\n"
    );
}

#[test]
fn the_log_is_read_by_its_last_lines() {
    assert_eq!(
        log_tail_script(&layout()),
        "tail -n 40 ~/sima-runs/abc/run.log 2>/dev/null\nexit 0\n"
    );
}

#[test]
fn a_start_that_named_no_process_is_a_fault() {
    assert_eq!(started("77\n", "gpubox"), Ok(77));
    assert_eq!(
        started("\n", "gpubox"),
        Err(Fault::Validation(
            "starting the search on gpubox reported no process id".to_string()
        ))
    );
    assert!(started("what", "gpubox").is_err());
}

#[test]
fn a_printed_pid_is_read_back() {
    for pid in [0, 1, 9, 10, 4321, u32::MAX] {
        assert_eq!(parse_pid(&pid.to_string(), "gpubox"), Ok(Some(pid)));
    }
}

#[test]
fn a_journal_that_is_not_there_is_an_absence_and_one_that_is_is_read() {
    assert_eq!(
        snapshot(Snapshotting::Probing, SnapshotAnswer::Journaled(false)),
        Snapshotting::Over(SnapshotEnd::Absent),
        "nothing has journaled there, so there is nothing to read"
    );
    let reading = snapshot(Snapshotting::Probing, SnapshotAnswer::Journaled(true));
    assert_eq!(reading, Snapshotting::Reading);
    assert_eq!(
        snapshot(reading, SnapshotAnswer::Read),
        Snapshotting::Over(SnapshotEnd::Read),
        "and it is read"
    );
}

#[test]
fn a_fault_over_an_existing_journal_is_a_failure_rather_than_no_records() {
    let reading = snapshot(Snapshotting::Probing, SnapshotAnswer::Journaled(true));
    assert_eq!(
        snapshot(reading, SnapshotAnswer::Failed),
        Snapshotting::Over(SnapshotEnd::Raised)
    );
    assert_eq!(
        snapshot(Snapshotting::Probing, SnapshotAnswer::Failed),
        Snapshotting::Over(SnapshotEnd::Raised)
    );
    let over = Snapshotting::Over(SnapshotEnd::Absent);
    assert_eq!(snapshot(over, SnapshotAnswer::Failed), over);
}

#[test]
fn a_machine_of_yours_answers_by_its_image() {
    let owned = gpubox();
    assert_eq!(
        owned_contact("gpubox", &owned.container, &exit(Some(0))),
        Ok(Contact::Answered(vec![]))
    );
    assert_eq!(
        owned_contact("gpubox", &owned.container, &exit(Some(255))),
        Ok(Contact::Unreachable(Fault::Transport(
            "cannot reach \"gpubox\": ssh exited with exit status: 255".to_string()
        )))
    );
    assert!(owned_contact("gpubox", &owned.container, &exit(Some(1))).is_err());
}

#[test]
fn a_rented_machine_answers_by_its_probe() {
    assert_eq!(rented_contact(Ok(vec![])), Contact::Answered(vec![]));
    let refused = Fault::Transport("refused".to_string());
    assert_eq!(
        rented_contact(Err(refused.clone())),
        Contact::Unreachable(refused)
    );
}

#[test]
fn the_two_forms_of_a_far_side_are_reached_and_answer_differently() {
    let owned = gpubox();
    let form = HostForm::Owned(gpubox());
    let destination = Destination {
        name: "gpubox",
        form: &form,
        root: "~/sima-runs",
        binary: "sima",
    };
    let remote = Remote::owned(&destination, &owned, "abc");
    assert_eq!(remote.reach.label(), "gpubox");
    assert_eq!(remote.layout.dir(), "~/sima-runs/abc");
    assert!(matches!(remote.readiness, Readiness::Image { host: "gpubox", .. }));

    let remote = Remote::rented(
        &destination,
        SpawnMode::Ssh,
        SshDestination::rented("203.0.113.7", 41022, "root"),
        "abc",
        Some("stub.v1".to_string()),
    );
    assert_eq!(remote.reach.label(), "203.0.113.7");
    let remote = Remote::rented(
        &destination,
        SpawnMode::Local("/tmp/sima-worker".to_string()),
        SshDestination::rented("203.0.113.7", 41022, "root"),
        "abc",
        None,
    );
    assert_eq!(remote.reach, Reach::Here("sima".to_string()));
    assert!(matches!(
        remote.readiness,
        Readiness::EnumerateDevices { format: None, .. }
    ));
}

#[test]
fn each_failure_of_the_shell_names_the_machine() {
    let why = "broken pipe".to_string();
    for (failure, text) in [
        (
            ShellFailure::Spawn {
                program: "ssh".to_string(),
                why: why.clone(),
            },
            "cannot search \"ssh\" on gpubox: broken pipe",
        ),
        (
            ShellFailure::Send { why: why.clone() },
            "cannot send a command to gpubox: broken pipe",
        ),
        (
            ShellFailure::Reap { why: why.clone() },
            "cannot reap the shell on gpubox: broken pipe",
        ),
        (
            ShellFailure::Exited {
                status: "exit status: 1".to_string(),
            },
            "a command on gpubox exited with exit status: 1",
        ),
        (
            ShellFailure::NotText { why },
            "output from gpubox is not UTF-8: broken pipe",
        ),
    ] {
        assert_eq!(
            shell_failure("gpubox", &failure),
            Fault::Transport(text.to_string())
        );
    }
}
