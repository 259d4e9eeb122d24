use sima_pipeline::far_config::relative_entry_point;
use sima_pipeline::fault::Fault;
use sima_pipeline::payload::{FileEntry, Manifest};
use sima_pipeline::program_tree::{
    build, install_failed, install_run, join_path, log_tail, lone_program, no_entry_point, parent,
    BuildAnswer, BuildEnd, BuildPhase, Placement, ProgramTree, EXECUTABLE_MODE,
};

fn tree() -> ProgramTree {
    ProgramTree::new("/runs/abc", "acme.thing.v1").expect("a format that names a directory")
}

#[test]
fn the_tree_hangs_off_the_configuration_s_directory() {
    let tree = tree();
    assert_eq!(tree.root, "/runs/abc/program/acme.thing.v1");
    assert_eq!(tree.payload(), "/runs/abc/program/acme.thing.v1/payload");
    assert_eq!(
        tree.entry_point(),
        "/runs/abc/program/acme.thing.v1/installed/program"
    );
    assert_eq!(
        tree.stamp(),
        "/runs/abc/program/acme.thing.v1/installed.digest"
    );
    assert_eq!(
        tree.entry_point(),
        format!("/runs/abc/{}", &relative_entry_point("acme.thing.v1")[2..]),
        "the path a configuration names is the path an install fills"
    );
}

#[test]
fn a_format_that_means_another_directory_is_refused() {
    for format in ["..", ".", "a/../b", ""] {
        match ProgramTree::new("/runs/abc", format) {
            Err(Fault::Validation(message)) => assert!(message.contains("payload path")),
            other => panic!("expected a refusal, got {other:?}"),
        }
    }
}

#[test]
fn two_formats_have_two_trees() {
    let other = ProgramTree::new("/runs/abc", "acme.thing.v2").expect("a tree");
    assert_ne!(other.root, tree().root);
}

#[test]
fn paths_are_joined_with_one_separator() {
    assert_eq!(join_path("a", "b"), "a/b");
    assert_eq!(join_path("a/", "b"), "a/b");
    assert_eq!(join_path("", "b"), "b");
    assert_eq!(parent("a/b/c"), Some("a/b".to_string()));
    assert_eq!(parent("a"), None);
}

#[test]
fn an_install_runs_between_its_two_directories() {
    let run = install_run(&tree(), "/abs/payload".to_string(), "/abs/installed".to_string());
    assert_eq!(
        run.argv,
        ["/bin/sh", "/runs/abc/program/acme.thing.v1/install.sh"]
    );
    assert_eq!(run.cwd, "/runs/abc/program/acme.thing.v1");
    assert_eq!(
        run.env,
        vec![
            ("SIMA_PAYLOAD_DIR".to_string(), "/abs/payload".to_string()),
            (
                "SIMA_INSTALL_DIR".to_string(),
                "/abs/installed".to_string()
            ),
        ]
    );
    assert_eq!(run.log, "/runs/abc/program/acme.thing.v1/install.log");
}

#[test]
fn a_failed_install_carries_the_log_s_last_lines() {
    let log: String = (0..30).map(|line| format!("line {line}\n")).collect();
    let tail = log_tail("install.log", Some(&log));
    let lines: Vec<&str> = tail.lines().collect();
    assert_eq!(lines.len(), 20);
    assert_eq!(lines[0], "line 10");
    assert_eq!(lines[19], "line 29");
    assert_eq!(
        log_tail("install.log", None),
        "(install.log could not be read)"
    );
    assert_eq!(
        install_failed(&tree(), "exit status: 2", Some("no compiler\n")),
        Fault::Validation(
            "the install script /runs/abc/program/acme.thing.v1/install.sh exited with exit \
             status: 2; the whole log is at /runs/abc/program/acme.thing.v1/install.log, and its \
             last lines are:\nno compiler"
                .to_string()
        )
    );
    assert_eq!(
        no_entry_point(&tree()),
        Fault::Validation(
            "the install left no executable /runs/abc/program/acme.thing.v1/installed/program; a \
             payload's install script leaves the program it built at $SIMA_INSTALL_DIR/program"
                .to_string()
        )
    );
}

/// The phases a filling goes through.
fn phases(answers: &[BuildAnswer]) -> Vec<BuildPhase> {
    let mut phases = vec![BuildPhase::ClearPayload];
    for answer in answers {
        phases.push(build(phases[phases.len() - 1], *answer));
    }
    phases
}

#[test]
fn a_scripted_payload_is_installed_by_its_script() {
    assert_eq!(
        phases(&[
            BuildAnswer::Done,
            BuildAnswer::Done,
            BuildAnswer::Materialized { scripted: true },
            BuildAnswer::Done,
            BuildAnswer::Done,
            BuildAnswer::Exited { success: true },
            BuildAnswer::Executable(true),
        ]),
        [
            BuildPhase::ClearPayload,
            BuildPhase::ClearInstalled,
            BuildPhase::Materialize,
            BuildPhase::MakeInstalled { scripted: true },
            BuildPhase::WriteScript,
            BuildPhase::RunScript,
            BuildPhase::Inspect,
            BuildPhase::Over(BuildEnd::Filled),
        ]
    );
}

#[test]
fn a_lone_file_is_the_program() {
    assert_eq!(
        phases(&[
            BuildAnswer::Done,
            BuildAnswer::Done,
            BuildAnswer::Materialized { scripted: false },
            BuildAnswer::Done,
            BuildAnswer::Done,
            BuildAnswer::Executable(false),
        ])[4..],
        [
            BuildPhase::PlaceLone,
            BuildPhase::Inspect,
            BuildPhase::Over(BuildEnd::NoEntryPoint),
        ]
    );
}

#[test]
fn a_script_that_fails_ends_the_filling_with_its_log() {
    let failing = phases(&[
        BuildAnswer::Done,
        BuildAnswer::Done,
        BuildAnswer::Materialized { scripted: true },
        BuildAnswer::Done,
        BuildAnswer::Done,
        BuildAnswer::Exited { success: false },
        BuildAnswer::LogRead,
    ]);
    assert_eq!(
        failing[6..],
        [BuildPhase::ReadLog, BuildPhase::Over(BuildEnd::ScriptFailed)]
    );
    assert_eq!(
        phases(&[BuildAnswer::Failed]),
        [BuildPhase::ClearPayload, BuildPhase::Over(BuildEnd::Raised)]
    );
}

#[test]
fn the_lone_file_is_placed_at_the_entry_point_and_runs() {
    let entry = |path: &str, object: &str| FileEntry {
        path: path.to_string(),
        executable: false,
        object: object.to_string(),
    };
    let one = Manifest::new(vec![entry("bin/tool.py", "d1")], None).expect("a manifest");
    assert_eq!(
        lone_program(&tree(), &one),
        Some(Placement {
            path: "/runs/abc/program/acme.thing.v1/installed/program".to_string(),
            object: "d1".to_string(),
            mode: EXECUTABLE_MODE,
        }),
        "whether or not it ran where it came from"
    );
    assert_eq!(EXECUTABLE_MODE, 0o755);
    let two = Manifest::new(
        vec![entry("a", "d1"), entry("b", "d2")],
        Some("true".to_string()),
    )
    .expect("a manifest");
    assert_eq!(lone_program(&tree(), &two), None);
}

#[test]
fn the_named_entry_point_is_the_installed_one_in_any_directory() {
    for (dir, entry) in [
        ("", "program/stub.v1/installed/program"),
        ("/", "/program/stub.v1/installed/program"),
        ("runs/", "runs/program/stub.v1/installed/program"),
        ("runs", "runs/program/stub.v1/installed/program"),
    ] {
        let tree = ProgramTree::new(dir, "stub.v1").expect("a format that names a directory");
        assert_eq!(tree.entry_point(), entry);
        assert_eq!(
            tree.entry_point(),
            join_path(dir, &relative_entry_point("stub.v1")[2..])
        );
    }
}
