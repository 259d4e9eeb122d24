use sima_pipeline::far_run::RunState;
use sima_pipeline::fault::Fault;
use sima_pipeline::remove::{find_run, remove, RemoveAnswer, RemoveEnd, RemovePhase};
use sima_pipeline::runs::{check_store, resolve_run, runs, RunStatus, RunSummary};

const FIRST: &str = "a1b2c3d4e5f6a1b2c3d4e5f6a1b2c3d4";
const SECOND: &str = "a9b2c3d4e5f6a1b2c3d4e5f6a1b2c3d4";

fn two_runs() -> Vec<String> {
    vec![FIRST.to_string(), SECOND.to_string()]
}

fn finalized(tasks: usize) -> Result<RunStatus, String> {
    Ok(RunStatus {
        state: RunState::Finalized,
        tasks,
        committed: tasks,
    })
}

#[test]
fn a_store_lists_every_run_it_holds_with_its_state_and_ledger() {
    let listed = runs(vec![
        (FIRST.to_string(), finalized(2)),
        (SECOND.to_string(), finalized(3)),
    ])
    .expect("both journals read");
    assert_eq!(listed.len(), 2, "{listed:?}");
    for summary in &listed {
        assert_eq!(summary.state, RunState::Finalized);
        assert!(summary.tasks > 0, "{summary:?}");
        assert_eq!(summary.committed, summary.tasks);
    }
    assert_eq!(
        listed[1],
        RunSummary {
            run: SECOND.to_string(),
            state: RunState::Finalized,
            tasks: 3,
            committed: 3
        }
    );
    assert_eq!(listed[0].run, FIRST);
}

#[test]
fn a_journal_that_does_not_read_is_the_answer() {
    let listed = runs(vec![
        (FIRST.to_string(), finalized(2)),
        (SECOND.to_string(), Err("torn".to_string())),
        ("third".to_string(), Err("also torn".to_string())),
    ]);
    assert_eq!(listed, Err("torn".to_string()));
}

#[test]
fn a_store_that_was_never_driven_in_is_refused_rather_than_created() {
    let error = check_store("/w/nothing-here", false).expect_err("a store that is not there");
    assert!(error.message().contains("does not exist"), "{error:?}");
    assert_eq!(
        error,
        Fault::Validation(
            "store /w/nothing-here does not exist: no run was ever driven there".to_string()
        )
    );
    assert_eq!(check_store("/w/store", true), Ok(()));
}

#[test]
fn an_unambiguous_prefix_addresses_a_run_and_an_ambiguous_one_names_them() {
    let store = two_runs();
    assert_eq!(resolve_run(&store, &FIRST[..12]), Ok(FIRST.to_string()));
    assert_eq!(resolve_run(&store, FIRST), Ok(FIRST.to_string()));

    let shared = &FIRST[..1];
    let error = resolve_run(&store, shared).expect_err("both runs begin that way");
    let text = error.message();
    assert!(text.contains("ambiguous"), "{text}");
    assert!(text.contains(FIRST), "{text}");
    assert!(text.contains(SECOND), "{text}");
    assert_eq!(
        text,
        format!("prefix a is ambiguous: it matches {FIRST}, {SECOND}")
    );

    let error = resolve_run(&store, "ffffffffffff").expect_err("no run matches");
    assert!(error.message().contains("no run"), "{error:?}");
}

#[test]
fn an_empty_prefix_is_refused_rather_than_read_as_any_run() {
    let only = vec![FIRST.to_string()];
    let error = resolve_run(&only, "").expect_err("an empty prefix names no run");
    assert!(error.message().contains("--run"), "names the flag: {error:?}");
    assert_eq!(
        only,
        vec![FIRST.to_string()],
        "and nothing was touched"
    );
}

#[test]
fn a_run_that_is_not_in_the_store_is_not_removed() {
    assert_eq!(find_run(&two_runs(), SECOND), Ok(()));
    assert_eq!(
        find_run(&two_runs(), "gone"),
        Err(Fault::Validation(
            "cannot remove run gone: run not found".to_string()
        ))
    );
}

#[test]
fn a_removal_checks_opens_finds_locks_and_deletes() {
    let mut phase = RemovePhase::CheckStore;
    for (answer, expected) in [
        (RemoveAnswer::IsDirectory(true), RemovePhase::OpenStore),
        (RemoveAnswer::Done, RemovePhase::FindRun),
        (RemoveAnswer::Found(true), RemovePhase::Lock),
        (RemoveAnswer::Done, RemovePhase::Delete),
        (
            RemoveAnswer::Done,
            RemovePhase::Over(RemoveEnd::Removed),
        ),
    ] {
        phase = remove(phase, answer);
        assert_eq!(phase, expected);
    }
    assert_eq!(
        remove(RemovePhase::CheckStore, RemoveAnswer::IsDirectory(false)),
        RemovePhase::Over(RemoveEnd::NoStore)
    );
    assert_eq!(
        remove(RemovePhase::FindRun, RemoveAnswer::Found(false)),
        RemovePhase::Over(RemoveEnd::Refused)
    );
    assert_eq!(
        remove(RemovePhase::Lock, RemoveAnswer::Failed),
        RemovePhase::Over(RemoveEnd::Raised)
    );
}
