use sima_pipeline::config::{Container, HostForm, OwnedHost, Pool, Rented};
use sima_pipeline::far_run::{
    died, dispose, merged, never_placed, overstayed, ready_bounds, survived, unreadable_journal,
    Disposal, WindAction, WindAnswer, WindDown, WindEnd,
};
use sima_pipeline::fault::Fault;

#[test]
fn a_verb_s_own_failure_stands_before_a_failed_teardown() {
    assert_eq!(merged::<u8, &str>(Ok(1), Ok(())), Ok(1));
    assert_eq!(merged::<u8, &str>(Ok(1), Err("teardown")), Err("teardown"));
    assert_eq!(merged::<u8, &str>(Err("verb"), Ok(())), Err("verb"));
    assert_eq!(
        merged::<u8, &str>(Err("verb"), Err("teardown")),
        Err("verb")
    );
}

#[test]
fn a_rented_machine_is_kept_only_by_a_verb_that_let_go() {
    assert_eq!(dispose(true, true), Disposal::Keep);
    assert_eq!(dispose(true, false), Disposal::Release);
    assert_eq!(dispose(false, true), Disposal::Nothing);
    assert_eq!(dispose(false, false), Disposal::Nothing);
}

#[test]
fn a_rented_machine_states_its_own_bounds() {
    let rented = HostForm::Rented(Rented {
        provider: "stub".to_string(),
        image: "image".to_string(),
        disk_gb: 1,
        ready_timeout_ms: 600_000,
        ready_poll_ms: 1_000,
    });
    assert_eq!(ready_bounds(&rented, (5, 1)), (600_000, 1_000));
    let owned = HostForm::Owned(OwnedHost {
        ssh: "box".to_string(),
        container: Container {
            image: "image".to_string(),
            runtime: "podman".to_string(),
            run_args: vec![],
        },
        pool: Pool::Workers(1),
    });
    assert_eq!(ready_bounds(&owned, (5, 1)), (5, 1));
}

#[test]
fn each_failure_names_the_machine() {
    assert_eq!(
        never_placed("box", "ab12"),
        Fault::Validation(
            "\"box\" holds no directory for run ab12: nothing was ever migrated there, so there \
             is nothing to recall. `sima migrate` is what puts a run on a machine."
                .to_string()
        )
    );
    assert_eq!(
        unreadable_journal("box", "no route"),
        Fault::Validation(
            "the journal of the run on \"box\" could not be read: no route".to_string()
        )
    );
    assert_eq!(
        overstayed("box", 30_000),
        "the run on \"box\" did not exit within 30000ms of the wind-down; terminating it"
    );
    assert_eq!(
        survived("box", 41),
        Fault::Validation(
            "the run on \"box\" is still there as pid 41 after being terminated".to_string()
        )
    );
}

#[test]
fn a_far_run_that_died_is_reported_with_its_last_words() {
    let said = |tail| died("box", "exited", tail).message().to_string();
    assert_eq!(
        said(Ok("out of memory\n")),
        "the run on \"box\" exited. Its last words were:\nout of memory\n"
    );
    assert_eq!(
        said(Ok(" \n\t")),
        "the run on \"box\" exited. Its last words were:\n(its log is empty)"
    );
    assert_eq!(
        said(Err("no route")),
        "the run on \"box\" exited. Its last words were:\n(its log could not be read: no route)"
    );
}

/// Winds a far run down that outlives so many looks.
fn wind(pid: u32, signal: bool, looks: usize, bound: usize, dies: bool) -> (Vec<WindAction>, WindEnd) {
    let mut at = WindDown::begin(pid, signal);
    let mut done = Vec::new();
    let mut looked = 0;
    let mut terminated = false;
    loop {
        let action = at.action();
        if let WindAction::Finish(end) = action {
            return (done, end);
        }
        done.push(action);
        let answer = match action {
            WindAction::AskDriving => {
                looked += 1;
                if looked > looks || (terminated && dies) {
                    WindAnswer::Driving(None)
                } else {
                    WindAnswer::Driving(Some(pid))
                }
            }
            WindAction::ReadClock => WindAnswer::Past(looked >= bound),
            WindAction::Terminate(_) => {
                terminated = true;
                WindAnswer::Done
            }
            _ => WindAnswer::Done,
        };
        at = at.step(answer);
    }
}

#[test]
fn a_far_run_that_exits_is_never_terminated() {
    let (done, end) = wind(7, true, 2, 10, true);
    assert_eq!(end, WindEnd::Gone);
    assert_eq!(done[0], WindAction::Interrupt(7));
    assert!(!done.contains(&WindAction::Terminate(7)));
    let (done, _) = wind(7, false, 2, 10, true);
    assert!(!done.contains(&WindAction::Interrupt(7)));
}

#[test]
fn a_far_run_that_outstays_the_bound_is_terminated() {
    let (done, end) = wind(7, true, 100, 3, true);
    assert_eq!(end, WindEnd::Gone);
    assert!(done.contains(&WindAction::Terminate(7)));
    let (_, end) = wind(7, true, 100, 3, false);
    assert_eq!(end, WindEnd::Survived);
}
