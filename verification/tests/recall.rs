use sima_pipeline::far_run::{
    missing, overstayed, wind_back_outcome, Disposal, MigrateOutcome, RunState, SettleAnswer,
    Settled, WindAction, WindAnswer, WindBackAction, WindBackAnswer, WindBackEnd,
};
use sima_pipeline::fault::Fault;
use sima_pipeline::recall::{
    is_brought_home, recall, recall_outcome, RecallAction, RecallAnswer, RecallEnd, RecallPhase,
};

const PID: u32 = 4242;
const RUN: &str = "5f0c";

#[derive(Debug, Clone, PartialEq, Eq)]
enum Step {
    Placed,
    Driving,
    Interrupt(u32),
    Terminate(u32),
    Snapshot,
    Pull,
}

/// A far side a recall is driven over, and the local side of it.
struct Far {
    rented: bool,
    adopted: bool,
    placed: bool,
    alive: Option<u32>,
    outlasts: bool,
    waits: usize,
    /// What the far journal projects; nothing where it cannot be read.
    journal: Option<RunState>,
    missing: usize,
    steps: Vec<Step>,
    warned: Option<String>,
    manifest: bool,
    disposal: Option<Disposal>,
}

fn far(rented: bool) -> Far {
    Far {
        rented,
        adopted: true,
        placed: true,
        alive: None,
        outlasts: false,
        waits: 3,
        journal: Some(RunState::InProgress),
        missing: 1,
        steps: Vec::new(),
        warned: None,
        manifest: false,
        disposal: None,
    }
}

impl Far {
    fn wind(&mut self, action: WindAction) -> WindAnswer {
        match action {
            WindAction::Interrupt(pid) => {
                self.steps.push(Step::Interrupt(pid));
                if !self.outlasts {
                    self.alive = None;
                }
                WindAnswer::Done
            }
            WindAction::AskDriving => {
                self.steps.push(Step::Driving);
                WindAnswer::Driving(self.alive)
            }
            WindAction::ReadClock => {
                self.waits -= 1;
                WindAnswer::Past(self.waits == 0)
            }
            WindAction::Sleep => WindAnswer::Done,
            WindAction::Warn => {
                self.warned = Some(overstayed("slingshot", 60_000));
                WindAnswer::Done
            }
            WindAction::Terminate(pid) => {
                self.steps.push(Step::Terminate(pid));
                self.alive = None;
                WindAnswer::Done
            }
            WindAction::Finish(end) => panic!("the wind-down is over: {end:?}"),
        }
    }

    fn settle(&mut self, action: RecallAction) -> SettleAnswer {
        match action {
            RecallAction::ReadKeys => SettleAnswer::Missing(self.missing),
            RecallAction::WriteManifest => {
                self.manifest = true;
                SettleAnswer::Written
            }
            other => panic!("no settling: {other:?}"),
        }
    }

    fn back(&mut self, action: WindBackAction) -> WindBackAnswer {
        match action {
            WindBackAction::AskPlaced => {
                self.steps.push(Step::Placed);
                WindBackAnswer::Placed(self.placed)
            }
            WindBackAction::AskDriving => {
                self.steps.push(Step::Driving);
                WindBackAnswer::Driving(self.alive)
            }
            WindBackAction::Wind(action) => WindBackAnswer::Wind(self.wind(action)),
            WindBackAction::ReadJournal => {
                self.steps.push(Step::Snapshot);
                match &self.journal {
                    Some(state) => WindBackAnswer::Journal(state.standing()),
                    None => WindBackAnswer::Failed,
                }
            }
            WindBackAction::Pull => {
                self.steps.push(Step::Pull);
                WindBackAnswer::Pulled
            }
            WindBackAction::ReadKeys => {
                WindBackAnswer::Settle(self.settle(RecallAction::ReadKeys))
            }
            WindBackAction::WriteManifest => {
                WindBackAnswer::Settle(self.settle(RecallAction::WriteManifest))
            }
            WindBackAction::Finish(end) => panic!("the wind-back is over: {end:?}"),
        }
    }

    fn run(&mut self) -> RecallEnd {
        let mut phase = RecallPhase::Resolve;
        loop {
            let action = phase.action();
            let answer = match action {
                RecallAction::Finish(end) => return end,
                RecallAction::Resolve => RecallAnswer::Rented(self.rented),
                RecallAction::Adopt => RecallAnswer::Adopted(self.adopted),
                RecallAction::Back(action) => RecallAnswer::Back(self.back(action)),
                RecallAction::ReadKeys | RecallAction::WriteManifest => {
                    RecallAnswer::Settle(self.settle(action))
                }
                RecallAction::Dispose(disposal) => {
                    self.disposal = Some(disposal);
                    RecallAnswer::Done
                }
                _ => RecallAnswer::Done,
            };
            phase = recall(phase, answer);
        }
    }

    fn outcome(&mut self) -> Option<MigrateOutcome> {
        match self.run() {
            RecallEnd::Back(end) => {
                let state = self.journal.clone().unwrap_or(RunState::InProgress);
                wind_back_outcome(end, RUN.to_string(), "slingshot", state, "").ok()
            }
            _ => None,
        }
    }

    /// What was done to the machine, beyond reading its journal.
    fn done(&self) -> Vec<Step> {
        self.steps
            .iter()
            .filter(|step| **step != Step::Snapshot)
            .cloned()
            .collect()
    }
}

#[test]
fn a_recall_of_a_driving_run_winds_it_down_pulls_and_tears_the_rental_down() {
    let mut far = far(true);
    far.alive = Some(PID);
    assert!(matches!(
        far.outcome(),
        Some(MigrateOutcome::Interrupted { .. })
    ));
    assert_eq!(
        far.done(),
        [
            Step::Placed,
            Step::Driving,
            Step::Interrupt(PID),
            Step::Driving,
            Step::Pull,
        ],
        "signal, wait, pull, and nothing before them"
    );
    assert_eq!(far.disposal, Some(Disposal::Release));
}

#[test]
fn a_recall_of_an_ended_run_collects_it_without_restarting_anything() {
    let mut far = far(false);
    far.missing = 0;
    assert_eq!(
        far.outcome(),
        Some(MigrateOutcome::Finalized {
            run: RUN.to_string()
        })
    );
    assert_eq!(far.done(), [Step::Placed, Step::Driving, Step::Pull]);
    assert!(far.manifest, "the manifest is written here");
}

#[test]
fn a_recall_of_an_ended_run_short_of_its_end_reports_what_is_left() {
    let mut far = far(false);
    far.missing = 1;
    assert_eq!(
        far.outcome(),
        Some(MigrateOutcome::Outstanding {
            run: RUN.to_string(),
            remaining: 1,
        })
    );
}

#[test]
fn a_recall_of_a_machine_never_migrated_to_names_what_is_missing() {
    let mut far = far(false);
    far.placed = false;
    assert_eq!(far.run(), RecallEnd::Back(WindBackEnd::NeverPlaced));
    assert_eq!(far.steps, [Step::Placed]);
    let answer = wind_back_outcome(
        WindBackEnd::NeverPlaced,
        RUN.to_string(),
        "slingshot",
        RunState::InProgress,
        "",
    );
    let Err(Some(Fault::Validation(text))) = answer else {
        panic!("expected a refusal, got {answer:?}");
    };
    assert!(text.contains("slingshot"), "names the machine: {text}");
    assert!(text.contains(RUN), "names the run: {text}");
    assert!(text.contains("nothing to recall"), "{text}");
}

#[test]
fn a_recall_of_a_far_run_that_outlasts_the_wind_down_terminates_it_and_pulls() {
    let mut far = far(true);
    far.alive = Some(PID);
    far.outlasts = true;
    assert!(matches!(
        far.outcome(),
        Some(MigrateOutcome::Interrupted { .. })
    ));
    let report = far.warned.clone().expect("the wait that ran out");
    assert!(report.contains("did not exit"), "{report}");
    assert!(far.steps.contains(&Step::Terminate(PID)));
    assert_eq!(far.steps.last(), Some(&Step::Pull));
}

#[test]
fn a_failure_the_far_journal_states_is_the_outcome() {
    let mut far = far(false);
    far.missing = 0;
    far.journal = Some(RunState::Failed {
        task: "aa".to_string(),
        reason: "diverged".to_string(),
    });
    assert_eq!(
        far.outcome(),
        Some(MigrateOutcome::Failed {
            task: "aa".to_string(),
            reason: "diverged".to_string(),
        })
    );
    assert!(!far.manifest);
}

#[test]
fn a_far_journal_that_cannot_be_read_is_never_an_empty_one() {
    let mut far = far(true);
    far.journal = None;
    assert_eq!(far.run(), RecallEnd::Back(WindBackEnd::Unreadable));
    assert!(!far.steps.contains(&Step::Pull), "nothing is settled over it");
    assert_eq!(far.disposal, Some(Disposal::Release));
    assert_eq!(
        wind_back_outcome(
            WindBackEnd::Unreadable,
            RUN.to_string(),
            "slingshot",
            RunState::InProgress,
            "the store will not open",
        ),
        Err(Some(Fault::Validation(
            "the journal of the run on \"slingshot\" could not be read: the store will not open"
                .to_string()
        )))
    );
}

#[test]
fn a_rented_machine_already_gone_settles_over_the_local_store() {
    let mut far = far(true);
    far.adopted = false;
    far.missing = 2;
    assert_eq!(
        far.outcome(),
        Some(MigrateOutcome::Outstanding {
            run: RUN.to_string(),
            remaining: 2,
        })
    );
    assert_eq!(far.steps, Vec::<Step>::new(), "nothing is contacted");
    assert_eq!(far.disposal, None);
}

#[test]
fn a_count_of_missing_records_is_what_is_left() {
    assert_eq!(missing(&vec![true, false, true, false]), 2);
    assert_eq!(missing(&vec![]), 0);
    assert!(!is_brought_home(WindBackEnd::NeverPlaced));
}

#[test]
fn what_was_brought_back_is_answered_by_its_end() {
    let answered = |end| {
        wind_back_outcome(
            end,
            RUN.to_string(),
            "slingshot",
            RunState::Finalized,
            "why",
        )
    };
    assert_eq!(
        answered(WindBackEnd::Settled(Settled::Finalized)),
        Ok(MigrateOutcome::Finalized {
            run: RUN.to_string(),
        })
    );
    assert_eq!(
        answered(WindBackEnd::Survived(PID)),
        Err(Some(Fault::Validation(
            "the run on \"slingshot\" is still there as pid 4242 after being terminated".to_string()
        )))
    );
    assert_eq!(answered(WindBackEnd::Raised), Err(None));
    assert_eq!(answered(WindBackEnd::Settled(Settled::Raised)), Err(None));
}

#[test]
fn a_recall_is_answered_by_its_end() {
    let finalized = || MigrateOutcome::Finalized {
        run: RUN.to_string(),
    };
    let back = RecallEnd::Back(WindBackEnd::Settled(Settled::Finalized));
    assert_eq!(
        recall_outcome(back, Some(Ok(finalized())), Some("held")),
        Ok(finalized())
    );
    assert_eq!(
        recall_outcome(back, Some(Err("why")), Some("held")),
        Err(Some("why"))
    );
    assert_eq!(recall_outcome::<&str>(back, None, None), Err(None));
    for end in [RecallEnd::TeardownFailed, RecallEnd::Raised] {
        assert_eq!(
            recall_outcome(end, Some(Ok(finalized())), Some("held")),
            Err(Some("held")),
            "{end:?}"
        );
    }
}
