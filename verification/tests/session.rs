use std::collections::VecDeque;

use sima_pipeline::devices::{DeviceInfo, DeviceType};
use sima_pipeline::far_config::{far_config, FarWorkers, Registration};
use sima_pipeline::far_run::{
    overstayed, settled_outcome, Disposal, FollowEnd, MigrateOutcome, RunState, SettleAnswer,
    Settled, Standing, WindAction, WindAnswer,
};
use sima_pipeline::fault::Fault;
use sima_pipeline::migrate::{
    migrate, migrate_outcome, MigrateAction, MigrateAnswer, MigrateEnd, MigratePhase,
};
use sima_pipeline::program_binding::BinaryChange;
use sima_pipeline::session::{
    session_outcome, AttachAction, AttachAnswer, ContactAction, ContactAnswer, FollowAction,
    FollowAnswer, Session, SessionAction, SessionAnswer, SessionEnd, Treatment,
};

const PID: u32 = 4242;
const RUN: &str = "5f0c";

const LOCAL: &str = r#"
    [run]
    root_seed = 5
    segments = 20
    format = "stub.v1"

    [config]
    store = "./store"
    max_attempts = 1

    [orchestrator]
    workers = 1
    migrate = "slingshot"
"#;

/// One far-side operation, in the order it was asked for.
#[derive(Debug, Clone, PartialEq, Eq)]
enum Step {
    Devices,
    Place,
    Driving,
    Start,
    Push,
    Pull,
    Follow,
    LogTail,
    Interrupt(u32),
    Terminate(u32),
}

/// What a journal line says.
#[derive(Debug, Clone, PartialEq, Eq)]
enum Line {
    Started,
    Committed(&'static str),
    Finalized,
    Failed(&'static str, &'static str),
    Exhausted,
    Diagnostic(String),
}

#[derive(Clone, Copy, PartialEq, Eq)]
enum Ending {
    OnInterrupt,
    OnTermination,
    Never,
}

/// A far side that records what it was asked to do and answers from a script,
/// and the local side of the session over it.
struct Scripted {
    rented: bool,
    alive: Option<u32>,
    ending: Ending,
    refusals: usize,
    /// How many contacts fit before the deadline.
    contacts: usize,
    image_absent: bool,
    deaf: usize,
    polls: VecDeque<Vec<Line>>,
    journal: Vec<Line>,
    log: String,
    dies_at_start: bool,
    vanishing: bool,
    follow_refusals: usize,
    /// How many refusals of the follow fit before its bound.
    attaches: usize,
    /// How many polls of the wind-down fit before its bound.
    waits: usize,
    exhausted: bool,
    interrupt: bool,
    /// How many keys the store lacks once the pull is done.
    missing: usize,
    registration: Option<Registration>,
    accept: BinaryChange,
    steps: Vec<Step>,
    placed: Option<String>,
    started_with: Option<BinaryChange>,
    closure_named: bool,
    // What the session holds while it runs.
    history: Option<Vec<Line>>,
    batch: Vec<Line>,
    state: RunState,
    emitted: Vec<Line>,
    manifest: bool,
    refusal: String,
}

fn scripted(rented: bool) -> Scripted {
    Scripted {
        rented,
        alive: None,
        ending: Ending::OnInterrupt,
        refusals: 0,
        contacts: 6,
        image_absent: false,
        deaf: 0,
        polls: VecDeque::new(),
        journal: Vec::new(),
        log: String::new(),
        dies_at_start: false,
        vanishing: false,
        follow_refusals: 0,
        attaches: 6,
        waits: 6,
        exhausted: false,
        interrupt: false,
        missing: 1,
        registration: None,
        accept: BinaryChange::Refuse,
        steps: Vec::new(),
        placed: None,
        started_with: None,
        closure_named: false,
        history: None,
        batch: Vec::new(),
        state: RunState::InProgress,
        emitted: Vec::new(),
        manifest: false,
        refusal: String::new(),
    }
}

impl Scripted {
    fn delivering(mut self, batches: Vec<Vec<Line>>) -> Scripted {
        self.polls = batches.into();
        self
    }

    fn open_follow(&mut self) -> bool {
        self.steps.push(Step::Follow);
        let unjournaled = self.journal.is_empty() && self.alive.is_none();
        if unjournaled || self.follow_refusals > 0 {
            self.follow_refusals = self.follow_refusals.saturating_sub(1);
            self.refusal = "run 00 was never started in this store".to_string();
            return false;
        }
        self.history = Some(self.journal.clone());
        true
    }

    fn poll(&mut self) -> Vec<Line> {
        if let Some(history) = self.history.take() {
            if !history.is_empty() {
                return history;
            }
        }
        let batch = self.polls.pop_front().unwrap_or_default();
        if self.vanishing && batch.is_empty() {
            self.alive = None;
        }
        let terminal = batch
            .iter()
            .any(|line| matches!(line, Line::Finalized | Line::Failed(..)));
        if terminal && self.ending != Ending::Never {
            self.alive = None;
        }
        batch
    }

    fn contact(&mut self, action: ContactAction) -> ContactAnswer {
        match action {
            ContactAction::AskDevices => {
                self.steps.push(Step::Devices);
                if self.refusals > 0 {
                    self.refusals -= 1;
                    self.refusal = "ssh: connect to host: Connection refused".to_string();
                    return ContactAnswer::Unreachable;
                }
                if self.image_absent {
                    self.refusal = "worker image \"sima:latest\" is not present".to_string();
                    return ContactAnswer::Failed;
                }
                ContactAnswer::Answered
            }
            ContactAction::ReadClock => {
                let spent = self.steps.len() >= self.contacts;
                ContactAnswer::Past(spent)
            }
            ContactAction::Sleep => ContactAnswer::Slept,
            ContactAction::Finish(end) => panic!("the contact is over: {end:?}"),
        }
    }

    fn attach(&mut self, action: AttachAction) -> AttachAnswer {
        match action {
            AttachAction::Open => {
                if self.open_follow() {
                    AttachAnswer::Opened
                } else {
                    AttachAnswer::Refused
                }
            }
            AttachAction::AskDriving => {
                self.steps.push(Step::Driving);
                AttachAnswer::Driving(self.alive.is_some())
            }
            AttachAction::ReadClock => {
                self.attaches -= 1;
                AttachAnswer::Past(self.attaches == 0)
            }
            AttachAction::Sleep => AttachAnswer::Slept,
            AttachAction::Finish(end) => panic!("the attaching is over: {end:?}"),
        }
    }

    fn follow(&mut self, action: FollowAction) -> FollowAnswer {
        match action {
            FollowAction::Poll => {
                self.batch = self.poll();
                FollowAnswer::Polled {
                    empty: self.batch.is_empty(),
                }
            }
            FollowAction::Take(treatment) => {
                if treatment != Treatment::Skip {
                    for line in &self.batch {
                        match line {
                            Line::Finalized => self.state = RunState::Finalized,
                            Line::Failed(task, reason) => {
                                self.state = RunState::Failed {
                                    task: task.to_string(),
                                    reason: reason.to_string(),
                                };
                            }
                            _ => {}
                        }
                    }
                }
                if treatment == Treatment::ApplyAndEmit {
                    self.emitted.append(&mut self.batch);
                }
                FollowAnswer::Stands(self.state.standing())
            }
            FollowAction::ReadInterrupt => FollowAnswer::Interrupted(self.interrupt),
            FollowAction::ReadBudgetClock => FollowAnswer::IntervalPassed(true),
            FollowAction::Assess => FollowAnswer::Exhausted(self.exhausted),
            FollowAction::EmitExhaustion => {
                self.emitted.push(Line::Exhausted);
                FollowAnswer::Done
            }
            FollowAction::AskHolder => FollowAnswer::Held(self.alive.is_some()),
            FollowAction::AskDriving => {
                self.steps.push(Step::Driving);
                FollowAnswer::Driving(self.alive.is_some())
            }
            FollowAction::Sleep => FollowAnswer::Done,
            FollowAction::Finish(end) => panic!("the follow is over: {end:?}"),
        }
    }

    fn wind(&mut self, action: WindAction) -> WindAnswer {
        match action {
            WindAction::Interrupt(pid) => {
                self.steps.push(Step::Interrupt(pid));
                if self.deaf > 0 {
                    self.deaf -= 1;
                } else if self.ending == Ending::OnInterrupt {
                    self.alive = None;
                }
                WindAnswer::Done
            }
            WindAction::AskDriving => {
                self.steps.push(Step::Driving);
                WindAnswer::Driving(self.alive)
            }
            WindAction::ReadClock => {
                self.waits -= 1;
                WindAnswer::Past(self.waits == 0)
            }
            WindAction::Sleep => WindAnswer::Done,
            WindAction::Warn => {
                self.emitted
                    .push(Line::Diagnostic(overstayed("slingshot", 60_000)));
                WindAnswer::Done
            }
            WindAction::Terminate(pid) => {
                self.steps.push(Step::Terminate(pid));
                if self.ending != Ending::Never {
                    self.alive = None;
                }
                WindAnswer::Done
            }
            WindAction::Finish(end) => panic!("the wind-down is over: {end:?}"),
        }
    }

    fn synthesize(&mut self) {
        let devices = vec![DeviceInfo {
            class: "10de:2684".to_string(),
            name: "NVIDIA GeForce RTX 4090".to_string(),
            device_type: DeviceType::Discrete,
            member: 0,
        }];
        let text = far_config(
            LOCAL,
            FarWorkers::Probed(&devices),
            self.registration.as_ref(),
        );
        self.placed = Some(text.expect("the synthesis"));
    }

    fn answer(&mut self, action: SessionAction) -> SessionAnswer {
        match action {
            SessionAction::Contact(action) => SessionAnswer::Contact(self.contact(action)),
            SessionAction::Synthesize => {
                self.synthesize();
                SessionAnswer::Done
            }
            SessionAction::Place => {
                self.steps.push(Step::Place);
                SessionAnswer::Done
            }
            SessionAction::AskDriving => {
                self.steps.push(Step::Driving);
                SessionAnswer::Driving(self.alive)
            }
            SessionAction::DeriveKeys | SessionAction::NameObjects => SessionAnswer::Done,
            SessionAction::NameClosure => {
                self.closure_named = true;
                SessionAnswer::Done
            }
            SessionAction::Push => {
                self.steps.push(Step::Push);
                SessionAnswer::Done
            }
            SessionAction::OpenFollow => SessionAnswer::Opened(self.open_follow()),
            SessionAction::Start => {
                self.steps.push(Step::Start);
                self.started_with = Some(self.accept);
                if !self.dies_at_start {
                    self.alive = Some(PID);
                }
                SessionAnswer::Started(PID)
            }
            SessionAction::Attach(action) => SessionAnswer::Attach(self.attach(action)),
            SessionAction::Follow(action) => SessionAnswer::Follow(self.follow(action)),
            SessionAction::Wind(action) => SessionAnswer::Wind(self.wind(action)),
            SessionAction::Pull => {
                self.steps.push(Step::Pull);
                SessionAnswer::Done
            }
            SessionAction::ReadKeys => {
                SessionAnswer::Settle(SettleAnswer::Missing(self.missing))
            }
            SessionAction::WriteManifest => {
                self.manifest = true;
                SessionAnswer::Settle(SettleAnswer::Written)
            }
            SessionAction::Finish(end) => panic!("the session is over: {end:?}"),
        }
    }

    /// What the session's end is reported as.
    fn outcome(&mut self, end: SessionEnd) -> Result<MigrateOutcome, String> {
        if matches!(end, SessionEnd::DiedUnattached | SessionEnd::DiedUnjournaled) {
            self.steps.push(Step::LogTail);
        }
        let answer = session_outcome(
            end,
            RUN.to_string(),
            "slingshot",
            self.state.clone(),
            &self.refusal,
            Ok(&self.log),
        );
        answer.map_err(|fault| match fault {
            Some(fault) => fault.message().to_string(),
            None => self.refusal.clone(),
        })
    }

    /// Drives one session to its end.
    fn run(&mut self) -> Result<MigrateOutcome, String> {
        let mut session = Session::begin(self.rented, self.registration.is_some());
        loop {
            let action = session.action();
            if let SessionAction::Finish(end) = action {
                return self.outcome(end);
            }
            let answer = self.answer(action);
            session = session.step(answer);
        }
    }

    fn count(&self, step: &Step) -> usize {
        self.steps.iter().filter(|taken| *taken == step).count()
    }

    fn committed(&self) -> Vec<&str> {
        self.emitted
            .iter()
            .filter_map(|line| match line {
                Line::Committed(task) => Some(*task),
                _ => None,
            })
            .collect()
    }
}

fn to_the_end() -> Vec<Vec<Line>> {
    vec![vec![Line::Started, Line::Finalized]]
}

fn going_on() -> Vec<Vec<Line>> {
    vec![vec![Line::Started, Line::Committed("aa")]]
}

#[test]
fn a_carried_program_reaches_the_far_config_and_the_push() {
    let mut far = scripted(false).delivering(to_the_end());
    far.registration = Some(Registration {
        format: "stub.v1".to_string(),
        payload_digest: "d1".to_string(),
        env: vec!["PATH".to_string()],
        sdk: None,
    });
    far.run().expect("the session comes home");
    let placed = far.placed.clone().expect("a config was placed");
    let table: toml::Table = toml::from_str(&placed).expect("the far config reads");
    assert_eq!(
        table["domain"]["stub.v1"]["payload_digest"].as_str(),
        Some("d1")
    );
    assert!(far.closure_named, "the program's objects travel");
}

#[test]
fn a_run_this_build_answers_pushes_no_program_and_declares_none() {
    let mut far = scripted(false).delivering(to_the_end());
    far.run().expect("the session comes home");
    let placed = far.placed.clone().expect("a config was placed");
    let table: toml::Table = toml::from_str(&placed).expect("the far config reads");
    assert!(!table.contains_key("domain"), "{placed}");
    assert!(!far.closure_named);
}

#[test]
fn the_acceptance_of_a_changed_program_reaches_the_far_start() {
    for accept in [BinaryChange::Refuse, BinaryChange::Accept] {
        let mut far = scripted(false).delivering(to_the_end());
        far.accept = accept;
        far.run().expect("the session comes home");
        assert_eq!(far.started_with, Some(accept));
    }
}

#[test]
fn a_reattach_carries_no_program_because_it_starts_nothing() {
    let mut far = scripted(false).delivering(to_the_end());
    far.alive = Some(PID);
    far.accept = BinaryChange::Accept;
    far.run().expect("the session comes home");
    assert!(!far.steps.contains(&Step::Push), "{:?}", far.steps);
    assert!(!far.steps.contains(&Step::Start), "{:?}", far.steps);
    assert_eq!(far.started_with, None);
}

const SCRIPT_FAILED: &str =
    "sima: validation error: the install script install.sh exited with exit status: 3";

#[test]
fn a_far_run_that_died_before_journaling_reports_its_own_last_words() {
    let mut far = scripted(false);
    far.dies_at_start = true;
    far.log = SCRIPT_FAILED.to_string();
    let text = far
        .run()
        .expect_err("a run that never journaled cannot be followed");
    assert!(text.contains("slingshot"), "names the machine: {text}");
    assert!(
        text.contains("install script install.sh exited"),
        "carries the far run's own words: {text}"
    );
    assert!(far.steps.contains(&Step::LogTail), "{:?}", far.steps);
}

#[test]
fn a_far_run_that_dies_over_an_earlier_session_s_journal_reports_its_death() {
    let mut far = scripted(false);
    far.dies_at_start = true;
    far.log = SCRIPT_FAILED.to_string();
    far.journal = vec![Line::Started, Line::Finalized];
    let text = far
        .run()
        .expect_err("a stale finalization is not this migration's outcome");
    assert!(text.contains("slingshot"), "names the machine: {text}");
    assert!(text.contains("install script install.sh exited"), "{text}");
    assert!(!far.steps.contains(&Step::Pull), "{:?}", far.steps);
    assert!(!far.manifest, "and nothing was sealed");
}

#[test]
fn a_far_run_that_dies_after_journaling_still_comes_home_outstanding() {
    let mut far = scripted(false).delivering(going_on());
    far.vanishing = true;
    let outcome = far.run();
    assert!(matches!(outcome, Ok(MigrateOutcome::Outstanding { .. })));
    assert_eq!(far.steps.last(), Some(&Step::Pull), "{:?}", far.steps);
}

#[test]
fn a_far_run_that_died_leaving_no_log_still_names_the_machine() {
    let mut far = scripted(false);
    far.dies_at_start = true;
    let text = far.run().expect_err("a run that never journaled");
    assert!(text.contains("slingshot"), "{text}");
    assert!(text.contains("log is empty"), "{text}");
}

#[test]
fn a_far_run_that_never_journals_but_stays_up_reports_the_follow_s_refusal() {
    let mut far = scripted(false);
    far.alive = Some(PID);
    far.follow_refusals = usize::MAX;
    let text = far.run().expect_err("a follow that never opens");
    assert!(text.contains("never started in this store"), "{text}");
    assert!(!text.contains("ended before it journaled"), "{text}");
    assert!(!far.steps.contains(&Step::LogTail), "{:?}", far.steps);
}

#[test]
fn a_far_run_still_alive_that_has_not_journaled_is_waited_for_and_asked_nothing() {
    let mut far = scripted(false).delivering(to_the_end());
    far.follow_refusals = 3;
    far.run().expect("the session comes home");
    assert_eq!(far.count(&Step::Follow), 4, "{:?}", far.steps);
    assert!(!far.steps.contains(&Step::LogTail), "{:?}", far.steps);
}

#[test]
fn the_far_side_is_asked_for_the_steps_of_the_choreography_in_order() {
    let mut far = scripted(false).delivering(to_the_end());
    far.run().expect("the session comes home");
    assert_eq!(
        far.steps,
        [
            Step::Devices,
            Step::Place,
            Step::Driving,
            Step::Push,
            Step::Follow,
            Step::Start,
            Step::Follow,
            Step::Driving,
            Step::Pull,
        ]
    );
}

#[test]
fn a_machine_that_refuses_the_first_connection_is_reached_on_the_next() {
    let mut far = scripted(false).delivering(to_the_end());
    far.refusals = 1;
    far.run().expect("the session comes home");
    assert_eq!(far.count(&Step::Devices), 2, "{:?}", far.steps);
    assert_eq!(far.steps.last(), Some(&Step::Pull), "{:?}", far.steps);
    assert_eq!(far.count(&Step::Place), 1, "{:?}", far.steps);
}

#[test]
fn a_machine_that_never_answers_fails_the_migration_within_the_bound() {
    let mut far = scripted(true);
    far.refusals = usize::MAX;
    let text = far.run().expect_err("a machine that never answers fails");
    assert!(text.contains("Connection refused"), "{text}");
    assert!(far.steps.len() > 1, "{:?}", far.steps);
    assert!(
        far.steps.iter().all(|step| *step == Step::Devices),
        "{:?}",
        far.steps
    );
}

#[test]
fn a_machine_of_yours_that_never_answers_is_given_the_same_tolerance() {
    let mut far = scripted(false);
    far.refusals = usize::MAX;
    far.run().expect_err("a machine that never answers fails");
    assert!(far.steps.len() > 1, "{:?}", far.steps);
    assert!(far.steps.iter().all(|step| *step == Step::Devices));
}

#[test]
fn a_machine_that_answers_late_within_its_stated_bound_is_still_reached() {
    let mut far = scripted(true).delivering(to_the_end());
    far.refusals = 40;
    far.contacts = 2_000;
    far.run().expect("the session comes home");
    assert_eq!(far.count(&Step::Devices), 41);
    assert_eq!(far.steps.last(), Some(&Step::Pull));
}

#[test]
fn a_contact_runs_under_the_deadline_the_acquisition_started() {
    let mut far = scripted(true);
    far.refusals = usize::MAX;
    far.contacts = 0;
    far.run().expect_err("a machine that never answers fails");
    assert_eq!(far.steps, vec![Step::Devices]);
}

#[test]
fn a_contact_that_fails_for_a_reason_waiting_cannot_fix_is_attempted_once() {
    let mut far = scripted(false);
    far.image_absent = true;
    let text = far.run().expect_err("a machine without the image");
    assert!(text.contains("image"), "{text}");
    assert_eq!(far.steps, vec![Step::Devices]);
}

#[test]
fn the_config_the_far_side_is_given_is_the_same_run() {
    let mut far = scripted(true).delivering(to_the_end());
    far.run().expect("the session comes home");
    let placed: toml::Table =
        toml::from_str(&far.placed.clone().expect("a config")).expect("it reads");
    let local: toml::Table = toml::from_str(LOCAL).expect("it reads");
    assert_eq!(placed["run"], local["run"]);
}

#[test]
fn a_raised_interrupt_detaches_and_leaves_the_far_run_computing() {
    let mut far = scripted(true).delivering(going_on());
    far.interrupt = true;
    assert_eq!(
        far.run(),
        Ok(MigrateOutcome::Detached {
            run: RUN.to_string(),
            machine: "slingshot".to_string(),
        })
    );
    assert_eq!(
        far.steps,
        [
            Step::Devices,
            Step::Place,
            Step::Driving,
            Step::Push,
            Step::Follow,
            Step::Start,
            Step::Follow,
        ],
        "nothing was signalled and nothing was pulled"
    );
    assert_eq!(far.alive, Some(PID), "the far run keeps computing");
}

#[test]
fn a_detached_migration_of_a_machine_of_yours_reports_where_the_run_is() {
    let mut far = scripted(false).delivering(going_on());
    far.interrupt = true;
    assert_eq!(
        far.run(),
        Ok(MigrateOutcome::Detached {
            run: RUN.to_string(),
            machine: "slingshot".to_string(),
        })
    );
}

#[test]
fn an_exhausted_budget_winds_the_far_run_down_and_reports_the_exhaustion() {
    let mut far = scripted(true).delivering(vec![
        vec![Line::Started, Line::Committed("aa")],
        vec![Line::Finalized],
    ]);
    far.exhausted = true;
    assert!(matches!(far.run(), Ok(MigrateOutcome::Interrupted { .. })));
    assert!(far.steps.contains(&Step::Interrupt(PID)), "{:?}", far.steps);
    assert_eq!(far.steps.last(), Some(&Step::Pull), "the results come home");
    assert!(far.emitted.contains(&Line::Exhausted));
}

#[test]
fn a_budget_within_its_ceiling_lets_the_follow_run_on() {
    let mut far = scripted(true).delivering(to_the_end());
    assert!(matches!(far.run(), Ok(MigrateOutcome::Outstanding { .. })));
    assert!(!far.steps.contains(&Step::Interrupt(PID)));
    assert!(!far.emitted.contains(&Line::Exhausted));
}

#[test]
fn a_far_run_that_outlasts_the_wind_down_is_terminated_and_the_pull_follows() {
    let mut far = scripted(true).delivering(going_on());
    far.exhausted = true;
    far.ending = Ending::OnTermination;
    assert!(matches!(far.run(), Ok(MigrateOutcome::Interrupted { .. })));
    let report = far
        .emitted
        .iter()
        .find_map(|line| match line {
            Line::Diagnostic(message) => Some(message.clone()),
            _ => None,
        })
        .expect("the timeout is reported");
    assert!(report.contains("slingshot"), "{report}");
    assert!(report.contains("did not exit"), "{report}");
    let terminated = far
        .steps
        .iter()
        .position(|step| *step == Step::Terminate(PID))
        .expect("the far run was terminated");
    let signalled = far
        .steps
        .iter()
        .position(|step| *step == Step::Interrupt(PID))
        .expect("the far run was signalled first");
    assert!(signalled < terminated);
    assert_eq!(far.steps.last(), Some(&Step::Pull), "{:?}", far.steps);
}

#[test]
fn a_far_run_that_survives_termination_fails_the_migration_naming_it() {
    let mut far = scripted(true).delivering(going_on());
    far.exhausted = true;
    far.ending = Ending::Never;
    let text = far.run().expect_err("a far run that will not end");
    assert!(text.contains("slingshot"), "names the machine: {text}");
    assert!(text.contains(&PID.to_string()), "names the pid: {text}");
    assert!(!far.steps.contains(&Step::Pull), "{:?}", far.steps);
}

#[test]
fn a_far_run_that_discards_its_first_signals_is_signalled_again() {
    let mut far = scripted(true).delivering(going_on());
    far.exhausted = true;
    far.deaf = 2;
    assert!(matches!(far.run(), Ok(MigrateOutcome::Interrupted { .. })));
    assert_eq!(far.count(&Step::Interrupt(PID)), 3, "{:?}", far.steps);
    assert!(!far
        .emitted
        .iter()
        .any(|line| matches!(line, Line::Diagnostic(_))));
}

#[test]
fn a_migration_that_brought_every_task_home_finalizes() {
    let mut far = scripted(true).delivering(to_the_end());
    far.missing = 0;
    assert_eq!(
        far.run(),
        Ok(MigrateOutcome::Finalized {
            run: RUN.to_string()
        })
    );
    assert!(far.manifest, "the manifest is written here");
}

#[test]
fn a_migration_with_tasks_outstanding_reports_the_count_and_writes_no_manifest() {
    let mut far = scripted(true).delivering(to_the_end());
    far.missing = 1;
    assert_eq!(
        far.run(),
        Ok(MigrateOutcome::Outstanding {
            run: RUN.to_string(),
            remaining: 1
        })
    );
    assert!(!far.manifest, "nothing was sealed");
}

#[test]
fn a_definitive_far_side_failure_is_the_outcome() {
    let mut far = scripted(true).delivering(vec![vec![
        Line::Started,
        Line::Failed("aa", "the candidate diverged"),
    ]]);
    assert_eq!(
        far.run(),
        Ok(MigrateOutcome::Failed {
            task: "aa".to_string(),
            reason: "the candidate diverged".to_string(),
        })
    );
    assert!(!far.manifest);
    assert_eq!(far.steps.last(), Some(&Step::Pull));
}

#[test]
fn a_machine_of_yours_already_driving_is_neither_pushed_to_nor_started() {
    let mut far = scripted(false).delivering(to_the_end());
    far.alive = Some(PID);
    far.run().expect("the session comes home");
    assert!(!far.steps.contains(&Step::Push), "{:?}", far.steps);
    assert!(!far.steps.contains(&Step::Start), "{:?}", far.steps);
}

#[test]
fn a_reattaching_migration_forwards_what_arrives_after_it_and_not_the_replay() {
    let mut far =
        scripted(false).delivering(vec![vec![Line::Committed("bb"), Line::Finalized]]);
    far.alive = Some(PID);
    far.journal = vec![Line::Started, Line::Committed("aa")];
    far.run().expect("the session comes home");
    assert_eq!(far.committed(), ["bb"], "the replayed history is discarded");
}

#[test]
fn a_migration_that_started_the_far_run_forwards_its_whole_history() {
    let mut far = scripted(false).delivering(vec![
        vec![Line::Started, Line::Committed("aa")],
        vec![Line::Committed("bb"), Line::Finalized],
    ]);
    far.run().expect("the session comes home");
    assert_eq!(far.committed(), ["aa", "bb"]);
}

// ---- The migration around the session ----

/// Drives a migration whose steps around the session all succeed, and answers
/// its end, what was done about the machine, and everything it did.
fn migrated(far: &mut Scripted, adopted: bool, acquires: bool, disposes: bool) -> Migrated {
    let mut phase = MigratePhase::ReadText;
    let mut done = Migrated {
        end: MigrateEnd::Raised,
        disposal: None,
        names_format: None,
        actions: Vec::new(),
    };
    loop {
        let action = phase.action();
        done.actions.push(action);
        let answer = match action {
            MigrateAction::Finish(end) => {
                done.end = end;
                return done;
            }
            MigrateAction::Carry => MigrateAnswer::Carries(far.registration.is_some()),
            MigrateAction::Resolve => MigrateAnswer::Rented(far.rented),
            MigrateAction::Adopt => MigrateAnswer::Adopted(adopted),
            MigrateAction::Acquire => {
                if acquires {
                    MigrateAnswer::Done
                } else {
                    MigrateAnswer::Failed
                }
            }
            MigrateAction::ReadInterrupt => MigrateAnswer::Interrupted(far.interrupt),
            MigrateAction::BuildReach { names_format } => {
                done.names_format = Some(names_format);
                MigrateAnswer::Done
            }
            MigrateAction::Session(action) => MigrateAnswer::Session(far.answer(action)),
            MigrateAction::Dispose(disposal) => {
                done.disposal = Some(disposal);
                if disposes {
                    MigrateAnswer::Done
                } else {
                    MigrateAnswer::Failed
                }
            }
            _ => MigrateAnswer::Done,
        };
        phase = migrate(phase, answer);
    }
}

struct Migrated {
    end: MigrateEnd,
    disposal: Option<Disposal>,
    names_format: Option<bool>,
    actions: Vec<MigrateAction>,
}

#[test]
fn every_path_out_of_a_migration_tears_the_rental_down() {
    let mut ok = scripted(true).delivering(to_the_end());
    let mut refused = scripted(true);
    refused.image_absent = true;
    let mut wound_down = scripted(true).delivering(going_on());
    wound_down.exhausted = true;
    let mut unkillable = scripted(true).delivering(going_on());
    unkillable.exhausted = true;
    unkillable.ending = Ending::Never;
    for far in [&mut ok, &mut refused, &mut wound_down, &mut unkillable] {
        let done = migrated(far, false, true, true);
        assert_eq!(done.disposal, Some(Disposal::Release), "{:?}", done.end);
    }
}

#[test]
fn detaching_keeps_the_machine() {
    let mut far = scripted(true).delivering(going_on());
    far.interrupt = true;
    let done = migrated(&mut far, false, true, true);
    assert_eq!(done.disposal, Some(Disposal::Keep));
    assert_eq!(done.end, MigrateEnd::Session(SessionEnd::Detached));
}

#[test]
fn a_teardown_that_fails_is_reported_unless_the_session_itself_failed() {
    let mut far = scripted(true).delivering(to_the_end());
    assert_eq!(
        migrated(&mut far, false, true, false).end,
        MigrateEnd::TeardownFailed
    );
    let mut far = scripted(true);
    far.image_absent = true;
    assert_eq!(
        migrated(&mut far, false, true, false).end,
        MigrateEnd::Session(SessionEnd::Raised)
    );
}

#[test]
fn a_migration_onto_a_machine_of_yours_rents_nothing() {
    let mut far = scripted(false);
    far.refusals = usize::MAX;
    let done = migrated(&mut far, false, true, true);
    assert_eq!(done.end, MigrateEnd::Session(SessionEnd::TimedOut));
    assert_eq!(done.disposal, None);
    for action in [
        MigrateAction::BuildProvider,
        MigrateAction::Adopt,
        MigrateAction::Acquire,
    ] {
        assert!(!done.actions.contains(&action));
    }
}

#[test]
fn an_interrupt_during_the_acquisition_abandons_it_and_rents_nothing() {
    let mut far = scripted(true);
    far.interrupt = true;
    let done = migrated(&mut far, false, false, true);
    assert_eq!(done.end, MigrateEnd::Abandoned);
    assert_eq!(done.disposal, None);
    far.interrupt = false;
    assert_eq!(
        migrated(&mut far, false, false, true).end,
        MigrateEnd::Raised,
        "an acquisition that fails of its own accord is a failure"
    );
}

#[test]
fn a_rented_far_side_already_driving_is_adopted_and_neither_pushed_to_nor_started() {
    let mut far = scripted(true).delivering(to_the_end());
    far.alive = Some(PID);
    let done = migrated(&mut far, true, false, true);
    assert!(!done.actions.contains(&MigrateAction::Acquire));
    assert!(!far.steps.contains(&Step::Push), "{:?}", far.steps);
    assert!(!far.steps.contains(&Step::Start), "{:?}", far.steps);
    assert!(far.steps.contains(&Step::Follow), "{:?}", far.steps);
}

#[test]
fn a_carried_program_is_ingested_and_its_probe_names_no_format() {
    let mut far = scripted(false).delivering(to_the_end());
    far.registration = Some(Registration {
        format: "stub.v1".to_string(),
        payload_digest: "d1".to_string(),
        env: vec![],
        sdk: None,
    });
    let done = migrated(&mut far, false, true, true);
    assert!(done.actions.contains(&MigrateAction::Ingest));
    assert_eq!(done.names_format, Some(false));
    let mut far = scripted(false).delivering(to_the_end());
    let done = migrated(&mut far, false, true, true);
    assert!(!done.actions.contains(&MigrateAction::Ingest));
    assert_eq!(done.names_format, Some(true));
}

#[test]
fn a_state_stands_as_what_it_is() {
    assert_eq!(RunState::InProgress.standing(), Standing::InProgress);
    assert_eq!(RunState::Finalized.standing(), Standing::Finalized);
    assert_eq!(RunState::Interrupted.standing(), Standing::Interrupted);
    let failed = RunState::Failed {
        task: "aa".to_string(),
        reason: "why".to_string(),
    };
    assert_eq!(failed.standing(), Standing::Failed);
    assert_ne!(FollowEnd::FarRun, FollowEnd::WoundDown);
}

#[test]
fn a_session_is_answered_by_its_end() {
    let answered = |end| {
        session_outcome(
            end,
            RUN.to_string(),
            "slingshot",
            RunState::InProgress,
            "no such run",
            Ok("last words"),
        )
    };
    assert_eq!(
        answered(SessionEnd::Settled(Settled::Outstanding(3))),
        Ok(MigrateOutcome::Outstanding {
            run: RUN.to_string(),
            remaining: 3,
        })
    );
    assert_eq!(
        answered(SessionEnd::Settled(Settled::Outstanding(3))).ok(),
        settled_outcome(
            Settled::Outstanding(3),
            RUN.to_string(),
            RunState::InProgress
        )
    );
    assert_eq!(
        answered(SessionEnd::Detached),
        Ok(MigrateOutcome::Detached {
            run: RUN.to_string(),
            machine: "slingshot".to_string(),
        })
    );
    assert_eq!(
        answered(SessionEnd::Survived(PID)),
        Err(Some(Fault::Validation(
            "the run on \"slingshot\" is still there as pid 4242 after being terminated".to_string()
        )))
    );
    for (end, what) in [
        (
            SessionEnd::DiedUnattached,
            "ended before it journaled anything, so there is nothing to follow: no such run",
        ),
        (
            SessionEnd::DiedUnjournaled,
            "ended before it journaled anything",
        ),
    ] {
        let Err(Some(Fault::Validation(text))) = answered(end) else {
            panic!("{end:?} is a refusal");
        };
        assert!(text.contains("slingshot"), "{text}");
        assert!(text.contains(what), "{text}");
        assert!(text.contains("last words"), "{text}");
    }
    for end in [
        SessionEnd::TimedOut,
        SessionEnd::Refused,
        SessionEnd::Raised,
        SessionEnd::Settled(Settled::Raised),
        SessionEnd::Settled(Settled::Failed),
    ] {
        assert_eq!(answered(end), Err(None), "{end:?}");
    }
}

#[test]
fn a_migration_is_answered_by_its_end() {
    let detached = || MigrateOutcome::Detached {
        run: RUN.to_string(),
        machine: "slingshot".to_string(),
    };
    let answered = |end, session| {
        migrate_outcome(end, session, Some("held"), RUN.to_string(), "slingshot")
    };
    let of_session = MigrateEnd::Session(SessionEnd::Detached);
    assert_eq!(
        answered(of_session, Some(Ok::<_, &str>(detached()))),
        Ok(detached())
    );
    assert_eq!(answered(of_session, Some(Err("why"))), Err(Some("why")));
    assert_eq!(answered(of_session, None), Err(None));
    assert_eq!(
        answered(MigrateEnd::Abandoned, None),
        Ok(MigrateOutcome::Abandoned {
            run: RUN.to_string(),
            machine: "slingshot".to_string(),
        })
    );
    for end in [MigrateEnd::TeardownFailed, MigrateEnd::Raised] {
        assert_eq!(answered(end, Some(Ok(detached()))), Err(Some("held")), "{end:?}");
    }
}
