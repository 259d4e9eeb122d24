//! Moving a run onto another machine, from the configuration to the outcome.
//!
//! What is refused is refused before anything is opened, moved, or rented: the
//! program that cannot travel first, then the missing destination. The store is
//! opened and the run's lock taken before any machine is asked for, and held to
//! the end. A rented machine is disposed of on every path out.
use vstd::prelude::*;
use vstd::string::*;

use crate::config::{LoadedConfig, PayloadSpec, Routed};
use crate::far_run::{dispose, Disposal, MigrateOutcome, Settled};
use crate::fault::Fault;
use crate::routine::Routine;
use crate::session::{Session, SessionAction, SessionAnswer, SessionEnd, SessionPhase};
use crate::text::{cat3, quote};

verus! {

// ---- What a migration carries ------------------------------------------------------

/// What a migration has to carry beyond the run's own closure: the program its
/// format is served by.
#[derive(Debug)]
pub struct Carried<'a> {
    /// What travels.
    pub payload: &'a PayloadSpec,
    /// The names of the variables the program receives.
    pub env: &'a Vec<String>,
    /// The SDK the entry declares.
    pub sdk: &'a Option<String>,
}

/// What a routed format whose entry states no payload is refused with.
pub open spec fn cannot_travel(format: Seq<char>, binary: Seq<char>) -> Seq<char> {
    "the run's format "@ + crate::text::quoted(format) + " is served by the program "@ + binary
        + ", and the [domain."@ + crate::text::quoted(format)
        + "] entry states no payload: a migration carries the program to the destination as objects, so the entry names what travels. Add a payload key naming the file or directory that is the program, or drive this run on the machine the program is installed on."@
}

/// What the run `loaded` describes must carry; nothing for a format the build
/// answers. A routed format whose entry states no payload is a program this
/// machine holds and no other, and that is refused.
pub fn carried(loaded: &LoadedConfig) -> (r: Result<Option<Carried<'_>>, Fault>)
    ensures
        match loaded.routed {
            None => r matches Ok(None),
            Some(routed) => match routed.payload {
                None => r matches Err(fault) && fault@ == crate::fault::Complaint::Validation(
                    cannot_travel(loaded.format@, routed.binary@),
                ),
                Some(payload) => r matches Ok(Some(carried)) && *carried.payload == payload
                    && *carried.env == routed.env && *carried.sdk == routed.sdk,
            },
        },
{
    let routed: &Routed = match &loaded.routed {
        None => {
            return Ok(None);
        },
        Some(routed) => routed,
    };
    match &routed.payload {
        None => {
            let format: String = quote(loaded.format.as_str());
            let mut message: String = cat3(
                "the run's format ",
                format.as_str(),
                " is served by the program ",
            );
            message.append(routed.binary.as_str());
            message.append(", and the [domain.");
            message.append(format.as_str());
            message.append(
                "] entry states no payload: a migration carries the program to the destination as objects, so the entry names what travels. Add a payload key naming the file or directory that is the program, or drive this run on the machine the program is installed on.",
            );
            Err(Fault::Validation(message))
        },
        Some(payload) => Ok(Some(Carried { payload, env: &routed.env, sdk: &routed.sdk })),
    }
}

// ---- The migration --------------------------------------------------------------------

/// Where a migration is.
#[derive(Debug, Clone, Copy, PartialEq, Eq, Structural)]
pub enum MigratePhase {
    /// The configuration's own text is read.
    ReadText,
    /// What must travel is told from what cannot.
    Carry,
    /// The destination is resolved.
    Resolve { carries: bool },
    /// The local store is opened.
    OpenStore { carries: bool, rented: bool },
    /// The program's bytes become objects.
    Ingest { rented: bool },
    /// The run is registered.
    Register { carries: bool, rented: bool },
    /// The run's lock is taken.
    Lock { carries: bool, rented: bool },
    /// The control plane is built.
    BuildProvider { carries: bool },
    /// The machine already hosting the run is looked for.
    Adopt { carries: bool },
    /// There is none: a machine is rented.
    Acquire { carries: bool },
    /// The acquisition failed: did the operator let go?
    ReadInterrupt,
    /// The way to the machine is built.
    BuildReach { carries: bool, rented: bool },
    /// The session runs.
    Session(Session),
    /// The machine is disposed of.
    Dispose { end: SessionEnd, disposal: Disposal },
    /// It is over.
    Over(MigrateEnd),
}

/// How a migration ended.
#[derive(Debug, Clone, Copy, PartialEq, Eq, Structural)]
pub enum MigrateEnd {
    /// As its session did.
    Session(SessionEnd),
    /// The operator let go before a far run was started.
    Abandoned,
    /// The session came home, and the machine could not be torn down.
    TeardownFailed,
    /// An operation failed, and its failure is the answer.
    Raised,
}

/// What a migration does next.
#[derive(Debug, Clone, Copy, PartialEq, Eq, Structural)]
pub enum MigrateAction {
    ReadText,
    Carry,
    Resolve,
    OpenStore,
    Ingest,
    Register,
    Lock,
    BuildProvider,
    Adopt,
    Acquire,
    ReadInterrupt,
    /// Build the way to the machine. The probe of a run that carries a program
    /// asks about no format: nothing there can resolve one it was not given.
    BuildReach { names_format: bool },
    Session(SessionAction),
    Dispose(Disposal),
    Finish(MigrateEnd),
}

/// What came of an action of a migration.
#[derive(Debug, Clone, Copy, PartialEq, Eq, Structural)]
pub enum MigrateAnswer {
    Done,
    /// Whether the run carries a program.
    Carries(bool),
    /// Whether the destination is rented.
    Rented(bool),
    /// Whether a machine already hosting the run was adopted.
    Adopted(bool),
    /// Whether the operator let go.
    Interrupted(bool),
    Session(SessionAnswer),
    Failed,
}

/// Whether a session ended with something to bring home.
pub open spec fn came_home(end: SessionEnd) -> bool {
    match end {
        SessionEnd::Settled(settled) => settled != Settled::Raised,
        SessionEnd::Detached => true,
        _ => false,
    }
}

impl MigratePhase {
    /// The action a phase calls for.
    pub open spec fn act(self) -> MigrateAction {
        match self {
            MigratePhase::ReadText => MigrateAction::ReadText,
            MigratePhase::Carry => MigrateAction::Carry,
            MigratePhase::Resolve { .. } => MigrateAction::Resolve,
            MigratePhase::OpenStore { .. } => MigrateAction::OpenStore,
            MigratePhase::Ingest { .. } => MigrateAction::Ingest,
            MigratePhase::Register { .. } => MigrateAction::Register,
            MigratePhase::Lock { .. } => MigrateAction::Lock,
            MigratePhase::BuildProvider { .. } => MigrateAction::BuildProvider,
            MigratePhase::Adopt { .. } => MigrateAction::Adopt,
            MigratePhase::Acquire { .. } => MigrateAction::Acquire,
            MigratePhase::ReadInterrupt => MigrateAction::ReadInterrupt,
            MigratePhase::BuildReach { carries, .. } => MigrateAction::BuildReach {
                names_format: !carries,
            },
            MigratePhase::Session(session) => MigrateAction::Session(session.act()),
            MigratePhase::Dispose { disposal, .. } => MigrateAction::Dispose(disposal),
            MigratePhase::Over(end) => MigrateAction::Finish(end),
        }
    }

    /// Where a session leaves the migration: the machine is disposed of by what
    /// it came home with.
    pub open spec fn sessioned(session: Session) -> MigratePhase {
        match session.phase {
            SessionPhase::Over(end) => if session.rented {
                MigratePhase::Dispose {
                    end,
                    disposal: crate::far_run::disposal_of(true, end == SessionEnd::Detached),
                }
            } else {
                MigratePhase::Over(MigrateEnd::Session(end))
            },
            _ => MigratePhase::Session(session),
        }
    }

    /// Where an answer takes the migration.
    pub open spec fn next(self, answer: MigrateAnswer) -> MigratePhase {
        match (self, answer) {
            (MigratePhase::Over(_), _) => self,
            (MigratePhase::Session(session), MigrateAnswer::Session(a)) => MigratePhase::sessioned(
                session.next(a),
            ),
            (MigratePhase::Session(_), _) => self,
            (MigratePhase::Dispose { end, .. }, MigrateAnswer::Done) => MigratePhase::Over(
                MigrateEnd::Session(end),
            ),
            (MigratePhase::Dispose { end, .. }, MigrateAnswer::Failed) => MigratePhase::Over(
                if came_home(end) {
                    MigrateEnd::TeardownFailed
                } else {
                    MigrateEnd::Session(end)
                },
            ),
            (MigratePhase::Acquire { .. }, MigrateAnswer::Failed) => MigratePhase::ReadInterrupt,
            (_, MigrateAnswer::Failed) => MigratePhase::Over(MigrateEnd::Raised),
            (MigratePhase::ReadText, MigrateAnswer::Done) => MigratePhase::Carry,
            (MigratePhase::Carry, MigrateAnswer::Carries(carries)) => MigratePhase::Resolve {
                carries,
            },
            (MigratePhase::Resolve { carries }, MigrateAnswer::Rented(rented)) => {
                MigratePhase::OpenStore { carries, rented }
            },
            (MigratePhase::OpenStore { carries, rented }, MigrateAnswer::Done) => if carries {
                MigratePhase::Ingest { rented }
            } else {
                MigratePhase::Register { carries, rented }
            },
            (MigratePhase::Ingest { rented }, MigrateAnswer::Done) => MigratePhase::Register {
                carries: true,
                rented,
            },
            (MigratePhase::Register { carries, rented }, MigrateAnswer::Done) => {
                MigratePhase::Lock { carries, rented }
            },
            (MigratePhase::Lock { carries, rented }, MigrateAnswer::Done) => if rented {
                MigratePhase::BuildProvider { carries }
            } else {
                MigratePhase::BuildReach { carries, rented }
            },
            (MigratePhase::BuildProvider { carries }, MigrateAnswer::Done) => MigratePhase::Adopt {
                carries,
            },
            (MigratePhase::Adopt { carries }, MigrateAnswer::Adopted(adopted)) => if adopted {
                MigratePhase::BuildReach { carries, rented: true }
            } else {
                MigratePhase::Acquire { carries }
            },
            (MigratePhase::Acquire { carries }, MigrateAnswer::Done) => MigratePhase::BuildReach {
                carries,
                rented: true,
            },
            (MigratePhase::ReadInterrupt, MigrateAnswer::Interrupted(interrupted)) => {
                MigratePhase::Over(
                    if interrupted {
                        MigrateEnd::Abandoned
                    } else {
                        MigrateEnd::Raised
                    },
                )
            },
            (MigratePhase::BuildReach { carries, rented }, MigrateAnswer::Done) => {
                MigratePhase::Session(Session::starting(rented, carries))
            },
            _ => self,
        }
    }

    /// What to do next.
    pub fn action(&self) -> (r: MigrateAction)
        ensures
            r == self.act(),
    {
        match self {
            MigratePhase::ReadText => MigrateAction::ReadText,
            MigratePhase::Carry => MigrateAction::Carry,
            MigratePhase::Resolve { .. } => MigrateAction::Resolve,
            MigratePhase::OpenStore { .. } => MigrateAction::OpenStore,
            MigratePhase::Ingest { .. } => MigrateAction::Ingest,
            MigratePhase::Register { .. } => MigrateAction::Register,
            MigratePhase::Lock { .. } => MigrateAction::Lock,
            MigratePhase::BuildProvider { .. } => MigrateAction::BuildProvider,
            MigratePhase::Adopt { .. } => MigrateAction::Adopt,
            MigratePhase::Acquire { .. } => MigrateAction::Acquire,
            MigratePhase::ReadInterrupt => MigrateAction::ReadInterrupt,
            MigratePhase::BuildReach { carries, .. } => MigrateAction::BuildReach {
                names_format: !*carries,
            },
            MigratePhase::Session(session) => MigrateAction::Session(session.action()),
            MigratePhase::Dispose { disposal, .. } => MigrateAction::Dispose(*disposal),
            MigratePhase::Over(end) => MigrateAction::Finish(*end),
        }
    }

    fn after_session(session: Session) -> (r: MigratePhase)
        ensures
            r == MigratePhase::sessioned(session),
    {
        match session.phase {
            SessionPhase::Over(end) => {
                if session.rented {
                    let detached: bool = end == SessionEnd::Detached;
                    MigratePhase::Dispose { end, disposal: dispose(true, detached) }
                } else {
                    MigratePhase::Over(MigrateEnd::Session(end))
                }
            },
            _ => MigratePhase::Session(session),
        }
    }

    /// The migration after the answers, one after another.
    pub open spec fn after(self, answers: Seq<MigrateAnswer>) -> MigratePhase
        decreases answers.len(),
    {
        if answers.len() == 0 {
            self
        } else {
            self.after(answers.drop_last()).next(answers.last())
        }
    }
}

/// Whether a session ended with something to bring home.
pub fn is_home(end: SessionEnd) -> (r: bool)
    ensures
        r == came_home(end),
{
    match end {
        SessionEnd::Settled(settled) => settled != Settled::Raised,
        SessionEnd::Detached => true,
        _ => false,
    }
}

/// What a migration of `run` to `machine` is answered with, where it ended so:
/// as its `session` was, that no far run was started, or with the failure that
/// was `held`.
pub fn migrate_outcome<E>(
    end: MigrateEnd,
    session: Option<Result<MigrateOutcome, E>>,
    held: Option<E>,
    run: String,
    machine: &str,
) -> (r: Result<MigrateOutcome, Option<E>>)
    ensures
        match end {
            MigrateEnd::Session(_) => r == (match session {
                Some(Ok(outcome)) => Ok::<MigrateOutcome, Option<E>>(outcome),
                Some(Err(failure)) => Err::<MigrateOutcome, Option<E>>(Some(failure)),
                None => Err::<MigrateOutcome, Option<E>>(None),
            }),
            MigrateEnd::Abandoned => r matches Ok(MigrateOutcome::Abandoned { run: id, machine: at })
                && id == run && at@ == machine@,
            MigrateEnd::TeardownFailed | MigrateEnd::Raised => r == Err::<
                MigrateOutcome,
                Option<E>,
            >(held),
        },
{
    match end {
        MigrateEnd::Session(_) => match session {
            Some(Ok(outcome)) => Ok(outcome),
            Some(Err(failure)) => Err(Some(failure)),
            None => Err(None),
        },
        MigrateEnd::Abandoned => Ok(MigrateOutcome::Abandoned { run, machine: machine.to_owned() }),
        MigrateEnd::TeardownFailed | MigrateEnd::Raised => Err(held),
    }
}

/// One step of a migration: where the answer to the action at `at` takes it.
/// A migration begins at [`MigratePhase::ReadText`].
pub fn migrate(at: MigratePhase, answer: MigrateAnswer) -> (r: MigratePhase)
    ensures
        r == at.next(answer),
{
    match (at, answer) {
        (MigratePhase::Over(_), _) => at,
        (MigratePhase::Session(session), MigrateAnswer::Session(a)) => {
            MigratePhase::after_session(session.step(a))
        },
        (MigratePhase::Session(_), _) => at,
        (MigratePhase::Dispose { end, .. }, MigrateAnswer::Done) => MigratePhase::Over(
            MigrateEnd::Session(end),
        ),
        (MigratePhase::Dispose { end, .. }, MigrateAnswer::Failed) => {
            if is_home(end) {
                MigratePhase::Over(MigrateEnd::TeardownFailed)
            } else {
                MigratePhase::Over(MigrateEnd::Session(end))
            }
        },
        (MigratePhase::Acquire { .. }, MigrateAnswer::Failed) => MigratePhase::ReadInterrupt,
        (_, MigrateAnswer::Failed) => MigratePhase::Over(MigrateEnd::Raised),
        (MigratePhase::ReadText, MigrateAnswer::Done) => MigratePhase::Carry,
        (MigratePhase::Carry, MigrateAnswer::Carries(carries)) => MigratePhase::Resolve { carries },
        (MigratePhase::Resolve { carries }, MigrateAnswer::Rented(rented)) => {
            MigratePhase::OpenStore { carries, rented }
        },
        (MigratePhase::OpenStore { carries, rented }, MigrateAnswer::Done) => {
            if carries {
                MigratePhase::Ingest { rented }
            } else {
                MigratePhase::Register { carries, rented }
            }
        },
        (MigratePhase::Ingest { rented }, MigrateAnswer::Done) => MigratePhase::Register {
            carries: true,
            rented,
        },
        (MigratePhase::Register { carries, rented }, MigrateAnswer::Done) => MigratePhase::Lock {
            carries,
            rented,
        },
        (MigratePhase::Lock { carries, rented }, MigrateAnswer::Done) => {
            if rented {
                MigratePhase::BuildProvider { carries }
            } else {
                MigratePhase::BuildReach { carries, rented }
            }
        },
        (MigratePhase::BuildProvider { carries }, MigrateAnswer::Done) => MigratePhase::Adopt {
            carries,
        },
        (MigratePhase::Adopt { carries }, MigrateAnswer::Adopted(adopted)) => {
            if adopted {
                MigratePhase::BuildReach { carries, rented: true }
            } else {
                MigratePhase::Acquire { carries }
            }
        },
        (MigratePhase::Acquire { carries }, MigrateAnswer::Done) => MigratePhase::BuildReach {
            carries,
            rented: true,
        },
        (MigratePhase::ReadInterrupt, MigrateAnswer::Interrupted(interrupted)) => {
            if interrupted {
                MigratePhase::Over(MigrateEnd::Abandoned)
            } else {
                MigratePhase::Over(MigrateEnd::Raised)
            }
        },
        (MigratePhase::BuildReach { carries, rented }, MigrateAnswer::Done) => {
            MigratePhase::Session(Session::begin(rented, carries))
        },
        _ => at,
    }
}

// ---- Laws ------------------------------------------------------------------------------

/// Every migration whose session began on a rented machine comes to dispose of
/// it: the session's end leads there and nowhere else, the machine is kept
/// exactly when the migration let go, and a machine of yours is never disposed
/// of.
pub proof fn every_rented_machine_is_disposed_of(session: Session, answer: SessionAnswer)
    requires
        !(session.phase is Over),
    ensures
        ({
            let now = MigratePhase::Session(session).next(MigrateAnswer::Session(answer));
            let ended = session.next(answer).phase is Over;
            &&& !ended ==> now is Session
            &&& ended && !session.rented ==> now == MigratePhase::Over(
                MigrateEnd::Session(session.next(answer).phase->Over_0),
            )
            &&& ended && session.rented ==> now.act() == MigrateAction::Dispose(
                if session.next(answer).phase == SessionPhase::Over(SessionEnd::Detached) {
                    Disposal::Keep
                } else {
                    Disposal::Release
                },
            )
        }),
{
}

/// Nothing is rented, adopted, or reached before the run's lock is taken, and
/// the lock is taken only once what must travel is known to, the destination is
/// resolved, and the store is open.
pub proof fn nothing_is_rented_before_the_lock(answers: Seq<MigrateAnswer>)
    ensures
        ({
            let now = MigratePhase::ReadText.after(answers);
            (now is BuildProvider || now is Adopt || now is Acquire || now is BuildReach
                || now is Session || now is Dispose || now is ReadInterrupt) ==> exists|k: int|
                0 <= k < answers.len() && #[trigger] answers[k] == MigrateAnswer::Done
                    && MigratePhase::ReadText.after(answers.take(k)) is Lock
        }),
    decreases answers.len(),
{
    if answers.len() > 0 {
        let rest = answers.drop_last();
        let last = answers.len() - 1;
        nothing_is_rented_before_the_lock(rest);
        assert(answers.take(last) =~= rest);
        assert(answers[last] == answers.last());
        if exists|k: int|
            0 <= k < rest.len() && #[trigger] rest[k] == MigrateAnswer::Done
                && MigratePhase::ReadText.after(rest.take(k)) is Lock {
            let k = choose|k: int|
                0 <= k < rest.len() && #[trigger] rest[k] == MigrateAnswer::Done
                    && MigratePhase::ReadText.after(rest.take(k)) is Lock;
            assert(rest.take(k) =~= answers.take(k));
            assert(answers[k] == rest[k]);
        }
    }
}

/// A migration is abandoned only when renting the machine failed and the
/// operator had let go; it never had a far run to leave behind.
pub proof fn only_an_interrupted_acquisition_is_abandoned(at: MigratePhase, answer: MigrateAnswer)
    requires
        at != MigratePhase::Over(MigrateEnd::Abandoned),
        at.next(answer) == MigratePhase::Over(MigrateEnd::Abandoned),
    ensures
        at == MigratePhase::ReadInterrupt,
        answer == MigrateAnswer::Interrupted(true),
{
}

impl Routine for MigratePhase {
    type Action = MigrateAction;

    type Answer = MigrateAnswer;

    open spec fn calls_for(self) -> MigrateAction {
        self.act()
    }

    open spec fn reached(self, answers: Seq<MigrateAnswer>) -> MigratePhase {
        self.after(answers)
    }

    open spec fn can_answer(action: MigrateAction, answer: MigrateAnswer) -> bool {
        match action {
            MigrateAction::Session(of) => answer matches MigrateAnswer::Session(a)
                && Session::can_answer(of, a),
            MigrateAction::Carry => answer is Carries || answer is Failed,
            MigrateAction::Resolve => answer is Rented || answer is Failed,
            MigrateAction::Adopt => answer is Adopted || answer is Failed,
            MigrateAction::ReadInterrupt => answer is Interrupted || answer is Failed,
            MigrateAction::Finish(_) => false,
            _ => answer is Done || answer is Failed,
        }
    }
}

/// Whether the destination was resolved as a rented one.
pub open spec fn resolved_as_rented(answers: Seq<MigrateAnswer>) -> bool {
    crate::routine::answer_to(MigratePhase::ReadText, answers, MigrateAction::Resolve) == Some(
        MigrateAnswer::Rented(true),
    )
}

/// Whether the run was found to carry a program.
pub open spec fn found_to_carry(answers: Seq<MigrateAnswer>) -> bool {
    crate::routine::answer_to(MigratePhase::ReadText, answers, MigrateAction::Carry) == Some(
        MigrateAnswer::Carries(true),
    )
}

/// What the session of a migration was told.
pub open spec fn session_told(answers: Seq<MigrateAnswer>) -> Seq<SessionAnswer>
    decreases answers.len(),
{
    if answers.len() == 0 {
        Seq::empty()
    } else {
        let told = session_told(answers.drop_last());
        match (MigratePhase::ReadText.after(answers.drop_last()).act(), answers.last()) {
            (MigrateAction::Session(_), MigrateAnswer::Session(a)) => told.push(a),
            _ => told,
        }
    }
}

/// The session of a migration, where it is: on a machine that is rented where
/// the destination was resolved so, with the program the run was found to carry.
pub open spec fn session_of(answers: Seq<MigrateAnswer>) -> Session {
    Session::starting(resolved_as_rented(answers), found_to_carry(answers)).after(
        session_told(answers),
    )
}

/// A migration's session is on a rented machine exactly where its destination
/// was resolved as rented, for a machine that was adopted as for one that was
/// rented fresh; and when the session of a rented one ends, disposing of the
/// machine is called for before anything else is.
pub proof fn a_rented_destination_is_always_disposed_of(answers: Seq<MigrateAnswer>)
    ensures
        ({
            let now = MigratePhase::ReadText.after(answers);
            let session = session_of(answers);
            &&& now matches MigratePhase::Session(at) ==> at == session && at.rented
                == resolved_as_rented(answers) && at.registered == found_to_carry(answers)
            &&& now is Dispose ==> resolved_as_rented(answers)
            &&& now matches MigratePhase::Over(MigrateEnd::Session(end)) ==> session.phase
                == SessionPhase::Over(end) && (resolved_as_rented(answers) ==> crate::routine::answer_to(
                MigratePhase::ReadText,
                answers,
                MigrateAction::Dispose(
                    if end == SessionEnd::Detached {
                        Disposal::Keep
                    } else {
                        Disposal::Release
                    },
                ),
            ) is Some)
            &&& now == MigratePhase::Over(MigrateEnd::TeardownFailed) ==> resolved_as_rented(
                answers,
            )
        }),
{
    lemma_migrated_so_far(answers);
}

/// What a migration does, from what it did last. What cannot travel and where
/// to are told first; the store, the program, the registration, and the lock
/// come before any machine; a rented destination is adopted where it hosts the
/// run already, and rented where it does not; and the session's end decides
/// what becomes of the machine and what the migration ends as.
pub proof fn what_a_migration_does_next(answers: Seq<MigrateAnswer>)
    ensures
        ({
            let start = MigratePhase::ReadText;
            let act = start.after(answers).act();
            let rented = resolved_as_rented(answers);
            let carries = found_to_carry(answers);
            let reach = MigrateAction::BuildReach { names_format: !carries };
            match crate::routine::last_done(start, answers) {
                None => act == MigrateAction::ReadText,
                Some((_, MigrateAnswer::Session(_))) => act == match session_of(answers).phase {
                    SessionPhase::Over(end) => if rented {
                        MigrateAction::Dispose(
                            if end == SessionEnd::Detached {
                                Disposal::Keep
                            } else {
                                Disposal::Release
                            },
                        )
                    } else {
                        MigrateAction::Finish(MigrateEnd::Session(end))
                    },
                    _ => MigrateAction::Session(session_of(answers).act()),
                },
                Some((MigrateAction::Dispose(_), answer)) => {
                    &&& session_of(answers).phase matches SessionPhase::Over(end)
                    &&& act == MigrateAction::Finish(
                        if answer is Failed && (end is Detached || (end matches SessionEnd::Settled(
                            settled,
                        ) && settled != Settled::Raised)) {
                            MigrateEnd::TeardownFailed
                        } else {
                            MigrateEnd::Session(end)
                        },
                    )
                },
                Some((MigrateAction::Acquire, MigrateAnswer::Failed)) => act
                    == MigrateAction::ReadInterrupt,
                Some((_, MigrateAnswer::Failed)) => act == MigrateAction::Finish(
                    MigrateEnd::Raised,
                ),
                Some((MigrateAction::ReadText, _)) => act == MigrateAction::Carry,
                Some((_, MigrateAnswer::Carries(_))) => act == MigrateAction::Resolve,
                Some((_, MigrateAnswer::Rented(_))) => act == MigrateAction::OpenStore,
                Some((MigrateAction::OpenStore, _)) => act == if carries {
                    MigrateAction::Ingest
                } else {
                    MigrateAction::Register
                },
                Some((MigrateAction::Ingest, _)) => act == MigrateAction::Register,
                Some((MigrateAction::Register, _)) => act == MigrateAction::Lock,
                Some((MigrateAction::Lock, _)) => act == if rented {
                    MigrateAction::BuildProvider
                } else {
                    reach
                },
                Some((MigrateAction::BuildProvider, _)) => act == MigrateAction::Adopt,
                Some((_, MigrateAnswer::Adopted(adopted))) => act == if adopted {
                    reach
                } else {
                    MigrateAction::Acquire
                },
                Some((MigrateAction::Acquire, _)) => act == reach,
                Some((_, MigrateAnswer::Interrupted(interrupted))) => act == MigrateAction::Finish(
                    if interrupted {
                        MigrateEnd::Abandoned
                    } else {
                        MigrateEnd::Raised
                    },
                ),
                Some((MigrateAction::BuildReach { .. }, _)) => act == MigrateAction::Session(
                    Session::starting(rented, carries).act(),
                ),
                Some(_) => false,
            }
        }),
    decreases answers.len(),
{
    if answers.len() > 0 {
        let start = MigratePhase::ReadText;
        let rest = answers.drop_last();
        let was = start.after(rest);
        lemma_migrated_so_far(rest);
        lemma_migrated_so_far(answers);
        lemma_session_step(answers);
        if MigratePhase::can_answer(was.act(), answers.last()) {
            assert(crate::routine::last_done(start, answers) == Some((was.act(), answers.last())));
        } else {
            what_a_migration_does_next(rest);
        }
    }
}

/// What a phase holds of how the destination was resolved.
spec fn holds_rented(at: MigratePhase, rented: bool) -> bool {
    match at {
        MigratePhase::OpenStore { rented: r, .. } => r == rented,
        MigratePhase::Ingest { rented: r } => r == rented,
        MigratePhase::Register { rented: r, .. } => r == rented,
        MigratePhase::Lock { rented: r, .. } => r == rented,
        MigratePhase::BuildProvider { .. } => rented,
        MigratePhase::Adopt { .. } => rented,
        MigratePhase::Acquire { .. } => rented,
        MigratePhase::ReadInterrupt => rented,
        MigratePhase::BuildReach { rented: r, .. } => r == rented,
        _ => true,
    }
}

/// What a phase holds of whether the run carries a program.
spec fn holds_carries(at: MigratePhase, carries: bool) -> bool {
    match at {
        MigratePhase::Resolve { carries: c } => c == carries,
        MigratePhase::OpenStore { carries: c, .. } => c == carries,
        MigratePhase::Ingest { .. } => carries,
        MigratePhase::Register { carries: c, .. } => c == carries,
        MigratePhase::Lock { carries: c, .. } => c == carries,
        MigratePhase::BuildProvider { carries: c } => c == carries,
        MigratePhase::Adopt { carries: c } => c == carries,
        MigratePhase::Acquire { carries: c } => c == carries,
        MigratePhase::BuildReach { carries: c, .. } => c == carries,
        _ => true,
    }
}

proof fn lemma_migrated_so_far(answers: Seq<MigrateAnswer>)
    ensures
        ({
            let now = MigratePhase::ReadText.after(answers);
            let session = session_of(answers);
            &&& holds_rented(now, resolved_as_rented(answers))
            &&& holds_carries(now, found_to_carry(answers))
            &&& !(now is Session || now is Dispose || now is Over) ==> session_told(answers).len()
                == 0
            &&& now matches MigratePhase::Session(at) ==> at == session && at.wf() && !(
            at.phase is Over) && at.rented == resolved_as_rented(answers) && at.registered
                == found_to_carry(answers)
            &&& now matches MigratePhase::Dispose { end, disposal } ==> resolved_as_rented(answers)
                && session.phase == SessionPhase::Over(end) && disposal == if end
                == SessionEnd::Detached {
                Disposal::Keep
            } else {
                Disposal::Release
            }
            &&& now matches MigratePhase::Over(MigrateEnd::Session(end)) ==> session.phase
                == SessionPhase::Over(end) && (resolved_as_rented(answers) ==> crate::routine::answer_to(
                MigratePhase::ReadText,
                answers,
                MigrateAction::Dispose(
                    if end == SessionEnd::Detached {
                        Disposal::Keep
                    } else {
                        Disposal::Release
                    },
                ),
            ) is Some)
            &&& now == MigratePhase::Over(MigrateEnd::TeardownFailed) ==> resolved_as_rented(
                answers,
            )
        }),
    decreases answers.len(),
{
    if answers.len() > 0 {
        lemma_migrated_so_far(answers.drop_last());
        lemma_session_step(answers);
    }
}

proof fn lemma_session_step(answers: Seq<MigrateAnswer>)
    requires
        answers.len() > 0,
    ensures
        ({
            let rest = answers.drop_last();
            &&& MigratePhase::ReadText.after(rest) matches MigratePhase::Session(at) ==> {
                &&& resolved_as_rented(answers) == resolved_as_rented(rest)
                &&& found_to_carry(answers) == found_to_carry(rest)
                &&& answers.last() matches MigrateAnswer::Session(a) ==> {
                    &&& session_of(answers) == session_of(rest).next(a)
                    &&& at.next(a).rented == at.rented
                    &&& at.next(a).registered == at.registered
                    &&& at.wf() ==> at.next(a).wf()
                    &&& at.wf() && !Session::can_answer(at.act(), a) ==> at.next(a) == at
                }
            }
        }),
{
    let rest = answers.drop_last();
    if let MigratePhase::Session(at) = MigratePhase::ReadText.after(rest) {
        if let MigrateAnswer::Session(a) = answers.last() {
            let told = session_told(rest);
            assert(told.push(a).drop_last() =~= told);
            assert(seq![a].drop_last() =~= Seq::<SessionAnswer>::empty());
            assert(at.after(seq![a]) == at.after(seq![a].drop_last()).next(a));
            crate::session::a_session_never_goes_back(at, seq![a]);
            if at.wf() {
                crate::session::a_session_stays_well_formed(at, seq![a]);
                if !Session::can_answer(at.act(), a) {
                    crate::session::a_session_takes_only_answers_to_its_action(at, a);
                }
            }
        }
    }
}

/// Whether a migration called for the action and it was done.
#[verifier::inline]
pub open spec fn migration_did(answers: Seq<MigrateAnswer>, action: MigrateAction) -> bool {
    crate::routine::did(MigratePhase::ReadText, answers, action, MigrateAnswer::Done)
}

/// A session begins only once everything before it is in place: the text was
/// read, what must travel and where to are known, the store is open and holds the
/// program the run carries, the run is registered and locked, and the way to the
/// machine is built; and a rented machine was adopted, or rented.
pub proof fn a_session_begins_once_everything_is_in_place(answers: Seq<MigrateAnswer>)
    ensures
        ({
            let start = MigratePhase::ReadText;
            let now = start.after(answers);
            (now is Session || now is Dispose || now matches MigratePhase::Over(
                MigrateEnd::Session(_),
            ) || now == MigratePhase::Over(MigrateEnd::TeardownFailed)) ==> {
                &&& migration_did(answers, MigrateAction::ReadText)
                &&& crate::routine::answer_to(start, answers, MigrateAction::Carry) matches Some(
                    MigrateAnswer::Carries(_),
                )
                &&& crate::routine::answer_to(start, answers, MigrateAction::Resolve) matches Some(
                    MigrateAnswer::Rented(_),
                )
                &&& migration_did(answers, MigrateAction::OpenStore)
                &&& found_to_carry(answers) ==> migration_did(answers, MigrateAction::Ingest)
                &&& migration_did(answers, MigrateAction::Register)
                &&& migration_did(answers, MigrateAction::Lock)
                &&& resolved_as_rented(answers) ==> migration_did(
                    answers,
                    MigrateAction::BuildProvider,
                ) && (crate::routine::did(
                    start,
                    answers,
                    MigrateAction::Adopt,
                    MigrateAnswer::Adopted(true),
                ) || migration_did(answers, MigrateAction::Acquire))
                &&& migration_did(
                    answers,
                    MigrateAction::BuildReach { names_format: !found_to_carry(answers) },
                )
            }
        }),
{
    lemma_placed_so_far(answers);
}

/// How far along a migration a phase is, before its session.
spec fn stage(at: MigratePhase) -> nat {
    match at {
        MigratePhase::ReadText => 0,
        MigratePhase::Carry => 1,
        MigratePhase::Resolve { .. } => 2,
        MigratePhase::OpenStore { .. } => 3,
        MigratePhase::Ingest { .. } => 4,
        MigratePhase::Register { .. } => 5,
        MigratePhase::Lock { .. } => 6,
        MigratePhase::BuildProvider { .. } => 7,
        MigratePhase::Adopt { .. } => 8,
        MigratePhase::Acquire { .. } => 9,
        MigratePhase::BuildReach { .. } => 10,
        MigratePhase::Session(_) => 11,
        MigratePhase::Dispose { .. } => 11,
        MigratePhase::Over(MigrateEnd::Session(_)) => 11,
        MigratePhase::Over(MigrateEnd::TeardownFailed) => 11,
        MigratePhase::ReadInterrupt => 0,
        MigratePhase::Over(_) => 0,
    }
}

#[verifier::rlimit(40)]
proof fn lemma_placed_so_far(answers: Seq<MigrateAnswer>)
    ensures
        ({
            let start = MigratePhase::ReadText;
            let now = start.after(answers);
            let stage = stage(now);
            let rented = resolved_as_rented(answers);
            let carries = found_to_carry(answers);
            &&& stage >= 1 ==> migration_did(answers, MigrateAction::ReadText)
            &&& stage >= 2 ==> (crate::routine::answer_to(start, answers, MigrateAction::Carry) matches Some(
                MigrateAnswer::Carries(_),
            ))
            &&& stage >= 3 ==> (crate::routine::answer_to(start, answers, MigrateAction::Resolve) matches Some(
                MigrateAnswer::Rented(_),
            ))
            &&& stage >= 4 ==> migration_did(answers, MigrateAction::OpenStore)
            &&& stage >= 5 && carries ==> migration_did(answers, MigrateAction::Ingest)
            &&& stage >= 6 ==> migration_did(answers, MigrateAction::Register)
            &&& stage >= 7 ==> migration_did(answers, MigrateAction::Lock)
            &&& stage >= 8 && rented ==> migration_did(answers, MigrateAction::BuildProvider)
            &&& stage >= 10 && rented ==> crate::routine::did(
                start,
                answers,
                MigrateAction::Adopt,
                MigrateAnswer::Adopted(true),
            ) || migration_did(answers, MigrateAction::Acquire)
            &&& stage >= 11 ==> migration_did(
                answers,
                MigrateAction::BuildReach { names_format: !carries },
            )
        }),
    decreases answers.len(),
{
    if answers.len() > 0 {
        let rest = answers.drop_last();
        lemma_placed_so_far(rest);
        lemma_migrated_so_far(rest);
        lemma_migrated_so_far(answers);
        lemma_session_step(answers);
    }
}

} // verus!
