//! Ending a migrated run and bringing its results home.
//!
//! The inverse of a migration: it places nothing, pushes nothing, rents
//! nothing, and starts nothing. It winds the far run down, pulls, settles, and
//! takes the rented machine away, over a run this side may never have watched.
//!
//! A rented machine that is already gone leaves nothing to contact, so the run
//! then settles over what the local store already holds.
use vstd::prelude::*;

use crate::far_run::{
    dispose, Disposal, FollowEnd, MigrateOutcome, SettleAnswer, Settled, Settling, Standing,
    WindBack, WindBackAction, WindBackAnswer, WindBackEnd,
};
use crate::routine::Routine;

verus! {

/// Where a recall is.
#[derive(Debug, Clone, Copy, PartialEq, Eq, Structural)]
pub enum RecallPhase {
    /// The destination is resolved.
    Resolve,
    /// The local store is opened.
    OpenStore { rented: bool },
    /// The run is registered.
    Register { rented: bool },
    /// The run's lock is taken.
    Lock { rented: bool },
    /// The control plane is built.
    BuildProvider,
    /// The machine hosting the run is looked for.
    Adopt,
    /// The way to the machine is built.
    BuildReach { rented: bool },
    /// The far run is ended.
    Back { rented: bool, back: WindBack },
    /// There is no machine: the run is settled over the local store.
    SettleHere(Settling),
    /// The machine is disposed of.
    Dispose { end: WindBackEnd, disposal: Disposal },
    /// It is over.
    Over(RecallEnd),
}

/// How a recall ended.
#[derive(Debug, Clone, Copy, PartialEq, Eq, Structural)]
pub enum RecallEnd {
    /// As the end of the far run did.
    Back(WindBackEnd),
    /// The results came home, and the machine could not be torn down.
    TeardownFailed,
    /// An operation failed, and its failure is the answer.
    Raised,
}

/// What a recall does next.
#[derive(Debug, Clone, Copy, PartialEq, Eq, Structural)]
pub enum RecallAction {
    Resolve,
    OpenStore,
    Register,
    Lock,
    BuildProvider,
    Adopt,
    BuildReach,
    Back(WindBackAction),
    ReadKeys,
    WriteManifest,
    Dispose(Disposal),
    Finish(RecallEnd),
}

/// What came of an action of a recall.
#[derive(Debug, Clone, Copy, PartialEq, Eq, Structural)]
pub enum RecallAnswer {
    Done,
    /// Whether the destination is rented.
    Rented(bool),
    /// Whether a machine hosting the run was adopted.
    Adopted(bool),
    Back(WindBackAnswer),
    Settle(SettleAnswer),
    Failed,
}

/// Whether the end of a far run brought something home.
pub open spec fn brought_home(end: WindBackEnd) -> bool {
    end matches WindBackEnd::Settled(settled) && settled != Settled::Raised
}

/// Whether the end of a far run brought something home.
pub fn is_brought_home(end: WindBackEnd) -> (r: bool)
    ensures
        r == brought_home(end),
{
    match end {
        WindBackEnd::Settled(settled) => settled != Settled::Raised,
        _ => false,
    }
}

/// What a recall is answered with, where it ended so: as bringing the far run
/// `back` was, or with the failure that was `held`.
pub fn recall_outcome<E>(
    end: RecallEnd,
    back: Option<Result<MigrateOutcome, E>>,
    held: Option<E>,
) -> (r: Result<MigrateOutcome, Option<E>>)
    ensures
        match end {
            RecallEnd::Back(_) => r == (match back {
                Some(Ok(outcome)) => Ok::<MigrateOutcome, Option<E>>(outcome),
                Some(Err(failure)) => Err::<MigrateOutcome, Option<E>>(Some(failure)),
                None => Err::<MigrateOutcome, Option<E>>(None),
            }),
            RecallEnd::TeardownFailed | RecallEnd::Raised => r == Err::<
                MigrateOutcome,
                Option<E>,
            >(held),
        },
{
    match end {
        RecallEnd::Back(_) => match back {
            Some(Ok(outcome)) => Ok(outcome),
            Some(Err(failure)) => Err(Some(failure)),
            None => Err(None),
        },
        RecallEnd::TeardownFailed | RecallEnd::Raised => Err(held),
    }
}

impl RecallPhase {
    /// The action a phase calls for.
    pub open spec fn act(self) -> RecallAction {
        match self {
            RecallPhase::Resolve => RecallAction::Resolve,
            RecallPhase::OpenStore { .. } => RecallAction::OpenStore,
            RecallPhase::Register { .. } => RecallAction::Register,
            RecallPhase::Lock { .. } => RecallAction::Lock,
            RecallPhase::BuildProvider => RecallAction::BuildProvider,
            RecallPhase::Adopt => RecallAction::Adopt,
            RecallPhase::BuildReach { .. } => RecallAction::BuildReach,
            RecallPhase::Back { back, .. } => RecallAction::Back(back.act()),
            RecallPhase::SettleHere(Settling::ReadKeys { .. }) => RecallAction::ReadKeys,
            RecallPhase::SettleHere(Settling::WriteManifest) => RecallAction::WriteManifest,
            RecallPhase::SettleHere(Settling::Settled(settled)) => RecallAction::Finish(
                RecallEnd::Back(WindBackEnd::Settled(settled)),
            ),
            RecallPhase::Dispose { disposal, .. } => RecallAction::Dispose(disposal),
            RecallPhase::Over(end) => RecallAction::Finish(end),
        }
    }

    /// Where the end of a far run leaves the recall. A rented machine is taken
    /// away whatever came of it.
    pub open spec fn backed(rented: bool, back: WindBack) -> RecallPhase {
        match back {
            WindBack::Over(end) => if rented {
                RecallPhase::Dispose { end, disposal: crate::far_run::disposal_of(true, false) }
            } else {
                RecallPhase::Over(RecallEnd::Back(end))
            },
            _ => RecallPhase::Back { rented, back },
        }
    }

    /// Where settling over the local store leaves the recall.
    pub open spec fn settled(settling: Settling) -> RecallPhase {
        match settling {
            Settling::Settled(Settled::Raised) => RecallPhase::Over(RecallEnd::Raised),
            Settling::Settled(settled) => RecallPhase::Over(
                RecallEnd::Back(WindBackEnd::Settled(settled)),
            ),
            _ => RecallPhase::SettleHere(settling),
        }
    }

    /// Where an answer takes the recall.
    pub open spec fn next(self, answer: RecallAnswer) -> RecallPhase {
        match (self, answer) {
            (RecallPhase::Over(_), _) => self,
            (RecallPhase::Back { rented, back }, RecallAnswer::Back(a)) => RecallPhase::backed(
                rented,
                back.next(a),
            ),
            (RecallPhase::Back { .. }, _) => self,
            (RecallPhase::SettleHere(at), RecallAnswer::Settle(a)) => RecallPhase::settled(
                at.next(a),
            ),
            (RecallPhase::SettleHere(_), _) => self,
            (RecallPhase::Dispose { end, .. }, RecallAnswer::Done) => RecallPhase::Over(
                RecallEnd::Back(end),
            ),
            (RecallPhase::Dispose { end, .. }, RecallAnswer::Failed) => RecallPhase::Over(
                if brought_home(end) {
                    RecallEnd::TeardownFailed
                } else {
                    RecallEnd::Back(end)
                },
            ),
            (_, RecallAnswer::Failed) => RecallPhase::Over(RecallEnd::Raised),
            (RecallPhase::Resolve, RecallAnswer::Rented(rented)) => RecallPhase::OpenStore {
                rented,
            },
            (RecallPhase::OpenStore { rented }, RecallAnswer::Done) => RecallPhase::Register {
                rented,
            },
            (RecallPhase::Register { rented }, RecallAnswer::Done) => RecallPhase::Lock { rented },
            (RecallPhase::Lock { rented }, RecallAnswer::Done) => if rented {
                RecallPhase::BuildProvider
            } else {
                RecallPhase::BuildReach { rented }
            },
            (RecallPhase::BuildProvider, RecallAnswer::Done) => RecallPhase::Adopt,
            (RecallPhase::Adopt, RecallAnswer::Adopted(adopted)) => if adopted {
                RecallPhase::BuildReach { rented: true }
            } else {
                RecallPhase::settled(Settling::starting(Standing::InProgress, FollowEnd::FarRun))
            },
            (RecallPhase::BuildReach { rented }, RecallAnswer::Done) => RecallPhase::Back {
                rented,
                back: WindBack::AskPlaced,
            },
            _ => self,
        }
    }

    /// What to do next.
    pub fn action(&self) -> (r: RecallAction)
        ensures
            r == self.act(),
    {
        match self {
            RecallPhase::Resolve => RecallAction::Resolve,
            RecallPhase::OpenStore { .. } => RecallAction::OpenStore,
            RecallPhase::Register { .. } => RecallAction::Register,
            RecallPhase::Lock { .. } => RecallAction::Lock,
            RecallPhase::BuildProvider => RecallAction::BuildProvider,
            RecallPhase::Adopt => RecallAction::Adopt,
            RecallPhase::BuildReach { .. } => RecallAction::BuildReach,
            RecallPhase::Back { back, .. } => RecallAction::Back(back.action()),
            RecallPhase::SettleHere(Settling::ReadKeys { .. }) => RecallAction::ReadKeys,
            RecallPhase::SettleHere(Settling::WriteManifest) => RecallAction::WriteManifest,
            RecallPhase::SettleHere(Settling::Settled(settled)) => RecallAction::Finish(
                RecallEnd::Back(WindBackEnd::Settled(*settled)),
            ),
            RecallPhase::Dispose { disposal, .. } => RecallAction::Dispose(*disposal),
            RecallPhase::Over(end) => RecallAction::Finish(*end),
        }
    }

    fn after_back(rented: bool, back: WindBack) -> (r: RecallPhase)
        ensures
            r == RecallPhase::backed(rented, back),
    {
        match back {
            WindBack::Over(end) => {
                if rented {
                    RecallPhase::Dispose { end, disposal: dispose(true, false) }
                } else {
                    RecallPhase::Over(RecallEnd::Back(end))
                }
            },
            back => RecallPhase::Back { rented, back },
        }
    }

    fn after_settling(settling: Settling) -> (r: RecallPhase)
        ensures
            r == RecallPhase::settled(settling),
    {
        match settling {
            Settling::Settled(Settled::Raised) => RecallPhase::Over(RecallEnd::Raised),
            Settling::Settled(settled) => RecallPhase::Over(
                RecallEnd::Back(WindBackEnd::Settled(settled)),
            ),
            settling => RecallPhase::SettleHere(settling),
        }
    }

    /// The recall after the answers, one after another.
    pub open spec fn after(self, answers: Seq<RecallAnswer>) -> RecallPhase
        decreases answers.len(),
    {
        if answers.len() == 0 {
            self
        } else {
            self.after(answers.drop_last()).next(answers.last())
        }
    }
}

/// One step of a recall: where the answer to the action at `at` takes it. A
/// recall begins at [`RecallPhase::Resolve`].
pub fn recall(at: RecallPhase, answer: RecallAnswer) -> (r: RecallPhase)
    ensures
        r == at.next(answer),
{
    match (at, answer) {
        (RecallPhase::Over(_), _) => at,
        (RecallPhase::Back { rented, back }, RecallAnswer::Back(a)) => RecallPhase::after_back(
            rented,
            back.step(a),
        ),
        (RecallPhase::Back { .. }, _) => at,
        (RecallPhase::SettleHere(settling), RecallAnswer::Settle(a)) => {
            RecallPhase::after_settling(settling.step(a))
        },
        (RecallPhase::SettleHere(_), _) => at,
        (RecallPhase::Dispose { end, .. }, RecallAnswer::Done) => RecallPhase::Over(
            RecallEnd::Back(end),
        ),
        (RecallPhase::Dispose { end, .. }, RecallAnswer::Failed) => {
            if is_brought_home(end) {
                RecallPhase::Over(RecallEnd::TeardownFailed)
            } else {
                RecallPhase::Over(RecallEnd::Back(end))
            }
        },
        (_, RecallAnswer::Failed) => RecallPhase::Over(RecallEnd::Raised),
        (RecallPhase::Resolve, RecallAnswer::Rented(rented)) => RecallPhase::OpenStore { rented },
        (RecallPhase::OpenStore { rented }, RecallAnswer::Done) => RecallPhase::Register { rented },
        (RecallPhase::Register { rented }, RecallAnswer::Done) => RecallPhase::Lock { rented },
        (RecallPhase::Lock { rented }, RecallAnswer::Done) => {
            if rented {
                RecallPhase::BuildProvider
            } else {
                RecallPhase::BuildReach { rented }
            }
        },
        (RecallPhase::BuildProvider, RecallAnswer::Done) => RecallPhase::Adopt,
        (RecallPhase::Adopt, RecallAnswer::Adopted(adopted)) => {
            if adopted {
                RecallPhase::BuildReach { rented: true }
            } else {
                RecallPhase::after_settling(
                    Settling::begin(Standing::InProgress, FollowEnd::FarRun),
                )
            }
        },
        (RecallPhase::BuildReach { rented }, RecallAnswer::Done) => RecallPhase::Back {
            rented,
            back: WindBack::begin(),
        },
        _ => at,
    }
}

// ---- Laws ------------------------------------------------------------------------------

/// A recall never keeps a rented machine, and disposes of none of yours.
pub proof fn a_recall_takes_the_rented_machine_away(rented: bool, back: WindBack, answer: WindBackAnswer)
    requires
        !(back is Over),
        back.next(answer) is Over,
    ensures
        ({
            let now = (RecallPhase::Back { rented, back }).next(RecallAnswer::Back(answer));
            &&& rented ==> now.act() == RecallAction::Dispose(Disposal::Release)
            &&& !rented ==> now == RecallPhase::Over(
                RecallEnd::Back(back.next(answer)->Over_0),
            )
        }),
{
}

/// A machine that is not there to take back leaves the run to settle over the
/// local store: no machine is asked anything.
pub proof fn a_machine_already_gone_settles_here(answers: Seq<RecallAnswer>)
    ensures
        ({
            let now = RecallPhase::Adopt.next(RecallAnswer::Adopted(false)).after(answers);
            now is SettleHere || now is Over
        }),
    decreases answers.len(),
{
    if answers.len() > 0 {
        a_machine_already_gone_settles_here(answers.drop_last());
    }
}

/// Nothing is asked of a machine, and none is adopted, before the run's lock is
/// taken.
pub proof fn nothing_is_asked_before_the_lock(answers: Seq<RecallAnswer>)
    ensures
        ({
            let now = RecallPhase::Resolve.after(answers);
            (now is BuildProvider || now is Adopt || now is BuildReach || now is Back
                || now is SettleHere || now is Dispose) ==> exists|k: int|
                0 <= k < answers.len() && #[trigger] answers[k] == RecallAnswer::Done
                    && RecallPhase::Resolve.after(answers.take(k)) is Lock
        }),
    decreases answers.len(),
{
    if answers.len() > 0 {
        let rest = answers.drop_last();
        let last = answers.len() - 1;
        nothing_is_asked_before_the_lock(rest);
        assert(answers.take(last) =~= rest);
        assert(answers[last] == answers.last());
        if exists|k: int|
            0 <= k < rest.len() && #[trigger] rest[k] == RecallAnswer::Done
                && RecallPhase::Resolve.after(rest.take(k)) is Lock {
            let k = choose|k: int|
                0 <= k < rest.len() && #[trigger] rest[k] == RecallAnswer::Done
                    && RecallPhase::Resolve.after(rest.take(k)) is Lock;
            assert(rest.take(k) =~= answers.take(k));
            assert(answers[k] == rest[k]);
        }
    }
}

impl Routine for RecallPhase {
    type Action = RecallAction;

    type Answer = RecallAnswer;

    open spec fn calls_for(self) -> RecallAction {
        self.act()
    }

    open spec fn reached(self, answers: Seq<RecallAnswer>) -> RecallPhase {
        self.after(answers)
    }

    open spec fn can_answer(action: RecallAction, answer: RecallAnswer) -> bool {
        match action {
            RecallAction::Back(of) => answer matches RecallAnswer::Back(a) && WindBack::can_answer(
                of,
                a,
            ),
            RecallAction::ReadKeys => answer matches RecallAnswer::Settle(a) && (a is Missing
                || a is Failed),
            RecallAction::WriteManifest => answer matches RecallAnswer::Settle(a) && (a is Written
                || a is Failed),
            RecallAction::Resolve => answer is Rented || answer is Failed,
            RecallAction::Adopt => answer is Adopted || answer is Failed,
            RecallAction::Finish(_) => false,
            _ => answer is Done || answer is Failed,
        }
    }
}

/// Whether the destination of a recall was resolved as a rented one.
pub open spec fn recalled_from_rented(answers: Seq<RecallAnswer>) -> bool {
    crate::routine::answer_to(RecallPhase::Resolve, answers, RecallAction::Resolve) == Some(
        RecallAnswer::Rented(true),
    )
}

/// What bringing the far run of a recall home was told.
pub open spec fn back_told(answers: Seq<RecallAnswer>) -> Seq<WindBackAnswer>
    decreases answers.len(),
{
    if answers.len() == 0 {
        Seq::empty()
    } else {
        let told = back_told(answers.drop_last());
        match (RecallPhase::Resolve.after(answers.drop_last()).act(), answers.last()) {
            (RecallAction::Back(_), RecallAnswer::Back(a)) => told.push(a),
            _ => told,
        }
    }
}

/// What a recall does, from what it did last. The lock is taken before any
/// machine is asked; a rented machine that is gone leaves the run to settle over
/// the local store, as one that was not wound down; every other far run is
/// brought home, after which a rented machine is always destroyed, whatever came
/// of it, and a machine of yours never is.
pub proof fn what_a_recall_does_next(answers: Seq<RecallAnswer>)
    ensures
        ({
            let start = RecallPhase::Resolve;
            let act = start.after(answers).act();
            let rented = recalled_from_rented(answers);
            let back = WindBack::AskPlaced.after(back_told(answers));
            match crate::routine::last_done(start, answers) {
                None => act == RecallAction::Resolve,
                Some((_, RecallAnswer::Back(_))) => act == match back {
                    WindBack::Over(end) => if rented {
                        RecallAction::Dispose(Disposal::Release)
                    } else {
                        RecallAction::Finish(RecallEnd::Back(end))
                    },
                    _ => RecallAction::Back(back.act()),
                },
                Some((RecallAction::Dispose(_), answer)) => {
                    &&& back matches WindBack::Over(end)
                    &&& act == RecallAction::Finish(
                        if answer is Failed && (end matches WindBackEnd::Settled(settled) && settled
                            != Settled::Raised) {
                            RecallEnd::TeardownFailed
                        } else {
                            RecallEnd::Back(end)
                        },
                    )
                },
                Some((_, RecallAnswer::Failed)) => act == RecallAction::Finish(RecallEnd::Raised),
                Some((_, RecallAnswer::Rented(_))) => act == RecallAction::OpenStore,
                Some((RecallAction::OpenStore, _)) => act == RecallAction::Register,
                Some((RecallAction::Register, _)) => act == RecallAction::Lock,
                Some((RecallAction::Lock, _)) => act == if rented {
                    RecallAction::BuildProvider
                } else {
                    RecallAction::BuildReach
                },
                Some((RecallAction::BuildProvider, _)) => act == RecallAction::Adopt,
                Some((_, RecallAnswer::Adopted(adopted))) => act == if adopted {
                    RecallAction::BuildReach
                } else {
                    RecallAction::ReadKeys
                },
                Some((RecallAction::BuildReach, _)) => act == RecallAction::Back(
                    WindBackAction::AskPlaced,
                ),
                Some((_, RecallAnswer::Settle(SettleAnswer::Failed))) => act
                    == RecallAction::Finish(RecallEnd::Raised),
                Some((_, RecallAnswer::Settle(SettleAnswer::Missing(n)))) => act == if n > 0 {
                    RecallAction::Finish(
                        RecallEnd::Back(WindBackEnd::Settled(Settled::Outstanding(n))),
                    )
                } else {
                    RecallAction::WriteManifest
                },
                Some((_, RecallAnswer::Settle(SettleAnswer::Written))) => act
                    == RecallAction::Finish(
                    RecallEnd::Back(WindBackEnd::Settled(Settled::Finalized)),
                ),
                Some(_) => false,
            }
        }),
    decreases answers.len(),
{
    if answers.len() > 0 {
        let start = RecallPhase::Resolve;
        let rest = answers.drop_last();
        let was = start.after(rest);
        lemma_recalled_so_far(rest);
        lemma_recalled_so_far(answers);
        lemma_back_step(answers);
        if RecallPhase::can_answer(was.act(), answers.last()) {
            assert(crate::routine::last_done(start, answers) == Some((was.act(), answers.last())));
        } else {
            what_a_recall_does_next(rest);
        }
    }
}

proof fn lemma_recalled_so_far(answers: Seq<RecallAnswer>)
    ensures
        ({
            let now = RecallPhase::Resolve.after(answers);
            let rented = recalled_from_rented(answers);
            let back = WindBack::AskPlaced.after(back_told(answers));
            &&& !(now is Back || now is Dispose || now is Over) ==> back_told(answers).len() == 0
            &&& match now {
                RecallPhase::OpenStore { rented: r } => r == rented,
                RecallPhase::Register { rented: r } => r == rented,
                RecallPhase::Lock { rented: r } => r == rented,
                RecallPhase::BuildProvider => rented,
                RecallPhase::Adopt => rented,
                RecallPhase::BuildReach { rented: r } => r == rented,
                RecallPhase::Back { rented: r, back: b } => {
                    &&& r == rented
                    &&& b == back
                    &&& !(b is Over)
                    &&& crate::far_run::winding_back_goes_on(b)
                },
                RecallPhase::SettleHere(Settling::ReadKeys { stands, end }) => stands
                    == Standing::InProgress && end == FollowEnd::FarRun,
                RecallPhase::SettleHere(Settling::Settled(_)) => false,
                RecallPhase::Dispose { end, disposal } => rented && back == WindBack::Over(end)
                    && disposal == Disposal::Release,
                _ => true,
            }
        }),
    decreases answers.len(),
{
    if answers.len() > 0 {
        lemma_recalled_so_far(answers.drop_last());
        lemma_back_step(answers);
    }
}

proof fn lemma_back_step(answers: Seq<RecallAnswer>)
    requires
        answers.len() > 0,
    ensures
        ({
            let rest = answers.drop_last();
            RecallPhase::Resolve.after(rest) matches RecallPhase::Back { back, .. } ==> {
                &&& recalled_from_rented(answers) == recalled_from_rented(rest)
                &&& answers.last() matches RecallAnswer::Back(a) ==> {
                    &&& WindBack::AskPlaced.after(back_told(answers)) == WindBack::AskPlaced.after(
                        back_told(rest),
                    ).next(a)
                    &&& crate::far_run::winding_back_goes_on(back) ==> {
                        &&& crate::far_run::winding_back_goes_on(back.next(a))
                        &&& !WindBack::can_answer(back.act(), a) ==> back.next(a) == back
                    }
                }
            }
        }),
{
    let rest = answers.drop_last();
    if let RecallPhase::Back { back, .. } = RecallPhase::Resolve.after(rest) {
        if let RecallAnswer::Back(a) = answers.last() {
            let told = back_told(rest);
            assert(told.push(a).drop_last() =~= told);
            if crate::far_run::winding_back_goes_on(back) {
                crate::far_run::winding_back_takes_only_answers_to_its_action(back, a);
            }
        }
    }
}

/// Whether a recall called for the action and it was done.
#[verifier::inline]
pub open spec fn recall_did(answers: Seq<RecallAnswer>, action: RecallAction) -> bool {
    crate::routine::did(RecallPhase::Resolve, answers, action, RecallAnswer::Done)
}

/// A recall asks a machine only under the run's lock, and a rented machine it
/// found is taken away before the recall ends with what came of the far run; a
/// run is settled here without its machine only where that was rented and is not
/// there.
pub proof fn a_recall_ends_with_the_machine_gone(answers: Seq<RecallAnswer>)
    ensures
        ({
            let start = RecallPhase::Resolve;
            let now = start.after(answers);
            let here = now is SettleHere;
            let came = now is Back || now is Dispose || now == RecallPhase::Over(
                RecallEnd::TeardownFailed,
            );
            let adopted = crate::routine::answer_to(start, answers, RecallAction::Adopt);
            &&& here || came || (now matches RecallPhase::Over(RecallEnd::Back(_))) ==> {
                &&& crate::routine::answer_to(start, answers, RecallAction::Resolve) matches Some(
                    RecallAnswer::Rented(_),
                )
                &&& recall_did(answers, RecallAction::OpenStore)
                &&& recall_did(answers, RecallAction::Register)
                &&& recall_did(answers, RecallAction::Lock)
                &&& recalled_from_rented(answers) ==> recall_did(
                    answers,
                    RecallAction::BuildProvider,
                )
            }
            &&& here ==> recalled_from_rented(answers) && adopted == Some(
                RecallAnswer::Adopted(false),
            )
            &&& came ==> recall_did(answers, RecallAction::BuildReach) && (recalled_from_rented(
                answers,
            ) ==> adopted == Some(RecallAnswer::Adopted(true)))
            &&& (now matches RecallPhase::Over(RecallEnd::Back(_))) && recalled_from_rented(answers)
                && adopted != Some(RecallAnswer::Adopted(false)) ==> crate::routine::answer_to(
                start,
                answers,
                RecallAction::Dispose(Disposal::Release),
            ) is Some
        }),
{
    lemma_taken_so_far(answers);
}

/// How far along a recall a phase is, before the far run is brought home.
spec fn stage(at: RecallPhase) -> nat {
    match at {
        RecallPhase::Resolve => 0,
        RecallPhase::OpenStore { .. } => 1,
        RecallPhase::Register { .. } => 2,
        RecallPhase::Lock { .. } => 3,
        RecallPhase::BuildProvider => 4,
        RecallPhase::Adopt => 5,
        RecallPhase::BuildReach { .. } => 6,
        RecallPhase::Back { .. } => 7,
        RecallPhase::SettleHere(_) => 7,
        RecallPhase::Dispose { .. } => 7,
        RecallPhase::Over(RecallEnd::Back(_)) => 7,
        RecallPhase::Over(RecallEnd::TeardownFailed) => 7,
        RecallPhase::Over(RecallEnd::Raised) => 0,
    }
}

#[verifier::rlimit(40)]
proof fn lemma_taken_so_far(answers: Seq<RecallAnswer>)
    ensures
        ({
            let start = RecallPhase::Resolve;
            let now = start.after(answers);
            let stage = stage(now);
            let rented = recalled_from_rented(answers);
            let adopted = crate::routine::answer_to(start, answers, RecallAction::Adopt);
            let came = now is Back || now is Dispose || now == RecallPhase::Over(
                RecallEnd::TeardownFailed,
            );
            &&& stage >= 1 ==> (crate::routine::answer_to(start, answers, RecallAction::Resolve) matches Some(
                RecallAnswer::Rented(_),
            ))
            &&& stage >= 2 ==> recall_did(answers, RecallAction::OpenStore)
            &&& stage >= 3 ==> recall_did(answers, RecallAction::Register)
            &&& stage >= 4 ==> recall_did(answers, RecallAction::Lock)
            &&& stage >= 5 && rented ==> recall_did(answers, RecallAction::BuildProvider)
            &&& now is BuildReach || came ==> (rented ==> adopted == Some(
                RecallAnswer::Adopted(true),
            ))
            &&& now is SettleHere ==> rented && adopted == Some(RecallAnswer::Adopted(false))
            &&& came ==> recall_did(answers, RecallAction::BuildReach)
            &&& (now matches RecallPhase::Over(RecallEnd::Back(_))) && rented && adopted != Some(
                RecallAnswer::Adopted(false),
            ) ==> crate::routine::answer_to(
                start,
                answers,
                RecallAction::Dispose(Disposal::Release),
            ) is Some
        }),
    decreases answers.len(),
{
    if answers.len() > 0 {
        let rest = answers.drop_last();
        lemma_taken_so_far(rest);
        lemma_recalled_so_far(rest);
        lemma_recalled_so_far(answers);
        lemma_back_step(answers);
    }
}

} // verus!
