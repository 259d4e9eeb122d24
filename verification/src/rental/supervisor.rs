//! The supervisor that keeps a search's rented machines within budget and
//! replaces the ones that vanish.
//!
//! Each heartbeat assesses the search's spend and wall clock against the budget
//! once, and then polls every machine. A machine that is gone is replaced and
//! its transport re-targeted; a replacement the budget cannot afford winds the
//! search down instead of faulting it.
use vstd::prelude::*;
use vstd::string::*;

use crate::config::FillPolicy;
use crate::devices::DeviceBinding;
use crate::events::Event;
use crate::routine::Routine;

verus! {

// ---- Replacing a machine ----------------------------------------------------------------

/// Where the replacement of a lost machine is.
#[derive(Debug, Clone, Copy, PartialEq, Eq, Structural)]
pub enum ReplacePhase {
    /// The pool's spawns are blocked while the target is in flux.
    Marking,
    /// The dead machine's guard is taken.
    Taking,
    /// Its loss is announced.
    Losing,
    /// Its loss is recorded against it.
    Recording,
    /// It is closed out.
    Releasing,
    /// A replacement is rented.
    Renting,
    /// The replacement is announced, under the host it answers on.
    Announcing,
    /// The transport's target is swapped.
    Swapping,
    /// The replacement's guard is kept.
    Keeping,
    /// No replacement could be rented: is the budget why?
    Assessing,
    /// It is: the search winds down.
    WindingDown,
    /// The transport is retired.
    Retiring { fatal: bool },
    /// It is over.
    Over(ReplaceEnd),
}

/// How the replacement of a lost machine ended.
#[derive(Debug, Clone, Copy, PartialEq, Eq, Structural)]
pub enum ReplaceEnd {
    /// Another machine took its place.
    Replaced,
    /// None did, and its transport is retired.
    Retired { fatal: bool },
    /// An operation failed, and its failure is the answer.
    Raised,
}

/// What the replacement of a lost machine does next.
#[derive(Debug, Clone, Copy, PartialEq, Eq, Structural)]
pub enum ReplaceAction {
    MarkReplacing,
    TakeGuard,
    EmitLost,
    RecordLost,
    /// Close the dead machine out. A failure leaves a record for the next
    /// reconciliation, and is not an answer.
    Release,
    /// Rent a machine with at least the cards the pool's slots bind.
    Rent,
    EmitReplacedAndOnline,
    SwapTarget,
    KeepGuard,
    Assess,
    /// Set the interrupt, and announce the exhaustion where it was not yet.
    WindDown { announce: bool },
    Retire { fatal: bool },
    Finish(ReplaceEnd),
}

/// What came of an action of replacing a machine.
#[derive(Debug, Clone, Copy, PartialEq, Eq, Structural)]
pub enum ReplaceAnswer {
    Done,
    Failed,
    /// Whether there was a guard to take.
    Took(bool),
    /// Whether the budget is exhausted.
    Exhausted(bool),
}

/// The replacement of a lost machine.
#[derive(Debug, Clone, Copy, PartialEq, Eq, Structural)]
pub struct Replacing {
    /// What its group does about a shortfall.
    pub fill: FillPolicy,
    /// An exhaustion was announced.
    pub budget_announced: bool,
    /// Where the replacement is.
    pub phase: ReplacePhase,
}

impl Replacing {
    /// A replacement before anything was done.
    pub open spec fn starting(fill: FillPolicy, budget_announced: bool) -> Replacing {
        Replacing { fill, budget_announced, phase: ReplacePhase::Marking }
    }

    /// This replacement in another phase.
    pub open spec fn at(self, phase: ReplacePhase) -> Replacing {
        Replacing { phase, ..self }
    }

    /// The action a phase calls for.
    pub open spec fn act(self) -> ReplaceAction {
        match self.phase {
            ReplacePhase::Marking => ReplaceAction::MarkReplacing,
            ReplacePhase::Taking => ReplaceAction::TakeGuard,
            ReplacePhase::Losing => ReplaceAction::EmitLost,
            ReplacePhase::Recording => ReplaceAction::RecordLost,
            ReplacePhase::Releasing => ReplaceAction::Release,
            ReplacePhase::Renting => ReplaceAction::Rent,
            ReplacePhase::Announcing => ReplaceAction::EmitReplacedAndOnline,
            ReplacePhase::Swapping => ReplaceAction::SwapTarget,
            ReplacePhase::Keeping => ReplaceAction::KeepGuard,
            ReplacePhase::Assessing => ReplaceAction::Assess,
            ReplacePhase::WindingDown => ReplaceAction::WindDown {
                announce: !self.budget_announced,
            },
            ReplacePhase::Retiring { fatal } => ReplaceAction::Retire { fatal },
            ReplacePhase::Over(end) => ReplaceAction::Finish(end),
        }
    }

    /// Where an answer takes the replacement. A replacement refused because the
    /// budget is exhausted is a wind-down and never a fault; any other failure
    /// to rent one faults the search under strict fill alone.
    pub open spec fn next(self, answer: ReplaceAnswer) -> Replacing {
        match (self.phase, answer) {
            (ReplacePhase::Marking, ReplaceAnswer::Done) => self.at(ReplacePhase::Taking),
            (ReplacePhase::Taking, ReplaceAnswer::Took(took)) => if took {
                self.at(ReplacePhase::Losing)
            } else {
                self.at(ReplacePhase::Renting)
            },
            (ReplacePhase::Losing, ReplaceAnswer::Done) => self.at(ReplacePhase::Recording),
            (ReplacePhase::Recording, ReplaceAnswer::Done) => self.at(ReplacePhase::Releasing),
            (ReplacePhase::Recording, ReplaceAnswer::Failed) => self.at(
                ReplacePhase::Over(ReplaceEnd::Raised),
            ),
            (ReplacePhase::Releasing, ReplaceAnswer::Done) => self.at(ReplacePhase::Renting),
            (ReplacePhase::Releasing, ReplaceAnswer::Failed) => self.at(ReplacePhase::Renting),
            (ReplacePhase::Renting, ReplaceAnswer::Done) => self.at(ReplacePhase::Announcing),
            (ReplacePhase::Renting, ReplaceAnswer::Failed) => self.at(ReplacePhase::Assessing),
            (ReplacePhase::Announcing, ReplaceAnswer::Done) => self.at(ReplacePhase::Swapping),
            (ReplacePhase::Swapping, ReplaceAnswer::Done) => self.at(ReplacePhase::Keeping),
            (ReplacePhase::Keeping, ReplaceAnswer::Done) => self.at(
                ReplacePhase::Over(ReplaceEnd::Replaced),
            ),
            (ReplacePhase::Assessing, ReplaceAnswer::Failed) => self.at(
                ReplacePhase::Over(ReplaceEnd::Raised),
            ),
            (ReplacePhase::Assessing, ReplaceAnswer::Exhausted(exhausted)) => if exhausted {
                self.at(ReplacePhase::WindingDown)
            } else {
                self.at(ReplacePhase::Retiring { fatal: self.fill == FillPolicy::Strict })
            },
            (ReplacePhase::WindingDown, ReplaceAnswer::Done) => Replacing {
                budget_announced: true,
                phase: ReplacePhase::Retiring { fatal: false },
                ..self
            },
            (ReplacePhase::Retiring { fatal }, ReplaceAnswer::Done) => self.at(
                ReplacePhase::Over(ReplaceEnd::Retired { fatal }),
            ),
            _ => self,
        }
    }

    /// Begins the replacement of a machine.
    pub fn begin(fill: FillPolicy, budget_announced: bool) -> (r: Replacing)
        ensures
            r == Replacing::starting(fill, budget_announced),
    {
        Replacing { fill, budget_announced, phase: ReplacePhase::Marking }
    }

    /// What to do next.
    pub fn action(&self) -> (r: ReplaceAction)
        ensures
            r == self.act(),
    {
        match self.phase {
            ReplacePhase::Marking => ReplaceAction::MarkReplacing,
            ReplacePhase::Taking => ReplaceAction::TakeGuard,
            ReplacePhase::Losing => ReplaceAction::EmitLost,
            ReplacePhase::Recording => ReplaceAction::RecordLost,
            ReplacePhase::Releasing => ReplaceAction::Release,
            ReplacePhase::Renting => ReplaceAction::Rent,
            ReplacePhase::Announcing => ReplaceAction::EmitReplacedAndOnline,
            ReplacePhase::Swapping => ReplaceAction::SwapTarget,
            ReplacePhase::Keeping => ReplaceAction::KeepGuard,
            ReplacePhase::Assessing => ReplaceAction::Assess,
            ReplacePhase::WindingDown => ReplaceAction::WindDown {
                announce: !self.budget_announced,
            },
            ReplacePhase::Retiring { fatal } => ReplaceAction::Retire { fatal },
            ReplacePhase::Over(end) => ReplaceAction::Finish(end),
        }
    }

    fn to(self, phase: ReplacePhase) -> (r: Replacing)
        ensures
            r == self.at(phase),
    {
        Replacing { phase, ..self }
    }

    /// The replacement after the answers, one after another.
    pub open spec fn after(self, answers: Seq<ReplaceAnswer>) -> Replacing
        decreases answers.len(),
    {
        if answers.len() == 0 {
            self
        } else {
            self.after(answers.drop_last()).next(answers.last())
        }
    }
}

/// One step of replacing a lost machine: where the answer to its action takes
/// it.
pub fn replace(at: Replacing, answer: ReplaceAnswer) -> (r: Replacing)
    ensures
        r == at.next(answer),
{
    match (at.phase, answer) {
        (ReplacePhase::Marking, ReplaceAnswer::Done) => at.to(ReplacePhase::Taking),
        (ReplacePhase::Taking, ReplaceAnswer::Took(took)) => {
            if took {
                at.to(ReplacePhase::Losing)
            } else {
                at.to(ReplacePhase::Renting)
            }
        },
        (ReplacePhase::Losing, ReplaceAnswer::Done) => at.to(ReplacePhase::Recording),
        (ReplacePhase::Recording, ReplaceAnswer::Done) => at.to(ReplacePhase::Releasing),
        (ReplacePhase::Recording, ReplaceAnswer::Failed) => at.to(
            ReplacePhase::Over(ReplaceEnd::Raised),
        ),
        (ReplacePhase::Releasing, ReplaceAnswer::Done) => at.to(ReplacePhase::Renting),
        (ReplacePhase::Releasing, ReplaceAnswer::Failed) => at.to(ReplacePhase::Renting),
        (ReplacePhase::Renting, ReplaceAnswer::Done) => at.to(ReplacePhase::Announcing),
        (ReplacePhase::Renting, ReplaceAnswer::Failed) => at.to(ReplacePhase::Assessing),
        (ReplacePhase::Announcing, ReplaceAnswer::Done) => at.to(ReplacePhase::Swapping),
        (ReplacePhase::Swapping, ReplaceAnswer::Done) => at.to(ReplacePhase::Keeping),
        (ReplacePhase::Keeping, ReplaceAnswer::Done) => at.to(
            ReplacePhase::Over(ReplaceEnd::Replaced),
        ),
        (ReplacePhase::Assessing, ReplaceAnswer::Failed) => at.to(
            ReplacePhase::Over(ReplaceEnd::Raised),
        ),
        (ReplacePhase::Assessing, ReplaceAnswer::Exhausted(exhausted)) => {
            if exhausted {
                at.to(ReplacePhase::WindingDown)
            } else {
                let fatal: bool = at.fill == FillPolicy::Strict;
                at.to(ReplacePhase::Retiring { fatal })
            }
        },
        (ReplacePhase::WindingDown, ReplaceAnswer::Done) => Replacing {
            budget_announced: true,
            phase: ReplacePhase::Retiring { fatal: false },
            ..at
        },
        (ReplacePhase::Retiring { fatal }, ReplaceAnswer::Done) => at.to(
            ReplacePhase::Over(ReplaceEnd::Retired { fatal }),
        ),
        _ => at,
    }
}

/// A lost machine faults the search only under strict fill, and only where the
/// budget was not what refused its replacement.
pub proof fn an_exhausted_budget_is_never_a_fault(
    fill: FillPolicy,
    budget_announced: bool,
    answers: Seq<ReplaceAnswer>,
)
    ensures
        ({
            let now = Replacing::starting(fill, budget_announced).after(answers);
            let fatal = now.phase == (ReplacePhase::Retiring { fatal: true }) || now.phase
                == ReplacePhase::Over(ReplaceEnd::Retired { fatal: true });
            &&& fatal ==> fill == FillPolicy::Strict && answers.contains(
                ReplaceAnswer::Exhausted(false),
            )
            &&& now.fill == fill
            &&& budget_announced ==> now.budget_announced
            &&& now.act() == (ReplaceAction::WindDown { announce: true }) ==> !budget_announced
        }),
    decreases answers.len(),
{
    if answers.len() > 0 {
        let rest = answers.drop_last();
        an_exhausted_budget_is_never_a_fault(fill, budget_announced, rest);
        assert(answers[answers.len() - 1] == answers.last());
        assert forall|a: ReplaceAnswer| rest.contains(a) implies answers.contains(a) by {
            let k = choose|k: int| 0 <= k < rest.len() && rest[k] == a;
            assert(answers[k] == a);
        }
    }
}

/// The transport is blocked before the dead machine is let go of, and a
/// replacement is announced before the transport is pointed at it and its guard
/// kept.
pub proof fn the_replacement_is_in_order(at: Replacing, answer: ReplaceAnswer)
    requires
        at.next(answer).phase != at.phase,
    ensures
        ({
            let now = at.next(answer).phase;
            &&& now == ReplacePhase::Taking ==> at.phase == ReplacePhase::Marking
            &&& now == ReplacePhase::Recording ==> at.phase == ReplacePhase::Losing
            &&& now == ReplacePhase::Releasing ==> at.phase == ReplacePhase::Recording
            &&& now == ReplacePhase::Swapping ==> at.phase == ReplacePhase::Announcing
            &&& now == ReplacePhase::Keeping ==> at.phase == ReplacePhase::Swapping
            &&& now == ReplacePhase::Over(ReplaceEnd::Replaced) ==> at.phase
                == ReplacePhase::Keeping
            &&& now == ReplacePhase::Assessing ==> at.phase == ReplacePhase::Renting && answer
                == ReplaceAnswer::Failed
        }),
{
}

impl Routine for Replacing {
    type Action = ReplaceAction;

    type Answer = ReplaceAnswer;

    open spec fn calls_for(self) -> ReplaceAction {
        self.act()
    }

    open spec fn reached(self, answers: Seq<ReplaceAnswer>) -> Replacing {
        self.after(answers)
    }

    open spec fn can_answer(action: ReplaceAction, answer: ReplaceAnswer) -> bool {
        match action {
            ReplaceAction::TakeGuard => answer is Took,
            ReplaceAction::RecordLost => answer is Done || answer is Failed,
            ReplaceAction::Release => answer is Done || answer is Failed,
            ReplaceAction::Rent => answer is Done || answer is Failed,
            ReplaceAction::Assess => answer is Exhausted || answer is Failed,
            ReplaceAction::Finish(_) => false,
            _ => answer is Done,
        }
    }
}

/// What the replacement of a machine does, from what it did last. The transport
/// is blocked first; a machine that was guarded is said to be lost, held to it,
/// and let go of, whether or not that succeeds; then another is rented. One that
/// came up is announced, pointed at, and kept. Where none did, the budget tells
/// why: an exhausted one winds the search down and faults nothing, and any other
/// reason faults it under strict fill alone.
pub proof fn what_a_replacement_does_next(
    fill: FillPolicy,
    budget_announced: bool,
    answers: Seq<ReplaceAnswer>,
)
    ensures
        ({
            let start = Replacing::starting(fill, budget_announced);
            let act = start.after(answers).act();
            match crate::routine::last_done(start, answers) {
                None => act == ReplaceAction::MarkReplacing,
                Some((ReplaceAction::MarkReplacing, _)) => act == ReplaceAction::TakeGuard,
                Some((_, ReplaceAnswer::Took(took))) => act == if took {
                    ReplaceAction::EmitLost
                } else {
                    ReplaceAction::Rent
                },
                Some((ReplaceAction::EmitLost, _)) => act == ReplaceAction::RecordLost,
                Some((ReplaceAction::RecordLost, ReplaceAnswer::Done)) => act
                    == ReplaceAction::Release,
                Some((ReplaceAction::RecordLost, _)) => act == ReplaceAction::Finish(
                    ReplaceEnd::Raised,
                ),
                Some((ReplaceAction::Release, _)) => act == ReplaceAction::Rent,
                Some((ReplaceAction::Rent, ReplaceAnswer::Done)) => act
                    == ReplaceAction::EmitReplacedAndOnline,
                Some((ReplaceAction::Rent, _)) => act == ReplaceAction::Assess,
                Some((ReplaceAction::EmitReplacedAndOnline, _)) => act == ReplaceAction::SwapTarget,
                Some((ReplaceAction::SwapTarget, _)) => act == ReplaceAction::KeepGuard,
                Some((ReplaceAction::KeepGuard, _)) => act == ReplaceAction::Finish(
                    ReplaceEnd::Replaced,
                ),
                Some((_, ReplaceAnswer::Exhausted(exhausted))) => act == if exhausted {
                    ReplaceAction::WindDown { announce: !budget_announced }
                } else {
                    ReplaceAction::Retire { fatal: fill == FillPolicy::Strict }
                },
                Some((ReplaceAction::Assess, _)) => act == ReplaceAction::Finish(
                    ReplaceEnd::Raised,
                ),
                Some((ReplaceAction::WindDown { .. }, _)) => act == (ReplaceAction::Retire {
                    fatal: false,
                }),
                Some((ReplaceAction::Retire { fatal }, _)) => act == ReplaceAction::Finish(
                    ReplaceEnd::Retired { fatal },
                ),
                Some(_) => false,
            }
        }),
    decreases answers.len(),
{
    lemma_replacement_so_far(fill, budget_announced, answers);
    if answers.len() > 0 {
        what_a_replacement_does_next(fill, budget_announced, answers.drop_last());
        lemma_replacement_so_far(fill, budget_announced, answers.drop_last());
    }
}

proof fn lemma_replacement_so_far(
    fill: FillPolicy,
    budget_announced: bool,
    answers: Seq<ReplaceAnswer>,
)
    ensures
        ({
            let now = Replacing::starting(fill, budget_announced).after(answers);
            &&& now.fill == fill
            &&& !(now.phase is Retiring || now.phase is Over) ==> now.budget_announced
                == budget_announced
        }),
    decreases answers.len(),
{
    if answers.len() > 0 {
        lemma_replacement_so_far(fill, budget_announced, answers.drop_last());
    }
}

/// Another machine serves in place of one that is gone only once it is in place:
/// the transport was blocked, the machine rented, announced, and pointed at, and
/// its guard kept. A transport is retired only where no machine could be rented
/// and the budget was asked why; and it faults the search exactly where the fill
/// is strict and the budget was not the reason.
pub proof fn a_replacement_serves_once_it_is_in_place(
    fill: FillPolicy,
    budget_announced: bool,
    answers: Seq<ReplaceAnswer>,
)
    ensures
        ({
            let start = Replacing::starting(fill, budget_announced);
            let act = start.after(answers).act();
            let done = ReplaceAnswer::Done;
            &&& act == ReplaceAction::Finish(ReplaceEnd::Replaced) ==> {
                &&& crate::routine::did(start, answers, ReplaceAction::MarkReplacing, done)
                &&& crate::routine::answer_to(start, answers, ReplaceAction::TakeGuard) is Some
                &&& crate::routine::did(start, answers, ReplaceAction::Rent, done)
                &&& crate::routine::did(start, answers, ReplaceAction::EmitReplacedAndOnline, done)
                &&& crate::routine::did(start, answers, ReplaceAction::SwapTarget, done)
                &&& crate::routine::did(start, answers, ReplaceAction::KeepGuard, done)
            }
            &&& act matches ReplaceAction::Finish(ReplaceEnd::Retired { fatal }) ==> {
                &&& crate::routine::did(start, answers, ReplaceAction::MarkReplacing, done)
                &&& crate::routine::did(
                    start,
                    answers,
                    ReplaceAction::Rent,
                    ReplaceAnswer::Failed,
                )
                &&& crate::routine::answer_to(start, answers, ReplaceAction::Assess) matches Some(
                    ReplaceAnswer::Exhausted(exhausted),
                )
                &&& fatal == (fill == FillPolicy::Strict && !exhausted)
                &&& exhausted ==> crate::routine::did(
                    start,
                    answers,
                    ReplaceAction::WindDown { announce: !budget_announced },
                    done,
                )
                &&& crate::routine::did(start, answers, ReplaceAction::Retire { fatal }, done)
            }
            &&& act == ReplaceAction::Rent ==> crate::routine::answer_to(
                start,
                answers,
                ReplaceAction::TakeGuard,
            ) == Some(ReplaceAnswer::Took(false)) || {
                &&& crate::routine::did(start, answers, ReplaceAction::EmitLost, done)
                &&& crate::routine::did(start, answers, ReplaceAction::RecordLost, done)
                &&& crate::routine::answer_to(start, answers, ReplaceAction::Release) is Some
            }
        }),
{
    lemma_in_place_of_the_lost(fill, budget_announced, answers);
}

proof fn lemma_in_place_of_the_lost(
    fill: FillPolicy,
    budget_announced: bool,
    answers: Seq<ReplaceAnswer>,
)
    ensures
        ({
            let start = Replacing::starting(fill, budget_announced);
            let phase = start.after(answers).phase;
            let done = ReplaceAnswer::Done;
            let replaced = phase == ReplacePhase::Over(ReplaceEnd::Replaced);
            let retired = phase matches ReplacePhase::Over(ReplaceEnd::Retired { .. });
            let raised = phase == ReplacePhase::Over(ReplaceEnd::Raised);
            let came_up = phase is Announcing || phase is Swapping || phase is Keeping || replaced;
            let fell_short = phase is Assessing || phase is WindingDown || phase is Retiring
                || retired;
            let assessed = crate::routine::answer_to(start, answers, ReplaceAction::Assess);
            &&& !(phase is Marking) && !raised ==> crate::routine::did(
                start,
                answers,
                ReplaceAction::MarkReplacing,
                done,
            )
            &&& !(phase is Marking || phase is Taking) && !raised ==> crate::routine::answer_to(
                start,
                answers,
                ReplaceAction::TakeGuard,
            ) is Some
            &&& phase is Losing || phase is Recording || phase is Releasing
                ==> crate::routine::answer_to(start, answers, ReplaceAction::TakeGuard) == Some(
                ReplaceAnswer::Took(true),
            )
            &&& phase is Recording || phase is Releasing ==> crate::routine::did(
                start,
                answers,
                ReplaceAction::EmitLost,
                done,
            )
            &&& phase is Releasing ==> crate::routine::did(
                start,
                answers,
                ReplaceAction::RecordLost,
                done,
            )
            &&& phase is Renting ==> crate::routine::answer_to(
                start,
                answers,
                ReplaceAction::TakeGuard,
            ) == Some(ReplaceAnswer::Took(false)) || {
                &&& crate::routine::did(start, answers, ReplaceAction::EmitLost, done)
                &&& crate::routine::did(start, answers, ReplaceAction::RecordLost, done)
                &&& crate::routine::answer_to(start, answers, ReplaceAction::Release) is Some
            }
            &&& came_up ==> crate::routine::did(start, answers, ReplaceAction::Rent, done)
            &&& phase is Swapping || phase is Keeping || replaced ==> crate::routine::did(
                start,
                answers,
                ReplaceAction::EmitReplacedAndOnline,
                done,
            )
            &&& phase is Keeping || replaced ==> crate::routine::did(
                start,
                answers,
                ReplaceAction::SwapTarget,
                done,
            )
            &&& replaced ==> crate::routine::did(start, answers, ReplaceAction::KeepGuard, done)
            &&& fell_short ==> crate::routine::did(
                start,
                answers,
                ReplaceAction::Rent,
                ReplaceAnswer::Failed,
            )
            &&& phase is WindingDown ==> assessed == Some(ReplaceAnswer::Exhausted(true))
            &&& phase matches ReplacePhase::Retiring { fatal } ==> {
                &&& assessed matches Some(ReplaceAnswer::Exhausted(exhausted))
                &&& fatal == (fill == FillPolicy::Strict && !exhausted)
                &&& exhausted ==> crate::routine::did(
                    start,
                    answers,
                    ReplaceAction::WindDown { announce: !budget_announced },
                    done,
                )
            }
            &&& phase matches ReplacePhase::Over(ReplaceEnd::Retired { fatal }) ==> {
                &&& assessed matches Some(ReplaceAnswer::Exhausted(exhausted))
                &&& fatal == (fill == FillPolicy::Strict && !exhausted)
                &&& exhausted ==> crate::routine::did(
                    start,
                    answers,
                    ReplaceAction::WindDown { announce: !budget_announced },
                    done,
                )
                &&& crate::routine::did(start, answers, ReplaceAction::Retire { fatal }, done)
            }
        }),
    decreases answers.len(),
{
    if answers.len() > 0 {
        lemma_in_place_of_the_lost(fill, budget_announced, answers.drop_last());
        lemma_replacement_so_far(fill, budget_announced, answers.drop_last());
    }
}

// ---- What a replacement must carry ---------------------------------------------------------

/// How many slots are bound to a device.
pub open spec fn bound_slots(slots: Seq<Option<DeviceBinding>>) -> nat
    decreases slots.len(),
{
    if slots.len() == 0 {
        0
    } else {
        bound_slots(slots.drop_last()) + if slots.last() is Some {
            1nat
        } else {
            0nat
        }
    }
}

/// The cards a replacement must carry: what the entry states, and at least one
/// for each slot that is bound to a device.
pub fn replacement_gpus(stated: Option<u32>, slots: &Vec<Option<DeviceBinding>>) -> (r: u32)
    requires
        slots@.len() <= u32::MAX,
    ensures
        r >= bound_slots(slots@),
        stated matches Some(n) ==> r >= n,
        r == bound_slots(slots@) || stated == Some(r),
{
    let mut bound: u32 = 0;
    let mut i: usize = 0;
    while i < slots.len()
        invariant
            i <= slots@.len(),
            slots@.len() <= u32::MAX,
            bound <= i,
            bound == bound_slots(slots@.take(i as int)),
        decreases slots@.len() - i,
    {
        proof {
            assert(slots@.take(i + 1).drop_last() =~= slots@.take(i as int));
        }
        match &slots[i] {
            Some(_) => {
                bound = bound + 1;
            },
            None => {},
        }
        i = i + 1;
    }
    proof {
        assert(slots@.take(slots@.len() as int) =~= slots@);
    }
    match stated {
        Some(n) => if n > bound {
            n
        } else {
            bound
        },
        None => bound,
    }
}

/// A guarded machine, as far as it is announced.
#[derive(Debug, Clone, PartialEq, Eq)]
pub struct Instance {
    /// The rental's tag.
    pub tag: String,
    /// The provider's id.
    pub id: String,
    /// The cards of the offer it was taken from.
    pub gpu_model: String,
    /// How many of them.
    pub gpu_count: u32,
    /// What it costs, in millionths of a dollar per hour.
    pub rate: u64,
}

/// Whether `event` announces the machine, which answers on `host`.
pub open spec fn is_online(event: Event, instance: Instance, host: Seq<char>) -> bool {
    event matches Event::InstanceOnline {
        tag,
        instance: id,
        gpu_model,
        gpu_count,
        rate_microusd_hour,
        host: h,
    } && tag@ == instance.tag@ && id@ == instance.id@ && gpu_model@ == instance.gpu_model@
        && gpu_count == instance.gpu_count && rate_microusd_hour == instance.rate && h@ == host
}

/// The announcement of a machine that answers on `host`.
pub fn instance_online(instance: &Instance, host: &str) -> (event: Event)
    ensures
        is_online(event, *instance, host@),
{
    Event::InstanceOnline {
        tag: instance.tag.clone(),
        instance: instance.id.clone(),
        gpu_model: instance.gpu_model.clone(),
        gpu_count: instance.gpu_count,
        rate_microusd_hour: instance.rate,
        host: host.to_owned(),
    }
}

/// Whether `event` says that the machine is gone.
pub open spec fn is_lost(event: Event, lost: Instance) -> bool {
    event matches Event::InstanceLost { tag, instance } && tag@ == lost.tag@ && instance@
        == lost.id@
}

/// The announcement that a machine is gone.
pub fn instance_lost(lost: &Instance) -> (event: Event)
    ensures
        is_lost(event, *lost),
{
    Event::InstanceLost { tag: lost.tag.clone(), instance: lost.id.clone() }
}

/// Whether `event` says that `new` stands in for the machine that had the id
/// `from`.
pub open spec fn is_replaced(event: Event, from: Seq<char>, new: Instance) -> bool {
    event matches Event::InstanceReplaced { tag, from: f, to } && tag@ == new.tag@ && f@ == from
        && to@ == new.id@
}

/// The id of a machine that is gone; nothing where it was let go of before.
pub open spec fn lost_id(lost: Option<&Instance>) -> Seq<char> {
    match lost {
        Some(lost) => lost.id@,
        None => Seq::empty(),
    }
}

/// What is said of a replacement, once it is there: that it stands in for the
/// machine that is gone, and then that it is online, on the `host` of its own
/// endpoint.
pub fn instance_replaced(lost: Option<&Instance>, new: &Instance, host: &str) -> (events: Vec<Event>)
    ensures
        events@.len() == 2,
        is_replaced(events@[0], lost_id(lost), *new),
        is_online(events@[1], *new, host@),
{
    let from: String = match lost {
        Some(lost) => lost.id.clone(),
        None => {
            let none: String = "".to_owned();
            proof {
                reveal_strlit("");
                assert(none@ =~= Seq::<char>::empty());
            }
            none
        },
    };
    let mut events: Vec<Event> = Vec::new();
    events.push(Event::InstanceReplaced { tag: new.tag.clone(), from, to: new.id.clone() });
    events.push(instance_online(new, host));
    events
}

/// Whether a replacement, answered so, took the guard of the machine that is
/// gone.
pub open spec fn took_guard(at: Replacing, answers: Seq<ReplaceAnswer>) -> bool
    decreases answers.len(),
{
    answers.len() > 0 && (took_guard(at, answers.drop_last()) || (at.after(answers.drop_last()).act()
        == ReplaceAction::TakeGuard && answers.last() == ReplaceAnswer::Took(true)))
}

/// What a replacement said of its machines, answered so: `lost` and `replaced`,
/// each time it was asked for and done.
pub open spec fn said_of_replacement(
    at: Replacing,
    answers: Seq<ReplaceAnswer>,
    lost: Seq<Event>,
    replaced: Seq<Event>,
) -> Seq<Event>
    decreases answers.len(),
{
    if answers.len() == 0 {
        Seq::empty()
    } else {
        let rest = answers.drop_last();
        let before = at.after(rest);
        let said = said_of_replacement(at, rest, lost, replaced);
        if before.act() == ReplaceAction::EmitLost && answers.last() == ReplaceAnswer::Done {
            said + lost
        } else if before.act() == ReplaceAction::EmitReplacedAndOnline && answers.last()
            == ReplaceAnswer::Done {
            said + replaced
        } else {
            said
        }
    }
}

/// Whether the loss was said by the time of a phase, where there was a machine
/// to lose.
spec fn is_past_the_loss(phase: ReplacePhase) -> bool {
    !(phase is Marking) && !(phase is Taking) && !(phase is Losing)
}

/// Whether the replacement was said by the time of a phase.
spec fn is_past_the_replacement(phase: ReplacePhase) -> bool {
    phase is Swapping || phase is Keeping || phase == ReplacePhase::Over(ReplaceEnd::Replaced)
}

proof fn lemma_step_of_replacement(before: Replacing, answer: ReplaceAnswer)
    ensures
        ({
            let now = before.next(answer);
            let takes = before.phase is Taking && answer == ReplaceAnswer::Took(true);
            &&& is_past_the_loss(now.phase) ==> is_past_the_loss(before.phase) || (
            before.phase is Taking && answer == ReplaceAnswer::Took(false)) || (
            before.phase is Losing && answer == ReplaceAnswer::Done)
            &&& is_past_the_loss(before.phase) ==> is_past_the_loss(now.phase)
            &&& before.phase is Losing && answer == ReplaceAnswer::Done ==> is_past_the_loss(
                now.phase,
            )
            &&& now.phase is Losing ==> takes || before.phase is Losing
            &&& takes ==> now.phase is Losing
            &&& now.phase is Taking ==> before.phase is Marking || before.phase is Taking
            &&& now.phase is Marking ==> before.phase is Marking
            &&& is_past_the_replacement(now.phase) <==> is_past_the_replacement(before.phase) || (
            before.phase is Announcing && answer == ReplaceAnswer::Done)
        }),
{
}

proof fn lemma_said_of_replacement(
    at: Replacing,
    answers: Seq<ReplaceAnswer>,
    lost: Seq<Event>,
    replaced: Seq<Event>,
)
    requires
        at.phase is Marking,
    ensures
        ({
            let now = at.after(answers).phase;
            let took = took_guard(at, answers);
            &&& now is Marking || now is Taking ==> !took
            &&& now is Losing ==> took
            &&& is_past_the_replacement(now) ==> is_past_the_loss(now)
            &&& said_of_replacement(at, answers, lost, replaced) == if is_past_the_loss(now)
                && took {
                lost
            } else {
                Seq::empty()
            } + if is_past_the_replacement(now) {
                replaced
            } else {
                Seq::empty()
            }
        }),
    decreases answers.len(),
{
    if answers.len() > 0 {
        let rest = answers.drop_last();
        lemma_said_of_replacement(at, rest, lost, replaced);
        let before = at.after(rest);
        lemma_step_of_replacement(before, answers.last());
        assert(at.after(answers) == before.next(answers.last()));
        assert(before.act() == ReplaceAction::EmitLost <==> before.phase is Losing);
        assert(before.act() == ReplaceAction::EmitReplacedAndOnline
            <==> before.phase is Announcing);
        assert(before.act() == ReplaceAction::TakeGuard <==> before.phase is Taking);
        let none = Seq::<Event>::empty();
        assert(none + none =~= none);
        assert(none + lost =~= lost);
        assert(lost + none =~= lost);
        assert(none + replaced =~= replaced);
        assert(none + none + lost =~= lost + none);
        assert(lost + none + replaced =~= lost + replaced);
        assert(none + none + replaced =~= none + replaced);
    } else {
        assert(Seq::<Event>::empty() + Seq::<Event>::empty() =~= Seq::<Event>::empty());
    }
}

/// What is said of a machine that was replaced, in order: that it is lost, that
/// another stands in for it, and that the other is online. Where there was no
/// machine to lose, the first is left out; where none stands in, only the loss
/// is said.
pub proof fn a_replacement_says_lost_then_replaced_then_online(
    fill: FillPolicy,
    budget_announced: bool,
    answers: Seq<ReplaceAnswer>,
    gone: Option<&Instance>,
    new: Instance,
    host: Seq<char>,
    lost: Seq<Event>,
    replaced: Seq<Event>,
)
    requires
        ({
            let now = Replacing::starting(fill, budget_announced).after(answers);
            now.phase is Over
        }),
        took_guard(Replacing::starting(fill, budget_announced), answers) == (gone is Some),
        gone matches Some(gone) ==> lost.len() == 1 && is_lost(lost[0], *gone),
        replaced.len() == 2,
        is_replaced(replaced[0], lost_id(gone), new),
        is_online(replaced[1], new, host),
    ensures
        ({
            let at = Replacing::starting(fill, budget_announced);
            let said = said_of_replacement(at, answers, lost, replaced);
            let stands_in = at.after(answers).phase == ReplacePhase::Over(ReplaceEnd::Replaced);
            match gone {
                Some(gone) => {
                    &&& said.len() == if stands_in {
                        3nat
                    } else {
                        1nat
                    }
                    &&& is_lost(said[0], *gone)
                    &&& stands_in ==> is_replaced(said[1], gone.id@, new) && is_online(
                        said[2],
                        new,
                        host,
                    )
                },
                None => if stands_in {
                    said == replaced
                } else {
                    said == Seq::<Event>::empty()
                },
            }
        }),
{
    let at = Replacing::starting(fill, budget_announced);
    lemma_said_of_replacement(at, answers, lost, replaced);
    let none = Seq::<Event>::empty();
    assert(none + replaced =~= replaced);
    assert(none + none =~= none);
    assert(lost + none =~= lost);
}

/// One machine of a group, as its pool holds it.
#[derive(Debug, Clone, PartialEq, Eq)]
pub struct Held {
    /// The machine; none once it was let go of and nothing replaced it.
    pub instance: Option<Instance>,
    /// The host it answers on.
    pub host: String,
}

/// The machines that are still held, in order, each with its host.
pub open spec fn held_in(hosts: Seq<Held>) -> Seq<(Instance, Seq<char>)>
    decreases hosts.len(),
{
    if hosts.len() == 0 {
        Seq::empty()
    } else {
        let rest = held_in(hosts.drop_last());
        match hosts.last().instance {
            Some(instance) => rest.push((instance, hosts.last().host@)),
            None => rest,
        }
    }
}

/// The machines that are still held, group by group.
pub open spec fn held_of(groups: Seq<Vec<Held>>) -> Seq<(Instance, Seq<char>)>
    decreases groups.len(),
{
    if groups.len() == 0 {
        Seq::empty()
    } else {
        held_of(groups.drop_last()) + held_in(groups.last()@)
    }
}

/// Whether `events` announces exactly these machines, in order.
pub open spec fn announces(events: Seq<Event>, machines: Seq<(Instance, Seq<char>)>) -> bool {
    &&& events.len() == machines.len()
    &&& forall|i: int|
        0 <= i < events.len() ==> is_online(
            #[trigger] events[i],
            machines[i].0,
            machines[i].1,
        )
}

/// The announcement of the machines a search started with: one for each that is
/// held, group by group, and in the order of its group.
pub fn composition(groups: &Vec<Vec<Held>>) -> (events: Vec<Event>)
    ensures
        announces(events@, held_of(groups@)),
{
    let mut events: Vec<Event> = Vec::new();
    let mut g: usize = 0;
    proof {
        assert(groups@.take(0) =~= Seq::<Vec<Held>>::empty());
    }
    while g < groups.len()
        invariant
            g <= groups@.len(),
            announces(events@, held_of(groups@.take(g as int))),
        decreases groups@.len() - g,
    {
        let hosts: &Vec<Held> = &groups[g];
        let ghost before = held_of(groups@.take(g as int));
        let mut i: usize = 0;
        proof {
            assert(hosts@.take(0) =~= Seq::<Held>::empty());
            assert(before + held_in(hosts@.take(0)) =~= before);
        }
        while i < hosts.len()
            invariant
                i <= hosts@.len(),
                announces(events@, before + held_in(hosts@.take(i as int))),
            decreases hosts@.len() - i,
        {
            let ghost so_far = before + held_in(hosts@.take(i as int));
            proof {
                assert(hosts@.take(i + 1).drop_last() =~= hosts@.take(i as int));
            }
            match &hosts[i].instance {
                Some(instance) => {
                    let ghost was = events@;
                    events.push(instance_online(instance, hosts[i].host.as_str()));
                    proof {
                        let now = so_far.push((*instance, hosts@[i as int].host@));
                        assert(before + held_in(hosts@.take(i + 1)) =~= now);
                        assert forall|k: int| 0 <= k < events@.len() implies is_online(
                            #[trigger] events@[k],
                            now[k].0,
                            now[k].1,
                        ) by {
                            if k < was.len() {
                                assert(events@[k] == was[k]);
                            }
                        }
                    }
                },
                None => {},
            }
            i = i + 1;
        }
        proof {
            assert(hosts@.take(hosts@.len() as int) =~= hosts@);
            assert(groups@.take(g + 1).drop_last() =~= groups@.take(g as int));
            assert(groups@.take(g + 1).last() == groups@[g as int]);
        }
        g = g + 1;
    }
    proof {
        assert(groups@.take(groups@.len() as int) =~= groups@);
    }
    events
}

/// Every machine that is held is announced once, and no other: the machines of
/// two rows are those of the first and then those of the second, and one machine
/// is announced with its own host exactly where it is held.
pub proof fn every_held_machine_is_announced(first: Seq<Held>, second: Seq<Held>, one: Held)
    ensures
        held_in(first + second) == held_in(first) + held_in(second),
        held_in(seq![one]) == (match one.instance {
            Some(instance) => seq![(instance, one.host@)],
            None => Seq::empty(),
        }),
    decreases second.len(),
{
    assert(seq![one].drop_last() =~= Seq::empty());
    assert(held_in(Seq::<Held>::empty()) =~= Seq::empty());
    assert(held_in(seq![one]) =~= (match one.instance {
        Some(instance) => seq![(instance, one.host@)],
        None => Seq::empty(),
    }));
    if second.len() == 0 {
        assert(first + second =~= first);
        assert(held_in(first) + held_in(second) =~= held_in(first));
    } else {
        every_held_machine_is_announced(first, second.drop_last(), one);
        assert((first + second).drop_last() =~= first + second.drop_last());
        assert((first + second).last() == second.last());
        assert(held_in(first + second) =~= held_in(first) + held_in(second));
    }
}

/// The machines of a search are announced group after group: those of two lists
/// of groups are those of the first and then those of the second, and those of
/// one group are the ones it holds.
pub proof fn every_group_is_announced(
    first: Seq<Vec<Held>>,
    second: Seq<Vec<Held>>,
    group: Vec<Held>,
)
    ensures
        held_of(first + second) == held_of(first) + held_of(second),
        held_of(seq![group]) == held_in(group@),
    decreases second.len(),
{
    assert(seq![group].drop_last() =~= Seq::empty());
    assert(held_of(Seq::<Vec<Held>>::empty()) =~= Seq::empty());
    assert(held_of(seq![group]) =~= held_in(group@));
    if second.len() == 0 {
        assert(first + second =~= first);
        assert(held_of(first) + held_of(second) =~= held_of(first));
    } else {
        every_group_is_announced(first, second.drop_last(), group);
        assert((first + second).drop_last() =~= first + second.drop_last());
        assert((first + second).last() == second.last());
        assert(held_of(first + second) =~= held_of(first) + held_of(second));
    }
}

// ---- A heartbeat ------------------------------------------------------------------------------

/// Where a heartbeat is.
#[derive(Debug, Clone, Copy, PartialEq, Eq, Structural)]
pub enum TickPhase {
    /// Was a wind-down requested?
    ReadInterrupt,
    /// Has the search's emitter arrived?
    AskEmitter,
    /// The machines are announced.
    Announcing,
    /// The budget is assessed.
    Assessing,
    /// It is exhausted: the search winds down.
    WindingDown,
    /// Does the machine still hold a guard?
    AskGuard,
    /// Its health is polled.
    Polling,
    /// It is gone and is replaced.
    Replacing(Replacing),
    /// It is over.
    Over(TickEnd),
}

/// How a heartbeat ended.
#[derive(Debug, Clone, Copy, PartialEq, Eq, Structural)]
pub enum TickEnd {
    /// A wind-down was requested before: nothing was done.
    Idle,
    /// The budget is exhausted, and the search winds down.
    WoundDown,
    /// Every machine was looked at.
    Ticked,
    /// An operation failed; the next heartbeat tries again.
    Raised,
}

/// What a heartbeat does next.
#[derive(Debug, Clone, Copy, PartialEq, Eq, Structural)]
pub enum TickAction {
    ReadInterrupt,
    AskEmitter,
    /// Announce every machine that still holds a guard.
    Announce,
    Assess,
    /// Set the interrupt, and announce the exhaustion where it was not yet.
    WindDown { announce: bool },
    /// Ask whether the machine at this place still holds a guard.
    AskGuard(usize),
    /// Poll the health of the machine at this place.
    Poll(usize),
    Replace(usize, ReplaceAction),
    Finish(TickEnd),
}

/// What came of an action of a heartbeat.
#[derive(Debug, Clone, Copy, PartialEq, Eq, Structural)]
pub enum TickAnswer {
    Interrupted(bool),
    /// Whether the emitter has arrived.
    Emitter(bool),
    Done,
    Exhausted(bool),
    /// Whether the machine holds a guard.
    Guarded(bool),
    /// The machine is there.
    Healthy,
    /// The machine is gone, and this is its group's fill policy.
    Gone(FillPolicy),
    Replace(ReplaceAnswer),
    Failed,
}

/// One heartbeat, over a number of machines.
#[derive(Debug, Clone, Copy, PartialEq, Eq, Structural)]
pub struct Ticking {
    /// How many machines there are.
    pub hosts: usize,
    /// The machine being looked at.
    pub host: usize,
    /// The machines were announced.
    pub announced: bool,
    /// An exhaustion was announced.
    pub budget_announced: bool,
    /// Where the heartbeat is.
    pub phase: TickPhase,
}

impl Ticking {
    /// A heartbeat before anything was done.
    pub open spec fn starting(hosts: usize, announced: bool, budget_announced: bool) -> Ticking {
        Ticking { hosts, host: 0, announced, budget_announced, phase: TickPhase::ReadInterrupt }
    }

    /// This heartbeat in another phase.
    pub open spec fn at(self, phase: TickPhase) -> Ticking {
        Ticking { phase, ..self }
    }

    /// The machine being looked at is one of them, and a replacement in
    /// progress is not over.
    pub open spec fn wf(self) -> bool {
        &&& self.host <= self.hosts
        &&& (self.phase is AskGuard || self.phase is Polling || self.phase is Replacing)
            ==> self.host < self.hosts
        &&& self.phase matches TickPhase::Replacing(replacing) ==> !(replacing.phase is Over)
            && replacing.budget_announced == self.budget_announced
        &&& self.phase == TickPhase::Over(TickEnd::Ticked) ==> self.host == self.hosts
    }

    /// The action a phase calls for.
    pub open spec fn act(self) -> TickAction {
        match self.phase {
            TickPhase::ReadInterrupt => TickAction::ReadInterrupt,
            TickPhase::AskEmitter => TickAction::AskEmitter,
            TickPhase::Announcing => TickAction::Announce,
            TickPhase::Assessing => TickAction::Assess,
            TickPhase::WindingDown => TickAction::WindDown { announce: !self.budget_announced },
            TickPhase::AskGuard => TickAction::AskGuard(self.host),
            TickPhase::Polling => TickAction::Poll(self.host),
            TickPhase::Replacing(replacing) => TickAction::Replace(self.host, replacing.act()),
            TickPhase::Over(end) => TickAction::Finish(end),
        }
    }

    /// The look at the machine at place `host`, or the end past the last.
    pub open spec fn looking(self, host: usize) -> Ticking {
        Ticking {
            host,
            phase: if host < self.hosts {
                TickPhase::AskGuard
            } else {
                TickPhase::Over(TickEnd::Ticked)
            },
            ..self
        }
    }

    /// The look at the machine after this one.
    pub open spec fn onward(self) -> Ticking {
        self.looking((self.host + 1) as usize)
    }

    /// Where a replacement leaves the heartbeat.
    pub open spec fn replaced(self, replacing: Replacing) -> Ticking {
        let now = Ticking { budget_announced: replacing.budget_announced, ..self };
        match replacing.phase {
            ReplacePhase::Over(ReplaceEnd::Raised) => now.at(TickPhase::Over(TickEnd::Raised)),
            ReplacePhase::Over(_) => now.onward(),
            _ => now.at(TickPhase::Replacing(replacing)),
        }
    }

    /// Where an answer takes the heartbeat.
    pub open spec fn next(self, answer: TickAnswer) -> Ticking {
        match (self.phase, answer) {
            (TickPhase::ReadInterrupt, TickAnswer::Interrupted(interrupted)) => if interrupted {
                self.at(TickPhase::Over(TickEnd::Idle))
            } else {
                self.at(TickPhase::AskEmitter)
            },
            (TickPhase::AskEmitter, TickAnswer::Emitter(present)) => if present
                && !self.announced {
                Ticking { announced: true, phase: TickPhase::Announcing, ..self }
            } else {
                self.at(TickPhase::Assessing)
            },
            (TickPhase::Announcing, TickAnswer::Done) => self.at(TickPhase::Assessing),
            (TickPhase::Assessing, TickAnswer::Failed) => self.at(TickPhase::Over(TickEnd::Raised)),
            (TickPhase::Assessing, TickAnswer::Exhausted(exhausted)) => if exhausted {
                self.at(TickPhase::WindingDown)
            } else {
                self.looking(0)
            },
            (TickPhase::WindingDown, TickAnswer::Done) => Ticking {
                budget_announced: true,
                phase: TickPhase::Over(TickEnd::WoundDown),
                ..self
            },
            (TickPhase::AskGuard, TickAnswer::Guarded(guarded)) => if guarded {
                self.at(TickPhase::Polling)
            } else {
                self.onward()
            },
            (TickPhase::Polling, TickAnswer::Failed) => self.at(TickPhase::Over(TickEnd::Raised)),
            (TickPhase::Polling, TickAnswer::Healthy) => self.onward(),
            (TickPhase::Polling, TickAnswer::Gone(fill)) => self.at(
                TickPhase::Replacing(Replacing::starting(fill, self.budget_announced)),
            ),
            (TickPhase::Replacing(replacing), TickAnswer::Replace(a)) => self.replaced(
                replacing.next(a),
            ),
            _ => self,
        }
    }

    /// Begins a heartbeat.
    pub fn begin(hosts: usize, announced: bool, budget_announced: bool) -> (r: Ticking)
        ensures
            r == Ticking::starting(hosts, announced, budget_announced),
            r.wf(),
    {
        Ticking { hosts, host: 0, announced, budget_announced, phase: TickPhase::ReadInterrupt }
    }

    /// What to do next.
    pub fn action(&self) -> (r: TickAction)
        ensures
            r == self.act(),
    {
        match self.phase {
            TickPhase::ReadInterrupt => TickAction::ReadInterrupt,
            TickPhase::AskEmitter => TickAction::AskEmitter,
            TickPhase::Announcing => TickAction::Announce,
            TickPhase::Assessing => TickAction::Assess,
            TickPhase::WindingDown => TickAction::WindDown { announce: !self.budget_announced },
            TickPhase::AskGuard => TickAction::AskGuard(self.host),
            TickPhase::Polling => TickAction::Poll(self.host),
            TickPhase::Replacing(replacing) => TickAction::Replace(self.host, replacing.action()),
            TickPhase::Over(end) => TickAction::Finish(end),
        }
    }

    fn to(self, phase: TickPhase) -> (r: Ticking)
        ensures
            r == self.at(phase),
    {
        Ticking { phase, ..self }
    }

    fn look(self, host: usize) -> (r: Ticking)
        ensures
            r == self.looking(host),
    {
        Ticking {
            host,
            phase: if host < self.hosts {
                TickPhase::AskGuard
            } else {
                TickPhase::Over(TickEnd::Ticked)
            },
            ..self
        }
    }

    fn after_replacing(self, replacing: Replacing) -> (r: Ticking)
        requires
            self.host < self.hosts,
        ensures
            r == self.replaced(replacing),
    {
        let now: Ticking = Ticking { budget_announced: replacing.budget_announced, ..self };
        match replacing.phase {
            ReplacePhase::Over(ReplaceEnd::Raised) => now.to(TickPhase::Over(TickEnd::Raised)),
            ReplacePhase::Over(_) => now.look(self.host + 1),
            _ => now.to(TickPhase::Replacing(replacing)),
        }
    }

    /// The heartbeat after the answers, one after another.
    pub open spec fn after(self, answers: Seq<TickAnswer>) -> Ticking
        decreases answers.len(),
    {
        if answers.len() == 0 {
            self
        } else {
            self.after(answers.drop_last()).next(answers.last())
        }
    }
}

/// One step of a heartbeat: where the answer to its action takes it.
pub fn tick(at: Ticking, answer: TickAnswer) -> (r: Ticking)
    requires
        at.wf(),
    ensures
        r == at.next(answer),
        r.wf(),
{
    match (at.phase, answer) {
        (TickPhase::ReadInterrupt, TickAnswer::Interrupted(interrupted)) => {
            if interrupted {
                at.to(TickPhase::Over(TickEnd::Idle))
            } else {
                at.to(TickPhase::AskEmitter)
            }
        },
        (TickPhase::AskEmitter, TickAnswer::Emitter(present)) => {
            if present && !at.announced {
                Ticking { announced: true, phase: TickPhase::Announcing, ..at }
            } else {
                at.to(TickPhase::Assessing)
            }
        },
        (TickPhase::Announcing, TickAnswer::Done) => at.to(TickPhase::Assessing),
        (TickPhase::Assessing, TickAnswer::Failed) => at.to(TickPhase::Over(TickEnd::Raised)),
        (TickPhase::Assessing, TickAnswer::Exhausted(exhausted)) => {
            if exhausted {
                at.to(TickPhase::WindingDown)
            } else {
                at.look(0)
            }
        },
        (TickPhase::WindingDown, TickAnswer::Done) => Ticking {
            budget_announced: true,
            phase: TickPhase::Over(TickEnd::WoundDown),
            ..at
        },
        (TickPhase::AskGuard, TickAnswer::Guarded(guarded)) => {
            if guarded {
                at.to(TickPhase::Polling)
            } else {
                at.look(at.host + 1)
            }
        },
        (TickPhase::Polling, TickAnswer::Failed) => at.to(TickPhase::Over(TickEnd::Raised)),
        (TickPhase::Polling, TickAnswer::Healthy) => at.look(at.host + 1),
        (TickPhase::Polling, TickAnswer::Gone(fill)) => {
            let replacing: Replacing = Replacing::begin(fill, at.budget_announced);
            at.to(TickPhase::Replacing(replacing))
        },
        (TickPhase::Replacing(replacing), TickAnswer::Replace(a)) => at.after_replacing(
            replace(replacing, a),
        ),
        _ => at,
    }
}

/// Every state a heartbeat reaches is well formed, and its latches only ever
/// close.
pub proof fn a_heartbeat_stays_well_formed(at: Ticking, answers: Seq<TickAnswer>)
    requires
        at.wf(),
    ensures
        at.after(answers).wf(),
        at.after(answers).hosts == at.hosts,
        at.announced ==> at.after(answers).announced,
        at.budget_announced ==> at.after(answers).budget_announced,
    decreases answers.len(),
{
    if answers.len() > 0 {
        a_heartbeat_stays_well_formed(at, answers.drop_last());
    }
}

/// Once a wind-down is requested the marketplace is off limits: a heartbeat that
/// finds the interrupt set does nothing at all.
pub proof fn a_wind_down_heartbeat_does_nothing(
    hosts: usize,
    announced: bool,
    budget_announced: bool,
    answers: Seq<TickAnswer>,
)
    ensures
        Ticking::starting(hosts, announced, budget_announced).next(
            TickAnswer::Interrupted(true),
        ).after(answers).act() == TickAction::Finish(TickEnd::Idle),
    decreases answers.len(),
{
    if answers.len() > 0 {
        a_wind_down_heartbeat_does_nothing(hosts, announced, budget_announced, answers.drop_last());
    }
}

/// The machines are announced once: not before the emitter has arrived, and not
/// again by any heartbeat after it.
pub proof fn the_composition_is_announced_once(
    hosts: usize,
    announced: bool,
    budget_announced: bool,
    answers: Seq<TickAnswer>,
)
    ensures
        ({
            let now = Ticking::starting(hosts, announced, budget_announced).after(answers);
            &&& now.act() == TickAction::Announce ==> !announced && now.announced
                && answers.contains(TickAnswer::Emitter(true))
            &&& now.announced && !announced ==> answers.contains(TickAnswer::Emitter(true))
            &&& announced ==> now.announced
        }),
    decreases answers.len(),
{
    if answers.len() > 0 {
        let rest = answers.drop_last();
        the_composition_is_announced_once(hosts, announced, budget_announced, rest);
        assert(answers[answers.len() - 1] == answers.last());
        assert forall|a: TickAnswer| rest.contains(a) implies answers.contains(a) by {
            let k = choose|k: int| 0 <= k < rest.len() && rest[k] == a;
            assert(answers[k] == a);
        }
    }
}

/// What a heartbeat said of the machines the search started with: their
/// `composition`, each time it was asked for and done.
pub open spec fn announced_by(at: Ticking, answers: Seq<TickAnswer>, composition: Seq<Event>) -> Seq<
    Event,
>
    decreases answers.len(),
{
    if answers.len() == 0 {
        Seq::empty()
    } else {
        let rest = answers.drop_last();
        let said = announced_by(at, rest, composition);
        if at.after(rest).act() == TickAction::Announce && answers.last() == TickAnswer::Done {
            said + composition
        } else {
            said
        }
    }
}

/// Whether a heartbeat was told that the emitter is there, where it asked.
pub open spec fn met_the_emitter(at: Ticking, answers: Seq<TickAnswer>) -> bool
    decreases answers.len(),
{
    answers.len() > 0 && (met_the_emitter(at, answers.drop_last()) || (at.after(
        answers.drop_last(),
    ).act() == TickAction::AskEmitter && answers.last() == TickAnswer::Emitter(true)))
}

/// What the heartbeats of one supervisor left and said: whether the machines
/// were announced, whether an exhaustion was, and the announcements. Each
/// heartbeat reads the latches that the one before it left.
pub open spec fn heartbeats(
    hosts: usize,
    beats: Seq<Seq<TickAnswer>>,
    composition: Seq<Event>,
) -> (bool, bool, Seq<Event>)
    decreases beats.len(),
{
    if beats.len() == 0 {
        (false, false, Seq::empty())
    } else {
        let (announced, budget_announced, said) = heartbeats(hosts, beats.drop_last(), composition);
        let at = Ticking::starting(hosts, announced, budget_announced);
        let now = at.after(beats.last());
        (now.announced, now.budget_announced, said + announced_by(at, beats.last(), composition))
    }
}

/// Whether every heartbeat ran to its end.
pub open spec fn all_over(hosts: usize, beats: Seq<Seq<TickAnswer>>, composition: Seq<Event>) -> bool
    decreases beats.len(),
{
    beats.len() == 0 || {
        let (announced, budget_announced, _) = heartbeats(hosts, beats.drop_last(), composition);
        &&& all_over(hosts, beats.drop_last(), composition)
        &&& Ticking::starting(hosts, announced, budget_announced).after(beats.last()).phase is Over
    }
}

/// What a step of a heartbeat does to the announcement: the emitter, once it is
/// there, is met once and is then announced to, and nothing else moves it.
proof fn lemma_step_announces(before: Ticking, answer: TickAnswer)
    ensures
        ({
            let now = before.next(answer);
            let met = before.phase is AskEmitter && answer == TickAnswer::Emitter(true);
            &&& now.announced == (before.announced || met)
            &&& now.phase is Announcing <==> (met && !before.announced) || (
            before.phase is Announcing && answer != TickAnswer::Done)
            &&& now.phase is ReadInterrupt ==> before.phase is ReadInterrupt
            &&& now.phase is AskEmitter ==> before.phase is ReadInterrupt
                || before.phase is AskEmitter
            &&& met ==> !(now.phase is AskEmitter)
        }),
{
}

/// Whether a heartbeat has not come past the question for the emitter.
spec fn is_early(phase: TickPhase) -> bool {
    phase is ReadInterrupt || phase is AskEmitter
}

proof fn lemma_one_heartbeat_announces(
    at: Ticking,
    answers: Seq<TickAnswer>,
    composition: Seq<Event>,
)
    requires
        at.phase is ReadInterrupt,
    ensures
        ({
            let now = at.after(answers);
            let met = met_the_emitter(at, answers);
            &&& now.announced == (at.announced || met)
            &&& met ==> !is_early(now.phase)
            &&& now.phase is Announcing ==> met && !at.announced
            &&& announced_by(at, answers, composition) == if met && !at.announced && !(
            now.phase is Announcing) {
                composition
            } else {
                Seq::empty()
            }
        }),
    decreases answers.len(),
{
    if answers.len() == 0 {
        assert(at.after(answers) == at);
        assert(!met_the_emitter(at, answers));
    } else {
        let rest = answers.drop_last();
        lemma_one_heartbeat_announces(at, rest, composition);
        let before = at.after(rest);
        lemma_step_announces(before, answers.last());
        assert(at.after(answers) == before.next(answers.last()));
        assert(before.act() == TickAction::Announce <==> before.phase is Announcing);
        assert(before.act() == TickAction::AskEmitter <==> before.phase is AskEmitter);
        assert(Seq::<Event>::empty() + composition =~= composition);
    }
}

/// However many heartbeats there are, and whenever the emitter arrives: those
/// before it arrived say nothing and use nothing up, the first that finds it
/// announces every machine that is held, once and in order, and those after it
/// say nothing.
pub proof fn the_composition_is_said_once(
    hosts: usize,
    beats: Seq<Seq<TickAnswer>>,
    groups: Seq<Vec<Held>>,
    events: Seq<Event>,
)
    requires
        announces(events, held_of(groups)),
        all_over(hosts, beats, events),
    ensures
        ({
            let (announced, _, said) = heartbeats(hosts, beats, events);
            &&& announced ==> announces(said, held_of(groups))
            &&& !announced ==> said == Seq::<Event>::empty()
            &&& announced <==> exists|k: int|
                0 <= k < beats.len() && first_to_meet_the_emitter(hosts, beats, k, events)
        }),
    decreases beats.len(),
{
    if beats.len() > 0 {
        let fewer = beats.drop_last();
        let last = beats.len() - 1;
        the_composition_is_said_once(hosts, fewer, groups, events);
        let (announced, budget_announced, said) = heartbeats(hosts, fewer, events);
        lemma_one_heartbeat_announces(
            Ticking::starting(hosts, announced, budget_announced),
            beats.last(),
            events,
        );
        assert(said + Seq::<Event>::empty() =~= said);
        assert(Seq::<Event>::empty() + events =~= events);
        assert(beats.take(last) =~= fewer);
        assert(beats[last] == beats.last());
        assert forall|k: int| 0 <= k < fewer.len() implies first_to_meet_the_emitter(
            hosts,
            beats,
            k,
            events,
        ) == first_to_meet_the_emitter(hosts, fewer, k, events) by {
            assert(beats.take(k) =~= fewer.take(k));
            assert(beats[k] == fewer[k]);
        }
        if announced {
            let k = choose|k: int|
                0 <= k < fewer.len() && first_to_meet_the_emitter(hosts, fewer, k, events);
            assert(first_to_meet_the_emitter(hosts, beats, k, events));
        } else if heartbeats(hosts, beats, events).0 {
            assert(first_to_meet_the_emitter(hosts, beats, last, events));
        } else {
            assert forall|k: int| 0 <= k < beats.len() implies !first_to_meet_the_emitter(
                hosts,
                beats,
                k,
                events,
            ) by {
                if k < last {
                    assert(!first_to_meet_the_emitter(hosts, fewer, k, events));
                }
            }
        }
    }
}

/// Whether heartbeat `k` met the emitter, and the machines were not announced
/// before it.
pub open spec fn first_to_meet_the_emitter(
    hosts: usize,
    beats: Seq<Seq<TickAnswer>>,
    k: int,
    composition: Seq<Event>,
) -> bool {
    let (announced, budget_announced, _) = heartbeats(hosts, beats.take(k), composition);
    !announced && met_the_emitter(Ticking::starting(hosts, announced, budget_announced), beats[k])
}

/// The budget is the search's and is assessed before any machine is polled: no
/// machine is looked at before the assessment answered that it is within its
/// ceiling.
pub proof fn no_machine_is_polled_over_budget(
    hosts: usize,
    announced: bool,
    budget_announced: bool,
    answers: Seq<TickAnswer>,
)
    ensures
        ({
            let now = Ticking::starting(hosts, announced, budget_announced).after(answers);
            (now.phase is AskGuard || now.phase is Polling || now.phase is Replacing || now.phase
                == TickPhase::Over(TickEnd::Ticked)) ==> answers.contains(
                TickAnswer::Exhausted(false),
            )
        }),
    decreases answers.len(),
{
    if answers.len() > 0 {
        let rest = answers.drop_last();
        no_machine_is_polled_over_budget(hosts, announced, budget_announced, rest);
        assert(answers[answers.len() - 1] == answers.last());
        assert forall|a: TickAnswer| rest.contains(a) implies answers.contains(a) by {
            let k = choose|k: int| 0 <= k < rest.len() && rest[k] == a;
            assert(answers[k] == a);
        }
    }
}

impl Routine for Ticking {
    type Action = TickAction;

    type Answer = TickAnswer;

    open spec fn calls_for(self) -> TickAction {
        self.act()
    }

    open spec fn reached(self, answers: Seq<TickAnswer>) -> Ticking {
        self.after(answers)
    }

    open spec fn can_answer(action: TickAction, answer: TickAnswer) -> bool {
        match action {
            TickAction::ReadInterrupt => answer is Interrupted,
            TickAction::AskEmitter => answer is Emitter,
            TickAction::Announce => answer is Done,
            TickAction::Assess => answer is Exhausted || answer is Failed,
            TickAction::WindDown { .. } => answer is Done,
            TickAction::AskGuard(_) => answer is Guarded,
            TickAction::Poll(_) => answer is Healthy || answer is Gone || answer is Failed,
            TickAction::Replace(_, of) => answer matches TickAnswer::Replace(a)
                && Replacing::can_answer(of, a),
            TickAction::Finish(_) => false,
        }
    }
}

/// Whether the machine at place `i` was looked at: it was asked whether it holds
/// a guard; one that does was polled; and one that was found gone was replaced,
/// or its transport retired.
pub open spec fn was_looked_at(start: Ticking, answers: Seq<TickAnswer>, i: usize) -> bool {
    let polled = crate::routine::answer_to(start, answers, TickAction::Poll(i));
    let done = TickAnswer::Replace(ReplaceAnswer::Done);
    match crate::routine::answer_to(start, answers, TickAction::AskGuard(i)) {
        Some(TickAnswer::Guarded(guarded)) => guarded ==> polled == Some(TickAnswer::Healthy) || (
        polled matches Some(TickAnswer::Gone(_)) && (crate::routine::did(
            start,
            answers,
            TickAction::Replace(i, ReplaceAction::KeepGuard),
            done,
        ) || crate::routine::did(
            start,
            answers,
            TickAction::Replace(i, ReplaceAction::Retire { fatal: true }),
            done,
        ) || crate::routine::did(
            start,
            answers,
            TickAction::Replace(i, ReplaceAction::Retire { fatal: false }),
            done,
        ))),
        _ => false,
    }
}

/// A heartbeat that ends with everything looked at has looked at every machine:
/// each was asked whether it holds a guard, each that does was polled, and each
/// that was gone was replaced or retired; and before that no wind-down was
/// requested and the budget was within its ceiling.
pub proof fn a_heartbeat_looks_at_every_machine(
    hosts: usize,
    announced: bool,
    budget_announced: bool,
    answers: Seq<TickAnswer>,
)
    ensures
        ({
            let start = Ticking::starting(hosts, announced, budget_announced);
            start.after(answers).act() == TickAction::Finish(TickEnd::Ticked) ==> {
                &&& forall|i: usize| i < hosts ==> #[trigger] was_looked_at(start, answers, i)
                &&& crate::routine::did(
                    start,
                    answers,
                    TickAction::ReadInterrupt,
                    TickAnswer::Interrupted(false),
                )
                &&& crate::routine::did(
                    start,
                    answers,
                    TickAction::Assess,
                    TickAnswer::Exhausted(false),
                )
            }
        }),
{
    lemma_looked_so_far(Ticking::starting(hosts, announced, budget_announced), answers);
}

proof fn lemma_looked_so_far(start: Ticking, answers: Seq<TickAnswer>)
    requires
        start.wf(),
        start.phase is ReadInterrupt,
        start.host == 0,
    ensures
        ({
            let now = start.after(answers);
            let ticked = now.phase == TickPhase::Over(TickEnd::Ticked);
            let looking = now.phase is AskGuard || now.phase is Polling || now.phase is Replacing
                || ticked;
            &&& now.wf()
            &&& now.hosts == start.hosts
            &&& looking ==> {
                &&& forall|i: usize| i < now.host ==> #[trigger] was_looked_at(start, answers, i)
                &&& crate::routine::did(
                    start,
                    answers,
                    TickAction::ReadInterrupt,
                    TickAnswer::Interrupted(false),
                )
                &&& crate::routine::did(
                    start,
                    answers,
                    TickAction::Assess,
                    TickAnswer::Exhausted(false),
                )
            }
            &&& now.phase is AskEmitter || now.phase is Announcing || now.phase is Assessing
                ==> crate::routine::did(
                start,
                answers,
                TickAction::ReadInterrupt,
                TickAnswer::Interrupted(false),
            )
            &&& now.phase is Polling || now.phase is Replacing ==> crate::routine::answer_to(
                start,
                answers,
                TickAction::AskGuard(now.host),
            ) == Some(TickAnswer::Guarded(true))
            &&& now.phase is Replacing ==> (crate::routine::answer_to(
                start,
                answers,
                TickAction::Poll(now.host),
            ) matches Some(TickAnswer::Gone(_)))
        }),
    decreases answers.len(),
{
    if answers.len() > 0 {
        let rest = answers.drop_last();
        let was = start.after(rest);
        let now = start.after(answers);
        lemma_looked_so_far(start, rest);
        a_heartbeat_stays_well_formed(start, answers);
        assert forall|i: usize|
            i < now.host && (now.phase is AskGuard || now.phase is Polling || now.phase is Replacing
                || now.phase == TickPhase::Over(TickEnd::Ticked)) implies #[trigger] was_looked_at(
            start,
            answers,
            i,
        ) by {
            if i < was.host && (was.phase is AskGuard || was.phase is Polling
                || was.phase is Replacing || was.phase == TickPhase::Over(TickEnd::Ticked)) {
                assert(was_looked_at(start, rest, i));
            } else {
                assert(was.act() == TickAction::AskGuard(i) || was.act() == TickAction::Poll(i) || (
                was.act() matches TickAction::Replace(k, _) && k == i));
            }
        }
    }
}

/// The replacement a heartbeat last came to, where it is: begun over the machine
/// it found gone, by the fill of its group, and under what was announced of the
/// budget until then.
pub open spec fn replacement_of(start: Ticking, answers: Seq<TickAnswer>) -> Option<Replacing>
    decreases answers.len(),
{
    if answers.len() == 0 {
        None
    } else {
        let rest = answers.drop_last();
        match (start.after(rest).act(), answers.last(), replacement_of(start, rest)) {
            (TickAction::Poll(_), TickAnswer::Gone(fill), _) => Some(
                Replacing::starting(fill, start.budget_announced || wound_down_by(start, rest)),
            ),
            (TickAction::Replace(_, _), TickAnswer::Replace(a), Some(replacing)) => Some(
                replacing.next(a),
            ),
            (_, _, replacing) => replacing,
        }
    }
}

/// What a heartbeat does, from what it did last. A wind-down that was requested
/// is left alone; the machines are announced once there is somewhere to; the
/// budget is assessed before any machine; then one machine after another is
/// asked, polled, and replaced, each until it is done with.
pub proof fn what_a_heartbeat_does_next(
    hosts: usize,
    announced: bool,
    budget_announced: bool,
    answers: Seq<TickAnswer>,
)
    ensures
        ({
            let start = Ticking::starting(hosts, announced, budget_announced);
            let act = start.after(answers).act();
            match crate::routine::last_done(start, answers) {
                None => act == TickAction::ReadInterrupt,
                Some((_, TickAnswer::Interrupted(interrupted))) => act == if interrupted {
                    TickAction::Finish(TickEnd::Idle)
                } else {
                    TickAction::AskEmitter
                },
                Some((_, TickAnswer::Emitter(present))) => act == if present && !announced {
                    TickAction::Announce
                } else {
                    TickAction::Assess
                },
                Some((TickAction::Announce, _)) => act == TickAction::Assess,
                Some((_, TickAnswer::Failed)) => act == TickAction::Finish(TickEnd::Raised),
                Some((_, TickAnswer::Exhausted(exhausted))) => act == if exhausted {
                    TickAction::WindDown { announce: !budget_announced }
                } else if hosts > 0 {
                    TickAction::AskGuard(0)
                } else {
                    TickAction::Finish(TickEnd::Ticked)
                },
                Some((TickAction::WindDown { .. }, _)) => act == TickAction::Finish(
                    TickEnd::WoundDown,
                ),
                Some((TickAction::AskGuard(i), TickAnswer::Guarded(guarded))) => act == if guarded {
                    TickAction::Poll(i)
                } else if i + 1 < hosts {
                    TickAction::AskGuard((i + 1) as usize)
                } else {
                    TickAction::Finish(TickEnd::Ticked)
                },
                Some((TickAction::Poll(i), TickAnswer::Healthy)) => act == if i + 1 < hosts {
                    TickAction::AskGuard((i + 1) as usize)
                } else {
                    TickAction::Finish(TickEnd::Ticked)
                },
                Some((TickAction::Poll(i), TickAnswer::Gone(_))) => act == TickAction::Replace(
                    i,
                    ReplaceAction::MarkReplacing,
                ),
                Some((TickAction::Replace(_, _), _)) => true,
                Some(_) => false,
            }
        }),
    decreases answers.len(),
{
    if answers.len() > 0 {
        let start = Ticking::starting(hosts, announced, budget_announced);
        let rest = answers.drop_last();
        let was = start.after(rest);
        lemma_ticked_so_far(start, rest);
        if Ticking::can_answer(was.act(), answers.last()) {
            assert(crate::routine::last_done(start, answers) == Some((was.act(), answers.last())));
        } else {
            what_a_heartbeat_does_next(hosts, announced, budget_announced, rest);
            a_heartbeat_takes_only_answers_to_its_action(was, answers.last());
        }
    }
}

/// How a heartbeat replaces a machine: by what the replacement was told, which
/// was begun over the fill of the machine's group; and once it is over, the
/// machine after it is looked at, unless the replacement failed.
#[verifier::rlimit(30)]
pub proof fn how_a_heartbeat_replaces_a_machine(
    hosts: usize,
    announced: bool,
    budget_announced: bool,
    answers: Seq<TickAnswer>,
)
    ensures
        ({
            let start = Ticking::starting(hosts, announced, budget_announced);
            let act = start.after(answers).act();
            match crate::routine::last_done(start, answers) {
                Some((TickAction::Replace(i, _), _)) => {
                    &&& replacement_of(start, answers) matches Some(replacing)
                    &&& act == match replacing.act() {
                        ReplaceAction::Finish(ReplaceEnd::Raised) => TickAction::Finish(
                            TickEnd::Raised,
                        ),
                        ReplaceAction::Finish(_) => if i + 1 < hosts {
                            TickAction::AskGuard((i + 1) as usize)
                        } else {
                            TickAction::Finish(TickEnd::Ticked)
                        },
                        of => TickAction::Replace(i, of),
                    }
                },
                _ => true,
            }
        }),
    decreases answers.len(),
{
    if answers.len() > 0 {
        let start = Ticking::starting(hosts, announced, budget_announced);
        let rest = answers.drop_last();
        let was = start.after(rest);
        lemma_ticked_so_far(start, rest);
        if Ticking::can_answer(was.act(), answers.last()) {
            assert(crate::routine::last_done(start, answers) == Some((was.act(), answers.last())));
            if let TickPhase::Replacing(replacing) = was.phase {
                if let TickAnswer::Replace(a) = answers.last() {
                    assert(replacement_of(start, answers) == Some(replacing.next(a)));
                    assert(start.after(answers) == was.replaced(replacing.next(a)));
                }
            }
        } else {
            how_a_heartbeat_replaces_a_machine(hosts, announced, budget_announced, rest);
            a_heartbeat_takes_only_answers_to_its_action(was, answers.last());
        }
    }
}

/// An answer to something else than what a heartbeat calls for leaves it as it
/// is, and the replacement in progress with it.
pub proof fn a_heartbeat_takes_only_answers_to_its_action(at: Ticking, answer: TickAnswer)
    requires
        at.wf(),
        !Ticking::can_answer(at.act(), answer),
    ensures
        at.next(answer) == at,
        at.phase matches TickPhase::Replacing(replacing) ==> (answer matches TickAnswer::Replace(a)
            ==> replacing.next(a) == replacing),
{
}

proof fn lemma_ticked_so_far(start: Ticking, answers: Seq<TickAnswer>)
    requires
        start.wf(),
        start.phase is ReadInterrupt,
    ensures
        ({
            let now = start.after(answers);
            &&& now.wf()
            &&& now.hosts == start.hosts
            &&& now.phase is ReadInterrupt || now.phase is AskEmitter ==> now.announced
                == start.announced
            &&& now.phase is ReadInterrupt || now.phase is AskEmitter || now.phase is Announcing
                || now.phase is Assessing || now.phase is WindingDown ==> now.budget_announced
                == start.budget_announced && !wound_down_by(start, answers)
            &&& now.budget_announced == (start.budget_announced || wound_down_by(start, answers))
            &&& now.phase matches TickPhase::Replacing(replacing) ==> replacement_of(start, answers)
                == Some(replacing)
        }),
    decreases answers.len(),
{
    if answers.len() > 0 {
        lemma_ticked_so_far(start, answers.drop_last());
        a_heartbeat_stays_well_formed(start, answers);
    }
}

/// Whether a step of a heartbeat winds the search down: the heartbeat itself, or
/// the replacement in progress, did so.
pub open spec fn winds_down(at: Ticking, answer: TickAnswer) -> bool {
    ||| at.act() is WindDown && answer == TickAnswer::Done
    ||| at.act() matches TickAction::Replace(_, action) && action is WindDown && answer
        == TickAnswer::Replace(ReplaceAnswer::Done)
}

/// Whether a step of a heartbeat announces an exhaustion.
pub open spec fn announces_exhaustion(at: Ticking, answer: TickAnswer) -> bool {
    ||| at.act() == (TickAction::WindDown { announce: true }) && answer == TickAnswer::Done
    ||| at.act() matches TickAction::Replace(_, action) && action == (ReplaceAction::WindDown {
        announce: true,
    }) && answer == TickAnswer::Replace(ReplaceAnswer::Done)
}

/// How many exhaustions a heartbeat announced.
pub open spec fn exhaustions_by(at: Ticking, answers: Seq<TickAnswer>) -> nat
    decreases answers.len(),
{
    if answers.len() == 0 {
        0
    } else {
        let rest = answers.drop_last();
        exhaustions_by(at, rest) + if announces_exhaustion(at.after(rest), answers.last()) {
            1nat
        } else {
            0nat
        }
    }
}

/// Whether a heartbeat wound the search down.
pub open spec fn wound_down_by(at: Ticking, answers: Seq<TickAnswer>) -> bool
    decreases answers.len(),
{
    answers.len() > 0 && (wound_down_by(at, answers.drop_last()) || winds_down(
        at.after(answers.drop_last()),
        answers.last(),
    ))
}

/// How many exhaustions the heartbeats of one supervisor announced.
pub open spec fn exhaustions_in(
    hosts: usize,
    beats: Seq<Seq<TickAnswer>>,
    composition: Seq<Event>,
) -> nat
    decreases beats.len(),
{
    if beats.len() == 0 {
        0
    } else {
        let rest = beats.drop_last();
        let (announced, budget_announced, _) = heartbeats(hosts, rest, composition);
        exhaustions_in(hosts, rest, composition) + exhaustions_by(
            Ticking::starting(hosts, announced, budget_announced),
            beats.last(),
        )
    }
}

/// Whether heartbeat `k` wound the search down.
pub open spec fn winds_down_at(
    hosts: usize,
    beats: Seq<Seq<TickAnswer>>,
    k: int,
    composition: Seq<Event>,
) -> bool {
    let (announced, budget_announced, _) = heartbeats(hosts, beats.take(k), composition);
    wound_down_by(Ticking::starting(hosts, announced, budget_announced), beats[k])
}

/// Winding down closes the latch that every later wind-down reads, and announces
/// the exhaustion where it was open.
proof fn lemma_step_exhausts(at: Ticking, answer: TickAnswer)
    requires
        at.wf(),
    ensures
        at.next(answer).budget_announced == (at.budget_announced || winds_down(at, answer)),
        announces_exhaustion(at, answer) == (winds_down(at, answer) && !at.budget_announced),
{
}

proof fn lemma_one_heartbeat_exhausts(at: Ticking, answers: Seq<TickAnswer>)
    requires
        at.wf(),
    ensures
        at.after(answers).budget_announced == (at.budget_announced || wound_down_by(at, answers)),
        exhaustions_by(at, answers) == if !at.budget_announced && wound_down_by(at, answers) {
            1nat
        } else {
            0nat
        },
    decreases answers.len(),
{
    if answers.len() > 0 {
        let rest = answers.drop_last();
        lemma_one_heartbeat_exhausts(at, rest);
        a_heartbeat_stays_well_formed(at, rest);
        lemma_step_exhausts(at.after(rest), answers.last());
    }
}

/// However many heartbeats there are, and however many of them and of their
/// replacements find the budget exhausted: it is announced once where any did,
/// and not at all where none did.
pub proof fn the_exhaustion_is_announced_once(
    hosts: usize,
    beats: Seq<Seq<TickAnswer>>,
    composition: Seq<Event>,
)
    ensures
        heartbeats(hosts, beats, composition).1 <==> exists|k: int|
            0 <= k < beats.len() && winds_down_at(hosts, beats, k, composition),
        exhaustions_in(hosts, beats, composition) == if heartbeats(hosts, beats, composition).1 {
            1nat
        } else {
            0nat
        },
    decreases beats.len(),
{
    if beats.len() > 0 {
        let rest = beats.drop_last();
        let last = beats.len() - 1;
        the_exhaustion_is_announced_once(hosts, rest, composition);
        let (announced, budget_announced, _) = heartbeats(hosts, rest, composition);
        lemma_one_heartbeat_exhausts(
            Ticking::starting(hosts, announced, budget_announced),
            beats.last(),
        );
        assert(beats.take(last) =~= rest);
        assert(beats[last] == beats.last());
        assert forall|k: int| 0 <= k < rest.len() implies winds_down_at(
            hosts,
            beats,
            k,
            composition,
        ) == winds_down_at(hosts, rest, k, composition) by {
            assert(beats.take(k) =~= rest.take(k));
            assert(beats[k] == rest[k]);
        }
        if budget_announced {
            let k = choose|k: int|
                0 <= k < rest.len() && winds_down_at(hosts, rest, k, composition);
            assert(winds_down_at(hosts, beats, k, composition));
        } else if heartbeats(hosts, beats, composition).1 {
            assert(winds_down_at(hosts, beats, last, composition));
        } else {
            assert forall|k: int| 0 <= k < beats.len() implies !winds_down_at(
                hosts,
                beats,
                k,
                composition,
            ) by {
                if k < last {
                    assert(!winds_down_at(hosts, rest, k, composition));
                }
            }
        }
    }
}

// ---- The exit -----------------------------------------------------------------------------------

/// What a supervisor that is over owes: its hold on the search's journal is
/// given up on every path, and the transports are retired as fatal where it did
/// not return of its own accord, so that no worker waits on it forever.
#[derive(Debug, Clone, Copy, PartialEq, Eq, Structural)]
pub struct ExitDuties {
    /// The emitter is cleared.
    pub clears_emitter: bool,
    /// The transports are retired as fatal.
    pub retires: bool,
}

/// The duties of a supervisor's exit; `armed` until it returns of its own
/// accord.
pub fn exit_duties(armed: bool) -> (duties: ExitDuties)
    ensures
        duties.clears_emitter,
        duties.retires == armed,
{
    ExitDuties { clears_emitter: true, retires: armed }
}

} // verus!
