//! Acquiring the machines a rented entry declares, and letting them go.
//!
//! A rental asks its control plane for a number of machines at once, probes
//! each for the devices its workers are placed on, and decides once, over every
//! member's answer: strict fill fails the search and tears down what came up,
//! best-effort searches on whatever did.
use vstd::prelude::*;
use vstd::string::*;

use crate::config::FillPolicy;
use crate::events::{Event, Level};
use crate::fault::Fault;
use crate::routine::Routine;
use crate::text::{cat, cat3, decimal, quote};

verus! {

// ---- One machine ----------------------------------------------------------------------

/// How many machines one member's acquisition may burn through before it gives
/// up. Each attempt is a paid rental torn down again.
pub const PROBE_ACQUIRE_ATTEMPTS: u32 = 4;

/// What a machine is held to have done.
#[derive(Debug, Clone, Copy, PartialEq, Eq, Structural)]
pub enum IncidentKind {
    /// It did not answer its probe.
    ProbeFailed,
    /// It could not install the program.
    InstallFailed,
    /// It vanished.
    Lost,
}

/// Where the acquisition of one machine is.
#[derive(Debug, Clone, Copy, PartialEq, Eq, Structural)]
pub enum AcquirePhase {
    /// A machine is rented.
    Renting,
    /// It is probed.
    Probing,
    /// The probe was refused, and the clock is held against the deadline.
    Timing,
    /// There is time left: did the operator let go?
    Interruptible,
    /// The wait goes on.
    Pausing,
    /// The program is put on the machine.
    Installing,
    /// The installed program is asked for the devices it can use.
    Enumerating,
    /// The machine cannot serve, which is recorded against it.
    Recording(IncidentKind),
    /// The machine serves: what its workers run there is decided.
    Spawning,
    /// It is over.
    Over(AcquireEnd),
}

/// How the acquisition of one machine ended.
#[derive(Debug, Clone, Copy, PartialEq, Eq, Structural)]
pub enum AcquireEnd {
    /// There is a machine.
    Acquired,
    /// The operator let go. Nothing is held against the machine.
    Interrupted,
    /// No machine of those tried could serve; why the last could not is the
    /// answer.
    Refused,
    /// An operation failed, and its failure is the answer.
    Raised,
}

/// What the acquisition of one machine does next.
#[derive(Debug, Clone, Copy, PartialEq, Eq, Structural)]
pub enum AcquireAction {
    /// Rent a machine that is not excluded, under a deadline of its own.
    Rent,
    /// Probe the machine.
    Probe,
    /// Read the clock.
    ReadClock,
    /// Read the interrupt.
    ReadInterrupt,
    /// Wait one poll interval.
    Sleep,
    /// Say that the program is being installed, and install it.
    Install,
    /// Ask the installed program for its devices.
    Enumerate,
    /// Record the incident against the machine, exclude it from the attempts
    /// that follow, and tear it down.
    Record(IncidentKind),
    /// Decide what the machine's workers run, and build their transport.
    Spawn,
    /// Nothing: it is over.
    Finish(AcquireEnd),
}

/// What came of an action of acquiring one machine.
#[derive(Debug, Clone, Copy, PartialEq, Eq, Structural)]
pub enum AcquireAnswer {
    Done,
    Failed,
    /// Whether the deadline has passed.
    Past(bool),
    /// Whether the operator let go.
    Interrupted(bool),
}

/// The acquisition of one machine. A machine that cannot serve costs a machine
/// and not the acquisition: another is tried, and the one that failed is not
/// rented again.
#[derive(Debug, Clone, Copy, PartialEq, Eq, Structural)]
pub struct Acquiring {
    /// A program is delivered to the machine before it serves.
    pub delivered: bool,
    /// How many machines were tried and could not serve.
    pub burned: u32,
    /// Where the acquisition is.
    pub phase: AcquirePhase,
}

impl Acquiring {
    /// An acquisition before anything was done.
    pub open spec fn starting(delivered: bool) -> Acquiring {
        Acquiring { delivered, burned: 0, phase: AcquirePhase::Renting }
    }

    /// This acquisition in another phase.
    pub open spec fn at(self, phase: AcquirePhase) -> Acquiring {
        Acquiring { phase, ..self }
    }

    /// The bound on the machines that are tried.
    pub open spec fn wf(self) -> bool {
        &&& self.burned <= PROBE_ACQUIRE_ATTEMPTS
        &&& self.burned == PROBE_ACQUIRE_ATTEMPTS ==> self.phase == AcquirePhase::Over(
            AcquireEnd::Refused,
        )
        &&& (self.phase == AcquirePhase::Installing || self.phase == AcquirePhase::Enumerating)
            ==> self.delivered
    }

    /// The action a phase calls for.
    pub open spec fn act(self) -> AcquireAction {
        match self.phase {
            AcquirePhase::Renting => AcquireAction::Rent,
            AcquirePhase::Probing => AcquireAction::Probe,
            AcquirePhase::Timing => AcquireAction::ReadClock,
            AcquirePhase::Interruptible => AcquireAction::ReadInterrupt,
            AcquirePhase::Pausing => AcquireAction::Sleep,
            AcquirePhase::Installing => AcquireAction::Install,
            AcquirePhase::Enumerating => AcquireAction::Enumerate,
            AcquirePhase::Recording(kind) => AcquireAction::Record(kind),
            AcquirePhase::Spawning => AcquireAction::Spawn,
            AcquirePhase::Over(end) => AcquireAction::Finish(end),
        }
    }

    /// Where an answer takes the acquisition.
    pub open spec fn next(self, answer: AcquireAnswer) -> Acquiring {
        match (self.phase, answer) {
            (AcquirePhase::Renting, AcquireAnswer::Done) => self.at(AcquirePhase::Probing),
            (AcquirePhase::Renting, AcquireAnswer::Failed) => self.at(
                AcquirePhase::Over(AcquireEnd::Raised),
            ),
            (AcquirePhase::Probing, AcquireAnswer::Done) => if self.delivered {
                self.at(AcquirePhase::Installing)
            } else {
                self.at(AcquirePhase::Spawning)
            },
            (AcquirePhase::Probing, AcquireAnswer::Failed) => self.at(AcquirePhase::Timing),
            (AcquirePhase::Timing, AcquireAnswer::Past(past)) => if past {
                self.at(AcquirePhase::Recording(IncidentKind::ProbeFailed))
            } else {
                self.at(AcquirePhase::Interruptible)
            },
            (AcquirePhase::Interruptible, AcquireAnswer::Interrupted(interrupted)) => {
                if interrupted {
                    self.at(AcquirePhase::Over(AcquireEnd::Interrupted))
                } else {
                    self.at(AcquirePhase::Pausing)
                }
            },
            (AcquirePhase::Pausing, AcquireAnswer::Done) => self.at(AcquirePhase::Probing),
            (AcquirePhase::Installing, AcquireAnswer::Done) => self.at(AcquirePhase::Enumerating),
            (AcquirePhase::Installing, AcquireAnswer::Failed) => self.at(
                AcquirePhase::Recording(IncidentKind::InstallFailed),
            ),
            (AcquirePhase::Enumerating, AcquireAnswer::Done) => self.at(AcquirePhase::Spawning),
            (AcquirePhase::Enumerating, AcquireAnswer::Failed) => self.at(
                AcquirePhase::Recording(IncidentKind::ProbeFailed),
            ),
            (AcquirePhase::Recording(_), AcquireAnswer::Done) => if self.burned + 1
                < PROBE_ACQUIRE_ATTEMPTS {
                Acquiring {
                    burned: (self.burned + 1) as u32,
                    phase: AcquirePhase::Renting,
                    ..self
                }
            } else {
                Acquiring {
                    burned: PROBE_ACQUIRE_ATTEMPTS,
                    phase: AcquirePhase::Over(AcquireEnd::Refused),
                    ..self
                }
            },
            (AcquirePhase::Recording(_), AcquireAnswer::Failed) => self.at(
                AcquirePhase::Over(AcquireEnd::Raised),
            ),
            (AcquirePhase::Spawning, AcquireAnswer::Done) => self.at(
                AcquirePhase::Over(AcquireEnd::Acquired),
            ),
            (AcquirePhase::Spawning, AcquireAnswer::Failed) => self.at(
                AcquirePhase::Over(AcquireEnd::Raised),
            ),
            _ => self,
        }
    }

    /// Begins the acquisition of one machine.
    pub fn begin(delivered: bool) -> (r: Acquiring)
        ensures
            r == Acquiring::starting(delivered),
            r.wf(),
    {
        Acquiring { delivered, burned: 0, phase: AcquirePhase::Renting }
    }

    /// What to do next.
    pub fn action(&self) -> (r: AcquireAction)
        ensures
            r == self.act(),
    {
        match self.phase {
            AcquirePhase::Renting => AcquireAction::Rent,
            AcquirePhase::Probing => AcquireAction::Probe,
            AcquirePhase::Timing => AcquireAction::ReadClock,
            AcquirePhase::Interruptible => AcquireAction::ReadInterrupt,
            AcquirePhase::Pausing => AcquireAction::Sleep,
            AcquirePhase::Installing => AcquireAction::Install,
            AcquirePhase::Enumerating => AcquireAction::Enumerate,
            AcquirePhase::Recording(kind) => AcquireAction::Record(kind),
            AcquirePhase::Spawning => AcquireAction::Spawn,
            AcquirePhase::Over(end) => AcquireAction::Finish(end),
        }
    }

    fn to(self, phase: AcquirePhase) -> (r: Acquiring)
        ensures
            r == self.at(phase),
    {
        Acquiring { phase, ..self }
    }

    /// The acquisition after the answers, one after another.
    pub open spec fn after(self, answers: Seq<AcquireAnswer>) -> Acquiring
        decreases answers.len(),
    {
        if answers.len() == 0 {
            self
        } else {
            self.after(answers.drop_last()).next(answers.last())
        }
    }
}

/// One step of acquiring one machine: where the answer to its action takes it.
pub fn acquire_one(at: Acquiring, answer: AcquireAnswer) -> (r: Acquiring)
    ensures
        r == at.next(answer),
{
    match (at.phase, answer) {
        (AcquirePhase::Renting, AcquireAnswer::Done) => at.to(AcquirePhase::Probing),
        (AcquirePhase::Renting, AcquireAnswer::Failed) => at.to(
            AcquirePhase::Over(AcquireEnd::Raised),
        ),
        (AcquirePhase::Probing, AcquireAnswer::Done) => {
            if at.delivered {
                at.to(AcquirePhase::Installing)
            } else {
                at.to(AcquirePhase::Spawning)
            }
        },
        (AcquirePhase::Probing, AcquireAnswer::Failed) => at.to(AcquirePhase::Timing),
        (AcquirePhase::Timing, AcquireAnswer::Past(past)) => {
            if past {
                at.to(AcquirePhase::Recording(IncidentKind::ProbeFailed))
            } else {
                at.to(AcquirePhase::Interruptible)
            }
        },
        (AcquirePhase::Interruptible, AcquireAnswer::Interrupted(interrupted)) => {
            if interrupted {
                at.to(AcquirePhase::Over(AcquireEnd::Interrupted))
            } else {
                at.to(AcquirePhase::Pausing)
            }
        },
        (AcquirePhase::Pausing, AcquireAnswer::Done) => at.to(AcquirePhase::Probing),
        (AcquirePhase::Installing, AcquireAnswer::Done) => at.to(AcquirePhase::Enumerating),
        (AcquirePhase::Installing, AcquireAnswer::Failed) => at.to(
            AcquirePhase::Recording(IncidentKind::InstallFailed),
        ),
        (AcquirePhase::Enumerating, AcquireAnswer::Done) => at.to(AcquirePhase::Spawning),
        (AcquirePhase::Enumerating, AcquireAnswer::Failed) => at.to(
            AcquirePhase::Recording(IncidentKind::ProbeFailed),
        ),
        (AcquirePhase::Recording(_), AcquireAnswer::Done) => {
            if at.burned < PROBE_ACQUIRE_ATTEMPTS - 1 {
                Acquiring { burned: at.burned + 1, phase: AcquirePhase::Renting, ..at }
            } else {
                Acquiring {
                    burned: PROBE_ACQUIRE_ATTEMPTS,
                    phase: AcquirePhase::Over(AcquireEnd::Refused),
                    ..at
                }
            }
        },
        (AcquirePhase::Recording(_), AcquireAnswer::Failed) => at.to(
            AcquirePhase::Over(AcquireEnd::Raised),
        ),
        (AcquirePhase::Spawning, AcquireAnswer::Done) => at.to(
            AcquirePhase::Over(AcquireEnd::Acquired),
        ),
        (AcquirePhase::Spawning, AcquireAnswer::Failed) => at.to(
            AcquirePhase::Over(AcquireEnd::Raised),
        ),
        _ => at,
    }
}

/// How many machines an acquisition has rented along the answers: the times a
/// rental was answered with a machine.
pub open spec fn rented_along(start: Acquiring, answers: Seq<AcquireAnswer>) -> nat
    decreases answers.len(),
{
    if answers.len() == 0 {
        0
    } else {
        let rest = answers.drop_last();
        rented_along(start, rest) + if start.after(rest).act() == AcquireAction::Rent
            && answers.last() == AcquireAnswer::Done {
            1nat
        } else {
            0nat
        }
    }
}

/// How many incidents an acquisition has recorded along the answers.
pub open spec fn recorded_along(start: Acquiring, answers: Seq<AcquireAnswer>) -> nat
    decreases answers.len(),
{
    if answers.len() == 0 {
        0
    } else {
        let rest = answers.drop_last();
        recorded_along(start, rest) + if start.after(rest).act() is Record && answers.last()
            == AcquireAnswer::Done {
            1nat
        } else {
            0nat
        }
    }
}

/// Every acquisition rents a bounded number of machines, and holds an incident
/// against each machine it moved on from and against no other: the one it ends
/// with, or is interrupted at, has none.
pub proof fn every_machine_moved_on_from_is_recorded(delivered: bool, answers: Seq<AcquireAnswer>)
    ensures
        ({
            let start = Acquiring::starting(delivered);
            let now = start.after(answers);
            let rented = rented_along(start, answers);
            let recorded = recorded_along(start, answers);
            &&& now.wf()
            &&& now.delivered == delivered
            &&& recorded == now.burned
            &&& rented <= PROBE_ACQUIRE_ATTEMPTS
            &&& now.phase == AcquirePhase::Renting || now.phase == AcquirePhase::Over(
                AcquireEnd::Refused,
            ) ==> rented == recorded
            &&& (now.phase == AcquirePhase::Over(AcquireEnd::Acquired) || now.phase
                == AcquirePhase::Over(AcquireEnd::Interrupted)) ==> rented == recorded + 1
            &&& now.phase == AcquirePhase::Over(AcquireEnd::Refused) ==> rented
                == PROBE_ACQUIRE_ATTEMPTS
            &&& !(now.phase is Over) && now.phase != AcquirePhase::Renting ==> rented == recorded
                + 1
            &&& now.phase == AcquirePhase::Over(AcquireEnd::Raised) ==> rented == recorded
                || rented == recorded + 1
        }),
    decreases answers.len(),
{
    if answers.len() > 0 {
        every_machine_moved_on_from_is_recorded(delivered, answers.drop_last());
    }
}

impl Routine for Acquiring {
    type Action = AcquireAction;

    type Answer = AcquireAnswer;

    open spec fn calls_for(self) -> AcquireAction {
        self.act()
    }

    open spec fn reached(self, answers: Seq<AcquireAnswer>) -> Acquiring {
        self.after(answers)
    }

    open spec fn can_answer(action: AcquireAction, answer: AcquireAnswer) -> bool {
        match action {
            AcquireAction::ReadClock => answer is Past,
            AcquireAction::ReadInterrupt => answer is Interrupted,
            AcquireAction::Sleep => answer is Done,
            AcquireAction::Finish(_) => false,
            _ => answer is Done || answer is Failed,
        }
    }
}

/// What the acquisition of a machine does, from what it did last. A machine
/// that does not answer is probed until its deadline, as long as the operator
/// does not let go; one that answers is given the program and asked for its
/// devices, where a program is delivered; one that fails any of these is
/// recorded for what it failed, and another is rented, up to four in all.
pub proof fn what_an_acquisition_does_next(delivered: bool, answers: Seq<AcquireAnswer>)
    ensures
        ({
            let start = Acquiring::starting(delivered);
            let act = start.after(answers).act();
            match crate::routine::last_done(start, answers) {
                None => act == AcquireAction::Rent,
                Some((AcquireAction::Rent, AcquireAnswer::Done)) => act == AcquireAction::Probe,
                Some((AcquireAction::Probe, AcquireAnswer::Done)) => act == if delivered {
                    AcquireAction::Install
                } else {
                    AcquireAction::Spawn
                },
                Some((AcquireAction::Probe, AcquireAnswer::Failed)) => act
                    == AcquireAction::ReadClock,
                Some((_, AcquireAnswer::Past(past))) => act == if past {
                    AcquireAction::Record(IncidentKind::ProbeFailed)
                } else {
                    AcquireAction::ReadInterrupt
                },
                Some((_, AcquireAnswer::Interrupted(interrupted))) => act == if interrupted {
                    AcquireAction::Finish(AcquireEnd::Interrupted)
                } else {
                    AcquireAction::Sleep
                },
                Some((AcquireAction::Sleep, _)) => act == AcquireAction::Probe,
                Some((AcquireAction::Install, AcquireAnswer::Done)) => act
                    == AcquireAction::Enumerate,
                Some((AcquireAction::Install, AcquireAnswer::Failed)) => act
                    == AcquireAction::Record(IncidentKind::InstallFailed),
                Some((AcquireAction::Enumerate, AcquireAnswer::Done)) => act
                    == AcquireAction::Spawn,
                Some((AcquireAction::Enumerate, AcquireAnswer::Failed)) => act
                    == AcquireAction::Record(IncidentKind::ProbeFailed),
                Some((AcquireAction::Record(_), AcquireAnswer::Done)) => act == if recorded_along(
                    start,
                    answers,
                ) < 4 {
                    AcquireAction::Rent
                } else {
                    AcquireAction::Finish(AcquireEnd::Refused)
                },
                Some((AcquireAction::Spawn, AcquireAnswer::Done)) => act == AcquireAction::Finish(
                    AcquireEnd::Acquired,
                ),
                Some((_, AcquireAnswer::Failed)) => act == AcquireAction::Finish(
                    AcquireEnd::Raised,
                ),
                Some(_) => false,
            }
        }),
    decreases answers.len(),
{
    every_machine_moved_on_from_is_recorded(delivered, answers);
    if answers.len() > 0 {
        what_an_acquisition_does_next(delivered, answers.drop_last());
        every_machine_moved_on_from_is_recorded(delivered, answers.drop_last());
    }
}

/// A machine serves only once it has proved itself: since the last machine was
/// rented it answered its probe, and, where a program is delivered, the program
/// was installed on it and then asked for its devices. Where none is delivered,
/// neither is ever called for.
pub proof fn a_machine_serves_once_it_has_proved_itself(
    delivered: bool,
    answers: Seq<AcquireAnswer>,
)
    ensures
        ({
            let start = Acquiring::starting(delivered);
            let now = start.after(answers);
            let rented = (AcquireAction::Rent, AcquireAnswer::Done);
            let probed = (AcquireAction::Probe, AcquireAnswer::Done);
            let installed = (AcquireAction::Install, AcquireAnswer::Done);
            let enumerated = (AcquireAction::Enumerate, AcquireAnswer::Done);
            &&& (now.act() == AcquireAction::Spawn || now.act() == AcquireAction::Finish(
                AcquireEnd::Acquired,
            )) ==> {
                &&& crate::routine::did(start, answers, rented.0, rented.1)
                &&& crate::routine::did_since(start, answers, rented, probed)
                &&& delivered ==> crate::routine::did_since(start, answers, rented, installed)
                    && crate::routine::did_since(start, answers, rented, enumerated)
            }
            &&& now.act() == AcquireAction::Enumerate ==> crate::routine::did_since(
                start,
                answers,
                rented,
                installed,
            )
            &&& now.act() == AcquireAction::Finish(AcquireEnd::Acquired)
                ==> crate::routine::did_since(
                start,
                answers,
                rented,
                (AcquireAction::Spawn, AcquireAnswer::Done),
            )
            &&& !delivered ==> now.act() != AcquireAction::Install && now.act()
                != AcquireAction::Enumerate
        }),
{
    lemma_proved_so_far(delivered, answers);
}

proof fn lemma_proved_so_far(delivered: bool, answers: Seq<AcquireAnswer>)
    ensures
        ({
            let start = Acquiring::starting(delivered);
            let now = start.after(answers);
            let rented = (AcquireAction::Rent, AcquireAnswer::Done);
            let probed = (AcquireAction::Probe, AcquireAnswer::Done);
            let installed = (AcquireAction::Install, AcquireAnswer::Done);
            let enumerated = (AcquireAction::Enumerate, AcquireAnswer::Done);
            let acquired = now.phase == AcquirePhase::Over(AcquireEnd::Acquired);
            &&& now.delivered == delivered
            &&& now.phase is Installing || now.phase is Enumerating ==> delivered
            &&& !(now.phase is Renting || now.phase is Over) || acquired ==> crate::routine::did(
                start,
                answers,
                rented.0,
                rented.1,
            )
            &&& now.phase is Installing || now.phase is Enumerating || now.phase is Spawning
                || acquired ==> crate::routine::did_since(start, answers, rented, probed)
            &&& now.phase is Enumerating || (delivered && (now.phase is Spawning || acquired))
                ==> crate::routine::did_since(start, answers, rented, installed)
            &&& delivered && (now.phase is Spawning || acquired) ==> crate::routine::did_since(
                start,
                answers,
                rented,
                enumerated,
            )
            &&& acquired ==> crate::routine::did_since(
                start,
                answers,
                rented,
                (AcquireAction::Spawn, AcquireAnswer::Done),
            )
        }),
    decreases answers.len(),
{
    if answers.len() > 0 {
        lemma_proved_so_far(delivered, answers.drop_last());
    }
}

/// A machine that refuses its probe is held to it only once its deadline has
/// passed; before that the operator is asked first.
pub proof fn a_refusal_counts_only_past_the_deadline(at: Acquiring, answer: AcquireAnswer)
    requires
        at.next(answer).phase == AcquirePhase::Recording(IncidentKind::ProbeFailed),
        !(at.phase is Recording),
    ensures
        (at.phase == AcquirePhase::Timing && answer == AcquireAnswer::Past(true)) || (at.phase
            == AcquirePhase::Enumerating && answer == AcquireAnswer::Failed),
{
}

/// Excludes a machine from the attempts that follow. A machine with no identity
/// cannot be excluded.
pub fn exclude(excluded: &mut Vec<String>, machine: &str)
    ensures
        crate::text::views(final(excluded)@) == (if machine@.len() == 0 {
            crate::text::views(old(excluded)@)
        } else {
            crate::text::views(old(excluded)@).push(machine@)
        }),
{
    if !machine.is_empty() {
        excluded.push(machine.to_owned());
    }
    proof {
        if machine@.len() != 0 {
            assert(crate::text::views(excluded@) =~= crate::text::views(old(excluded)@).push(
                machine@,
            ));
        }
    }
}

// ---- The whole rental ---------------------------------------------------------------------

/// What a rental acquires: how many machines, and what a shortfall does.
#[derive(Debug, Clone, PartialEq, Eq)]
pub struct Rental {
    /// The entry that declared it.
    pub name: String,
    /// How many machines.
    pub count: usize,
    /// What a shortfall does.
    pub fill: FillPolicy,
}

/// How a fleet member is named: the entry that declared it and its index.
pub open spec fn member_text(name: Seq<char>, index: nat) -> Seq<char> {
    name + "["@ + crate::text::decimal_text(index) + "]"@
}

/// How a fleet member is named.
pub fn member(name: &str, index: usize) -> (out: String)
    ensures
        out@ == member_text(name@, index as nat),
{
    let number: String = decimal(index as u64);
    let mut out: String = cat3(name, "[", number.as_str());
    out.append("]");
    out
}

/// The members of a rental, in order.
pub fn members(rental: &Rental) -> (out: Vec<String>)
    ensures
        out@.len() == rental.count,
        forall|i: int|
            0 <= i < out@.len() ==> (#[trigger] out@[i])@ == member_text(rental.name@, i as nat),
{
    let mut out: Vec<String> = Vec::new();
    let mut i: usize = 0;
    while i < rental.count
        invariant
            i <= rental.count,
            out@.len() == i,
            forall|k: int|
                0 <= k < i ==> (#[trigger] out@[k])@ == member_text(rental.name@, k as nat),
        decreases rental.count - i,
    {
        out.push(member(rental.name.as_str(), i));
        i = i + 1;
    }
    out
}

/// The machines that came up, in member order.
pub open spec fn hosts_of<H, E>(attempts: Seq<Result<H, E>>) -> Seq<H>
    decreases attempts.len(),
{
    if attempts.len() == 0 {
        Seq::empty()
    } else {
        let rest = hosts_of(attempts.drop_last());
        match attempts.last() {
            Ok(host) => rest.push(host),
            Err(_) => rest,
        }
    }
}

/// The members that fell short, in order, each with why.
pub open spec fn short_of<H, E>(attempts: Seq<Result<H, E>>) -> Seq<(usize, E)>
    decreases attempts.len(),
{
    if attempts.len() == 0 {
        Seq::empty()
    } else {
        let rest = short_of(attempts.drop_last());
        match attempts.last() {
            Ok(_) => rest,
            Err(error) => rest.push(((attempts.len() - 1) as usize, error)),
        }
    }
}

/// What a rental's answers come to.
#[derive(Debug, Clone, Copy, PartialEq, Eq, Structural)]
pub enum FillVerdict {
    /// The operator let go: the machines are torn down and that is all that is
    /// said.
    Abandon,
    /// The declared count was not filled under strict fill: the first shortfall
    /// is the failure, and what came up is torn down.
    Fail,
    /// Not one machine came up.
    Empty,
    /// The search goes on with the machines that came up.
    Proceed,
}

/// The verdict over every member's answer.
pub open spec fn verdict_of(
    fill: FillPolicy,
    interrupted: bool,
    came_up: nat,
    fell_short: nat,
) -> FillVerdict {
    if interrupted {
        FillVerdict::Abandon
    } else if fill == FillPolicy::Strict && fell_short > 0 {
        FillVerdict::Fail
    } else if came_up == 0 {
        FillVerdict::Empty
    } else {
        FillVerdict::Proceed
    }
}

/// A rental's members, told apart.
#[derive(Debug)]
pub struct Gathered<H, E> {
    /// The machines that came up, in member order.
    pub hosts: Vec<H>,
    /// The members that fell short, in order, each with why.
    pub short: Vec<(usize, E)>,
    /// What follows.
    pub verdict: FillVerdict,
}

/// Gathers the answers of a rental's members, which were all asked for at once,
/// and takes the verdict.
pub fn acquire_hosts<H, E>(
    fill: FillPolicy,
    attempts: Vec<Result<H, E>>,
    interrupted: bool,
) -> (r: Gathered<H, E>)
    ensures
        r.hosts@ == hosts_of(attempts@),
        r.short@ == short_of(attempts@),
        r.verdict == verdict_of(fill, interrupted, r.hosts@.len(), r.short@.len()),
{
    let ghost all = attempts@;
    let count: usize = attempts.len();
    let mut left: Vec<Result<H, E>> = attempts;
    let mut hosts: Vec<H> = Vec::new();
    let mut short: Vec<(usize, E)> = Vec::new();
    let mut i: usize = 0;
    proof {
        assert(all.take(0) =~= Seq::<Result<H, E>>::empty());
        assert(all.skip(0) =~= all);
    }
    while left.len() > 0
        invariant
            i + left@.len() == all.len(),
            all.len() == count,
            left@ == all.skip(i as int),
            hosts@ == hosts_of(all.take(i as int)),
            short@ == short_of(all.take(i as int)),
        decreases left@.len(),
    {
        let attempt: Result<H, E> = left.remove(0);
        proof {
            assert(all.take(i + 1).drop_last() =~= all.take(i as int));
            assert(all.take(i + 1).last() == attempt);
            assert(left@ =~= all.skip(i + 1));
        }
        match attempt {
            Ok(host) => {
                hosts.push(host);
            },
            Err(error) => {
                short.push((i, error));
            },
        }
        i = i + 1;
    }
    proof {
        assert(all.take(i as int) =~= all);
    }
    let verdict: FillVerdict = if interrupted {
        FillVerdict::Abandon
    } else if fill == FillPolicy::Strict && short.len() > 0 {
        FillVerdict::Fail
    } else if hosts.len() == 0 {
        FillVerdict::Empty
    } else {
        FillVerdict::Proceed
    };
    Gathered { hosts, short, verdict }
}

/// Every member either came up or fell short.
pub proof fn every_member_is_accounted_for<H, E>(attempts: Seq<Result<H, E>>)
    ensures
        hosts_of(attempts).len() + short_of(attempts).len() == attempts.len(),
    decreases attempts.len(),
{
    if attempts.len() > 0 {
        every_member_is_accounted_for(attempts.drop_last());
    }
}

/// Strict fill goes on with the declared count or not at all.
pub proof fn strict_fill_is_all_or_nothing<H, E>(attempts: Seq<Result<H, E>>, interrupted: bool)
    requires
        verdict_of(
            FillPolicy::Strict,
            interrupted,
            hosts_of(attempts).len(),
            short_of(attempts).len(),
        ) == FillVerdict::Proceed,
    ensures
        hosts_of(attempts).len() == attempts.len(),
        !interrupted,
{
    every_member_is_accounted_for(attempts);
}

/// Best-effort goes on with whatever came up, so long as one machine did.
pub proof fn best_effort_goes_on_with_what_came_up<H, E>(attempts: Seq<Result<H, E>>)
    ensures
        verdict_of(
            FillPolicy::BestEffort,
            false,
            hosts_of(attempts).len(),
            short_of(attempts).len(),
        ) == (if hosts_of(attempts).len() > 0 {
            FillVerdict::Proceed
        } else {
            FillVerdict::Empty
        }),
{
}

/// An operator who let go stops the whole rental, whatever the fill policy.
pub proof fn letting_go_stops_the_rental(fill: FillPolicy, came_up: nat, fell_short: nat)
    ensures
        verdict_of(fill, true, came_up, fell_short) == FillVerdict::Abandon,
{
}

/// What a rental fails with: the first shortfall by member index; none where
/// every member came up, which is an interrupt.
pub fn first_error<E>(short: Vec<(usize, E)>) -> (r: Option<E>)
    ensures
        r == (if short@.len() == 0 {
            None
        } else {
            Some(short@[0].1)
        }),
{
    let mut left: Vec<(usize, E)> = short;
    if left.len() == 0 {
        None
    } else {
        let pair: (usize, E) = left.remove(0);
        Some(pair.1)
    }
}

/// What a rental comes to: the machines it goes on with, or the failure it ends
/// with. That is the lowest member's, where one fell short; `let_go` where none
/// did and the operator let go; and `nothing` where not one machine came up and
/// the fill policy allows for that.
pub open spec fn conclusion_of<H, E>(
    hosts: Seq<H>,
    short: Seq<(usize, E)>,
    verdict: FillVerdict,
    let_go: E,
    nothing: E,
) -> Result<Seq<H>, E> {
    match verdict {
        FillVerdict::Proceed => Ok(hosts),
        FillVerdict::Empty => Err(nothing),
        FillVerdict::Fail | FillVerdict::Abandon => Err(
            if short.len() == 0 {
                let_go
            } else {
                short[0].1
            },
        ),
    }
}

/// Concludes a rental by its verdict. Where it does not go on, the machines that
/// came up are dropped here, which tears them down.
pub fn concluded<H, E>(gathered: Gathered<H, E>, let_go: E, nothing: E) -> (r: Result<Vec<H>, E>)
    ensures
        match conclusion_of(
            gathered.hosts@,
            gathered.short@,
            gathered.verdict,
            let_go,
            nothing,
        ) {
            Ok(hosts) => r matches Ok(kept) && kept@ == hosts,
            Err(error) => r == Err::<Vec<H>, E>(error),
        },
{
    match gathered.verdict {
        FillVerdict::Proceed => Ok(gathered.hosts),
        FillVerdict::Empty => Err(nothing),
        FillVerdict::Fail | FillVerdict::Abandon => match first_error(gathered.short) {
            Some(error) => Err(error),
            None => Err(let_go),
        },
    }
}

/// What a rental the operator did not let go of comes to: it goes on exactly
/// where a machine came up and the fill policy is met, with exactly the machines
/// that came up, in member order. Where strict fill is not met it ends with the
/// lowest member's failure.
pub proof fn a_rental_goes_on_where_its_fill_is_met<H, E>(
    fill: FillPolicy,
    attempts: Seq<Result<H, E>>,
    let_go: E,
    nothing: E,
)
    requires
        attempts.len() <= usize::MAX,
    ensures
        ({
            let hosts = hosts_of(attempts);
            let short = short_of(attempts);
            let verdict = verdict_of(fill, false, hosts.len(), short.len());
            let r = conclusion_of(hosts, short, verdict, let_go, nothing);
            &&& r is Ok <==> hosts.len() >= 1 && (fill == FillPolicy::BestEffort || hosts.len()
                == attempts.len())
            &&& r matches Ok(kept) ==> kept == hosts
            &&& fill == FillPolicy::Strict && short.len() > 0 ==> exists|i: int|
                is_lowest_failure(attempts, i) && r == Err::<Seq<H>, E>(
                    (#[trigger] attempts[i])->Err_0,
                )
            &&& r is Err && (fill == FillPolicy::BestEffort || short.len() == 0) ==> r == Err::<
                Seq<H>,
                E,
            >(nothing)
        }),
{
    every_member_is_accounted_for(attempts);
    if short_of(attempts).len() > 0 {
        the_shortfalls_are_the_failed_members(attempts);
        assert(attempts[short_of(attempts)[0].0 as int] == Err::<H, E>(short_of(attempts)[0].1));
    }
}

/// A rental the operator let go of ends with the lowest member's failure, or
/// with the interruption where no member failed, whatever the fill policy.
pub proof fn letting_go_ends_with_the_first_failure<H, E>(
    fill: FillPolicy,
    attempts: Seq<Result<H, E>>,
    let_go: E,
    nothing: E,
)
    requires
        attempts.len() <= usize::MAX,
    ensures
        ({
            let hosts = hosts_of(attempts);
            let short = short_of(attempts);
            let verdict = verdict_of(fill, true, hosts.len(), short.len());
            let r = conclusion_of(hosts, short, verdict, let_go, nothing);
            if short.len() == 0 {
                r == Err::<Seq<H>, E>(let_go)
            } else {
                exists|i: int|
                    is_lowest_failure(attempts, i) && r == Err::<Seq<H>, E>(
                        (#[trigger] attempts[i])->Err_0,
                    )
            }
        }),
{
    if short_of(attempts).len() > 0 {
        the_shortfalls_are_the_failed_members(attempts);
        assert(attempts[short_of(attempts)[0].0 as int] == Err::<H, E>(short_of(attempts)[0].1));
    }
}

/// Whether the member at `i` failed and every one before it came up.
pub open spec fn is_lowest_failure<H, E>(attempts: Seq<Result<H, E>>, i: int) -> bool {
    &&& 0 <= i < attempts.len()
    &&& attempts[i] is Err
    &&& forall|j: int| 0 <= j < i ==> (#[trigger] attempts[j]) is Ok
}

/// The shortfalls are the members that failed, each once, in order, and with
/// what it failed with; the first of them is the lowest that did.
pub proof fn the_shortfalls_are_the_failed_members<H, E>(attempts: Seq<Result<H, E>>)
    requires
        attempts.len() <= usize::MAX,
    ensures
        ({
            let short = short_of(attempts);
            &&& forall|k: int|
                0 <= k < short.len() ==> (#[trigger] short[k]).0 < attempts.len()
                    && attempts[short[k].0 as int] == Err::<H, E>(short[k].1)
            &&& forall|k: int, m: int|
                0 <= k < m < short.len() ==> (#[trigger] short[k]).0 < (#[trigger] short[m]).0
            &&& forall|i: int|
                0 <= i < attempts.len() && (#[trigger] attempts[i]) is Err ==> exists|k: int|
                    0 <= k < short.len() && (#[trigger] short[k]).0 == i
            &&& short.len() > 0 ==> is_lowest_failure(attempts, short[0].0 as int)
        }),
    decreases attempts.len(),
{
    if attempts.len() > 0 {
        let fewer = attempts.drop_last();
        the_shortfalls_are_the_failed_members(fewer);
        let before = short_of(fewer);
        let short = short_of(attempts);
        let last = attempts.len() - 1;
        assert forall|k: int| 0 <= k < short.len() implies (#[trigger] short[k]).0 < attempts.len()
            && attempts[short[k].0 as int] == Err::<H, E>(short[k].1) by {
            if k < before.len() {
                assert(short[k] == before[k]);
                assert(fewer[before[k].0 as int] == attempts[before[k].0 as int]);
            }
        }
        assert forall|k: int, m: int| 0 <= k < m < short.len() implies (#[trigger] short[k]).0 < (
        #[trigger] short[m]).0 by {
            assert(short[k] == before[k]);
            if m < before.len() {
                assert(short[m] == before[m]);
            }
        }
        assert forall|i: int|
            0 <= i < attempts.len() && (#[trigger] attempts[i]) is Err implies exists|k: int|
            0 <= k < short.len() && (#[trigger] short[k]).0 == i by {
            if i < last {
                assert(fewer[i] == attempts[i]);
                let k = choose|k: int| 0 <= k < before.len() && (#[trigger] before[k]).0 == i;
                assert(short[k] == before[k]);
            } else {
                assert(short[before.len() as int].0 == i);
            }
        }
        if short.len() > 0 {
            let first = short[0].0 as int;
            assert forall|j: int| 0 <= j < first implies (#[trigger] attempts[j]) is Ok by {
                if attempts[j] is Err {
                    let k = choose|k: int| 0 <= k < short.len() && (#[trigger] short[k]).0 == j;
                    if k > 0 {
                        assert(short[0].0 < short[k].0);
                    }
                }
            }
        }
    }
}

/// The first failure of a teardown; every guard was released whatever the
/// others did.
pub open spec fn first_failure_of<E>(released: Seq<Result<(), E>>) -> Result<(), E>
    decreases released.len(),
{
    if released.len() == 0 {
        Ok(())
    } else {
        match released[0] {
            Err(error) => Err(error),
            Ok(_) => first_failure_of(released.drop_first()),
        }
    }
}

/// What releasing every machine comes to, from what each release answered: the
/// first failure, if there is one.
pub fn release_all<E>(released: Vec<Result<(), E>>) -> (r: Result<(), E>)
    ensures
        r == first_failure_of(released@),
{
    let ghost all = released@;
    let mut left: Vec<Result<(), E>> = released;
    while left.len() > 0
        invariant
            all == released@,
            first_failure_of(all) == first_failure_of(left@),
        decreases left@.len(),
    {
        let ghost was = left@;
        let one: Result<(), E> = left.remove(0);
        proof {
            assert(left@ =~= was.drop_first());
        }
        match one {
            Err(error) => {
                return Err(error);
            },
            Ok(()) => {},
        }
    }
    Ok(())
}

/// Releasing every machine succeeds exactly where every release did, and fails
/// otherwise with what the first failure was.
pub proof fn a_teardown_answers_its_first_failure<E>(released: Seq<Result<(), E>>)
    ensures
        match first_failure_of(released) {
            Ok(_) => forall|i: int| 0 <= i < released.len() ==> (#[trigger] released[i]) is Ok,
            Err(error) => exists|i: int|
                0 <= i < released.len() && #[trigger] released[i] == Err::<(), E>(error) && forall|
                    k: int,
                |
                    0 <= k < i ==> (#[trigger] released[k]) is Ok,
        },
    decreases released.len(),
{
    if released.len() > 0 {
        let rest = released.drop_first();
        if released[0] is Ok {
            a_teardown_answers_its_first_failure(rest);
            if let Err(error) = first_failure_of(rest) {
                let i = choose|i: int|
                    0 <= i < rest.len() && #[trigger] rest[i] == Err::<(), E>(error) && forall|
                        k: int,
                    |
                        0 <= k < i ==> (#[trigger] rest[k]) is Ok;
                assert(released[i + 1] == Err::<(), E>(error));
                assert forall|k: int| 0 <= k < i + 1 implies (#[trigger] released[k]) is Ok by {
                    if k > 0 {
                        assert(rest[k - 1] is Ok);
                    }
                }
            } else {
                assert forall|i: int| 0 <= i < released.len() implies (
                #[trigger] released[i]) is Ok by {
                    if i > 0 {
                        assert(rest[i - 1] is Ok);
                    }
                }
            }
        } else {
            let error = released[0]->Err_0;
            assert(released[0] == Err::<(), E>(error));
        }
    }
}

/// The machines of a rental are those of its members that came up, each once, in
/// order: gathering two rows of answers one after the other gathers the machines
/// of the first and then those of the second.
pub proof fn what_came_up_is_gathered_in_order<H, E>(
    first: Seq<Result<H, E>>,
    second: Seq<Result<H, E>>,
    host: H,
    error: E,
)
    ensures
        hosts_of(first + second) == hosts_of(first) + hosts_of(second),
        hosts_of(seq![Ok::<H, E>(host)]) == seq![host],
        hosts_of(seq![Err::<H, E>(error)]) == Seq::<H>::empty(),
    decreases second.len(),
{
    assert(seq![Ok::<H, E>(host)].drop_last() =~= Seq::empty());
    assert(seq![Err::<H, E>(error)].drop_last() =~= Seq::empty());
    assert(hosts_of(Seq::<Result<H, E>>::empty()) =~= Seq::<H>::empty());
    assert(hosts_of(seq![Ok::<H, E>(host)]) =~= seq![host]);
    if second.len() == 0 {
        assert(first + second =~= first);
        assert(hosts_of(first) + hosts_of(second) =~= hosts_of(first));
    } else {
        what_came_up_is_gathered_in_order(first, second.drop_last(), host, error);
        assert((first + second).drop_last() =~= first + second.drop_last());
        assert((first + second).last() == second.last());
        assert(hosts_of(first + second) =~= hosts_of(first) + hosts_of(second));
    }
}

// ---- What is said ---------------------------------------------------------------------------

/// The failure of an acquisition the interrupt reached.
pub fn interrupted() -> (fault: Fault)
    ensures
        fault@ == crate::fault::Complaint::Provider("the acquisition was interrupted"@),
{
    Fault::Provider("the acquisition was interrupted".to_owned())
}

/// The failure of a rental not one of whose machines came up.
pub fn acquired_nothing(name: &str) -> (fault: Fault)
    ensures
        fault@ == crate::fault::Complaint::Provider(
            "the rental "@ + crate::text::quoted(name@) + " acquired no machine"@,
        ),
{
    let entry: String = quote(name);
    Fault::Provider(cat3("the rental ", entry.as_str(), " acquired no machine"))
}

/// What an offer is, as far as it is announced.
#[derive(Debug, Clone, PartialEq, Eq)]
pub struct Offer {
    /// The machine it is for.
    pub machine: String,
    /// Its cards.
    pub gpu_model: String,
    /// How many of them.
    pub gpu_count: u32,
    /// What it costs, in millionths of a dollar per hour.
    pub price: u64,
}

/// What is now being paid for, stated before the wait for it to come up.
pub fn renting(member: &str, offer: &Offer) -> (event: Event)
    ensures
        event matches Event::Renting { member: m, machine, gpu_model, gpu_count, rate_microusd_hour }
            && m@ == member@ && machine@ == offer.machine@ && gpu_model@ == offer.gpu_model@
            && gpu_count == offer.gpu_count && rate_microusd_hour == offer.price,
{
    Event::Renting {
        member: member.to_owned(),
        machine: offer.machine.clone(),
        gpu_model: offer.gpu_model.clone(),
        gpu_count: offer.gpu_count,
        rate_microusd_hour: offer.price,
    }
}

/// What an acquisition says as it takes an offer: what is now being paid for,
/// and then the wait for that machine, stated once whatever it costs in polls.
pub fn taken(member: &str, ready_timeout_ms: u64, offer: &Offer) -> (events: Vec<Event>)
    ensures
        events@.len() == 2,
        events@[0] matches Event::Renting {
            member: m,
            machine,
            gpu_model,
            gpu_count,
            rate_microusd_hour,
        } && m@ == member@ && machine@ == offer.machine@ && gpu_model@ == offer.gpu_model@
            && gpu_count == offer.gpu_count && rate_microusd_hour == offer.price,
        events@[1] matches Event::AwaitingMachine { member: m, timeout_ms } && m@ == member@
            && timeout_ms == ready_timeout_ms,
{
    let mut events: Vec<Event> = Vec::new();
    events.push(renting(member, offer));
    events.push(
        Event::AwaitingMachine { member: member.to_owned(), timeout_ms: ready_timeout_ms },
    );
    events
}

/// What an entry's fill policy makes of a shortfall.
pub open spec fn consequence_text(name: Seq<char>, fill: FillPolicy, acquired: nat) -> Seq<char> {
    match fill {
        FillPolicy::Strict => crate::text::quoted(name)
            + " states strict fill, so the search stops and what it acquired is torn down"@,
        FillPolicy::BestEffort => crate::text::quoted(name)
            + " states best-effort fill, so the search goes on with the "@
            + crate::text::decimal_text(acquired) + " machine(s) that came up"@,
    }
}

/// What a member that could not be brought up is reported as.
pub open spec fn shortfall_text(
    member: Seq<char>,
    error: Seq<char>,
    name: Seq<char>,
    fill: FillPolicy,
    acquired: nat,
) -> Seq<char> {
    member + " could not be brought up: "@ + error + "; "@ + consequence_text(name, fill, acquired)
}

/// The report of a member that could not be brought up: the member, why, and
/// what follows from it. `acquired` is how many machines of the entry did.
pub fn shortfall(member: &str, rental: &Rental, error: &str, acquired: usize) -> (event: Event)
    ensures
        event matches Event::Diagnostic { level, source, message, host } && level == Level::Warn
            && source@ == "rental"@ && host is None && message@ == shortfall_text(
            member@,
            error@,
            rental.name@,
            rental.fill,
            acquired as nat,
        ),
{
    let entry: String = quote(rental.name.as_str());
    let consequence: String = match rental.fill {
        FillPolicy::Strict => cat(
            entry.as_str(),
            " states strict fill, so the search stops and what it acquired is torn down",
        ),
        FillPolicy::BestEffort => {
            let number: String = decimal(acquired as u64);
            let mut text: String = cat3(
                entry.as_str(),
                " states best-effort fill, so the search goes on with the ",
                number.as_str(),
            );
            text.append(" machine(s) that came up");
            text
        },
    };
    let mut message: String = cat3(member, " could not be brought up: ", error);
    message.append("; ");
    message.append(consequence.as_str());
    Event::Diagnostic { level: Level::Warn, source: "rental".to_owned(), message, host: None }
}

/// Whether `event` reports one shortfall.
pub open spec fn is_shortfall(
    event: Event,
    rental: Rental,
    acquired: nat,
    short: (usize, String),
) -> bool {
    event matches Event::Diagnostic { level, source, message, host } && level == Level::Warn
        && source@ == "rental"@ && host is None && message@ == shortfall_text(
        member_text(rental.name@, short.0 as nat),
        short.1@,
        rental.name@,
        rental.fill,
        acquired,
    )
}

/// Whether `events` is what a rental says once its members have answered: of one
/// the operator let go of, only how many machines were let go; of any other, one
/// warning for each member that fell short, in order.
pub open spec fn is_said(
    events: Seq<Event>,
    rental: Rental,
    acquired: usize,
    short: Seq<(usize, String)>,
    verdict: FillVerdict,
) -> bool {
    if verdict == FillVerdict::Abandon {
        events == seq![Event::AcquisitionAbandoned { released: acquired }]
    } else {
        &&& events.len() == short.len()
        &&& forall|i: int|
            0 <= i < events.len() ==> is_shortfall(
                #[trigger] events[i],
                rental,
                acquired as nat,
                short[i],
            )
    }
}

/// What a rental says once its members have answered. `acquired` is how many
/// machines came up, and `short` the members that fell short, each with why.
pub fn said(
    rental: &Rental,
    acquired: usize,
    short: &Vec<(usize, String)>,
    verdict: FillVerdict,
) -> (events: Vec<Event>)
    ensures
        is_said(events@, *rental, acquired, short@, verdict),
{
    let mut events: Vec<Event> = Vec::new();
    if verdict == FillVerdict::Abandon {
        events.push(Event::AcquisitionAbandoned { released: acquired });
        proof {
            assert(events@ =~= seq![Event::AcquisitionAbandoned { released: acquired }]);
        }
        return events;
    }
    let mut i: usize = 0;
    while i < short.len()
        invariant
            i <= short@.len(),
            events@.len() == i,
            forall|k: int|
                0 <= k < i ==> is_shortfall(
                    #[trigger] events@[k],
                    *rental,
                    acquired as nat,
                    short@[k],
                ),
        decreases short@.len() - i,
    {
        let name: String = member(rental.name.as_str(), short[i].0);
        events.push(shortfall(name.as_str(), rental, short[i].1.as_str(), acquired));
        i = i + 1;
    }
    events
}

/// A rental the operator let go of says how many machines were let go of, and
/// warns of nothing; any other warns once of each member that fell short, and
/// says nothing else.
pub proof fn letting_go_warns_of_nothing(
    events: Seq<Event>,
    rental: Rental,
    acquired: usize,
    short: Seq<(usize, String)>,
    verdict: FillVerdict,
)
    requires
        is_said(events, rental, acquired, short, verdict),
    ensures
        verdict == FillVerdict::Abandon ==> events == seq![
            Event::AcquisitionAbandoned { released: acquired },
        ],
        verdict != FillVerdict::Abandon ==> events.len() == short.len() && forall|i: int|
            0 <= i < events.len() ==> !((#[trigger] events[i]) is AcquisitionAbandoned),
{
}

} // verus!
