//! Deleting a run of a store, under the run's own lock.
//!
//! A run is named by the configuration, or by a leading part of its id where the
//! configuration no longer names it. Everything past finding the run is the
//! same either way. Nothing is created, locked or deleted before the store is
//! known to be there and the run to be in it.
use vstd::prelude::*;
use vstd::string::*;

use crate::fault::Fault;
use crate::routine::Routine;
use crate::text::{cat3, same};

verus! {

/// What a run that is not in the store is refused with.
pub open spec fn not_found_text(run: Seq<char>) -> Seq<char> {
    "cannot remove run "@ + run + ": run not found"@
}

/// Finds the run a configuration names among the store's `runs`.
pub fn find_run(runs: &Vec<String>, run: &str) -> (r: Result<(), Fault>)
    ensures
        if crate::text::views(runs@).contains(run@) {
            r is Ok
        } else {
            r matches Err(fault) && fault@ == crate::fault::Complaint::Validation(
                not_found_text(run@),
            )
        },
{
    let ghost all = crate::text::views(runs@);
    let mut i: usize = 0;
    while i < runs.len()
        invariant
            i <= runs@.len(),
            all == crate::text::views(runs@),
            forall|k: int| 0 <= k < i ==> (#[trigger] runs@[k])@ != run@,
        decreases runs@.len() - i,
    {
        if same(runs[i].as_str(), run) {
            proof {
                assert(all[i as int] == run@);
            }
            return Ok(());
        }
        i = i + 1;
    }
    proof {
        if all.contains(run@) {
            let k = choose|k: int| 0 <= k < all.len() && all[k] == run@;
            assert(runs@[k]@ == run@);
        }
    }
    Err(Fault::Validation(cat3("cannot remove run ", run, ": run not found")))
}

/// Where a removal stands.
#[derive(Debug, Clone, Copy, PartialEq, Eq, Structural)]
pub enum RemovePhase {
    /// Is the store's root a directory?
    CheckStore,
    /// The store is being opened.
    OpenStore,
    /// The run is being found among the store's runs.
    FindRun,
    /// The run's lock is being acquired.
    Lock,
    /// The run is being deleted, under its lock.
    Delete,
    /// The removal is over.
    Over(RemoveEnd),
}

/// How a removal ended.
#[derive(Debug, Clone, Copy, PartialEq, Eq, Structural)]
pub enum RemoveEnd {
    /// The run and everything no other run references is gone.
    Removed,
    /// The store is not there.
    NoStore,
    /// The run was not found, or is not the only one meant.
    Refused,
    /// What was asked of the store failed, and its failure is the answer.
    Raised,
}

/// What a removal is told.
#[derive(Debug, Clone, Copy, PartialEq, Eq, Structural)]
pub enum RemoveAnswer {
    /// Whether the root is a directory.
    IsDirectory(bool),
    /// Whether one run is meant and is there.
    Found(bool),
    /// It was done.
    Done,
    /// It failed.
    Failed,
}

impl RemovePhase {
    /// The phase after `answer`. An answer to something else leaves it.
    pub open spec fn next(self, answer: RemoveAnswer) -> RemovePhase {
        match (self, answer) {
            (RemovePhase::Over(end), _) => RemovePhase::Over(end),
            (RemovePhase::CheckStore, RemoveAnswer::IsDirectory(there)) => if there {
                RemovePhase::OpenStore
            } else {
                RemovePhase::Over(RemoveEnd::NoStore)
            },
            (RemovePhase::CheckStore, _) => RemovePhase::CheckStore,
            (_, RemoveAnswer::Failed) => RemovePhase::Over(RemoveEnd::Raised),
            (RemovePhase::OpenStore, RemoveAnswer::Done) => RemovePhase::FindRun,
            (RemovePhase::FindRun, RemoveAnswer::Found(found)) => if found {
                RemovePhase::Lock
            } else {
                RemovePhase::Over(RemoveEnd::Refused)
            },
            (RemovePhase::Lock, RemoveAnswer::Done) => RemovePhase::Delete,
            (RemovePhase::Delete, RemoveAnswer::Done) => RemovePhase::Over(RemoveEnd::Removed),
            (phase, _) => phase,
        }
    }

    /// The phase after `answers`, from the start.
    pub open spec fn after(answers: Seq<RemoveAnswer>) -> RemovePhase
        decreases answers.len(),
    {
        if answers.len() == 0 {
            RemovePhase::CheckStore
        } else {
            RemovePhase::after(answers.drop_last()).next(answers.last())
        }
    }
}

/// The phase of a removal that `answer` leads to. A removal begins at
/// [`RemovePhase::CheckStore`].
pub fn remove(at: RemovePhase, answer: RemoveAnswer) -> (phase: RemovePhase)
    ensures
        phase == at.next(answer),
{
    match (at, answer) {
        (RemovePhase::Over(end), _) => RemovePhase::Over(end),
        (RemovePhase::CheckStore, RemoveAnswer::IsDirectory(there)) => {
            if there {
                RemovePhase::OpenStore
            } else {
                RemovePhase::Over(RemoveEnd::NoStore)
            }
        },
        (RemovePhase::CheckStore, _) => RemovePhase::CheckStore,
        (_, RemoveAnswer::Failed) => RemovePhase::Over(RemoveEnd::Raised),
        (RemovePhase::OpenStore, RemoveAnswer::Done) => RemovePhase::FindRun,
        (RemovePhase::FindRun, RemoveAnswer::Found(found)) => {
            if found {
                RemovePhase::Lock
            } else {
                RemovePhase::Over(RemoveEnd::Refused)
            }
        },
        (RemovePhase::Lock, RemoveAnswer::Done) => RemovePhase::Delete,
        (RemovePhase::Delete, RemoveAnswer::Done) => RemovePhase::Over(RemoveEnd::Removed),
        (phase, _) => phase,
    }
}

/// Whether the phase locks or deletes, or comes after that.
pub open spec fn touches(phase: RemovePhase) -> bool {
    phase is Lock || phase is Delete || phase == RemovePhase::Over(RemoveEnd::Removed)
}

/// Nothing is locked and nothing deleted before the store was found to be there
/// and the run to be in it.
pub proof fn nothing_is_touched_before_the_run_is_found(answers: Seq<RemoveAnswer>)
    requires
        touches(RemovePhase::after(answers)),
    ensures
        answers.contains(RemoveAnswer::IsDirectory(true)),
        answers.contains(RemoveAnswer::Found(true)),
    decreases answers.len(),
{
    let fewer = answers.drop_last();
    let before = RemovePhase::after(fewer);
    if touches(before) {
        nothing_is_touched_before_the_run_is_found(fewer);
        lemma_kept(answers, RemoveAnswer::IsDirectory(true));
        lemma_kept(answers, RemoveAnswer::Found(true));
    } else {
        assert(before is FindRun);
        lemma_opened_after_the_check(fewer);
        lemma_kept(answers, RemoveAnswer::IsDirectory(true));
        assert(answers[answers.len() - 1] == RemoveAnswer::Found(true));
    }
}

/// The store is not opened, which would create it, before its root was found to
/// be a directory.
pub proof fn a_removal_creates_no_store(answers: Seq<RemoveAnswer>)
    requires
        RemovePhase::after(answers) is OpenStore,
    ensures
        answers.contains(RemoveAnswer::IsDirectory(true)),
{
    lemma_opened_after_the_check(answers);
}

proof fn lemma_opened_after_the_check(answers: Seq<RemoveAnswer>)
    requires
        RemovePhase::after(answers) is OpenStore || RemovePhase::after(answers) is FindRun,
    ensures
        answers.contains(RemoveAnswer::IsDirectory(true)),
    decreases answers.len(),
{
    let fewer = answers.drop_last();
    let before = RemovePhase::after(fewer);
    if before is CheckStore {
        assert(answers[answers.len() - 1] == RemoveAnswer::IsDirectory(true));
    } else {
        lemma_opened_after_the_check(fewer);
        lemma_kept(answers, RemoveAnswer::IsDirectory(true));
    }
}

proof fn lemma_kept(answers: Seq<RemoveAnswer>, answer: RemoveAnswer)
    requires
        answers.len() > 0,
        answers.drop_last().contains(answer),
    ensures
        answers.contains(answer),
{
    let fewer = answers.drop_last();
    let i = choose|i: int| 0 <= i < fewer.len() && fewer[i] == answer;
    assert(answers[i] == answer);
}

impl Routine for RemovePhase {
    type Action = RemovePhase;

    type Answer = RemoveAnswer;

    open spec fn calls_for(self) -> RemovePhase {
        self
    }

    open spec fn reached(self, answers: Seq<RemoveAnswer>) -> RemovePhase
        decreases answers.len(),
    {
        if answers.len() == 0 {
            self
        } else {
            self.reached(answers.drop_last()).next(answers.last())
        }
    }

    open spec fn can_answer(action: RemovePhase, answer: RemoveAnswer) -> bool {
        match action {
            RemovePhase::CheckStore => answer is IsDirectory,
            RemovePhase::FindRun => answer is Found || answer is Failed,
            RemovePhase::Over(_) => false,
            _ => answer is Done || answer is Failed,
        }
    }
}

/// What a removal comes to, from what it was told last: a store that is not there
/// and a run that is not found end it, and so does any failure; otherwise the
/// store is opened, the run found, locked, and deleted, in that order.
pub proof fn what_a_removal_does_next(answers: Seq<RemoveAnswer>)
    ensures
        ({
            let start = RemovePhase::CheckStore;
            let now = start.reached(answers);
            match crate::routine::last_done(start, answers) {
                None => now == RemovePhase::CheckStore,
                Some((_, RemoveAnswer::IsDirectory(there))) => now == if there {
                    RemovePhase::OpenStore
                } else {
                    RemovePhase::Over(RemoveEnd::NoStore)
                },
                Some((_, RemoveAnswer::Failed)) => now == RemovePhase::Over(RemoveEnd::Raised),
                Some((RemovePhase::OpenStore, _)) => now == RemovePhase::FindRun,
                Some((_, RemoveAnswer::Found(found))) => now == if found {
                    RemovePhase::Lock
                } else {
                    RemovePhase::Over(RemoveEnd::Refused)
                },
                Some((RemovePhase::Lock, _)) => now == RemovePhase::Delete,
                Some(_) => now == RemovePhase::Over(RemoveEnd::Removed),
            }
        }),
    decreases answers.len(),
{
    if answers.len() > 0 {
        what_a_removal_does_next(answers.drop_last());
    }
}

/// A run is deleted only under its own lock, in a store that is there and that
/// holds it; and it is gone only once the deletion was done.
pub proof fn a_run_is_deleted_under_its_lock(answers: Seq<RemoveAnswer>)
    ensures
        ({
            let start = RemovePhase::CheckStore;
            let now = start.reached(answers);
            let removed = now == RemovePhase::Over(RemoveEnd::Removed);
            &&& now is Delete || removed ==> {
                &&& crate::routine::did(
                    start,
                    answers,
                    RemovePhase::CheckStore,
                    RemoveAnswer::IsDirectory(true),
                )
                &&& crate::routine::did(start, answers, RemovePhase::OpenStore, RemoveAnswer::Done)
                &&& crate::routine::did(
                    start,
                    answers,
                    RemovePhase::FindRun,
                    RemoveAnswer::Found(true),
                )
                &&& crate::routine::did(start, answers, RemovePhase::Lock, RemoveAnswer::Done)
            }
            &&& removed ==> crate::routine::did(
                start,
                answers,
                RemovePhase::Delete,
                RemoveAnswer::Done,
            )
        }),
{
    lemma_removal_so_far(answers);
}

proof fn lemma_removal_so_far(answers: Seq<RemoveAnswer>)
    ensures
        ({
            let start = RemovePhase::CheckStore;
            let now = start.reached(answers);
            let removed = now == RemovePhase::Over(RemoveEnd::Removed);
            &&& now is OpenStore || now is FindRun || now is Lock || now is Delete || removed
                ==> crate::routine::did(
                start,
                answers,
                RemovePhase::CheckStore,
                RemoveAnswer::IsDirectory(true),
            )
            &&& now is FindRun || now is Lock || now is Delete || removed ==> crate::routine::did(
                start,
                answers,
                RemovePhase::OpenStore,
                RemoveAnswer::Done,
            )
            &&& now is Lock || now is Delete || removed ==> crate::routine::did(
                start,
                answers,
                RemovePhase::FindRun,
                RemoveAnswer::Found(true),
            )
            &&& now is Delete || removed ==> crate::routine::did(
                start,
                answers,
                RemovePhase::Lock,
                RemoveAnswer::Done,
            )
            &&& removed ==> crate::routine::did(
                start,
                answers,
                RemovePhase::Delete,
                RemoveAnswer::Done,
            )
        }),
    decreases answers.len(),
{
    if answers.len() > 0 {
        lemma_removal_so_far(answers.drop_last());
    }
}

} // verus!
