//! What a routine has done: the actions it called for, and what each was
//! answered.
//!
//! A routine is told one answer after another. An answer counts only where it is
//! one that its action can have; what was done is read off the answers that
//! counted.
use vstd::prelude::*;

verus! {

/// A routine that calls for one action after another, each to be answered.
pub trait Routine: Sized {
    /// What it calls for.
    type Action;
    /// What it is told.
    type Answer;

    /// The action it calls for.
    spec fn calls_for(self) -> Self::Action;

    /// Where the answers take it, one after another.
    spec fn reached(self, answers: Seq<Self::Answer>) -> Self;

    /// Whether an answer is one that an action can have.
    spec fn can_answer(action: Self::Action, answer: Self::Answer) -> bool;
}

/// Whether the action was called for and answered so.
pub open spec fn did<R: Routine>(
    start: R,
    answers: Seq<R::Answer>,
    action: R::Action,
    answer: R::Answer,
) -> bool
    decreases answers.len(),
{
    answers.len() > 0 && (did(start, answers.drop_last(), action, answer) || (start.reached(
        answers.drop_last(),
    ).calls_for() == action && answers.last() == answer))
}

/// Whether `step`, an action with its answer, was done after the last time `mark`
/// was; where `mark` was never done, whether it was done at all.
pub open spec fn did_since<R: Routine>(
    start: R,
    answers: Seq<R::Answer>,
    mark: (R::Action, R::Answer),
    step: (R::Action, R::Answer),
) -> bool
    decreases answers.len(),
{
    answers.len() > 0 && {
        let done = (start.reached(answers.drop_last()).calls_for(), answers.last());
        done != mark && (done == step || did_since(start, answers.drop_last(), mark, step))
    }
}

/// What the action was last answered; none where it was not.
pub open spec fn answer_to<R: Routine>(
    start: R,
    answers: Seq<R::Answer>,
    action: R::Action,
) -> Option<R::Answer>
    decreases answers.len(),
{
    if answers.len() == 0 {
        None
    } else if start.reached(answers.drop_last()).calls_for() == action && R::can_answer(
        action,
        answers.last(),
    ) {
        Some(answers.last())
    } else {
        answer_to(start, answers.drop_last(), action)
    }
}

/// How many times the action was called for and answered.
pub open spec fn times<R: Routine>(start: R, answers: Seq<R::Answer>, action: R::Action) -> nat
    decreases answers.len(),
{
    if answers.len() == 0 {
        0
    } else {
        times(start, answers.drop_last(), action) + if start.reached(
            answers.drop_last(),
        ).calls_for() == action && R::can_answer(action, answers.last()) {
            1nat
        } else {
            0nat
        }
    }
}

/// The last action that was answered, and the answer; none before the first.
pub open spec fn last_done<R: Routine>(start: R, answers: Seq<R::Answer>) -> Option<
    (R::Action, R::Answer),
>
    decreases answers.len(),
{
    if answers.len() == 0 {
        None
    } else {
        let action = start.reached(answers.drop_last()).calls_for();
        if R::can_answer(action, answers.last()) {
            Some((action, answers.last()))
        } else {
            last_done(start, answers.drop_last())
        }
    }
}

} // verus!
