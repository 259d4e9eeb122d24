//! The runs a store holds: what is in it, and addressing one of them by id.
//!
//! A store accumulates the runs of every identity ever driven against it, while
//! a configuration names one. These answer what a configuration cannot: what is
//! in here, and which one is meant.
use vstd::prelude::*;
use vstd::string::*;

use crate::far_run::RunState;
use crate::fault::Fault;
use crate::text::{cat, cat3, join};

verus! {

// ---- The store ---------------------------------------------------------------------------------

/// What a store that is not there is refused with.
pub open spec fn no_store_text(root: Seq<char>) -> Seq<char> {
    "store "@ + root + " does not exist: no run was ever driven there"@
}

/// Refuses a store root that is no directory, before anything touches the disk:
/// opening a store creates its skeleton, and a query must not.
pub fn check_store(root: &str, is_dir: bool) -> (r: Result<(), Fault>)
    ensures
        if is_dir {
            r is Ok
        } else {
            r matches Err(fault) && fault@ == crate::fault::Complaint::Validation(
                no_store_text(root@),
            )
        },
{
    if is_dir {
        Ok(())
    } else {
        Err(
            Fault::Validation(
                cat3("store ", root, " does not exist: no run was ever driven there"),
            ),
        )
    }
}

// ---- Listing -----------------------------------------------------------------------------------

/// One run as a store holds it.
#[derive(Debug, Clone, PartialEq, Eq)]
pub struct RunSummary {
    /// Its id.
    pub run: String,
    /// What its journal projects.
    pub state: RunState,
    /// Its task count, as its latest session stated it.
    pub tasks: usize,
    /// How many of those tasks the journal shows committed.
    pub committed: usize,
}

/// What a run's journal projects.
#[derive(Debug, Clone, PartialEq, Eq)]
pub struct RunStatus {
    /// Where the run stands.
    pub state: RunState,
    /// Its task count.
    pub tasks: usize,
    /// How many of those tasks are committed.
    pub committed: usize,
}

/// The summary of `run`, whose journal projects `status`.
pub open spec fn summary_of(run: String, status: RunStatus) -> RunSummary {
    RunSummary { run, state: status.state, tasks: status.tasks, committed: status.committed }
}

/// The summaries of the runs read so far, and the failure of the first whose
/// journal could not be.
pub open spec fn runs_outcome<E>(read: Seq<(String, Result<RunStatus, E>)>) -> Result<
    Seq<RunSummary>,
    E,
>
    decreases read.len(),
{
    if read.len() == 0 {
        Ok(Seq::empty())
    } else {
        match runs_outcome(read.drop_last()) {
            Err(e) => Err(e),
            Ok(listed) => match read.last().1 {
                Err(e) => Err(e),
                Ok(status) => Ok(listed.push(summary_of(read.last().0, status))),
            },
        }
    }
}

/// Every run of a store, in its order, from what each one's journal projects.
/// The first journal that could not be read is the answer where there is one.
pub fn runs<E>(read: Vec<(String, Result<RunStatus, E>)>) -> (r: Result<Vec<RunSummary>, E>)
    ensures
        match r {
            Ok(listed) => runs_outcome(read@) == Ok::<Seq<RunSummary>, E>(listed@),
            Err(e) => runs_outcome(read@) == Err::<Seq<RunSummary>, E>(e),
        },
{
    let ghost all = read@;
    let mut left: Vec<(String, Result<RunStatus, E>)> = read;
    let mut listed: Vec<RunSummary> = Vec::new();
    let ghost mut done: int = 0;
    proof {
        assert(all.take(0) =~= Seq::<(String, Result<RunStatus, E>)>::empty());
        assert(all.skip(0) =~= all);
        assert(listed@ =~= Seq::<RunSummary>::empty());
    }
    while left.len() > 0
        invariant
            0 <= done <= all.len(),
            left@ == all.skip(done),
            runs_outcome(all.take(done)) == Ok::<Seq<RunSummary>, E>(listed@),
            all == read@,
        decreases left@.len(),
    {
        let (run, status): (String, Result<RunStatus, E>) = left.remove(0);
        proof {
            assert(all.skip(done)[0] == all[done]);
            assert(left@ =~= all.skip(done + 1));
            assert(all.take(done + 1).drop_last() =~= all.take(done));
            assert(all.take(done + 1).last() == all[done]);
        }
        match status {
            Err(e) => {
                proof {
                    assert(runs_outcome(all.take(done + 1)) == Err::<Seq<RunSummary>, E>(e));
                    lemma_a_failure_stands(all, done + 1);
                }
                return Err(e);
            },
            Ok(status) => {
                listed.push(
                    RunSummary {
                        run,
                        state: status.state,
                        tasks: status.tasks,
                        committed: status.committed,
                    },
                );
            },
        }
        proof {
            done = done + 1;
        }
    }
    proof {
        assert(all.take(all.len() as int) =~= all);
    }
    Ok(listed)
}

proof fn lemma_a_failure_stands<E>(read: Seq<(String, Result<RunStatus, E>)>, n: int)
    requires
        0 <= n <= read.len(),
        runs_outcome(read.take(n)) is Err,
    ensures
        runs_outcome(read) == runs_outcome(read.take(n)),
    decreases read.len() - n,
{
    if n == read.len() {
        assert(read.take(n) =~= read);
    } else {
        assert(read.take(n + 1).drop_last() =~= read.take(n));
        lemma_a_failure_stands(read, n + 1);
    }
}

/// A listing leaves no run out and adds none: it has each of the store's runs,
/// in the store's order.
pub proof fn a_listing_is_the_store_s_runs<E>(read: Seq<(String, Result<RunStatus, E>)>)
    ensures
        runs_outcome(read) matches Ok(listed) ==> listed.len() == read.len() && forall|i: int|
            0 <= i < read.len() ==> (#[trigger] listed[i]).run == read[i].0,
        runs_outcome(read) is Ok <==> forall|i: int|
            0 <= i < read.len() ==> (#[trigger] read[i]).1 is Ok,
    decreases read.len(),
{
    if read.len() > 0 {
        let fewer = read.drop_last();
        a_listing_is_the_store_s_runs(fewer);
        assert(read.last() == read[read.len() - 1]);
        assert forall|i: int| 0 <= i < fewer.len() implies fewer[i] == #[trigger] read[i] by {}
        if runs_outcome(fewer) is Err {
            let i = choose|i: int| 0 <= i < fewer.len() && !((#[trigger] fewer[i]).1 is Ok);
            assert(read[i] == fewer[i]);
        }
    }
}

// ---- Addressing --------------------------------------------------------------------------------

/// Whether `id` begins with `prefix`.
pub open spec fn begins(id: Seq<char>, prefix: Seq<char>) -> bool {
    prefix.len() <= id.len() && id.take(prefix.len() as int) == prefix
}

/// The runs whose ids begin with `prefix`, in order.
pub open spec fn matching(runs: Seq<String>, prefix: Seq<char>) -> Seq<String>
    decreases runs.len(),
{
    if runs.len() == 0 {
        Seq::empty()
    } else {
        let before = matching(runs.drop_last(), prefix);
        if begins(runs.last()@, prefix) {
            before.push(runs.last())
        } else {
            before
        }
    }
}

/// What the empty prefix is refused with.
pub open spec fn empty_prefix_text() -> Seq<char> {
    "--run takes a run id or a leading part of one, and was given nothing. Every run begins with the empty prefix, so it addresses no run in particular; `sima runs <store-dir>` lists what the store holds."@
}

/// Whether `r` is what `prefix` addresses among `runs`.
pub open spec fn is_addressed(
    runs: Seq<String>,
    prefix: Seq<char>,
    r: Result<String, Fault>,
) -> bool {
    let matched = matching(runs, prefix);
    if prefix.len() == 0 {
        r matches Err(fault) && fault@ == crate::fault::Complaint::Validation(empty_prefix_text())
    } else if matched.len() == 0 {
        r matches Err(fault) && fault@ == crate::fault::Complaint::Validation(
            "no run in this store matches prefix "@ + prefix,
        )
    } else if matched.len() == 1 {
        r == Ok::<String, Fault>(matched[0])
    } else {
        r matches Err(fault) && fault@ == crate::fault::Complaint::Validation(
            "prefix "@ + prefix + " is ambiguous: it matches "@ + crate::text::joined(
                crate::text::views(matched),
                ", "@,
            ),
        )
    }
}

/// Whether `id` begins with `prefix`.
pub fn starts_with(id: &str, prefix: &str) -> (r: bool)
    ensures
        r == begins(id@, prefix@),
{
    let n: usize = prefix.unicode_len();
    if n > id.unicode_len() {
        return false;
    }
    let head: &str = id.substring_char(0, n);
    proof {
        assert(head@ =~= id@.take(n as int));
    }
    crate::text::same(head, prefix)
}

/// The one run whose id begins with `prefix`. Any unambiguous prefix addresses
/// a run; an ambiguous one is refused naming every run it matches, and the
/// empty one is refused before that.
pub fn resolve_run(runs: &Vec<String>, prefix: &str) -> (r: Result<String, Fault>)
    ensures
        is_addressed(runs@, prefix@, r),
{
    if prefix.unicode_len() == 0 {
        return Err(
            Fault::Validation(
                "--run takes a run id or a leading part of one, and was given nothing. Every run begins with the empty prefix, so it addresses no run in particular; `sima runs <store-dir>` lists what the store holds.".to_owned(),
            ),
        );
    }
    let mut matched: Vec<String> = Vec::new();
    let mut i: usize = 0;
    proof {
        assert(runs@.take(0) =~= Seq::<String>::empty());
        assert(matched@ =~= Seq::<String>::empty());
    }
    while i < runs.len()
        invariant
            i <= runs@.len(),
            matched@ == matching(runs@.take(i as int), prefix@),
        decreases runs@.len() - i,
    {
        proof {
            assert(runs@.take(i + 1).drop_last() =~= runs@.take(i as int));
        }
        if starts_with(runs[i].as_str(), prefix) {
            matched.push(runs[i].clone());
        }
        i = i + 1;
    }
    proof {
        assert(runs@.take(runs@.len() as int) =~= runs@);
    }
    if matched.len() == 0 {
        return Err(Fault::Validation(cat("no run in this store matches prefix ", prefix)));
    }
    if matched.len() == 1 {
        return Ok(matched[0].clone());
    }
    let listed: String = join(&matched, ", ");
    let mut out: String = cat3("prefix ", prefix, " is ambiguous: it matches ");
    out.append(listed.as_str());
    Err(Fault::Validation(out))
}

/// What is addressed is a run of the store, it begins with the prefix, and no
/// other place of the store holds one that does.
pub proof fn what_is_addressed_is_the_only_match(
    runs: Seq<String>,
    prefix: Seq<char>,
    r: Result<String, Fault>,
)
    requires
        is_addressed(runs, prefix, r),
    ensures
        r matches Ok(run) ==> exists|at: int|
            {
                &&& 0 <= at < runs.len()
                &&& #[trigger] runs[at] == run
                &&& begins(run@, prefix)
                &&& forall|i: int|
                    0 <= i < runs.len() && i != at ==> !begins((#[trigger] runs[i])@, prefix)
            },
        prefix.len() == 0 ==> r is Err,
{
    if r is Ok {
        lemma_one_match(runs, prefix);
    }
}

proof fn lemma_no_match(runs: Seq<String>, prefix: Seq<char>)
    requires
        matching(runs, prefix).len() == 0,
    ensures
        forall|i: int| 0 <= i < runs.len() ==> !begins((#[trigger] runs[i])@, prefix),
    decreases runs.len(),
{
    if runs.len() > 0 {
        let fewer = runs.drop_last();
        lemma_no_match(fewer, prefix);
        assert forall|i: int| 0 <= i < runs.len() implies !begins((#[trigger] runs[i])@, prefix) by {
            if i < fewer.len() {
                assert(fewer[i] == runs[i]);
            }
        }
    }
}

proof fn lemma_one_match(runs: Seq<String>, prefix: Seq<char>)
    requires
        matching(runs, prefix).len() == 1,
    ensures
        exists|at: int|
            {
                &&& 0 <= at < runs.len()
                &&& #[trigger] runs[at] == matching(runs, prefix)[0]
                &&& begins(runs[at]@, prefix)
                &&& forall|i: int|
                    0 <= i < runs.len() && i != at ==> !begins((#[trigger] runs[i])@, prefix)
            },
    decreases runs.len(),
{
    let fewer = runs.drop_last();
    if begins(runs.last()@, prefix) {
        lemma_no_match(fewer, prefix);
        let at = runs.len() - 1;
        assert forall|i: int| 0 <= i < runs.len() && i != at implies !begins(
            (#[trigger] runs[i])@,
            prefix,
        ) by {
            assert(fewer[i] == runs[i]);
        }
        assert(runs[at] == matching(runs, prefix)[0]);
    } else {
        lemma_one_match(fewer, prefix);
        let at = choose|at: int|
            {
                &&& 0 <= at < fewer.len()
                &&& #[trigger] fewer[at] == matching(fewer, prefix)[0]
                &&& begins(fewer[at]@, prefix)
                &&& forall|i: int|
                    0 <= i < fewer.len() && i != at ==> !begins((#[trigger] fewer[i])@, prefix)
            };
        assert(runs[at] == fewer[at]);
        assert forall|i: int| 0 <= i < runs.len() && i != at implies !begins(
            (#[trigger] runs[i])@,
            prefix,
        ) by {
            if i < fewer.len() {
                assert(fewer[i] == runs[i]);
            } else {
                assert(runs[i] == runs.last());
            }
        }
    }
}

} // verus!
