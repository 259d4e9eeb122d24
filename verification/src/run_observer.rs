//! Following a run's journal while another process drives it.
//!
//! An observer reads on from where it last consumed. It never takes the run's
//! lock and never writes the store; the caller decides how often it polls.
use vstd::prelude::*;

use crate::fault::Fault;
use crate::runs::check_store;

verus! {

/// How far an observer has consumed a run's journal.
#[derive(Debug, Clone, Copy, PartialEq, Eq, Structural)]
pub struct RunObserver {
    /// The journal's bytes consumed so far, which is where the next reading
    /// begins.
    pub offset: u64,
}

/// Where the next reading begins after `read`, which is what was read and where
/// that reading ended.
pub open spec fn consumed<T, E>(offset: u64, read: Result<(T, u64), E>) -> u64 {
    match read {
        Ok((_, end)) => end,
        Err(_) => offset,
    }
}

impl RunObserver {
    /// An observer over a run of the store at `root`, which is a directory or
    /// is not: one that has consumed nothing, so that its first poll returns
    /// the run's full history. A store that is not there is refused, since
    /// opening it would create it.
    pub fn new(root: &str, is_dir: bool) -> (r: Result<RunObserver, Fault>)
        ensures
            if is_dir {
                r matches Ok(observer) && observer.offset == 0
            } else {
                r matches Err(fault) && fault@ == crate::fault::Complaint::Validation(
                    crate::runs::no_store_text(root@),
                )
            },
    {
        match check_store(root, is_dir) {
            Ok(_) => Ok(RunObserver { offset: 0 }),
            Err(fault) => Err(fault),
        }
    }

    /// The records appended since the previous poll, given what was read from
    /// the observer's offset on and parsed. The region is consumed only once
    /// every line in it parsed, so a region that failed is reported again.
    pub fn poll<R, E>(&mut self, read: Result<(Vec<R>, u64), E>) -> (r: Result<Vec<R>, E>)
        ensures
            final(self).offset == consumed(old(self).offset, read),
            match read {
                Ok((records, _)) => r == Ok::<Vec<R>, E>(records),
                Err(e) => r == Err::<Vec<R>, E>(e),
            },
    {
        match read {
            Ok((records, end)) => {
                self.offset = end;
                Ok(records)
            },
            Err(e) => Err(e),
        }
    }

    /// The raw lines appended since the previous poll, given what was read from
    /// the observer's offset on. Nothing can fail past the reading, so what was
    /// read is consumed.
    pub fn poll_lines<E>(&mut self, read: Result<(Vec<String>, u64), E>) -> (r: Result<
        Vec<String>,
        E,
    >)
        ensures
            final(self).offset == consumed(old(self).offset, read),
            match read {
                Ok((lines, _)) => r == Ok::<Vec<String>, E>(lines),
                Err(e) => r == Err::<Vec<String>, E>(e),
            },
    {
        self.poll(read)
    }
}

/// The region of a journal between two places in it.
pub open spec fn region<R>(journal: Seq<R>, from: u64, to: u64) -> Seq<R> {
    journal.subrange(from as int, to as int)
}

/// What an observer returned over a number of polls, each reading from where it
/// stood to `ends[i]` or failing there.
pub open spec fn returned<R>(journal: Seq<R>, ends: Seq<Option<u64>>) -> (Seq<R>, u64)
    decreases ends.len(),
{
    if ends.len() == 0 {
        (Seq::empty(), 0)
    } else {
        let (so_far, offset) = returned(journal, ends.drop_last());
        let read: Result<(Seq<R>, u64), ()> = match ends.last() {
            Some(end) => Ok((region(journal, offset, end), end)),
            None => Err(()),
        };
        let records = match read {
            Ok((records, _)) => records,
            Err(_) => Seq::empty(),
        };
        (so_far + records, consumed(offset, read))
    }
}

/// Whether each poll reads on from the one before, within the journal.
pub open spec fn reads_on<R>(journal: Seq<R>, ends: Seq<Option<u64>>) -> bool {
    forall|i: int|
        0 <= i < ends.len() ==> ((#[trigger] ends[i]) matches Some(end) ==> returned(
            journal,
            ends.take(i),
        ).1 <= end <= journal.len())
}

/// Polls return the journal once each and in order: whatever polls failed on
/// the way, what was returned is the journal up to where the observer stands,
/// nothing left out and nothing twice.
pub proof fn polls_return_the_journal_in_order<R>(journal: Seq<R>, ends: Seq<Option<u64>>)
    requires
        reads_on(journal, ends),
    ensures
        returned(journal, ends).1 <= journal.len(),
        returned(journal, ends).0 == journal.take(returned(journal, ends).1 as int),
    decreases ends.len(),
{
    if ends.len() == 0 {
        assert(journal.take(0) =~= Seq::<R>::empty());
    } else {
        let fewer = ends.drop_last();
        assert(reads_on(journal, fewer)) by {
            assert forall|i: int| 0 <= i < fewer.len() implies ((
            #[trigger] fewer[i]) matches Some(end) ==> returned(journal, fewer.take(i)).1 <= end
                <= journal.len()) by {
                assert(fewer[i] == ends[i]);
                assert(fewer.take(i) =~= ends.take(i));
            }
        }
        polls_return_the_journal_in_order(journal, fewer);
        let last = ends.len() - 1;
        assert(ends.take(last) =~= fewer);
        assert(ends[last] == ends.last());
        match ends.last() {
            Some(end) => {
                let offset = returned(journal, fewer).1;
                assert(journal.take(offset as int) + region(journal, offset, end) =~= journal.take(
                    end as int,
                ));
            },
            None => {
                let so_far = returned(journal, fewer).0;
                assert(so_far + Seq::<R>::empty() =~= so_far);
            },
        }
    }
}

} // verus!
