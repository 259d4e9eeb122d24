//! Binding a session to the build that serves it.
//!
//! A rebuilt program that keeps its declarations keeps every task key and every
//! stored result, so nothing in a search's identity tells one build from the
//! next. Each session therefore journals the digest of the file that served it,
//! and a session that resumes the search compares that record with the file it
//! is about to run. A difference is the user's decision, so the search stops
//! until the invocation states an answer.
use vstd::prelude::*;
use vstd::string::*;

use crate::fault::Fault;
use crate::text::{quote, same};

verus! {

/// What an invocation does when the program serving the search's format is a
/// different build from the one that drove the search before.
#[derive(Debug, Clone, Copy, PartialEq, Eq, Structural)]
pub enum BinaryChange {
    /// A changed program stops the search.
    Refuse,
    /// A changed program drives the search, and becomes what the next session
    /// compares against.
    Accept,
}

/// What one line of a search's journal states, as far as it bears on which
/// build drove the search.
#[derive(Debug, Clone, PartialEq, Eq)]
pub enum JournalLine {
    /// A session was bound to the build with this digest.
    Bound(String),
    /// Anything else.
    Other,
    /// A torn or foreign line, which states nothing.
    Unread,
}

/// The digest the last binding in `journal` carries.
pub open spec fn last_bound(journal: Seq<JournalLine>) -> Option<String>
    decreases journal.len(),
{
    if journal.len() == 0 {
        None
    } else {
        match journal.last() {
            JournalLine::Bound(digest) => Some(digest),
            _ => last_bound(journal.drop_last()),
        }
    }
}

/// The digest the search's last recorded program binding carries, or nothing
/// for a search that recorded none.
pub fn last_digest(journal: &Vec<JournalLine>) -> (r: Option<&String>)
    ensures
        match r {
            Some(digest) => last_bound(journal@) == Some(*digest),
            None => last_bound(journal@) is None,
        },
{
    let mut n: usize = journal.len();
    proof {
        assert(journal@.take(n as int) =~= journal@);
    }
    while n > 0
        invariant
            n <= journal@.len(),
            last_bound(journal@) == last_bound(journal@.take(n as int)),
        decreases n,
    {
        proof {
            assert(journal@.take(n as int).drop_last() =~= journal@.take(n - 1));
            assert(journal@.take(n as int).last() == journal@[n - 1]);
        }
        match &journal[n - 1] {
            JournalLine::Bound(digest) => return Some(digest),
            _ => {},
        }
        n = n - 1;
    }
    None
}

/// The program serving a search's format, and the search it serves.
#[derive(Debug, Clone, PartialEq, Eq)]
pub struct Binding {
    /// The format.
    pub format: String,
    /// The program's file.
    pub binary: String,
    /// The digest of that file.
    pub digest: String,
}

/// Whether `binding` is a build other than the last one `journal` records.
pub open spec fn is_changed(journal: Seq<JournalLine>, binding: Binding) -> bool {
    last_bound(journal) matches Some(previous) && previous@ != binding.digest@
}

/// What a changed build is refused with.
pub open spec fn changed_text(binding: Binding, previous: Seq<char>) -> Seq<char> {
    "the program serving format "@ + crate::text::quoted(binding.format@)
        + " changed since this search last ran: "@ + binding.binary@ + " is now "@ + binding.digest@
        + ", the search was driven by "@ + previous
        + "; stored results and checkpoints were produced by the previous build. Pass --accept-binary to continue with the changed program."@
}

/// Whether a session of `binding` with the answer `accept` may proceed.
pub open spec fn may_proceed(
    journal: Seq<JournalLine>,
    binding: Binding,
    accept: BinaryChange,
) -> bool {
    !is_changed(journal, binding) || accept == BinaryChange::Accept
}

/// Whether `r` is what binding a session comes to: the line to append where it
/// may proceed, and the refusal of the changed build where it may not.
pub open spec fn is_bound(
    journal: Seq<JournalLine>,
    binding: Binding,
    accept: BinaryChange,
    r: Result<JournalLine, Fault>,
) -> bool {
    if may_proceed(journal, binding, accept) {
        r == Ok::<JournalLine, Fault>(JournalLine::Bound(binding.digest))
    } else {
        r matches Err(fault) && fault@ == crate::fault::Complaint::Validation(
            changed_text(binding, last_bound(journal)->0@),
        )
    }
}

/// Compares the program now serving a search's format with the build the search
/// was last driven by. A session that may proceed is given the line to append
/// to the journal, so that the next one compares against the build that
/// actually ran; one that may not is given none.
pub fn bind(journal: &Vec<JournalLine>, binding: &Binding, accept: BinaryChange) -> (r: Result<
    JournalLine,
    Fault,
>)
    ensures
        is_bound(journal@, *binding, accept, r),
{
    match last_digest(journal) {
        None => {},
        Some(previous) => {
            let unchanged: bool = same(previous.as_str(), binding.digest.as_str());
            if !unchanged && accept == BinaryChange::Refuse {
                let mut out: String = "the program serving format ".to_owned();
                let format: String = quote(binding.format.as_str());
                out.append(format.as_str());
                out.append(" changed since this search last ran: ");
                out.append(binding.binary.as_str());
                out.append(" is now ");
                out.append(binding.digest.as_str());
                out.append(", the search was driven by ");
                out.append(previous.as_str());
                out.append(
                    "; stored results and checkpoints were produced by the previous build. Pass --accept-binary to continue with the changed program.",
                );
                return Err(Fault::Validation(out));
            }
        },
    }
    Ok(JournalLine::Bound(binding.digest.clone()))
}

/// What a session leaves of a journal: the line it was given, or nothing more.
pub open spec fn journal_after(journal: Seq<JournalLine>, r: Result<JournalLine, Fault>) -> Seq<
    JournalLine,
> {
    match r {
        Ok(line) => journal.push(line),
        Err(_) => journal,
    }
}

/// A refused session records nothing, so the search is still compared with the
/// build that last drove it.
pub proof fn a_refusal_records_nothing(
    journal: Seq<JournalLine>,
    binding: Binding,
    accept: BinaryChange,
    r: Result<JournalLine, Fault>,
    next: Binding,
)
    requires
        is_bound(journal, binding, accept, r),
        !may_proceed(journal, binding, accept),
    ensures
        journal_after(journal, r) == journal,
        is_changed(journal_after(journal, r), next) == is_changed(journal, next),
{
}

/// A session that proceeded, whether or not the build had changed, is what the
/// next one is compared with: the same build is no change, and any other is.
pub proof fn a_session_is_compared_with_the_one_before(
    journal: Seq<JournalLine>,
    driven: Binding,
    accept: BinaryChange,
    r: Result<JournalLine, Fault>,
    next: Binding,
)
    requires
        is_bound(journal, driven, accept, r),
        may_proceed(journal, driven, accept),
    ensures
        is_changed(journal_after(journal, r), next) <==> next.digest@ != driven.digest@,
{
    assert(journal_after(journal, r).last() == JournalLine::Bound(driven.digest));
}

/// What is no binding changes nothing about which build drove the search.
pub proof fn other_lines_state_nothing(journal: Seq<JournalLine>, line: JournalLine)
    requires
        !(line is Bound),
    ensures
        last_bound(journal.push(line)) == last_bound(journal),
{
    assert(journal.push(line).drop_last() =~= journal);
}

/// A search that recorded no binding is bound to whatever serves it.
pub proof fn a_search_without_a_binding_accepts_any(
    journal: Seq<JournalLine>,
    binding: Binding,
    accept: BinaryChange,
)
    requires
        forall|i: int| 0 <= i < journal.len() ==> !((#[trigger] journal[i]) is Bound),
    ensures
        may_proceed(journal, binding, accept),
{
    lemma_nothing_bound(journal);
}

proof fn lemma_nothing_bound(journal: Seq<JournalLine>)
    requires
        forall|i: int| 0 <= i < journal.len() ==> !((#[trigger] journal[i]) is Bound),
    ensures
        last_bound(journal) is None,
    decreases journal.len(),
{
    if journal.len() > 0 {
        assert(!(journal[journal.len() - 1] is Bound));
        let fewer = journal.drop_last();
        assert forall|i: int| 0 <= i < fewer.len() implies !((#[trigger] fewer[i]) is Bound) by {
            assert(fewer[i] == journal[i]);
        }
        lemma_nothing_bound(fewer);
    }
}

} // verus!
