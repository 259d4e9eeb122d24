//! Each committed task's stats, from a run's lifecycle events.
use vstd::prelude::*;
use vstd::string::*;

use crate::fault::Fault;
use crate::ordered::TextMap;
use crate::runs::starts_with;
use crate::text::{cat, cat3, decimal, join, same};

verus! {

/// One reported task: its journaled key and its rendered stats line.
#[derive(Debug, Clone, PartialEq, Eq)]
pub struct ReportRow {
    /// The committed task's key, as journaled.
    pub task: String,
    /// The task's stats rendered into one line.
    pub stats: String,
}

/// A named figure, its value as it is written.
#[derive(Debug, Clone, PartialEq, Eq)]
pub struct StatScalar {
    /// What it is.
    pub name: String,
    /// Its value.
    pub value: String,
}

/// What a journal records, as far as a report reads it.
#[derive(Debug, Clone, PartialEq, Eq)]
pub enum Record {
    /// A task's result was committed.
    Committed { task: String, stats: Vec<StatScalar>, stats_blob_hex: String },
    /// Anything else, with the task it names where it names one.
    Other { task: Option<String> },
}

// ---- Rendering ---------------------------------------------------------------------------------

/// The words a task's stats are rendered as: one for each figure, and one for
/// the size of a blob that is not empty.
pub open spec fn stat_words(scalars: Seq<StatScalar>, blob_hex: Seq<char>) -> Seq<Seq<char>> {
    let figures = scalars.map_values(|scalar: StatScalar| scalar.name@ + "="@ + scalar.value@);
    if blob_hex.len() == 0 {
        figures
    } else {
        figures.push("blob="@ + crate::text::decimal_text(blob_hex.len() / 2) + "B"@)
    }
}

/// The line of a task's stats.
pub open spec fn stats_line(scalars: Seq<StatScalar>, blob_hex: Seq<char>) -> Seq<char> {
    crate::text::joined(stat_words(scalars, blob_hex), " "@)
}

/// Renders a task's figures and the size of its blob, which is given in
/// hexadecimal, into one line.
pub fn render_stats(scalars: &Vec<StatScalar>, blob_hex: &str) -> (out: String)
    ensures
        out@ == stats_line(scalars@, blob_hex@),
{
    let ghost figures = scalars@.map_values(
        |scalar: StatScalar| scalar.name@ + "="@ + scalar.value@,
    );
    let mut list: Vec<String> = Vec::new();
    let mut i: usize = 0;
    proof {
        assert(crate::text::views(list@) =~= figures.take(0));
    }
    while i < scalars.len()
        invariant
            i <= scalars@.len(),
            figures == scalars@.map_values(
                |scalar: StatScalar| scalar.name@ + "="@ + scalar.value@,
            ),
            crate::text::views(list@) == figures.take(i as int),
        decreases scalars@.len() - i,
    {
        let ghost was = crate::text::views(list@);
        list.push(cat3(scalars[i].name.as_str(), "=", scalars[i].value.as_str()));
        proof {
            assert(crate::text::views(list@) =~= was.push(figures[i as int]));
            assert(figures.take(i + 1) =~= figures.take(i as int).push(figures[i as int]));
        }
        i = i + 1;
    }
    proof {
        assert(figures.take(figures.len() as int) =~= figures);
    }
    let digits: usize = blob_hex.unicode_len();
    if digits > 0 {
        let ghost was = crate::text::views(list@);
        let size: String = decimal((digits / 2) as u64);
        list.push(cat3("blob=", size.as_str(), "B"));
        proof {
            assert(crate::text::views(list@) =~= stat_words(scalars@, blob_hex@));
        }
    }
    join(&list, " ")
}

// ---- The fold ----------------------------------------------------------------------------------

/// The stats line of each task, from its last commit: a resumed segment
/// journals prior commits again, and the last one stands.
pub open spec fn committed_lines(records: Seq<Record>) -> Map<Seq<char>, Seq<char>>
    decreases records.len(),
{
    if records.len() == 0 {
        Map::empty()
    } else {
        let before = committed_lines(records.drop_last());
        match records.last() {
            Record::Committed { task, stats, stats_blob_hex } => before.insert(
                task@,
                stats_line(stats@, stats_blob_hex@),
            ),
            Record::Other { .. } => before,
        }
    }
}

/// The texts of a map's values.
pub open spec fn lines_in(map: Map<Seq<char>, String>) -> Map<Seq<char>, Seq<char>> {
    Map::new(|key: Seq<char>| map.dom().contains(key), |key: Seq<char>| map[key]@)
}

/// The latest committed stats of each task, in the order of the task keys.
pub fn committed_stats(records: &Vec<Record>) -> (latest: TextMap<String>)
    ensures
        latest.wf(),
        lines_in(latest@) == committed_lines(records@),
{
    let mut latest: TextMap<String> = TextMap::new();
    let mut i: usize = 0;
    proof {
        assert(records@.take(0) =~= Seq::<Record>::empty());
        assert(lines_in(latest@) =~= Map::<Seq<char>, Seq<char>>::empty());
    }
    while i < records.len()
        invariant
            latest.wf(),
            i <= records@.len(),
            lines_in(latest@) == committed_lines(records@.take(i as int)),
        decreases records@.len() - i,
    {
        let ghost was = latest@;
        proof {
            assert(records@.take(i + 1).drop_last() =~= records@.take(i as int));
        }
        match &records[i] {
            Record::Committed { task, stats, stats_blob_hex } => {
                let line: String = render_stats(stats, stats_blob_hex.as_str());
                let ghost text = line@;
                latest.insert(task.clone(), line);
                proof {
                    assert(lines_in(latest@) =~= lines_in(was).insert(task@, text));
                }
            },
            Record::Other { .. } => {},
        }
        i = i + 1;
    }
    proof {
        assert(records@.take(records@.len() as int) =~= records@);
    }
    latest
}

/// Whether `rows` is the report of `lines`: one row for each task, in the order
/// of the task keys, with that task's line.
pub open spec fn is_report(rows: Seq<ReportRow>, lines: Map<Seq<char>, Seq<char>>) -> bool {
    &&& crate::ordered::ascending(row_tasks(rows))
    &&& forall|task: Seq<char>| #[trigger]
        row_tasks(rows).contains(task) == lines.dom().contains(task)
    &&& forall|i: int| 0 <= i < rows.len() ==> (#[trigger] rows[i]).stats@ == lines[rows[i].task@]
}

/// The task keys of rows.
pub open spec fn row_tasks(rows: Seq<ReportRow>) -> Seq<Seq<char>> {
    rows.map_values(|row: ReportRow| row.task@)
}

/// Renders each committed task's stats from a run's records, in the order they
/// were appended. Rows are in the order of the task keys.
pub fn report_records(records: &Vec<Record>) -> (rows: Vec<ReportRow>)
    ensures
        is_report(rows@, committed_lines(records@)),
{
    let latest: TextMap<String> = committed_stats(records);
    let ghost lines = committed_lines(records@);
    let mut rows: Vec<ReportRow> = Vec::new();
    let mut i: usize = 0;
    while i < latest.pairs.len()
        invariant
            i <= latest.pairs@.len(),
            rows@.len() == i,
            forall|k: int|
                0 <= k < i ==> (#[trigger] rows@[k]).task == latest.pairs@[k].0 && rows@[k].stats
                    == latest.pairs@[k].1,
        decreases latest.pairs@.len() - i,
    {
        rows.push(ReportRow { task: latest.pairs[i].0.clone(), stats: latest.pairs[i].1.clone() });
        i = i + 1;
    }
    proof {
        let tasks = row_tasks(rows@);
        assert(tasks =~= crate::ordered::keys_of(latest.pairs@));
        assert forall|task: Seq<char>| #[trigger] tasks.contains(task) == lines.dom().contains(
            task,
        ) by {
            assert(lines.dom().contains(task) == lines_in(latest@).dom().contains(task));
            assert(latest@.dom().contains(task) == latest.has(task));
            if tasks.contains(task) {
                let k = choose|k: int| 0 <= k < tasks.len() && tasks[k] == task;
                assert(latest.pairs@[k].0@ == task);
            }
            if latest.has(task) {
                let k = latest.place(task);
                assert(tasks[k] == task);
            }
        }
        assert forall|k: int| 0 <= k < rows@.len() implies (#[trigger] rows@[k]).stats@
            == lines[rows@[k].task@] by {
            latest.place_is_unique(k);
            let task = rows@[k].task@;
            assert(latest@[task] == latest.pairs@[k].1);
            assert(lines_in(latest@)[task] == latest@[task]@);
        }
    }
    rows
}

/// What a task without a committed result is refused with.
pub open spec fn uncommitted_text(task: Seq<char>) -> Seq<char> {
    "task "@ + task + " has no committed result"@
}

// ---- Addressing a task -------------------------------------------------------------------------

/// The task a record names, where it names one.
pub open spec fn task_in(record: Record) -> Option<Seq<char>> {
    match record {
        Record::Committed { task, .. } => Some(task@),
        Record::Other { task: Some(task) } => Some(task@),
        Record::Other { task: None } => None,
    }
}

/// Whether some record names the task.
pub open spec fn names(records: Seq<Record>, task: Seq<char>) -> bool {
    exists|i: int| 0 <= i < records.len() && task_in(#[trigger] records[i]) == Some(task)
}

/// Whether `prefix` addresses the task: it is not empty, and the task is the one
/// among those the records name that begins with it.
pub open spec fn addresses(records: Seq<Record>, prefix: Seq<char>, task: Seq<char>) -> bool {
    &&& prefix.len() > 0
    &&& names(records, task)
    &&& crate::runs::begins(task, prefix)
    &&& forall|i: int|
        0 <= i < records.len() ==> (task_in(#[trigger] records[i]) matches Some(other)
            ==> crate::runs::begins(other, prefix) ==> other == task)
}

/// The task a record names.
fn named(record: &Record) -> (r: Option<&String>)
    ensures
        match task_in(*record) {
            Some(text) => r matches Some(task) && task@ == text,
            None => r is None,
        },
{
    match record {
        Record::Committed { task, .. } => Some(task),
        Record::Other { task } => match task {
            Some(task) => Some(task),
            None => None,
        },
    }
}

/// The one task of a run's records whose key begins with `prefix`. Where none
/// does, or more than one, the prefix is refused, and so is the empty one, with
/// which every key begins.
pub fn resolve_task(records: &Vec<Record>, prefix: &str) -> (r: Result<String, Fault>)
    ensures
        match r {
            Ok(task) => addresses(records@, prefix@, task@),
            Err(fault) => fault is Validation && forall|task: Seq<char>|
                !addresses(records@, prefix@, task),
        },
{
    if prefix.unicode_len() == 0 {
        return Err(Fault::Validation("the empty prefix addresses no task".to_owned()));
    }
    let mut found: Option<String> = None;
    let mut i: usize = 0;
    while i < records.len()
        invariant
            i <= records@.len(),
            prefix@.len() > 0,
            match found {
                None => forall|k: int|
                    0 <= k < i ==> (task_in(#[trigger] records@[k]) matches Some(other)
                        ==> !crate::runs::begins(other, prefix@)),
                Some(task) => names(records@, task@) && crate::runs::begins(task@, prefix@)
                    && forall|k: int|
                    0 <= k < i ==> (task_in(#[trigger] records@[k]) matches Some(other)
                        ==> crate::runs::begins(other, prefix@) ==> other == task@),
            },
        decreases records@.len() - i,
    {
        match named(&records[i]) {
            None => {},
            Some(task) => {
                if starts_with(task.as_str(), prefix) {
                    let known: bool = match &found {
                        None => false,
                        Some(first) => {
                            if !same(first.as_str(), task.as_str()) {
                                proof {
                                    lemma_two_address_none(
                                        records@,
                                        prefix@,
                                        first@,
                                        i as int,
                                    );
                                }
                                return Err(
                                    Fault::Validation(
                                        cat3(
                                            "prefix ",
                                            prefix,
                                            " is ambiguous: more than one task begins with it",
                                        ),
                                    ),
                                );
                            }
                            true
                        },
                    };
                    if !known {
                        found = Some(task.clone());
                        proof {
                            assert(task_in(records@[i as int]) == Some(task@));
                        }
                    }
                }
            },
        }
        i = i + 1;
    }
    match found {
        Some(task) => Ok(task),
        None => {
            proof {
                assert forall|task: Seq<char>| !addresses(records@, prefix@, task) by {
                    if names(records@, task) {
                        let k = choose|k: int|
                            0 <= k < records@.len() && task_in(#[trigger] records@[k]) == Some(
                                task,
                            );
                        assert(!crate::runs::begins(task, prefix@));
                    }
                }
            }
            Err(Fault::Validation(cat("no task of this run matches prefix ", prefix)))
        },
    }
}

proof fn lemma_two_address_none(records: Seq<Record>, prefix: Seq<char>, first: Seq<char>, i: int)
    requires
        0 <= i < records.len(),
        names(records, first),
        crate::runs::begins(first, prefix),
        task_in(records[i]) matches Some(other) && other != first && crate::runs::begins(
            other,
            prefix,
        ),
    ensures
        forall|task: Seq<char>| !addresses(records, prefix, task),
{
    let k = choose|k: int| 0 <= k < records.len() && task_in(#[trigger] records[k]) == Some(first);
    assert forall|task: Seq<char>| !addresses(records, prefix, task) by {
        if addresses(records, prefix, task) {
            assert(task_in(records[k]) == Some(first));
            assert(first == task);
            assert(task_in(records[i])->0 == task);
        }
    }
}

/// A prefix addresses one task at most.
pub proof fn a_prefix_addresses_one_task(
    records: Seq<Record>,
    prefix: Seq<char>,
    a: Seq<char>,
    b: Seq<char>,
)
    requires
        addresses(records, prefix, a),
        addresses(records, prefix, b),
    ensures
        a == b,
{
    let k = choose|k: int| 0 <= k < records.len() && task_in(#[trigger] records[k]) == Some(a);
    assert(task_in(records[k]) == Some(a));
}

/// Renders one committed task's stats from a run's records, addressed by a
/// leading part of its key.
pub fn report_task_records(records: &Vec<Record>, prefix: &str) -> (r: Result<ReportRow, Fault>)
    ensures
        forall|task: Seq<char>| #[trigger]
            addresses(records@, prefix@, task) ==> if committed_lines(records@).dom().contains(
                task,
            ) {
                r matches Ok(row) && row.task@ == task && row.stats@ == committed_lines(
                    records@,
                )[task]
            } else {
                r matches Err(fault) && fault@ == crate::fault::Complaint::Validation(
                    uncommitted_text(task),
                )
            },
        (forall|task: Seq<char>| !addresses(records@, prefix@, task)) ==> (r matches Err(fault)
            && fault is Validation),
{
    let task: String = match resolve_task(records, prefix) {
        Ok(task) => task,
        Err(fault) => {
            return Err(fault);
        },
    };
    let latest: TextMap<String> = committed_stats(records);
    proof {
        assert forall|other: Seq<char>| #[trigger]
            addresses(records@, prefix@, other) implies other == task@ by {
            a_prefix_addresses_one_task(records@, prefix@, other, task@);
        }
        assert(committed_lines(records@).dom().contains(task@) == lines_in(latest@).dom().contains(
            task@,
        ));
    }
    match latest.find(task.as_str()) {
        Some(at) => {
            let stats: String = latest.pairs[at].1.clone();
            proof {
                assert(lines_in(latest@)[task@] == latest@[task@]@);
            }
            Ok(ReportRow { task, stats })
        },
        None => Err(Fault::Validation(cat3("task ", task.as_str(), " has no committed result"))),
    }
}

/// One journal has one report.
pub proof fn a_journal_has_one_report(
    a: Seq<ReportRow>,
    b: Seq<ReportRow>,
    lines: Map<Seq<char>, Seq<char>>,
)
    requires
        is_report(a, lines),
        is_report(b, lines),
    ensures
        row_tasks(a) == row_tasks(b),
        forall|i: int| 0 <= i < a.len() ==> (#[trigger] a[i]).stats@ == b[i].stats@,
{
    assert(row_tasks(a).to_set() =~= row_tasks(b).to_set()) by {
        assert forall|task: Seq<char>| row_tasks(a).contains(task) == row_tasks(b).contains(
            task,
        ) by {
            assert(row_tasks(a).contains(task) == lines.dom().contains(task));
            assert(row_tasks(b).contains(task) == lines.dom().contains(task));
        }
    }
    crate::ordered::ascending_is_canonical(row_tasks(a), row_tasks(b));
    assert forall|i: int| 0 <= i < a.len() implies (#[trigger] a[i]).stats@ == b[i].stats@ by {
        assert(row_tasks(a)[i] == row_tasks(b)[i]);
        assert(row_tasks(a)[i] == a[i].task@);
        assert(row_tasks(b)[i] == b[i].task@);
    }
}

/// A task's last commit is what is reported of it, whatever was journaled for
/// other tasks since.
pub proof fn the_last_commit_stands(
    records: Seq<Record>,
    commit: Record,
    since: Seq<Record>,
)
    requires
        commit is Committed,
        forall|i: int|
            0 <= i < since.len() ==> ((#[trigger] since[i]) matches Record::Committed {
                task,
                ..
            } ==> task@ != commit->Committed_task@),
    ensures
        ({
            let lines = committed_lines(records.push(commit) + since);
            &&& lines.dom().contains(commit->Committed_task@)
            &&& lines[commit->Committed_task@] == stats_line(commit->stats@, commit->stats_blob_hex@)
        }),
    decreases since.len(),
{
    let all = records.push(commit) + since;
    if since.len() == 0 {
        assert(all =~= records.push(commit));
        assert(records.push(commit).drop_last() =~= records);
    } else {
        let fewer = since.drop_last();
        assert forall|i: int| 0 <= i < fewer.len() implies ((
        #[trigger] fewer[i]) matches Record::Committed { task, .. } ==> task@ != commit->Committed_task@) by {
            assert(fewer[i] == since[i]);
        }
        the_last_commit_stands(records, commit, fewer);
        assert(all.drop_last() =~= records.push(commit) + fewer);
        assert(all.last() == since[since.len() - 1]);
    }
}

} // verus!
