//! The objects a push sends: identity components, plus each chain's frontier
//! state.
//!
//! A push sends every record of its key set, since a chain is traversable
//! forward only. The state bytes behind the records are what is worth not
//! sending: the far side reads the last state of each chain and nothing else.
//! A state some record continues from is behind the frontier, and one nothing
//! continues from is the frontier, so the set follows from the records alone.
use vstd::prelude::*;
use vstd::string::*;

use crate::ordered::TextMap;
use crate::text::same;

verus! {

/// One thing a task left behind.
#[derive(Debug, Clone, PartialEq, Eq)]
pub struct Artifact {
    /// What it is.
    pub name: String,
    /// The digest of the object holding it.
    pub object: String,
}

/// What a store records of a committed task. Digests are in lower-case
/// hexadecimal, so they are ordered as their bytes are.
#[derive(Debug, Clone, PartialEq, Eq)]
pub struct TaskRecord {
    /// The object of the task's specification.
    pub spec_object: String,
    /// The object of its parameters.
    pub params: String,
    /// The object of its environment.
    pub environment: String,
    /// The state it continued from, where it continued from one.
    pub input_state: Option<String>,
    /// What it left behind.
    pub artifacts: Vec<Artifact>,
}

/// Whether the record names `digest` as one of its identity components.
pub open spec fn has_component(record: TaskRecord, digest: Seq<char>) -> bool {
    digest == record.spec_object@ || digest == record.params@ || digest == record.environment@
}

/// Whether the record continues from the state `digest`.
pub open spec fn continues_from(record: TaskRecord, digest: Seq<char>) -> bool {
    record.input_state matches Some(input) && input@ == digest
}

/// Whether the record left `digest` behind as an artifact of the name `state`.
pub open spec fn leaves(record: TaskRecord, state: Seq<char>, digest: Seq<char>) -> bool {
    exists|k: int| 0 <= k < record.artifacts@.len() && leaves_at(record, state, digest, k)
}

/// Whether the artifact at `k` is `digest`, of the name `state`.
pub open spec fn leaves_at(
    record: TaskRecord,
    state: Seq<char>,
    digest: Seq<char>,
    k: int,
) -> bool {
    record.artifacts@[k].name@ == state && record.artifacts@[k].object@ == digest
}

/// Whether some record has `digest` as an identity component.
pub open spec fn is_component(records: Seq<Option<TaskRecord>>, digest: Seq<char>) -> bool {
    exists|i: int|
        0 <= i < records.len() && ((#[trigger] records[i]) matches Some(record) && has_component(
            record,
            digest,
        ))
}

/// Whether some record continues from `digest`.
pub open spec fn is_consumed(records: Seq<Option<TaskRecord>>, digest: Seq<char>) -> bool {
    exists|i: int|
        0 <= i < records.len() && ((#[trigger] records[i]) matches Some(record) && continues_from(
            record,
            digest,
        ))
}

/// Whether some record left the state `digest`.
pub open spec fn is_state(
    records: Seq<Option<TaskRecord>>,
    state: Seq<char>,
    digest: Seq<char>,
) -> bool {
    exists|i: int|
        0 <= i < records.len() && ((#[trigger] records[i]) matches Some(record) && leaves(
            record,
            state,
            digest,
        ))
}

/// Whether a push of `records` names `digest`: an identity component, or a
/// state that no record continues from.
pub open spec fn is_named(
    records: Seq<Option<TaskRecord>>,
    state: Seq<char>,
    digest: Seq<char>,
) -> bool {
    is_component(records, digest) || (is_state(records, state, digest) && !is_consumed(
        records,
        digest,
    ))
}

proof fn lemma_one_more(records: Seq<Option<TaskRecord>>, i: int, state: Seq<char>)
    requires
        0 <= i < records.len(),
    ensures
        forall|digest: Seq<char>| #[trigger]
            is_component(records.take(i + 1), digest) == (is_component(records.take(i), digest) || (
            records[i] matches Some(record) && has_component(record, digest))),
        forall|digest: Seq<char>| #[trigger]
            is_consumed(records.take(i + 1), digest) == (is_consumed(records.take(i), digest) || (
            records[i] matches Some(record) && continues_from(record, digest))),
        forall|digest: Seq<char>| #[trigger]
            is_state(records.take(i + 1), state, digest) == (is_state(
                records.take(i),
                state,
                digest,
            ) || (records[i] matches Some(record) && leaves(record, state, digest))),
{
    let now = records.take(i + 1);
    let was = records.take(i);
    assert(now[i] == records[i]);
    assert forall|k: int| 0 <= k < i implies now[k] == #[trigger] was[k] by {}
    assert forall|digest: Seq<char>| #[trigger] is_component(now, digest) == (is_component(
        was,
        digest,
    ) || (records[i] matches Some(record) && has_component(record, digest))) by {
        if is_component(now, digest) {
            let k = choose|k: int|
                0 <= k < now.len() && ((#[trigger] now[k]) matches Some(record) && has_component(
                    record,
                    digest,
                ));
            if k < i {
                assert(was[k] == now[k]);
            }
        }
        if is_component(was, digest) {
            let k = choose|k: int|
                0 <= k < was.len() && ((#[trigger] was[k]) matches Some(record) && has_component(
                    record,
                    digest,
                ));
            assert(was[k] == now[k]);
        }
    }
    assert forall|digest: Seq<char>| #[trigger] is_consumed(now, digest) == (is_consumed(
        was,
        digest,
    ) || (records[i] matches Some(record) && continues_from(record, digest))) by {
        if is_consumed(now, digest) {
            let k = choose|k: int|
                0 <= k < now.len() && ((#[trigger] now[k]) matches Some(record) && continues_from(
                    record,
                    digest,
                ));
            if k < i {
                assert(was[k] == now[k]);
            }
        }
        if is_consumed(was, digest) {
            let k = choose|k: int|
                0 <= k < was.len() && ((#[trigger] was[k]) matches Some(record) && continues_from(
                    record,
                    digest,
                ));
            assert(was[k] == now[k]);
        }
    }
    assert forall|digest: Seq<char>| #[trigger] is_state(now, state, digest) == (is_state(
        was,
        state,
        digest,
    ) || (records[i] matches Some(record) && leaves(record, state, digest))) by {
        if is_state(now, state, digest) {
            let k = choose|k: int|
                0 <= k < now.len() && ((#[trigger] now[k]) matches Some(record) && leaves(
                    record,
                    state,
                    digest,
                ));
            if k < i {
                assert(was[k] == now[k]);
            }
        }
        if is_state(was, state, digest) {
            let k = choose|k: int|
                0 <= k < was.len() && ((#[trigger] was[k]) matches Some(record) && leaves(
                    record,
                    state,
                    digest,
                ));
            assert(was[k] == now[k]);
        }
    }
}

/// Puts the states `record` left into `states`.
fn gather_states(record: &TaskRecord, state: &str, states: &mut TextMap<bool>)
    requires
        old(states).wf(),
    ensures
        final(states).wf(),
        forall|digest: Seq<char>| #[trigger]
            final(states)@.dom().contains(digest) == (old(states)@.dom().contains(digest) || leaves(
                *record,
                state@,
                digest,
            )),
{
    let ghost was = states@.dom();
    let mut k: usize = 0;
    while k < record.artifacts.len()
        invariant
            states.wf(),
            k <= record.artifacts@.len(),
            forall|digest: Seq<char>| #[trigger]
                states@.dom().contains(digest) == (was.contains(digest) || exists|j: int|
                    0 <= j < k && #[trigger] leaves_at(*record, state@, digest, j)),
        decreases record.artifacts@.len() - k,
    {
        let artifact: &Artifact = &record.artifacts[k];
        let ghost before = states@.dom();
        if same(artifact.name.as_str(), state) {
            states.insert(artifact.object.clone(), true);
            proof {
                assert(leaves_at(*record, state@, artifact.object@, k as int));
            }
        }
        proof {
            assert forall|digest: Seq<char>| #[trigger]
                states@.dom().contains(digest) == (was.contains(digest) || exists|j: int|
                    0 <= j < k + 1 && #[trigger] leaves_at(*record, state@, digest, j)) by {
                assert(before.contains(digest) == (was.contains(digest) || exists|j: int|
                    0 <= j < k && #[trigger] leaves_at(*record, state@, digest, j)));
                if exists|j: int|
                    0 <= j < k + 1 && #[trigger] leaves_at(*record, state@, digest, j) {
                    let j = choose|j: int|
                        0 <= j < k + 1 && #[trigger] leaves_at(*record, state@, digest, j);
                    if j == k {
                        assert(digest == artifact.object@);
                    }
                }
            }
        }
        k = k + 1;
    }
}

/// The objects a push of `records` advertises: every record's identity
/// components, plus each artifact of the name `state` that no record continues
/// from. A key the store does not answer stands as nothing and contributes
/// nothing. The result is in order and names nothing twice.
pub fn push_objects(records: &Vec<Option<TaskRecord>>, state: &str) -> (named: Vec<String>)
    ensures
        crate::ordered::ascending(crate::text::views(named@)),
        forall|digest: Seq<char>| #[trigger]
            crate::text::views(named@).contains(digest) == is_named(records@, state@, digest),
{
    let mut named: TextMap<bool> = TextMap::new();
    let mut consumed: TextMap<bool> = TextMap::new();
    let mut states: TextMap<bool> = TextMap::new();
    let mut i: usize = 0;
    while i < records.len()
        invariant
            named.wf(),
            consumed.wf(),
            states.wf(),
            i <= records@.len(),
            forall|digest: Seq<char>| #[trigger]
                named@.dom().contains(digest) == is_component(records@.take(i as int), digest),
            forall|digest: Seq<char>| #[trigger]
                consumed@.dom().contains(digest) == is_consumed(records@.take(i as int), digest),
            forall|digest: Seq<char>| #[trigger]
                states@.dom().contains(digest) == is_state(
                    records@.take(i as int),
                    state@,
                    digest,
                ),
        decreases records@.len() - i,
    {
        proof {
            lemma_one_more(records@, i as int, state@);
        }
        match &records[i] {
            None => {},
            Some(record) => {
                named.insert(record.spec_object.clone(), true);
                named.insert(record.params.clone(), true);
                named.insert(record.environment.clone(), true);
                match &record.input_state {
                    None => {},
                    Some(input) => {
                        consumed.insert(input.clone(), true);
                    },
                }
                gather_states(record, state, &mut states);
            },
        }
        i = i + 1;
    }
    proof {
        assert(records@.take(records@.len() as int) =~= records@);
    }
    let ghost components = named@.dom();
    let mut k: usize = 0;
    while k < states.pairs.len()
        invariant
            named.wf(),
            consumed.wf(),
            states.wf(),
            k <= states.pairs@.len(),
            forall|digest: Seq<char>| #[trigger]
                named@.dom().contains(digest) == (components.contains(digest) || (
                !consumed@.dom().contains(digest) && exists|j: int|
                    0 <= j < k && (#[trigger] states.pairs@[j]).0@ == digest)),
        decreases states.pairs@.len() - k,
    {
        let digest: &String = &states.pairs[k].0;
        let ghost before = named@.dom();
        if !consumed.contains(digest.as_str()) {
            named.insert(digest.clone(), true);
        }
        proof {
            assert forall|d: Seq<char>| #[trigger]
                named@.dom().contains(d) == (components.contains(d) || (!consumed@.dom().contains(d)
                    && exists|j: int| 0 <= j < k + 1 && (#[trigger] states.pairs@[j]).0@ == d)) by {
                assert(before.contains(d) == (components.contains(d) || (
                !consumed@.dom().contains(d) && exists|j: int|
                    0 <= j < k && (#[trigger] states.pairs@[j]).0@ == d)));
                if d == digest@ {
                    assert(states.pairs@[k as int].0@ == d);
                } else if exists|j: int|
                    0 <= j < k + 1 && (#[trigger] states.pairs@[j]).0@ == d {
                    let j = choose|j: int|
                        0 <= j < k + 1 && (#[trigger] states.pairs@[j]).0@ == d;
                    assert(j < k);
                }
            }
        }
        k = k + 1;
    }
    proof {
        assert forall|d: Seq<char>| #[trigger] named@.dom().contains(d) == is_named(
            records@,
            state@,
            d,
        ) by {
            assert(states@.dom().contains(d) == states.has(d));
            assert(components.contains(d) == is_component(records@, d));
            assert(states@.dom().contains(d) == is_state(records@, state@, d));
            assert(consumed@.dom().contains(d) == is_consumed(records@, d));
        }
    }
    keys(named)
}

/// The keys of a map, in order.
fn keys(map: TextMap<bool>) -> (out: Vec<String>)
    requires
        map.wf(),
    ensures
        crate::ordered::ascending(crate::text::views(out@)),
        forall|key: Seq<char>| #[trigger]
            crate::text::views(out@).contains(key) == map@.dom().contains(key),
{
    let mut out: Vec<String> = Vec::new();
    let mut i: usize = 0;
    while i < map.pairs.len()
        invariant
            i <= map.pairs@.len(),
            out@.len() == i,
            forall|k: int| 0 <= k < i ==> (#[trigger] out@[k])@ == map.pairs@[k].0@,
        decreases map.pairs@.len() - i,
    {
        out.push(map.pairs[i].0.clone());
        i = i + 1;
    }
    proof {
        let texts = crate::text::views(out@);
        assert(texts =~= crate::ordered::keys_of(map.pairs@));
        assert forall|key: Seq<char>| #[trigger] texts.contains(key) == map@.dom().contains(key) by {
            assert(map@.dom().contains(key) == map.has(key));
            if texts.contains(key) {
                let k = choose|k: int| 0 <= k < texts.len() && texts[k] == key;
                assert(map.pairs@[k].0@ == key);
            }
            if map.has(key) {
                let k = map.place(key);
                assert(texts[k] == key);
            }
        }
    }
    out
}

/// One set of records names one list of objects, whatever order the records
/// were read in and however often.
pub proof fn one_store_names_one_list(
    a: Seq<Option<TaskRecord>>,
    b: Seq<Option<TaskRecord>>,
    state: Seq<char>,
    named_a: Seq<Seq<char>>,
    named_b: Seq<Seq<char>>,
)
    requires
        a.to_set() == b.to_set(),
        crate::ordered::ascending(named_a),
        crate::ordered::ascending(named_b),
        forall|digest: Seq<char>| #[trigger]
            named_a.contains(digest) == is_named(a, state, digest),
        forall|digest: Seq<char>| #[trigger]
            named_b.contains(digest) == is_named(b, state, digest),
    ensures
        named_a == named_b,
{
    assert forall|digest: Seq<char>| named_a.contains(digest) == named_b.contains(digest) by {
        lemma_named_by_members(a, b, state, digest);
        lemma_named_by_members(b, a, state, digest);
    }
    assert(named_a.to_set() =~= named_b.to_set());
    crate::ordered::ascending_is_canonical(named_a, named_b);
}

proof fn lemma_named_by_members(
    a: Seq<Option<TaskRecord>>,
    b: Seq<Option<TaskRecord>>,
    state: Seq<char>,
    digest: Seq<char>,
)
    requires
        a.to_set() == b.to_set(),
    ensures
        is_component(a, digest) ==> is_component(b, digest),
        is_consumed(a, digest) ==> is_consumed(b, digest),
        is_state(a, state, digest) ==> is_state(b, state, digest),
{
    assert forall|i: int| 0 <= i < a.len() implies b.contains(#[trigger] a[i]) by {
        assert(a.to_set().contains(a[i]));
        assert(b.to_set().contains(a[i]));
    }
    if is_component(a, digest) {
        let i = choose|i: int|
            0 <= i < a.len() && ((#[trigger] a[i]) matches Some(record) && has_component(
                record,
                digest,
            ));
        let k = choose|k: int| 0 <= k < b.len() && b[k] == a[i];
        assert(b[k] == a[i]);
    }
    if is_consumed(a, digest) {
        let i = choose|i: int|
            0 <= i < a.len() && ((#[trigger] a[i]) matches Some(record) && continues_from(
                record,
                digest,
            ));
        let k = choose|k: int| 0 <= k < b.len() && b[k] == a[i];
        assert(b[k] == a[i]);
    }
    if is_state(a, state, digest) {
        let i = choose|i: int|
            0 <= i < a.len() && ((#[trigger] a[i]) matches Some(record) && leaves(
                record,
                state,
                digest,
            ));
        let k = choose|k: int| 0 <= k < b.len() && b[k] == a[i];
        assert(b[k] == a[i]);
    }
}

/// A state that some record of the set continues from is not sent, unless it is
/// also an identity component; the frontier, which none continues from, is.
pub proof fn only_a_frontier_is_sent(
    records: Seq<Option<TaskRecord>>,
    state: Seq<char>,
    digest: Seq<char>,
)
    requires
        is_state(records, state, digest),
        !is_component(records, digest),
    ensures
        is_named(records, state, digest) <==> !is_consumed(records, digest),
{
}

/// Every record is sent with the objects it is told by, its specification, its
/// parameters, and its environment, and with each state it left that no record
/// continues from.
pub proof fn every_record_is_sent_with_what_tells_it(
    records: Seq<Option<TaskRecord>>,
    state: Seq<char>,
    i: int,
    k: int,
)
    requires
        0 <= i < records.len(),
        records[i] is Some,
    ensures
        is_named(records, state, records[i]->0.spec_object@),
        is_named(records, state, records[i]->0.params@),
        is_named(records, state, records[i]->0.environment@),
        ({
            let artifacts = records[i]->0.artifacts@;
            0 <= k < artifacts.len() && artifacts[k].name@ == state && (forall|j: int|
                0 <= j < records.len() && (#[trigger] records[j]) is Some ==> !(
                records[j]->0.input_state matches Some(input) && input@ == artifacts[k].object@))
                ==> is_named(records, state, artifacts[k].object@)
        }),
{
    let record = records[i]->0;
    assert(has_component(record, record.spec_object@));
    assert(has_component(record, record.params@));
    assert(has_component(record, record.environment@));
    if 0 <= k < record.artifacts@.len() && record.artifacts@[k].name@ == state {
        assert(leaves_at(record, state, record.artifacts@[k].object@, k));
        assert(leaves(record, state, record.artifacts@[k].object@));
    }
}

/// Nothing is sent that no record names: what is sent tells some record, or is a
/// state that some record left.
pub proof fn nothing_is_sent_that_no_record_names(
    records: Seq<Option<TaskRecord>>,
    state: Seq<char>,
    digest: Seq<char>,
)
    requires
        is_named(records, state, digest),
    ensures
        exists|i: int|
            0 <= i < records.len() && ((#[trigger] records[i]) matches Some(record) && (digest
                == record.spec_object@ || digest == record.params@ || digest == record.environment@
                || exists|k: int|
                0 <= k < record.artifacts@.len() && (#[trigger] record.artifacts@[k]).name@ == state
                    && record.artifacts@[k].object@ == digest)),
{
    if is_component(records, digest) {
        let i = choose|i: int|
            0 <= i < records.len() && ((#[trigger] records[i]) matches Some(record)
                && has_component(record, digest));
        assert(records[i] is Some);
    } else {
        let i = choose|i: int|
            0 <= i < records.len() && ((#[trigger] records[i]) matches Some(record) && leaves(
                record,
                state,
                digest,
            ));
        let record = records[i]->0;
        let k = choose|k: int|
            0 <= k < record.artifacts@.len() && leaves_at(record, state, digest, k);
        assert(record.artifacts@[k].name@ == state);
    }
}

} // verus!
