//! Text in byte order: the order of strings, and maps and sets kept in it.
//!
//! Strings order by the bytes of their UTF-8 form, first difference first. A
//! [`TextMap`] holds its keys in that order and each key once, so one content
//! always has one representation and a walk over it is already sorted.
use vstd::prelude::*;
use vstd::string::*;
use vstd::utf8::*;

verus! {

// ---- The order ------------------------------------------------------------

/// Whether the bytes `a` come before the bytes `b`: at the first place they
/// differ `a` holds the smaller byte, or `a` is a proper prefix of `b`.
pub open spec fn bytes_before(a: Seq<u8>, b: Seq<u8>) -> bool
    decreases a.len(),
{
    if b.len() == 0 {
        false
    } else if a.len() == 0 {
        true
    } else if a[0] != b[0] {
        a[0] < b[0]
    } else {
        bytes_before(a.drop_first(), b.drop_first())
    }
}

/// Whether the text `a` comes before the text `b`.
pub open spec fn before(a: Seq<char>, b: Seq<char>) -> bool {
    bytes_before(encode_utf8(a), encode_utf8(b))
}

/// No bytes come before themselves.
pub proof fn bytes_before_is_irreflexive(a: Seq<u8>)
    ensures
        !bytes_before(a, a),
    decreases a.len(),
{
    if a.len() > 0 {
        bytes_before_is_irreflexive(a.drop_first());
    }
}

/// What comes before something comes before all that follows it.
pub proof fn bytes_before_is_transitive(a: Seq<u8>, b: Seq<u8>, c: Seq<u8>)
    requires
        bytes_before(a, b),
        bytes_before(b, c),
    ensures
        bytes_before(a, c),
    decreases a.len(),
{
    if a.len() > 0 && a[0] == b[0] && b[0] == c[0] {
        bytes_before_is_transitive(a.drop_first(), b.drop_first(), c.drop_first());
    }
}

/// Of two different byte strings, one comes before the other.
pub proof fn bytes_before_is_total(a: Seq<u8>, b: Seq<u8>)
    ensures
        bytes_before(a, b) || a == b || bytes_before(b, a),
    decreases a.len(),
{
    if a.len() == 0 && b.len() == 0 {
        assert(a =~= b);
    } else if a.len() > 0 && b.len() > 0 && a[0] == b[0] {
        bytes_before_is_total(a.drop_first(), b.drop_first());
        if a.drop_first() == b.drop_first() {
            assert(a =~= seq![a[0]] + a.drop_first());
            assert(b =~= seq![b[0]] + b.drop_first());
        }
    }
}

/// No text comes before itself.
pub proof fn before_is_irreflexive(a: Seq<char>)
    ensures
        !before(a, a),
{
    bytes_before_is_irreflexive(encode_utf8(a));
}

/// The order of texts is transitive.
pub proof fn before_is_transitive(a: Seq<char>, b: Seq<char>, c: Seq<char>)
    requires
        before(a, b),
        before(b, c),
    ensures
        before(a, c),
{
    bytes_before_is_transitive(encode_utf8(a), encode_utf8(b), encode_utf8(c));
}

/// Of two different texts one comes before the other.
pub proof fn before_is_total(a: Seq<char>, b: Seq<char>)
    ensures
        before(a, b) || a == b || before(b, a),
{
    bytes_before_is_total(encode_utf8(a), encode_utf8(b));
    encode_utf8_decode_utf8(a);
    encode_utf8_decode_utf8(b);
}

/// Whether the text `a` comes before the text `b`.
pub fn comes_before(a: &str, b: &str) -> (r: bool)
    ensures
        r == before(a@, b@),
{
    bytes_come_before(a.as_bytes(), b.as_bytes())
}

/// Whether the bytes `x` come before the bytes `y`.
pub fn bytes_come_before(x: &[u8], y: &[u8]) -> (r: bool)
    ensures
        r == bytes_before(x@, y@),
{
    let mut i: usize = 0;
    proof {
        assert(x@.skip(0) =~= x@);
        assert(y@.skip(0) =~= y@);
    }
    loop
        invariant
            i <= x@.len(),
            i <= y@.len(),
            bytes_before(x@, y@) == bytes_before(x@.skip(i as int), y@.skip(i as int)),
        decreases x@.len() - i,
    {
        if i >= y.len() {
            return false;
        }
        if i >= x.len() {
            return true;
        }
        if x[i] != y[i] {
            return x[i] < y[i];
        }
        proof {
            assert(x@.skip(i as int).drop_first() =~= x@.skip(i + 1));
            assert(y@.skip(i as int).drop_first() =~= y@.skip(i + 1));
        }
        i = i + 1;
    }
}

// ---- Sequences in order ---------------------------------------------------

/// Whether each text comes before all that follow it, so that none occurs
/// twice.
pub open spec fn ascending(s: Seq<Seq<char>>) -> bool {
    forall|i: int, j: int| 0 <= i < j < s.len() ==> before(s[i], s[j])
}

/// The keys of a list of pairs, in order.
pub open spec fn keys_of<V>(s: Seq<(String, V)>) -> Seq<Seq<char>> {
    s.map_values(|pair: (String, V)| pair.0@)
}

/// Two ascending sequences with the same members are the same sequence.
pub proof fn ascending_is_canonical(a: Seq<Seq<char>>, b: Seq<Seq<char>>)
    requires
        ascending(a),
        ascending(b),
        a.to_set() == b.to_set(),
    ensures
        a == b,
    decreases a.len(),
{
    if a.len() == 0 {
        if b.len() > 0 {
            assert(b.to_set().contains(b[0]));
            assert(a.to_set().contains(b[0]));
            assert(false);
        }
        assert(a =~= b);
    } else {
        assert(a.to_set().contains(a.last()));
        assert(b.to_set().contains(a.last()));
        assert(b.len() > 0);
        assert(b.to_set().contains(b.last()));
        assert(a.to_set().contains(b.last()));
        let i = choose|i: int| 0 <= i < a.len() && a[i] == b.last();
        let j = choose|j: int| 0 <= j < b.len() && b[j] == a.last();
        if a.last() != b.last() {
            assert(before(a[i], a.last()));
            assert(before(b[j], b.last()));
            before_is_transitive(a.last(), b.last(), a.last());
            before_is_irreflexive(a.last());
        }
        let x = a.drop_last();
        let y = b.drop_last();
        assert forall|t: Seq<char>| x.to_set().contains(t) implies y.to_set().contains(t) by {
            let k = choose|k: int| 0 <= k < x.len() && x[k] == t;
            assert(a[k] == t && before(a[k], a.last()));
            assert(a.to_set().contains(t));
            assert(b.to_set().contains(t));
            let m = choose|m: int| 0 <= m < b.len() && b[m] == t;
            before_is_irreflexive(t);
            assert(m < b.len() - 1);
            assert(y[m] == t);
        }
        assert forall|t: Seq<char>| y.to_set().contains(t) implies x.to_set().contains(t) by {
            let k = choose|k: int| 0 <= k < y.len() && y[k] == t;
            assert(b[k] == t && before(b[k], b.last()));
            assert(b.to_set().contains(t));
            assert(a.to_set().contains(t));
            let m = choose|m: int| 0 <= m < a.len() && a[m] == t;
            before_is_irreflexive(t);
            assert(m < a.len() - 1);
            assert(x[m] == t);
        }
        assert(x.to_set() =~= y.to_set());
        ascending_is_canonical(x, y);
        assert(a =~= x.push(a.last()));
        assert(b =~= y.push(b.last()));
    }
}

// ---- Sorting --------------------------------------------------------------

/// What can be put in order.
pub trait Sortable: Sized {
    /// Whether this one stands before the other.
    spec fn stands_before(self, other: Self) -> bool;

    /// Nothing stands before itself.
    proof fn stands_before_is_irreflexive(a: Self)
        ensures
            !a.stands_before(a),
    ;

    /// What stands before a second stands before whatever the second does.
    proof fn stands_before_is_transitive(a: Self, b: Self, c: Self)
        requires
            a.stands_before(b),
            b.stands_before(c),
        ensures
            a.stands_before(c),
    ;

    /// Whether this one stands before the other.
    fn goes_before(&self, other: &Self) -> (r: bool)
        ensures
            r == self.stands_before(*other),
    ;
}

/// Whether nothing stands behind something it stands before.
pub open spec fn in_order<T: Sortable>(s: Seq<T>) -> bool {
    forall|i: int, j: int|
        #![trigger s[i], s[j]]
        0 <= i < j < s.len() ==> !s[j].stands_before(s[i])
}

/// Whether `sorted` is `all`, in order.
pub open spec fn is_sorting<T: Sortable>(sorted: Seq<T>, all: Seq<T>) -> bool {
    sorted.to_multiset() == all.to_multiset() && in_order(sorted)
}

proof fn lemma_insert_in_order<T: Sortable>(was: Seq<T>, at: int, e: T)
    requires
        0 <= at <= was.len(),
        in_order(was),
        forall|k: int| 0 <= k < at ==> !e.stands_before(#[trigger] was[k]),
        at < was.len() ==> e.stands_before(was[at]),
    ensures
        in_order(was.insert(at, e)),
{
    let now = was.insert(at, e);
    assert forall|i: int, j: int|
        #![trigger now[i], now[j]]
        0 <= i < j < now.len() implies !now[j].stands_before(now[i]) by {
        if j < at {
            assert(now[i] == was[i] && now[j] == was[j]);
        } else if j == at {
            assert(now[i] == was[i]);
        } else if i < at {
            assert(now[i] == was[i] && now[j] == was[j - 1]);
        } else if i == at {
            assert(now[j] == was[j - 1]);
            if was[j - 1].stands_before(e) {
                T::stands_before_is_transitive(was[j - 1], e, was[at]);
                if j - 1 == at {
                    T::stands_before_is_irreflexive(was[at]);
                }
            }
        } else {
            assert(now[i] == was[i - 1] && now[j] == was[j - 1]);
        }
    }
}

/// Puts items in order.
pub fn sort<T: Sortable>(items: Vec<T>) -> (sorted: Vec<T>)
    ensures
        is_sorting(sorted@, items@),
{
    broadcast use vstd::seq_lib::group_to_multiset_ensures;

    let ghost all = items@;
    let mut left: Vec<T> = items;
    let mut sorted: Vec<T> = Vec::new();
    proof {
        assert(sorted@.to_multiset().add(left@.to_multiset()) =~= all.to_multiset());
    }
    while left.len() > 0
        invariant
            sorted@.to_multiset().add(left@.to_multiset()) == all.to_multiset(),
            in_order(sorted@),
        decreases left@.len(),
    {
        let ghost left_was = left@;
        let ghost was = sorted@;
        let item: T = left.remove(0);
        let mut at: usize = 0;
        while at < sorted.len() && !item.goes_before(&sorted[at])
            invariant
                at <= sorted@.len(),
                sorted@ == was,
                forall|k: int| 0 <= k < at ==> !item.stands_before(#[trigger] was[k]),
            decreases sorted@.len() - at,
        {
            at = at + 1;
        }
        proof {
            lemma_insert_in_order(was, at as int, item);
            vstd::seq_lib::to_multiset_insert(was, at as int, item);
            vstd::seq_lib::to_multiset_remove(left_was, 0);
            assert(left@ =~= left_was.remove(0));
            assert(left_was[0] == item);
            assert(left_was.contains(item));
            left_was.to_multiset_ensures();
            assert(left_was.to_multiset().count(item) > 0);
            assert(was.insert(at as int, item).to_multiset().add(left@.to_multiset())
                =~= was.to_multiset().add(left_was.to_multiset()));
        }
        sorted.insert(at, item);
    }
    proof {
        assert(left@ =~= Seq::<T>::empty());
        assert(sorted@.to_multiset() =~= all.to_multiset());
    }
    sorted
}

// ---- Maps keyed by text ---------------------------------------------------

/// A map from texts to values, held in the order of its keys.
#[derive(Debug, Clone, PartialEq, Eq)]
pub struct TextMap<V> {
    /// The pairs, the keys ascending.
    pub pairs: Vec<(String, V)>,
}

impl<V> TextMap<V> {
    /// The keys are in order and each occurs once.
    pub open spec fn wf(self) -> bool {
        ascending(keys_of(self.pairs@))
    }

    /// The place of a key that is present.
    pub open spec fn place(self, key: Seq<char>) -> int {
        choose|i: int| 0 <= i < self.pairs@.len() && (#[trigger] self.pairs@[i]).0@ == key
    }

    /// Whether a key is present.
    pub open spec fn has(self, key: Seq<char>) -> bool {
        exists|i: int| 0 <= i < self.pairs@.len() && (#[trigger] self.pairs@[i]).0@ == key
    }

    /// A key stands at one place only.
    pub proof fn place_is_unique(self, i: int)
        requires
            self.wf(),
            0 <= i < self.pairs@.len(),
        ensures
            self.has(self.pairs@[i].0@),
            self.place(self.pairs@[i].0@) == i,
    {
        let key = self.pairs@[i].0@;
        let p = self.place(key);
        assert(self.pairs@[i].0@ == key);
        let keys = keys_of(self.pairs@);
        assert(keys[i] == key && keys[p] == key);
        if p < i {
            assert(before(keys[p], keys[i]));
            before_is_irreflexive(key);
        } else if i < p {
            assert(before(keys[i], keys[p]));
            before_is_irreflexive(key);
        }
    }
}

impl<V> View for TextMap<V> {
    type V = Map<Seq<char>, V>;

    open spec fn view(&self) -> Map<Seq<char>, V> {
        Map::new(|key: Seq<char>| self.has(key), |key: Seq<char>| self.pairs@[self.place(key)].1)
    }
}

impl<V> TextMap<V> {
    /// The empty map.
    pub fn new() -> (out: TextMap<V>)
        ensures
            out.wf(),
            out@ == Map::<Seq<char>, V>::empty(),
    {
        let out: TextMap<V> = TextMap { pairs: Vec::new() };
        proof {
            assert(out@ =~= Map::<Seq<char>, V>::empty());
        }
        out
    }

    /// Where `key` stands or would stand: the first place whose key does not
    /// come before it.
    fn seek(&self, key: &str) -> (at: usize)
        requires
            self.wf(),
        ensures
            at <= self.pairs@.len(),
            forall|i: int| 0 <= i < at ==> before((#[trigger] self.pairs@[i]).0@, key@),
            forall|i: int| at <= i < self.pairs@.len() ==> !before((#[trigger] self.pairs@[i]).0@, key@),
    {
        let mut at: usize = 0;
        while at < self.pairs.len() && comes_before(self.pairs[at].0.as_str(), key)
            invariant
                self.wf(),
                at <= self.pairs@.len(),
                forall|i: int| 0 <= i < at ==> before((#[trigger] self.pairs@[i]).0@, key@),
            decreases self.pairs@.len() - at,
        {
            at = at + 1;
        }
        proof {
            let keys = keys_of(self.pairs@);
            assert forall|i: int| at <= i < self.pairs@.len() implies !before(
                (#[trigger] self.pairs@[i]).0@,
                key@,
            ) by {
                assert(keys[i] == self.pairs@[i].0@);
                assert(keys[at as int] == self.pairs@[at as int].0@);
                if at < i && before(keys[i], key@) {
                    before_is_transitive(keys[at as int], keys[i], key@);
                }
            }
        }
        at
    }

    /// The place of `key`, if it is present.
    pub fn find(&self, key: &str) -> (r: Option<usize>)
        requires
            self.wf(),
        ensures
            match r {
                Some(i) => i < self.pairs@.len() && self.pairs@[i as int].0@ == key@
                    && self@.dom().contains(key@) && self@[key@] == self.pairs@[i as int].1,
                None => !self@.dom().contains(key@),
            },
    {
        let at: usize = self.seek(key);
        if at < self.pairs.len() && crate::text::same(self.pairs[at].0.as_str(), key) {
            proof {
                self.place_is_unique(at as int);
            }
            Some(at)
        } else {
            proof {
                let keys = keys_of(self.pairs@);
                if self.has(key@) {
                    let p = self.place(key@);
                    assert(keys[p] == key@);
                    before_is_irreflexive(key@);
                    assert(p > at);
                    assert(keys[at as int] == self.pairs@[at as int].0@);
                    assert(before(keys[at as int], keys[p]));
                    assert(!before(self.pairs@[at as int].0@, key@));
                    assert(false);
                }
            }
            None
        }
    }

    /// Whether `key` is present.
    pub fn contains(&self, key: &str) -> (r: bool)
        requires
            self.wf(),
        ensures
            r == self@.dom().contains(key@),
    {
        match self.find(key) {
            Some(_) => true,
            None => false,
        }
    }

    /// Puts `value` at `key`, in place of what was there.
    pub fn insert(&mut self, key: String, value: V)
        requires
            old(self).wf(),
        ensures
            final(self).wf(),
            final(self)@ == old(self)@.insert(key@, value),
    {
        let at: usize = self.seek(key.as_str());
        let ghost was = *self;
        let ghost k = key@;
        proof {
            before_is_irreflexive(k);
        }
        if at < self.pairs.len() && crate::text::same(self.pairs[at].0.as_str(), key.as_str()) {
            self.pairs.set(at, (key, value));
            proof {
                assert(keys_of(self.pairs@) =~= keys_of(was.pairs@));
                let m = was@.insert(k, value);
                assert forall|t: Seq<char>| self@.dom().contains(t) == m.dom().contains(t) by {
                    if self.has(t) {
                        let p = self.place(t);
                        assert(was.pairs@[p].0@ == t);
                    }
                    if was.has(t) {
                        let p = was.place(t);
                        assert(self.pairs@[p].0@ == t);
                    }
                    assert(self.pairs@[at as int].0@ == k);
                }
                assert forall|t: Seq<char>| self@.dom().contains(t) implies self@[t] == m[t] by {
                    let p = self.place(t);
                    self.place_is_unique(p);
                    self.place_is_unique(at as int);
                    was.place_is_unique(p);
                    if p != at {
                        assert(self.pairs@[p] == was.pairs@[p]);
                        assert(t != k);
                    }
                }
                assert(self@ =~= m);
            }
        } else {
            proof {
                let keys = keys_of(was.pairs@);
                assert forall|i: int| at <= i < was.pairs@.len() implies before(
                    k,
                    (#[trigger] was.pairs@[i]).0@,
                ) by {
                    before_is_total(k, was.pairs@[i].0@);
                    assert(keys[i] == was.pairs@[i].0@);
                    assert(keys[at as int] == was.pairs@[at as int].0@);
                    if i > at && keys[i] == k {
                        assert(before(keys[at as int], keys[i]));
                    }
                }
            }
            self.pairs.insert(at, (key, value));
            proof {
                let old_keys = keys_of(was.pairs@);
                let keys = keys_of(self.pairs@);
                assert(keys =~= old_keys.insert(at as int, k));
                assert forall|i: int, j: int| 0 <= i < j < keys.len() implies before(
                    keys[i],
                    keys[j],
                ) by {
                    if i < at {
                        assert(keys[i] == was.pairs@[i].0@);
                        if j == at {
                        } else if j < at {
                            assert(before(old_keys[i], old_keys[j]));
                        } else {
                            assert(before(old_keys[i], old_keys[j - 1]));
                        }
                    } else if i == at {
                        assert(keys[j] == was.pairs@[j - 1].0@);
                    } else {
                        assert(before(old_keys[i - 1], old_keys[j - 1]));
                    }
                }
                let m = was@.insert(k, value);
                assert(self.pairs@[at as int].0@ == k);
                assert forall|t: Seq<char>| self@.dom().contains(t) == m.dom().contains(t) by {
                    if self.has(t) {
                        let p = self.place(t);
                        if p < at {
                            assert(was.pairs@[p].0@ == t);
                        } else if p > at {
                            assert(was.pairs@[p - 1].0@ == t);
                        }
                    }
                    if was.has(t) {
                        let p = was.place(t);
                        if p < at {
                            assert(self.pairs@[p].0@ == t);
                        } else {
                            assert(self.pairs@[p + 1].0@ == t);
                        }
                    }
                }
                assert forall|t: Seq<char>| self@.dom().contains(t) implies self@[t] == m[t] by {
                    let p = self.place(t);
                    self.place_is_unique(p);
                    self.place_is_unique(at as int);
                    if p < at {
                        was.place_is_unique(p);
                        assert(self.pairs@[p] == was.pairs@[p]);
                    } else if p > at {
                        was.place_is_unique(p - 1);
                        assert(self.pairs@[p] == was.pairs@[p - 1]);
                    }
                }
                assert(self@ =~= m);
            }
        }
    }
}

} // verus!
