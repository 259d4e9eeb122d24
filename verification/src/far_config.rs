//! The far side's directory and the configuration written into it.
//!
//! Two things a migration needs before it can start anything on the
//! destination: where the run lives there, and what the run reads when it does.
//!
//! **The directory is derived from the run id**, so a reattaching migration
//! finds it without remembering anything and two runs on one machine never
//! collide.
//!
//! **The configuration is the local one with everything about here removed.**
//! `[run]` travels as the value it was read as, so the run it describes is the
//! same run. `[config]` travels with its store path rewritten to a relative
//! one. Everything naming a machine is dropped, so the far side declares no
//! machine beyond itself.
use vstd::prelude::*;
use vstd::string::*;

use crate::config::{DeviceSelector, HostForm, OwnedHost, Pool};
use crate::devices::{usable, DeviceInfo};
use crate::fault::Fault;
use crate::ordered::TextMap;
use crate::text::{cat, cat3, same, trim_trailing};
use crate::toml_document::{
    array_value, as_table, empty_table, get, integer_value, pairs, put, read_document,
    read_error_text, table_value, text_value, write_document, write_error_text,
};

verus! {

broadcast use vstd::seq_lib::group_seq_properties;

// ---- The layout -------------------------------------------------------------

/// The directory of `run` under a destination's `root`.
pub open spec fn run_dir(root: Seq<char>, run: Seq<char>) -> Seq<char> {
    crate::text::without_trailing(root, '/') + "/"@ + run
}

/// Where a migrated run lives on its destination.
///
/// ```text
/// <root>/<run id>/
///     sima.toml       the synthesized configuration
///     store/          the far side's store
///     run.log         what the far-side process printed
///     run.pid         the far-side process id
/// ```
///
/// The paths are the destination's, and a leading tilde is for its own shell to
/// expand, so they are strings and travel unresolved.
#[derive(Debug, Clone, PartialEq, Eq)]
pub struct FarLayout {
    /// The run's directory on the destination.
    pub dir: String,
    /// The run living there, which the far store is addressed by.
    pub run: String,
}

impl FarLayout {
    /// The layout for `run` under a destination's `root`.
    pub fn new(root: &str, run: &str) -> (layout: FarLayout)
        ensures
            layout.dir@ == run_dir(root@, run@),
            layout.run@ == run@,
    {
        let stem: String = trim_trailing(root, '/');
        FarLayout { dir: cat3(stem.as_str(), "/", run), run: run.to_owned() }
    }

    /// The run's directory.
    pub fn dir(&self) -> (out: &str)
        ensures
            out@ == self.dir@,
    {
        self.dir.as_str()
    }

    /// The synthesized configuration.
    pub fn config(&self) -> (out: String)
        ensures
            out@ == self.dir@ + "/sima.toml"@,
    {
        cat(self.dir.as_str(), "/sima.toml")
    }

    /// The far side's store. The synthesized configuration names it relative to
    /// its own directory, so the path is known here without reading that
    /// configuration back.
    pub fn store(&self) -> (out: String)
        ensures
            out@ == self.dir@ + "/store"@,
    {
        cat(self.dir.as_str(), "/store")
    }

    /// The run the far side is driving.
    pub fn run(&self) -> (out: &str)
        ensures
            out@ == self.run@,
    {
        self.run.as_str()
    }

    /// The file that names the far-side process.
    pub fn pid(&self) -> (out: String)
        ensures
            out@ == self.dir@ + "/run.pid"@,
    {
        cat(self.dir.as_str(), "/run.pid")
    }

    /// The file that holds what the far-side process printed.
    pub fn log(&self) -> (out: String)
        ensures
            out@ == self.dir@ + "/run.log"@,
    {
        cat(self.dir.as_str(), "/run.log")
    }
}

/// Trailing separators on the root make no difference to where a run lives.
pub proof fn layout_ignores_a_trailing_separator(root: Seq<char>, run: Seq<char>)
    ensures
        run_dir(root.push('/'), run) == run_dir(root, run),
{
    assert(root.push('/').drop_last() =~= root);
}

/// No path of one run is a path of another run of the same root, for runs whose
/// ids have the same length.
pub proof fn layouts_never_collide(
    root: Seq<char>,
    run: Seq<char>,
    other: Seq<char>,
    file: Seq<char>,
    other_file: Seq<char>,
)
    requires
        run != other,
        run.len() == other.len(),
    ensures
        run_dir(root, run) + file != run_dir(root, other) + other_file,
{
    let stem = crate::text::without_trailing(root, '/') + "/"@;
    let a = run_dir(root, run) + file;
    let b = run_dir(root, other) + other_file;
    if a == b {
        let n = stem.len() as int;
        assert(a.subrange(n, n + run.len()) =~= run);
        assert(b.subrange(n, n + run.len()) =~= other);
    }
}

/// The directories of two runs of the same root differ.
pub proof fn directories_never_collide(root: Seq<char>, run: Seq<char>, other: Seq<char>)
    requires
        run != other,
    ensures
        run_dir(root, run) != run_dir(root, other),
{
    let stem = crate::text::without_trailing(root, '/') + "/"@;
    if run_dir(root, run) == run_dir(root, other) {
        assert(run_dir(root, run).skip(stem.len() as int) =~= run);
        assert(run_dir(root, other).skip(stem.len() as int) =~= other);
    }
}

/// The entry point an installed program leaves, relative to the configuration
/// it was installed for.
pub open spec fn entry_point_of(format: Seq<char>) -> Seq<char> {
    "./program/"@ + format + "/installed/program"@
}

/// The entry point a far configuration names for `format`.
pub fn relative_entry_point(format: &str) -> (out: String)
    ensures
        out@ == entry_point_of(format@),
{
    cat3("./program/", format, "/installed/program")
}

// ---- The worker layout --------------------------------------------------------

/// What the far side's `[orchestrator]` is built from.
pub enum FarWorkers<'a> {
    /// A machine of yours: its own container and worker layout.
    Declared(&'a OwnedHost),
    /// A rented machine: plain workers on what its enumeration reported.
    Probed(&'a Vec<DeviceInfo>),
}

impl<'a> FarWorkers<'a> {
    /// The layout a destination's form calls for.
    pub fn for_form(form: &'a HostForm, probed: &'a Vec<DeviceInfo>) -> (workers: FarWorkers<'a>)
        ensures
            workers == (match *form {
                HostForm::Owned(owned) => FarWorkers::Declared(&owned),
                HostForm::Rented(_) => FarWorkers::Probed(probed),
            }),
    {
        match form {
            HostForm::Owned(owned) => FarWorkers::Declared(owned),
            HostForm::Rented(_) => FarWorkers::Probed(probed),
        }
    }
}

/// How many of `devices` are of the class `class`.
pub open spec fn class_count(devices: Seq<DeviceInfo>, class: Seq<char>) -> nat
    decreases devices.len(),
{
    if devices.len() == 0 {
        0
    } else {
        class_count(devices.drop_last(), class) + if devices.last().class@ == class {
            1nat
        } else {
            0nat
        }
    }
}

/// Whether `classes` groups `devices`: each class that occurs, in order, with
/// the number of devices of it.
pub open spec fn groups_by_class(
    devices: Seq<DeviceInfo>,
    classes: Map<Seq<char>, i64>,
) -> bool {
    forall|class: Seq<char>| #[trigger]
        classes.dom().contains(class) == (class_count(devices, class) > 0) && (
        classes.dom().contains(class) ==> classes[class] == class_count(devices, class))
}

proof fn lemma_class_count_bound(devices: Seq<DeviceInfo>, class: Seq<char>)
    ensures
        class_count(devices, class) <= devices.len(),
    decreases devices.len(),
{
    if devices.len() > 0 {
        lemma_class_count_bound(devices.drop_last(), class);
    }
}

/// The usable devices a probe reported, grouped into classes with how many
/// devices of each the machine has.
///
/// The classes come in order, so one enumeration always gives one result
/// whatever order the probe listed its devices in.
pub fn probed_classes(devices: &Vec<DeviceInfo>) -> (classes: TextMap<i64>)
    requires
        devices@.len() <= i64::MAX,
    ensures
        classes.wf(),
        groups_by_class(crate::devices::usable_of(devices@), classes@),
{
    let places: Vec<usize> = usable(devices);
    let ghost chosen = crate::devices::usable_of(devices@);
    let mut classes: TextMap<i64> = TextMap::new();
    let mut i: usize = 0;
    proof {
        assert(chosen.take(0) =~= Seq::<DeviceInfo>::empty());
        reveal(Seq::filter);
        broadcast use vstd::seq_lib::group_filter_ensures;
        assert(chosen.len() <= devices@.len());
    }
    while i < places.len()
        invariant
            i <= places@.len(),
            chosen == crate::devices::usable_of(devices@),
            crate::devices::picks(devices@, places@),
            chosen.len() <= i64::MAX,
            classes.wf(),
            groups_by_class(chosen.take(i as int), classes@),
        decreases places@.len() - i,
    {
        let class: &String = &devices[places[i]].class;
        let ghost before = chosen.take(i as int);
        let ghost after = chosen.take(i + 1);
        proof {
            assert(after.drop_last() =~= before);
            assert(after.last() == chosen[i as int]);
            lemma_class_count_bound(before, class@);
        }
        let ghost was = classes@;
        let count: i64 = match classes.find(class.as_str()) {
            Some(at) => classes.pairs[at].1,
            None => 0,
        };
        proof {
            assert(was.dom().contains(class@) == (class_count(before, class@) > 0));
            assert(count == class_count(before, class@));
        }
        classes.insert(class.clone(), count + 1);
        proof {
            assert forall|c: Seq<char>| #[trigger]
                classes@.dom().contains(c) == (class_count(after, c) > 0) && (
                classes@.dom().contains(c) ==> classes@[c] == class_count(after, c)) by {
                assert(was.dom().contains(c) == (class_count(before, c) > 0));
            }
        }
        i = i + 1;
    }
    proof {
        assert(chosen.take(chosen.len() as int) =~= chosen);
    }
    classes
}

proof fn lemma_class_count_of_insert(devices: Seq<DeviceInfo>, i: int, class: Seq<char>)
    requires
        0 <= i < devices.len(),
    ensures
        class_count(devices, class) == class_count(devices.remove(i), class) + if devices[i].class@
            == class {
            1nat
        } else {
            0nat
        },
    decreases devices.len(),
{
    let fewer = devices.drop_last();
    if i < devices.len() - 1 {
        lemma_class_count_of_insert(fewer, i, class);
        assert(devices.remove(i).drop_last() =~= fewer.remove(i));
        assert(devices.remove(i).last() == devices.last());
    } else {
        assert(devices.remove(i) =~= fewer);
    }
}

proof fn lemma_class_count_of_permutation(
    a: Seq<DeviceInfo>,
    b: Seq<DeviceInfo>,
    class: Seq<char>,
)
    requires
        a.to_multiset() == b.to_multiset(),
    ensures
        class_count(a, class) == class_count(b, class),
    decreases a.len(),
{
    broadcast use vstd::seq_lib::group_to_multiset_ensures;

    a.to_multiset_ensures();
    b.to_multiset_ensures();
    assert(a.len() == b.len());
    if a.len() > 0 {
        let x = a.last();
        assert(a.contains(x));
        assert(b.to_multiset().count(x) > 0);
        assert(b.contains(x));
        let j = choose|j: int| 0 <= j < b.len() && b[j] == x;
        vstd::seq_lib::to_multiset_remove(b, j);
        vstd::seq_lib::to_multiset_remove(a, a.len() - 1);
        assert(a.remove(a.len() - 1) =~= a.drop_last());
        assert(a.drop_last().to_multiset() =~= b.remove(j).to_multiset());
        lemma_class_count_of_permutation(a.drop_last(), b.remove(j), class);
        lemma_class_count_of_insert(b, j, class);
    }
}

proof fn lemma_filter_of_permutation(
    a: Seq<DeviceInfo>,
    b: Seq<DeviceInfo>,
    kept: spec_fn(DeviceInfo) -> bool,
)
    requires
        a.to_multiset() == b.to_multiset(),
    ensures
        a.filter(kept).to_multiset() == b.filter(kept).to_multiset(),
{
    lemma_filtered_multiset(a, kept);
    lemma_filtered_multiset(b, kept);
}

proof fn lemma_filtered_multiset(s: Seq<DeviceInfo>, kept: spec_fn(DeviceInfo) -> bool)
    ensures
        s.filter(kept).to_multiset() == s.to_multiset().filter(kept),
    decreases s.len(),
{
    broadcast use vstd::seq_lib::group_to_multiset_ensures;

    reveal(Seq::filter);
    if s.len() == 0 {
        s.to_multiset_ensures();
        s.filter(kept).to_multiset_ensures();
        assert(s.filter(kept).to_multiset() =~= s.to_multiset().filter(kept));
    } else {
        let fewer = s.drop_last();
        let x = s.last();
        lemma_filtered_multiset(fewer, kept);
        assert(s =~= fewer.push(x));
        fewer.to_multiset_ensures();
        fewer.filter(kept).to_multiset_ensures();
        assert(s.to_multiset() =~= fewer.to_multiset().insert(x));
        assert(s.filter(kept).to_multiset() =~= s.to_multiset().filter(kept));
    }
}

proof fn lemma_usable_of_permutation(a: Seq<DeviceInfo>, b: Seq<DeviceInfo>)
    requires
        a.to_multiset() == b.to_multiset(),
    ensures
        crate::devices::usable_of(a).to_multiset() == crate::devices::usable_of(b).to_multiset(),
{
    broadcast use vstd::seq_lib::group_to_multiset_ensures;

    a.to_multiset_ensures();
    b.to_multiset_ensures();
    assert forall|d: DeviceInfo| #[trigger] a.contains(d) == b.contains(d) by {
        assert(a.contains(d) == (a.to_multiset().count(d) > 0));
        assert(b.contains(d) == (b.to_multiset().count(d) > 0));
    }
    if exists|i: int| 0 <= i < a.len() && crate::devices::is_hardware(#[trigger] a[i]) {
        let i = choose|i: int| 0 <= i < a.len() && crate::devices::is_hardware(#[trigger] a[i]);
        assert(a.contains(a[i]));
        assert(b.contains(a[i]));
    }
    if exists|i: int| 0 <= i < b.len() && crate::devices::is_hardware(#[trigger] b[i]) {
        let i = choose|i: int| 0 <= i < b.len() && crate::devices::is_hardware(#[trigger] b[i]);
        assert(b.contains(b[i]));
        assert(a.contains(b[i]));
    }
    lemma_filter_of_permutation(a, b, |device: DeviceInfo| crate::devices::is_hardware(device));
}

/// The classes of a machine do not depend on the order its devices were listed
/// in: a permutation of them gives the same classes, in the same order, each
/// with as many devices.
pub proof fn the_order_of_devices_makes_no_difference(
    a: Seq<DeviceInfo>,
    b: Seq<DeviceInfo>,
    classes: TextMap<i64>,
    others: TextMap<i64>,
)
    requires
        a.to_multiset() == b.to_multiset(),
        classes.wf(),
        others.wf(),
        groups_by_class(crate::devices::usable_of(a), classes@),
        groups_by_class(crate::devices::usable_of(b), others@),
    ensures
        classes@ == others@,
        classes.pairs@.len() == others.pairs@.len(),
        forall|i: int|
            0 <= i < classes.pairs@.len() ==> (#[trigger] classes.pairs@[i]).0@
                == others.pairs@[i].0@ && classes.pairs@[i].1 == others.pairs@[i].1,
{
    lemma_usable_of_permutation(a, b);
    let x = crate::devices::usable_of(a);
    let y = crate::devices::usable_of(b);
    assert forall|class: Seq<char>| #[trigger]
        classes@.dom().contains(class) == others@.dom().contains(class) && (
        classes@.dom().contains(class) ==> classes@[class] == others@[class]) by {
        lemma_class_count_of_permutation(x, y, class);
        assert(others@.dom().contains(class) == (class_count(y, class) > 0));
    }
    assert(classes@ =~= others@);
    let keys = crate::ordered::keys_of(classes.pairs@);
    let other_keys = crate::ordered::keys_of(others.pairs@);
    assert forall|key: Seq<char>| keys.contains(key) == other_keys.contains(key) by {
        assert(classes@.dom().contains(key) == others@.dom().contains(key));
        lemma_keys(classes, key);
        lemma_keys(others, key);
    }
    assert(keys.to_set() =~= other_keys.to_set());
    crate::ordered::ascending_is_canonical(keys, other_keys);
    assert forall|i: int| 0 <= i < classes.pairs@.len() implies (
    #[trigger] classes.pairs@[i]).0@ == others.pairs@[i].0@ && classes.pairs@[i].1
        == others.pairs@[i].1 by {
        assert(keys[i] == other_keys[i]);
        classes.place_is_unique(i);
        others.place_is_unique(i);
        assert(classes@[keys[i]] == others@[keys[i]]);
    }
}

proof fn lemma_keys(classes: TextMap<i64>, key: Seq<char>)
    ensures
        crate::ordered::keys_of(classes.pairs@).contains(key) == classes@.dom().contains(key),
{
    let keys = crate::ordered::keys_of(classes.pairs@);
    if keys.contains(key) {
        let i = choose|i: int| 0 <= i < keys.len() && keys[i] == key;
        assert(classes.pairs@[i].0@ == key);
    }
    if classes.has(key) {
        let i = classes.place(key);
        assert(keys[i] == key);
    }
}

/// The number of devices in all classes together is the number of usable
/// devices, where each class stands once.
pub proof fn every_usable_device_is_counted(devices: Seq<DeviceInfo>, classes: Seq<Seq<char>>)
    requires
        classes.no_duplicates(),
        forall|class: Seq<char>| #[trigger]
            classes.contains(class) == (class_count(devices, class) > 0),
    ensures
        total_count(devices, classes) == devices.len(),
    decreases devices.len(),
{
    if devices.len() == 0 {
        if classes.len() > 0 {
            assert(classes.contains(classes[0]));
        }
    } else {
        let class = devices.last().class@;
        let fewer = devices.drop_last();
        lemma_class_count_bound(devices, class);
        assert(class_count(devices, class) > 0);
        assert(classes.contains(class));
        let at = choose|at: int| 0 <= at < classes.len() && classes[at] == class;
        lemma_total_without_last(devices, classes, at);
        if class_count(fewer, class) > 0 {
            assert forall|c: Seq<char>| #[trigger] classes.contains(c) == (class_count(fewer, c)
                > 0) by {
                assert(classes.contains(c) == (class_count(devices, c) > 0));
            }
            every_usable_device_is_counted(fewer, classes);
        } else {
            let rest = classes.remove(at);
            assert forall|i: int, j: int|
                0 <= i < rest.len() && 0 <= j < rest.len() && i != j implies rest[i] != rest[j] by {
                let x = if i < at {
                    i
                } else {
                    i + 1
                };
                let y = if j < at {
                    j
                } else {
                    j + 1
                };
                assert(rest[i] == classes[x] && rest[j] == classes[y]);
            }
            assert forall|c: Seq<char>| #[trigger] rest.contains(c) == (class_count(fewer, c)
                > 0) by {
                assert(classes.contains(c) == (class_count(devices, c) > 0));
                if rest.contains(c) {
                    let i = choose|i: int| 0 <= i < rest.len() && rest[i] == c;
                    let x = if i < at {
                        i
                    } else {
                        i + 1
                    };
                    assert(classes[x] == c);
                    assert(classes.contains(c));
                    assert(c != class);
                } else if class_count(fewer, c) > 0 {
                    assert(classes.contains(c));
                    let x = choose|x: int| 0 <= x < classes.len() && classes[x] == c;
                    assert(x != at);
                    assert(rest[if x < at {
                        x
                    } else {
                        x - 1
                    }] == c);
                }
            }
            every_usable_device_is_counted(fewer, rest);
            lemma_total_without_class(fewer, classes, at);
        }
    }
}

/// How many devices are of one of the classes.
pub open spec fn total_count(devices: Seq<DeviceInfo>, classes: Seq<Seq<char>>) -> nat
    decreases classes.len(),
{
    if classes.len() == 0 {
        0
    } else {
        total_count(devices, classes.drop_last()) + class_count(devices, classes.last())
    }
}

proof fn lemma_total_without_last(devices: Seq<DeviceInfo>, classes: Seq<Seq<char>>, at: int)
    requires
        devices.len() > 0,
        classes.no_duplicates(),
        0 <= at < classes.len(),
        classes[at] == devices.last().class@,
    ensures
        total_count(devices, classes) == total_count(devices.drop_last(), classes) + 1,
    decreases classes.len(),
{
    let fewer = classes.drop_last();
    if at < fewer.len() {
        assert(fewer[at] == classes[at]);
        assert(classes[at] != classes[classes.len() - 1]);
        lemma_total_without_last(devices, fewer, at);
    } else {
        lemma_total_of_others(devices, fewer);
    }
}

proof fn lemma_total_of_others(devices: Seq<DeviceInfo>, classes: Seq<Seq<char>>)
    requires
        devices.len() > 0,
        forall|i: int| 0 <= i < classes.len() ==> #[trigger] classes[i] != devices.last().class@,
    ensures
        total_count(devices, classes) == total_count(devices.drop_last(), classes),
    decreases classes.len(),
{
    if classes.len() > 0 {
        let fewer = classes.drop_last();
        assert forall|i: int| 0 <= i < fewer.len() implies #[trigger] fewer[i]
            != devices.last().class@ by {
            assert(fewer[i] == classes[i]);
        }
        lemma_total_of_others(devices, fewer);
        assert(classes[classes.len() - 1] == classes.last());
    }
}

proof fn lemma_total_without_class(devices: Seq<DeviceInfo>, classes: Seq<Seq<char>>, at: int)
    requires
        0 <= at < classes.len(),
        class_count(devices, classes[at]) == 0,
    ensures
        total_count(devices, classes) == total_count(devices, classes.remove(at)),
    decreases classes.len(),
{
    let fewer = classes.drop_last();
    let rest = classes.remove(at);
    if at < classes.len() - 1 {
        assert(fewer[at] == classes[at]);
        lemma_total_without_class(devices, fewer, at);
        assert(rest.drop_last() =~= fewer.remove(at));
        assert(rest.last() == classes.last());
        assert(total_count(devices, rest) == total_count(devices, rest.drop_last()) + class_count(
            devices,
            rest.last(),
        ));
    } else {
        assert(rest =~= fewer);
    }
}

/// Whether `value` is an array of the strings `strings`.
pub open spec fn is_texts(value: toml::Value, strings: Seq<String>) -> bool {
    crate::toml_document::items_in(value) matches Some(items) && items.len() == strings.len()
        && forall|i: int|
        0 <= i < items.len() ==> crate::toml_document::text_in(#[trigger] items[i]) == Some(
            strings[i]@,
        )
}

/// The array of `strings`.
fn texts_value(strings: &Vec<String>) -> (value: toml::Value)
    ensures
        is_texts(value, strings@),
{
    let mut items: Vec<toml::Value> = Vec::new();
    let mut i: usize = 0;
    while i < strings.len()
        invariant
            i <= strings@.len(),
            items@.len() == i,
            forall|k: int|
                0 <= k < i ==> crate::toml_document::text_in(#[trigger] items@[k]) == Some(
                    strings@[k]@,
                ),
        decreases strings@.len() - i,
    {
        items.push(text_value(strings[i].clone()));
        i = i + 1;
    }
    array_value(items)
}

/// Whether `value` is one device table: the selector and the workers on it.
pub open spec fn is_device_entry(value: toml::Value, select: Seq<char>, workers: i64) -> bool {
    crate::toml_document::table_in(value) matches Some(entry) && entry.dom() == set![
        "select"@,
        "workers"@,
    ] && crate::toml_document::text_in(entry["select"@]) == Some(select)
        && crate::toml_document::integer_in(entry["workers"@]) == Some(workers)
}

/// One device table.
fn device_entry(select: &str, workers: i64) -> (value: toml::Value)
    ensures
        is_device_entry(value, select@, workers),
{
    proof {
        reveal_strlit("select");
        reveal_strlit("workers");
        assert("select"@.len() != "workers"@.len());
    }
    let mut entry: toml::Table = empty_table();
    put(&mut entry, "select".to_owned(), text_value(select.to_owned()));
    put(&mut entry, "workers".to_owned(), integer_value(workers));
    proof {
        assert(crate::toml_document::entries(entry).dom() =~= set!["select"@, "workers"@]);
    }
    table_value(entry)
}

/// Whether `value` is the array of the device tables `selectors` state.
pub open spec fn is_selectors(value: toml::Value, selectors: Seq<DeviceSelector>) -> bool {
    crate::toml_document::items_in(value) matches Some(items) && items.len() == selectors.len()
        && forall|i: int|
        0 <= i < items.len() ==> is_device_entry(
            #[trigger] items[i],
            selectors[i].select@,
            selectors[i].workers as i64,
        )
}

/// Whether `value` is the array of one device table per class, in the order of
/// the classes.
pub open spec fn is_class_tables(value: toml::Value, classes: Seq<(String, i64)>) -> bool {
    crate::toml_document::items_in(value) matches Some(items) && items.len() == classes.len()
        && forall|i: int|
        0 <= i < items.len() ==> is_device_entry(
            #[trigger] items[i],
            classes[i].0@,
            classes[i].1,
        )
}

/// Whether `table` is the `[orchestrator]` a machine of yours calls for: its
/// container, and its worker layout.
pub open spec fn is_declared_layout(
    table: Map<Seq<char>, toml::Value>,
    owned: OwnedHost,
) -> bool {
    let base = set!["image"@, "runtime"@];
    let with_args = if owned.container.run_args@.len() > 0 {
        base.insert("run_args"@)
    } else {
        base
    };
    &&& crate::toml_document::text_in(table["image"@]) == Some(owned.container.image@)
    &&& crate::toml_document::text_in(table["runtime"@]) == Some(owned.container.runtime@)
    &&& owned.container.run_args@.len() > 0 ==> is_texts(
        table["run_args"@],
        owned.container.run_args@,
    )
    &&& match owned.pool {
        Pool::Workers(count) => table.dom() == with_args.insert("workers"@)
            && crate::toml_document::integer_in(table["workers"@]) == Some(count as i64),
        Pool::Devices(selectors) => table.dom() == with_args.insert("device"@) && is_selectors(
            table["device"@],
            selectors@,
        ),
    }
}

/// Whether `table` is the `[orchestrator]` a rented machine calls for: one
/// worker bound to nothing where the probe reported no device, and otherwise
/// one device table per class with a worker for each device of it.
pub open spec fn is_probed_layout(
    table: Map<Seq<char>, toml::Value>,
    devices: Seq<DeviceInfo>,
) -> bool {
    if devices.len() == 0 {
        table.dom() == set!["workers"@] && crate::toml_document::integer_in(table["workers"@])
            == Some(1i64)
    } else {
        &&& table.dom() == set!["device"@]
        &&& exists|classes: TextMap<i64>|
            #![trigger classes.wf()]
            classes.wf() && groups_by_class(crate::devices::usable_of(devices), classes@)
                && is_class_tables(table["device"@], classes.pairs@)
    }
}

/// Whether `table` is the `[orchestrator]` that `workers` calls for.
pub open spec fn is_far_orchestrator(
    table: Map<Seq<char>, toml::Value>,
    workers: FarWorkers<'_>,
) -> bool {
    match workers {
        FarWorkers::Declared(owned) => is_declared_layout(table, *owned),
        FarWorkers::Probed(devices) => is_probed_layout(table, devices@),
    }
}

proof fn lemma_class_occurs(devices: Seq<DeviceInfo>, i: int)
    requires
        0 <= i < devices.len(),
    ensures
        class_count(devices, devices[i].class@) > 0,
    decreases devices.len(),
{
    if i < devices.len() - 1 {
        lemma_class_occurs(devices.drop_last(), i);
    }
}

proof fn lemma_some_class_occurs(devices: Seq<DeviceInfo>, classes: TextMap<i64>)
    requires
        devices.len() > 0,
        groups_by_class(crate::devices::usable_of(devices), classes@),
    ensures
        classes.pairs@.len() > 0,
{
    let chosen = crate::devices::usable_of(devices);
    let kept = |device: DeviceInfo| crate::devices::is_hardware(device);
    if exists|i: int|
        0 <= i < devices.len() && crate::devices::is_hardware(#[trigger] devices[i]) {
        let i = choose|i: int|
            0 <= i < devices.len() && crate::devices::is_hardware(#[trigger] devices[i]);
        broadcast use vstd::seq_lib::group_filter_ensures;

        assert(kept(devices[i]));
        assert(chosen.contains(devices[i]));
    }
    assert(chosen.len() > 0);
    lemma_class_occurs(chosen, 0);
    let class = chosen[0].class@;
    assert(classes@.dom().contains(class));
    assert(classes.has(class));
}

/// The far side's `[orchestrator]`: the destination's own worker layout, in
/// whichever of the two shapes its form calls for.
pub fn far_orchestrator(workers: FarWorkers<'_>) -> (table: toml::Table)
    requires
        workers matches FarWorkers::Probed(devices) ==> devices@.len() <= i64::MAX,
    ensures
        is_far_orchestrator(crate::toml_document::entries(table), workers),
{
    proof {
        reveal_strlit("image");
        reveal_strlit("runtime");
        reveal_strlit("run_args");
        reveal_strlit("workers");
        reveal_strlit("device");
        assert("image"@.len() == 5 && "runtime"@.len() == 7 && "run_args"@.len() == 8);
        assert("workers"@.len() == 7 && "device"@.len() == 6);
        assert("runtime"@[0] != "workers"@[0]);
    }
    let mut table: toml::Table = empty_table();
    match workers {
        FarWorkers::Declared(owned) => {
            put(&mut table, "image".to_owned(), text_value(owned.container.image.clone()));
            put(&mut table, "runtime".to_owned(), text_value(owned.container.runtime.clone()));
            if owned.container.run_args.len() > 0 {
                put(&mut table, "run_args".to_owned(), texts_value(&owned.container.run_args));
            }
            match &owned.pool {
                Pool::Workers(count) => {
                    put(&mut table, "workers".to_owned(), integer_value(*count as i64));
                },
                Pool::Devices(selectors) => {
                    let mut items: Vec<toml::Value> = Vec::new();
                    let mut i: usize = 0;
                    while i < selectors.len()
                        invariant
                            i <= selectors@.len(),
                            items@.len() == i,
                            forall|k: int|
                                0 <= k < i ==> is_device_entry(
                                    #[trigger] items@[k],
                                    selectors@[k].select@,
                                    selectors@[k].workers as i64,
                                ),
                        decreases selectors@.len() - i,
                    {
                        let selector: &DeviceSelector = &selectors[i];
                        items.push(
                            device_entry(selector.select.as_str(), selector.workers as i64),
                        );
                        i = i + 1;
                    }
                    put(&mut table, "device".to_owned(), array_value(items));
                },
            }
            proof {
                let far = crate::toml_document::entries(table);
                let base = set!["image"@, "runtime"@];
                let with_args = if owned.container.run_args@.len() > 0 {
                    base.insert("run_args"@)
                } else {
                    base
                };
                match owned.pool {
                    Pool::Workers(_) => {
                        assert(far.dom() =~= with_args.insert("workers"@));
                    },
                    Pool::Devices(_) => {
                        assert(far.dom() =~= with_args.insert("device"@));
                    },
                }
            }
        },
        FarWorkers::Probed(devices) => {
            let classes: TextMap<i64> = probed_classes(devices);
            if classes.pairs.len() == 0 {
                proof {
                    if devices@.len() > 0 {
                        lemma_some_class_occurs(devices@, classes);
                    }
                }
                put(&mut table, "workers".to_owned(), integer_value(1));
                proof {
                    assert(crate::toml_document::entries(table).dom() =~= set!["workers"@]);
                }
            } else {
                proof {
                    if devices@.len() == 0 {
                        let class = classes.pairs@[0].0@;
                        assert(classes.has(class));
                        assert(classes@.dom().contains(class));
                        assert(class_count(crate::devices::usable_of(devices@), class) > 0);
                    }
                }
                let mut items: Vec<toml::Value> = Vec::new();
                let mut i: usize = 0;
                while i < classes.pairs.len()
                    invariant
                        i <= classes.pairs@.len(),
                        items@.len() == i,
                        forall|k: int|
                            0 <= k < i ==> is_device_entry(
                                #[trigger] items@[k],
                                classes.pairs@[k].0@,
                                classes.pairs@[k].1,
                            ),
                    decreases classes.pairs@.len() - i,
                {
                    items.push(device_entry(classes.pairs[i].0.as_str(), classes.pairs[i].1));
                    i = i + 1;
                }
                put(&mut table, "device".to_owned(), array_value(items));
                proof {
                    let far = crate::toml_document::entries(table);
                    assert(far.dom() =~= set!["device"@]);
                    assert(classes.wf() && is_class_tables(far["device"@], classes.pairs@));
                }
            }
        },
    }
    table
}

// ---- The other sections -------------------------------------------------------

/// How the far side answers for a format that a program of this machine's
/// serves: the program's manifest, which the destination installs from, the
/// names of the variables the program receives, and the SDK it imports.
#[derive(Debug, Clone, PartialEq, Eq)]
pub struct Registration {
    /// The format the entry answers for.
    pub format: String,
    /// The digest of the manifest the push carries over.
    pub payload_digest: String,
    /// The variable names the local entry declared. Each value is the
    /// destination's own.
    pub env: Vec<String>,
    /// The SDK the local entry declared, which travels as the same declaration.
    /// The package is the destination binary's to vend.
    pub sdk: Option<String>,
}

/// The keys of the far side's `[domain.<format>]`: the entry point and the
/// manifest always, the variable names and the SDK where the entry declares
/// them.
pub open spec fn domain_keys(registration: Registration) -> Set<Seq<char>> {
    let base = set!["binary"@, "payload_digest"@];
    let named = if registration.env@.len() > 0 {
        base.insert("env"@)
    } else {
        base
    };
    if registration.sdk is Some {
        named.insert("sdk"@)
    } else {
        named
    }
}

/// Whether `table` is the far side's `[domain.<format>]`: the entry point the
/// install leaves, the manifest to install it from, the variable names where
/// there are any, and the SDK where one is declared.
pub open spec fn is_far_domain(
    table: Map<Seq<char>, toml::Value>,
    registration: Registration,
) -> bool {
    &&& table.dom() == domain_keys(registration)
    &&& crate::toml_document::text_in(table["binary"@]) == Some(
        entry_point_of(registration.format@),
    )
    &&& crate::toml_document::text_in(table["payload_digest"@]) == Some(
        registration.payload_digest@,
    )
    &&& registration.env@.len() > 0 ==> is_texts(table["env"@], registration.env@)
    &&& registration.sdk matches Some(sdk) ==> crate::toml_document::text_in(table["sdk"@])
        == Some(sdk@)
}

/// The far side's `[domain.<format>]`. The local entry's own paths do not
/// travel: the destination's entry point is the convention its install fills.
pub fn far_domain(registration: &Registration) -> (table: toml::Table)
    ensures
        is_far_domain(crate::toml_document::entries(table), *registration),
{
    proof {
        reveal_strlit("binary");
        reveal_strlit("payload_digest");
        reveal_strlit("env");
        reveal_strlit("sdk");
        assert("binary"@.len() == 6 && "payload_digest"@.len() == 14 && "env"@.len() == 3
            && "sdk"@.len() == 3);
        assert("env"@[0] == 'e' && "sdk"@[0] == 's');
    }
    let mut table: toml::Table = empty_table();
    let entry_point: String = relative_entry_point(registration.format.as_str());
    put(&mut table, "binary".to_owned(), text_value(entry_point));
    put(
        &mut table,
        "payload_digest".to_owned(),
        text_value(registration.payload_digest.clone()),
    );
    if registration.env.len() > 0 {
        put(&mut table, "env".to_owned(), texts_value(&registration.env));
    }
    match &registration.sdk {
        Some(sdk) => {
            put(&mut table, "sdk".to_owned(), text_value(sdk.clone()));
        },
        None => {},
    }
    proof {
        assert(crate::toml_document::entries(table).dom() =~= domain_keys(*registration));
    }
    table
}

/// Whether `far` is the far side's `[config]` for the local section `local`:
/// the store beside its own file, and every other setting as it was.
pub open spec fn is_far_settings(
    far: Map<Seq<char>, toml::Value>,
    local: Map<Seq<char>, toml::Value>,
) -> bool {
    &&& far.dom() == local.dom().insert("store"@)
    &&& crate::toml_document::text_in(far["store"@]) == Some("./store"@)
    &&& forall|key: Seq<char>|
        local.dom().contains(key) && key != "store"@ ==> #[trigger] far[key] == local[key]
}

/// The local `[config]` section, where it is there and a table.
pub open spec fn settings_in(
    local: Map<Seq<char>, toml::Value>,
) -> Option<Map<Seq<char>, toml::Value>> {
    if local.dom().contains("config"@) {
        crate::toml_document::table_in(local["config"@])
    } else {
        None
    }
}

/// What a configuration without a `[config]` table is refused with.
pub open spec fn no_settings() -> Seq<char> {
    "the local config names no [config] section"@
}

/// The far side's `[config]`. `store` is the one key that does not travel; every
/// other key of the section is carried through as it is.
pub fn far_settings(local: &toml::Table) -> (r: Result<toml::Table, Fault>)
    ensures
        match settings_in(crate::toml_document::entries(*local)) {
            Some(settings) => r matches Ok(far) && is_far_settings(
                crate::toml_document::entries(far),
                settings,
            ),
            None => r matches Err(fault) && fault@ == crate::fault::Complaint::Validation(
                no_settings(),
            ),
        },
{
    let section: Option<toml::Value> = get(local, "config");
    let value: toml::Value = match section {
        Some(value) => value,
        None => {
            return Err(Fault::Validation("the local config names no [config] section".to_owned()));
        },
    };
    let settings: &toml::Table = match as_table(&value) {
        Some(settings) => settings,
        None => {
            return Err(Fault::Validation("the local config names no [config] section".to_owned()));
        },
    };
    let ghost from = crate::toml_document::entries(*settings);
    let mut far: toml::Table = empty_table();
    put(&mut far, "store".to_owned(), text_value("./store".to_owned()));
    let all: Vec<(String, toml::Value)> = pairs(settings);
    let ghost store = crate::toml_document::entries(far)["store"@];
    let mut i: usize = 0;
    while i < all.len()
        invariant
            i <= all@.len(),
            from == crate::toml_document::entries(*settings),
            forall|k: int|
                0 <= k < all@.len() ==> from.dom().contains((#[trigger] all@[k]).0@)
                    && from[all@[k].0@] == all@[k].1,
            forall|k: int, m: int|
                0 <= k < m < all@.len() ==> (#[trigger] all@[k]).0@ != (#[trigger] all@[m]).0@,
            crate::toml_document::entries(far).dom().contains("store"@),
            crate::toml_document::entries(far)["store"@] == store,
            forall|key: Seq<char>|
                #![trigger crate::toml_document::entries(far).dom().contains(key)]
                key != "store"@ ==> (crate::toml_document::entries(far).dom().contains(key) <==> (
                exists|k: int| 0 <= k < i && (#[trigger] all@[k]).0@ == key)),
            forall|k: int|
                0 <= k < i && (#[trigger] all@[k]).0@ != "store"@
                    ==> crate::toml_document::entries(far)[all@[k].0@] == all@[k].1,
        decreases all@.len() - i,
    {
        if !same(all[i].0.as_str(), "store") {
            let ghost was = crate::toml_document::entries(far);
            let pair: &(String, toml::Value) = &all[i];
            let value: Option<toml::Value> = get(settings, pair.0.as_str());
            match value {
                Some(value) => {
                    put(&mut far, pair.0.clone(), value);
                },
                None => {
                    proof {
                        assert(from.dom().contains(all@[i as int].0@));
                    }
                },
            }
            proof {
                let now = crate::toml_document::entries(far);
                assert(now == was.insert(all@[i as int].0@, all@[i as int].1));
                assert forall|key: Seq<char>| key != "store"@ implies (#[trigger]
                now.dom().contains(key) <==> (exists|k: int|
                    0 <= k < i + 1 && (#[trigger] all@[k]).0@ == key)) by {
                    if was.dom().contains(key) {
                        let k = choose|k: int| 0 <= k < i && (#[trigger] all@[k]).0@ == key;
                        assert(all@[k].0@ == key);
                    }
                    if key == all@[i as int].0@ {
                        assert(all@[i as int].0@ == key);
                    }
                    if exists|k: int| 0 <= k < i + 1 && (#[trigger] all@[k]).0@ == key {
                        let k = choose|k: int| 0 <= k < i + 1 && (#[trigger] all@[k]).0@ == key;
                        if k < i {
                            assert(was.dom().contains(key));
                        }
                    }
                }
            }
        } else {
            proof {
                let now = crate::toml_document::entries(far);
                assert forall|key: Seq<char>| key != "store"@ implies (#[trigger]
                now.dom().contains(key) <==> (exists|k: int|
                    0 <= k < i + 1 && (#[trigger] all@[k]).0@ == key)) by {
                    if exists|k: int| 0 <= k < i + 1 && (#[trigger] all@[k]).0@ == key {
                        let k = choose|k: int| 0 <= k < i + 1 && (#[trigger] all@[k]).0@ == key;
                        assert(k < i);
                    }
                }
            }
        }
        i = i + 1;
    }
    proof {
        let now = crate::toml_document::entries(far);
        assert forall|key: Seq<char>| now.dom().contains(key) == from.dom().insert(
            "store"@,
        ).contains(key) by {
            if key != "store"@ && now.dom().contains(key) {
                let k = choose|k: int| 0 <= k < i && (#[trigger] all@[k]).0@ == key;
                assert(from.dom().contains(all@[k].0@));
            }
        }
        assert(now.dom() =~= from.dom().insert("store"@));
        assert forall|key: Seq<char>| from.dom().contains(key) && key != "store"@ implies #[trigger]
        now[key] == from[key] by {
            let k = choose|k: int| 0 <= k < all@.len() && (#[trigger] all@[k]).0@ == key;
            assert(from[all@[k].0@] == all@[k].1);
        }
    }
    Ok(far)
}

// ---- The whole ------------------------------------------------------------------

/// Whether `far` is the far configuration for the local one: `[run]` as it was,
/// the far side's own `[config]` and `[orchestrator]`, a `[domain.<format>]`
/// where the format is registered, and nothing else.
pub open spec fn is_far_document(
    far: Map<Seq<char>, toml::Value>,
    local: Map<Seq<char>, toml::Value>,
    workers: FarWorkers<'_>,
    registration: Option<&Registration>,
) -> bool {
    let base = set!["run"@, "config"@, "orchestrator"@];
    &&& far["run"@] == local["run"@]
    &&& crate::toml_document::table_in(far["config"@]) matches Some(settings) && is_far_settings(
        settings,
        settings_in(local)->0,
    )
    &&& crate::toml_document::table_in(far["orchestrator"@]) matches Some(layout)
        && is_far_orchestrator(layout, workers)
    &&& match registration {
        None => far.dom() == base,
        Some(registration) => {
            &&& far.dom() == base.insert("domain"@)
            &&& crate::toml_document::table_in(far["domain"@]) matches Some(domains) && (
            domains.dom() == set![registration.format@]) && (crate::toml_document::table_in(
                domains[registration.format@],
            ) matches Some(entry) && is_far_domain(entry, *registration))
        },
    }
}

/// What the far configuration comes out as, for a local text that reads as
/// `local` and a far document that writes as `written`.
pub open spec fn far_config_outcome(
    r: Result<String, Fault>,
    text: Seq<char>,
    workers: FarWorkers<'_>,
    registration: Option<&Registration>,
) -> bool {
    match crate::toml_document::read(text) {
        Err(complaint) => r matches Err(fault) && fault@ == crate::fault::Complaint::Validation(
            "the local config no longer parses: "@ + complaint,
        ),
        Ok(local) => if !local.dom().contains("run"@) {
            r matches Err(fault) && fault@ == crate::fault::Complaint::Validation(
                "the local config names no [run] section"@,
            )
        } else if settings_in(local) is None {
            r matches Err(fault) && fault@ == crate::fault::Complaint::Validation(no_settings())
        } else {
            exists|far: toml::Table|
                #![trigger crate::toml_document::written(far)]
                is_far_document(
                    crate::toml_document::entries(far),
                    local,
                    workers,
                    registration,
                ) && match crate::toml_document::written(far) {
                    Ok(text) => r matches Ok(out) && out@ == text
                        && crate::toml_document::gives_back(
                        crate::toml_document::entries(far),
                        text,
                    ),
                    Err(complaint) => r matches Err(fault) && fault@
                        == crate::fault::Complaint::Encoding(
                        "the far-side config cannot be written: "@ + complaint,
                    ),
                }
        },
    }
}

/// The configuration the far side runs, synthesized from the local one's own
/// text.
///
/// `registration` is present exactly when the run's format is served by a
/// program this machine routes it to.
pub fn far_config(
    local_text: &str,
    workers: FarWorkers<'_>,
    registration: Option<&Registration>,
) -> (r: Result<String, Fault>)
    requires
        workers matches FarWorkers::Probed(devices) ==> devices@.len() <= i64::MAX,
    ensures
        far_config_outcome(r, local_text@, workers, registration),
{
    proof {
        reveal_strlit("run");
        reveal_strlit("config");
        reveal_strlit("orchestrator");
        reveal_strlit("domain");
        assert("run"@.len() == 3 && "config"@.len() == 6 && "orchestrator"@.len() == 12);
        assert("domain"@.len() == 6);
        assert("config"@[0] != "domain"@[0]);
    }
    let local: toml::Table = match read_document(local_text) {
        Ok(local) => local,
        Err(error) => {
            let complaint: String = read_error_text(&error);
            return Err(
                Fault::Validation(
                    cat("the local config no longer parses: ", complaint.as_str()),
                ),
            );
        },
    };
    let run: toml::Value = match get(&local, "run") {
        Some(run) => run,
        None => {
            return Err(Fault::Validation("the local config names no [run] section".to_owned()));
        },
    };
    let settings: toml::Table = match far_settings(&local) {
        Ok(settings) => settings,
        Err(fault) => {
            return Err(fault);
        },
    };
    let layout: toml::Table = far_orchestrator(workers);
    let mut far: toml::Table = empty_table();
    put(&mut far, "run".to_owned(), run);
    put(&mut far, "config".to_owned(), table_value(settings));
    put(&mut far, "orchestrator".to_owned(), table_value(layout));
    proof {
        assert(crate::toml_document::entries(far).dom() =~= set![
            "run"@,
            "config"@,
            "orchestrator"@,
        ]);
    }
    match registration {
        None => {},
        Some(registration) => {
            let mut domains: toml::Table = empty_table();
            let entry: toml::Table = far_domain(registration);
            put(&mut domains, registration.format.clone(), table_value(entry));
            proof {
                assert(crate::toml_document::entries(domains).dom() =~= set![
                    registration.format@,
                ]);
            }
            put(&mut far, "domain".to_owned(), table_value(domains));
            proof {
                assert(crate::toml_document::entries(far).dom() =~= set![
                    "run"@,
                    "config"@,
                    "orchestrator"@,
                ].insert("domain"@));
            }
        },
    }
    proof {
        assert(is_far_document(
            crate::toml_document::entries(far),
            crate::toml_document::entries(local),
            workers,
            registration,
        ));
    }
    match write_document(&far) {
        Ok(text) => Ok(text),
        Err(error) => {
            let complaint: String = write_error_text(&error);
            Err(
                Fault::Encoding(
                    cat("the far-side config cannot be written: ", complaint.as_str()),
                ),
            )
        },
    }
}

proof fn lemma_date_key_is_no_other(key: Seq<char>)
    requires
        key.len() < 20,
    ensures
        key != crate::toml_document::date_key(),
{
    reveal_strlit("$__toml_private_datetime");
}

proof fn lemma_device_entry_is_plain(value: toml::Value, select: Seq<char>, workers: i64)
    requires
        is_device_entry(value, select, workers),
    ensures
        crate::toml_document::plain(value, 1),
{
    reveal_strlit("select");
    reveal_strlit("workers");
    lemma_date_key_is_no_other("select"@);
    lemma_date_key_is_no_other("workers"@);
    let entry = crate::toml_document::table_in(value)->0;
    assert(crate::toml_document::plain_entries(entry, 0));
}

proof fn lemma_layout_is_plain(table: Map<Seq<char>, toml::Value>, workers: FarWorkers<'_>)
    requires
        is_far_orchestrator(table, workers),
    ensures
        crate::toml_document::plain_entries(table, 2),
{
    reveal_strlit("image");
    reveal_strlit("runtime");
    reveal_strlit("run_args");
    reveal_strlit("workers");
    reveal_strlit("device");
    lemma_date_key_is_no_other("image"@);
    lemma_date_key_is_no_other("runtime"@);
    lemma_date_key_is_no_other("run_args"@);
    lemma_date_key_is_no_other("workers"@);
    lemma_date_key_is_no_other("device"@);
    let device = table["device"@];
    match workers {
        FarWorkers::Declared(owned) => {
            if let Pool::Devices(selectors) = owned.pool {
                let items = crate::toml_document::items_in(device)->0;
                assert forall|i: int| 0 <= i < items.len() implies crate::toml_document::plain(
                    #[trigger] items[i],
                    1,
                ) by {
                    lemma_device_entry_is_plain(
                        items[i],
                        selectors@[i].select@,
                        selectors@[i].workers as i64,
                    );
                }
                assert(crate::toml_document::plain(device, 2));
            }
            if owned.container.run_args@.len() > 0 {
                lemma_texts_are_plain(table["run_args"@], owned.container.run_args@);
            }
        },
        FarWorkers::Probed(devices) => {
            if devices@.len() > 0 {
                let classes = choose|classes: TextMap<i64>|
                    #![trigger classes.wf()]
                    classes.wf() && groups_by_class(
                        crate::devices::usable_of(devices@),
                        classes@,
                    ) && is_class_tables(device, classes.pairs@);
                let items = crate::toml_document::items_in(device)->0;
                assert forall|i: int| 0 <= i < items.len() implies crate::toml_document::plain(
                    #[trigger] items[i],
                    1,
                ) by {
                    lemma_device_entry_is_plain(
                        items[i],
                        classes.pairs@[i].0@,
                        classes.pairs@[i].1,
                    );
                }
                assert(crate::toml_document::plain(device, 2));
            }
        },
    }
}

proof fn lemma_texts_are_plain(value: toml::Value, strings: Seq<String>)
    requires
        is_texts(value, strings),
    ensures
        crate::toml_document::plain(value, 1),
        crate::toml_document::plain(value, 2),
{
    let items = crate::toml_document::items_in(value)->0;
    assert forall|i: int| 0 <= i < items.len() implies crate::toml_document::plain(
        #[trigger] items[i],
        0,
    ) && crate::toml_document::plain(items[i], 1) by {
        assert(crate::toml_document::text_in(items[i]) is Some);
    }
}

proof fn lemma_domain_is_plain(table: Map<Seq<char>, toml::Value>, registration: Registration)
    requires
        is_far_domain(table, registration),
    ensures
        crate::toml_document::plain_entries(table, 1),
{
    reveal_strlit("binary");
    reveal_strlit("payload_digest");
    reveal_strlit("env");
    reveal_strlit("sdk");
    lemma_date_key_is_no_other("sdk"@);
    lemma_date_key_is_no_other("binary"@);
    lemma_date_key_is_no_other("payload_digest"@);
    lemma_date_key_is_no_other("env"@);
    if registration.env@.len() > 0 {
        lemma_texts_are_plain(table["env"@], registration.env@);
    }
}

/// What the far side reads is the far document of the run: the text, where it
/// reads, gives the local `[run]` back, the settings, the worker layout, and the
/// registration. So the far side runs the same run. It holds of sections whose
/// floats are numbers, where neither a setting nor the format is named as a date
/// stands for itself.
pub proof fn the_far_text_is_the_same_run(
    r: Result<String, Fault>,
    local_text: Seq<char>,
    workers: FarWorkers<'_>,
    registration: Option<&Registration>,
    depth: nat,
)
    requires
        far_config_outcome(r, local_text, workers, registration),
        r is Ok,
        crate::toml_document::read(r->Ok_0@) is Ok,
        crate::toml_document::ordinary(
            (crate::toml_document::read(local_text)->Ok_0)["run"@],
            depth,
        ),
        crate::toml_document::ordinary_entries(
            settings_in(crate::toml_document::read(local_text)->Ok_0)->0,
            depth,
        ),
        registration matches Some(registration) ==> registration.format@
            != crate::toml_document::date_key(),
    ensures
        crate::toml_document::read(local_text) is Ok,
        is_far_document(
            crate::toml_document::read(r->Ok_0@)->Ok_0,
            crate::toml_document::read(local_text)->Ok_0,
            workers,
            registration,
        ),
        (crate::toml_document::read(r->Ok_0@)->Ok_0)["run"@] == (crate::toml_document::read(
            local_text,
        )->Ok_0)["run"@],
{
    let local = crate::toml_document::read(local_text)->Ok_0;
    let table = choose|far: toml::Table|
        #![trigger crate::toml_document::written(far)]
        is_far_document(crate::toml_document::entries(far), local, workers, registration)
            && match crate::toml_document::written(far) {
            Ok(text) => r matches Ok(out) && out@ == text && crate::toml_document::gives_back(
                crate::toml_document::entries(far),
                text,
            ),
            Err(complaint) => r matches Err(fault) && fault@ == crate::fault::Complaint::Encoding(
                "the far-side config cannot be written: "@ + complaint,
            ),
        };
    let far = crate::toml_document::entries(table);
    let back = crate::toml_document::read(r->Ok_0@)->Ok_0;
    assert(crate::toml_document::holds(local["run"@], local["run"@], 0));
    assert(crate::toml_document::stands_at(local_text, "run"@, local["run"@], 0));
    crate::toml_document::what_was_read_is_plain(local_text, "run"@, local["run"@], 0, depth);
    assert(crate::toml_document::plain(far["run"@], depth));
    reveal_strlit("store");
    lemma_date_key_is_no_other("store"@);
    let settings = crate::toml_document::table_in(far["config"@])->0;
    let from = settings_in(local)->0;
    assert forall|key: Seq<char>| settings.dom().contains(key) implies crate::toml_document::plain(
        #[trigger] settings[key],
        depth,
    ) by {
        if key != "store"@ {
            assert(from.dom().contains(key));
            assert(settings[key] == from[key]);
            assert(crate::toml_document::holds(from[key], from[key], 0));
            assert(crate::toml_document::holds(local["config"@], from[key], 1));
            assert(crate::toml_document::stands_at(local_text, "config"@, from[key], 1));
            assert(crate::toml_document::ordinary(from[key], depth));
            crate::toml_document::what_was_read_is_plain(
                local_text,
                "config"@,
                from[key],
                1,
                depth,
            );
        }
    }
    assert(crate::toml_document::plain_entries(settings, depth));
    assert(crate::toml_document::plain(far["config"@], depth + 1));
    lemma_layout_is_plain(
        crate::toml_document::table_in(far["orchestrator"@])->0,
        workers,
    );
    assert(crate::toml_document::plain(far["orchestrator"@], 3));
    if let Some(registration) = registration {
        let domains = crate::toml_document::table_in(far["domain"@])->0;
        lemma_domain_is_plain(
            crate::toml_document::table_in(domains[registration.format@])->0,
            *registration,
        );
        assert(crate::toml_document::plain(domains[registration.format@], 2));
        assert(crate::toml_document::plain_entries(domains, 2));
        assert(crate::toml_document::plain(far["domain"@], 3));
    }
}

/// A far document declares no machine but the one it is for: it has no section
/// for hosts, classes, a fleet, or a budget, whatever the local one has.
pub proof fn no_other_machine_survives(
    far: Map<Seq<char>, toml::Value>,
    local: Map<Seq<char>, toml::Value>,
    workers: FarWorkers<'_>,
    registration: Option<&Registration>,
    section: Seq<char>,
)
    requires
        is_far_document(far, local, workers, registration),
        far.dom().contains(section),
    ensures
        section == "run"@ || section == "config"@ || section == "orchestrator"@ || (section
            == "domain"@ && registration is Some),
{
}

/// Registering a program leaves the run, its settings, and the worker layout as
/// they are without it.
pub proof fn registration_leaves_the_run_alone(
    far: Map<Seq<char>, toml::Value>,
    plain: Map<Seq<char>, toml::Value>,
    local: Map<Seq<char>, toml::Value>,
    workers: FarWorkers<'_>,
    registration: &Registration,
)
    requires
        is_far_document(far, local, workers, Some(registration)),
        is_far_document(plain, local, workers, None),
    ensures
        far["run"@] == plain["run"@],
        far["run"@] == local["run"@],
        far.dom() == plain.dom().insert("domain"@),
{
}

/// The far side of a machine of yours works as its entry declares: in the image,
/// the runtime, and under the arguments it names, with the workers or on the
/// devices it states, and with nothing else.
pub proof fn a_machine_of_yours_works_as_declared(
    table: Map<Seq<char>, toml::Value>,
    owned: OwnedHost,
)
    requires
        is_far_orchestrator(table, FarWorkers::Declared(&owned)),
    ensures
        crate::toml_document::text_in(table["image"@]) == Some(owned.container.image@),
        crate::toml_document::text_in(table["runtime"@]) == Some(owned.container.runtime@),
        table.dom().contains("image"@) && table.dom().contains("runtime"@),
        table.dom().contains("run_args"@) <==> owned.container.run_args@.len() > 0,
        table.dom().contains("workers"@) <==> owned.pool is Workers,
        table.dom().contains("device"@) <==> owned.pool is Devices,
        owned.pool matches Pool::Workers(count) ==> crate::toml_document::integer_in(
            table["workers"@],
        ) == Some(count as i64),
        owned.pool matches Pool::Devices(selectors) ==> (crate::toml_document::items_in(
            table["device"@],
        ) matches Some(items) && items.len() == selectors@.len()),
        forall|key: Seq<char>| #[trigger]
            table.dom().contains(key) ==> key == "image"@ || key == "runtime"@ || key
                == "run_args"@ || key == "workers"@ || key == "device"@,
{
    reveal_strlit("image");
    reveal_strlit("runtime");
    reveal_strlit("run_args");
    reveal_strlit("workers");
    reveal_strlit("device");
    assert("image"@.len() == 5 && "runtime"@.len() == 7 && "run_args"@.len() == 8 && "workers"@.len()
        == 7 && "device"@.len() == 6);
    assert("runtime"@[0] == 'r' && "workers"@[0] == 'w');
}

/// A rented machine that reported no device gets one worker, and any other gets
/// no plain worker but the classes of its devices.
pub proof fn a_rented_machine_works_on_what_it_reported(
    table: Map<Seq<char>, toml::Value>,
    devices: Vec<DeviceInfo>,
)
    requires
        is_far_orchestrator(table, FarWorkers::Probed(&devices)),
    ensures
        table.dom().contains("workers"@) <==> devices@.len() == 0,
        table.dom().contains("device"@) <==> devices@.len() > 0,
        devices@.len() == 0 ==> crate::toml_document::integer_in(table["workers"@]) == Some(1i64),
        !table.dom().contains("image"@),
{
    reveal_strlit("image");
    reveal_strlit("workers");
    reveal_strlit("device");
    assert("image"@.len() == 5 && "workers"@.len() == 7 && "device"@.len() == 6);
}

/// A registered program is named on the far side by where its install leaves it
/// and by the digest it is installed from, with its variables and its SDK exactly
/// where the local entry has them.
pub proof fn a_registration_names_what_travelled(
    table: Map<Seq<char>, toml::Value>,
    registration: Registration,
)
    requires
        is_far_domain(table, registration),
    ensures
        table.dom().contains("binary"@) && crate::toml_document::text_in(table["binary"@]) == Some(
            entry_point_of(registration.format@),
        ),
        table.dom().contains("payload_digest"@) && crate::toml_document::text_in(
            table["payload_digest"@],
        ) == Some(registration.payload_digest@),
        table.dom().contains("env"@) <==> registration.env@.len() > 0,
        table.dom().contains("sdk"@) <==> registration.sdk is Some,
        registration.sdk matches Some(sdk) ==> crate::toml_document::text_in(table["sdk"@]) == Some(
            sdk@,
        ),
        !table.dom().contains("payload"@),
{
    reveal_strlit("binary");
    reveal_strlit("payload_digest");
    reveal_strlit("env");
    reveal_strlit("sdk");
    reveal_strlit("payload");
    assert("binary"@.len() == 6 && "payload_digest"@.len() == 14 && "env"@.len() == 3 && "sdk"@.len()
        == 3 && "payload"@.len() == 7);
    assert("env"@[0] == 'e' && "sdk"@[0] == 's');
}

} // verus!
