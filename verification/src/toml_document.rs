//! TOML documents, as the `toml` crate holds, reads, and writes them.
//!
//! A table is a `toml::Table` and a value is a `toml::Value`; both are opaque
//! here. What a table holds is [`entries`], and what a value is made of is one
//! of [`text_in`], [`integer_in`], [`items_in`], and [`table_in`]. A flag, a
//! float, or a date is carried from one document into another and never looked
//! into.
use vstd::prelude::*;

verus! {

#[verifier::external_type_specification]
#[verifier::external_body]
pub struct ExTomlValue(toml::Value);

#[verifier::external_type_specification]
#[verifier::external_body]
#[verifier::reject_recursive_types(K)]
#[verifier::reject_recursive_types(V)]
pub struct ExTomlMap<K, V>(toml::map::Map<K, V>);

#[verifier::external_type_specification]
#[verifier::external_body]
pub struct ExTomlReadError(toml::de::Error);

#[verifier::external_type_specification]
#[verifier::external_body]
pub struct ExTomlWriteError(toml::ser::Error);

// ---- What the outside values hold ------------------------------------------

/// The keys of a table and the value at each.
pub uninterp spec fn entries(table: toml::Table) -> Map<Seq<char>, toml::Value>;

/// The string a value is, as `toml::Value::as_str` would give it.
pub uninterp spec fn text_in(value: toml::Value) -> Option<Seq<char>>;

/// The integer a value is, as `toml::Value::as_integer` would give it.
pub uninterp spec fn integer_in(value: toml::Value) -> Option<i64>;

/// The flag a value is, as `toml::Value::as_bool` would give it.
pub uninterp spec fn flag_in(value: toml::Value) -> Option<bool>;

/// The bits of the float a value is, as `toml::Value::as_float` would give it.
pub uninterp spec fn float_in(value: toml::Value) -> Option<u64>;

/// What the date a value is displays as, as `toml::Value::as_datetime` would
/// give it.
pub uninterp spec fn date_in(value: toml::Value) -> Option<Seq<char>>;

/// The elements of the array a value is, as `toml::Value::as_array` would give
/// it.
pub uninterp spec fn items_in(value: toml::Value) -> Option<Seq<toml::Value>>;

/// The entries of the table a value is, as `toml::Value::as_table` gives it.
pub uninterp spec fn table_in(value: toml::Value) -> Option<Map<Seq<char>, toml::Value>>;

/// What a reader's error displays as.
pub uninterp spec fn read_complaint(error: toml::de::Error) -> Seq<char>;

/// What a writer's error displays as.
pub uninterp spec fn write_complaint(error: toml::ser::Error) -> Seq<char>;

/// What `toml::from_str` makes of a text: the top-level entries, or the
/// complaint.
pub uninterp spec fn read(text: Seq<char>) -> Result<Map<Seq<char>, toml::Value>, Seq<char>>;

/// What `toml::to_string_pretty` makes of a table: the text, or the complaint.
pub uninterp spec fn written(table: toml::Table) -> Result<Seq<char>, Seq<char>>;

// ---- What reads back --------------------------------------------------------

/// The key under which a table stands for a date: the reader takes a table whose
/// first key it is for the date.
pub open spec fn date_key() -> Seq<char> {
    "$__toml_private_datetime"@
}

/// Whether the bits of a float are those of a number, or of an infinity.
pub open spec fn is_number(bits: u64) -> bool {
    bits & 0x7fff_ffff_ffff_ffff <= 0x7ff0_0000_0000_0000
}

/// Whether a value is a text, an integer, a flag, or a float that is a number.
pub open spec fn is_simple(value: toml::Value) -> bool {
    ||| text_in(value) is Some
    ||| integer_in(value) is Some
    ||| flag_in(value) is Some
    ||| float_in(value) matches Some(bits) && is_number(bits)
}

/// Whether `inner` is `outer`, or stands in its arrays and tables, no more than
/// `depth` deep.
pub open spec fn holds(outer: toml::Value, inner: toml::Value, depth: nat) -> bool
    decreases depth,
{
    ||| outer == inner
    ||| {
        &&& depth > 0
        &&& items_in(outer) matches Some(items)
        &&& exists|i: int|
            0 <= i < items.len() && holds(#[trigger] items[i], inner, (depth - 1) as nat)
    }
    ||| {
        &&& depth > 0
        &&& table_in(outer) matches Some(table)
        &&& exists|key: Seq<char>|
            table.dom().contains(key) && holds(#[trigger] table[key], inner, (depth - 1) as nat)
    }
}

/// Whether the reader gave a value, at any place of any document.
pub open spec fn was_read(value: toml::Value) -> bool {
    exists|text: Seq<char>, key: Seq<char>, depth: nat|
        #![trigger stands_at(text, key, value, depth)]
        stands_at(text, key, value, depth)
}

/// Whether a value stands at the key of the document that `text` reads as, or
/// below it.
pub open spec fn stands_at(text: Seq<char>, key: Seq<char>, value: toml::Value, depth: nat) -> bool {
    &&& read(text) matches Ok(document)
    &&& document.dom().contains(key)
    &&& holds(document[key], value, depth)
}

/// Whether every entry of a table is plain, and none stands for a date.
pub open spec fn plain_entries(table: Map<Seq<char>, toml::Value>, depth: nat) -> bool
    decreases depth, 1int,
{
    &&& !table.dom().contains(date_key())
    &&& forall|key: Seq<char>|
        table.dom().contains(key) ==> plain(#[trigger] table[key], depth)
}

/// Whether a value is made of texts, flags, numbers, and dates that the reader
/// gave, in arrays and tables no more than `depth` deep.
pub open spec fn plain(value: toml::Value, depth: nat) -> bool
    decreases depth, 0int,
{
    ||| is_simple(value)
    ||| date_in(value) is Some && was_read(value)
    ||| {
        &&& depth > 0
        &&& items_in(value) matches Some(items)
        &&& forall|i: int|
            0 <= i < items.len() ==> plain(#[trigger] items[i], (depth - 1) as nat)
    }
    ||| {
        &&& depth > 0
        &&& table_in(value) matches Some(table)
        &&& plain_entries(table, (depth - 1) as nat)
    }
}

/// Whether every entry of a table is ordinary, and none stands for a date.
pub open spec fn ordinary_entries(table: Map<Seq<char>, toml::Value>, depth: nat) -> bool
    decreases depth, 1int,
{
    &&& !table.dom().contains(date_key())
    &&& forall|key: Seq<char>|
        table.dom().contains(key) ==> ordinary(#[trigger] table[key], depth)
}

/// Whether a value is made of texts, flags, numbers, and dates, in arrays and
/// tables no more than `depth` deep.
pub open spec fn ordinary(value: toml::Value, depth: nat) -> bool
    decreases depth, 0int,
{
    ||| is_simple(value)
    ||| date_in(value) is Some
    ||| {
        &&& depth > 0
        &&& items_in(value) matches Some(items)
        &&& forall|i: int|
            0 <= i < items.len() ==> ordinary(#[trigger] items[i], (depth - 1) as nat)
    }
    ||| {
        &&& depth > 0
        &&& table_in(value) matches Some(table)
        &&& ordinary_entries(table, (depth - 1) as nat)
    }
}

proof fn lemma_holds_further(
    outer: toml::Value,
    middle: toml::Value,
    inner: toml::Value,
    depth: nat,
)
    requires
        holds(outer, middle, depth),
        (items_in(middle) matches Some(items) && items.contains(inner)) || (table_in(
            middle,
        ) matches Some(table) && exists|key: Seq<char>|
            table.dom().contains(key) && #[trigger] table[key] == inner),
    ensures
        holds(outer, inner, depth + 1),
    decreases depth,
{
    assert(holds(inner, inner, depth));
    if outer == middle {
        if items_in(middle) matches Some(items) && items.contains(inner) {
            let items = items_in(middle)->0;
            let i = choose|i: int| 0 <= i < items.len() && items[i] == inner;
            assert(holds(items[i], inner, depth));
        } else {
            let table = table_in(middle)->0;
            let key = choose|key: Seq<char>|
                table.dom().contains(key) && #[trigger] table[key] == inner;
            assert(holds(table[key], inner, depth));
        }
    } else if items_in(outer) matches Some(items) && exists|i: int|
        0 <= i < items.len() && holds(#[trigger] items[i], middle, (depth - 1) as nat) {
        let items = items_in(outer)->0;
        let i = choose|i: int|
            0 <= i < items.len() && holds(#[trigger] items[i], middle, (depth - 1) as nat);
        lemma_holds_further(items[i], middle, inner, (depth - 1) as nat);
        assert(holds(items[i], inner, depth));
    } else {
        let table = table_in(outer)->0;
        let key = choose|key: Seq<char>|
            table.dom().contains(key) && holds(#[trigger] table[key], middle, (depth - 1) as nat);
        lemma_holds_further(table[key], middle, inner, (depth - 1) as nat);
        assert(holds(table[key], inner, depth));
    }
}

/// A value that was read and is ordinary is plain: its dates were read with it.
pub proof fn what_was_read_is_plain(
    text: Seq<char>,
    key: Seq<char>,
    value: toml::Value,
    depth: nat,
    size: nat,
)
    requires
        stands_at(text, key, value, depth),
        ordinary(value, size),
    ensures
        plain(value, size),
    decreases size,
{
    let outer = (read(text)->Ok_0)[key];
    assert(was_read(value));
    if !is_simple(value) && !(date_in(value) is Some) {
        let fewer = (size - 1) as nat;
        if items_in(value) matches Some(items) && forall|i: int|
            0 <= i < items.len() ==> ordinary(#[trigger] items[i], fewer) {
            let items = items_in(value)->0;
            assert forall|i: int| 0 <= i < items.len() implies plain(#[trigger] items[i], fewer) by {
                assert(items.contains(items[i]));
                lemma_holds_further(outer, value, items[i], depth);
                assert(ordinary(items[i], fewer));
                what_was_read_is_plain(text, key, items[i], depth + 1, fewer);
            }
        } else {
            let table = table_in(value)->0;
            assert(ordinary_entries(table, fewer));
            assert forall|k: Seq<char>| table.dom().contains(k) implies plain(
                #[trigger] table[k],
                fewer,
            ) by {
                lemma_holds_further(outer, value, table[k], depth);
                assert(ordinary(table[k], fewer));
                what_was_read_is_plain(text, key, table[k], depth + 1, fewer);
            }
            assert(plain_entries(table, fewer));
        }
    }
}

/// Whether `text`, where it reads at all, gives `document` back: its keys, and
/// every value of it that is plain.
pub open spec fn gives_back(document: Map<Seq<char>, toml::Value>, text: Seq<char>) -> bool {
    read(text) matches Ok(back) ==> {
        &&& back.dom() == document.dom()
        &&& forall|key: Seq<char>, depth: nat|
            document.dom().contains(key) && #[trigger] plain(document[key], depth) ==> back[key]
                == document[key]
    }
}

// ---- Reading and writing ----------------------------------------------------

/// `toml::from_str::<toml::Table>`. The contract claims that the entries of the
/// table, or what the error displays as, are a function of the text alone.
#[verifier::external_body]
pub(crate) fn read_document(text: &str) -> (r: Result<toml::Table, toml::de::Error>)
    ensures
        match r {
            Ok(table) => read(text@) == Ok::<_, Seq<char>>(entries(table)),
            Err(error) => read(text@) == Err::<Map<Seq<char>, toml::Value>, _>(
                read_complaint(error),
            ),
        },
{
    toml::from_str(text)
}

/// `<toml::de::Error as ToString>::to_string`: the text the error displays as.
#[verifier::external_body]
pub(crate) fn read_error_text(error: &toml::de::Error) -> (out: String)
    ensures
        out@ == read_complaint(*error),
{
    error.to_string()
}

/// `toml::to_string_pretty` of a table. The contract claims that the text, or
/// what the error displays as, is a function of the table alone, and that the
/// text, where `toml::from_str` reads it, gives back the table's keys and every
/// value made of texts, integers, flags, floats that are numbers or infinities,
/// and dates as the reader gives them.
///
/// Four things are left unsaid. A text nested deeper than the reader goes does
/// not read. The writer drops the sign of a float that is no number. A table
/// that holds the key for dates is read as the date. And a date put together by
/// hand may have a fraction of a second and no second, which reads as the second
/// zero.
#[verifier::external_body]
pub(crate) fn write_document(table: &toml::Table) -> (r: Result<String, toml::ser::Error>)
    ensures
        match r {
            Ok(text) => written(*table) == Ok::<_, Seq<char>>(text@),
            Err(error) => written(*table) == Err::<Seq<char>, _>(write_complaint(error)),
        },
        r matches Ok(text) ==> gives_back(entries(*table), text@),
{
    toml::to_string_pretty(table)
}

/// `<toml::ser::Error as ToString>::to_string`: the text the error displays as.
#[verifier::external_body]
pub(crate) fn write_error_text(error: &toml::ser::Error) -> (out: String)
    ensures
        out@ == write_complaint(*error),
{
    error.to_string()
}

// ---- Tables -----------------------------------------------------------------

/// `toml::map::Map::new`: a table with no entries.
#[verifier::external_body]
pub(crate) fn empty_table() -> (table: toml::Table)
    ensures
        entries(table).dom() == Set::<Seq<char>>::empty(),
{
    toml::Table::new()
}

/// `toml::map::Map::insert`: the value stands at the key afterwards, whatever
/// stood there, and every other entry is as it was.
#[verifier::external_body]
pub(crate) fn put(table: &mut toml::Table, key: String, value: toml::Value)
    ensures
        entries(*final(table)) == entries(*old(table)).insert(key@, value),
{
    table.insert(key, value);
}

/// `toml::map::Map::get`, with the value cloned: the value at the key, or
/// nothing where the table has no such key.
#[verifier::external_body]
pub(crate) fn get(table: &toml::Table, key: &str) -> (r: Option<toml::Value>)
    ensures
        r == (if entries(*table).dom().contains(key@) {
            Some(entries(*table)[key@])
        } else {
            None
        }),
{
    table.get(key).cloned()
}

/// `toml::map::Map::iter`, each pair cloned: every entry of the table, each
/// once.
#[verifier::external_body]
pub(crate) fn pairs(table: &toml::Table) -> (r: Vec<(String, toml::Value)>)
    ensures
        forall|i: int|
            0 <= i < r@.len() ==> entries(*table).dom().contains((#[trigger] r@[i]).0@)
                && entries(*table)[r@[i].0@] == r@[i].1,
        forall|key: Seq<char>| #[trigger]
            entries(*table).dom().contains(key) ==> exists|i: int|
                0 <= i < r@.len() && (#[trigger] r@[i]).0@ == key,
        forall|i: int, j: int|
            0 <= i < j < r@.len() ==> (#[trigger] r@[i]).0@ != (#[trigger] r@[j]).0@,
{
    table.iter().map(|(key, value)| (key.clone(), value.clone())).collect()
}

// ---- Values -----------------------------------------------------------------

/// `toml::Value::as_table`: the table the value is, or nothing where it is of
/// another type.
#[verifier::external_body]
pub(crate) fn as_table(value: &toml::Value) -> (r: Option<&toml::Table>)
    ensures
        match r {
            Some(table) => table_in(*value) == Some(entries(*table)),
            None => table_in(*value) is None,
        },
{
    value.as_table()
}

/// The variant `toml::Value::String`.
#[verifier::external_body]
pub(crate) fn text_value(text: String) -> (value: toml::Value)
    ensures
        text_in(value) == Some(text@),
        flag_in(value) is None,
        float_in(value) is None,
        date_in(value) is None,
{
    toml::Value::String(text)
}

/// The variant `toml::Value::Integer`.
#[verifier::external_body]
pub(crate) fn integer_value(n: i64) -> (value: toml::Value)
    ensures
        integer_in(value) == Some(n),
{
    toml::Value::Integer(n)
}

/// The variant `toml::Value::Array`.
#[verifier::external_body]
pub(crate) fn array_value(items: Vec<toml::Value>) -> (value: toml::Value)
    ensures
        items_in(value) == Some(items@),
{
    toml::Value::Array(items)
}

/// The variant `toml::Value::Table`.
#[verifier::external_body]
pub(crate) fn table_value(table: toml::Table) -> (value: toml::Value)
    ensures
        table_in(value) == Some(entries(table)),
{
    toml::Value::Table(table)
}

} // verus!
