//! The text every other module builds its paths, scripts, and messages from.
//!
//! A string's model is its sequence of characters. The operations here are the
//! few that the pipeline needs beyond concatenation: trimming, searching,
//! decimal numerals in both directions, and the last lines of a log.
use vstd::prelude::*;
use vstd::string::*;

verus! {

/// The escaped, double-quoted form of `s` that `{:?}` prints.
pub uninterp spec fn quoted(s: Seq<char>) -> Seq<char>;

/// The quoted form of `s`, from `<str as core::fmt::Debug>::fmt` through
/// `format!`. The contract claims that the result is a function of the
/// characters of `s` alone.
#[verifier::external_body]
pub(crate) fn quote(s: &str) -> (out: String)
    ensures
        out@ == quoted(s@),
{
    format!("{s:?}")
}

/// Whether two strings hold the same characters.
pub fn same(a: &str, b: &str) -> (r: bool)
    ensures
        r == (a@ == b@),
{
    a.to_owned() == b.to_owned()
}

/// `a` followed by `b`.
pub fn cat(a: &str, b: &str) -> (out: String)
    ensures
        out@ == a@ + b@,
{
    let mut out: String = a.to_owned();
    out.append(b);
    out
}

/// `a`, `b`, and `c`, one after another.
pub fn cat3(a: &str, b: &str, c: &str) -> (out: String)
    ensures
        out@ == a@ + b@ + c@,
{
    let mut out: String = cat(a, b);
    out.append(c);
    out
}

/// The characters of `s`.
pub fn chars_of(s: &str) -> (out: Vec<char>)
    ensures
        out@ == s@,
{
    let mut out: Vec<char> = Vec::new();
    for c in it: s.chars()
        invariant
            it.seq() == s@,
            out@ == s@.take(it.index()),
    {
        proof {
            assert(s@.take(it.index() + 1) =~= s@.take(it.index()).push(c));
        }
        out.push(c);
    }
    proof {
        assert(s@.take(s@.len() as int) =~= s@);
    }
    out
}

// ---- Trimming -------------------------------------------------------------

/// `s` without the run of `c` it ends in.
pub open spec fn without_trailing(s: Seq<char>, c: char) -> Seq<char>
    decreases s.len(),
{
    if s.len() > 0 && s.last() == c {
        without_trailing(s.drop_last(), c)
    } else {
        s
    }
}

/// Drops the run of `c` that `s` ends in.
pub fn trim_trailing(s: &str, c: char) -> (out: String)
    ensures
        out@ == without_trailing(s@, c),
{
    let mut end: usize = s.unicode_len();
    proof {
        assert(s@.take(s@.len() as int) =~= s@);
    }
    while end > 0 && s.get_char(end - 1) == c
        invariant
            end <= s@.len(),
            without_trailing(s@.take(end as int), c) == without_trailing(s@, c),
        decreases end,
    {
        proof {
            assert(s@.take(end as int).drop_last() =~= s@.take(end - 1));
        }
        end = end - 1;
    }
    let kept: &str = s.substring_char(0, end);
    proof {
        assert(kept@ =~= s@.take(end as int));
    }
    kept.to_owned()
}

/// The characters with the Unicode property White_Space.
pub open spec fn is_white(c: char) -> bool {
    ||| '\u{9}' <= c <= '\u{d}'
    ||| c == '\u{20}'
    ||| c == '\u{85}'
    ||| c == '\u{a0}'
    ||| c == '\u{1680}'
    ||| '\u{2000}' <= c <= '\u{200a}'
    ||| c == '\u{2028}'
    ||| c == '\u{2029}'
    ||| c == '\u{202f}'
    ||| c == '\u{205f}'
    ||| c == '\u{3000}'
}

/// Whether `c` is white space.
pub fn white(c: char) -> (r: bool)
    ensures
        r == is_white(c),
{
    ('\u{9}' <= c && c <= '\u{d}') || c == '\u{20}' || c == '\u{85}' || c == '\u{a0}' || c
        == '\u{1680}' || ('\u{2000}' <= c && c <= '\u{200a}') || c == '\u{2028}' || c == '\u{2029}'
        || c == '\u{202f}' || c == '\u{205f}' || c == '\u{3000}'
}

/// `s` without the white space it starts with.
pub open spec fn without_leading_white(s: Seq<char>) -> Seq<char>
    decreases s.len(),
{
    if s.len() > 0 && is_white(s[0]) {
        without_leading_white(s.drop_first())
    } else {
        s
    }
}

/// `s` without the white space it ends with.
pub open spec fn without_trailing_white(s: Seq<char>) -> Seq<char>
    decreases s.len(),
{
    if s.len() > 0 && is_white(s.last()) {
        without_trailing_white(s.drop_last())
    } else {
        s
    }
}

/// `s` without the white space at either end.
pub open spec fn trimmed(s: Seq<char>) -> Seq<char> {
    without_trailing_white(without_leading_white(s))
}

/// Drops the white space at both ends of `s`.
pub fn trim(s: &str) -> (out: String)
    ensures
        out@ == trimmed(s@),
{
    let len: usize = s.unicode_len();
    let mut start: usize = 0;
    proof {
        assert(s@.skip(0) =~= s@);
    }
    while start < len && white(s.get_char(start))
        invariant
            start <= len == s@.len(),
            without_leading_white(s@.skip(start as int)) == without_leading_white(s@),
        decreases len - start,
    {
        proof {
            assert(s@.skip(start as int).drop_first() =~= s@.skip(start + 1));
        }
        start = start + 1;
    }
    let ghost rest = s@.skip(start as int);
    proof {
        assert(rest == without_leading_white(s@));
        assert(rest.take(len - start) =~= rest);
    }
    let mut end: usize = len;
    while end > start && white(s.get_char(end - 1))
        invariant
            start <= end <= len == s@.len(),
            rest == s@.skip(start as int),
            without_trailing_white(rest.take(end - start)) == without_trailing_white(rest),
        decreases end,
    {
        proof {
            assert(rest.take(end - start).drop_last() =~= rest.take(end - 1 - start));
        }
        end = end - 1;
    }
    let kept: &str = s.substring_char(start, end);
    proof {
        assert(kept@ =~= rest.take(end - start));
    }
    kept.to_owned()
}

// ---- Numerals -------------------------------------------------------------

/// The text of the decimal digit `d`.
pub open spec fn digit_text(d: nat) -> Seq<char> {
    if d == 0 {
        "0"@
    } else if d == 1 {
        "1"@
    } else if d == 2 {
        "2"@
    } else if d == 3 {
        "3"@
    } else if d == 4 {
        "4"@
    } else if d == 5 {
        "5"@
    } else if d == 6 {
        "6"@
    } else if d == 7 {
        "7"@
    } else if d == 8 {
        "8"@
    } else {
        "9"@
    }
}

/// The decimal numeral of `n`, without leading zeros.
pub open spec fn decimal_text(n: nat) -> Seq<char>
    decreases n,
{
    if n < 10 {
        digit_text(n)
    } else {
        decimal_text(n / 10) + digit_text(n % 10)
    }
}

fn digit(d: u64) -> (out: &'static str)
    requires
        d < 10,
    ensures
        out@ == digit_text(d as nat),
{
    match d {
        0 => "0",
        1 => "1",
        2 => "2",
        3 => "3",
        4 => "4",
        5 => "5",
        6 => "6",
        7 => "7",
        8 => "8",
        _ => "9",
    }
}

/// The decimal numeral of `n`.
pub fn decimal(n: u64) -> (out: String)
    ensures
        out@ == decimal_text(n as nat),
    decreases n,
{
    if n < 10 {
        digit(n).to_owned()
    } else {
        let mut out: String = decimal(n / 10);
        out.append(digit(n % 10));
        out
    }
}

/// The value of a decimal digit character, if `c` is one.
pub open spec fn digit_value(c: char) -> Option<nat> {
    if '0' <= c <= '9' {
        Some((c as u32 - '0' as u32) as nat)
    } else {
        None
    }
}

/// What is wrong with a text that is not a numeral in range.
#[derive(Clone, Copy, Debug, PartialEq, Eq, Structural)]
pub enum NumberFault {
    /// There is no text.
    Empty,
    /// A character is not a digit.
    InvalidDigit,
    /// The value is above the largest allowed one.
    TooLarge,
}

/// The value of the digits `s`, read left to right after a prefix worth `acc`,
/// stopping at the first character that is not a digit or takes the value past
/// `max`.
pub open spec fn digits_from(s: Seq<char>, acc: nat, max: nat) -> Result<nat, NumberFault>
    decreases s.len(),
{
    if s.len() == 0 {
        Ok(acc)
    } else {
        match digit_value(s[0]) {
            None => Err(NumberFault::InvalidDigit),
            Some(d) => if acc * 10 + d > max {
                Err(NumberFault::TooLarge)
            } else {
                digits_from(s.drop_first(), acc * 10 + d, max)
            },
        }
    }
}

/// The value of the unsigned numeral `s`: digits, after an optional plus sign.
pub open spec fn number_in(s: Seq<char>, max: nat) -> Result<nat, NumberFault> {
    if s.len() == 0 {
        Err(NumberFault::Empty)
    } else if s == seq!['+'] || s == seq!['-'] {
        Err(NumberFault::InvalidDigit)
    } else if s[0] == '+' {
        digits_from(s.drop_first(), 0, max)
    } else {
        digits_from(s, 0, max)
    }
}

proof fn lemma_digits_continue(s: Seq<char>, t: Seq<char>, acc: nat, max: nat)
    ensures
        digits_from(s + t, acc, max) == (match digits_from(s, acc, max) {
            Ok(value) => digits_from(t, value, max),
            Err(fault) => Err(fault),
        }),
    decreases s.len(),
{
    if s.len() == 0 {
        assert(s + t =~= t);
    } else {
        assert((s + t).drop_first() =~= s.drop_first() + t);
        assert((s + t)[0] == s[0]);
        match digit_value(s[0]) {
            None => {},
            Some(d) => {
                lemma_digits_continue(s.drop_first(), t, acc * 10 + d, max);
            },
        }
    }
}

proof fn lemma_digit_text(d: nat)
    requires
        d < 10,
    ensures
        digit_text(d).len() == 1,
        digit_value(digit_text(d)[0]) == Some(d),
{
    reveal_strlit("0");
    reveal_strlit("1");
    reveal_strlit("2");
    reveal_strlit("3");
    reveal_strlit("4");
    reveal_strlit("5");
    reveal_strlit("6");
    reveal_strlit("7");
    reveal_strlit("8");
    reveal_strlit("9");
}

proof fn lemma_numeral_digits(n: nat, max: nat)
    requires
        n <= max,
    ensures
        decimal_text(n).len() > 0,
        digit_value(decimal_text(n)[0]) is Some,
        digits_from(decimal_text(n), 0, max) == Ok::<nat, NumberFault>(n),
    decreases n,
{
    reveal_with_fuel(digits_from, 2);
    if n < 10 {
        lemma_digit_text(n);
        let s = digit_text(n);
        assert(s.drop_first().len() == 0);
        assert(decimal_text(n) == s);
    } else {
        let high = n / 10;
        let low = n % 10;
        lemma_numeral_digits(high, max);
        lemma_digit_text(low);
        lemma_digits_continue(decimal_text(high), digit_text(low), 0, max);
        let t = digit_text(low);
        assert(t.drop_first().len() == 0);
        assert(high * 10 + low == n);
        assert(decimal_text(n) == decimal_text(high) + t);
        assert(decimal_text(n)[0] == decimal_text(high)[0]);
    }
}

/// Every character of a numeral is a digit.
pub proof fn a_numeral_is_digits(n: nat)
    ensures
        forall|i: int|
            0 <= i < decimal_text(n).len() ==> digit_value(#[trigger] decimal_text(n)[i]) is Some,
    decreases n,
{
    if n < 10 {
        lemma_digit_text(n);
    } else {
        a_numeral_is_digits(n / 10);
        lemma_digit_text(n % 10);
        let high = decimal_text(n / 10);
        let s = decimal_text(n);
        assert forall|i: int| 0 <= i < s.len() implies digit_value(#[trigger] s[i]) is Some by {
            if i < high.len() {
                assert(s[i] == high[i]);
            }
        }
    }
}

/// What a text reads as is no larger than it may be.
pub proof fn a_number_is_no_larger(s: Seq<char>, max: nat)
    ensures
        number_in(s, max) matches Ok(n) ==> n <= max,
{
    lemma_digits_bounded(s, 0, max);
    if s.len() > 0 {
        lemma_digits_bounded(s.drop_first(), 0, max);
    }
}

proof fn lemma_digits_bounded(s: Seq<char>, acc: nat, max: nat)
    requires
        acc <= max,
    ensures
        digits_from(s, acc, max) matches Ok(n) ==> n <= max,
    decreases s.len(),
{
    if s.len() > 0 {
        match digit_value(s[0]) {
            None => {},
            Some(d) => if acc * 10 + d <= max {
                lemma_digits_bounded(s.drop_first(), acc * 10 + d, max);
            },
        }
    }
}

/// The numeral of a number reads back as that number.
pub proof fn a_numeral_reads_back(n: nat, max: nat)
    requires
        n <= max,
    ensures
        decimal_text(n).len() > 0,
        number_in(decimal_text(n), max) == Ok::<nat, NumberFault>(n),
{
    lemma_numeral_digits(n, max);
    let s = decimal_text(n);
    assert(digit_value('+') is None);
    assert(digit_value('-') is None);
    assert(s[0] != '+');
    if s == seq!['-'] {
        assert(s[0] == '-');
    }
}

/// Reads the unsigned numeral `s`, no larger than `max`.
pub fn parse_number(s: &str, max: u32) -> (r: Result<u32, NumberFault>)
    ensures
        match r {
            Ok(n) => number_in(s@, max as nat) == Ok::<nat, NumberFault>(n as nat),
            Err(fault) => number_in(s@, max as nat) == Err::<nat, NumberFault>(fault),
        },
{
    let chars: Vec<char> = chars_of(s);
    if chars.len() == 0 {
        return Err(NumberFault::Empty);
    }
    if chars.len() == 1 && (chars[0] == '+' || chars[0] == '-') {
        proof {
            if chars[0] == '+' {
                assert(s@ =~= seq!['+']);
            } else {
                assert(s@ =~= seq!['-']);
            }
        }
        return Err(NumberFault::InvalidDigit);
    }
    proof {
        assert(s@ != seq!['+'] && s@ != seq!['-']);
        assert(s@.skip(1) =~= s@.drop_first());
        assert(s@.skip(0) =~= s@);
    }
    let mut i: usize = if chars[0] == '+' { 1 } else { 0 };
    let mut acc: u32 = 0;
    while i < chars.len()
        invariant
            i <= chars.len(),
            chars@ == s@,
            acc <= max,
            s@.len() > 0,
            s@ != seq!['+'] && s@ != seq!['-'],
            number_in(s@, max as nat) == digits_from(s@.skip(i as int), acc as nat, max as nat),
        decreases chars.len() - i,
    {
        let c: char = chars[i];
        proof {
            assert(s@.skip(i as int)[0] == c);
            assert(s@.skip(i as int).drop_first() =~= s@.skip(i + 1));
        }
        if !('0' <= c && c <= '9') {
            return Err(NumberFault::InvalidDigit);
        }
        let d: u32 = c as u32 - '0' as u32;
        let wide: u64 = acc as u64 * 10 + d as u64;
        if wide > max as u64 {
            return Err(NumberFault::TooLarge);
        }
        acc = wide as u32;
        i = i + 1;
    }
    Ok(acc)
}

// ---- Splitting and joining --------------------------------------------------

/// The pieces of `s` between the occurrences of `sep`; one piece more than there
/// are of those.
pub open spec fn pieces(s: Seq<char>, sep: char) -> Seq<Seq<char>>
    decreases s.len(),
{
    if s.len() == 0 {
        seq![Seq::empty()]
    } else {
        let before = pieces(s.drop_last(), sep);
        if s.last() == sep {
            before.push(Seq::empty())
        } else {
            before.drop_last().push(before.last().push(s.last()))
        }
    }
}

/// The texts of a list of strings.
pub open spec fn views(list: Seq<String>) -> Seq<Seq<char>> {
    list.map_values(|text: String| text@)
}

/// There is at least one piece.
pub proof fn pieces_are_never_none(s: Seq<char>, sep: char)
    ensures
        pieces(s, sep).len() >= 1,
    decreases s.len(),
{
    if s.len() > 0 {
        pieces_are_never_none(s.drop_last(), sep);
    }
}

/// Splits `s` at each occurrence of `sep`.
pub fn split(s: &str, sep: char) -> (out: Vec<String>)
    ensures
        views(out@) == pieces(s@, sep),
{
    let chars: Vec<char> = chars_of(s);
    let mut out: Vec<String> = Vec::new();
    let mut start: usize = 0;
    let mut i: usize = 0;
    proof {
        assert(s@.take(0) =~= Seq::<char>::empty());
        assert(pieces(s@.take(0), sep) =~= seq![Seq::<char>::empty()]);
        assert(views(out@).push(s@.subrange(0, 0)) =~= pieces(s@.take(0), sep));
    }
    while i < chars.len()
        invariant
            chars@ == s@,
            start <= i <= chars@.len(),
            views(out@).push(s@.subrange(start as int, i as int)) == pieces(
                s@.take(i as int),
                sep,
            ),
        decreases chars@.len() - i,
    {
        let ghost was = pieces(s@.take(i as int), sep);
        let ghost listed = views(out@);
        proof {
            assert(s@.take(i + 1).drop_last() =~= s@.take(i as int));
            assert(s@.take(i + 1).last() == s@[i as int]);
            assert(was.last() == s@.subrange(start as int, i as int));
            assert(was.drop_last() =~= listed);
        }
        if chars[i] == sep {
            let piece: &str = s.substring_char(start, i);
            out.push(piece.to_owned());
            start = i + 1;
            proof {
                assert(views(out@) =~= listed.push(piece@));
                assert(s@.subrange(i + 1, i + 1) =~= Seq::<char>::empty());
                assert(views(out@).push(s@.subrange(i + 1, i + 1)) =~= was.push(Seq::empty()));
            }
        } else {
            proof {
                assert(s@.subrange(start as int, i + 1) =~= s@.subrange(
                    start as int,
                    i as int,
                ).push(s@[i as int]));
                assert(listed.push(s@.subrange(start as int, i + 1)) =~= was.drop_last().push(
                    was.last().push(s@[i as int]),
                ));
            }
        }
        i = i + 1;
    }
    let ghost listed = views(out@);
    let piece: &str = s.substring_char(start, i);
    out.push(piece.to_owned());
    proof {
        assert(views(out@) =~= listed.push(piece@));
        assert(s@.take(s@.len() as int) =~= s@);
    }
    out
}

/// The texts of `list`, with `sep` between each and the next.
pub open spec fn joined(list: Seq<Seq<char>>, sep: Seq<char>) -> Seq<char>
    decreases list.len(),
{
    if list.len() == 0 {
        Seq::empty()
    } else if list.len() == 1 {
        list[0]
    } else {
        joined(list.drop_last(), sep) + sep + list.last()
    }
}

/// Joins `list` with `sep` between each and the next.
pub fn join(list: &Vec<String>, sep: &str) -> (out: String)
    ensures
        out@ == joined(views(list@), sep@),
{
    proof {
        assert(views(list@).skip(0) =~= views(list@));
    }
    join_from(list, 0, sep)
}

/// Joins `list` from the place `start` on.
pub fn join_from(list: &Vec<String>, start: usize, sep: &str) -> (out: String)
    requires
        start <= list@.len(),
    ensures
        out@ == joined(views(list@).skip(start as int), sep@),
{
    let mut out: String = String::new();
    let mut i: usize = start;
    let ghost all = views(list@).skip(start as int);
    while i < list.len()
        invariant
            start <= i <= list@.len(),
            all == views(list@).skip(start as int),
            out@ == joined(all.take(i - start), sep@),
        decreases list@.len() - i,
    {
        let ghost next = all.take(i + 1 - start);
        proof {
            assert(next.drop_last() =~= all.take(i - start));
            assert(next.last() == list@[i as int]@);
        }
        if i > start {
            out.append(sep);
        }
        out.append(list[i].as_str());
        proof {
            if i == start {
                assert(next.len() == 1);
                assert(out@ =~= next[0]);
            }
        }
        i = i + 1;
    }
    proof {
        assert(all.take(i - start) =~= all);
    }
    out
}

// ---- Lines --------------------------------------------------------------------

/// A line without the carriage return it ends in.
pub open spec fn without_return(line: Seq<char>) -> Seq<char> {
    if line.len() > 0 && line.last() == '\r' {
        line.drop_last()
    } else {
        line
    }
}

/// The lines of a text: each ends at a line feed, with or without a carriage
/// return before it, and what follows the last line feed is a line where it is
/// anything.
pub open spec fn lines_of(s: Seq<char>) -> Seq<Seq<char>> {
    let parts = pieces(s, '\n');
    let ended = parts.drop_last().map_values(|line: Seq<char>| without_return(line));
    if parts.last().len() == 0 {
        ended
    } else {
        ended.push(parts.last())
    }
}

/// The last `n` of a list, or all of it where it is shorter.
pub open spec fn last_of(list: Seq<Seq<char>>, n: nat) -> Seq<Seq<char>> {
    if list.len() <= n {
        list
    } else {
        list.skip(list.len() - n)
    }
}

/// The lines of a text.
pub fn lines(s: &str) -> (out: Vec<String>)
    ensures
        views(out@) == lines_of(s@),
{
    let parts: Vec<String> = split(s, '\n');
    let ghost raw = pieces(s@, '\n');
    proof {
        pieces_are_never_none(s@, '\n');
        assert(views(parts@).len() == parts@.len());
    }
    let mut out: Vec<String> = Vec::new();
    let mut i: usize = 0;
    let last: usize = parts.len() - 1;
    let ghost ended = raw.drop_last().map_values(|line: Seq<char>| without_return(line));
    while i < last
        invariant
            i <= last,
            last == parts@.len() - 1,
            raw == views(parts@),
            ended == raw.drop_last().map_values(|line: Seq<char>| without_return(line)),
            views(out@) == ended.take(i as int),
        decreases last - i,
    {
        let line: &String = &parts[i];
        let len: usize = line.as_str().unicode_len();
        let ghost was = views(out@);
        proof {
            assert(raw[i as int] == line@);
        }
        if len > 0 && line.as_str().get_char(len - 1) == '\r' {
            let kept: &str = line.as_str().substring_char(0, len - 1);
            proof {
                assert(kept@ =~= line@.drop_last());
            }
            out.push(kept.to_owned());
        } else {
            out.push(line.clone());
        }
        proof {
            assert(ended.take(i + 1) =~= ended.take(i as int).push(without_return(line@)));
            assert(views(out@) =~= was.push(without_return(line@)));
        }
        i = i + 1;
    }
    proof {
        assert(ended.take(last as int) =~= ended);
        assert(raw.last() == parts@[last as int]@);
    }
    if !parts[last].as_str().is_empty() {
        let ghost was = views(out@);
        out.push(parts[last].clone());
        proof {
            assert(views(out@) =~= was.push(parts@[last as int]@));
        }
    }
    out
}

/// The last `n` lines of a text, joined by line feeds.
pub fn last_lines(s: &str, n: usize) -> (out: String)
    ensures
        out@ == joined(last_of(lines_of(s@), n as nat), "\n"@),
{
    let all: Vec<String> = lines(s);
    let start: usize = if all.len() <= n {
        0
    } else {
        all.len() - n
    };
    proof {
        assert(views(all@).skip(0) =~= views(all@));
    }
    join_from(&all, start, "\n")
}

// ---- Laws ---------------------------------------------------------------------

/// What is split joins back: the pieces with the separator between them are the
/// text, and no piece holds the separator.
pub proof fn what_is_split_joins_back(s: Seq<char>, sep: char)
    ensures
        joined(pieces(s, sep), seq![sep]) == s,
        forall|i: int|
            0 <= i < pieces(s, sep).len() ==> !(#[trigger] pieces(s, sep)[i]).contains(sep),
    decreases s.len(),
{
    let now = pieces(s, sep);
    if s.len() == 0 {
        assert(now =~= seq![Seq::<char>::empty()]);
        assert(joined(now, seq![sep]) =~= s);
    } else {
        let rest = s.drop_last();
        let before = pieces(rest, sep);
        what_is_split_joins_back(rest, sep);
        pieces_are_never_none(rest, sep);
        assert(s =~= rest.push(s.last()));
        if s.last() == sep {
            assert(now.drop_last() =~= before);
            assert(joined(now, seq![sep]) =~= s);
        } else {
            let grown = before.last().push(s.last());
            assert(now.drop_last() =~= before.drop_last());
            assert(now.last() == grown);
            assert(joined(now, seq![sep]) =~= s);
            assert(!grown.contains(sep)) by {
                if grown.contains(sep) {
                    let k = choose|k: int| 0 <= k < grown.len() && grown[k] == sep;
                    assert(before.last()[k] == sep);
                    assert(before[before.len() - 1].contains(sep));
                }
            }
        }
        assert forall|i: int| 0 <= i < now.len() implies !(#[trigger] now[i]).contains(sep) by {
            if i < now.len() - 1 {
                assert(now[i] == before[i]);
            }
        }
    }
}

/// Trimming takes away white space at both ends and nothing else: what is left is
/// a part of the text, everything before it and after it is white space, and it
/// neither begins nor ends with any.
pub proof fn trimming_takes_the_white_space_at_both_ends(s: Seq<char>)
    ensures
        exists|start: int, end: int|
            #![trigger s.subrange(start, end)]
            0 <= start <= end <= s.len() && trimmed(s) == s.subrange(start, end) && (forall|i: int|
                0 <= i < start ==> is_white(#[trigger] s[i])) && (forall|i: int|
                end <= i < s.len() ==> is_white(#[trigger] s[i])),
        trimmed(s).len() > 0 ==> !is_white(trimmed(s)[0]) && !is_white(trimmed(s).last()),
{
    let rest = without_leading_white(s);
    lemma_leading_white(s);
    lemma_trailing_white(rest);
    let start = s.len() - rest.len();
    let end = start + trimmed(s).len();
    assert(trimmed(s) =~= s.subrange(start, end));
    assert forall|i: int| end <= i < s.len() implies is_white(#[trigger] s[i]) by {
        assert(rest[i - start] == s[i]);
    }
}

proof fn lemma_leading_white(s: Seq<char>)
    ensures
        ({
            let rest = without_leading_white(s);
            let start = s.len() - rest.len();
            &&& 0 <= start
            &&& rest == s.skip(start)
            &&& forall|i: int| 0 <= i < start ==> is_white(#[trigger] s[i])
            &&& rest.len() > 0 ==> !is_white(rest[0])
        }),
    decreases s.len(),
{
    if s.len() > 0 && is_white(s[0]) {
        let fewer = s.drop_first();
        lemma_leading_white(fewer);
        let rest = without_leading_white(s);
        let start = s.len() - rest.len();
        assert(rest =~= s.skip(start));
        assert forall|i: int| 0 <= i < start implies is_white(#[trigger] s[i]) by {
            if i > 0 {
                assert(fewer[i - 1] == s[i]);
            }
        }
    } else {
        assert(s.skip(0) =~= s);
    }
}

proof fn lemma_trailing_white(s: Seq<char>)
    ensures
        ({
            let rest = without_trailing_white(s);
            &&& rest.len() <= s.len()
            &&& rest == s.take(rest.len() as int)
            &&& forall|i: int| rest.len() <= i < s.len() ==> is_white(#[trigger] s[i])
            &&& rest.len() > 0 ==> !is_white(rest.last())
        }),
    decreases s.len(),
{
    if s.len() > 0 && is_white(s.last()) {
        let fewer = s.drop_last();
        lemma_trailing_white(fewer);
        let rest = without_trailing_white(s);
        assert(rest =~= s.take(rest.len() as int));
        assert forall|i: int| rest.len() <= i < s.len() implies is_white(#[trigger] s[i]) by {
            if i < fewer.len() {
                assert(fewer[i] == s[i]);
            }
        }
    } else {
        assert(s.take(s.len() as int) =~= s);
    }
}

/// Dropping the run of a character at the end drops that run and nothing else.
pub proof fn only_the_trailing_run_is_dropped(s: Seq<char>, c: char)
    ensures
        ({
            let rest = without_trailing(s, c);
            &&& rest.len() <= s.len()
            &&& rest == s.take(rest.len() as int)
            &&& forall|i: int| rest.len() <= i < s.len() ==> #[trigger] s[i] == c
            &&& rest.len() > 0 ==> rest.last() != c
        }),
    decreases s.len(),
{
    if s.len() > 0 && s.last() == c {
        let fewer = s.drop_last();
        only_the_trailing_run_is_dropped(fewer, c);
        let rest = without_trailing(s, c);
        assert(rest =~= s.take(rest.len() as int));
        assert forall|i: int| rest.len() <= i < s.len() implies #[trigger] s[i] == c by {
            if i < fewer.len() {
                assert(fewer[i] == s[i]);
            }
        }
    } else {
        assert(s.take(s.len() as int) =~= s);
    }
}

/// A text with one line more has that line more: a line that holds no line feed
/// and ends in no carriage return, written at the end of a text of whole lines
/// and ended by a line feed, with or without a carriage return before it, is its
/// last line, and the lines before it stay what they were.
pub proof fn a_written_line_reads_back(text: Seq<char>, line: Seq<char>)
    requires
        text.len() == 0 || text.last() == '\n',
        !line.contains('\n'),
        line.len() > 0 ==> line.last() != '\r',
    ensures
        lines_of(text + line + seq!['\n']) == lines_of(text).push(line),
        lines_of(text + line + seq!['\r', '\n']) == lines_of(text).push(line),
        line.len() > 0 ==> lines_of(text + line) == lines_of(text).push(line),
{
    let whole = pieces(text, '\n').drop_last();
    pieces_are_never_none(text, '\n');
    lemma_pieces_of_a_line(text, line);
    let started = text + line;
    let ended = started + seq!['\n'];
    assert(ended.drop_last() =~= started);
    let at = pieces(started, '\n');
    assert(at =~= whole.push(line));
    assert(pieces(ended, '\n') =~= whole.push(line).push(Seq::empty()));
    assert(pieces(ended, '\n').drop_last() =~= whole.push(line));
    assert(lines_of(ended) =~= lines_of(text).push(line));
    let returned = started + seq!['\r'];
    let both = started + seq!['\r', '\n'];
    assert(returned.drop_last() =~= started);
    assert(pieces(returned, '\n') =~= whole.push(line.push('\r')));
    assert(both.drop_last() =~= returned);
    assert(pieces(both, '\n').drop_last() =~= whole.push(line.push('\r')));
    assert(line.push('\r').drop_last() =~= line);
    assert(lines_of(both) =~= lines_of(text).push(line));
    if line.len() > 0 {
        assert(at.drop_last() =~= whole);
        assert(lines_of(started) =~= lines_of(text).push(line));
    }
}

proof fn lemma_pieces_of_a_line(text: Seq<char>, line: Seq<char>)
    requires
        text.len() == 0 || text.last() == '\n',
        !line.contains('\n'),
    ensures
        pieces(text, '\n').last() == Seq::<char>::empty(),
        pieces(text + line, '\n') == pieces(text, '\n').drop_last().push(line),
    decreases line.len(),
{
    let whole = pieces(text, '\n');
    pieces_are_never_none(text, '\n');
    assert(whole.last() =~= Seq::<char>::empty());
    if line.len() == 0 {
        assert(text + line =~= text);
        assert(line =~= Seq::<char>::empty());
        assert(whole.last() == line);
        assert(whole =~= whole.drop_last().push(line));
    } else {
        let fewer = line.drop_last();
        assert(!fewer.contains('\n')) by {
            if fewer.contains('\n') {
                let k = choose|k: int| 0 <= k < fewer.len() && fewer[k] == '\n';
                assert(line[k] == '\n');
            }
        }
        lemma_pieces_of_a_line(text, fewer);
        assert((text + line).drop_last() =~= text + fewer);
        assert(line[line.len() - 1] != '\n') by {
            if line[line.len() - 1] == '\n' {
                assert(line.contains('\n'));
            }
        }
        let before = pieces(text + fewer, '\n');
        assert(before.drop_last() =~= whole.drop_last());
        assert(fewer.push(line.last()) =~= line);
        assert(pieces(text + line, '\n') =~= whole.drop_last().push(line));
    }
}

/// Only digits read as a number, after a plus sign at most: a text that is empty,
/// that holds anything else, or that is a sign alone reads as none.
pub proof fn only_digits_read_as_a_number(s: Seq<char>, max: nat)
    requires
        number_in(s, max) is Ok,
    ensures
        s.len() > 0,
        s[0] == '+' || '0' <= s[0] <= '9',
        s[0] == '+' ==> s.len() > 1,
        forall|i: int| 0 < i < s.len() ==> '0' <= (#[trigger] s[i]) <= '9',
{
    if s[0] == '+' {
        let rest = s.drop_first();
        if s.len() == 1 {
            assert(s =~= seq!['+']);
        }
        lemma_only_digits(rest, 0, max);
        assert forall|i: int| 0 < i < s.len() implies '0' <= (#[trigger] s[i]) <= '9' by {
            assert(rest[i - 1] == s[i]);
        }
    } else {
        lemma_only_digits(s, 0, max);
    }
}

proof fn lemma_only_digits(s: Seq<char>, acc: nat, max: nat)
    requires
        digits_from(s, acc, max) is Ok,
    ensures
        forall|i: int| 0 <= i < s.len() ==> '0' <= (#[trigger] s[i]) <= '9',
    decreases s.len(),
{
    if s.len() > 0 {
        let rest = s.drop_first();
        lemma_only_digits(rest, acc * 10 + digit_value(s[0])->0, max);
        assert forall|i: int| 0 <= i < s.len() implies '0' <= (#[trigger] s[i]) <= '9' by {
            if i > 0 {
                assert(rest[i - 1] == s[i]);
            }
        }
    }
}

} // verus!
