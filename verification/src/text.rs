//! Specified access to the string operations of std that the worker relies on.

use vstd::prelude::*;
use vstd::string::StringExecFns;

verus! {

/// The characters of every string of a list.
pub open spec fn texts(list: Seq<String>) -> Seq<Seq<char>> {
    list.map_values(|s: String| s@)
}

/// The characters of both strings of every pair of a list.
pub open spec fn pairs(list: Seq<(String, String)>) -> Seq<(Seq<char>, Seq<char>)> {
    list.map_values(|p: (String, String)| (p.0@, p.1@))
}

/// `part` occurs in `s`, somewhere.
pub open spec fn occurs_in(part: Seq<char>, s: Seq<char>) -> bool {
    exists|i: int|
        0 <= i <= s.len() - part.len() && #[trigger] s.subrange(i, i + part.len()) == part
}

/// `from` cannot overlap itself: its first character does not come again.
pub open spec fn no_overlap(from: Seq<char>) -> bool {
    &&& from.len() > 0
    &&& forall|i: int| 0 < i < from.len() ==> #[trigger] from[i] != from[0]
}

/// `s` with `to` in the place of every occurrence of `from`.
pub open spec fn replaced(s: Seq<char>, from: Seq<char>, to: Seq<char>) -> Seq<char>
    decreases s.len(),
{
    if s.len() == 0 {
        s
    } else if 0 < from.len() && from.is_prefix_of(s) {
        to + replaced(s.skip(from.len() as int), from, to)
    } else {
        seq![s[0]] + replaced(s.drop_first(), from, to)
    }
}

/// The character of a decimal digit.
pub open spec fn digit(n: nat) -> char {
    (0x30 + n) as char
}

/// The decimal digits of `n`, without leading zeros.
pub open spec fn digits(n: nat) -> Seq<char>
    decreases n,
{
    if n < 10 {
        seq![digit(n)]
    } else {
        digits(n / 10).push(digit(n % 10))
    }
}

/// `n` in decimal, with a minus sign where it is negative.
pub open spec fn decimal(n: int) -> Seq<char> {
    if n < 0 {
        seq!['-'] + digits((-n) as nat)
    } else {
        digits(n as nat)
    }
}

/// The `Debug` form of a character: the character between single quotes, escaped where
/// it is not printable.
pub uninterp spec fn char_debug(c: char) -> Seq<char>;

/// `String::push`: appends one character to the end of the string.
#[verifier::external_body]
pub(crate) fn push_char(s: &mut String, c: char)
    ensures
        final(s)@ == old(s)@.push(c),
{
    s.push(c)
}

/// Appends a string slice to the end of the string.
pub(crate) fn push_text(s: &mut String, part: &str)
    ensures
        final(s)@ == old(s)@ + part@,
{
    s.append(part)
}

/// `str::eq`: whether two string slices hold the same characters.
#[verifier::external_body]
pub(crate) fn same_text(a: &str, b: &str) -> (r: bool)
    ensures
        r == (a@ == b@),
{
    a.eq(b)
}

/// `str::ends_with`: whether `suffix` is a suffix of `s`.
#[verifier::external_body]
pub(crate) fn ends_with(s: &str, suffix: &str) -> (r: bool)
    ensures
        r == suffix@.is_suffix_of(s@),
{
    s.ends_with(suffix)
}

/// `str::contains`: whether `part` is a substring of `s`.
#[verifier::external_body]
pub(crate) fn contains(s: &str, part: &str) -> (r: bool)
    ensures
        r == occurs_in(part@, s@),
{
    s.contains(part)
}

/// `str::strip_prefix`: what follows `prefix` in `s`, or `None` where `s` does not begin
/// with it.
#[verifier::external_body]
pub(crate) fn strip_prefix<'a>(s: &'a str, prefix: &str) -> (r: Option<&'a str>)
    ensures
        match r {
            Some(rest) => prefix@.is_prefix_of(s@) && rest@ == s@.skip(prefix@.len() as int),
            None => !prefix@.is_prefix_of(s@),
        },
{
    s.strip_prefix(prefix)
}

/// `str::replace`: a copy of `s` in which `to` stands for every match of `from`. Matches
/// are unambiguous because `from` cannot overlap itself.
#[verifier::external_body]
pub(crate) fn replace(s: &str, from: &str, to: &str) -> (r: String)
    requires
        no_overlap(from@),
    ensures
        r@ == replaced(s@, from@, to@),
{
    s.replace(from, to)
}

/// `i64::to_string`: the number in decimal.
#[verifier::external_body]
pub(crate) fn decimal_text(n: i64) -> (r: String)
    ensures
        r@ == decimal(n as int),
{
    n.to_string()
}

/// The `Debug` formatting of a `char`, whose text is named and not spelled out.
#[verifier::external_body]
pub(crate) fn debug_text(c: char) -> (r: String)
    ensures
        r@ == char_debug(c),
{
    format!("{:?}", c)
}

/// A list is seen string by string, and a list of pairs pair by pair.
pub proof fn law_lists_are_seen_item_by_item(list: Seq<String>, both: Seq<(String, String)>)
    ensures
        texts(list).len() == list.len(),
        forall|i: int| 0 <= i < list.len() ==> #[trigger] texts(list)[i] == list[i]@,
        pairs(both).len() == both.len(),
        forall|i: int|
            0 <= i < both.len() ==> #[trigger] pairs(both)[i].0 == both[i].0@ && pairs(both)[i].1
                == both[i].1@,
{
}

/// A part occurs in a text if and only if the text is something, then the part, then
/// something.
pub proof fn law_occurrence_splits_the_text(part: Seq<char>, s: Seq<char>)
    ensures
        occurs_in(part, s) <==> exists|x: Seq<char>, y: Seq<char>| s == #[trigger] (x + part + y),
{
    if occurs_in(part, s) {
        let i = choose|i: int|
            0 <= i <= s.len() - part.len() && #[trigger] s.subrange(i, i + part.len()) == part;
        let x = s.take(i);
        let y = s.skip(i + part.len());
        assert(s =~= x + part + y);
    }
    if exists|x: Seq<char>, y: Seq<char>| s == #[trigger] (x + part + y) {
        let (x, y) = choose|x: Seq<char>, y: Seq<char>| s == #[trigger] (x + part + y);
        let i = x.len() as int;
        assert(s.subrange(i, i + part.len()) =~= part);
    }
}

/// The first occurrence is replaced, what stands before it is kept, and the rest is treated
/// alike.
pub proof fn law_first_occurrence_is_replaced(
    x: Seq<char>,
    from: Seq<char>,
    y: Seq<char>,
    to: Seq<char>,
)
    requires
        from.len() > 0,
        forall|i: int| 0 < i < from.len() ==> #[trigger] from[i] != from[0],
        !occurs_in(from, x),
    ensures
        replaced(x + from + y, from, to) == x + to + replaced(y, from, to),
    decreases x.len(),
{
    let s = x + from + y;
    if x.len() == 0 {
        assert(from =~= s.subrange(0, from.len() as int));
        assert(s.skip(from.len() as int) =~= y);
        assert(x + to + replaced(y, from, to) =~= to + replaced(y, from, to));
    } else {
        let n = x.len() as int;
        if from.is_prefix_of(s) {
            if n >= from.len() {
                assert(x.subrange(0int, 0int + from.len()) =~= from);
            } else {
                assert(s[n] == from[0]);
                assert(s.subrange(0, from.len() as int)[n] == from[n]);
            }
            assert(false);
        }
        let tail = x.drop_first();
        if occurs_in(from, tail) {
            let i = choose|i: int|
                0 <= i <= tail.len() - from.len() && #[trigger] tail.subrange(i, i + from.len())
                    == from;
            assert(x.subrange(i + 1, i + 1 + from.len()) =~= tail.subrange(i, i + from.len()));
        }
        law_first_occurrence_is_replaced(tail, from, y, to);
        assert(s.drop_first() =~= tail + from + y);
        assert(seq![s[0]] + (tail + to + replaced(y, from, to)) =~= x + to + replaced(
            y,
            from,
            to,
        ));
    }
}

/// A text in which nothing is to be replaced stays as it is.
pub proof fn law_text_without_an_occurrence_stays(s: Seq<char>, from: Seq<char>, to: Seq<char>)
    requires
        from.len() > 0,
        !occurs_in(from, s),
    ensures
        replaced(s, from, to) == s,
    decreases s.len(),
{
    if s.len() > 0 {
        let tail = s.drop_first();
        if from.is_prefix_of(s) {
            assert(s.subrange(0int, 0int + from.len()) =~= from);
        }
        if occurs_in(from, tail) {
            let i = choose|i: int|
                0 <= i <= tail.len() - from.len() && #[trigger] tail.subrange(i, i + from.len())
                    == from;
            assert(s.subrange(i + 1, i + 1 + from.len()) =~= tail.subrange(i, i + from.len()));
        }
        law_text_without_an_occurrence_stays(tail, from, to);
        assert(seq![s[0]] + tail =~= s);
    }
}

/// The pieces one after the other, with `between` between any two of them.
pub open spec fn joined(pieces: Seq<Seq<char>>, between: Seq<char>) -> Seq<char>
    decreases pieces.len(),
{
    if pieces.len() == 0 {
        Seq::empty()
    } else if pieces.len() == 1 {
        pieces[0]
    } else {
        pieces[0] + between + joined(pieces.drop_first(), between)
    }
}

/// A replacement takes the place of what it replaces, everywhere, and touches nothing else:
/// pieces that were joined by the one come out joined by the other.
pub proof fn law_replacing_changes_what_joins(
    pieces: Seq<Seq<char>>,
    from: Seq<char>,
    to: Seq<char>,
)
    requires
        from.len() > 0,
        forall|i: int| 0 < i < from.len() ==> #[trigger] from[i] != from[0],
        forall|i: int| 0 <= i < pieces.len() ==> !occurs_in(from, #[trigger] pieces[i]),
    ensures
        replaced(joined(pieces, from), from, to) == joined(pieces, to),
    decreases pieces.len(),
{
    if pieces.len() == 1 {
        law_text_without_an_occurrence_stays(pieces[0], from, to);
    } else if pieces.len() > 1 {
        let later = pieces.drop_first();
        assert forall|i: int| 0 <= i < later.len() implies !occurs_in(
            from,
            #[trigger] later[i],
        ) by {
            assert(later[i] == pieces[i + 1]);
        }
        law_replacing_changes_what_joins(later, from, to);
        law_first_occurrence_is_replaced(pieces[0], from, joined(later, from), to);
    }
}

/// The number that a run of decimal digits denotes.
pub open spec fn digits_value(s: Seq<char>) -> int
    decreases s.len(),
{
    if s.len() == 0 {
        0
    } else {
        10 * digits_value(s.drop_last()) + (s.last() as int - '0' as int)
    }
}

/// The number that decimal digits denote, with or without a minus sign before them.
pub open spec fn number_value(s: Seq<char>) -> int {
    if s.len() > 0 && s[0] == '-' {
        -digits_value(s.drop_first())
    } else {
        digits_value(s)
    }
}

proof fn lemma_digits_value(n: nat)
    ensures
        digits_value(digits(n)) == n,
        digits(n).len() > 0,
        forall|i: int| 0 <= i < digits(n).len() ==> '0' <= #[trigger] digits(n)[i] <= '9',
        n >= 10 ==> digits(n).len() > 1,
        n > 0 ==> digits(n)[0] != '0',
    decreases n,
{
    lemma_digit(n % 10);
    if n < 10 {
        assert(digits(n).drop_last() =~= Seq::empty());
        assert(digits_value(Seq::<char>::empty()) == 0);
    } else {
        lemma_digits_value(n / 10);
        assert(digits(n).drop_last() =~= digits(n / 10));
        assert(digits(n)[0] == digits(n / 10)[0]);
    }
}

proof fn lemma_digit(d: nat)
    requires
        d < 10,
    ensures
        '0' <= digit(d) <= '9',
        digit(d) as int - '0' as int == d,
        d > 0 ==> digit(d) != '0',
{
}

/// A number in decimal denotes that number: it is written in digits, behind a minus sign
/// where it is negative, and without zeros that could be left out.
pub proof fn law_decimal_denotes_its_number(n: int)
    ensures
        number_value(decimal(n)) == n,
        decimal(n).len() > 0,
        n >= 0 ==> decimal(n)[0] != '-',
        forall|i: int|
            0 <= i < decimal(n).len() ==> '0' <= #[trigger] decimal(n)[i] <= '9' || i == 0
                && decimal(n)[i] == '-',
        n == 0 ==> decimal(n).len() == 1,
        n > 0 ==> decimal(n)[0] != '0',
        n < 0 ==> decimal(n).len() > 1 && decimal(n)[0] == '-' && decimal(n)[1] != '0',
{
    if n < 0 {
        let d = digits((-n) as nat);
        lemma_digits_value((-n) as nat);
        assert(decimal(n).drop_first() =~= d);
        assert forall|i: int| 0 <= i < decimal(n).len() implies '0' <= #[trigger] decimal(n)[i]
            <= '9' || i == 0 && decimal(n)[i] == '-' by {
            if i > 0 {
                assert(decimal(n)[i] == d[i - 1]);
            }
        }
    } else {
        lemma_digits_value(n as nat);
    }
}

} // verus!
