//! Searching and cutting text, stated over sequences of characters.

use vstd::prelude::*;
use vstd::string::*;

verus! {

/// Whether `pat` stands in `text` at position `i`.
pub open spec fn occurs_at(text: Seq<char>, pat: Seq<char>, i: int) -> bool {
    0 <= i && i + pat.len() <= text.len() && text.subrange(i, i + pat.len()) == pat
}

/// The first position at or after `from` at which `pat` stands in `text`.
pub open spec fn first_from(text: Seq<char>, pat: Seq<char>, from: int) -> Option<int>
    decreases text.len() + 1 - from,
{
    if from < 0 || from + pat.len() > text.len() {
        None
    } else if occurs_at(text, pat, from) {
        Some(from)
    } else {
        first_from(text, pat, from + 1)
    }
}

/// The position of the first occurrence of `pat` in `text`.
pub open spec fn first_occurrence(text: Seq<char>, pat: Seq<char>) -> Option<int> {
    first_from(text, pat, 0)
}

/// What follows the first occurrence of `pat` in `text`.
pub open spec fn after_strict(text: Seq<char>, pat: Seq<char>) -> Option<Seq<char>> {
    match first_occurrence(text, pat) {
        Some(i) => Some(text.subrange(i + pat.len(), text.len() as int)),
        None => None,
    }
}

/// What precedes the first occurrence of `pat` in `text`.
pub open spec fn before_strict(text: Seq<char>, pat: Seq<char>) -> Option<Seq<char>> {
    match first_occurrence(text, pat) {
        Some(i) => Some(text.subrange(0, i)),
        None => None,
    }
}

/// What follows the first occurrence of `pat` in `text`; empty where `pat`
/// does not occur.
pub open spec fn after(text: Seq<char>, pat: Seq<char>) -> Seq<char> {
    match after_strict(text, pat) {
        Some(rest) => rest,
        None => Seq::empty(),
    }
}

/// What stands between the first occurrence of `begin` in `text` and the
/// first occurrence of `end` after it.
pub open spec fn between_strict(text: Seq<char>, begin: Seq<char>, end: Seq<char>) -> Option<
    Seq<char>,
> {
    match after_strict(text, begin) {
        Some(rest) => before_strict(rest, end),
        None => None,
    }
}

/// `text` with every occurrence of `pat` replaced by `with`, found from left
/// to right without overlap.
pub open spec fn replace_all(text: Seq<char>, pat: Seq<char>, with: Seq<char>) -> Seq<char>
    decreases text.len(),
{
    match first_occurrence(text, pat) {
        Some(i) => if pat.len() > 0 && 0 <= i && i + pat.len() <= text.len() {
            text.subrange(0, i) + with + replace_all(
                text.subrange(i + pat.len(), text.len() as int),
                pat,
                with,
            )
        } else {
            text
        },
        None => text,
    }
}

/// A first occurrence is an occurrence, and none stands before it.
pub proof fn lemma_first_from(text: Seq<char>, pat: Seq<char>, from: int)
    requires
        0 <= from,
    ensures
        match first_from(text, pat, from) {
            Some(i) => from <= i && occurs_at(text, pat, i) && forall|j: int|
                from <= j < i ==> !occurs_at(text, pat, j),
            None => forall|j: int| from <= j ==> !occurs_at(text, pat, j),
        },
    decreases text.len() + 1 - from,
{
    if from + pat.len() > text.len() {
    } else if occurs_at(text, pat, from) {
    } else {
        lemma_first_from(text, pat, from + 1);
    }
}

/// What follows an occurrence of `pat` is shorter than `text` by at least
/// the length of `pat`.
pub proof fn lemma_after_shrinks(text: Seq<char>, pat: Seq<char>)
    ensures
        after(text, pat).len() <= text.len(),
        after_strict(text, pat) is Some ==> after(text, pat).len() + pat.len() <= text.len(),
        after_strict(text, pat) is None ==> after(text, pat).len() == 0,
{
    lemma_first_from(text, pat, 0);
}

/// What stands between two marks is no longer than the text without its
/// first mark.
pub proof fn lemma_between_shrinks(text: Seq<char>, begin: Seq<char>, end: Seq<char>)
    ensures
        match between_strict(text, begin, end) {
            Some(mid) => mid.len() + begin.len() <= text.len(),
            None => true,
        },
{
    lemma_first_from(text, begin, 0);
    match after_strict(text, begin) {
        Some(rest) => {
            lemma_first_from(rest, end, 0);
        },
        None => {},
    }
}

/// What follows the first occurrence of `pat` in `text`, or the empty text
/// where there is none.
///
/// Trusted: calls `string_tools::get_all_after`, which finds `pat` with
/// `str::find` and returns the slice behind the match, or `""`.
#[verifier::external_body]
pub(crate) fn all_after<'a>(text: &'a str, pat: &str) -> (r: &'a str)
    ensures
        r@ == after(text@, pat@),
{
    string_tools::get_all_after(text, pat)
}

/// What stands between the first `begin` in `text` and the first `end`
/// after it, where both occur.
///
/// Trusted: calls `string_tools::get_all_between_strict`, which cuts behind
/// the first match of `begin` and then before the first match of `end` in
/// what is left, and gives `None` where either is missing.
#[verifier::external_body]
pub(crate) fn all_between_strict<'a>(text: &'a str, begin: &str, end: &str) -> (r: Option<&'a str>)
    ensures
        match r {
            Some(mid) => between_strict(text@, begin@, end@) == Some(mid@),
            None => between_strict(text@, begin@, end@) is None,
        },
{
    string_tools::get_all_between_strict(text, begin, end)
}

/// Whether `text` begins with `prefix`.
///
/// Trusted: calls `str::starts_with`, documented to return true exactly if
/// the pattern matches a prefix of the string slice.
#[verifier::external_body]
pub(crate) fn begins_with(text: &str, prefix: &str) -> (r: bool)
    ensures
        r == prefix@.is_prefix_of(text@),
{
    text.starts_with(prefix)
}

/// `text` with every `pat` replaced by `with`.
///
/// Trusted: calls `str::replace`, documented to replace all matches of the
/// pattern, which it finds from left to right without overlap.
#[verifier::external_body]
pub(crate) fn replaced(text: &str, pat: &str, with: &str) -> (r: String)
    requires
        pat@.len() > 0,
    ensures
        r@ == replace_all(text@, pat@, with@),
{
    text.replace(pat, with)
}

/// The character that writes the digit `d`.
pub open spec fn digit_char(d: int) -> char {
    if d == 0 {
        '0'
    } else if d == 1 {
        '1'
    } else if d == 2 {
        '2'
    } else if d == 3 {
        '3'
    } else if d == 4 {
        '4'
    } else if d == 5 {
        '5'
    } else if d == 6 {
        '6'
    } else if d == 7 {
        '7'
    } else if d == 8 {
        '8'
    } else {
        '9'
    }
}

/// The digit that `c` writes, where it writes one.
pub open spec fn digit_of(c: char) -> Option<int> {
    if c == '0' {
        Some(0)
    } else if c == '1' {
        Some(1)
    } else if c == '2' {
        Some(2)
    } else if c == '3' {
        Some(3)
    } else if c == '4' {
        Some(4)
    } else if c == '5' {
        Some(5)
    } else if c == '6' {
        Some(6)
    } else if c == '7' {
        Some(7)
    } else if c == '8' {
        Some(8)
    } else if c == '9' {
        Some(9)
    } else {
        None
    }
}

/// The decimal numeral of `n`, without sign or leading zeros.
pub open spec fn decimal(n: nat) -> Seq<char>
    decreases n,
{
    if n < 10 {
        seq![digit_char(n as int)]
    } else {
        decimal(n / 10).push(digit_char((n % 10) as int))
    }
}

/// The number that the digits `s` write; `None` where `s` holds anything
/// but digits. The empty text writes zero.
pub open spec fn digits_value(s: Seq<char>) -> Option<nat>
    decreases s.len(),
{
    if s.len() == 0 {
        Some(0)
    } else {
        match (digits_value(s.drop_last()), digit_of(s.last())) {
            (Some(v), Some(d)) => Some((v * 10 + d) as nat),
            _ => None,
        }
    }
}

/// The number that `s` writes as an unsigned decimal numeral: one or more
/// digits, which a single `+` may precede. `None` where `s` is anything
/// else or the number exceeds 64 bits.
pub open spec fn decimal_value(s: Seq<char>) -> Option<u64> {
    let digits = if s.len() > 0 && s[0] == '+' {
        s.drop_first()
    } else {
        s
    };
    if digits.len() == 0 {
        None
    } else {
        match digits_value(digits) {
            Some(v) => if v <= u64::MAX {
                Some(v as u64)
            } else {
                None
            },
            None => None,
        }
    }
}

/// The text of one digit.
fn digit_text(d: u8) -> (r: &'static str)
    requires
        d < 10,
    ensures
        r@ == seq![digit_char(d as int)],
{
    proof {
        reveal_strlit("0");
        reveal_strlit("1");
        reveal_strlit("2");
        reveal_strlit("3");
        reveal_strlit("4");
        reveal_strlit("5");
        reveal_strlit("6");
        reveal_strlit("7");
        reveal_strlit("8");
        reveal_strlit("9");
    }
    let r = if d == 0 {
        "0"
    } else if d == 1 {
        "1"
    } else if d == 2 {
        "2"
    } else if d == 3 {
        "3"
    } else if d == 4 {
        "4"
    } else if d == 5 {
        "5"
    } else if d == 6 {
        "6"
    } else if d == 7 {
        "7"
    } else if d == 8 {
        "8"
    } else {
        "9"
    };
    assert(r@ =~= seq![digit_char(d as int)]);
    r
}

/// Appends the decimal numeral of `n` to `out`.
pub fn push_decimal(out: &mut String, n: u128)
    ensures
        final(out)@ == old(out)@ + decimal(n as nat),
    decreases n,
{
    if n >= 10 {
        push_decimal(out, n / 10);
    }
    let d: u8 = (n % 10) as u8;
    out.append(digit_text(d));
    proof {
        if n >= 10 {
            assert(final(out)@ =~= old(out)@ + decimal(n as nat));
        } else {
            assert(out@ =~= old(out)@ + decimal(n as nat));
        }
    }
}

/// The digit that `c` writes.
fn digit_value(c: char) -> (r: Option<u64>)
    ensures
        match r {
            Some(d) => digit_of(c) == Some(d as int) && d < 10,
            None => digit_of(c) is None,
        },
{
    if c == '0' {
        Some(0)
    } else if c == '1' {
        Some(1)
    } else if c == '2' {
        Some(2)
    } else if c == '3' {
        Some(3)
    } else if c == '4' {
        Some(4)
    } else if c == '5' {
        Some(5)
    } else if c == '6' {
        Some(6)
    } else if c == '7' {
        Some(7)
    } else if c == '8' {
        Some(8)
    } else if c == '9' {
        Some(9)
    } else {
        None
    }
}

/// Digits written before a text that has a value have a value no larger.
proof fn lemma_digits_prefix(s: Seq<char>, n: int)
    requires
        0 <= n <= s.len(),
    ensures
        digits_value(s.subrange(0, n)) is None ==> digits_value(s) is None,
        digits_value(s) is Some ==> digits_value(s.subrange(0, n))->0 <= digits_value(s)->0,
    decreases s.len() - n,
{
    if n == s.len() {
        assert(s.subrange(0, n) =~= s);
    } else {
        lemma_digits_prefix(s, n + 1);
        assert(s.subrange(0, n + 1).drop_last() =~= s.subrange(0, n));
    }
}

/// Reads `text` as an unsigned decimal numeral.
pub fn parse_decimal(text: &str) -> (r: Option<u64>)
    ensures
        r == decimal_value(text@),
{
    let n = text.unicode_len();
    let start: usize = if n > 0 && text.get_char(0) == '+' { 1 } else { 0 };
    if start == n {
        return None;
    }
    let ghost digits = text@.subrange(start as int, n as int);
    proof {
        if start == 1 {
            assert(digits =~= text@.drop_first());
        } else {
            assert(digits =~= text@);
        }
    }
    let mut value: u64 = 0;
    let mut i: usize = start;
    while i < n
        invariant
            start <= i <= n,
            n == text@.len(),
            digits.len() == n - start > 0,
            digits == text@.subrange(start as int, n as int),
            digits == if text@.len() > 0 && text@[0] == '+' {
                text@.drop_first()
            } else {
                text@
            },
            digits_value(digits.subrange(0, i - start)) == Some(value as nat),
        decreases n - i,
    {
        let ghost upto = digits.subrange(0, i - start + 1);
        proof {
            assert(upto.len() > 0);
            assert(upto.drop_last() =~= digits.subrange(0, i - start));
            assert(upto.last() == text@[i as int]);
            assert(digits_value(upto) == match (
                digits_value(upto.drop_last()),
                digit_of(upto.last()),
            ) {
                (Some(v), Some(d)) => Some((v * 10 + d) as nat),
                _ => None,
            });
            lemma_digits_prefix(digits, i - start + 1);
        }
        match digit_value(text.get_char(i)) {
            None => {
                return None;
            },
            Some(d) => {
                if value > (u64::MAX - d) / 10 {
                    assert(digits_value(upto)->0 > u64::MAX);
                    return None;
                }
                value = value * 10 + d;
            },
        }
        i += 1;
    }
    assert(digits.subrange(0, n - start) =~= digits);
    Some(value)
}

} // verus!
