//! Decimal numerals: rendering identifiers for URLs and file names, and
//! reading years out of text.

use vstd::prelude::*;
use crate::text::{chars_of, first_field, lemma_field_end, push_char};

verus! {

/// The character of a decimal digit `d < 10`.
pub open spec fn digit_char(d: nat) -> char {
    ((48 + d) as u8) as char
}

/// The decimal numeral of `n`, without sign or leading zeros.
pub open spec fn decimal(n: nat) -> Seq<char>
    decreases n,
{
    if n < 10 {
        seq![digit_char(n)]
    } else {
        decimal(n / 10).push(digit_char(n % 10))
    }
}

/// Appends the decimal numeral of `n` to `out`.
pub fn push_decimal(out: &mut String, n: u64)
    ensures
        final(out)@ == old(out)@ + decimal(n as nat),
    decreases n,
{
    if n >= 10 {
        push_decimal(out, n / 10);
    }
    let d: u8 = (n % 10) as u8;
    let c: char = (48u8 + d) as char;
    push_char(out, c);
    proof {
        if n < 10 {
            assert(final(out)@ =~= old(out)@ + decimal(n as nat));
        } else {
            assert(final(out)@ =~= old(out)@ + decimal(n as nat));
        }
    }
}

/// The decimal numeral of `n` as a string.
pub fn decimal_string(n: u64) -> (r: String)
    ensures
        r@ == decimal(n as nat),
{
    let mut out = String::new();
    push_decimal(&mut out, n);
    assert(Seq::<char>::empty() + decimal(n as nat) =~= decimal(n as nat));
    out
}

/// Whether `c` is one of `0` to `9`.
pub open spec fn is_digit(c: char) -> bool {
    48 <= c as u32 <= 57
}

/// The value of a digit character, and 0 for any other character.
pub open spec fn digit_value(c: char) -> nat {
    if is_digit(c) {
        (c as u32 - 48) as nat
    } else {
        0
    }
}

/// Every character of `s` is a digit.
pub open spec fn all_digits(s: Seq<char>) -> bool {
    forall|i: int| 0 <= i < s.len() ==> is_digit(#[trigger] s[i])
}

/// The number that the digits of `s` spell, most significant first.
pub open spec fn number_of(s: Seq<char>) -> nat
    decreases s.len(),
{
    if s.len() == 0 {
        0
    } else {
        number_of(s.drop_last()) * 10 + digit_value(s.last())
    }
}

/// `s` without one leading `+`, if it has one.
pub open spec fn unsigned_body(s: Seq<char>) -> Seq<char> {
    if s.len() > 0 && s[0] == '+' {
        s.drop_first()
    } else {
        s
    }
}

/// The 16-bit number that `s` spells: an optional `+`, then one or more
/// digits whose value fits. Anything else spells no number.
pub open spec fn parsed_u16(s: Seq<char>) -> Option<u16> {
    let body = unsigned_body(s);
    if body.len() > 0 && all_digits(body) && number_of(body) <= u16::MAX {
        Some(number_of(body) as u16)
    } else {
        None
    }
}

proof fn lemma_number_grows(s: Seq<char>, i: int)
    requires
        0 <= i <= s.len(),
    ensures
        number_of(s.take(i)) <= number_of(s),
    decreases s.len() - i,
{
    if i == s.len() {
        assert(s.take(i) =~= s);
    } else {
        lemma_number_grows(s.drop_last(), i);
        assert(s.drop_last().take(i) =~= s.take(i));
    }
}

/// Reads `cs[from..to]` as a 16-bit number.
pub fn parse_u16(cs: &Vec<char>, from: usize, to: usize) -> (r: Option<u16>)
    requires
        from <= to <= cs.len(),
    ensures
        r == parsed_u16(cs@.subrange(from as int, to as int)),
{
    let ghost whole = cs@.subrange(from as int, to as int);
    let mut i: usize = from;
    if i < to && cs[i] == '+' {
        i += 1;
    }
    let start: usize = i;
    let ghost body = cs@.subrange(start as int, to as int);
    assert(body =~= unsigned_body(whole));
    if start == to {
        return None;
    }
    let mut acc: u32 = 0;
    while i < to
        invariant
            from <= start <= i <= to <= cs.len(),
            body == cs@.subrange(start as int, to as int),
            whole == cs@.subrange(from as int, to as int),
            body == unsigned_body(whole),
            body.len() > 0,
            all_digits(body.take(i - start)),
            acc == number_of(body.take(i - start)),
            acc <= u16::MAX,
        decreases to - i,
    {
        let c = cs[i];
        let code: u32 = c as u32;
        assert(body[i - start] == c);
        if code < 48 || code > 57 {
            return None;
        }
        let next: u32 = acc * 10 + (code - 48);
        proof {
            let t = body.take(i - start + 1);
            assert(t.drop_last() =~= body.take(i - start));
            assert(t.last() == c);
            assert(next == number_of(t));
            assert forall|k: int| 0 <= k < t.len() implies is_digit(#[trigger] t[k]) by {
                if k < i - start {
                    assert(t[k] == body.take(i - start)[k]);
                }
            }
        }
        if next > 65535 {
            proof {
                lemma_number_grows(body, i - start + 1);
            }
            return None;
        }
        acc = next;
        i += 1;
    }
    assert(body.take(i - start) =~= body);
    Some(acc as u16)
}

/// The year that a release date such as `1962-10-05` starts with, and 0
/// where the date starts with no number that fits.
pub open spec fn year_of_date(date: Seq<char>) -> u16 {
    match parsed_u16(first_field(date, '-')) {
        Some(y) => y,
        None => 0,
    }
}

/// Reads the release year out of a date.
pub fn release_year(date: &str) -> (r: u16)
    ensures
        r == year_of_date(date@),
{
    let cs = chars_of(date);
    let mut end: usize = 0;
    while end < cs.len() && cs[end] != '-'
        invariant
            end <= cs.len(),
            forall|k: int| 0 <= k < end ==> cs@[k] != '-',
        decreases cs.len() - end,
    {
        end += 1;
    }
    proof {
        lemma_field_end(cs@, '-', end as int);
        assert(cs@.subrange(0, end as int) =~= first_field(cs@, '-'));
    }
    match parse_u16(&cs, 0, end) {
        Some(y) => y,
        None => 0,
    }
}

/// The number that a year written as text stands for, and 0 where the text
/// is no number that fits.
pub open spec fn year_of_text(text: Seq<char>) -> u16 {
    match parsed_u16(text) {
        Some(y) => y,
        None => 0,
    }
}

/// Reads a year written as text.
pub fn year_from_text(text: &str) -> (r: u16)
    ensures
        r == year_of_text(text@),
{
    let cs = chars_of(text);
    assert(cs@.subrange(0, cs@.len() as int) =~= cs@);
    match parse_u16(&cs, 0, cs.len()) {
        Some(y) => y,
        None => 0,
    }
}

} // verus!
