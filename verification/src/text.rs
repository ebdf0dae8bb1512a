//! Text primitives shared by the catalog, the scanner and the fetcher.
//!
//! Strings are modelled by their sequence of characters. Three facts about
//! characters and strings are taken from the standard library without proof:
//! what the lowercase form of a string is, which characters count as white
//! space, and that pushing a character onto a string appends it.

use vstd::prelude::*;

verus! {

/// The lowercase form of a string, as the standard library defines it.
pub uninterp spec fn lowercased(s: Seq<char>) -> Seq<char>;

/// Whether a character has the Unicode `White_Space` property.
pub uninterp spec fn is_white_space(c: char) -> bool;

/// Calls `str::to_lowercase`. Trusted: the result is a function of the
/// input's characters alone, named [`lowercased`].
#[verifier::external_body]
pub(crate) fn to_lower(s: &str) -> (r: String)
    ensures
        r@ == lowercased(s@),
{
    s.to_lowercase()
}

/// Calls `char::is_whitespace`. Trusted: the answer depends on the character
/// alone, named [`is_white_space`].
#[verifier::external_body]
pub(crate) fn white_space(c: char) -> (r: bool)
    ensures
        r == is_white_space(c),
{
    c.is_whitespace()
}

/// Calls `String::push`. Trusted: the string grows by exactly that character
/// at its end.
#[verifier::external_body]
pub(crate) fn push_char(s: &mut String, c: char)
    ensures
        final(s)@ == old(s)@.push(c),
{
    s.push(c)
}

/// The characters of `s`, in order.
pub fn chars_of(s: &str) -> (r: Vec<char>)
    ensures
        r@ == s@,
{
    let mut out: Vec<char> = Vec::new();
    for c in it: s.chars()
        invariant
            out@ == s@.take(it.index() as int),
            it.seq() == s@,
    {
        out.push(c);
    }
    out
}

/// The string made of `cs[from..to]`.
pub fn string_of_range(cs: &Vec<char>, from: usize, to: usize) -> (r: String)
    requires
        from <= to <= cs.len(),
    ensures
        r@ == cs@.subrange(from as int, to as int),
{
    let mut out = String::new();
    let mut i: usize = from;
    while i < to
        invariant
            from <= i <= to <= cs.len(),
            out@ == cs@.subrange(from as int, i as int),
        decreases to - i,
    {
        push_char(&mut out, cs[i]);
        i += 1;
        assert(out@ =~= cs@.subrange(from as int, i as int));
    }
    out
}

/// The string made of all of `cs`.
pub fn string_of(cs: &Vec<char>) -> (r: String)
    ensures
        r@ == cs@,
{
    let r = string_of_range(cs, 0, cs.len());
    assert(cs@.subrange(0, cs@.len() as int) =~= cs@);
    r
}

/// The characters of the lowercase form of `s`.
pub fn lower_chars(s: &str) -> (r: Vec<char>)
    ensures
        r@ == lowercased(s@),
{
    let low = to_lower(s);
    chars_of(low.as_str())
}

/// `needle` stands in `hay` at offset `i`.
pub open spec fn occurs_at(needle: Seq<char>, hay: Seq<char>, i: int) -> bool {
    &&& 0 <= i
    &&& i + needle.len() <= hay.len()
    &&& hay.subrange(i, i + needle.len()) == needle
}

/// `needle` is a contiguous part of `hay`.
pub open spec fn is_infix(needle: Seq<char>, hay: Seq<char>) -> bool {
    exists|i: int| occurs_at(needle, hay, i)
}

/// `hay` contains `needle` when letter case is ignored on both sides.
pub open spec fn contains_ignoring_case(hay: Seq<char>, needle: Seq<char>) -> bool {
    is_infix(lowercased(needle), lowercased(hay))
}

fn matches_at(hay: &Vec<char>, needle: &Vec<char>, at: usize) -> (r: bool)
    requires
        at + needle.len() <= hay.len(),
    ensures
        r == occurs_at(needle@, hay@, at as int),
{
    let mut k: usize = 0;
    while k < needle.len()
        invariant
            k <= needle.len(),
            at + needle.len() <= hay.len(),
            forall|j: int| 0 <= j < k ==> hay@[at + j] == needle@[j],
        decreases needle.len() - k,
    {
        if hay[at + k] != needle[k] {
            proof {
                let window = hay@.subrange(at as int, at + needle@.len());
                assert(window[k as int] == hay@[at + k]);
            }
            return false;
        }
        k += 1;
    }
    assert(hay@.subrange(at as int, at + needle@.len()) =~= needle@);
    true
}

/// Whether `needle` occurs somewhere in `hay`.
pub fn contains_chars(hay: &Vec<char>, needle: &Vec<char>) -> (r: bool)
    ensures
        r == is_infix(needle@, hay@),
{
    if needle.len() > hay.len() {
        return false;
    }
    if needle.len() == 0 {
        assert(occurs_at(needle@, hay@, 0)) by {
            assert(hay@.subrange(0, 0) =~= needle@);
        }
        return true;
    }
    let last: usize = hay.len() - needle.len();
    let mut i: usize = 0;
    while i <= last
        invariant
            i <= last + 1,
            last == hay.len() - needle.len(),
            needle.len() > 0,
            forall|k: int| 0 <= k < i ==> !occurs_at(needle@, hay@, k),
        decreases last + 1 - i,
    {
        if matches_at(hay, needle, i) {
            return true;
        }
        i += 1;
    }
    false
}

/// Whether `hay` contains `needle`, ignoring letter case.
pub fn contains_ignore_case(hay: &str, needle: &str) -> (r: bool)
    ensures
        r == contains_ignoring_case(hay@, needle@),
{
    let h = lower_chars(hay);
    let n = lower_chars(needle);
    contains_chars(&h, &n)
}

/// Whether `s` begins with `prefix`.
pub fn starts_with_chars(s: &Vec<char>, prefix: &Vec<char>) -> (r: bool)
    ensures
        r == prefix@.is_prefix_of(s@),
{
    if prefix.len() > s.len() {
        return false;
    }
    let r = matches_at(s, prefix, 0);
    proof {
        if r {
            assert(prefix@ =~= s@.subrange(0, prefix@.len() as int));
        } else if prefix@.is_prefix_of(s@) {
            assert(s@.subrange(0, 0 + prefix@.len() as int) =~= prefix@);
        }
    }
    r
}

/// `s` without its leading white space.
pub open spec fn skip_leading(s: Seq<char>) -> Seq<char>
    decreases s.len(),
{
    if s.len() > 0 && is_white_space(s[0]) {
        skip_leading(s.drop_first())
    } else {
        s
    }
}

/// `s` without its trailing white space.
pub open spec fn skip_trailing(s: Seq<char>) -> Seq<char>
    decreases s.len(),
{
    if s.len() > 0 && is_white_space(s.last()) {
        skip_trailing(s.drop_last())
    } else {
        s
    }
}

/// `s` without leading and trailing white space.
pub open spec fn trimmed(s: Seq<char>) -> Seq<char> {
    skip_trailing(skip_leading(s))
}

proof fn lemma_skip_leading(s: Seq<char>, a: int)
    requires
        0 <= a <= s.len(),
        forall|k: int| 0 <= k < a ==> is_white_space(s[k]),
        a == s.len() || !is_white_space(s[a]),
    ensures
        skip_leading(s) == s.subrange(a, s.len() as int),
    decreases a,
{
    if a == 0 {
        assert(s.subrange(0, s.len() as int) =~= s);
    } else {
        let t = s.drop_first();
        assert forall|k: int| 0 <= k < a - 1 implies is_white_space(t[k]) by {
            assert(t[k] == s[k + 1]);
        }
        lemma_skip_leading(t, a - 1);
        assert(t.subrange(a - 1, t.len() as int) =~= s.subrange(a, s.len() as int));
    }
}

proof fn lemma_skip_trailing(s: Seq<char>, b: int)
    requires
        0 <= b <= s.len(),
        forall|k: int| b <= k < s.len() ==> is_white_space(s[k]),
        b == 0 || !is_white_space(s[b - 1]),
    ensures
        skip_trailing(s) == s.subrange(0, b),
    decreases s.len() - b,
{
    if b == s.len() {
        assert(s.subrange(0, b) =~= s);
    } else {
        let t = s.drop_last();
        lemma_skip_trailing(t, b);
        assert(t.subrange(0, b) =~= s.subrange(0, b));
    }
}

/// The bounds `(from, to)` of `s` once its surrounding white space is cut.
pub fn trim_bounds(s: &Vec<char>) -> (r: (usize, usize))
    ensures
        r.0 <= r.1 <= s.len(),
        s@.subrange(r.0 as int, r.1 as int) == trimmed(s@),
{
    let n: usize = s.len();
    let mut a: usize = 0;
    while a < n && white_space(s[a])
        invariant
            a <= n,
            n == s.len(),
            forall|k: int| 0 <= k < a ==> is_white_space(s@[k]),
        decreases n - a,
    {
        a += 1;
    }
    let mut b: usize = n;
    while b > a && white_space(s[b - 1])
        invariant
            a <= b <= n,
            n == s.len(),
            forall|k: int| b <= k < n ==> is_white_space(s@[k]),
        decreases b,
    {
        b -= 1;
    }
    proof {
        lemma_skip_leading(s@, a as int);
        let rest = s@.subrange(a as int, n as int);
        assert forall|k: int| b - a <= k < rest.len() implies is_white_space(rest[k]) by {
            assert(rest[k] == s@[a + k]);
        }
        if b > a {
            assert(rest[b - a - 1] == s@[b - 1]);
        }
        lemma_skip_trailing(rest, b - a);
        assert(rest.subrange(0, b - a) =~= s@.subrange(a as int, b as int));
    }
    (a, b)
}

/// `s` with every `.` and `_` turned into a space.
pub open spec fn spaced(s: Seq<char>) -> Seq<char> {
    s.map_values(|c: char| if c == '.' || c == '_' { ' ' } else { c })
}

/// The title that a file's base name stands for: dots and underscores
/// become spaces, then surrounding white space is removed.
pub open spec fn clean_title_of(stem: Seq<char>) -> Seq<char> {
    trimmed(spaced(stem))
}

/// Cleans a file's base name (extension already removed) into a title.
pub fn clean_title(stem: &str) -> (r: String)
    ensures
        r@ == clean_title_of(stem@),
{
    let raw = chars_of(stem);
    let mut cs: Vec<char> = Vec::new();
    let mut i: usize = 0;
    while i < raw.len()
        invariant
            i <= raw.len(),
            cs@ == spaced(raw@.take(i as int)),
        decreases raw.len() - i,
    {
        let c = raw[i];
        if c == '.' || c == '_' {
            cs.push(' ');
        } else {
            cs.push(c);
        }
        i += 1;
        assert(cs@ =~= spaced(raw@.take(i as int)));
    }
    assert(raw@.take(raw@.len() as int) =~= raw@);
    let (a, b) = trim_bounds(&cs);
    string_of_range(&cs, a, b)
}

/// What one character becomes in markup text.
pub open spec fn escaped_char(c: char) -> Seq<char> {
    if c == '&' {
        seq!['&', 'a', 'm', 'p', ';']
    } else if c == '<' {
        seq!['&', 'l', 't', ';']
    } else if c == '>' {
        seq!['&', 'g', 't', ';']
    } else if c == '"' {
        seq!['&', 'q', 'u', 'o', 't', ';']
    } else if c == '\'' {
        seq!['&', 'a', 'p', 'o', 's', ';']
    } else {
        seq![c]
    }
}

/// `s` with each of `& < > " '` replaced by its entity.
pub open spec fn escaped(s: Seq<char>) -> Seq<char>
    decreases s.len(),
{
    if s.len() == 0 {
        Seq::empty()
    } else {
        escaped(s.drop_last()) + escaped_char(s.last())
    }
}

/// Escapes the five characters that markup treats specially.
pub fn escape_markup(text: &str) -> (r: String)
    ensures
        r@ == escaped(text@),
{
    let cs = chars_of(text);
    let mut out = String::new();
    let mut i: usize = 0;
    while i < cs.len()
        invariant
            i <= cs.len(),
            out@ == escaped(cs@.take(i as int)),
        decreases cs.len() - i,
    {
        let c = cs[i];
        let ghost before = out@;
        proof {
            reveal_strlit("&amp;");
            reveal_strlit("&lt;");
            reveal_strlit("&gt;");
            reveal_strlit("&quot;");
            reveal_strlit("&apos;");
        }
        if c == '&' {
            out.append("&amp;");
        } else if c == '<' {
            out.append("&lt;");
        } else if c == '>' {
            out.append("&gt;");
        } else if c == '"' {
            out.append("&quot;");
        } else if c == '\'' {
            out.append("&apos;");
        } else {
            push_char(&mut out, c);
        }
        assert(out@ =~= before + escaped_char(c));
        i += 1;
        proof {
            let t = cs@.take(i as int);
            assert(t.drop_last() =~= cs@.take(i - 1));
            assert(t.last() == c);
        }
    }
    assert(cs@.take(cs@.len() as int) =~= cs@);
    out
}

/// The length of the part of `s` that stands before the first `sep`.
pub open spec fn field_end(s: Seq<char>, sep: char) -> int
    decreases s.len(),
{
    if s.len() == 0 || s[0] == sep {
        0
    } else {
        1 + field_end(s.drop_first(), sep)
    }
}

/// The part of `s` that stands before the first `sep`; all of `s` if it
/// holds none.
pub open spec fn first_field(s: Seq<char>, sep: char) -> Seq<char> {
    s.take(field_end(s, sep))
}

/// The end of the first field is the index of the first separator.
pub proof fn lemma_field_end(s: Seq<char>, sep: char, i: int)
    requires
        0 <= i <= s.len(),
        forall|k: int| 0 <= k < i ==> s[k] != sep,
        i == s.len() || s[i] == sep,
    ensures
        field_end(s, sep) == i,
    decreases i,
{
    if i > 0 {
        let t = s.drop_first();
        assert forall|k: int| 0 <= k < i - 1 implies t[k] != sep by {
            assert(t[k] == s[k + 1]);
        }
        lemma_field_end(t, sep, i - 1);
    }
}

/// The items of a comma-separated list: each field without its surrounding
/// white space, empty fields left out.
pub open spec fn listed(s: Seq<char>) -> Seq<Seq<char>>
    decreases s.len(),
{
    let n = field_end(s, ',');
    let head = trimmed(s.take(n));
    let tail = if 0 <= n < s.len() {
        listed(s.skip(n + 1))
    } else {
        Seq::empty()
    };
    if head.len() > 0 {
        seq![head] + tail
    } else {
        tail
    }
}

/// Reads a comma-separated list.
pub fn comma_list(text: &str) -> (r: Vec<String>)
    ensures
        crate::movie::views(r@) == listed(text@),
{
    let cs = chars_of(text);
    let n: usize = cs.len();
    let mut out: Vec<String> = Vec::new();
    let mut start: usize = 0;
    let mut done: bool = false;
    assert(cs@.skip(0) =~= cs@);
    assert(crate::movie::views(out@) + listed(cs@) =~= listed(cs@));
    while !done
        invariant
            n == cs.len(),
            start <= n,
            !done ==> listed(cs@) == crate::movie::views(out@) + listed(cs@.skip(start as int)),
            done ==> listed(cs@) == crate::movie::views(out@),
            done ==> start == n,
        decreases n - start + if done { 0int } else { 1int },
    {
        let ghost rest = cs@.skip(start as int);
        let ghost prior = crate::movie::views(out@);
        let mut end: usize = start;
        let mut seg: Vec<char> = Vec::new();
        while end < n && cs[end] != ','
            invariant
                n == cs.len(),
                start <= end <= n,
                seg@ == cs@.subrange(start as int, end as int),
                forall|k: int| start <= k < end ==> cs@[k] != ',',
            decreases n - end,
        {
            seg.push(cs[end]);
            end += 1;
            assert(seg@ =~= cs@.subrange(start as int, end as int));
        }
        proof {
            assert forall|k: int| 0 <= k < end - start implies rest[k] != ',' by {
                assert(rest[k] == cs@[start + k]);
            }
            if end < n {
                assert(rest[end - start] == cs@[end as int]);
            }
            lemma_field_end(rest, ',', end - start);
            assert(seg@ =~= rest.take(end - start));
            if end < n {
                assert(rest.skip(end - start + 1) =~= cs@.skip(end + 1));
            }
        }
        let (a, b) = trim_bounds(&seg);
        if b > a {
            out.push(string_of_range(&seg, a, b));
            assert(crate::movie::views(out@) =~= prior + seq![trimmed(seg@)]);
        }
        if end < n {
            start = end + 1;
            assert(listed(cs@) =~= crate::movie::views(out@) + listed(cs@.skip(start as int)));
        } else {
            start = n;
            done = true;
            assert(listed(cs@) =~= crate::movie::views(out@));
        }
    }
    out
}

} // verus!
