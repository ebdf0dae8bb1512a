//! Ordering lists of records: the sort keys, and a stable sort under each.

use vstd::prelude::*;
use vstd::seq_lib::to_multiset_build;
use crate::movie::{Movie, MovieView, views};
use crate::ordering::{
    lemma_bytes_le_total, lemma_bytes_le_transitive, str_le, text_le,
};
use vstd::utf8::encode_utf8;

verus! {

/// The orders in which a list of records can be shown.
#[derive(Clone, Copy, Debug, PartialEq, Eq, Structural)]
pub enum SortKey {
    /// By title, ascending.
    Title,
    /// By release year, newest first.
    YearNewest,
    /// By release year, oldest first.
    YearOldest,
    /// By rating, highest first.
    RatingHigh,
    /// By rating, lowest first.
    RatingLow,
    /// By identity, latest added first.
    AddedNewest,
    /// By identity, earliest added first.
    AddedOldest,
}

/// Under `key`, `a` may stand before `b`.
pub open spec fn precedes(key: SortKey, a: MovieView, b: MovieView) -> bool {
    match key {
        SortKey::Title => text_le(a.title, b.title),
        SortKey::YearNewest => a.year >= b.year,
        SortKey::YearOldest => a.year <= b.year,
        SortKey::RatingHigh => a.rating >= b.rating,
        SortKey::RatingLow => a.rating <= b.rating,
        SortKey::AddedNewest => a.id >= b.id,
        SortKey::AddedOldest => a.id <= b.id,
    }
}

/// Of two records, one may stand before the other.
pub proof fn lemma_precedes_total(key: SortKey, a: MovieView, b: MovieView)
    ensures
        precedes(key, a, b) || precedes(key, b, a),
{
    lemma_bytes_le_total(encode_utf8(a.title), encode_utf8(b.title));
}

/// Standing before is transitive.
pub proof fn lemma_precedes_transitive(key: SortKey, a: MovieView, b: MovieView, c: MovieView)
    requires
        precedes(key, a, b),
        precedes(key, b, c),
    ensures
        precedes(key, a, c),
{
    if key == SortKey::Title {
        lemma_bytes_le_transitive(
            encode_utf8(a.title),
            encode_utf8(b.title),
            encode_utf8(c.title),
        );
    }
}

/// Whether, under `key`, `a` may stand before `b`.
pub fn stands_before(key: SortKey, a: &Movie, b: &Movie) -> (r: bool)
    ensures
        r == precedes(key, a@, b@),
{
    match key {
        SortKey::Title => str_le(a.title.as_str(), b.title.as_str()),
        SortKey::YearNewest => a.year >= b.year,
        SortKey::YearOldest => a.year <= b.year,
        SortKey::RatingHigh => a.rating >= b.rating,
        SortKey::RatingLow => a.rating <= b.rating,
        SortKey::AddedNewest => a.id >= b.id,
        SortKey::AddedOldest => a.id <= b.id,
    }
}

/// Every record of `s` may stand before each one after it.
pub open spec fn is_ordered(key: SortKey, s: Seq<MovieView>) -> bool {
    forall|i: int, j: int| 0 <= i < j < s.len() ==> precedes(key, s[i], s[j])
}

/// Where `x` goes into the ordered list `s`: behind the last record that
/// may stand before it.
pub open spec fn insertion_point(key: SortKey, s: Seq<MovieView>, x: MovieView) -> int
    decreases s.len(),
{
    if s.len() == 0 {
        0
    } else if precedes(key, s.last(), x) {
        s.len() as int
    } else {
        insertion_point(key, s.drop_last(), x)
    }
}

/// `s` with `x` put in at its insertion point.
pub open spec fn inserted(key: SortKey, s: Seq<MovieView>, x: MovieView) -> Seq<MovieView> {
    s.insert(insertion_point(key, s, x), x)
}

/// `s` sorted under `key`; records that may stand either way keep the order
/// they have in `s`.
pub open spec fn sorted_by(key: SortKey, s: Seq<MovieView>) -> Seq<MovieView>
    decreases s.len(),
{
    if s.len() == 0 {
        Seq::empty()
    } else {
        inserted(key, sorted_by(key, s.drop_last()), s.last())
    }
}

/// The insertion point lies behind a record that may stand before `x`, and
/// no record behind the point may.
pub proof fn lemma_insertion_point(key: SortKey, s: Seq<MovieView>, x: MovieView)
    ensures
        0 <= insertion_point(key, s, x) <= s.len(),
        insertion_point(key, s, x) > 0 ==> precedes(key, s[insertion_point(key, s, x) - 1], x),
        forall|j: int|
            insertion_point(key, s, x) <= j < s.len() ==> !precedes(key, #[trigger] s[j], x),
    decreases s.len(),
{
    if s.len() > 0 && !precedes(key, s.last(), x) {
        let t = s.drop_last();
        lemma_insertion_point(key, t, x);
        let p = insertion_point(key, t, x);
        assert forall|j: int| p <= j < s.len() implies !precedes(key, #[trigger] s[j], x) by {
            if j < t.len() {
                assert(t[j] == s[j]);
            }
        }
        if p > 0 {
            assert(t[p - 1] == s[p - 1]);
        }
    }
}

proof fn lemma_insertion_point_is(key: SortKey, s: Seq<MovieView>, x: MovieView, p: int)
    requires
        0 <= p <= s.len(),
        p > 0 ==> precedes(key, s[p - 1], x),
        forall|j: int| p <= j < s.len() ==> !precedes(key, #[trigger] s[j], x),
    ensures
        insertion_point(key, s, x) == p,
    decreases s.len(),
{
    if s.len() > 0 {
        if p == s.len() {
        } else {
            assert(!precedes(key, s[s.len() - 1], x));
            let t = s.drop_last();
            assert forall|j: int| p <= j < t.len() implies !precedes(key, #[trigger] t[j], x) by {
                assert(t[j] == s[j]);
            }
            if p > 0 {
                assert(t[p - 1] == s[p - 1]);
            }
            lemma_insertion_point_is(key, t, x, p);
        }
    }
}

/// Putting a record into an ordered list leaves the list ordered.
pub proof fn lemma_inserted_is_ordered(key: SortKey, s: Seq<MovieView>, x: MovieView)
    requires
        is_ordered(key, s),
    ensures
        is_ordered(key, inserted(key, s, x)),
{
    lemma_insertion_point(key, s, x);
    let p = insertion_point(key, s, x);
    let r = inserted(key, s, x);
    assert forall|i: int, j: int| 0 <= i < j < r.len() implies precedes(key, r[i], r[j]) by {
        if j == p {
            // r[i] is s[i] with i < p
            assert(r[i] == s[i]);
            if i < p - 1 {
                lemma_precedes_transitive(key, s[i], s[p - 1], x);
            }
        } else if i == p {
            assert(r[j] == s[j - 1]);
            lemma_precedes_total(key, s[j - 1], x);
        } else {
            let si = if i < p { i } else { i - 1 };
            let sj = if j < p { j } else { j - 1 };
            assert(r[i] == s[si]);
            assert(r[j] == s[sj]);
        }
    }
}

/// A sorted list is ordered.
pub proof fn lemma_sorted_is_ordered(key: SortKey, s: Seq<MovieView>)
    ensures
        is_ordered(key, sorted_by(key, s)),
    decreases s.len(),
{
    if s.len() > 0 {
        lemma_sorted_is_ordered(key, s.drop_last());
        lemma_inserted_is_ordered(key, sorted_by(key, s.drop_last()), s.last());
    }
}

/// Putting a record into a list adds that record and nothing else.
pub proof fn lemma_inserted_multiset(key: SortKey, s: Seq<MovieView>, x: MovieView)
    ensures
        inserted(key, s, x).to_multiset() == s.to_multiset().insert(x),
        inserted(key, s, x).len() == s.len() + 1,
{
    lemma_insertion_point(key, s, x);
    let p = insertion_point(key, s, x);
    let r = s.insert(p, x);
    assert(r.remove(p) =~= s);
    vstd::seq_lib::to_multiset_remove(r, p);
    r.to_multiset_ensures();
    assert(r[p] == x);
    assert(r.contains(x));
    assert(r.to_multiset().count(x) > 0);
    assert(r.to_multiset() =~= r.to_multiset().remove(x).insert(x));
}

/// Sorting keeps every record, each as often as it occurred.
pub proof fn lemma_sorted_is_permutation(key: SortKey, s: Seq<MovieView>)
    ensures
        sorted_by(key, s).to_multiset() == s.to_multiset(),
        sorted_by(key, s).len() == s.len(),
    decreases s.len(),
{
    if s.len() == 0 {
        assert(sorted_by(key, s) =~= s);
    } else {
        let t = s.drop_last();
        lemma_sorted_is_permutation(key, t);
        lemma_inserted_multiset(key, sorted_by(key, t), s.last());
        assert(s =~= t.push(s.last()));
        to_multiset_build(t, s.last());
    }
}

/// Sorting an ordered list changes nothing.
pub proof fn lemma_sorted_keeps_ordered(key: SortKey, s: Seq<MovieView>)
    requires
        is_ordered(key, s),
    ensures
        sorted_by(key, s) == s,
    decreases s.len(),
{
    if s.len() == 0 {
        assert(sorted_by(key, s) =~= s);
    } else {
        let t = s.drop_last();
        assert forall|i: int, j: int| 0 <= i < j < t.len() implies precedes(key, t[i], t[j]) by {
            assert(t[i] == s[i] && t[j] == s[j]);
        }
        lemma_sorted_keeps_ordered(key, t);
        if t.len() > 0 {
            assert(precedes(key, s[t.len() - 1], s[s.len() - 1]));
            assert(t.last() == s[t.len() - 1]);
        }
        assert(insertion_point(key, t, s.last()) == t.len());
        assert(t.insert(t.len() as int, s.last()) =~= s);
    }
}

/// Puts `x` into the ordered list `out`.
pub fn insert_sorted(out: &mut Vec<Movie>, key: SortKey, x: Movie)
    ensures
        views(final(out)@) == inserted(key, views(old(out)@), x@),
{
    let mut p: usize = out.len();
    while p > 0 && !stands_before(key, &out[p - 1], &x)
        invariant
            p <= out.len(),
            forall|j: int| p <= j < out.len() ==> !precedes(key, #[trigger] out@[j]@, x@),
        decreases p,
    {
        p -= 1;
    }
    proof {
        let s = views(out@);
        assert forall|j: int| p <= j < s.len() implies !precedes(key, #[trigger] s[j], x@) by {
            assert(s[j] == out@[j]@);
        }
        if p > 0 {
            assert(s[p - 1] == out@[p - 1]@);
        }
        lemma_insertion_point_is(key, s, x@, p as int);
    }
    out.insert(p, x);
    assert(views(out@) =~= views(old(out)@).insert(p as int, x@));
}

/// Sorts `v` under `key`, keeping the order of records that may stand
/// either way.
pub fn sort_movies(v: Vec<Movie>, key: SortKey) -> (r: Vec<Movie>)
    ensures
        views(r@) == sorted_by(key, views(v@)),
        is_ordered(key, views(r@)),
        views(r@).to_multiset() == views(v@).to_multiset(),
        r@.len() == v@.len(),
{
    let mut out: Vec<Movie> = Vec::new();
    assert(views(out@) =~= sorted_by(key, views(v@).take(0)));
    for x in it: v
        invariant
            views(out@) == sorted_by(key, views(v@).take(it.index() as int)),
            it.seq() == v@,
    {
        proof {
            let i = it.index() as int;
            let t = views(v@).take(i + 1);
            assert(t.drop_last() =~= views(v@).take(i));
            assert(t.last() == x@);
        }
        insert_sorted(&mut out, key, x);
    }
    proof {
        assert(views(v@).take(v@.len() as int) =~= views(v@));
        lemma_sorted_is_ordered(key, views(v@));
        lemma_sorted_is_permutation(key, views(v@));
    }
    out
}

} // verus!
