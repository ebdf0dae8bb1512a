//! The search cache: what the remote provider answered to a free-text
//! query, kept for a limited time.

use vstd::prelude::*;
use crate::assoc::{
    assoc_map, distinct_keys, lemma_assoc_absent, lemma_assoc_present, lemma_assoc_push,
    lemma_assoc_update,
};
use crate::movie::views;
use crate::text::{chars_of, lowercased, string_of_range, to_lower, trim_bounds, trimmed};

verus! {

/// How long a cached answer stays valid, in seconds: 30 days.
pub const SEARCH_TTL_SECONDS: u64 = 2_592_000;

/// One candidate that the remote provider offers for a query.
#[derive(Debug)]
pub struct SearchResult {
    /// The remote provider's id of the candidate.
    pub tmdb_id: u32,
    pub title: String,
    /// The release year as text.
    pub year: String,
    /// The rating, in thousandths of a point.
    pub rating: u16,
}

pub ghost struct SearchResultView {
    pub tmdb_id: u32,
    pub title: Seq<char>,
    pub year: Seq<char>,
    pub rating: u16,
}

impl View for SearchResult {
    type V = SearchResultView;

    open spec fn view(&self) -> SearchResultView {
        SearchResultView {
            tmdb_id: self.tmdb_id,
            title: self.title@,
            year: self.year@,
            rating: self.rating,
        }
    }
}

impl Clone for SearchResult {
    fn clone(&self) -> (r: Self)
        ensures
            r@ == self@,
    {
        SearchResult {
            tmdb_id: self.tmdb_id,
            title: self.title.clone(),
            year: self.year.clone(),
            rating: self.rating,
        }
    }
}

/// A copy of a list of candidates.
pub fn clone_results(v: &Vec<SearchResult>) -> (r: Vec<SearchResult>)
    ensures
        views(r@) == views(v@),
{
    let r = v.clone();
    assert(views(r@) =~= views(v@));
    r
}

/// One cached answer: the normalized query, the candidates in the
/// provider's order, and when they were captured, in seconds since the
/// epoch.
#[derive(Debug)]
pub struct CachedSearch {
    pub query: String,
    pub results: Vec<SearchResult>,
    pub stored_at: u64,
}

/// What the cache holds under a query.
pub ghost struct CachedSearchView {
    pub results: Seq<SearchResultView>,
    pub stored_at: u64,
}

impl View for CachedSearch {
    type V = CachedSearchView;

    open spec fn view(&self) -> CachedSearchView {
        CachedSearchView { results: views(self.results@), stored_at: self.stored_at }
    }
}

impl Clone for CachedSearch {
    fn clone(&self) -> (r: Self)
        ensures
            r@ == self@,
            r.query@ == self.query@,
    {
        CachedSearch {
            query: self.query.clone(),
            results: clone_results(&self.results),
            stored_at: self.stored_at,
        }
    }
}

/// The key under which a query is cached: the query without surrounding
/// white space, in lowercase.
pub open spec fn normalized_query(query: Seq<char>) -> Seq<char> {
    lowercased(trimmed(query))
}

/// Normalizes a query into its cache key.
pub fn normalize_query(query: &str) -> (r: String)
    ensures
        r@ == normalized_query(query@),
{
    let cs = chars_of(query);
    let (a, b) = trim_bounds(&cs);
    let cut = string_of_range(&cs, a, b);
    to_lower(cut.as_str())
}

/// An answer captured at `stored_at` is still valid at `now`: its age is at
/// most [`SEARCH_TTL_SECONDS`].
pub open spec fn is_fresh(stored_at: u64, now: u64) -> bool {
    now - stored_at <= SEARCH_TTL_SECONDS
}

/// What a lookup at `now` finds under `key` in the cache `m`.
pub open spec fn fresh_answer(
    m: Map<Seq<char>, CachedSearchView>,
    key: Seq<char>,
    now: u64,
) -> Option<Seq<SearchResultView>> {
    if m.contains_key(key) && is_fresh(m[key].stored_at, now) {
        Some(m[key].results)
    } else {
        None
    }
}

/// An answer older than [`SEARCH_TTL_SECONDS`] counts as absent.
pub proof fn lemma_expired_is_absent(m: Map<Seq<char>, CachedSearchView>, key: Seq<char>, now: u64)
    requires
        m.contains_key(key),
        now - m[key].stored_at > SEARCH_TTL_SECONDS,
    ensures
        fresh_answer(m, key, now) is None,
{
}

/// Storing overwrites: whatever the cache held under a query, expired or
/// not, a lookup within the time limit of the new capture finds the new
/// candidates, and no other query is touched.
pub proof fn lemma_store_overwrites(
    m: Map<Seq<char>, CachedSearchView>,
    key: Seq<char>,
    answer: CachedSearchView,
    now: u64,
    other: Seq<char>,
)
    requires
        is_fresh(answer.stored_at, now),
        other != key,
    ensures
        fresh_answer(m.insert(key, answer), key, now) == Some(answer.results),
        fresh_answer(m.insert(key, answer), other, now) == fresh_answer(m, other, now),
{
}

/// The pairs that a list of cached answers stands for.
pub open spec fn search_pairs(s: Seq<CachedSearch>) -> Seq<(Seq<char>, CachedSearchView)> {
    s.map_values(|e: CachedSearch| (e.query@, e@))
}

/// The map that a list of cached answers stands for; of two answers to one
/// query the later one counts.
pub open spec fn cache_of(s: Seq<CachedSearch>) -> Map<Seq<char>, CachedSearchView> {
    assoc_map(search_pairs(s))
}

/// The search cache: at most one answer per normalized query.
pub struct SearchCache {
    entries: Vec<CachedSearch>,
}

impl View for SearchCache {
    type V = Map<Seq<char>, CachedSearchView>;

    closed spec fn view(&self) -> Map<Seq<char>, CachedSearchView> {
        assoc_map(search_pairs(self.entries@))
    }
}

impl SearchCache {
    /// No query is cached twice.
    pub closed spec fn wf(&self) -> bool {
        distinct_keys(search_pairs(self.entries@))
    }

    /// An empty cache.
    pub fn new() -> (r: SearchCache)
        ensures
            r.wf(),
            r@ == Map::<Seq<char>, CachedSearchView>::empty(),
    {
        SearchCache { entries: Vec::new() }
    }

    fn position(&self, key: &String) -> (r: Option<usize>)
        ensures
            match r {
                Some(i) => i < self.entries@.len() && self.entries@[i as int].query@ == key@,
                None => forall|j: int|
                    0 <= j < self.entries@.len() ==> (#[trigger] self.entries@[j]).query@ != key@,
            },
    {
        let mut i: usize = 0;
        while i < self.entries.len()
            invariant
                i <= self.entries@.len(),
                forall|j: int| 0 <= j < i ==> (#[trigger] self.entries@[j]).query@ != key@,
            decreases self.entries@.len() - i,
        {
            if self.entries[i].query == *key {
                return Some(i);
            }
            i += 1;
        }
        None
    }

    /// The candidates cached for `query`, if there are any and they are no
    /// older at `now` than [`SEARCH_TTL_SECONDS`].
    pub fn lookup(&self, query: &str, now: u64) -> (r: Option<Vec<SearchResult>>)
        requires
            self.wf(),
        ensures
            match r {
                Some(v) => Some(views(v@)),
                None => None,
            } == fresh_answer(self@, normalized_query(query@), now),
    {
        let key = normalize_query(query);
        match self.position(&key) {
            Some(i) => {
                proof {
                    let pairs = search_pairs(self.entries@);
                    lemma_assoc_present(pairs, i as int);
                }
                let entry = &self.entries[i];
                if now <= entry.stored_at || now - entry.stored_at <= SEARCH_TTL_SECONDS {
                    Some(clone_results(&entry.results))
                } else {
                    None
                }
            },
            None => {
                proof {
                    let pairs = search_pairs(self.entries@);
                    assert forall|j: int| 0 <= j < pairs.len() implies (#[trigger] pairs[j]).0
                        != key@ by {
                        assert(pairs[j].0 == self.entries@[j].query@);
                    }
                    lemma_assoc_absent(pairs, key@);
                }
                None
            },
        }
    }

    /// Puts `entry` into the cache under the query it carries, taken as it
    /// is, in place of whatever was cached under it.
    pub fn put(&mut self, entry: CachedSearch)
        requires
            old(self).wf(),
        ensures
            final(self).wf(),
            final(self)@ == old(self)@.insert(entry.query@, entry@),
    {
        let ghost before = search_pairs(self.entries@);
        let ghost key = entry.query@;
        let ghost value = entry@;
        match self.position(&entry.query) {
            Some(i) => {
                proof {
                    lemma_assoc_update(before, i as int, value);
                }
                self.entries[i] = entry;
                assert(search_pairs(self.entries@) =~= before.update(i as int, (key, value)));
            },
            None => {
                proof {
                    assert forall|j: int| 0 <= j < before.len() implies (#[trigger] before[j]).0
                        != key by {
                        assert(before[j].0 == self.entries@[j].query@);
                    }
                    lemma_assoc_push(before, key, value);
                }
                self.entries.push(entry);
                assert(search_pairs(self.entries@) =~= before.push((key, value)));
            },
        }
    }

    /// Caches `results` for `query` as captured at `now`, in place of
    /// whatever was cached for it.
    pub fn store(&mut self, query: &str, results: Vec<SearchResult>, now: u64)
        requires
            old(self).wf(),
        ensures
            final(self).wf(),
            final(self)@ == old(self)@.insert(
                normalized_query(query@),
                CachedSearchView { results: views(results@), stored_at: now },
            ),
    {
        let key = normalize_query(query);
        self.put(CachedSearch { query: key, results, stored_at: now });
    }

    /// The cache that holds `entries`, each under the query it carries; of
    /// two entries with one query the later one counts.
    pub fn from_entries(entries: Vec<CachedSearch>) -> (r: SearchCache)
        ensures
            r.wf(),
            r@ == cache_of(entries@),
    {
        let mut cache = SearchCache::new();
        assert(search_pairs(entries@.take(0)) =~= Seq::empty());
        for e in it: entries
            invariant
                cache.wf(),
                cache@ == cache_of(entries@.take(it.index() as int)),
                it.seq() == entries@,
        {
            proof {
                let i = it.index() as int;
                let t = search_pairs(entries@.take(i + 1));
                assert(t.drop_last() =~= search_pairs(entries@.take(i)));
                assert(t.last() == (e.query@, e@));
            }
            cache.put(e);
        }
        assert(entries@.take(entries@.len() as int) =~= entries@);
        cache
    }

    /// A copy of everything cached.
    pub fn entries(&self) -> (r: Vec<CachedSearch>)
        ensures
            cache_of(r@) == self@,
    {
        let mut out: Vec<CachedSearch> = Vec::new();
        let mut i: usize = 0;
        while i < self.entries.len()
            invariant
                i <= self.entries@.len(),
                out@.len() == i,
                forall|j: int|
                    0 <= j < i ==> (#[trigger] out@[j])@ == self.entries@[j]@ && out@[j].query@
                        == self.entries@[j].query@,
            decreases self.entries@.len() - i,
        {
            out.push(self.entries[i].clone());
            i += 1;
        }
        assert(search_pairs(out@) =~= search_pairs(self.entries@));
        out
    }
}

} // verus!
