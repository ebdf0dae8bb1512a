//! The derived-view cache: filtered and sorted lists of records, kept until
//! the catalog next changes.

use vstd::prelude::*;
use crate::assoc::{
    assoc_map, distinct_keys, lemma_assoc_absent, lemma_assoc_present, lemma_assoc_push,
    lemma_assoc_update,
};
use crate::movie::{clone_movies, Movie, MovieView, views};
use crate::sorting::SortKey;

verus! {

/// What a derived view is asked by: a text filter, a category filter and a
/// sort order.
#[derive(Debug)]
pub struct ViewKey {
    pub text: String,
    pub category: String,
    pub sort: SortKey,
}

pub ghost struct ViewKeyView {
    pub text: Seq<char>,
    pub category: Seq<char>,
    pub sort: SortKey,
}

impl View for ViewKey {
    type V = ViewKeyView;

    open spec fn view(&self) -> ViewKeyView {
        ViewKeyView { text: self.text@, category: self.category@, sort: self.sort }
    }
}

impl Clone for ViewKey {
    fn clone(&self) -> (r: Self)
        ensures
            r@ == self@,
    {
        ViewKey { text: self.text.clone(), category: self.category.clone(), sort: self.sort }
    }
}

impl ViewKey {
    /// Whether two keys ask for the same view.
    pub fn same(&self, other: &ViewKey) -> (r: bool)
        ensures
            r == (self@ == other@),
    {
        self.sort == other.sort && self.text == other.text && self.category == other.category
    }
}

/// One cached view.
pub struct CachedView {
    key: ViewKey,
    movies: Vec<Movie>,
}

/// The pairs that a list of cached views stands for.
pub closed spec fn view_pairs(s: Seq<CachedView>) -> Seq<(ViewKeyView, Seq<MovieView>)> {
    s.map_values(|e: CachedView| (e.key@, views(e.movies@)))
}

/// The derived-view cache: at most one list per key.
pub struct ViewCache {
    entries: Vec<CachedView>,
}

impl View for ViewCache {
    type V = Map<ViewKeyView, Seq<MovieView>>;

    closed spec fn view(&self) -> Map<ViewKeyView, Seq<MovieView>> {
        assoc_map(view_pairs(self.entries@))
    }
}

impl ViewCache {
    /// No key is cached twice.
    pub closed spec fn wf(&self) -> bool {
        distinct_keys(view_pairs(self.entries@))
    }

    /// An empty cache.
    pub fn new() -> (r: ViewCache)
        ensures
            r.wf(),
            r@ == Map::<ViewKeyView, Seq<MovieView>>::empty(),
    {
        ViewCache { entries: Vec::new() }
    }

    fn position(&self, key: &ViewKey) -> (r: Option<usize>)
        ensures
            match r {
                Some(i) => i < self.entries@.len() && self.entries@[i as int].key@ == key@,
                None => forall|j: int|
                    0 <= j < self.entries@.len() ==> (#[trigger] self.entries@[j]).key@ != key@,
            },
    {
        let mut i: usize = 0;
        while i < self.entries.len()
            invariant
                i <= self.entries@.len(),
                forall|j: int| 0 <= j < i ==> (#[trigger] self.entries@[j]).key@ != key@,
            decreases self.entries@.len() - i,
        {
            if self.entries[i].key.same(key) {
                return Some(i);
            }
            i += 1;
        }
        None
    }

    /// The list cached under `key`, if there is one.
    pub fn get(&self, key: &ViewKey) -> (r: Option<Vec<Movie>>)
        requires
            self.wf(),
        ensures
            r is Some <==> self@.contains_key(key@),
            r matches Some(v) ==> views(v@) == self@[key@],
    {
        match self.position(key) {
            Some(i) => {
                proof {
                    lemma_assoc_present(view_pairs(self.entries@), i as int);
                }
                Some(clone_movies(&self.entries[i].movies))
            },
            None => {
                proof {
                    let pairs = view_pairs(self.entries@);
                    assert forall|j: int| 0 <= j < pairs.len() implies (#[trigger] pairs[j]).0
                        != key@ by {
                        assert(pairs[j].0 == self.entries@[j].key@);
                    }
                    lemma_assoc_absent(pairs, key@);
                }
                None
            },
        }
    }

    /// Caches `movies` under `key`, in place of whatever was cached there.
    pub fn put(&mut self, key: ViewKey, movies: Vec<Movie>)
        requires
            old(self).wf(),
        ensures
            final(self).wf(),
            final(self)@ == old(self)@.insert(key@, views(movies@)),
    {
        let ghost before = view_pairs(self.entries@);
        let ghost value = views(movies@);
        match self.position(&key) {
            Some(i) => {
                proof {
                    lemma_assoc_update(before, i as int, value);
                }
                self.entries[i].movies = movies;
                assert(view_pairs(self.entries@) =~= before.update(i as int, (key@, value)));
            },
            None => {
                proof {
                    assert forall|j: int| 0 <= j < before.len() implies (#[trigger] before[j]).0
                        != key@ by {
                        assert(before[j].0 == self.entries@[j].key@);
                    }
                    lemma_assoc_push(before, key@, value);
                }
                self.entries.push(CachedView { key, movies });
                assert(view_pairs(self.entries@) =~= before.push((key@, value)));
            },
        }
    }

    /// Discards every cached list.
    pub fn clear(&mut self)
        ensures
            final(self).wf(),
            final(self)@ == Map::<ViewKeyView, Seq<MovieView>>::empty(),
    {
        self.entries.clear();
    }
}

} // verus!
