//! The catalog store: the sole owner of the records, of their identities
//! and of both caches.

use vstd::prelude::*;
use crate::catalog_model::{
    all_category, changed, derived_view, filter_of, genre_matches, holds_id, holds_path, keep,
    lemma_slot_is, list_of, max_id, moved_path, paths_of, rehomed, rehomed_all, search_of, slot,
    CatalogState, MovieChangeView, Selector, ID_LIMIT,
};
use crate::movie::{clone_movies, views, Movie, MovieView, WatchEntry};
use crate::search_cache::{
    cache_of, fresh_answer, normalized_query, CachedSearch, CachedSearchView, SearchCache,
    SearchResult,
};
use crate::sorting::{is_ordered, sort_movies, SortKey};
use crate::text::{
    chars_of, contains_chars, lower_chars, lowercased, starts_with_chars, string_of_range,
};
use crate::view_cache::{ViewCache, ViewKey};

verus! {

/// A change to one record.
#[derive(Debug)]
pub enum MovieChange {
    /// Associates another file.
    SetFilePath(String),
    /// Appends a line to the watch history.
    LogWatch(WatchEntry),
    /// Replaces the metadata; identity and watch history stay.
    Replace(Movie),
}

impl View for MovieChange {
    type V = MovieChangeView;

    open spec fn view(&self) -> MovieChangeView {
        match self {
            MovieChange::SetFilePath(p) => MovieChangeView::SetFilePath(p@),
            MovieChange::LogWatch(e) => MovieChangeView::LogWatch(e@),
            MovieChange::Replace(m) => MovieChangeView::Replace(m@),
        }
    }
}

/// Whether `category` is the category `All`.
pub fn is_all(category: &str) -> (r: bool)
    ensures
        r == (category@ == all_category()),
{
    let cs = chars_of(category);
    let r = cs.len() == 3 && cs[0] == 'A' && cs[1] == 'l' && cs[2] == 'l';
    proof {
        if r {
            assert(cs@ =~= all_category());
        }
    }
    r
}

/// Whether some genre of `m` contains the text whose lowercase form is
/// `needle`.
fn genre_contains(m: &Movie, needle: &Vec<char>, Ghost(category): Ghost<Seq<char>>) -> (r: bool)
    requires
        needle@ == lowercased(category),
    ensures
        r == genre_matches(m@, category),
{
    let mut i: usize = 0;
    while i < m.genre.len()
        invariant
            i <= m.genre@.len(),
            needle@ == lowercased(category),
            forall|j: int|
                0 <= j < i ==> !crate::text::contains_ignoring_case(
                    #[trigger] m@.genre[j],
                    category,
                ),
        decreases m.genre@.len() - i,
    {
        let g = lower_chars(m.genre[i].as_str());
        assert(m@.genre[i as int] == m.genre@[i as int]@);
        if contains_chars(&g, needle) {
            return true;
        }
        i += 1;
    }
    false
}

/// The catalog.
pub struct Catalog {
    records: Vec<Movie>,
    next_id: u64,
    searches: SearchCache,
    views: ViewCache,
    unsaved: bool,
}

impl Catalog {
    /// The state that the catalog is in.
    pub closed spec fn model(&self) -> CatalogState {
        CatalogState {
            records: views(self.records@),
            next_id: self.next_id as nat,
            searches: self.searches@,
            views: self.views@,
            unsaved: self.unsaved,
        }
    }

    /// The catalog is in a valid state.
    pub closed spec fn wf(&self) -> bool {
        &&& self.model().valid()
        &&& self.searches.wf()
        &&& self.views.wf()
    }

    /// A well-formed catalog is in a valid state.
    pub proof fn lemma_wf_valid(&self)
        requires
            self.wf(),
        ensures
            self.model().valid(),
    {
    }

    /// The catalog without records.
    pub fn new() -> (r: Catalog)
        ensures
            r.wf(),
            r.model() == CatalogState::empty(),
    {
        let r = Catalog {
            records: Vec::new(),
            next_id: 1,
            searches: SearchCache::new(),
            views: ViewCache::new(),
            unsaved: false,
        };
        assert(views(r.records@) =~= Seq::<MovieView>::empty());
        r
    }

    fn find(&self, id: u32) -> (p: usize)
        ensures
            p == slot(views(self.records@), id),
            p <= self.records@.len(),
    {
        let mut i: usize = 0;
        while i < self.records.len() && self.records[i].id < id
            invariant
                i <= self.records@.len(),
                forall|k: int| 0 <= k < i ==> (#[trigger] self.records@[k]).id < id,
            decreases self.records@.len() - i,
        {
            i += 1;
        }
        proof {
            let s = views(self.records@);
            assert forall|k: int| 0 <= k < i implies (#[trigger] s[k]).id < id by {
                assert(s[k] == self.records@[k]@);
            }
            if i < s.len() {
                assert(s[i as int] == self.records@[i as int]@);
            }
            lemma_slot_is(s, id, i as int);
        }
        i
    }

    /// Whether an identity is left to assign.
    pub fn has_room(&self) -> (r: bool)
        ensures
            r == self.model().has_room(),
    {
        self.next_id < ID_LIMIT
    }

    /// The identity that the next added record gets.
    pub fn next_id(&self) -> (r: u64)
        ensures
            r == self.model().next_id,
    {
        self.next_id
    }

    /// How many records the catalog holds.
    pub fn len(&self) -> (r: usize)
        ensures
            r == self.model().records.len(),
    {
        self.records.len()
    }

    /// Whether the catalog has changed since it was last written out.
    pub fn is_unsaved(&self) -> (r: bool)
        ensures
            r == self.model().unsaved,
    {
        self.unsaved
    }

    /// Records that the catalog was written out as it stands.
    pub fn mark_saved(&mut self)
        requires
            old(self).wf(),
        ensures
            final(self).wf(),
            final(self).model() == old(self).model().saved(),
    {
        self.unsaved = false;
    }

    /// Adds `movie` under the next identity and returns that identity. The
    /// derived views are discarded.
    pub fn add(&mut self, movie: Movie) -> (id: u32)
        requires
            old(self).wf(),
            old(self).model().has_room(),
        ensures
            final(self).wf(),
            final(self).model() == old(self).model().added(movie@),
            id == old(self).model().next_id,
    {
        let id: u32 = self.next_id as u32;
        let mut m = movie.normalize();
        m.id = id;
        proof {
            old(self).model().lemma_added_valid(movie@);
        }
        self.records.push(m);
        self.next_id = self.next_id + 1;
        self.views.clear();
        self.unsaved = true;
        assert(views(self.records@) =~= old(self).model().added(movie@).records);
        id
    }

    /// Removes the record `id`, if there is one, and says whether there
    /// was. The derived views are discarded.
    pub fn delete(&mut self, id: u32) -> (r: bool)
        requires
            old(self).wf(),
        ensures
            final(self).wf(),
            final(self).model() == old(self).model().deleted(id),
            r == holds_id(old(self).model().records, id),
    {
        proof {
            old(self).model().lemma_deleted_valid(id);
        }
        let p = self.find(id);
        self.views.clear();
        if p < self.records.len() && self.records[p].id == id {
            assert(views(self.records@)[p as int] == self.records@[p as int]@);
            self.records.remove(p);
            self.unsaved = true;
            assert(views(self.records@) =~= views(old(self).records@).remove(p as int));
            true
        } else {
            proof {
                if p < self.records@.len() {
                    assert(views(self.records@)[p as int] == self.records@[p as int]@);
                }
            }
            false
        }
    }

    /// Applies `change` to the record `id`, if there is one, and says
    /// whether there was. The derived views are discarded.
    pub fn update(&mut self, id: u32, change: MovieChange) -> (r: bool)
        requires
            old(self).wf(),
        ensures
            final(self).wf(),
            final(self).model() == old(self).model().updated(id, change@),
            r == holds_id(old(self).model().records, id),
    {
        proof {
            old(self).model().lemma_updated_valid(id, change@);
        }
        let p = self.find(id);
        self.views.clear();
        if p < self.records.len() && self.records[p].id == id {
            let ghost before = views(self.records@);
            assert(before[p as int] == self.records@[p as int]@);
            let ghost after = changed(before[p as int], change@);
            match change {
                MovieChange::SetFilePath(path) => {
                    self.records[p].file_path = path;
                },
                MovieChange::LogWatch(entry) => {
                    let mut m = self.records.remove(p);
                    m.watch_log.push(entry);
                    assert(views(m.watch_log@) =~= before[p as int].watch_log.push(entry@));
                    self.records.insert(p, m);
                },
                MovieChange::Replace(movie) => {
                    let prior = self.records.remove(p);
                    let mut m = movie.normalize();
                    m.id = prior.id;
                    m.watch_log = prior.watch_log;
                    self.records.insert(p, m);
                },
            }
            self.unsaved = true;
            assert(self.records@[p as int]@ == after);
            assert(views(self.records@) =~= before.update(p as int, after));
            true
        } else {
            proof {
                if p < self.records@.len() {
                    assert(views(self.records@)[p as int] == self.records@[p as int]@);
                }
            }
            false
        }
    }

    /// A copy of the record `id`, if there is one.
    pub fn get(&self, id: u32) -> (r: Option<Movie>)
        ensures
            r is Some <==> holds_id(self.model().records, id),
            r matches Some(m) ==> m@ == self.model().records[slot(self.model().records, id)],
    {
        let p = self.find(id);
        proof {
            if p < self.records@.len() {
                assert(views(self.records@)[p as int] == self.records@[p as int]@);
            }
        }
        if p < self.records.len() && self.records[p].id == id {
            Some(self.records[p].clone())
        } else {
            None
        }
    }

    /// A copy of all records, in the order of their identities.
    pub fn snapshot(&self) -> (r: Vec<Movie>)
        ensures
            views(r@) == self.model().records,
    {
        clone_movies(&self.records)
    }

    /// The records whose title contains `text`, letter case ignored, in the
    /// order of their identities.
    pub fn search(&self, text: &str) -> (r: Vec<Movie>)
        ensures
            views(r@) == search_of(self.model().records, text@),
    {
        let needle = lower_chars(text);
        let ghost sel = Selector::TitleHas(text@);
        let ghost all = views(self.records@);
        let mut out: Vec<Movie> = Vec::new();
        let mut i: usize = 0;
        assert(views(out@) =~= keep(all.take(0), sel));
        while i < self.records.len()
            invariant
                i <= self.records@.len(),
                all == views(self.records@),
                sel == Selector::TitleHas(text@),
                needle@ == lowercased(text@),
                views(out@) == keep(all.take(i as int), sel),
            decreases self.records@.len() - i,
        {
            let m = &self.records[i];
            let title = lower_chars(m.title.as_str());
            proof {
                let t = all.take(i + 1);
                assert(t.drop_last() =~= all.take(i as int));
                assert(t.last() == m@);
            }
            if contains_chars(&title, &needle) {
                let ghost prior = views(out@);
                out.push(m.clone());
                assert(views(out@) =~= prior.push(m@));
            }
            i += 1;
        }
        assert(all.take(all.len() as int) =~= all);
        out
    }

    /// All records, sorted by title.
    pub fn list_all(&self) -> (r: Vec<Movie>)
        ensures
            views(r@) == list_of(self.model().records),
            is_ordered(SortKey::Title, views(r@)),
            views(r@).to_multiset() == self.model().records.to_multiset(),
    {
        sort_movies(clone_movies(&self.records), SortKey::Title)
    }

    /// The records of which some genre contains `category`, letter case
    /// ignored, in the order of their identities; for the empty category
    /// and for `All`, all records sorted by title.
    pub fn filter(&self, category: &str) -> (r: Vec<Movie>)
        ensures
            views(r@) == filter_of(self.model().records, category@),
    {
        if category.is_empty() || is_all(category) {
            return self.list_all();
        }
        let needle = lower_chars(category);
        let ghost sel = Selector::GenreHas(category@);
        let ghost all = views(self.records@);
        let mut out: Vec<Movie> = Vec::new();
        let mut i: usize = 0;
        assert(views(out@) =~= keep(all.take(0), sel));
        while i < self.records.len()
            invariant
                i <= self.records@.len(),
                all == views(self.records@),
                sel == Selector::GenreHas(category@),
                needle@ == lowercased(category@),
                views(out@) == keep(all.take(i as int), sel),
            decreases self.records@.len() - i,
        {
            let m = &self.records[i];
            proof {
                let t = all.take(i + 1);
                assert(t.drop_last() =~= all.take(i as int));
                assert(t.last() == m@);
            }
            if genre_contains(m, &needle, Ghost(category@)) {
                let ghost prior = views(out@);
                out.push(m.clone());
                assert(views(out@) =~= prior.push(m@));
            }
            i += 1;
        }
        assert(all.take(all.len() as int) =~= all);
        out
    }

    fn derive(&self, key: &ViewKey) -> (r: Vec<Movie>)
        ensures
            views(r@) == derived_view(self.model().records, key@),
    {
        let base = if key.text.as_str().is_empty() {
            self.filter(key.category.as_str())
        } else {
            self.search(key.text.as_str())
        };
        sort_movies(base, key.sort)
    }

    /// The list cached for `key`, if the derived-view cache holds one.
    pub fn cached_view(&self, key: &ViewKey) -> (r: Option<Vec<Movie>>)
        requires
            self.wf(),
        ensures
            r is Some <==> self.model().views.contains_key(key@),
            r matches Some(v) ==> views(v@) == self.model().views[key@],
    {
        self.views.get(key)
    }

    /// The view that `key` asks for, from the derived-view cache where it
    /// holds one; otherwise derived from the records and cached.
    pub fn view(&mut self, key: &ViewKey) -> (r: Vec<Movie>)
        requires
            old(self).wf(),
        ensures
            final(self).wf(),
            views(r@) == derived_view(old(self).model().records, key@),
            final(self).model() == old(self).model().viewed(key@),
    {
        proof {
            old(self).model().lemma_viewed_valid(key@);
        }
        match self.views.get(key) {
            Some(v) => {
                assert(self.model().views =~= self.model().views.insert(
                    key@,
                    derived_view(self.model().records, key@),
                ));
                v
            },
            None => {
                let v = self.derive(key);
                self.views.put(key.clone(), clone_movies(&v));
                v
            },
        }
    }

    /// The candidates cached for `query`, if there are any and they are
    /// still valid at `now`, given in seconds since the epoch.
    pub fn lookup_cached_search(&self, query: &str, now: u64) -> (r: Option<Vec<SearchResult>>)
        requires
            self.wf(),
        ensures
            match r {
                Some(v) => Some(views(v@)),
                None => None,
            } == fresh_answer(self.model().searches, normalized_query(query@), now),
    {
        self.searches.lookup(query, now)
    }

    /// Caches `results` for `query` as captured at `now`, in place of
    /// whatever was cached for it.
    pub fn store_cached_search(&mut self, query: &str, results: Vec<SearchResult>, now: u64)
        requires
            old(self).wf(),
        ensures
            final(self).wf(),
            final(self).model() == old(self).model().search_stored(
                normalized_query(query@),
                CachedSearchView { results: views(results@), stored_at: now },
            ),
    {
        self.searches.store(query, results, now);
        self.unsaved = true;
        proof {
            let before = old(self).model();
            let after = self.model();
            assert(before.valid());
            assert(after.records == before.records);
            assert(after.views == before.views);
            assert(after.next_id == before.next_id);
            assert(after.valid());
        }
    }

    /// A copy of everything that the search cache holds.
    pub fn cached_searches(&self) -> (r: Vec<CachedSearch>)
        ensures
            cache_of(r@) == self.model().searches,
    {
        self.searches.entries()
    }

    /// The file paths of all records, in the order of their identities.
    pub fn existing_paths(&self) -> (r: Vec<String>)
        ensures
            views(r@) == paths_of(self.model().records),
    {
        let mut out: Vec<String> = Vec::new();
        let mut i: usize = 0;
        while i < self.records.len()
            invariant
                i <= self.records@.len(),
                out@.len() == i,
                forall|j: int| 0 <= j < i ==> (#[trigger] out@[j])@ == self.records@[j].file_path@,
            decreases self.records@.len() - i,
        {
            out.push(self.records[i].file_path.clone());
            i += 1;
        }
        assert(views(out@) =~= paths_of(views(self.records@)));
        out
    }

    /// Whether some record is associated with the file `path`.
    pub fn has_path(&self, path: &str) -> (r: bool)
        ensures
            r == holds_path(self.model().records, path@),
    {
        let wanted = path.to_owned();
        let ghost all = views(self.records@);
        let mut i: usize = 0;
        while i < self.records.len()
            invariant
                i <= self.records@.len(),
                all == views(self.records@),
                wanted@ == path@,
                forall|j: int| 0 <= j < i ==> (#[trigger] all[j]).file_path != path@,
            decreases self.records@.len() - i,
        {
            assert(all[i as int] == self.records@[i as int]@);
            if self.records[i].file_path == wanted {
                return true;
            }
            i += 1;
        }
        false
    }

    /// Takes in a stored record with the identity it carries: it replaces
    /// the record of that identity, if there is one, and the counter moves
    /// beyond it. The derived views are discarded.
    pub fn load(&mut self, movie: Movie)
        requires
            old(self).wf(),
        ensures
            final(self).wf(),
            final(self).model() == old(self).model().loaded(movie@),
    {
        proof {
            old(self).model().lemma_loaded_valid(movie@);
        }
        let m = movie.normalize();
        let id: u32 = m.id;
        let p = self.find(id);
        let ghost before = views(self.records@);
        proof {
            if p < self.records@.len() {
                assert(before[p as int] == self.records@[p as int]@);
            }
        }
        self.views.clear();
        if p < self.records.len() && self.records[p].id == id {
            self.records[p] = m;
            assert(views(self.records@) =~= before.update(p as int, m@));
        } else {
            self.records.insert(p, m);
            assert(views(self.records@) =~= before.insert(p as int, m@));
        }
        if self.next_id <= id as u64 {
            self.next_id = id as u64 + 1;
        }
    }
    /// Takes in stored records, one after the other.
    pub fn load_all(&mut self, movies: Vec<Movie>)
        requires
            old(self).wf(),
        ensures
            final(self).wf(),
            final(self).model() == old(self).model().loaded_all(views(movies@)),
    {
        let ghost start = self.model();
        let ghost all = views(movies@);
        assert(all.take(0) =~= Seq::<MovieView>::empty());
        for m in it: movies
            invariant
                self.wf(),
                all == views(movies@),
                self.model() == start.loaded_all(all.take(it.index() as int)),
                it.seq() == movies@,
        {
            proof {
                let i = it.index() as int;
                let t = all.take(i + 1);
                assert(t.drop_last() =~= all.take(i));
                assert(t.last() == m@);
            }
            self.load(m);
        }
        assert(all.take(all.len() as int) =~= all);
    }

    /// The catalog that the records of the line-oriented format make. Its
    /// counter is one more than the highest identity among them.
    pub fn from_legacy(movies: Vec<Movie>) -> (r: Catalog)
        ensures
            r.wf(),
            r.model() == CatalogState::legacy(views(movies@)),
            r.model().next_id == max_id(views(movies@)) + 1,
    {
        let mut r = Catalog::new();
        r.load_all(movies);
        r.unsaved = true;
        proof {
            CatalogState::lemma_legacy_counter(views(movies@));
        }
        r
    }

    /// The catalog that a stored document makes, from its records, its
    /// counter and its search cache.
    pub fn restore(movies: Vec<Movie>, next_id: u64, searches: Vec<CachedSearch>) -> (r: Catalog)
        ensures
            r.wf(),
            r.model() == CatalogState::restored(views(movies@), next_id, cache_of(searches@)),
    {
        let counter: u64 = if next_id < 1 {
            1
        } else if next_id > ID_LIMIT {
            ID_LIMIT
        } else {
            next_id
        };
        let mut r = Catalog {
            records: Vec::new(),
            next_id: counter,
            searches: SearchCache::new(),
            views: ViewCache::new(),
            unsaved: false,
        };
        assert(views(r.records@) =~= Seq::<MovieView>::empty());
        let ghost start = r.model();
        r.load_all(movies);
        proof {
            start.lemma_loaded_all_counter(views(movies@));
            start.lemma_loaded_all_valid(views(movies@));
        }
        r.searches = SearchCache::from_entries(searches);
        r
    }

    /// Moves every cached poster that lies under the directory `from` to
    /// under `to`, and says whether any record changed by that. The derived
    /// views are discarded.
    pub fn migrate_poster_paths(&mut self, from: &str, to: &str) -> (r: bool)
        requires
            old(self).wf(),
        ensures
            final(self).wf(),
            final(self).model() == old(self).model().migrated(from@, to@),
            r == (rehomed_all(old(self).model().records, from@, to@) != old(
                self,
            ).model().records),
    {
        proof {
            old(self).model().lemma_migrated_valid(from@, to@);
        }
        let prefix = chars_of(from);
        let ghost before = views(self.records@);
        let mut any: bool = false;
        let mut i: usize = 0;
        self.views.clear();
        while i < self.records.len()
            invariant
                i <= self.records@.len(),
                before.len() == self.records@.len(),
                prefix@ == from@,
                self.next_id == old(self).next_id,
                self.unsaved == old(self).unsaved,
                self.searches == old(self).searches,
                self.views@ == Map::<crate::view_cache::ViewKeyView, Seq<MovieView>>::empty(),
                self.views.wf(),
                forall|j: int|
                    0 <= j < i ==> (#[trigger] self.records@[j])@ == rehomed(
                        before[j],
                        from@,
                        to@,
                    ),
                forall|j: int|
                    i <= j < before.len() ==> (#[trigger] self.records@[j])@ == before[j],
                any == exists|j: int|
                    0 <= j < i && rehomed(#[trigger] before[j], from@, to@) != before[j],
            decreases self.records@.len() - i,
        {
            let cs = chars_of(self.records[i].poster_path.as_str());
            let ghost was = self.records@[i as int]@;
            assert(was == before[i as int]);
            if prefix.len() > 0 && starts_with_chars(&cs, &prefix) {
                let rest = string_of_range(&cs, prefix.len(), cs.len());
                let mut path = to.to_owned();
                path.append(rest.as_str());
                assert(path@ =~= moved_path(was.poster_path, from@, to@));
                if !(path == self.records[i].poster_path) {
                    any = true;
                }
                self.records[i].poster_path = path;
            }
            assert(self.records@[i as int]@ == rehomed(was, from@, to@));
            i += 1;
        }
        proof {
            let target = rehomed_all(before, from@, to@);
            assert(views(self.records@) =~= target);
            if any {
                let j = choose|j: int|
                    0 <= j < before.len() && rehomed(#[trigger] before[j], from@, to@)
                        != before[j];
                assert(target[j] != before[j]);
            } else {
                assert(target =~= before);
            }
        }
        if any {
            self.unsaved = true;
        }
        any
    }
}

} // verus!
