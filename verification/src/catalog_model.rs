//! The catalog as a mathematical state: its records in the order of their
//! identities, the identity counter, both caches, and what each operation
//! makes of them.

use vstd::prelude::*;
use crate::movie::{
    lemma_normalized, normalized, well_formed, MovieView, WatchEntryView,
};
use crate::search_cache::CachedSearchView;
use crate::sorting::{sorted_by, SortKey};
use crate::text::contains_ignoring_case;
use crate::view_cache::ViewKeyView;

verus! {

/// One more than the highest identity that can be assigned.
pub const ID_LIMIT: u64 = 0x1_0000_0000;

/// The category that stands for "no filter".
pub open spec fn all_category() -> Seq<char> {
    seq!['A', 'l', 'l']
}

/// A category that filters nothing out: the empty one and `All`.
pub open spec fn is_no_filter(category: Seq<char>) -> bool {
    category.len() == 0 || category == all_category()
}

/// A condition by which records are selected.
pub ghost enum Selector {
    /// The title contains the text, letter case ignored.
    TitleHas(Seq<char>),
    /// Some genre contains the text, letter case ignored.
    GenreHas(Seq<char>),
}

/// Some genre of `m` contains `category`, letter case ignored.
pub open spec fn genre_matches(m: MovieView, category: Seq<char>) -> bool {
    exists|i: int| 0 <= i < m.genre.len() && contains_ignoring_case(#[trigger] m.genre[i], category)
}

/// `m` meets the condition `sel`.
pub open spec fn selects(sel: Selector, m: MovieView) -> bool {
    match sel {
        Selector::TitleHas(text) => contains_ignoring_case(m.title, text),
        Selector::GenreHas(category) => genre_matches(m, category),
    }
}

/// The records of `records` that meet `sel`, in their order.
pub open spec fn keep(records: Seq<MovieView>, sel: Selector) -> Seq<MovieView>
    decreases records.len(),
{
    if records.len() == 0 {
        Seq::empty()
    } else if selects(sel, records.last()) {
        keep(records.drop_last(), sel).push(records.last())
    } else {
        keep(records.drop_last(), sel)
    }
}

/// Every record of `keep(records, sel)` is one of `records` and meets `sel`.
pub proof fn lemma_keep_selects(records: Seq<MovieView>, sel: Selector)
    ensures
        keep(records, sel).len() <= records.len(),
        forall|i: int|
            0 <= i < keep(records, sel).len() ==> selects(sel, #[trigger] keep(records, sel)[i])
                && records.contains(keep(records, sel)[i]),
    decreases records.len(),
{
    if records.len() > 0 {
        let t = records.drop_last();
        lemma_keep_selects(t, sel);
        let k = keep(records, sel);
        assert forall|i: int| 0 <= i < k.len() implies selects(sel, #[trigger] k[i])
            && records.contains(k[i]) by {
            if i < keep(t, sel).len() {
                let x = keep(t, sel)[i];
                assert(t.contains(x));
                let j = choose|j: int| 0 <= j < t.len() && t[j] == x;
                assert(records[j] == x);
            } else {
                assert(k[i] == records[records.len() - 1]);
            }
        }
    }
}

/// Every record of `records` that meets `sel` is in `keep(records, sel)`.
pub proof fn lemma_keep_complete(records: Seq<MovieView>, sel: Selector, i: int)
    requires
        0 <= i < records.len(),
        selects(sel, records[i]),
    ensures
        keep(records, sel).contains(records[i]),
    decreases records.len(),
{
    let t = records.drop_last();
    let k = keep(records, sel);
    if i < records.len() - 1 {
        lemma_keep_complete(t, sel, i);
        assert(t[i] == records[i]);
        let j = choose|j: int| 0 <= j < keep(t, sel).len() && keep(t, sel)[j] == records[i];
        assert(k[j] == records[i]);
    } else {
        assert(k[k.len() - 1] == records[i]);
    }
}

/// The records whose title contains `text`.
pub open spec fn search_of(records: Seq<MovieView>, text: Seq<char>) -> Seq<MovieView> {
    keep(records, Selector::TitleHas(text))
}

/// All records, sorted by title.
pub open spec fn list_of(records: Seq<MovieView>) -> Seq<MovieView> {
    sorted_by(SortKey::Title, records)
}

/// The records of which some genre contains `category`; all records, sorted
/// by title, where the category filters nothing out.
pub open spec fn filter_of(records: Seq<MovieView>, category: Seq<char>) -> Seq<MovieView> {
    if is_no_filter(category) {
        list_of(records)
    } else {
        keep(records, Selector::GenreHas(category))
    }
}

/// The list that a view key asks for: with a text filter, the records whose
/// title contains it; without one, the records of the category; either way
/// sorted in the key's order.
pub open spec fn derived_view(records: Seq<MovieView>, key: ViewKeyView) -> Seq<MovieView> {
    let base = if key.text.len() == 0 {
        filter_of(records, key.category)
    } else {
        search_of(records, key.text)
    };
    sorted_by(key.sort, base)
}

/// A change to one record.
pub ghost enum MovieChangeView {
    /// Associates another file.
    SetFilePath(Seq<char>),
    /// Appends a line to the watch history.
    LogWatch(WatchEntryView),
    /// Replaces the metadata; identity and watch history stay.
    Replace(MovieView),
}

/// The record `m` after the change `c`.
pub open spec fn changed(m: MovieView, c: MovieChangeView) -> MovieView {
    match c {
        MovieChangeView::SetFilePath(p) => MovieView { file_path: p, ..m },
        MovieChangeView::LogWatch(e) => MovieView { watch_log: m.watch_log.push(e), ..m },
        MovieChangeView::Replace(n) => MovieView {
            id: m.id,
            watch_log: m.watch_log,
            ..normalized(n)
        },
    }
}

/// The identities of `records` rise strictly.
pub open spec fn ascending(records: Seq<MovieView>) -> bool {
    forall|i: int, j: int| 0 <= i < j < records.len() ==> records[i].id < records[j].id
}

/// The index of the first record whose identity is at least `id`; the
/// length where there is none.
pub open spec fn slot(records: Seq<MovieView>, id: u32) -> int
    decreases records.len(),
{
    if records.len() == 0 || records[0].id >= id {
        0
    } else {
        1 + slot(records.drop_first(), id)
    }
}

/// `records`, in ascending order, hold a record of identity `id`.
pub open spec fn holds_id(records: Seq<MovieView>, id: u32) -> bool {
    slot(records, id) < records.len() && records[slot(records, id)].id == id
}

/// Some record of `records` is associated with the file `path`.
pub open spec fn holds_path(records: Seq<MovieView>, path: Seq<char>) -> bool {
    exists|i: int| 0 <= i < records.len() && (#[trigger] records[i]).file_path == path
}

/// The file paths of `records`, in their order.
pub open spec fn paths_of(records: Seq<MovieView>) -> Seq<Seq<char>> {
    records.map_values(|m: MovieView| m.file_path)
}

/// The highest identity among `records`, 0 where there is none.
pub open spec fn max_id(records: Seq<MovieView>) -> nat
    decreases records.len(),
{
    if records.len() == 0 {
        0
    } else if records.last().id >= max_id(records.drop_last()) {
        records.last().id as nat
    } else {
        max_id(records.drop_last())
    }
}

/// Where the slot lies.
pub proof fn lemma_slot(records: Seq<MovieView>, id: u32)
    ensures
        0 <= slot(records, id) <= records.len(),
        forall|k: int| 0 <= k < slot(records, id) ==> (#[trigger] records[k]).id < id,
        slot(records, id) < records.len() ==> records[slot(records, id)].id >= id,
    decreases records.len(),
{
    if records.len() > 0 && records[0].id < id {
        let t = records.drop_first();
        lemma_slot(t, id);
        assert forall|k: int| 0 <= k < slot(records, id) implies (#[trigger] records[k]).id
            < id by {
            if k > 0 {
                assert(t[k - 1] == records[k]);
            }
        }
        if slot(records, id) < records.len() {
            assert(t[slot(t, id)] == records[slot(records, id)]);
        }
    }
}

/// The slot is the index behind the records of lower identity.
pub proof fn lemma_slot_is(records: Seq<MovieView>, id: u32, i: int)
    requires
        0 <= i <= records.len(),
        forall|k: int| 0 <= k < i ==> (#[trigger] records[k]).id < id,
        i == records.len() || records[i].id >= id,
    ensures
        slot(records, id) == i,
    decreases i,
{
    if i > 0 {
        let t = records.drop_first();
        assert(records[0].id < id);
        assert forall|k: int| 0 <= k < i - 1 implies (#[trigger] t[k]).id < id by {
            assert(t[k] == records[k + 1]);
        }
        lemma_slot_is(t, id, i - 1);
    }
}

/// In ascending records, an identity is held exactly if some record has it.
pub proof fn lemma_holds_id(records: Seq<MovieView>, id: u32)
    requires
        ascending(records),
    ensures
        holds_id(records, id) <==> exists|i: int|
            0 <= i < records.len() && (#[trigger] records[i]).id == id,
{
    lemma_slot(records, id);
    let p = slot(records, id);
    if exists|i: int| 0 <= i < records.len() && (#[trigger] records[i]).id == id {
        let i = choose|i: int| 0 <= i < records.len() && (#[trigger] records[i]).id == id;
        if i < p {
            assert(records[i].id < id);
        }
        if i > p {
            assert(records[p].id < records[i].id);
        }
    }
}

/// `path` with the leading directory `from` replaced by `to`; `path` itself
/// where it does not lie under `from`.
pub open spec fn moved_path(path: Seq<char>, from: Seq<char>, to: Seq<char>) -> Seq<char> {
    if from.len() > 0 && from.is_prefix_of(path) {
        to + path.skip(from.len() as int)
    } else {
        path
    }
}

/// `m` with its cached poster moved from under `from` to under `to`.
pub open spec fn rehomed(m: MovieView, from: Seq<char>, to: Seq<char>) -> MovieView {
    MovieView { poster_path: moved_path(m.poster_path, from, to), ..m }
}

/// `records` with every cached poster moved from under `from` to under `to`.
pub open spec fn rehomed_all(records: Seq<MovieView>, from: Seq<char>, to: Seq<char>) -> Seq<
    MovieView,
> {
    Seq::new(records.len(), |i: int| rehomed(records[i], from, to))
}

/// The counter that a stored counter `n` stands for: at least 1, at most
/// [`ID_LIMIT`].
pub open spec fn clamped_counter(n: u64) -> nat {
    if n < 1 {
        1
    } else if n > ID_LIMIT {
        ID_LIMIT as nat
    } else {
        n as nat
    }
}

/// An operation that changes the records of a catalog.
pub ghost enum CatalogOp {
    Add(MovieView),
    Delete(u32),
    Update(u32, MovieChangeView),
}

/// The state of a catalog.
pub ghost struct CatalogState {
    /// The records, in the order of their identities.
    pub records: Seq<MovieView>,
    /// The identity that the next added record gets.
    pub next_id: nat,
    /// The search cache, by normalized query.
    pub searches: Map<Seq<char>, CachedSearchView>,
    /// The derived-view cache.
    pub views: Map<ViewKeyView, Seq<MovieView>>,
    /// Whether the state has changed since it was last written out.
    pub unsaved: bool,
}

impl CatalogState {
    /// What holds of every catalog: identities rise strictly and lie below
    /// the counter, which is positive and within the identity space; every
    /// record is well formed; every cached view is the view that its key
    /// asks for of the present records.
    pub open spec fn valid(self) -> bool {
        &&& ascending(self.records)
        &&& forall|i: int|
            0 <= i < self.records.len() ==> (#[trigger] self.records[i]).id < self.next_id
                && well_formed(self.records[i])
        &&& 1 <= self.next_id <= ID_LIMIT
        &&& forall|k: ViewKeyView| #[trigger]
            self.views.contains_key(k) ==> self.views[k] == derived_view(self.records, k)
    }

    /// The catalog without records.
    pub open spec fn empty() -> CatalogState {
        CatalogState {
            records: Seq::empty(),
            next_id: 1,
            searches: Map::empty(),
            views: Map::empty(),
            unsaved: false,
        }
    }

    /// Whether an identity is left to assign.
    pub open spec fn has_room(self) -> bool {
        self.next_id < ID_LIMIT
    }

    /// After adding `m`: it is stored, normalized, under the next identity.
    pub open spec fn added(self, m: MovieView) -> CatalogState {
        CatalogState {
            records: self.records.push(MovieView { id: self.next_id as u32, ..normalized(m) }),
            next_id: self.next_id + 1,
            views: Map::empty(),
            unsaved: true,
            ..self
        }
    }

    /// After deleting `id`.
    pub open spec fn deleted(self, id: u32) -> CatalogState {
        if holds_id(self.records, id) {
            CatalogState {
                records: self.records.remove(slot(self.records, id)),
                views: Map::empty(),
                unsaved: true,
                ..self
            }
        } else {
            CatalogState { views: Map::empty(), ..self }
        }
    }

    /// After applying `c` to the record `id`.
    pub open spec fn updated(self, id: u32, c: MovieChangeView) -> CatalogState {
        if holds_id(self.records, id) {
            let p = slot(self.records, id);
            CatalogState {
                records: self.records.update(p, changed(self.records[p], c)),
                views: Map::empty(),
                unsaved: true,
                ..self
            }
        } else {
            CatalogState { views: Map::empty(), ..self }
        }
    }

    /// After taking in a stored record `m` with the identity it carries: it
    /// replaces the record of that identity, if there is one, and the
    /// counter moves beyond it.
    pub open spec fn loaded(self, m: MovieView) -> CatalogState {
        let p = slot(self.records, m.id);
        CatalogState {
            records: if holds_id(self.records, m.id) {
                self.records.update(p, normalized(m))
            } else {
                self.records.insert(p, normalized(m))
            },
            next_id: if self.next_id > m.id {
                self.next_id
            } else {
                (m.id + 1) as nat
            },
            views: Map::empty(),
            ..self
        }
    }

    /// After taking in the stored records `ms`, one after the other.
    pub open spec fn loaded_all(self, ms: Seq<MovieView>) -> CatalogState
        decreases ms.len(),
    {
        if ms.len() == 0 {
            self
        } else {
            self.loaded_all(ms.drop_last()).loaded(ms.last())
        }
    }

    /// After the view for `key` was derived and cached.
    pub open spec fn viewed(self, key: ViewKeyView) -> CatalogState {
        CatalogState { views: self.views.insert(key, derived_view(self.records, key)), ..self }
    }

    /// After an answer was cached under the normalized query `key`.
    pub open spec fn search_stored(self, key: Seq<char>, answer: CachedSearchView) -> CatalogState {
        CatalogState { searches: self.searches.insert(key, answer), unsaved: true, ..self }
    }

    /// After the state was written out.
    pub open spec fn saved(self) -> CatalogState {
        CatalogState { unsaved: false, ..self }
    }

    /// Adding keeps a catalog valid.
    pub proof fn lemma_added_valid(self, m: MovieView)
        requires
            self.valid(),
            self.has_room(),
        ensures
            self.added(m).valid(),
    {
        lemma_normalized(m);
        let r = self.added(m);
        assert forall|i: int| 0 <= i < r.records.len() implies (#[trigger] r.records[i]).id
            < r.next_id && well_formed(r.records[i]) by {
            if i < self.records.len() {
                assert(r.records[i] == self.records[i]);
            }
        }
        assert forall|i: int, j: int| 0 <= i < j < r.records.len() implies r.records[i].id
            < r.records[j].id by {
            assert(r.records[i] == self.records[i]);
            if j < self.records.len() {
                assert(r.records[j] == self.records[j]);
            }
        }
    }

    /// Deleting keeps a catalog valid.
    pub proof fn lemma_deleted_valid(self, id: u32)
        requires
            self.valid(),
        ensures
            self.deleted(id).valid(),
    {
        lemma_slot(self.records, id);
    }

    /// Updating keeps a catalog valid.
    pub proof fn lemma_updated_valid(self, id: u32, c: MovieChangeView)
        requires
            self.valid(),
        ensures
            self.updated(id, c).valid(),
    {
        lemma_slot(self.records, id);
        if holds_id(self.records, id) {
            let p = slot(self.records, id);
            match c {
                MovieChangeView::Replace(n) => {
                    lemma_normalized(n);
                },
                _ => {},
            }
            assert(well_formed(changed(self.records[p], c)));
        }
    }

    /// Taking in a stored record keeps a catalog valid.
    pub proof fn lemma_loaded_valid(self, m: MovieView)
        requires
            self.valid(),
        ensures
            self.loaded(m).valid(),
    {
        lemma_slot(self.records, m.id);
        lemma_normalized(m);
        let p = slot(self.records, m.id);
        let r = self.loaded(m);
        if !holds_id(self.records, m.id) {
            assert forall|i: int, j: int| 0 <= i < j < r.records.len() implies r.records[i].id
                < r.records[j].id by {
                if j < p {
                    assert(r.records[i] == self.records[i] && r.records[j] == self.records[j]);
                } else if j == p {
                    assert(r.records[i] == self.records[i]);
                } else if i < p {
                    assert(r.records[i] == self.records[i] && r.records[j] == self.records[j
                        - 1]);
                    assert(self.records[i].id < m.id);
                    assert(self.records[p].id <= self.records[j - 1].id);
                } else if i == p {
                    assert(r.records[j] == self.records[j - 1]);
                    assert(self.records[p].id <= self.records[j - 1].id);
                } else {
                    assert(r.records[i] == self.records[i - 1] && r.records[j] == self.records[j
                        - 1]);
                }
            }
            assert forall|i: int| 0 <= i < r.records.len() implies (#[trigger] r.records[i]).id
                < r.next_id && well_formed(r.records[i]) by {
                if i < p {
                    assert(r.records[i] == self.records[i]);
                } else if i > p {
                    assert(r.records[i] == self.records[i - 1]);
                }
            }
        }
    }

    /// Taking in stored records keeps a catalog valid.
    pub proof fn lemma_loaded_all_valid(self, ms: Seq<MovieView>)
        requires
            self.valid(),
        ensures
            self.loaded_all(ms).valid(),
        decreases ms.len(),
    {
        if ms.len() > 0 {
            self.lemma_loaded_all_valid(ms.drop_last());
            self.loaded_all(ms.drop_last()).lemma_loaded_valid(ms.last());
        }
    }

    /// The catalog that the stored records `ms` of the line-oriented format
    /// make: the counter is one more than their highest identity.
    pub open spec fn legacy(ms: Seq<MovieView>) -> CatalogState {
        CatalogState { unsaved: true, ..CatalogState::empty().loaded_all(ms) }
    }

    /// The catalog that a stored document makes: its records, its counter
    /// (moved beyond every identity that occurs) and its search cache.
    pub open spec fn restored(
        ms: Seq<MovieView>,
        next_id: u64,
        searches: Map<Seq<char>, CachedSearchView>,
    ) -> CatalogState {
        let start = CatalogState { next_id: clamped_counter(next_id), ..CatalogState::empty() };
        CatalogState { searches, ..start.loaded_all(ms) }
    }

    /// After the cached posters were moved from under `from` to under `to`.
    pub open spec fn migrated(self, from: Seq<char>, to: Seq<char>) -> CatalogState {
        CatalogState {
            records: rehomed_all(self.records, from, to),
            views: Map::empty(),
            unsaved: self.unsaved || rehomed_all(self.records, from, to) != self.records,
            ..self
        }
    }

    /// After the operation `op`.
    pub open spec fn applied(self, op: CatalogOp) -> CatalogState {
        match op {
            CatalogOp::Add(m) => self.added(m),
            CatalogOp::Delete(id) => self.deleted(id),
            CatalogOp::Update(id, c) => self.updated(id, c),
        }
    }

    /// After the operations `ops`, one after the other.
    pub open spec fn run(self, ops: Seq<CatalogOp>) -> CatalogState
        decreases ops.len(),
    {
        if ops.len() == 0 {
            self
        } else {
            self.run(ops.drop_last()).applied(ops.last())
        }
    }

    /// The identities that the additions among `ops` are given, in order.
    pub open spec fn assigned(self, ops: Seq<CatalogOp>) -> Seq<nat>
        decreases ops.len(),
    {
        if ops.len() == 0 {
            Seq::empty()
        } else {
            let before = self.assigned(ops.drop_last());
            match ops.last() {
                CatalogOp::Add(_) => before.push(self.run(ops.drop_last()).next_id),
                _ => before,
            }
        }
    }

    /// Moving the cached posters keeps a catalog valid.
    pub proof fn lemma_migrated_valid(self, from: Seq<char>, to: Seq<char>)
        requires
            self.valid(),
        ensures
            self.migrated(from, to).valid(),
    {
    }

    /// Taking in stored records leaves the counter at the larger of what it
    /// was and one more than their highest identity, and leaves the search
    /// cache and the unsaved mark alone.
    pub proof fn lemma_loaded_all_counter(self, ms: Seq<MovieView>)
        requires
            self.next_id >= 1,
        ensures
            self.loaded_all(ms).next_id == if self.next_id > max_id(ms) {
                self.next_id
            } else {
                max_id(ms) + 1
            },
            self.loaded_all(ms).searches == self.searches,
            self.loaded_all(ms).unsaved == self.unsaved,
        decreases ms.len(),
    {
        if ms.len() > 0 {
            self.lemma_loaded_all_counter(ms.drop_last());
        }
    }

    /// The counter of a catalog made from line-oriented records is one more
    /// than their highest identity.
    pub proof fn lemma_legacy_counter(ms: Seq<MovieView>)
        ensures
            CatalogState::legacy(ms).next_id == max_id(ms) + 1,
            CatalogState::legacy(ms).valid(),
    {
        CatalogState::empty().lemma_loaded_all_counter(ms);
        CatalogState::empty().lemma_loaded_all_valid(ms);
    }

    /// Every operation keeps a catalog valid, as long as an identity is left
    /// for each addition.
    pub proof fn lemma_applied_valid(self, op: CatalogOp)
        requires
            self.valid(),
            op is Add ==> self.has_room(),
        ensures
            self.applied(op).valid(),
            self.applied(op).next_id == self.next_id + if op is Add {
                1nat
            } else {
                0nat
            },
    {
        match op {
            CatalogOp::Add(m) => self.lemma_added_valid(m),
            CatalogOp::Delete(id) => self.lemma_deleted_valid(id),
            CatalogOp::Update(id, c) => self.lemma_updated_valid(id, c),
        }
    }

    /// Identities are unique for good: over any sequence of additions,
    /// deletions and updates, the identities assigned rise strictly, none
    /// is below the counter at the start, and so none is an identity that
    /// the catalog has held before, whether its record was deleted or not.
    pub proof fn lemma_identities_never_reused(self, ops: Seq<CatalogOp>)
        requires
            self.valid(),
            self.next_id + ops.len() <= ID_LIMIT,
        ensures
            self.run(ops).valid(),
            self.run(ops).next_id == self.next_id + self.assigned(ops).len(),
            self.assigned(ops).len() <= ops.len(),
            forall|i: int|
                0 <= i < self.assigned(ops).len() ==> self.next_id <= #[trigger] self.assigned(
                    ops,
                )[i] < self.run(ops).next_id,
            forall|i: int, j: int|
                0 <= i < j < self.assigned(ops).len() ==> self.assigned(ops)[i] < self.assigned(
                    ops,
                )[j],
            forall|i: int, k: int|
                0 <= i < self.records.len() && 0 <= k < self.assigned(ops).len()
                    ==> (#[trigger] self.records[i]).id < #[trigger] self.assigned(ops)[k],
        decreases ops.len(),
    {
        if ops.len() > 0 {
            let t = ops.drop_last();
            self.lemma_identities_never_reused(t);
            let mid = self.run(t);
            mid.lemma_applied_valid(ops.last());
            let a = self.assigned(ops);
            let b = self.assigned(t);
            assert forall|i: int, j: int| 0 <= i < j < a.len() implies a[i] < a[j] by {
                if j < b.len() {
                    assert(a[i] == b[i] && a[j] == b[j]);
                } else {
                    assert(a[i] == b[i]);
                }
            }
            assert forall|i: int| 0 <= i < a.len() implies self.next_id <= #[trigger] a[i]
                < self.run(ops).next_id by {
                if i < b.len() {
                    assert(a[i] == b[i]);
                }
            }
            assert forall|i: int, k: int|
                0 <= i < self.records.len() && 0 <= k < a.len() implies (
            #[trigger] self.records[i]).id < #[trigger] a[k] by {
                assert(self.next_id <= a[k]);
            }
        }
    }

    /// Wholesale invalidation: after any addition, deletion or update the
    /// derived-view cache holds nothing, whatever it held before.
    pub proof fn lemma_mutation_discards_views(self, op: CatalogOp, key: ViewKeyView)
        ensures
            !self.applied(op).views.contains_key(key),
            self.applied(op).views == Map::<ViewKeyView, Seq<MovieView>>::empty(),
    {
    }

    /// Deriving a view keeps a catalog valid.
    pub proof fn lemma_viewed_valid(self, key: ViewKeyView)
        requires
            self.valid(),
        ensures
            self.viewed(key).valid(),
    {
    }
}

} // verus!
