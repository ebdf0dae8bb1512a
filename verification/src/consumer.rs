//! The consumer's side of the pipeline: what each message does to the
//! catalog.

use vstd::prelude::*;
use crate::catalog::Catalog;
use crate::catalog_model::{holds_path, paths_of, CatalogState};
use crate::movie::{lemma_normalized, normalized, MovieView};
use crate::pipeline::{fresh_entries, Message, MessageView};
use crate::scanner::ScanEntryView;

verus! {

/// What the consumer did with a message.
#[derive(Debug)]
pub enum Handled {
    /// Text to show; the catalog is as it was.
    Shown(String),
    /// The record was added under this identity; text to show.
    Added(String, u32),
    /// The catalog already held a record for the file, so none was added;
    /// text to show.
    Known(String),
    /// The pipeline has ended: stop reading.
    Finished,
}

pub ghost enum HandledView {
    Shown(Seq<char>),
    Added(Seq<char>, u32),
    Known(Seq<char>),
    Finished,
}

impl View for Handled {
    type V = HandledView;

    open spec fn view(&self) -> HandledView {
        match self {
            Handled::Shown(t) => HandledView::Shown(t@),
            Handled::Added(t, id) => HandledView::Added(t@, *id),
            Handled::Known(t) => HandledView::Known(t@),
            Handled::Finished => HandledView::Finished,
        }
    }
}

/// The catalog after the record `m` arrived from a pipeline: it is added
/// unless some record is already associated with its file.
pub open spec fn merged(s: CatalogState, m: MovieView) -> CatalogState {
    if holds_path(s.records, m.file_path) {
        s
    } else {
        s.added(m)
    }
}

/// The catalog after the records `ms` arrived, one after the other.
pub open spec fn merged_all(s: CatalogState, ms: Seq<MovieView>) -> CatalogState
    decreases ms.len(),
{
    if ms.len() == 0 {
        s
    } else {
        merged(merged_all(s, ms.drop_last()), ms.last())
    }
}

/// What a message does to the catalog, and what the consumer answers.
pub open spec fn handled(s: CatalogState, message: MessageView) -> (CatalogState, HandledView) {
    match message {
        MessageView::Status(t) => (s, HandledView::Shown(t)),
        MessageView::Add(t, m) => if holds_path(s.records, m.file_path) {
            (s, HandledView::Known(t))
        } else {
            (s.added(m), HandledView::Added(t, s.next_id as u32))
        },
        MessageView::Complete => (s, HandledView::Finished),
    }
}

/// A message takes an identity if it carries a record for a file that the
/// catalog holds no record for.
pub open spec fn needs_room(s: CatalogState, message: MessageView) -> bool {
    message matches MessageView::Add(_, m) && !holds_path(s.records, m.file_path)
}

/// No two records are associated with one file.
pub open spec fn distinct_paths(records: Seq<MovieView>) -> bool {
    forall|i: int, j: int|
        0 <= i < j < records.len() ==> records[i].file_path != records[j].file_path
}

/// Handles one message of a pipeline. A record is checked once more
/// against the catalog as it is now, and added only if no record is
/// associated with its file.
pub fn consume(catalog: &mut Catalog, message: Message) -> (r: Handled)
    requires
        old(catalog).wf(),
        needs_room(old(catalog).model(), message@) ==> old(catalog).model().has_room(),
    ensures
        final(catalog).wf(),
        (final(catalog).model(), r@) == handled(old(catalog).model(), message@),
{
    match message {
        Message::Status(text) => Handled::Shown(text),
        Message::Add(text, movie) => {
            if catalog.has_path(movie.file_path.as_str()) {
                Handled::Known(text)
            } else {
                let id = catalog.add(movie);
                Handled::Added(text, id)
            }
        },
        Message::Complete => Handled::Finished,
    }
}

/// A path is held exactly if it is among the paths of the records.
pub proof fn lemma_paths_of(records: Seq<MovieView>, path: Seq<char>)
    ensures
        paths_of(records).contains(path) <==> holds_path(records, path),
{
    let ps = paths_of(records);
    if ps.contains(path) {
        let i = choose|i: int| 0 <= i < ps.len() && ps[i] == path;
        assert(records[i].file_path == path);
    }
    if holds_path(records, path) {
        let i = choose|i: int| 0 <= i < records.len() && (#[trigger] records[i]).file_path == path;
        assert(ps[i] == path);
    }
}

/// After a record arrived, the catalog holds its file, and every file it
/// held before.
pub proof fn lemma_merged_holds(s: CatalogState, m: MovieView, path: Seq<char>)
    ensures
        holds_path(merged(s, m).records, m.file_path),
        holds_path(s.records, path) ==> holds_path(merged(s, m).records, path),
{
    let r = merged(s, m).records;
    if !holds_path(s.records, m.file_path) {
        assert(r[s.records.len() as int].file_path == m.file_path);
        if holds_path(s.records, path) {
            let i = choose|i: int|
                0 <= i < s.records.len() && (#[trigger] s.records[i]).file_path == path;
            assert(r[i].file_path == path);
        }
    }
}

/// Idempotent storage: records that arrive from pipelines never give one
/// file a second record, however many scans found the file.
pub proof fn lemma_merged_keeps_paths_distinct(s: CatalogState, ms: Seq<MovieView>)
    requires
        distinct_paths(s.records),
    ensures
        distinct_paths(merged_all(s, ms).records),
    decreases ms.len(),
{
    if ms.len() > 0 {
        let mid = merged_all(s, ms.drop_last());
        let m = ms.last();
        lemma_merged_keeps_paths_distinct(s, ms.drop_last());
        let r = merged(mid, m).records;
        if !holds_path(mid.records, m.file_path) {
            assert forall|i: int, j: int| 0 <= i < j < r.len() implies r[i].file_path
                != r[j].file_path by {
                assert(r[i] == mid.records[i]);
                if j < mid.records.len() {
                    assert(r[j] == mid.records[j]);
                }
            }
        }
    }
}

/// After records arrived, the catalog holds the file of each, and every
/// file it held before.
pub proof fn lemma_merged_all_holds(s: CatalogState, ms: Seq<MovieView>, path: Seq<char>)
    ensures
        holds_path(s.records, path) ==> holds_path(merged_all(s, ms).records, path),
        forall|i: int|
            0 <= i < ms.len() ==> holds_path(merged_all(s, ms).records, (#[trigger] ms[i]).file_path),
    decreases ms.len(),
{
    if ms.len() > 0 {
        let t = ms.drop_last();
        let mid = merged_all(s, t);
        lemma_merged_all_holds(s, t, path);
        lemma_merged_holds(mid, ms.last(), path);
        assert forall|i: int| 0 <= i < ms.len() implies holds_path(
            merged_all(s, ms).records,
            (#[trigger] ms[i]).file_path,
        ) by {
            if i < t.len() {
                assert(t[i] == ms[i]);
                lemma_merged_holds(mid, ms.last(), ms[i].file_path);
            } else {
                lemma_merged_holds(mid, ms.last(), ms[i].file_path);
            }
        }
    }
}

/// Every entry of a scan is dropped by deduplication or is among the
/// fresh entries.
pub proof fn lemma_fresh_or_known(found: Seq<ScanEntryView>, existing: Seq<Seq<char>>, i: int)
    requires
        0 <= i < found.len(),
    ensures
        existing.contains(found[i].path) || fresh_entries(found, existing).contains(found[i]),
    decreases found.len(),
{
    let t = found.drop_last();
    let f = fresh_entries(found, existing);
    if i < found.len() - 1 {
        lemma_fresh_or_known(t, existing, i);
        assert(t[i] == found[i]);
        if fresh_entries(t, existing).contains(found[i]) {
            let j = choose|j: int|
                0 <= j < fresh_entries(t, existing).len() && fresh_entries(t, existing)[j]
                    == found[i];
            assert(f[j] == found[i]);
        }
    } else if !existing.contains(found[i].path) {
        assert(f[f.len() - 1] == found[i]);
    }
}

/// Deduplication against paths that cover the whole scan leaves nothing.
pub proof fn lemma_all_known(found: Seq<ScanEntryView>, existing: Seq<Seq<char>>)
    requires
        forall|i: int| 0 <= i < found.len() ==> existing.contains((#[trigger] found[i]).path),
    ensures
        fresh_entries(found, existing) == Seq::<ScanEntryView>::empty(),
    decreases found.len(),
{
    if found.len() > 0 {
        let t = found.drop_last();
        assert forall|i: int| 0 <= i < t.len() implies existing.contains((#[trigger] t[i]).path) by {
            assert(t[i] == found[i]);
        }
        lemma_all_known(t, existing);
        assert(existing.contains(found[found.len() - 1].path));
    }
}

/// Idempotent deduplication: when the records fetched for the new entries
/// of a scan, each carrying its entry's path, have arrived at the catalog,
/// a second scan that finds the same files has nothing new.
pub proof fn lemma_rescan_finds_nothing(
    s: CatalogState,
    found: Seq<ScanEntryView>,
    movies: Seq<MovieView>,
)
    requires
        movies.len() == fresh_entries(found, paths_of(s.records)).len(),
        forall|i: int|
            0 <= i < movies.len() ==> (#[trigger] movies[i]).file_path == fresh_entries(
                found,
                paths_of(s.records),
            )[i].path,
    ensures
        fresh_entries(found, paths_of(merged_all(s, movies).records)) == Seq::<
            ScanEntryView,
        >::empty(),
{
    let first = paths_of(s.records);
    let fresh = fresh_entries(found, first);
    let after = merged_all(s, movies).records;
    let second = paths_of(after);
    assert forall|i: int| 0 <= i < found.len() implies second.contains(
        (#[trigger] found[i]).path,
    ) by {
        let path = found[i].path;
        lemma_fresh_or_known(found, first, i);
        lemma_merged_all_holds(s, movies, path);
        lemma_paths_of(s.records, path);
        lemma_paths_of(after, path);
        if !first.contains(path) {
            let j = choose|j: int| 0 <= j < fresh.len() && fresh[j] == found[i];
            assert(movies[j].file_path == path);
        }
    }
    lemma_all_known(found, second);
}

} // verus!
