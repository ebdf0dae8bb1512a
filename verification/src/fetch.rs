//! The metadata fetcher as a state machine: it says which remote call to
//! make next, takes the answer, and ends with a record - a full one, or a
//! stand-in where the provider knows nothing or cannot be reached.

use vstd::prelude::*;
use crate::movie::{placeholder_of, views, well_formed, Movie, MovieView};
use crate::remote::{
    choose_candidate, chosen_index, describe, described, details_url, details_url_of,
    external_ids_url, external_ids_url_of, poster_cache_path, poster_cache_path_of, search_url,
    search_url_of, RemoteDetails, RemoteDetailsView,
};
use crate::search_cache::{SearchResult, SearchResultView};

verus! {

/// What a fetch is asked for.
#[derive(Debug)]
pub struct FetchRequest {
    pub api_key: String,
    /// The title to look for.
    pub title: String,
    /// The file that the record will be associated with; may be empty.
    pub file_path: String,
    /// Candidates released in or before this year are preferred.
    pub year_cutoff: u16,
}

pub ghost struct FetchRequestView {
    pub api_key: Seq<char>,
    pub title: Seq<char>,
    pub file_path: Seq<char>,
    pub year_cutoff: u16,
}

impl View for FetchRequest {
    type V = FetchRequestView;

    open spec fn view(&self) -> FetchRequestView {
        FetchRequestView {
            api_key: self.api_key@,
            title: self.title@,
            file_path: self.file_path@,
            year_cutoff: self.year_cutoff,
        }
    }
}

/// Where a fetch stands: which answer it waits for.
#[derive(Debug)]
pub enum FetchStage {
    /// Waiting for the candidates of the search.
    Searching,
    /// Waiting for the details of the chosen candidate.
    Detailing { tmdb_id: u32 },
    /// Waiting for the poster to be saved.
    Postering { movie: Movie },
    /// Waiting for the external identifier.
    Identifying { movie: Movie },
}

pub ghost enum FetchStageView {
    Searching,
    Detailing { tmdb_id: u32 },
    Postering { movie: MovieView },
    Identifying { movie: MovieView },
}

impl View for FetchStage {
    type V = FetchStageView;

    open spec fn view(&self) -> FetchStageView {
        match self {
            FetchStage::Searching => FetchStageView::Searching,
            FetchStage::Detailing { tmdb_id } => FetchStageView::Detailing { tmdb_id: *tmdb_id },
            FetchStage::Postering { movie } => FetchStageView::Postering { movie: movie@ },
            FetchStage::Identifying { movie } => FetchStageView::Identifying { movie: movie@ },
        }
    }
}

/// A fetch under way.
#[derive(Debug)]
pub struct Fetch {
    request: FetchRequest,
    stage: FetchStage,
}

pub ghost struct FetchView {
    pub request: FetchRequestView,
    pub stage: FetchStageView,
}

impl View for Fetch {
    type V = FetchView;

    closed spec fn view(&self) -> FetchView {
        FetchView { request: self.request@, stage: self.stage@ }
    }
}

/// A call to the remote provider, or to where posters are kept.
#[derive(Debug)]
pub enum RemoteCall {
    /// Search by free text; answered by the candidates.
    Search { url: String },
    /// Get a movie's details with its credits.
    Details { url: String },
    /// Download a poster into the file at `path`; answered by the path of
    /// the saved file.
    Poster { url: String, path: String },
    /// Get a movie's external identifier.
    ExternalId { url: String },
}

pub ghost enum RemoteCallView {
    Search { url: Seq<char> },
    Details { url: Seq<char> },
    Poster { url: Seq<char>, path: Seq<char> },
    ExternalId { url: Seq<char> },
}

impl View for RemoteCall {
    type V = RemoteCallView;

    open spec fn view(&self) -> RemoteCallView {
        match self {
            RemoteCall::Search { url } => RemoteCallView::Search { url: url@ },
            RemoteCall::Details { url } => RemoteCallView::Details { url: url@ },
            RemoteCall::Poster { url, path } => RemoteCallView::Poster { url: url@, path: path@ },
            RemoteCall::ExternalId { url } => RemoteCallView::ExternalId { url: url@ },
        }
    }
}

/// The answer to a remote call.
#[derive(Debug)]
pub enum Reply {
    /// The candidates of a search, most relevant first.
    Candidates(Vec<SearchResult>),
    /// A movie's details.
    Details(RemoteDetails),
    /// The path of the saved poster.
    PosterSaved(String),
    /// A movie's external identifier.
    ExternalId(String),
    /// The call failed, or its answer could not be read.
    Failed,
}

pub ghost enum ReplyView {
    Candidates(Seq<SearchResultView>),
    Details(RemoteDetailsView),
    PosterSaved(Seq<char>),
    ExternalId(Seq<char>),
    Failed,
}

impl View for Reply {
    type V = ReplyView;

    open spec fn view(&self) -> ReplyView {
        match self {
            Reply::Candidates(c) => ReplyView::Candidates(views(c@)),
            Reply::Details(d) => ReplyView::Details(d@),
            Reply::PosterSaved(p) => ReplyView::PosterSaved(p@),
            Reply::ExternalId(x) => ReplyView::ExternalId(x@),
            Reply::Failed => ReplyView::Failed,
        }
    }
}

/// What a fetch ends with.
#[derive(Debug)]
pub struct Fetched {
    pub movie: Movie,
    /// Whether the provider's metadata was found; where not, `movie` is a
    /// stand-in.
    pub found: bool,
}

pub ghost struct FetchedView {
    pub movie: MovieView,
    pub found: bool,
}

impl View for Fetched {
    type V = FetchedView;

    open spec fn view(&self) -> FetchedView {
        FetchedView { movie: self.movie@, found: self.found }
    }
}

/// What a fetch does next.
#[derive(Debug)]
pub enum Progress {
    /// Make this call, and hand its answer to the fetch.
    Call(Fetch, RemoteCall),
    /// The fetch has ended.
    Done(Fetched),
}

pub ghost enum ProgressView {
    Call(FetchView, RemoteCallView),
    Done(FetchedView),
}

impl View for Progress {
    type V = ProgressView;

    open spec fn view(&self) -> ProgressView {
        match self {
            Progress::Call(f, c) => ProgressView::Call(f@, c@),
            Progress::Done(d) => ProgressView::Done(d@),
        }
    }
}

/// The end of a fetch that found nothing: the stand-in record.
pub open spec fn given_up(request: FetchRequestView) -> ProgressView {
    ProgressView::Done(
        FetchedView { movie: placeholder_of(request.title, request.file_path), found: false },
    )
}

/// The step to the external identifier, with the record as far as it is.
pub open spec fn identifying(request: FetchRequestView, movie: MovieView) -> ProgressView {
    ProgressView::Call(
        FetchView { request, stage: FetchStageView::Identifying { movie } },
        RemoteCallView::ExternalId { url: external_ids_url_of(movie.tmdb_id, request.api_key) },
    )
}

/// What a fetch does next on an answer. An answer of another kind than the
/// one waited for counts as a failure of the call.
///
/// - Searching: of candidates, the one chosen under the cutoff year is
///   detailed next; with none, or on failure, the fetch ends with the
///   stand-in record.
/// - Detailing: the record is made of the details; its poster is downloaded
///   next where it has one, else its external identifier is asked for. On
///   failure the fetch ends with the stand-in record.
/// - Postering: the saved poster's path is recorded, or none on failure;
///   the external identifier is asked for next.
/// - Identifying: the identifier is recorded, or none on failure, and the
///   fetch ends with the record.
pub open spec fn advanced(f: FetchView, reply: ReplyView) -> ProgressView {
    match f.stage {
        FetchStageView::Searching => match reply {
            ReplyView::Candidates(c) => if c.len() > 0 {
                let tmdb_id = c[chosen_index(c, f.request.year_cutoff)].tmdb_id;
                ProgressView::Call(
                    FetchView { request: f.request, stage: FetchStageView::Detailing { tmdb_id } },
                    RemoteCallView::Details { url: details_url_of(tmdb_id, f.request.api_key) },
                )
            } else {
                given_up(f.request)
            },
            _ => given_up(f.request),
        },
        FetchStageView::Detailing { tmdb_id } => match reply {
            ReplyView::Details(d) => {
                let movie = described(d, tmdb_id, f.request.file_path);
                if movie.poster_url.len() > 0 {
                    ProgressView::Call(
                        FetchView {
                            request: f.request,
                            stage: FetchStageView::Postering { movie },
                        },
                        RemoteCallView::Poster {
                            url: movie.poster_url,
                            path: poster_cache_path_of(tmdb_id),
                        },
                    )
                } else {
                    identifying(f.request, movie)
                }
            },
            _ => given_up(f.request),
        },
        FetchStageView::Postering { movie } => match reply {
            ReplyView::PosterSaved(p) => identifying(
                f.request,
                MovieView { poster_path: p, ..movie },
            ),
            _ => identifying(f.request, movie),
        },
        FetchStageView::Identifying { movie } => match reply {
            ReplyView::ExternalId(x) => ProgressView::Done(
                FetchedView { movie: MovieView { imdb_id: x, ..movie }, found: true },
            ),
            _ => ProgressView::Done(FetchedView { movie, found: true }),
        },
    }
}

/// How many answers a fetch at this stage takes at most before it ends.
pub open spec fn steps_left(stage: FetchStageView) -> nat {
    match stage {
        FetchStageView::Searching => 4,
        FetchStageView::Detailing { .. } => 3,
        FetchStageView::Postering { .. } => 2,
        FetchStageView::Identifying { .. } => 1,
    }
}

impl FetchView {
    /// The record under way is well formed and carries the file of the
    /// request.
    pub open spec fn valid(self) -> bool {
        match self.stage {
            FetchStageView::Postering { movie } => well_formed(movie) && movie.file_path
                == self.request.file_path,
            FetchStageView::Identifying { movie } => well_formed(movie) && movie.file_path
                == self.request.file_path,
            _ => true,
        }
    }

    /// The fetch that has just begun.
    pub open spec fn begun(request: FetchRequestView) -> FetchView {
        FetchView { request, stage: FetchStageView::Searching }
    }

    /// The fetch for the candidate `tmdb_id`, chosen beforehand.
    pub open spec fn chosen(request: FetchRequestView, tmdb_id: u32) -> FetchView {
        FetchView { request, stage: FetchStageView::Detailing { tmdb_id } }
    }
}

/// What a fetch ends with when it is handed `replies` one after the other:
/// nothing as long as it has not ended.
pub open spec fn outcome(f: FetchView, replies: Seq<ReplyView>) -> Option<FetchedView>
    decreases replies.len(),
{
    if replies.len() == 0 {
        None
    } else {
        match advanced(f, replies[0]) {
            ProgressView::Done(d) => Some(d),
            ProgressView::Call(g, _) => outcome(g, replies.drop_first()),
        }
    }
}

/// Each answer brings a fetch nearer to its end, and whatever the answer, a
/// fetch ends with a well-formed record that carries the request's file.
pub proof fn lemma_advance_progresses(f: FetchView, reply: ReplyView)
    requires
        f.valid(),
    ensures
        match advanced(f, reply) {
            ProgressView::Call(g, _) => g.valid() && g.request == f.request && steps_left(g.stage)
                < steps_left(f.stage),
            ProgressView::Done(d) => well_formed(d.movie) && d.movie.file_path
                == f.request.file_path,
        },
{
}

/// Graceful degradation: a fetch ends with a record after four answers at
/// most, whatever they are - failures included - and the record is well
/// formed and carries the request's file.
pub proof fn lemma_fetch_always_yields(f: FetchView, replies: Seq<ReplyView>)
    requires
        f.valid(),
        replies.len() >= steps_left(f.stage),
    ensures
        outcome(f, replies) is Some,
        well_formed(outcome(f, replies)->0.movie),
        outcome(f, replies)->0.movie.file_path == f.request.file_path,
    decreases replies.len(),
{
    lemma_advance_progresses(f, replies[0]);
    match advanced(f, replies[0]) {
        ProgressView::Done(d) => {},
        ProgressView::Call(g, _) => {
            lemma_fetch_always_yields(g, replies.drop_first());
        },
    }
}

/// A search that finds nothing, or fails, ends the fetch at once with the
/// stand-in record: the title asked for, the file of the request, an
/// unknown director, the genre `Uncategorized`, no rating.
pub proof fn lemma_nothing_found(request: FetchRequestView, reply: ReplyView)
    requires
        !(reply matches ReplyView::Candidates(c) && c.len() > 0),
    ensures
        advanced(FetchView::begun(request), reply) == ProgressView::Done(
            FetchedView { movie: placeholder_of(request.title, request.file_path), found: false },
        ),
{
}

fn give_up(request: FetchRequest) -> (r: Progress)
    ensures
        r@ == given_up(request@),
{
    Progress::Done(
        Fetched { movie: Movie::placeholder(request.title, request.file_path), found: false },
    )
}

fn identify(request: FetchRequest, movie: Movie) -> (r: Progress)
    requires
        well_formed(movie@),
        movie@.file_path == request@.file_path,
    ensures
        r@ == identifying(request@, movie@),
        r matches Progress::Call(f, _) && f.wf(),
{
    let url = external_ids_url(movie.tmdb_id, request.api_key.as_str());
    Progress::Call(
        Fetch { request, stage: FetchStage::Identifying { movie } },
        RemoteCall::ExternalId { url },
    )
}

impl Fetch {
    /// The fetch is in a valid state.
    pub closed spec fn wf(&self) -> bool {
        self@.valid()
    }

    /// A fetch that is under way is in a valid state.
    pub proof fn lemma_wf_valid(&self)
        requires
            self.wf(),
        ensures
            self@.valid(),
    {
    }

    /// Begins a fetch: the first call is the search for the title.
    pub fn begin(request: FetchRequest) -> (r: (Fetch, RemoteCall))
        ensures
            r.0.wf(),
            r.0@ == FetchView::begun(request@),
            r.1@ == (RemoteCallView::Search {
                url: search_url_of(request@.api_key, request@.title),
            }),
    {
        let url = search_url(request.api_key.as_str(), request.title.as_str());
        (Fetch { request, stage: FetchStage::Searching }, RemoteCall::Search { url })
    }

    /// Begins a fetch for a candidate that is already chosen: the first
    /// call gets its details.
    pub fn begin_at(request: FetchRequest, tmdb_id: u32) -> (r: (Fetch, RemoteCall))
        ensures
            r.0.wf(),
            r.0@ == FetchView::chosen(request@, tmdb_id),
            r.1@ == (RemoteCallView::Details {
                url: details_url_of(tmdb_id, request@.api_key),
            }),
    {
        let url = details_url(tmdb_id, request.api_key.as_str());
        (Fetch { request, stage: FetchStage::Detailing { tmdb_id } }, RemoteCall::Details { url })
    }

    /// Takes the answer to the call that the fetch waits for, and says what
    /// the fetch does next.
    pub fn advance(self, reply: Reply) -> (r: Progress)
        requires
            self.wf(),
        ensures
            r@ == advanced(self@, reply@),
            r matches Progress::Call(f, _) ==> f.wf(),
    {
        let Fetch { request, stage } = self;
        match stage {
            FetchStage::Searching => match reply {
                Reply::Candidates(results) => match choose_candidate(
                    &results,
                    request.year_cutoff,
                ) {
                    Some(i) => {
                        let tmdb_id: u32 = results[i].tmdb_id;
                        assert(views(results@)[i as int] == results@[i as int]@);
                        let url = details_url(tmdb_id, request.api_key.as_str());
                        Progress::Call(
                            Fetch { request, stage: FetchStage::Detailing { tmdb_id } },
                            RemoteCall::Details { url },
                        )
                    },
                    None => give_up(request),
                },
                _ => give_up(request),
            },
            FetchStage::Detailing { tmdb_id } => match reply {
                Reply::Details(details) => {
                    let movie = describe(details, tmdb_id, request.file_path.clone());
                    if movie.poster_url.as_str().is_empty() {
                        identify(request, movie)
                    } else {
                        let url = movie.poster_url.clone();
                        let path = poster_cache_path(tmdb_id);
                        Progress::Call(
                            Fetch { request, stage: FetchStage::Postering { movie } },
                            RemoteCall::Poster { url, path },
                        )
                    }
                },
                _ => give_up(request),
            },
            FetchStage::Postering { movie } => match reply {
                Reply::PosterSaved(path) => {
                    let mut m = movie;
                    m.poster_path = path;
                    identify(request, m)
                },
                _ => identify(request, movie),
            },
            FetchStage::Identifying { movie } => match reply {
                Reply::ExternalId(x) => {
                    let mut m = movie;
                    m.imdb_id = x;
                    Progress::Done(Fetched { movie: m, found: true })
                },
                _ => Progress::Done(Fetched { movie, found: true }),
            },
        }
    }
}

} // verus!
