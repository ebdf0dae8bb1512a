//! The remote provider as the library sees it: the addresses it is asked
//! at, what it answers, and what a record is made of from its answers.

use vstd::prelude::*;
use vstd::utf8::encode_utf8;
use crate::movie::{
    capped_rating, cut_cast, featured, fill_genre, genre_or_unknown, unknown_director,
    unknown_text, views, well_formed, CastMember, CastMemberView, Movie, MovieView, WatchEntry,
    WatchEntryView, MAX_CAST, MAX_RATING,
};
use crate::numeral::{
    decimal, decimal_string, push_decimal, release_year, year_from_text, year_of_date,
    year_of_text,
};
use crate::search_cache::{SearchResult, SearchResultView};

verus! {

/// The most pages of one search that are asked for.
pub const MAX_SEARCH_PAGES: u32 = 5;

/// The bytes that stand for themselves in a query: letters, digits and
/// `-`, `.`, `_`, `~`.
pub open spec fn is_unreserved(b: u8) -> bool {
    ||| 0x30 <= b <= 0x39
    ||| 0x41 <= b <= 0x5a
    ||| 0x61 <= b <= 0x7a
    ||| b == 0x2d
    ||| b == 0x2e
    ||| b == 0x5f
    ||| b == 0x7e
}

/// The upper-case hexadecimal digit of `d < 16`.
pub open spec fn hex_digit(d: u8) -> char {
    if d < 10 {
        ((0x30 + d) as u8) as char
    } else {
        ((0x37 + d) as u8) as char
    }
}

/// One byte, percent-encoded.
pub open spec fn percent_encoded_byte(b: u8) -> Seq<char> {
    if is_unreserved(b) {
        seq![b as char]
    } else {
        seq!['%', hex_digit(b / 16), hex_digit(b % 16)]
    }
}

/// A byte sequence, percent-encoded byte by byte.
pub open spec fn percent_encoded(bytes: Seq<u8>) -> Seq<char>
    decreases bytes.len(),
{
    if bytes.len() == 0 {
        Seq::empty()
    } else {
        percent_encoded(bytes.drop_last()) + percent_encoded_byte(bytes.last())
    }
}

/// A text as it stands in a query: its UTF-8 bytes, percent-encoded.
pub open spec fn query_encoded(text: Seq<char>) -> Seq<char> {
    percent_encoded(encode_utf8(text))
}

/// Calls `urlencoding::encode`. Trusted: every byte of the text's UTF-8
/// encoding that is a letter, a digit or one of `-`, `.`, `_`, `~` is kept,
/// and every other byte becomes `%` and its two upper-case hexadecimal
/// digits.
#[verifier::external_body]
pub(crate) fn percent_encode(text: &str) -> (r: String)
    ensures
        r@ == query_encoded(text@),
{
    urlencoding::encode(text).into_owned()
}

/// The address of a free-text search for `title`.
pub open spec fn search_url_of(api_key: Seq<char>, title: Seq<char>) -> Seq<char> {
    "https://api.themoviedb.org/3/search/movie?api_key="@ + api_key + "&query="@ + query_encoded(
        title,
    )
}

/// The address of page `page` of a free-text search for `title`.
pub open spec fn search_page_url_of(api_key: Seq<char>, title: Seq<char>, page: u32) -> Seq<char> {
    search_url_of(api_key, title) + "&page="@ + decimal(page as nat)
}

/// The address of a movie's details, with its credits.
pub open spec fn details_url_of(tmdb_id: u32, api_key: Seq<char>) -> Seq<char> {
    "https://api.themoviedb.org/3/movie/"@ + decimal(tmdb_id as nat) + "?api_key="@ + api_key
        + "&append_to_response=credits"@
}

/// The address of a movie's details, without its credits.
pub open spec fn summary_url_of(tmdb_id: u32, api_key: Seq<char>) -> Seq<char> {
    "https://api.themoviedb.org/3/movie/"@ + decimal(tmdb_id as nat) + "?api_key="@ + api_key
}

/// The address of a movie's external identifiers.
pub open spec fn external_ids_url_of(tmdb_id: u32, api_key: Seq<char>) -> Seq<char> {
    "https://api.themoviedb.org/3/movie/"@ + decimal(tmdb_id as nat) + "/external_ids?api_key="@
        + api_key
}

/// The address of a poster in full resolution.
pub open spec fn poster_url_of(poster_path: Seq<char>) -> Seq<char> {
    "https://image.tmdb.org/t/p/w500"@ + poster_path
}

/// The address of a cast member's photo.
pub open spec fn profile_url_of(profile_path: Seq<char>) -> Seq<char> {
    "https://image.tmdb.org/t/p/w185"@ + profile_path
}

/// Where the poster of the movie `tmdb_id` is kept: a file named by that
/// id in the poster cache directory.
pub open spec fn poster_cache_path_of(tmdb_id: u32) -> Seq<char> {
    "posters/poster_"@ + decimal(tmdb_id as nat) + ".jpg"@
}

/// The address of a free-text search for `title`.
pub fn search_url(api_key: &str, title: &str) -> (r: String)
    ensures
        r@ == search_url_of(api_key@, title@),
{
    let mut url = "https://api.themoviedb.org/3/search/movie?api_key=".to_owned();
    url.append(api_key);
    url.append("&query=");
    let q = percent_encode(title);
    url.append(q.as_str());
    url
}

/// The address of page `page` of a free-text search for `title`.
pub fn search_page_url(api_key: &str, title: &str, page: u32) -> (r: String)
    ensures
        r@ == search_page_url_of(api_key@, title@, page),
{
    let mut url = search_url(api_key, title);
    url.append("&page=");
    push_decimal(&mut url, page as u64);
    url
}

/// The address of a movie's details, with its credits.
pub fn details_url(tmdb_id: u32, api_key: &str) -> (r: String)
    ensures
        r@ == details_url_of(tmdb_id, api_key@),
{
    let mut url = summary_url(tmdb_id, api_key);
    url.append("&append_to_response=credits");
    url
}

/// The address of a movie's details, without its credits.
pub fn summary_url(tmdb_id: u32, api_key: &str) -> (r: String)
    ensures
        r@ == summary_url_of(tmdb_id, api_key@),
{
    let mut url = "https://api.themoviedb.org/3/movie/".to_owned();
    push_decimal(&mut url, tmdb_id as u64);
    url.append("?api_key=");
    url.append(api_key);
    url
}

/// The address of a movie's external identifiers.
pub fn external_ids_url(tmdb_id: u32, api_key: &str) -> (r: String)
    ensures
        r@ == external_ids_url_of(tmdb_id, api_key@),
{
    let mut url = "https://api.themoviedb.org/3/movie/".to_owned();
    push_decimal(&mut url, tmdb_id as u64);
    url.append("/external_ids?api_key=");
    url.append(api_key);
    url
}

/// The address of a poster in full resolution.
pub fn poster_url(poster_path: &str) -> (r: String)
    ensures
        r@ == poster_url_of(poster_path@),
{
    let mut url = "https://image.tmdb.org/t/p/w500".to_owned();
    url.append(poster_path);
    url
}

/// The address of a cast member's photo.
pub fn profile_url(profile_path: &str) -> (r: String)
    ensures
        r@ == profile_url_of(profile_path@),
{
    let mut url = "https://image.tmdb.org/t/p/w185".to_owned();
    url.append(profile_path);
    url
}

/// Where the poster of the movie `tmdb_id` is kept.
pub fn poster_cache_path(tmdb_id: u32) -> (r: String)
    ensures
        r@ == poster_cache_path_of(tmdb_id),
{
    let mut name = "posters/poster_".to_owned();
    push_decimal(&mut name, tmdb_id as u64);
    name.append(".jpg");
    name
}

/// One credited actor, as the provider gives it.
#[derive(Debug)]
pub struct RemoteCast {
    pub name: String,
    pub character: String,
    pub profile_path: Option<String>,
}

pub ghost struct RemoteCastView {
    pub name: Seq<char>,
    pub character: Seq<char>,
    pub profile_path: Option<Seq<char>>,
}

impl View for RemoteCast {
    type V = RemoteCastView;

    open spec fn view(&self) -> RemoteCastView {
        RemoteCastView {
            name: self.name@,
            character: self.character@,
            profile_path: match self.profile_path {
                Some(p) => Some(p@),
                None => None,
            },
        }
    }
}

/// One crew member, as the provider gives it.
#[derive(Debug)]
pub struct RemoteCrew {
    pub name: String,
    pub job: String,
}

pub ghost struct RemoteCrewView {
    pub name: Seq<char>,
    pub job: Seq<char>,
}

impl View for RemoteCrew {
    type V = RemoteCrewView;

    open spec fn view(&self) -> RemoteCrewView {
        RemoteCrewView { name: self.name@, job: self.job@ }
    }
}

/// A movie's details with its credits, as the provider gives them.
#[derive(Debug)]
pub struct RemoteDetails {
    pub title: String,
    /// The release date, such as `1962-10-05`; may be empty.
    pub release_date: String,
    pub overview: String,
    /// The average vote, in thousandths of a point.
    pub vote_average: u16,
    pub poster_path: Option<String>,
    pub runtime: Option<u16>,
    pub genres: Vec<String>,
    pub cast: Vec<RemoteCast>,
    pub crew: Vec<RemoteCrew>,
}

pub ghost struct RemoteDetailsView {
    pub title: Seq<char>,
    pub release_date: Seq<char>,
    pub overview: Seq<char>,
    pub vote_average: u16,
    pub poster_path: Option<Seq<char>>,
    pub runtime: Option<u16>,
    pub genres: Seq<Seq<char>>,
    pub cast: Seq<RemoteCastView>,
    pub crew: Seq<RemoteCrewView>,
}

impl View for RemoteDetails {
    type V = RemoteDetailsView;

    open spec fn view(&self) -> RemoteDetailsView {
        RemoteDetailsView {
            title: self.title@,
            release_date: self.release_date@,
            overview: self.overview@,
            vote_average: self.vote_average,
            poster_path: match self.poster_path {
                Some(p) => Some(p@),
                None => None,
            },
            runtime: self.runtime,
            genres: views(self.genres@),
            cast: views(self.cast@),
            crew: views(self.crew@),
        }
    }
}

/// The name of the first crew member whose job is `Director`, and
/// `Unknown` where there is none.
pub open spec fn director_of(crew: Seq<RemoteCrewView>) -> Seq<char>
    decreases crew.len(),
{
    if crew.len() == 0 {
        unknown_director()
    } else if crew[0].job == "Director"@ {
        crew[0].name
    } else {
        director_of(crew.drop_first())
    }
}

/// The cast entry made of a credited actor: the photo's address where the
/// actor has a photo, and an empty one where not.
pub open spec fn cast_entry_of(c: RemoteCastView) -> CastMemberView {
    CastMemberView {
        name: c.name,
        character: c.character,
        profile_path: match c.profile_path {
            Some(p) => profile_url_of(p),
            None => Seq::empty(),
        },
    }
}

/// The cast entries of the first [`MAX_CAST`] credited actors.
pub open spec fn featured_cast(cast: Seq<RemoteCastView>) -> Seq<CastMemberView> {
    featured(cast).map_values(|c: RemoteCastView| cast_entry_of(c))
}

/// The record made of a movie's details: no identity yet, no cached poster,
/// no external identifier, an empty watch history.
pub open spec fn described(d: RemoteDetailsView, tmdb_id: u32, file_path: Seq<char>) -> MovieView {
    MovieView {
        id: 0,
        title: d.title,
        year: year_of_date(d.release_date),
        director: director_of(d.crew),
        genre: genre_or_unknown(d.genres),
        rating: capped_rating(d.vote_average),
        runtime: match d.runtime {
            Some(r) => r,
            None => 0,
        },
        description: d.overview,
        cast_details: featured_cast(d.cast),
        file_path,
        poster_url: match d.poster_path {
            Some(p) => poster_url_of(p),
            None => Seq::empty(),
        },
        poster_path: Seq::empty(),
        tmdb_id,
        imdb_id: Seq::empty(),
        watch_log: Seq::empty(),
    }
}

/// The director among `crew`.
pub fn find_director(crew: &Vec<RemoteCrew>) -> (r: String)
    ensures
        r@ == director_of(views(crew@)),
{
    let wanted = "Director".to_owned();
    let ghost all = views(crew@);
    let mut i: usize = 0;
    assert(all.skip(0) =~= all);
    while i < crew.len()
        invariant
            i <= crew@.len(),
            all == views(crew@),
            wanted@ == "Director"@,
            director_of(all) == director_of(all.skip(i as int)),
        decreases crew@.len() - i,
    {
        proof {
            let rest = all.skip(i as int);
            assert(rest[0] == crew@[i as int]@);
            assert(rest.drop_first() =~= all.skip(i + 1));
        }
        if crew[i].job == wanted {
            return crew[i].name.clone();
        }
        i += 1;
    }
    unknown_text()
}

/// The cast entries of the first credited actors.
pub fn feature_cast(cast: &Vec<RemoteCast>) -> (r: Vec<CastMember>)
    ensures
        views(r@) == featured_cast(views(cast@)),
        r@.len() <= MAX_CAST,
{
    let n: usize = if cast.len() <= MAX_CAST {
        cast.len()
    } else {
        MAX_CAST
    };
    let mut out: Vec<CastMember> = Vec::new();
    let mut i: usize = 0;
    while i < n
        invariant
            i <= n <= cast@.len(),
            n <= MAX_CAST,
            out@.len() == i,
            forall|j: int| 0 <= j < i ==> (#[trigger] out@[j])@ == cast_entry_of(cast@[j]@),
        decreases n - i,
    {
        let c = &cast[i];
        let photo = match &c.profile_path {
            Some(p) => profile_url(p.as_str()),
            None => String::new(),
        };
        out.push(CastMember { name: c.name.clone(), character: c.character.clone(), profile_path: photo });
        i += 1;
    }
    assert(views(out@) =~= featured_cast(views(cast@)));
    out
}

/// Makes a record of a movie's details.
pub fn describe(details: RemoteDetails, tmdb_id: u32, file_path: String) -> (r: Movie)
    ensures
        r@ == described(details@, tmdb_id, file_path@),
        well_formed(r@),
{
    let year = release_year(details.release_date.as_str());
    let director = find_director(&details.crew);
    let cast_details = feature_cast(&details.cast);
    let poster = match &details.poster_path {
        Some(p) => poster_url(p.as_str()),
        None => String::new(),
    };
    let rating: u16 = if details.vote_average <= MAX_RATING {
        details.vote_average
    } else {
        MAX_RATING
    };
    let runtime: u16 = match details.runtime {
        Some(r) => r,
        None => 0,
    };
    let watch_log: Vec<WatchEntry> = Vec::new();
    assert(views(watch_log@) =~= Seq::<WatchEntryView>::empty());
    Movie {
        id: 0,
        title: details.title,
        year,
        director,
        genre: fill_genre(details.genres),
        rating,
        runtime,
        description: details.overview,
        cast_details,
        file_path,
        poster_url: poster,
        poster_path: String::new(),
        tmdb_id,
        imdb_id: String::new(),
        watch_log,
    }
}

/// The candidate that a movie's details make for a disambiguation list;
/// where the details could not be had, a candidate of unknown title and
/// year.
pub open spec fn candidate_of(tmdb_id: u32, details: Option<RemoteDetailsView>) -> SearchResultView {
    match details {
        Some(d) => SearchResultView {
            tmdb_id,
            title: d.title,
            year: decimal(year_of_date(d.release_date) as nat),
            rating: d.vote_average,
        },
        None => SearchResultView { tmdb_id, title: unknown_director(), year: "????"@, rating: 0 },
    }
}

/// Makes the candidate for a disambiguation list.
pub fn candidate(tmdb_id: u32, details: Option<&RemoteDetails>) -> (r: SearchResult)
    ensures
        r@ == candidate_of(
            tmdb_id,
            match details {
                Some(d) => Some(d@),
                None => None,
            },
        ),
{
    match details {
        Some(d) => {
            let y = release_year(d.release_date.as_str());
            SearchResult {
                tmdb_id,
                title: d.title.clone(),
                year: decimal_string(y as u64),
                rating: d.vote_average,
            }
        },
        None => SearchResult {
            tmdb_id,
            title: unknown_text(),
            year: "????".to_owned(),
            rating: 0,
        },
    }
}

/// A candidate qualifies under a cutoff year if its release year is known
/// and not later than the cutoff.
pub open spec fn qualifies(c: SearchResultView, year_cutoff: u16) -> bool {
    1 <= year_of_text(c.year) <= year_cutoff
}

/// The index of the first candidate that qualifies, and the number of
/// candidates where none does.
pub open spec fn first_qualifying(results: Seq<SearchResultView>, year_cutoff: u16) -> int
    decreases results.len(),
{
    if results.len() == 0 || qualifies(results[0], year_cutoff) {
        0
    } else {
        1 + first_qualifying(results.drop_first(), year_cutoff)
    }
}

/// The index of the candidate to take: the first that qualifies, and the
/// first of all where none qualifies.
pub open spec fn chosen_index(results: Seq<SearchResultView>, year_cutoff: u16) -> int {
    if first_qualifying(results, year_cutoff) < results.len() {
        first_qualifying(results, year_cutoff)
    } else {
        0
    }
}

/// What the chosen index is: a candidate that qualifies and has none that
/// qualifies before it, or the first candidate when none qualifies at all.
pub proof fn lemma_chosen_index(results: Seq<SearchResultView>, year_cutoff: u16)
    requires
        results.len() > 0,
    ensures
        0 <= chosen_index(results, year_cutoff) < results.len(),
        forall|k: int|
            0 <= k < chosen_index(results, year_cutoff) ==> !qualifies(
                #[trigger] results[k],
                year_cutoff,
            ),
        !qualifies(results[chosen_index(results, year_cutoff)], year_cutoff) ==> chosen_index(
            results,
            year_cutoff,
        ) == 0 && forall|k: int|
            0 <= k < results.len() ==> !qualifies(#[trigger] results[k], year_cutoff),
{
    lemma_first_qualifying(results, year_cutoff);
}

proof fn lemma_first_qualifying(results: Seq<SearchResultView>, year_cutoff: u16)
    ensures
        0 <= first_qualifying(results, year_cutoff) <= results.len(),
        forall|k: int|
            0 <= k < first_qualifying(results, year_cutoff) ==> !qualifies(
                #[trigger] results[k],
                year_cutoff,
            ),
        first_qualifying(results, year_cutoff) < results.len() ==> qualifies(
            results[first_qualifying(results, year_cutoff)],
            year_cutoff,
        ),
    decreases results.len(),
{
    if results.len() > 0 && !qualifies(results[0], year_cutoff) {
        let t = results.drop_first();
        lemma_first_qualifying(t, year_cutoff);
        let f = first_qualifying(results, year_cutoff);
        assert forall|k: int| 0 <= k < f implies !qualifies(#[trigger] results[k], year_cutoff) by {
            if k > 0 {
                assert(t[k - 1] == results[k]);
            }
        }
        if f < results.len() {
            assert(t[f - 1] == results[f]);
        }
    }
}

proof fn lemma_first_qualifying_is(results: Seq<SearchResultView>, year_cutoff: u16, i: int)
    requires
        0 <= i <= results.len(),
        forall|k: int| 0 <= k < i ==> !qualifies(#[trigger] results[k], year_cutoff),
        i == results.len() || qualifies(results[i], year_cutoff),
    ensures
        first_qualifying(results, year_cutoff) == i,
    decreases i,
{
    if i > 0 {
        let t = results.drop_first();
        assert(!qualifies(results[0], year_cutoff));
        assert forall|k: int| 0 <= k < i - 1 implies !qualifies(#[trigger] t[k], year_cutoff) by {
            assert(t[k] == results[k + 1]);
        }
        lemma_first_qualifying_is(t, year_cutoff, i - 1);
    }
}

/// Picks the candidate to take among the results of a search: the first
/// whose release year is known and not later than `year_cutoff`, and the
/// first of all where there is none such. Picks none only of no candidates.
pub fn choose_candidate(results: &Vec<SearchResult>, year_cutoff: u16) -> (r: Option<usize>)
    ensures
        r is Some <==> results@.len() > 0,
        r matches Some(i) ==> i < results@.len() && i == chosen_index(
            views(results@),
            year_cutoff,
        ),
{
    if results.len() == 0 {
        return None;
    }
    let ghost all = views(results@);
    let mut i: usize = 0;
    while i < results.len()
        invariant
            i <= results@.len(),
            all == views(results@),
            forall|k: int| 0 <= k < i ==> !qualifies(#[trigger] all[k], year_cutoff),
        decreases results@.len() - i,
    {
        let y = year_from_text(results[i].year.as_str());
        assert(all[i as int] == results@[i as int]@);
        if 1 <= y && y <= year_cutoff {
            proof {
                lemma_first_qualifying_is(all, year_cutoff, i as int);
            }
            return Some(i);
        }
        i += 1;
    }
    proof {
        lemma_first_qualifying_is(all, year_cutoff, i as int);
    }
    Some(0)
}

} // verus!
