//! Movie records and their mathematical views.

use vstd::prelude::*;

verus! {

/// The views of the items of a sequence, in order.
pub open spec fn views<T: View>(s: Seq<T>) -> Seq<T::V> {
    s.map_values(|x: T| x@)
}

/// The most cast entries that a record features.
pub const MAX_CAST: usize = 5;

/// The highest rating, in thousandths of a point: ten points.
pub const MAX_RATING: u16 = 10_000;

/// One featured cast entry of a movie.
#[derive(Debug)]
pub struct CastMember {
    pub name: String,
    pub character: String,
    /// Where the member's photo is found; empty where there is none.
    pub profile_path: String,
}

pub ghost struct CastMemberView {
    pub name: Seq<char>,
    pub character: Seq<char>,
    pub profile_path: Seq<char>,
}

impl View for CastMember {
    type V = CastMemberView;

    open spec fn view(&self) -> CastMemberView {
        CastMemberView {
            name: self.name@,
            character: self.character@,
            profile_path: self.profile_path@,
        }
    }
}

impl Clone for CastMember {
    fn clone(&self) -> (r: Self)
        ensures
            r@ == self@,
    {
        CastMember {
            name: self.name.clone(),
            character: self.character.clone(),
            profile_path: self.profile_path.clone(),
        }
    }
}

/// One line of a movie's watch history.
#[derive(Debug)]
pub struct WatchEntry {
    pub date: String,
    /// The viewer's own rating, in thousandths of a point, if one was given.
    pub rating: Option<u16>,
    pub note: String,
}

pub ghost struct WatchEntryView {
    pub date: Seq<char>,
    pub rating: Option<u16>,
    pub note: Seq<char>,
}

impl View for WatchEntry {
    type V = WatchEntryView;

    open spec fn view(&self) -> WatchEntryView {
        WatchEntryView { date: self.date@, rating: self.rating, note: self.note@ }
    }
}

impl Clone for WatchEntry {
    fn clone(&self) -> (r: Self)
        ensures
            r@ == self@,
    {
        WatchEntry { date: self.date.clone(), rating: self.rating, note: self.note.clone() }
    }
}

/// A movie record.
#[derive(Debug)]
pub struct Movie {
    /// The record's identity; the catalog assigns it, and 0 stands for
    /// "none assigned yet".
    pub id: u32,
    pub title: String,
    /// The release year, 0 where it is unknown.
    pub year: u16,
    pub director: String,
    pub genre: Vec<String>,
    /// The rating, in thousandths of a point.
    pub rating: u16,
    /// The running time in minutes.
    pub runtime: u16,
    pub description: String,
    pub cast_details: Vec<CastMember>,
    /// The local video file; empty where no file is associated.
    pub file_path: String,
    /// The remote poster; empty where there is none.
    pub poster_url: String,
    /// The locally cached poster; empty where there is none.
    pub poster_path: String,
    /// The remote provider's id of the movie, 0 where it has none.
    pub tmdb_id: u32,
    /// The external identifier; empty where it is unknown.
    pub imdb_id: String,
    pub watch_log: Vec<WatchEntry>,
}

pub ghost struct MovieView {
    pub id: u32,
    pub title: Seq<char>,
    pub year: u16,
    pub director: Seq<char>,
    pub genre: Seq<Seq<char>>,
    pub rating: u16,
    pub runtime: u16,
    pub description: Seq<char>,
    pub cast_details: Seq<CastMemberView>,
    pub file_path: Seq<char>,
    pub poster_url: Seq<char>,
    pub poster_path: Seq<char>,
    pub tmdb_id: u32,
    pub imdb_id: Seq<char>,
    pub watch_log: Seq<WatchEntryView>,
}

impl View for Movie {
    type V = MovieView;

    open spec fn view(&self) -> MovieView {
        MovieView {
            id: self.id,
            title: self.title@,
            year: self.year,
            director: self.director@,
            genre: views(self.genre@),
            rating: self.rating,
            runtime: self.runtime,
            description: self.description@,
            cast_details: views(self.cast_details@),
            file_path: self.file_path@,
            poster_url: self.poster_url@,
            poster_path: self.poster_path@,
            tmdb_id: self.tmdb_id,
            imdb_id: self.imdb_id@,
            watch_log: views(self.watch_log@),
        }
    }
}

/// A copy of a list of strings.
pub fn clone_strings(v: &Vec<String>) -> (r: Vec<String>)
    ensures
        views(r@) == views(v@),
{
    let r = v.clone();
    assert(views(r@) =~= views(v@));
    r
}

/// A copy of a cast list.
pub fn clone_cast(v: &Vec<CastMember>) -> (r: Vec<CastMember>)
    ensures
        views(r@) == views(v@),
{
    let r = v.clone();
    assert(views(r@) =~= views(v@));
    r
}

/// A copy of a watch history.
pub fn clone_watch_log(v: &Vec<WatchEntry>) -> (r: Vec<WatchEntry>)
    ensures
        views(r@) == views(v@),
{
    let r = v.clone();
    assert(views(r@) =~= views(v@));
    r
}

impl Clone for Movie {
    fn clone(&self) -> (r: Self)
        ensures
            r@ == self@,
    {
        Movie {
            id: self.id,
            title: self.title.clone(),
            year: self.year,
            director: self.director.clone(),
            genre: clone_strings(&self.genre),
            rating: self.rating,
            runtime: self.runtime,
            description: self.description.clone(),
            cast_details: clone_cast(&self.cast_details),
            file_path: self.file_path.clone(),
            poster_url: self.poster_url.clone(),
            poster_path: self.poster_path.clone(),
            tmdb_id: self.tmdb_id,
            imdb_id: self.imdb_id.clone(),
            watch_log: clone_watch_log(&self.watch_log),
        }
    }
}

/// A copy of a list of movies.
pub fn clone_movies(v: &Vec<Movie>) -> (r: Vec<Movie>)
    ensures
        views(r@) == views(v@),
{
    let r = v.clone();
    assert(views(r@) =~= views(v@));
    r
}

/// The genre that stands in for an empty genre list.
pub open spec fn unknown_genre() -> Seq<char> {
    seq!['U', 'n', 'k', 'n', 'o', 'w', 'n']
}

/// The genre of a record whose metadata was not found.
pub open spec fn uncategorized_genre() -> Seq<char> {
    seq!['U', 'n', 'c', 'a', 't', 'e', 'g', 'o', 'r', 'i', 'z', 'e', 'd']
}

/// The director of a record whose director is not known.
pub open spec fn unknown_director() -> Seq<char> {
    unknown_genre()
}

/// The synopsis of a record whose metadata was not found.
pub open spec fn not_found_text() -> Seq<char> {
    seq![
        'M', 'e', 't', 'a', 'd', 'a', 't', 'a', ' ', 'n', 'o', 't', ' ', 'f', 'o', 'u', 'n', 'd',
    ]
}

/// The string `Unknown`.
pub fn unknown_text() -> (r: String)
    ensures
        r@ == unknown_genre(),
{
    proof {
        reveal_strlit("Unknown");
    }
    let r = "Unknown".to_owned();
    assert(r@ =~= unknown_genre());
    r
}

/// What the catalog asks of a record: at least one genre, at most
/// [`MAX_CAST`] cast entries, a rating of at most [`MAX_RATING`].
pub open spec fn well_formed(m: MovieView) -> bool {
    &&& m.genre.len() > 0
    &&& m.cast_details.len() <= MAX_CAST
    &&& m.rating <= MAX_RATING
}

/// `genre`, or the one genre `Unknown` where `genre` is empty.
pub open spec fn genre_or_unknown(genre: Seq<Seq<char>>) -> Seq<Seq<char>> {
    if genre.len() == 0 {
        seq![unknown_genre()]
    } else {
        genre
    }
}

/// The first [`MAX_CAST`] entries of `cast`.
pub open spec fn featured<T>(cast: Seq<T>) -> Seq<T> {
    if cast.len() <= MAX_CAST {
        cast
    } else {
        cast.take(MAX_CAST as int)
    }
}

/// `rating`, lowered to [`MAX_RATING`] where it is above.
pub open spec fn capped_rating(rating: u16) -> u16 {
    if rating <= MAX_RATING {
        rating
    } else {
        MAX_RATING
    }
}

/// The well-formed record nearest to `m`: an empty genre list becomes
/// `Unknown`, the cast is cut to its first entries, the rating is capped.
pub open spec fn normalized(m: MovieView) -> MovieView {
    MovieView {
        genre: genre_or_unknown(m.genre),
        cast_details: featured(m.cast_details),
        rating: capped_rating(m.rating),
        ..m
    }
}

/// A normalized record is well formed, and normalizing a well-formed record
/// changes nothing.
pub proof fn lemma_normalized(m: MovieView)
    ensures
        well_formed(normalized(m)),
        well_formed(m) ==> normalized(m) == m,
{
}

/// The stand-in record for a title whose metadata could not be had.
pub open spec fn placeholder_of(title: Seq<char>, file_path: Seq<char>) -> MovieView {
    MovieView {
        id: 0,
        title,
        year: 0,
        director: unknown_director(),
        genre: seq![uncategorized_genre()],
        rating: 0,
        runtime: 0,
        description: not_found_text(),
        cast_details: Seq::empty(),
        file_path,
        poster_url: Seq::empty(),
        poster_path: Seq::empty(),
        tmdb_id: 0,
        imdb_id: Seq::empty(),
        watch_log: Seq::empty(),
    }
}

/// The genre list to store for `genre`.
pub fn fill_genre(genre: Vec<String>) -> (r: Vec<String>)
    ensures
        views(r@) == genre_or_unknown(views(genre@)),
{
    if genre.len() == 0 {
        let mut r: Vec<String> = Vec::new();
        r.push(unknown_text());
        assert(views(r@) =~= seq![unknown_genre()]);
        r
    } else {
        genre
    }
}

/// The cast list to store for `cast`.
pub fn cut_cast(cast: Vec<CastMember>) -> (r: Vec<CastMember>)
    ensures
        views(r@) == featured(views(cast@)),
{
    let mut r = cast;
    if r.len() > MAX_CAST {
        r.truncate(MAX_CAST);
        assert(views(r@) =~= views(cast@).take(MAX_CAST as int));
    }
    r
}

impl Movie {
    /// Makes the record well formed, changing as little as that takes.
    pub fn normalize(self) -> (r: Movie)
        ensures
            r@ == normalized(self@),
            well_formed(r@),
    {
        let rating: u16 = if self.rating <= MAX_RATING {
            self.rating
        } else {
            MAX_RATING
        };
        Movie {
            id: self.id,
            title: self.title,
            year: self.year,
            director: self.director,
            genre: fill_genre(self.genre),
            rating,
            runtime: self.runtime,
            description: self.description,
            cast_details: cut_cast(self.cast_details),
            file_path: self.file_path,
            poster_url: self.poster_url,
            poster_path: self.poster_path,
            tmdb_id: self.tmdb_id,
            imdb_id: self.imdb_id,
            watch_log: self.watch_log,
        }
    }

    /// The stand-in record for `title`, found at `file_path`, when no
    /// metadata could be had for it.
    pub fn placeholder(title: String, file_path: String) -> (r: Movie)
        ensures
            r@ == placeholder_of(title@, file_path@),
            well_formed(r@),
    {
        proof {
            reveal_strlit("Uncategorized");
            reveal_strlit("Metadata not found");
        }
        let mut genre: Vec<String> = Vec::new();
        let g = "Uncategorized".to_owned();
        assert(g@ =~= uncategorized_genre());
        genre.push(g);
        assert(views(genre@) =~= seq![uncategorized_genre()]);
        let description = "Metadata not found".to_owned();
        assert(description@ =~= not_found_text());
        let cast_details: Vec<CastMember> = Vec::new();
        let watch_log: Vec<WatchEntry> = Vec::new();
        assert(views(cast_details@) =~= Seq::<CastMemberView>::empty());
        assert(views(watch_log@) =~= Seq::<WatchEntryView>::empty());
        Movie {
            id: 0,
            title,
            year: 0,
            director: unknown_text(),
            genre,
            rating: 0,
            runtime: 0,
            description,
            cast_details,
            file_path,
            poster_url: String::new(),
            poster_path: String::new(),
            tmdb_id: 0,
            imdb_id: String::new(),
            watch_log,
        }
    }
}

} // verus!
