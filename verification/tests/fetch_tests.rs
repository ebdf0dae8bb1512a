use moviedb::fetch::{Fetch, FetchRequest, Fetched, Progress, RemoteCall, Reply};
use moviedb::remote::{RemoteCast, RemoteCrew, RemoteDetails};
use moviedb::search_cache::SearchResult;

fn request(title: &str, path: &str, cutoff: u16) -> FetchRequest {
    FetchRequest {
        api_key: "KEY".to_string(),
        title: title.to_string(),
        file_path: path.to_string(),
        year_cutoff: cutoff,
    }
}

fn found(id: u32, year: &str) -> SearchResult {
    SearchResult { tmdb_id: id, title: "Cape Fear".to_string(), year: year.to_string(), rating: 7000 }
}

fn cape_fear(poster: Option<&str>) -> RemoteDetails {
    RemoteDetails {
        title: "Cape Fear".to_string(),
        release_date: "1962-04-12".to_string(),
        overview: "Stalked.".to_string(),
        vote_average: 7345,
        poster_path: poster.map(|p| p.to_string()),
        runtime: Some(106),
        genres: vec!["Thriller".to_string()],
        cast: vec![RemoteCast {
            name: "Gregory Peck".to_string(),
            character: "Sam Bowden".to_string(),
            profile_path: None,
        }],
        crew: vec![RemoteCrew { name: "J. Lee Thompson".to_string(), job: "Director".to_string() }],
    }
}

fn call(p: Progress) -> (Fetch, RemoteCall) {
    match p {
        Progress::Call(f, c) => (f, c),
        Progress::Done(_) => panic!("the fetch ended"),
    }
}

fn done(p: Progress) -> Fetched {
    match p {
        Progress::Done(d) => d,
        Progress::Call(_, _) => panic!("the fetch goes on"),
    }
}

fn is_placeholder(d: &Fetched, title: &str, path: &str) -> bool {
    !d.found
        && d.movie.id == 0
        && d.movie.title == title
        && d.movie.year == 0
        && d.movie.director == "Unknown"
        && d.movie.genre == vec!["Uncategorized"]
        && d.movie.rating == 0
        && d.movie.runtime == 0
        && d.movie.description == "Metadata not found"
        && d.movie.cast_details.is_empty()
        && d.movie.file_path == path
        && d.movie.poster_url.is_empty()
        && d.movie.poster_path.is_empty()
        && d.movie.tmdb_id == 0
        && d.movie.imdb_id.is_empty()
}

#[test]
fn fetch_begins_with_the_search() {
    let (_, first) = Fetch::begin(request("Cape Fear", "/m/cf.mkv", 1966));
    match first {
        RemoteCall::Search { url } => assert_eq!(
            url,
            "https://api.themoviedb.org/3/search/movie?api_key=KEY&query=Cape%20Fear"
        ),
        _ => panic!("not a search"),
    }
}

#[test]
fn fetch_without_results_gives_the_placeholder() {
    let (f, _) = Fetch::begin(request("x", "/movies/x.mkv", 0));
    let d = done(f.advance(Reply::Candidates(Vec::new())));
    assert_eq!(d.movie.director, "Unknown");
    assert_eq!(d.movie.genre, vec!["Uncategorized"]);
    assert_eq!(d.movie.rating, 0);
    assert_eq!(d.movie.file_path, "/movies/x.mkv");
    assert!(is_placeholder(&d, "x", "/movies/x.mkv"));
}

#[test]
fn fetch_with_a_failed_search_gives_the_placeholder() {
    let (f, _) = Fetch::begin(request("x", "/movies/x.mkv", 0));
    assert!(is_placeholder(&done(f.advance(Reply::Failed)), "x", "/movies/x.mkv"));
    let (f, _) = Fetch::begin(request("y", "", 0));
    assert!(is_placeholder(&done(f.advance(Reply::ExternalId("tt1".to_string()))), "y", ""));
}

#[test]
fn fetch_details_the_candidate_within_the_cutoff() {
    let results = vec![found(1, "2010"), found(2, "1962"), found(3, "1998")];
    let (f, _) = Fetch::begin(request("Cape Fear", "", 1966));
    let (_, next) = call(f.advance(Reply::Candidates(results)));
    match next {
        RemoteCall::Details { url } => assert_eq!(
            url,
            "https://api.themoviedb.org/3/movie/2?api_key=KEY&append_to_response=credits"
        ),
        _ => panic!("not a details call"),
    }
    let results = vec![found(1, "2010"), found(2, "1962")];
    let (f, _) = Fetch::begin(request("Cape Fear", "", 0));
    let (_, next) = call(f.advance(Reply::Candidates(results)));
    match next {
        RemoteCall::Details { url } => assert!(url.contains("/movie/1?")),
        _ => panic!("not a details call"),
    }
}

#[test]
fn fetch_runs_through_all_four_calls() {
    let (f, _) = Fetch::begin(request("Cape Fear", "/m/cf.mkv", 1966));
    let (f, _) = call(f.advance(Reply::Candidates(vec![found(11349, "1962")])));
    let (f, poster) = call(f.advance(Reply::Details(cape_fear(Some("/cf.jpg")))));
    match poster {
        RemoteCall::Poster { url, path } => {
            assert_eq!(url, "https://image.tmdb.org/t/p/w500/cf.jpg");
            assert_eq!(path, "posters/poster_11349.jpg");
        },
        _ => panic!("not a poster call"),
    }
    let (f, ids) = call(f.advance(Reply::PosterSaved("posters/poster_11349.jpg".to_string())));
    match ids {
        RemoteCall::ExternalId { url } => assert_eq!(
            url,
            "https://api.themoviedb.org/3/movie/11349/external_ids?api_key=KEY"
        ),
        _ => panic!("not an identifier call"),
    }
    let d = done(f.advance(Reply::ExternalId("tt0055824".to_string())));
    assert!(d.found);
    assert_eq!(d.movie.title, "Cape Fear");
    assert_eq!(d.movie.year, 1962);
    assert_eq!(d.movie.director, "J. Lee Thompson");
    assert_eq!(d.movie.genre, vec!["Thriller"]);
    assert_eq!(d.movie.rating, 7345);
    assert_eq!(d.movie.runtime, 106);
    assert_eq!(d.movie.cast_details.len(), 1);
    assert_eq!(d.movie.file_path, "/m/cf.mkv");
    assert_eq!(d.movie.poster_url, "https://image.tmdb.org/t/p/w500/cf.jpg");
    assert_eq!(d.movie.poster_path, "posters/poster_11349.jpg");
    assert_eq!(d.movie.tmdb_id, 11349);
    assert_eq!(d.movie.imdb_id, "tt0055824");
}

#[test]
fn fetch_skips_the_poster_where_there_is_none() {
    let (f, _) = Fetch::begin(request("Cape Fear", "", 1966));
    let (f, _) = call(f.advance(Reply::Candidates(vec![found(7, "1962")])));
    let (f, next) = call(f.advance(Reply::Details(cape_fear(None))));
    assert!(matches!(next, RemoteCall::ExternalId { .. }));
    let d = done(f.advance(Reply::ExternalId(String::new())));
    assert!(d.found);
    assert_eq!(d.movie.poster_url, "");
    assert_eq!(d.movie.poster_path, "");
    assert_eq!(d.movie.imdb_id, "");
}

#[test]
fn fetch_with_failed_details_gives_the_placeholder() {
    let (f, _) = Fetch::begin(request("Cape Fear", "/m/cf.mkv", 1966));
    let (f, _) = call(f.advance(Reply::Candidates(vec![found(7, "1962")])));
    assert!(is_placeholder(&done(f.advance(Reply::Failed)), "Cape Fear", "/m/cf.mkv"));
}

#[test]
fn fetch_goes_on_without_poster_and_identifier() {
    let (f, _) = Fetch::begin(request("Cape Fear", "/m/cf.mkv", 1966));
    let (f, _) = call(f.advance(Reply::Candidates(vec![found(7, "1962")])));
    let (f, _) = call(f.advance(Reply::Details(cape_fear(Some("/cf.jpg")))));
    let (f, next) = call(f.advance(Reply::Failed));
    assert!(matches!(next, RemoteCall::ExternalId { .. }));
    let d = done(f.advance(Reply::Failed));
    assert!(d.found);
    assert_eq!(d.movie.title, "Cape Fear");
    assert_eq!(d.movie.poster_path, "");
    assert_eq!(d.movie.imdb_id, "");
    assert_eq!(d.movie.file_path, "/m/cf.mkv");
}

#[test]
fn fetch_takes_an_answer_of_the_wrong_kind_for_a_failure() {
    let (f, _) = Fetch::begin(request("Cape Fear", "", 1966));
    let (f, _) = call(f.advance(Reply::Candidates(vec![found(7, "1962")])));
    let (f, _) = call(f.advance(Reply::Details(cape_fear(Some("/cf.jpg")))));
    let (f, _) = call(f.advance(Reply::ExternalId("tt1".to_string())));
    let d = done(f.advance(Reply::PosterSaved("p.jpg".to_string())));
    assert_eq!(d.movie.poster_path, "");
    assert_eq!(d.movie.imdb_id, "");
}

#[test]
fn fetch_can_begin_at_a_chosen_candidate() {
    let (f, first) = Fetch::begin_at(request("ignored", "/m/a.mkv", 0), 42);
    match first {
        RemoteCall::Details { url } => assert_eq!(
            url,
            "https://api.themoviedb.org/3/movie/42?api_key=KEY&append_to_response=credits"
        ),
        _ => panic!("not a details call"),
    }
    let (f, _) = call(f.advance(Reply::Details(cape_fear(None))));
    let d = done(f.advance(Reply::ExternalId("tt9".to_string())));
    assert_eq!(d.movie.tmdb_id, 42);
    assert_eq!(d.movie.file_path, "/m/a.mkv");
    assert_eq!(d.movie.imdb_id, "tt9");
}
