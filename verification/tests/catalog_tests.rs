use moviedb::catalog::{is_all, Catalog, MovieChange};
use moviedb::movie::{CastMember, Movie, WatchEntry, MAX_CAST, MAX_RATING};
use moviedb::search_cache::{CachedSearch, SearchResult, SEARCH_TTL_SECONDS};
use moviedb::sorting::SortKey;
use moviedb::view_cache::ViewKey;

fn movie(title: &str, path: &str) -> Movie {
    Movie::placeholder(title.to_string(), path.to_string())
}

fn movie_of(title: &str, year: u16, genres: &[&str], rating: u16) -> Movie {
    let mut m = movie(title, "");
    m.year = year;
    m.genre = genres.iter().map(|g| g.to_string()).collect();
    m.rating = rating;
    m
}

fn stored(id: u32, title: &str) -> Movie {
    let mut m = movie(title, "");
    m.id = id;
    m
}

fn key(text: &str, category: &str, sort: SortKey) -> ViewKey {
    ViewKey { text: text.to_string(), category: category.to_string(), sort }
}

fn titles(v: &Vec<Movie>) -> Vec<String> {
    v.iter().map(|m| m.title.clone()).collect()
}

fn ids(v: &Vec<Movie>) -> Vec<u32> {
    v.iter().map(|m| m.id).collect()
}

fn library() -> Catalog {
    let mut c = Catalog::new();
    c.add(movie_of("Vertigo", 1958, &["Mystery", "Thriller"], 8300));
    c.add(movie_of("alien", 1979, &["Horror", "Science Fiction"], 8500));
    c.add(movie_of("Heat", 1995, &["Crime", "Drama", "Action"], 8300));
    c.add(movie_of("The Big Heat", 1953, &["Film Noir", "Crime"], 7900));
    c
}

#[test]
fn new_catalog_is_empty() {
    let c = Catalog::new();
    assert_eq!(c.len(), 0);
    assert_eq!(c.next_id(), 1);
    assert!(c.has_room());
    assert!(!c.is_unsaved());
    assert!(c.list_all().is_empty());
    assert!(c.snapshot().is_empty());
    assert!(c.existing_paths().is_empty());
}

#[test]
fn add_assigns_rising_identities() {
    let mut c = Catalog::new();
    assert_eq!(c.add(movie("A", "/a.mkv")), 1);
    assert_eq!(c.add(movie("B", "/b.mkv")), 2);
    assert!(c.delete(2));
    assert_eq!(c.add(movie("C", "/c.mkv")), 3);
    assert!(c.delete(1));
    assert!(c.delete(3));
    assert_eq!(c.len(), 0);
    assert_eq!(c.add(movie("D", "/d.mkv")), 4);
    assert_eq!(c.next_id(), 5);
    assert_eq!(ids(&c.snapshot()), vec![4]);
}

#[test]
fn add_overrides_the_identity_that_the_candidate_carries() {
    let mut c = Catalog::new();
    let id = c.add(stored(77, "A"));
    assert_eq!(id, 1);
    assert_eq!(c.get(1).unwrap().title, "A");
    assert!(c.get(77).is_none());
}

#[test]
fn add_makes_the_record_well_formed() {
    let mut m = movie("A", "");
    m.genre = Vec::new();
    m.rating = 12_000;
    m.cast_details = (0..7)
        .map(|i| CastMember {
            name: format!("Actor {}", i),
            character: String::new(),
            profile_path: String::new(),
        })
        .collect();
    let mut c = Catalog::new();
    let id = c.add(m);
    let got = c.get(id).unwrap();
    assert_eq!(got.genre, vec!["Unknown"]);
    assert_eq!(got.rating, MAX_RATING);
    assert_eq!(got.cast_details.len(), MAX_CAST);
    assert_eq!(got.cast_details[4].name, "Actor 4");
}

#[test]
fn delete_says_whether_the_record_was_there() {
    let mut c = library();
    assert!(!c.delete(9));
    assert_eq!(c.len(), 4);
    assert!(c.delete(2));
    assert!(!c.delete(2));
    assert_eq!(ids(&c.snapshot()), vec![1, 3, 4]);
    assert!(c.get(2).is_none());
    assert_eq!(c.next_id(), 5);
}

#[test]
fn get_finds_by_identity() {
    let c = library();
    assert_eq!(c.get(3).unwrap().title, "Heat");
    assert_eq!(c.get(3).unwrap().id, 3);
    assert!(c.get(0).is_none());
    assert!(c.get(5).is_none());
}

#[test]
fn update_sets_the_file_path() {
    let mut c = library();
    assert!(c.update(2, MovieChange::SetFilePath("/movies/alien.mkv".to_string())));
    assert_eq!(c.get(2).unwrap().file_path, "/movies/alien.mkv");
    assert_eq!(c.get(2).unwrap().title, "alien");
    assert_eq!(c.get(1).unwrap().file_path, "");
    assert!(!c.update(9, MovieChange::SetFilePath("/x".to_string())));
    assert_eq!(c.len(), 4);
}

#[test]
fn update_appends_to_the_watch_log() {
    let mut c = library();
    let first =
        WatchEntry { date: "2024-01-05".to_string(), rating: Some(9000), note: "great".to_string() };
    let second = WatchEntry { date: "2024-06-01".to_string(), rating: None, note: String::new() };
    assert!(c.update(1, MovieChange::LogWatch(first)));
    assert!(c.update(1, MovieChange::LogWatch(second)));
    let log = c.get(1).unwrap().watch_log;
    assert_eq!(log.len(), 2);
    assert_eq!(log[0].date, "2024-01-05");
    assert_eq!(log[0].rating, Some(9000));
    assert_eq!(log[0].note, "great");
    assert_eq!(log[1].date, "2024-06-01");
    assert_eq!(log[1].rating, None);
}

#[test]
fn update_replaces_metadata_but_not_identity_or_watch_log() {
    let mut c = library();
    let seen = WatchEntry { date: "2024-01-05".to_string(), rating: None, note: String::new() };
    c.update(3, MovieChange::LogWatch(seen));
    let mut fresh = movie_of("Heat (1995)", 1995, &[], 11_000);
    fresh.id = 99;
    fresh.director = "Michael Mann".to_string();
    assert!(c.update(3, MovieChange::Replace(fresh)));
    let got = c.get(3).unwrap();
    assert_eq!(got.id, 3);
    assert_eq!(got.title, "Heat (1995)");
    assert_eq!(got.director, "Michael Mann");
    assert_eq!(got.genre, vec!["Unknown"]);
    assert_eq!(got.rating, MAX_RATING);
    assert_eq!(got.watch_log.len(), 1);
    assert_eq!(ids(&c.snapshot()), vec![1, 2, 3, 4]);
}

#[test]
fn search_matches_titles_without_regard_to_case() {
    let c = library();
    assert_eq!(titles(&c.search("heat")), vec!["Heat", "The Big Heat"]);
    assert_eq!(titles(&c.search("ALIEN")), vec!["alien"]);
    assert_eq!(titles(&c.search("the big")), vec!["The Big Heat"]);
    assert!(c.search("matrix").is_empty());
    assert_eq!(c.search("").len(), 4);
}

#[test]
fn filter_matches_any_genre_without_regard_to_case() {
    let c = library();
    assert_eq!(titles(&c.filter("crime")), vec!["Heat", "The Big Heat"]);
    assert_eq!(titles(&c.filter("fi")), vec!["alien", "The Big Heat"]);
    assert_eq!(titles(&c.filter("THRILLER")), vec!["Vertigo"]);
    assert!(c.filter("Comedy").is_empty());
}

#[test]
fn filter_with_no_category_lists_everything_by_title() {
    let c = library();
    let all = vec!["Heat", "The Big Heat", "Vertigo", "alien"];
    assert_eq!(titles(&c.filter("All")), all);
    assert_eq!(titles(&c.filter("")), all);
    assert_eq!(titles(&c.list_all()), all);
    assert!(c.filter("all").is_empty());
}

#[test]
fn is_all_knows_the_one_category() {
    assert!(is_all("All"));
    assert!(!is_all("all"));
    assert!(!is_all("Al"));
    assert!(!is_all("Alll"));
    assert!(!is_all(""));
}

#[test]
fn view_filters_then_sorts() {
    let mut c = library();
    assert_eq!(
        titles(&c.view(&key("", "All", SortKey::YearNewest))),
        vec!["Heat", "alien", "Vertigo", "The Big Heat"]
    );
    assert_eq!(
        titles(&c.view(&key("", "Crime", SortKey::YearOldest))),
        vec!["The Big Heat", "Heat"]
    );
    assert_eq!(
        titles(&c.view(&key("heat", "Horror", SortKey::RatingHigh))),
        vec!["Heat", "The Big Heat"]
    );
    assert_eq!(
        titles(&c.view(&key("", "", SortKey::RatingHigh))),
        vec!["alien", "Heat", "Vertigo", "The Big Heat"]
    );
    assert_eq!(ids(&c.view(&key("", "All", SortKey::AddedNewest))), vec![4, 3, 2, 1]);
}

#[test]
fn view_is_cached_until_the_catalog_changes() {
    let mut c = library();
    let k = key("", "All", SortKey::Title);
    assert!(c.cached_view(&k).is_none());
    let first = c.view(&k);
    assert_eq!(titles(&c.cached_view(&k).unwrap()), titles(&first));
    assert_eq!(titles(&c.view(&k)), titles(&first));
    assert!(c.cached_view(&key("", "All", SortKey::YearNewest)).is_none());
}

#[test]
fn add_discards_the_cached_views() {
    let mut c = library();
    let k = key("", "All", SortKey::Title);
    c.view(&k);
    c.add(movie("Zodiac", ""));
    assert!(c.cached_view(&k).is_none());
    assert_eq!(c.view(&k).len(), 5);
}

#[test]
fn delete_discards_the_cached_views() {
    let mut c = library();
    let k = key("heat", "", SortKey::Title);
    c.view(&k);
    c.delete(3);
    assert!(c.cached_view(&k).is_none());
    assert_eq!(titles(&c.view(&k)), vec!["The Big Heat"]);
    c.delete(42);
    assert!(c.cached_view(&k).is_none());
}

#[test]
fn update_discards_the_cached_views() {
    let mut c = library();
    let k = key("", "Drama", SortKey::Title);
    c.view(&k);
    c.update(3, MovieChange::Replace(movie_of("Heat", 1995, &["Crime"], 8300)));
    assert!(c.cached_view(&k).is_none());
    assert!(c.view(&k).is_empty());
}

#[test]
fn paths_are_snapshotted_in_the_order_of_identities() {
    let mut c = Catalog::new();
    c.add(movie("A", "/m/a.mkv"));
    c.add(movie("B", ""));
    c.add(movie("C", "/m/c.mkv"));
    assert_eq!(c.existing_paths(), vec!["/m/a.mkv", "", "/m/c.mkv"]);
    assert!(c.has_path("/m/a.mkv"));
    assert!(c.has_path(""));
    assert!(!c.has_path("/m/b.mkv"));
    assert!(!c.has_path("/M/A.MKV"));
}

#[test]
fn unsaved_mark_follows_the_changes() {
    let mut c = Catalog::new();
    c.add(movie("A", ""));
    assert!(c.is_unsaved());
    c.mark_saved();
    assert!(!c.is_unsaved());
    c.delete(5);
    assert!(!c.is_unsaved());
    c.view(&key("", "", SortKey::Title));
    assert!(!c.is_unsaved());
    c.delete(1);
    assert!(c.is_unsaved());
    c.mark_saved();
    c.store_cached_search("a", Vec::new(), 1);
    assert!(c.is_unsaved());
}

#[test]
fn cached_searches_expire_after_thirty_days() {
    let t0: u64 = 1_700_000_000;
    let mut c = Catalog::new();
    assert!(c.lookup_cached_search("Vertigo", t0).is_none());
    let found =
        SearchResult { tmdb_id: 426, title: "Vertigo".to_string(), year: "1958".to_string(), rating: 8200 };
    c.store_cached_search(" Vertigo", vec![found], t0);
    assert_eq!(c.lookup_cached_search("vertigo ", t0 + 5).unwrap()[0].tmdb_id, 426);
    assert!(c.lookup_cached_search("vertigo", t0 + SEARCH_TTL_SECONDS).is_some());
    assert!(c.lookup_cached_search("vertigo", t0 + SEARCH_TTL_SECONDS + 1).is_none());
    c.store_cached_search("vertigo", Vec::new(), t0 + SEARCH_TTL_SECONDS + 1);
    assert_eq!(c.lookup_cached_search("vertigo", t0 + SEARCH_TTL_SECONDS + 2).unwrap().len(), 0);
    assert_eq!(c.cached_searches().len(), 1);
}

#[test]
fn from_legacy_counts_on_from_the_highest_identity() {
    let c = Catalog::from_legacy(vec![stored(3, "C"), stored(7, "G"), stored(5, "E")]);
    assert_eq!(c.next_id(), 8);
    assert_eq!(ids(&c.snapshot()), vec![3, 5, 7]);
    assert!(c.is_unsaved());
    let empty = Catalog::from_legacy(Vec::new());
    assert_eq!(empty.next_id(), 1);
    assert_eq!(empty.len(), 0);
}

#[test]
fn from_legacy_lets_the_later_of_two_records_count() {
    let c = Catalog::from_legacy(vec![stored(2, "first"), stored(1, "A"), stored(2, "second")]);
    assert_eq!(c.len(), 2);
    assert_eq!(c.get(2).unwrap().title, "second");
    assert_eq!(c.next_id(), 3);
}

#[test]
fn from_legacy_takes_the_highest_identity_there_is() {
    let mut c = Catalog::from_legacy(vec![stored(u32::MAX, "last")]);
    assert_eq!(c.next_id(), 4_294_967_296);
    assert!(!c.has_room());
    assert!(c.delete(u32::MAX));
    assert!(!c.has_room());
}

#[test]
fn load_fills_an_empty_genre_list() {
    let mut m = stored(4, "A");
    m.genre = Vec::new();
    let mut c = Catalog::new();
    c.load(m);
    assert_eq!(c.get(4).unwrap().genre, vec!["Unknown"]);
    assert_eq!(c.next_id(), 5);
    c.load(stored(2, "B"));
    assert_eq!(c.next_id(), 5);
    assert_eq!(ids(&c.snapshot()), vec![2, 4]);
}

#[test]
fn restore_keeps_the_counter_beyond_every_identity() {
    let c = Catalog::restore(vec![stored(1, "A"), stored(2, "B")], 10, Vec::new());
    assert_eq!(c.next_id(), 10);
    assert!(!c.is_unsaved());
    let c = Catalog::restore(vec![stored(1, "A"), stored(6, "B")], 3, Vec::new());
    assert_eq!(c.next_id(), 7);
    let c = Catalog::restore(Vec::new(), 0, Vec::new());
    assert_eq!(c.next_id(), 1);
    let c = Catalog::restore(Vec::new(), u64::MAX, Vec::new());
    assert_eq!(c.next_id(), 4_294_967_296);
}

#[test]
fn restore_brings_back_the_search_cache() {
    let entry = CachedSearch {
        query: "alien".to_string(),
        results: vec![SearchResult {
            tmdb_id: 348,
            title: "Alien".to_string(),
            year: "1979".to_string(),
            rating: 8100,
        }],
        stored_at: 100,
    };
    let c = Catalog::restore(vec![stored(1, "A")], 2, vec![entry]);
    assert_eq!(c.lookup_cached_search("Alien", 101).unwrap()[0].tmdb_id, 348);
    assert_eq!(c.cached_searches()[0].stored_at, 100);
}

#[test]
fn migrate_poster_paths_moves_what_lies_under_the_old_directory() {
    let mut a = movie("A", "");
    a.poster_path = "posters/poster_1.jpg".to_string();
    let mut b = movie("B", "");
    b.poster_path = "elsewhere/poster_2.jpg".to_string();
    let mut c = Catalog::new();
    c.add(a);
    c.add(b);
    c.add(movie("C", ""));
    c.mark_saved();
    let k = key("", "", SortKey::Title);
    c.view(&k);
    assert!(c.migrate_poster_paths("posters/", "/home/u/.cache/mmdb/posters/"));
    assert_eq!(c.get(1).unwrap().poster_path, "/home/u/.cache/mmdb/posters/poster_1.jpg");
    assert_eq!(c.get(2).unwrap().poster_path, "elsewhere/poster_2.jpg");
    assert_eq!(c.get(3).unwrap().poster_path, "");
    assert!(c.is_unsaved());
    assert!(c.cached_view(&k).is_none());
    c.mark_saved();
    assert!(!c.migrate_poster_paths("posters/", "/new/"));
    assert!(!c.is_unsaved());
    assert!(!c.migrate_poster_paths("", "/new/"));
    assert_eq!(c.get(2).unwrap().poster_path, "elsewhere/poster_2.jpg");
}
