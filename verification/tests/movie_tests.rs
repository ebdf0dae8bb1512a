use moviedb::movie::{
    clone_cast, clone_movies, clone_strings, clone_watch_log, cut_cast, fill_genre, unknown_text,
    CastMember, Movie, WatchEntry, MAX_CAST, MAX_RATING,
};

fn member(name: &str) -> CastMember {
    CastMember {
        name: name.to_string(),
        character: format!("{} as someone", name),
        profile_path: format!("https://image.tmdb.org/t/p/w185/{}.jpg", name),
    }
}

fn full_movie() -> Movie {
    let mut m = Movie::placeholder("Cape Fear".to_string(), "/m/cf.mkv".to_string());
    m.id = 12;
    m.year = 1962;
    m.director = "J. Lee Thompson".to_string();
    m.genre = vec!["Thriller".to_string(), "Drama".to_string()];
    m.rating = 7345;
    m.runtime = 106;
    m.cast_details = vec![member("a"), member("b")];
    m.poster_url = "https://image.tmdb.org/t/p/w500/cf.jpg".to_string();
    m.poster_path = "posters/poster_11349.jpg".to_string();
    m.tmdb_id = 11349;
    m.imdb_id = "tt0055824".to_string();
    m.watch_log =
        vec![WatchEntry { date: "2024-01-05".to_string(), rating: Some(8000), note: "n".to_string() }];
    m
}

#[test]
fn limits_are_five_cast_entries_and_ten_points() {
    assert_eq!(MAX_CAST, 5);
    assert_eq!(MAX_RATING, 10_000);
}

#[test]
fn placeholder_has_the_stand_in_values() {
    let m = Movie::placeholder("x".to_string(), "/movies/x.mkv".to_string());
    assert_eq!(m.id, 0);
    assert_eq!(m.title, "x");
    assert_eq!(m.year, 0);
    assert_eq!(m.director, "Unknown");
    assert_eq!(m.genre, vec!["Uncategorized"]);
    assert_eq!(m.rating, 0);
    assert_eq!(m.runtime, 0);
    assert_eq!(m.description, "Metadata not found");
    assert!(m.cast_details.is_empty());
    assert_eq!(m.file_path, "/movies/x.mkv");
    assert_eq!(m.poster_url, "");
    assert_eq!(m.poster_path, "");
    assert_eq!(m.tmdb_id, 0);
    assert_eq!(m.imdb_id, "");
    assert!(m.watch_log.is_empty());
}

#[test]
fn normalize_leaves_a_well_formed_record_alone() {
    let m = full_movie().normalize();
    assert_eq!(m.id, 12);
    assert_eq!(m.genre, vec!["Thriller", "Drama"]);
    assert_eq!(m.rating, 7345);
    assert_eq!(m.cast_details.len(), 2);
    assert_eq!(m.watch_log.len(), 1);
    assert_eq!(m.imdb_id, "tt0055824");
}

#[test]
fn normalize_mends_what_is_out_of_bounds() {
    let mut m = full_movie();
    m.genre = Vec::new();
    m.rating = 10_001;
    m.cast_details = (0..6).map(|i| member(&i.to_string())).collect();
    let n = m.normalize();
    assert_eq!(n.genre, vec!["Unknown"]);
    assert_eq!(n.rating, 10_000);
    assert_eq!(n.cast_details.len(), 5);
    assert_eq!(n.cast_details[0].name, "0");
    assert_eq!(n.cast_details[4].name, "4");
    assert_eq!(n.title, "Cape Fear");
}

#[test]
fn fill_genre_and_cut_cast_are_the_two_mendings() {
    assert_eq!(fill_genre(Vec::new()), vec!["Unknown"]);
    assert_eq!(fill_genre(vec!["Drama".to_string()]), vec!["Drama"]);
    assert_eq!(unknown_text(), "Unknown");
    assert_eq!(cut_cast((0..5).map(|i| member(&i.to_string())).collect()).len(), 5);
    assert_eq!(cut_cast((0..9).map(|i| member(&i.to_string())).collect()).len(), 5);
    assert!(cut_cast(Vec::new()).is_empty());
}

#[test]
fn clone_copies_every_field() {
    let m = full_movie();
    let c = m.clone();
    assert_eq!(c.id, m.id);
    assert_eq!(c.title, m.title);
    assert_eq!(c.year, m.year);
    assert_eq!(c.director, m.director);
    assert_eq!(c.genre, m.genre);
    assert_eq!(c.rating, m.rating);
    assert_eq!(c.runtime, m.runtime);
    assert_eq!(c.description, m.description);
    assert_eq!(c.cast_details.len(), 2);
    assert_eq!(c.cast_details[1].name, "b");
    assert_eq!(c.cast_details[1].character, "b as someone");
    assert_eq!(c.cast_details[1].profile_path, m.cast_details[1].profile_path);
    assert_eq!(c.file_path, m.file_path);
    assert_eq!(c.poster_url, m.poster_url);
    assert_eq!(c.poster_path, m.poster_path);
    assert_eq!(c.tmdb_id, m.tmdb_id);
    assert_eq!(c.imdb_id, m.imdb_id);
    assert_eq!(c.watch_log[0].date, "2024-01-05");
    assert_eq!(c.watch_log[0].rating, Some(8000));
    assert_eq!(c.watch_log[0].note, "n");
}

#[test]
fn lists_are_copied_item_by_item() {
    let m = full_movie();
    assert_eq!(clone_strings(&m.genre), m.genre);
    assert_eq!(clone_cast(&m.cast_details)[0].name, "a");
    assert_eq!(clone_watch_log(&m.watch_log).len(), 1);
    let two = clone_movies(&vec![full_movie(), Movie::placeholder("p".to_string(), String::new())]);
    assert_eq!(two.len(), 2);
    assert_eq!(two[0].title, "Cape Fear");
    assert_eq!(two[1].title, "p");
}
