use moviedb::scanner::{recognize, video_extension};

#[test]
fn video_extension_knows_the_eight_extensions() {
    for ext in ["mp4", "mkv", "avi", "mov", "wmv", "flv", "webm", "m4v"] {
        assert!(video_extension(ext));
    }
    assert!(video_extension("MKV"));
    assert!(video_extension("Mp4"));
    assert!(!video_extension("txt"));
    assert!(!video_extension("mp"));
    assert!(!video_extension("mp44"));
    assert!(!video_extension(""));
}

#[test]
fn recognize_makes_an_entry_of_a_video_file() {
    let e = recognize("The.Matrix_1999.MKV", "/movies/The.Matrix_1999.MKV").unwrap();
    assert_eq!(e.title, "The Matrix 1999");
    assert_eq!(e.path, "/movies/The.Matrix_1999.MKV");
    let e = recognize("a.b.mp4", "a.b.mp4").unwrap();
    assert_eq!(e.title, "a b");
    let e = recognize(".hidden.avi", "/x/.hidden.avi").unwrap();
    assert_eq!(e.title, "hidden");
}

#[test]
fn recognize_passes_over_other_files() {
    assert!(recognize("notes.txt", "/movies/notes.txt").is_none());
    assert!(recognize("movie", "/movies/movie").is_none());
    assert!(recognize(".mkv", "/movies/.mkv").is_none());
    assert!(recognize("movie.", "/movies/movie.").is_none());
    assert!(recognize("", "/movies/").is_none());
    assert!(recognize("movie.mkv.part", "/movies/movie.mkv.part").is_none());
}
