use moviedb::catalog::Catalog;
use moviedb::consumer::{consume, Handled};
use moviedb::fetch::Fetched;
use moviedb::movie::Movie;
use moviedb::pipeline::{dedup, is_known, scanning_status, Message, Phase, Pipeline, Step, BATCH_SIZE};
use moviedb::scanner::ScanEntry;

fn entry(n: usize) -> ScanEntry {
    ScanEntry { title: format!("Movie {}", n), path: format!("/movies/movie.{}.mkv", n) }
}

fn entries(n: usize) -> Vec<ScanEntry> {
    (0..n).map(entry).collect()
}

fn fetched_for(e: &ScanEntry, found: bool) -> Fetched {
    Fetched { movie: Movie::placeholder(e.title.clone(), e.path.clone()), found }
}

fn status_texts(step: &Step) -> Vec<String> {
    step.messages
        .iter()
        .map(|m| match m {
            Message::Status(t) => t.clone(),
            Message::Add(t, _) => format!("ADD {}", t),
            Message::Complete => "COMPLETE".to_string(),
        })
        .collect()
}

fn run_scan(catalog: &mut Catalog, found: Vec<ScanEntry>) -> (usize, Vec<String>) {
    let mut p = Pipeline::new(catalog.existing_paths());
    let first = p.scanned(found);
    let mut log = status_texts(&first);
    let mut added = 0;
    let mut inbox: Vec<Message> = first.messages;
    let mut batch = first.dispatch;
    loop {
        let mut next: Vec<ScanEntry> = Vec::new();
        for e in batch.iter().rev() {
            let step = p.fetched(&e.title, fetched_for(e, true));
            log.extend(status_texts(&step));
            inbox.extend(step.messages);
            next.extend(step.dispatch);
        }
        if next.is_empty() {
            break;
        }
        batch = next;
    }
    let mut finished = false;
    for m in inbox {
        assert!(!finished);
        match consume(catalog, m) {
            Handled::Added(_, _) => added += 1,
            Handled::Finished => finished = true,
            _ => {},
        }
    }
    assert!(finished);
    (added, log)
}

#[test]
fn batch_size_is_ten() {
    assert_eq!(BATCH_SIZE, 10);
}

#[test]
fn dedup_drops_what_the_catalog_holds() {
    let known = vec!["/movies/movie.1.mkv".to_string(), "/movies/movie.3.mkv".to_string()];
    let fresh = dedup(entries(5), &known);
    let paths: Vec<&str> = fresh.iter().map(|e| e.path.as_str()).collect();
    assert_eq!(paths, vec!["/movies/movie.0.mkv", "/movies/movie.2.mkv", "/movies/movie.4.mkv"]);
    assert_eq!(fresh[1].title, "Movie 2");
    assert_eq!(dedup(entries(3), &Vec::new()).len(), 3);
    assert!(dedup(Vec::new(), &known).is_empty());
    assert!(is_known(&known, &"/movies/movie.3.mkv".to_string()));
    assert!(!is_known(&known, &"/movies/movie.2.mkv".to_string()));
}

#[test]
fn dedup_keeps_a_path_that_the_scan_holds_twice() {
    let twice = vec![entry(1), entry(1)];
    assert_eq!(dedup(twice, &Vec::new()).len(), 2);
}

#[test]
fn scanning_status_names_the_directory() {
    assert_eq!(scanning_status("/movies"), "Scanning: /movies (including subdirectories)...");
}

#[test]
fn pipeline_with_nothing_new_completes_at_once() {
    let known: Vec<String> = entries(3).into_iter().map(|e| e.path).collect();
    let mut p = Pipeline::new(known);
    assert_eq!(p.phase(), Phase::Scanning);
    assert!(!p.is_complete());
    let first = p.scanned(entries(3));
    assert!(first.dispatch.is_empty());
    assert_eq!(
        status_texts(&first),
        vec!["No new movies found - all files already in database", "COMPLETE"]
    );
    assert!(p.is_complete());
    assert_eq!(p.phase(), Phase::Complete);
    assert_eq!(p.in_flight(), 0);
    let mut p = Pipeline::new(Vec::new());
    let first = p.scanned(Vec::new());
    assert!(p.is_complete());
    assert_eq!(first.messages.len(), 2);
}

#[test]
fn pipeline_forms_three_batches_of_twenty_five() {
    let all = entries(25);
    let mut p = Pipeline::new(Vec::new());
    let first = p.scanned(entries(25));
    assert_eq!(first.dispatch.len(), 10);
    assert_eq!(first.messages.len(), 11);
    assert_eq!(
        status_texts(&first)[0],
        "Found 25 new video files (skipped 0 existing), fetching metadata in parallel..."
    );
    assert_eq!(status_texts(&first)[1], "Fetching: Movie 0");
    assert_eq!(status_texts(&first)[10], "Fetching: Movie 9");
    assert_eq!(p.phase(), Phase::Fetching { batch: 1, of: 3 });
    assert_eq!(p.in_flight(), 10);
    let mut sizes = vec![first.dispatch.len()];
    let mut completions = 0;
    for (i, e) in all.iter().enumerate() {
        let step = p.fetched(&e.title, fetched_for(e, true));
        assert!(matches!(step.messages[0], Message::Add(_, _)));
        assert!(p.in_flight() <= BATCH_SIZE);
        if i == 9 || i == 19 {
            assert_eq!(step.dispatch[0].path, all[i + 1].path);
            sizes.push(step.dispatch.len());
            assert_eq!(step.messages.len(), 1 + step.dispatch.len());
        } else {
            assert!(step.dispatch.is_empty());
        }
        if matches!(step.messages.last(), Some(Message::Complete)) {
            completions += 1;
            assert_eq!(i, 24);
            assert_eq!(step.messages.len(), 2);
        }
        if i == 12 {
            assert_eq!(p.phase(), Phase::Fetching { batch: 2, of: 3 });
        }
        if i == 20 {
            assert_eq!(p.phase(), Phase::Fetching { batch: 3, of: 3 });
            assert_eq!(p.in_flight(), 4);
        }
    }
    assert_eq!(sizes, vec![10, 10, 5]);
    assert_eq!(completions, 1);
    assert!(p.is_complete());
    assert_eq!(p.phase(), Phase::Complete);
}

#[test]
fn pipeline_begins_no_batch_before_the_one_under_way_has_ended() {
    let all = entries(12);
    let mut p = Pipeline::new(Vec::new());
    let first = p.scanned(entries(12));
    assert_eq!(first.dispatch.len(), 10);
    for e in all.iter().take(9) {
        let step = p.fetched(&e.title, fetched_for(e, false));
        assert!(step.dispatch.is_empty());
        assert_eq!(step.messages.len(), 1);
    }
    assert_eq!(p.in_flight(), 1);
    let step = p.fetched(&all[9].title, fetched_for(&all[9], true));
    assert_eq!(step.dispatch.len(), 2);
    assert_eq!(status_texts(&step)[1], "Fetching: Movie 10");
    assert_eq!(p.in_flight(), 2);
}

#[test]
fn pipeline_tells_found_from_added_without_metadata() {
    let mut p = Pipeline::new(Vec::new());
    p.scanned(entries(2));
    let step = p.fetched("Movie 0", fetched_for(&entry(0), true));
    assert_eq!(status_texts(&step), vec!["ADD \u{2713} Found: Movie 0"]);
    let step = p.fetched("Movie 1", fetched_for(&entry(1), false));
    assert_eq!(
        status_texts(&step),
        vec!["ADD \u{26a0} Added without metadata: Movie 1", "COMPLETE"]
    );
}

#[test]
fn pipeline_counts_what_it_skipped() {
    let known = vec![entry(0).path, entry(2).path];
    let first = Pipeline::new(known).scanned(entries(4));
    assert_eq!(
        status_texts(&first)[0],
        "Found 2 new video files (skipped 2 existing), fetching metadata in parallel..."
    );
    assert_eq!(first.dispatch.len(), 2);
    assert_eq!(first.dispatch[0].path, entry(1).path);
}

#[test]
fn pipeline_ignores_a_result_that_no_fetch_accounts_for() {
    let mut p = Pipeline::new(Vec::new());
    let early = p.fetched("Movie 0", fetched_for(&entry(0), true));
    assert!(early.messages.is_empty());
    assert_eq!(p.phase(), Phase::Scanning);
    p.scanned(entries(1));
    let late = p.scanned(entries(5));
    assert!(late.messages.is_empty());
    assert!(late.dispatch.is_empty());
    let step = p.fetched("Movie 0", fetched_for(&entry(0), true));
    assert_eq!(step.messages.len(), 2);
    let step = p.fetched("Movie 0", fetched_for(&entry(0), true));
    assert!(step.messages.is_empty());
    assert!(step.dispatch.is_empty());
    assert!(p.is_complete());
}

#[test]
fn complete_comes_after_every_add() {
    let mut c = Catalog::new();
    let (added, log) = run_scan(&mut c, entries(23));
    assert_eq!(added, 23);
    assert_eq!(log.iter().filter(|t| t.starts_with("ADD ")).count(), 23);
    assert_eq!(log.iter().filter(|t| *t == "COMPLETE").count(), 1);
    assert_eq!(log.last().unwrap(), "COMPLETE");
}

#[test]
fn second_scan_of_the_same_files_adds_nothing() {
    let mut c = Catalog::new();
    c.add(Movie::placeholder("Known".to_string(), entry(3).path));
    let (first, _) = run_scan(&mut c, entries(14));
    assert_eq!(first, 13);
    assert_eq!(c.len(), 14);
    let (second, log) = run_scan(&mut c, entries(14));
    assert_eq!(second, 0);
    assert_eq!(c.len(), 14);
    assert_eq!(log, vec!["No new movies found - all files already in database", "COMPLETE"]);
}

#[test]
fn consume_checks_the_path_against_the_live_catalog() {
    let mut c = Catalog::new();
    let m = Movie::placeholder("A".to_string(), "/m/a.mkv".to_string());
    match consume(&mut c, Message::Add("one".to_string(), m.clone())) {
        Handled::Added(text, id) => {
            assert_eq!(text, "one");
            assert_eq!(id, 1);
        },
        _ => panic!("not added"),
    }
    match consume(&mut c, Message::Add("two".to_string(), m)) {
        Handled::Known(text) => assert_eq!(text, "two"),
        _ => panic!("added twice"),
    }
    assert_eq!(c.len(), 1);
    assert!(matches!(consume(&mut c, Message::Status("s".to_string())), Handled::Shown(t) if t == "s"));
    assert!(matches!(consume(&mut c, Message::Complete), Handled::Finished));
    assert_eq!(c.len(), 1);
}
