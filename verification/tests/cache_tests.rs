use moviedb::movie::Movie;
use moviedb::search_cache::{
    normalize_query, CachedSearch, SearchCache, SearchResult, SEARCH_TTL_SECONDS,
};
use moviedb::sorting::SortKey;
use moviedb::view_cache::{ViewCache, ViewKey};

fn cache_result(id: u32, title: &str, year: &str) -> SearchResult {
    SearchResult { tmdb_id: id, title: title.to_string(), year: year.to_string(), rating: 7500 }
}

fn cache_key(text: &str, category: &str, sort: SortKey) -> ViewKey {
    ViewKey { text: text.to_string(), category: category.to_string(), sort }
}

#[test]
fn ttl_is_thirty_days() {
    assert_eq!(SEARCH_TTL_SECONDS, 30 * 24 * 60 * 60);
}

#[test]
fn normalize_query_trims_and_lowers() {
    assert_eq!(normalize_query("  The MATRIX \t"), "the matrix");
    assert_eq!(normalize_query("alien"), "alien");
    assert_eq!(normalize_query("   "), "");
}

#[test]
fn lookup_finds_what_was_stored_until_it_expires() {
    let t0: u64 = 1_700_000_000;
    let mut c = SearchCache::new();
    assert!(c.lookup("alien", t0).is_none());
    c.store("Alien", vec![cache_result(348, "Alien", "1979")], t0);
    let hit = c.lookup("alien", t0).unwrap();
    assert_eq!(hit.len(), 1);
    assert_eq!(hit[0].tmdb_id, 348);
    assert_eq!(hit[0].title, "Alien");
    assert_eq!(hit[0].year, "1979");
    assert_eq!(hit[0].rating, 7500);
    assert!(c.lookup(" ALIEN ", t0 + SEARCH_TTL_SECONDS).is_some());
    assert!(c.lookup("alien", t0 + SEARCH_TTL_SECONDS + 1).is_none());
    assert!(c.lookup("aliens", t0).is_none());
}

#[test]
fn lookup_counts_a_capture_from_the_future_as_fresh() {
    let mut c = SearchCache::new();
    c.store("heat", vec![], 5000);
    assert_eq!(c.lookup("heat", 10).map(|v| v.len()), Some(0));
}

#[test]
fn store_overwrites_an_expired_entry() {
    let t0: u64 = 1_000;
    let later = t0 + SEARCH_TTL_SECONDS + 500;
    let mut c = SearchCache::new();
    c.store("alien", vec![cache_result(1, "Old", "1979")], t0);
    c.store("heat", vec![cache_result(9, "Heat", "1995")], t0);
    assert!(c.lookup("alien", later).is_none());
    c.store("ALIEN", vec![cache_result(2, "New", "1986"), cache_result(3, "Newer", "1992")], later);
    let hit = c.lookup("alien", later).unwrap();
    assert_eq!(hit.len(), 2);
    assert_eq!(hit[0].title, "New");
    assert_eq!(hit[1].title, "Newer");
    assert_eq!(c.entries().len(), 2);
    assert!(c.lookup("heat", later).is_none());
    assert!(c.lookup("heat", t0 + 1).is_some());
}

#[test]
fn entries_and_from_entries_round_trip() {
    let mut c = SearchCache::new();
    c.store("alien", vec![cache_result(1, "Alien", "1979")], 10);
    c.store("heat", vec![], 20);
    let listed = c.entries();
    assert_eq!(listed.len(), 2);
    assert_eq!(listed[0].query, "alien");
    assert_eq!(listed[0].stored_at, 10);
    assert_eq!(listed[1].query, "heat");
    let again = SearchCache::from_entries(listed);
    assert_eq!(again.lookup("alien", 11).unwrap()[0].title, "Alien");
    assert_eq!(again.lookup("heat", 21).unwrap().len(), 0);
}

#[test]
fn from_entries_lets_the_later_of_two_count() {
    let c = SearchCache::from_entries(vec![
        CachedSearch { query: "alien".to_string(), results: vec![], stored_at: 1 },
        CachedSearch {
            query: "alien".to_string(),
            results: vec![cache_result(5, "Alien", "1979")],
            stored_at: 2,
        },
    ]);
    assert_eq!(c.entries().len(), 1);
    assert_eq!(c.lookup("alien", 2).unwrap().len(), 1);
}

#[test]
fn put_takes_the_query_as_it_is() {
    let mut c = SearchCache::new();
    c.put(CachedSearch { query: "Alien".to_string(), results: vec![], stored_at: 1 });
    assert!(c.lookup("alien", 1).is_none());
    assert_eq!(c.entries()[0].query, "Alien");
}

#[test]
fn view_cache_gets_what_was_put() {
    let mut c = ViewCache::new();
    let k = cache_key("", "All", SortKey::Title);
    assert!(c.get(&k).is_none());
    c.put(k.clone(), vec![Movie::placeholder("A".to_string(), "/a".to_string())]);
    let v = c.get(&k).unwrap();
    assert_eq!(v.len(), 1);
    assert_eq!(v[0].title, "A");
    assert!(c.get(&cache_key("", "All", SortKey::YearNewest)).is_none());
    assert!(c.get(&cache_key("a", "All", SortKey::Title)).is_none());
    assert!(c.get(&cache_key("", "Drama", SortKey::Title)).is_none());
}

#[test]
fn view_cache_put_replaces_and_clear_discards_all() {
    let mut c = ViewCache::new();
    let k1 = cache_key("", "All", SortKey::Title);
    let k2 = cache_key("x", "", SortKey::RatingHigh);
    c.put(k1.clone(), vec![]);
    c.put(k2.clone(), vec![Movie::placeholder("B".to_string(), String::new())]);
    c.put(k1.clone(), vec![Movie::placeholder("C".to_string(), String::new())]);
    assert_eq!(c.get(&k1).unwrap()[0].title, "C");
    assert_eq!(c.get(&k2).unwrap()[0].title, "B");
    c.clear();
    assert!(c.get(&k1).is_none());
    assert!(c.get(&k2).is_none());
}

#[test]
fn view_keys_are_the_same_when_all_three_parts_are() {
    let k = cache_key("a", "b", SortKey::Title);
    assert!(k.same(&cache_key("a", "b", SortKey::Title)));
    assert!(!k.same(&cache_key("A", "b", SortKey::Title)));
    assert!(!k.same(&cache_key("a", "c", SortKey::Title)));
    assert!(!k.same(&cache_key("a", "b", SortKey::AddedOldest)));
}
