use cleansys::store::{CleanedItemType, DetailedCleanedItem, ResultStore, SortMode, CAPACITY};
use cleansys::store::{filter_matches_folded, search_matches_folded};

fn item(path: &str, size: u64, category: &str, name: &str, ts: u64) -> DetailedCleanedItem {
    DetailedCleanedItem::new(
        path.to_string(),
        size,
        category.to_string(),
        name.to_string(),
        ts,
        CleanedItemType::File,
    )
}

#[test]
fn store_keeps_the_newest_thousand() {
    let mut store = ResultStore::new();
    for k in 0..1001u64 {
        store.insert(item(&format!("/p/{}", k), k, "c", "n", k));
        assert!(store.len() <= CAPACITY);
    }
    assert_eq!(store.len(), 1000);
    assert_eq!(store.get(0).path, "/p/1");
    assert_eq!(store.get(999).path, "/p/1000");
    let all = store.query("", "", SortMode::Status);
    assert!(all.iter().all(|x| x.path != "/p/0"));
    assert!(all.iter().any(|x| x.path == "/p/1000"));
}

fn sample_store() -> ResultStore {
    let mut store = ResultStore::new();
    store.insert(item("/b", 10, "Trash", "trash", 1));
    store.insert(item("/a", 30, "System Logs", "logs", 2));
    store.insert(item("/c", 20, "Browser Caches", "Firefox", 3));
    store.insert(item("/d", 30, "Trash", "trash", 4));
    store
}

fn paths(v: &[DetailedCleanedItem]) -> Vec<&str> {
    v.iter().map(|x| x.path.as_str()).collect()
}

#[test]
fn size_order_is_non_increasing_and_stable() {
    let r = sample_store().query("", "", SortMode::Size);
    assert_eq!(paths(&r), vec!["/a", "/d", "/c", "/b"]);
    for w in r.windows(2) {
        assert!(w[0].size >= w[1].size);
    }
}

#[test]
fn other_orders() {
    let s = sample_store();
    assert_eq!(paths(&s.query("", "", SortMode::Name)), vec!["/a", "/b", "/c", "/d"]);
    assert_eq!(paths(&s.query("", "", SortMode::Status)), vec!["/d", "/c", "/a", "/b"]);
    assert_eq!(paths(&s.query("", "", SortMode::Category)), vec!["/c", "/a", "/b", "/d"]);
}

#[test]
fn search_is_case_insensitive_and_beats_filter() {
    let s = sample_store();
    assert_eq!(paths(&s.query("FIREFOX", "trash", SortMode::Name)), vec!["/c"]);
    assert_eq!(paths(&s.query("", "TRASH", SortMode::Name)), vec!["/b", "/d"]);
    assert_eq!(paths(&s.query("system", "", SortMode::Name)), vec!["/a"]);
    assert!(s.query("zzz", "", SortMode::Name).is_empty());
}

#[test]
fn query_leaves_store_alone() {
    let s = sample_store();
    let _ = s.query("a", "", SortMode::Size);
    assert_eq!(s.len(), 4);
    assert_eq!(s.get(0).path, "/b");
}

#[test]
fn folded_matching() {
    assert!(search_matches_folded("fox", "/a", "b", "firefox"));
    assert!(!search_matches_folded("fox", "/a", "b", "c"));
    assert!(filter_matches_folded("log", "system logs"));
    assert!(!filter_matches_folded("LOG", "system logs"));
}
