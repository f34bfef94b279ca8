use cleansys::extract::{extract_items, extract_line, parse_size_token, size_from_captures};
use cleansys::store::CleanedItemType;

fn extract(text: &str, freed: u64) -> Vec<cleansys::store::DetailedCleanedItem> {
    extract_items(text, freed, &"Browser Caches".to_string(), &"firefox".to_string(), 7)
}

#[test]
fn removed_line_with_megabytes() {
    let items = extract("Removed /tmp/foo.tmp (15.5 MB)", 0);
    assert_eq!(items.len(), 1);
    assert_eq!(items[0].path, "/tmp/foo.tmp");
    assert_eq!(items[0].size, 16252928);
    assert_eq!(items[0].item_type, CleanedItemType::File);
    assert_eq!(items[0].category, "Browser Caches");
    assert_eq!(items[0].cleaner_name, "firefox");
    assert_eq!(items[0].timestamp, 7);
}

#[test]
fn fallback_record_when_nothing_matches() {
    let items = extract("nothing to report here\nall good\n", 4096);
    assert_eq!(items.len(), 1);
    assert_eq!(items[0].size, 4096);
    assert_eq!(items[0].path, "firefox (cleaned files)");
    assert_eq!(items[0].item_type, CleanedItemType::Directory);
}

#[test]
fn no_record_when_nothing_freed_and_nothing_matches() {
    assert!(extract("", 0).is_empty());
    assert!(extract("Removed nothing", 0).is_empty());
}

#[test]
fn line_without_size_gets_a_tenth_of_the_run() {
    let items = extract("Cleaning /var/cache/thing", 1000);
    assert_eq!(items.len(), 1);
    assert_eq!(items[0].size, 100);
}

#[test]
fn directories_by_slash_or_word() {
    let items = extract(
        "Removed /home/u/.cache/a/ 2 KB\ncleaned directory /srv/x 10 bytes\nfreed /srv/y.log 1 GB",
        0,
    );
    assert_eq!(items.len(), 3);
    assert_eq!(items[0].path, "/home/u/.cache/a/");
    assert_eq!(items[0].item_type, CleanedItemType::Directory);
    assert_eq!(items[0].size, 2048);
    assert_eq!(items[1].path, "/srv/x");
    assert_eq!(items[1].item_type, CleanedItemType::Directory);
    assert_eq!(items[1].size, 10);
    assert_eq!(items[2].item_type, CleanedItemType::File);
    assert_eq!(items[2].size, 1073741824);
}

#[test]
fn path_stops_at_quote() {
    let r = extract_line(
        "Removed \"/tmp/a b\" (3 KB)",
        0,
        &"c".to_string(),
        &"n".to_string(),
        1,
    )
    .unwrap();
    assert_eq!(r.path, "/tmp/a");
    assert_eq!(r.size, 3072);
}

#[test]
fn lone_slash_is_no_path() {
    let r = extract_line("Removed / 5 KB", 0, &"c".to_string(), &"n".to_string(), 1);
    assert!(r.is_none());
}

#[test]
fn unmarked_lines_are_skipped() {
    let r = extract_line("Deleted /tmp/x 5 KB", 0, &"c".to_string(), &"n".to_string(), 1);
    assert!(r.is_none());
}

#[test]
fn size_tokens_convert_exactly() {
    assert_eq!(parse_size_token("15.5", "MB"), 16252928);
    assert_eq!(parse_size_token("1.5", "KB"), 1536);
    assert_eq!(parse_size_token("0.1", "KB"), 102);
    assert_eq!(parse_size_token("7", "bytes"), 7);
    assert_eq!(parse_size_token("7.9", "bytes"), 7);
    assert_eq!(parse_size_token("3.", "GB"), 3221225472);
    assert_eq!(parse_size_token("99999999999999999999", "GB"), u64::MAX);
    assert_eq!(parse_size_token("1x", "KB"), 0);
}

#[test]
fn size_from_found_token_or_estimate() {
    let found = Some(("2".to_string(), "KB".to_string()));
    assert_eq!(size_from_captures(&found, 500), 2048);
    assert_eq!(size_from_captures(&None, 500), 50);
}
