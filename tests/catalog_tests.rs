use cleansys::menu_input::{parse_number, parse_selections, trim_text};
use cleansys::cleaned_item::{name_or_path, CleanedItem, CleanedItemType, CleaningResult};
use cleansys::events::Config;
use cleansys::models::{CleanerCategory, CleanerItem, CleanerStatus, Status};
use cleansys::security::command_needs_root;
use cleansys::services::{
    calculate_category_total, calculate_total_cleaned, deselect_all_in_category, execute_category,
    execute_cleaner, select_all_in_category,
};
use cleansys::{system_cleaners, user_cleaners};

#[test]
fn catalogs_list_names_and_descriptions() {
    let users = user_cleaners::list_cleaners();
    assert_eq!(users.len(), 6);
    assert_eq!(users[0], "Browser Caches: Clean Firefox and Chrome/Chromium caches");
    assert_eq!(users[5], "Trash: Empty trash folder");
    let systems = system_cleaners::get_cleaners();
    assert_eq!(systems.len(), 6);
    assert_eq!(systems[1].name, "System Logs");
    assert_eq!(systems[5].description, "Remove system crash reports and core dumps");
    assert_eq!(system_cleaners::list_cleaners()[4], "Old Kernels: Remove old unused kernels");
}

#[test]
fn root_commands() {
    assert!(command_needs_root("apt-get"));
    assert!(command_needs_root("systemctl"));
    assert!(!command_needs_root("ls"));
    assert!(!command_needs_root("apt "));
}

fn category() -> CleanerCategory {
    let mut items = vec![
        CleanerItem::new("a".to_string(), "da".to_string(), false),
        CleanerItem::new("b".to_string(), "db".to_string(), true),
        CleanerItem::new("c".to_string(), "dc".to_string(), false),
    ];
    items[0].selected = true;
    items[2].selected = true;
    CleanerCategory { name: "Cat".to_string(), description: "d".to_string(), items }
}

#[test]
fn executing_a_cleaner_records_its_outcome() {
    let mut item = CleanerItem::new("a".to_string(), "da".to_string(), false);
    let m = execute_cleaner(&mut item, Ok(42));
    assert!(!m.is_error);
    assert_eq!(m.message, "Completed successfully, freed 42 bytes");
    assert_eq!(m.bytes_cleaned, Some(42));
    assert_eq!(item.bytes_cleaned, 42);
    assert_eq!(item.status.as_ref().map(|s| s.kind()), Some(CleanerStatus::Success));
    let m = execute_cleaner(&mut item, Err("boom".to_string()));
    assert!(m.is_error);
    assert_eq!(m.message, "Error: boom");
    assert_eq!(m.bytes_cleaned, None);
    assert!(matches!(item.status, Some(Status::Error(_))));
}

#[test]
fn executing_a_category_runs_selected_only() {
    let mut cat = category();
    let msgs = execute_category(&mut cat, vec![Ok(100), Ok(5), Err("x: y".to_string())]);
    assert_eq!(msgs.len(), 2);
    assert_eq!(msgs[0].cleaner_name, "a");
    assert_eq!(msgs[1].message, "Error: x: y");
    assert!(cat.items[1].status.is_none());
    assert_eq!(calculate_category_total(&cat), 100);
    let other = category();
    assert_eq!(calculate_total_cleaned(&[cat, other]), 100);
}

#[test]
fn select_and_deselect_whole_category() {
    let mut cat = category();
    select_all_in_category(&mut cat);
    assert!(cat.items.iter().all(|x| x.selected));
    deselect_all_in_category(&mut cat);
    assert!(cat.items.iter().all(|x| !x.selected));
}

#[test]
fn cleaned_items_and_tallies() {
    let f = CleanedItem::file("/tmp/a/b.txt".to_string(), 10);
    assert_eq!(f.item_type, CleanedItemType::File);
    assert_eq!(f.filename(), "b.txt");
    assert_eq!(f.path_str(), "/tmp/a/b.txt");
    let d = CleanedItem::directory("/var/cache/".to_string(), 20);
    assert_eq!(d.filename(), "cache");
    let up = CleanedItem::new("/tmp/..".to_string(), 0, CleanedItemType::SymLink);
    assert_eq!(up.filename(), "/tmp/..");
    assert_eq!(name_or_path(None, &"/x".to_string()), "/x");

    let mut r = CleaningResult::new();
    r.add_item(f);
    r.add_items(vec![d]);
    assert_eq!(r.total_bytes, 30);
    assert_eq!(r.item_count(), 2);
    let mut other = CleaningResult::default();
    other.add_item(CleanedItem::file("/z".to_string(), 5));
    r.merge(other);
    assert_eq!(r.total_bytes, 35);
    assert_eq!(r.items[2].path, "/z");
}

#[test]
fn default_tick_rate() {
    assert_eq!(Config::default().tick_rate_ms, 250);
}

#[test]
fn menu_answers_select_ids() {
    let flags = vec![false, false, true, true];
    assert_eq!(parse_selections(" 0 ", &flags, false), vec![1, 2]);
    assert_eq!(parse_selections("0", &flags, true), vec![1, 2, 3, 4]);
    assert_eq!(parse_selections("1, 3,x,9,0, +4,2", &flags, false), vec![1, 3, 4, 2]);
    assert_eq!(parse_selections("", &flags, false), Vec::<usize>::new());
    assert_eq!(parse_number("+12"), Some(12));
    assert_eq!(parse_number("+"), None);
    assert_eq!(parse_number("99999999999999999999999"), None);
    assert_eq!(trim_text("  a b \n"), "a b");
}
