use cleansys::app::{App, GateState, Key, KeyOutcome};
use cleansys::models::{CleanerCategory, CleanerItem, Status};
use cleansys::store::SortMode;

fn two_category_app(is_root: bool) -> App {
    let mut app = App::new(is_root, 100, 40);
    app.categories = vec![
        CleanerCategory {
            name: "User Land Cleaners".to_string(),
            description: "user".to_string(),
            items: vec![CleanerItem::new("Trash".to_string(), "Empty trash".to_string(), false)],
        },
        CleanerCategory {
            name: "System Cleaners".to_string(),
            description: "system".to_string(),
            items: vec![CleanerItem::new("System Logs".to_string(), "Old logs".to_string(), true)],
        },
    ];
    app
}

fn select_both(app: &mut App) {
    app.categories[0].items[0].selected = true;
    app.categories[1].items[0].selected = true;
}

fn error_text(s: &Option<Status>) -> Option<&str> {
    match s {
        Some(Status::Error(m)) => Some(m.as_str()),
        _ => None,
    }
}

#[test]
fn mixed_selection_waits_for_credential() {
    let mut app = two_category_app(false);
    select_both(&mut app);
    app.run_selected(1_000);
    assert_eq!(app.gate_state(), GateState::AwaitingCredential);
    assert_eq!(app.pending_operations, vec![(0, 0), (1, 0)]);
    assert!(app.categories[0].items[0].status.is_none());
    assert!(app.categories[1].items[0].status.is_none());
    assert!(!app.is_running);
}

#[test]
fn cancelled_credential_fails_elevated_entries() {
    let mut app = two_category_app(false);
    select_both(&mut app);
    app.run_selected(1_000);
    app.cancel_password();
    assert_eq!(app.gate_state(), GateState::Idle);
    assert!(app.pending_operations.is_empty());
    let sys = &app.categories[1].items[0];
    assert_eq!(error_text(&sys.status), Some("requires elevated privileges"));
    assert!(!sys.selected);
    let user = &app.categories[0].items[0];
    assert!(user.status.is_none());
    assert!(user.selected);
    let hints = app.result_messages.iter().filter(|m| m.contains("sudo cleansys")).count();
    assert_eq!(hints, 1);
}

#[test]
fn escape_on_prompt_cancels_credential() {
    let mut app = two_category_app(false);
    select_both(&mut app);
    app.run_selected(0);
    assert_eq!(app.handle_key(Key::Char('p'), 0), KeyOutcome::Continue);
    assert_eq!(app.password_prompt.secret(), "p");
    assert_eq!(app.handle_key(Key::Enter, 0), KeyOutcome::VerifyCredential);
    assert_eq!(app.handle_key(Key::Esc, 0), KeyOutcome::Continue);
    assert_eq!(error_text(&app.categories[1].items[0].status), Some("requires elevated privileges"));
}

#[test]
fn accepted_credential_starts_queued_run() {
    let mut app = two_category_app(false);
    select_both(&mut app);
    app.run_selected(0);
    app.handle_password_result(Ok(false), 10);
    assert_eq!(app.gate_state(), GateState::AwaitingCredential);
    assert_eq!(app.pending_operations.len(), 2);
    app.handle_password_result(Ok(true), 20);
    assert_eq!(app.gate_state(), GateState::Authenticated);
    assert!(app.is_running);
    assert!(matches!(app.categories[0].items[0].status, Some(Status::Pending)));
    assert!(matches!(app.categories[1].items[0].status, Some(Status::Pending)));
    assert_eq!(app.operation_start_time, Some(20));
}

#[test]
fn nothing_selected_is_reported() {
    let mut app = two_category_app(false);
    app.run_selected(0);
    assert_eq!(app.result_messages, vec!["No items selected. Please select items to clean.".to_string()]);
    assert!(!app.is_running);
}

#[test]
fn full_run_is_paced_and_finishes_once() {
    let mut app = two_category_app(true);
    select_both(&mut app);
    app.run_selected(0);
    assert!(app.is_running);
    assert!(app.detailed_cleaned_items.len() == 0);

    // Before the first interval nothing starts.
    assert!(app.update_demo_operations(1_000).is_empty());
    assert!(matches!(app.categories[0].items[0].status, Some(Status::Pending)));

    // The first pending entry starts, but is not due yet.
    assert!(app.update_demo_operations(1_500).is_empty());
    assert!(matches!(app.categories[0].items[0].status, Some(Status::Running)));
    assert!(matches!(app.categories[1].items[0].status, Some(Status::Pending)));

    // The second starts; the first is due.
    let due = app.update_demo_operations(3_500);
    assert_eq!(due, vec![(0, 0)]);
    app.complete_operation((0, 0), Ok((2048, "Removed /tmp/x.tmp (2 KB)\n".to_string())), 3_600);
    match &app.categories[0].items[0].status {
        Some(Status::Success(m)) => assert_eq!(m, "Cleaned Trash (2.00 KB)"),
        _ => panic!("expected success"),
    }
    assert_eq!(app.total_bytes_cleaned, 2048);
    assert_eq!(app.detailed_cleaned_items.len(), 1);
    app.update_counters(3_600);
    assert!(app.is_running);

    let due = app.update_demo_operations(5_600);
    assert_eq!(due, vec![(1, 0)]);
    app.complete_operation((1, 0), Err("journalctl: vacuum: permission denied ".to_string()), 5_700);
    assert_eq!(error_text(&app.categories[1].items[0].status), Some("Failed: permission denied"));

    app.update_counters(5_800);
    assert!(!app.is_running);
    assert_eq!(app.operation_end_time, Some(5_800));
    assert_eq!(app.errors_count, 1);
    assert_eq!(app.operation_count, 2);
    assert_eq!(app.selected_cleaners_count, 2);
    let done = app.result_messages.len();
    assert!(app.result_messages[done - 1].starts_with("✅ Cleaning completed! Total space freed: 2.00 KB"));

    app.update_counters(9_000);
    assert!(app.update_demo_operations(9_000).is_empty());
    app.update_counters(9_500);
    assert_eq!(app.result_messages.len(), done);
    assert_eq!(app.get_elapsed_time(99_999), "5s");
}

#[test]
fn unelevated_running_entry_fails_before_it_runs() {
    let mut app = two_category_app(false);
    app.categories[1].items[0].selected = true;
    app.categories[1].items[0].status = Some(Status::Pending);
    app.is_running = true;
    app.demo_operation_timer = Some(0);
    let due = app.update_demo_operations(1_500);
    assert!(due.is_empty());
    assert_eq!(error_text(&app.categories[1].items[0].status), Some("requires elevated privileges"));
    assert!(!app.is_running);
    assert!(app.needs_sudo);
    assert!(app.password_prompt.is_visible());
    assert_eq!(app.gate_state(), GateState::AwaitingCredential);
    assert_eq!(app.pending_operations, vec![(1, 0)]);
    assert_eq!(app.total_bytes_cleaned, 0);
    let hints = app.result_messages.iter().filter(|m| m.contains("sudo cleansys")).count();
    assert_eq!(hints, 1);
}

#[test]
fn finished_run_reports_even_after_old_completion_text() {
    let mut app = two_category_app(true);
    app.categories[0].items[0].selected = true;
    app.categories[0].items[0].status = Some(Status::Success("done".to_string()));
    app.is_running = true;
    app.demo_operation_timer = Some(0);
    app.result_messages.push("Cleaning completed earlier".to_string());
    app.update_counters(10);
    assert!(!app.is_running);
    assert_eq!(app.result_messages.len(), 2);
    assert!(app.result_messages[1].starts_with("✅ Cleaning completed!"));
    app.update_counters(20);
    assert!(app.update_animation(30).is_empty());
    assert_eq!(app.result_messages.len(), 2);
}

#[test]
fn cancel_marks_active_entries() {
    let mut app = two_category_app(true);
    select_both(&mut app);
    app.run_selected(0);
    app.update_demo_operations(1_500);
    assert_eq!(app.handle_key(Key::Char('q'), 1_600), KeyOutcome::Continue);
    assert!(!app.is_running);
    for c in 0..2 {
        let it = &app.categories[c].items[0];
        assert_eq!(error_text(&it.status), Some("Operation cancelled by user"));
        assert!(!it.selected);
    }
    assert_eq!(app.result_messages.last().unwrap(), "Cleaning operations cancelled by user.");
    app.clear_errors();
    assert!(app.categories[0].items[0].status.is_none());
    assert_eq!(app.handle_key(Key::Char('q'), 0), KeyOutcome::Quit);
}

#[test]
fn late_result_of_cancelled_entry_is_ignored() {
    let mut app = two_category_app(true);
    select_both(&mut app);
    app.run_selected(0);
    app.update_demo_operations(1_500);
    app.cancel_sudo_operations();
    app.complete_operation((0, 0), Ok((10, String::new())), 2_000);
    assert_eq!(error_text(&app.categories[0].items[0].status), Some("Operation cancelled by user"));
    assert_eq!(app.total_bytes_cleaned, 0);
}

#[test]
fn cursor_and_selection_keys() {
    let mut app = two_category_app(false);
    app.categories[0].items.push(CleanerItem::new("B".to_string(), "b".to_string(), false));
    app.handle_key(Key::Down, 0);
    assert_eq!(app.selected_item, Some(1));
    app.handle_key(Key::Down, 0);
    assert_eq!(app.selected_item, Some(0));
    app.handle_key(Key::Up, 0);
    assert_eq!(app.selected_item, Some(1));
    app.handle_key(Key::Char(' '), 0);
    assert!(app.categories[0].items[1].selected);
    app.handle_key(Key::Char('a'), 0);
    assert!(app.categories[0].items.iter().all(|x| x.selected));
    app.handle_key(Key::Char('n'), 0);
    assert!(app.categories[0].items.iter().all(|x| !x.selected));
    app.handle_key(Key::Tab, 0);
    assert_eq!(app.category_index, 1);
    app.handle_key(Key::Tab, 0);
    assert_eq!(app.category_index, 0);
    app.handle_key(Key::BackTab, 0);
    assert_eq!(app.category_index, 1);
    app.handle_key(Key::Char('o'), 0);
    assert_eq!(app.sort_mode, SortMode::Name);
}

#[test]
fn elevated_selection_is_flagged() {
    let mut app = two_category_app(false);
    assert!(!app.has_any_selected());
    app.categories[1].items[0].selected = true;
    assert!(app.has_any_selected());
    assert!(app.requires_elevation());
    let root = two_category_app(true);
    assert!(!root.requires_elevation());
}

#[test]
fn distribution_groups_by_cleaner() {
    let mut app = App::new(false, 80, 24);
    assert!(app.compact_mode);
    app.add_sample_cleaned_items(5);
    assert_eq!(app.detailed_cleaned_items.len(), 15);
    let d = app.get_category_distribution();
    let npm = d.iter().find(|r| r.0 == "npm cache").unwrap();
    assert_eq!(npm.1, 2);
    assert_eq!(npm.2, 8_388_608 + 4_194_304);
    let logs = d.iter().find(|r| r.0 == "system logs (System)").unwrap();
    assert_eq!(logs.1, 1);
    assert_eq!(d[0].0, "chrome cache");
    for w in d.windows(2) {
        assert!(w[0].2 >= w[1].2);
    }
    let total: usize = d.iter().map(|r| r.1).sum();
    assert_eq!(total, 15);
}

#[test]
fn filtered_items_follow_search() {
    let mut app = App::new(false, 100, 40);
    app.add_sample_cleaned_items(5);
    app.sort_mode = SortMode::Size;
    app.toggle_search();
    for c in "TRASH".chars() {
        app.add_search_char(c);
    }
    let r = app.get_filtered_detailed_items();
    assert_eq!(r.len(), 2);
    assert_eq!(r[0].size, 3_145_728);
    app.remove_search_char();
    assert_eq!(app.search_query, "TRAS");
    app.clear_search();
    assert_eq!(app.get_filtered_detailed_items().len(), 15);
}

#[test]
fn scrolling_and_clock() {
    let mut app = App::new(false, 100, 40);
    app.scroll_detailed_list_up();
    assert_eq!(app.detailed_list_scroll, Some(44));
    app.scroll_detailed_list_down();
    assert_eq!(app.detailed_list_scroll, Some(44));
    assert_eq!(app.get_elapsed_time(0), "0s");
    app.operation_start_time = Some(1_000);
    assert_eq!(app.get_elapsed_time(186_000), "3m 5s");
    app.update_animation(500);
    assert_eq!(app.animation_frame, 1);
    app.update_animation(550);
    assert_eq!(app.animation_frame, 1);
}

#[test]
fn animation_frames() {
    assert_eq!(Status::Running.get_animation_frame(0), "⠋");
    assert_eq!(Status::Running.get_animation_frame(13), "⠸");
    assert_eq!(Status::Pending.get_animation_frame(3), "•");
    assert_eq!(Status::Success(String::new()).get_animation_frame(3), "✓");
    assert_eq!(Status::Error(String::new()).get_animation_frame(3), "✗");
}
