//! The run-lifecycle state machine: selection, the privilege gate, paced
//! execution and completion. Time is given by the caller in milliseconds.
use vstd::prelude::*;
use crate::catalog::{
    ItemOp, ItemPred, NEEDS_ELEVATION, all_transformed, any_where, apply_to_all, entries_where,
    entry, entry_lt, is_first_where, lemma_list_any, lemma_list_first, lists_where,
    only_entry_changed, update_entry, valid_entry,
};
use crate::chars::{failure_reason, reason_of};
use crate::extract::{extract_items, extraction};
use crate::models::{CleanerCategory, CleanerItem, Status, is_error_with, is_success_with};
use crate::store::{
    CleanedItemType, DetailedCleanedItem, ItemView, is_query_result, store_insert, store_insert_all, views,
};
use crate::text::{decimal, decimal_string};
use crate::text::{format_size, size_text};
use crate::prompt::PasswordPrompt;
use crate::store::{ResultStore, SortMode};

verus! {

/// Shown when a run is asked for with nothing selected.
pub const NO_SELECTION: &'static str = "No items selected. Please select items to clean.";

/// Shown when the user cancels a run.
pub const RUN_CANCELLED: &'static str = "Cleaning operations cancelled by user.";

/// Shown once when operations fail for want of elevated rights.
pub const ELEVATION_HINT: &'static str =
    "💡 System cleaners require root privileges. Run 'sudo cleansys' to clean system files.";

/// Time between promotions of pending operations, in milliseconds.
pub const START_INTERVAL: u64 = 1500;

/// The message of a finished run that freed `total` bytes.
pub open spec fn completion_message(total: u64) -> Seq<char> {
    "✅ Cleaning completed! Total space freed: "@ + size_text(total as nat)
        + " (Press ESC to return to main menu)"@
}

/// Whether `y` is `x` after the elevation check of a tick: a running entry
/// that needs rights the session lacks fails, everything else stays.
pub open spec fn denied_entry(elevated: bool, x: CleanerItem, y: CleanerItem) -> bool {
    if x.status matches Some(Status::Running) && x.requires_root && !elevated {
        y.name == x.name && y.description == x.description && y.requires_root == x.requires_root
            && y.selected == x.selected && y.bytes_cleaned == x.bytes_cleaned && y.started_at
            == x.started_at && is_error_with(y.status, NEEDS_ELEVATION@)
    } else {
        y == x
    }
}

/// Whether `after` is `before` after the elevation check of a tick.
pub open spec fn all_denied(elevated: bool, before: Seq<CleanerCategory>, after: Seq<CleanerCategory>) -> bool {
    &&& after.len() == before.len()
    &&& forall|c: int| 0 <= c < before.len() ==> (#[trigger] after[c]).name == before[c].name
        && after[c].description == before[c].description && after[c].items@.len() == before[c].items@.len()
    &&& forall|c: usize, i: usize| valid_entry(before, (c, i)) ==> denied_entry(elevated, entry(before, (c, i)), #[trigger] entry(after, (c, i)))
}

/// The status message of an operation that freed `bytes`.
pub open spec fn success_text(name: Seq<char>, requires_root: bool, bytes: u64) -> Seq<char> {
    "Cleaned "@ + name + (if requires_root {
        " (root)"@
    } else {
        Seq::<char>::empty()
    }) + " ("@ + size_text(bytes as nat) + ")"@
}

/// `a + b`, or `u64::MAX` where that is larger.
pub open spec fn saturating_sum(a: u64, b: u64) -> u64 {
    if a + b > u64::MAX {
        u64::MAX
    } else {
        (a + b) as u64
    }
}

/// Whether `e` names a running entry of `cats`.
pub open spec fn running_entry(cats: Seq<CleanerCategory>, e: (usize, usize)) -> bool {
    valid_entry(cats, e) && crate::catalog::holds(ItemPred::Running, entry(cats, e))
}

proof fn lemma_insert_all_step(s0: Seq<ItemView>, s: Seq<ItemView>, k: int)
    requires
        0 <= k < s.len(),
    ensures
        store_insert_all(s0, s.subrange(0, k + 1)) == store_insert(store_insert_all(s0, s.subrange(0, k)), s[k]),
{
    assert(s.subrange(0, k + 1).drop_last() =~= s.subrange(0, k));
}

/// The name a record is charted under: its cleaner's name, marked where
/// its category is a system one.
pub open spec fn display_name(x: ItemView) -> Seq<char> {
    if crate::chars::contains(x.category, "System"@) {
        x.cleaner_name + " (System)"@
    } else {
        x.cleaner_name
    }
}

/// How many records are charted under `name`.
pub open spec fn group_count(s: Seq<ItemView>, name: Seq<char>) -> nat
    decreases s.len(),
{
    if s.len() == 0 {
        0
    } else {
        group_count(s.drop_last(), name) + if display_name(s.last()) == name {
            1nat
        } else {
            0nat
        }
    }
}

/// The bytes of the records charted under `name`.
pub open spec fn group_total(s: Seq<ItemView>, name: Seq<char>) -> nat
    decreases s.len(),
{
    if s.len() == 0 {
        0
    } else {
        group_total(s.drop_last(), name) + if display_name(s.last()) == name {
            s.last().size as nat
        } else {
            0nat
        }
    }
}

/// Whether `g` is the correct row of `name`'s group over `s`.
pub open spec fn group_row(s: Seq<ItemView>, g: (String, usize, u64)) -> bool {
    &&& g.1 == group_count(s, g.0@)
    &&& g.2 == crate::extract::saturate(group_total(s, g.0@))
    &&& group_count(s, g.0@) > 0
}

/// Whether `rows` has one correct row per charted name of `s`.
pub open spec fn is_distribution(s: Seq<ItemView>, rows: Seq<(String, usize, u64)>) -> bool {
    &&& forall|k: int| 0 <= k < rows.len() ==> group_row(s, #[trigger] rows[k])
    &&& forall|k1: int, k2: int| 0 <= k1 < k2 < rows.len() ==> (#[trigger] rows[k1]).0@ != (#[trigger] rows[k2]).0@
    &&& forall|j: int| 0 <= j < s.len() ==> covered(rows, #[trigger] s[j])
}

/// Whether some row has the name `x` is charted under.
pub open spec fn covered(rows: Seq<(String, usize, u64)>, x: ItemView) -> bool {
    exists|k: int| 0 <= k < rows.len() && rows[k].0@ == display_name(x)
}

fn display_name_of(x: &DetailedCleanedItem) -> (r: String)
    ensures
        r@ == display_name(x@),
{
    let cat = crate::chars::chars_of(x.category.as_str());
    if crate::chars::str_contains(&cat, "System") {
        let mut n = x.cleaner_name.clone();
        n.append(" (System)");
        n
    } else {
        x.cleaner_name.clone()
    }
}

proof fn lemma_group_absent(s: Seq<ItemView>, name: Seq<char>)
    requires
        group_count(s, name) == 0,
    ensures
        group_total(s, name) == 0,
    decreases s.len(),
{
    if s.len() > 0 {
        lemma_group_absent(s.drop_last(), name);
    }
}

proof fn lemma_group_member(s: Seq<ItemView>, name: Seq<char>)
    requires
        group_count(s, name) > 0,
    ensures
        exists|i: int| 0 <= i < s.len() && display_name(s[i]) == name,
    decreases s.len(),
{
    if display_name(s.last()) != name {
        lemma_group_member(s.drop_last(), name);
        let i = choose|i: int| 0 <= i < s.drop_last().len() && display_name(s.drop_last()[i]) == name;
        assert(s[i] == s.drop_last()[i]);
    } else {
        assert(display_name(s[s.len() - 1]) == name);
    }
}

/// Whether `r` is one of `rows`.
pub open spec fn row_in(rows: Seq<(String, usize, u64)>, r: (String, usize, u64)) -> bool {
    exists|m: int| 0 <= m < rows.len() && rows[m] == r
}

/// The rows ordered by their third field, largest first; rows with equal
/// totals keep their order.
#[verifier::rlimit(40)]
fn sort_by_total_desc(rows: &Vec<(String, usize, u64)>) -> (out: Vec<(String, usize, u64)>)
    requires
        forall|k1: int, k2: int| 0 <= k1 < k2 < rows@.len() ==> (#[trigger] rows@[k1]).0@ != (#[trigger] rows@[k2]).0@,
    ensures
        forall|k: int| 0 <= k < out@.len() ==> row_in(rows@, #[trigger] out@[k]),
        forall|m: int| 0 <= m < rows@.len() ==> row_in(out@, #[trigger] rows@[m]),
        forall|k1: int, k2: int| 0 <= k1 < k2 < out@.len() ==> (#[trigger] out@[k1]).0@ != (#[trigger] out@[k2]).0@,
        forall|k1: int, k2: int| 0 <= k1 < k2 < out@.len() ==> (#[trigger] out@[k1]).2 >= (#[trigger] out@[k2]).2,
{
    let mut out: Vec<(String, usize, u64)> = Vec::new();
    let g = rows.len();
    let mut i: usize = 0;
    while i < g
        invariant
            g == rows@.len(),
            i <= g,
            forall|k1: int, k2: int| 0 <= k1 < k2 < rows@.len() ==> (#[trigger] rows@[k1]).0@ != (#[trigger] rows@[k2]).0@,
            forall|k: int| 0 <= k < out@.len() ==> row_in(rows@.subrange(0, i as int), #[trigger] out@[k]),
            forall|m: int| 0 <= m < i ==> row_in(out@, #[trigger] rows@[m]),
            forall|k1: int, k2: int| 0 <= k1 < k2 < out@.len() ==> (#[trigger] out@[k1]).0@ != (#[trigger] out@[k2]).0@,
            forall|k1: int, k2: int| 0 <= k1 < k2 < out@.len() ==> (#[trigger] out@[k1]).2 >= (#[trigger] out@[k2]).2,
        decreases g - i,
    {
        let row = (rows[i].0.clone(), rows[i].1, rows[i].2);
        assert(row == rows@[i as int]);
        let mut p: usize = 0;
        while p < out.len() && out[p].2 >= row.2
            invariant
                p <= out@.len(),
                forall|k: int| 0 <= k < p ==> (#[trigger] out@[k]).2 >= row.2,
            decreases out@.len() - p,
        {
            p = p + 1;
        }
        let ghost before = out@;
        assert forall|k: int| 0 <= k < before.len() implies (#[trigger] before[k]).0@ != row.0@ by {
            assert(row_in(rows@.subrange(0, i as int), before[k]));
            let m = choose|m: int| 0 <= m < i && rows@.subrange(0, i as int)[m] == before[k];
            assert(rows@.subrange(0, i as int)[m] == rows@[m]);
        }
        out.insert(p, row);
        assert forall|k: int| 0 <= k < out@.len() implies row_in(rows@.subrange(0, i + 1), #[trigger] out@[k]) by {
            let src = if k < p { k } else if k > p { k - 1 } else { -1 };
            if src >= 0 {
                assert(out@[k] == before[src]);
                assert(row_in(rows@.subrange(0, i as int), before[src]));
                let m = choose|m: int| 0 <= m < i && rows@.subrange(0, i as int)[m] == before[src];
                assert(rows@.subrange(0, i + 1)[m] == rows@.subrange(0, i as int)[m]);
            } else {
                assert(rows@.subrange(0, i + 1)[i as int] == out@[k]);
            }
        }
        assert forall|m: int| 0 <= m < i + 1 implies row_in(out@, #[trigger] rows@[m]) by {
            if m < i {
                assert(row_in(before, rows@[m]));
                let k = choose|k: int| 0 <= k < before.len() && before[k] == rows@[m];
                if k < p { assert(out@[k] == before[k]); } else { assert(out@[k + 1] == before[k]); }
            } else {
                assert(out@[p as int] == rows@[m]);
            }
        }
        assert forall|k1: int, k2: int| 0 <= k1 < k2 < out@.len() implies (#[trigger] out@[k1]).0@ != (#[trigger] out@[k2]).0@ by {
            if k1 < p { assert(out@[k1] == before[k1]); } else if k1 > p { assert(out@[k1] == before[k1 - 1]); }
            if k2 < p { assert(out@[k2] == before[k2]); } else if k2 > p { assert(out@[k2] == before[k2 - 1]); }
        }
        assert forall|k1: int, k2: int| 0 <= k1 < k2 < out@.len() implies (#[trigger] out@[k1]).2 >= (#[trigger] out@[k2]).2 by {
            if k1 < p { assert(out@[k1] == before[k1]); } else if k1 > p { assert(out@[k1] == before[k1 - 1]); }
            if k2 < p { assert(out@[k2] == before[k2]); } else if k2 > p { assert(out@[k2] == before[k2 - 1]); assert(before[p as int].2 < row.2); }
        }
        i = i + 1;
    }
    assert(rows@.subrange(0, g as int) =~= rows@);
    out
}

/// A demonstration record.
pub open spec fn sample_view(
    path: Seq<char>,
    size: u64,
    category: Seq<char>,
    name: Seq<char>,
    item_type: CleanedItemType,
    now: u64,
) -> ItemView {
    ItemView { path, size, category, cleaner_name: name, timestamp: now, item_type }
}

/// The demonstration records, stamped `now`.
pub open spec fn sample_views(now: u64) -> Seq<ItemView> {
    seq![
        sample_view("/home/user/.cache/pip/wheels/abc123.whl"@, 15728640, "Package Manager Caches"@, "pip cache"@, CleanedItemType::File, now),
        sample_view("/home/user/.cache/npm/_cacache/content-v2/sha512/"@, 8388608, "Package Manager Caches"@, "npm cache"@, CleanedItemType::Directory, now),
        sample_view("/home/user/.local/share/Trash/files/old_document.pdf"@, 2097152, "Trash"@, "trash"@, CleanedItemType::File, now),
        sample_view("/home/user/.cache/mozilla/firefox/profiles/"@, 104857600, "Browser Caches"@, "firefox cache"@, CleanedItemType::Directory, now),
        sample_view("/home/user/.cargo/registry/cache/github.com-1ecc6299db9ec823/"@, 52428800, "Package Manager Caches"@, "cargo cache"@, CleanedItemType::Directory, now),
        sample_view("/tmp/temp_file_12345.tmp"@, 1048576, "Temporary Files"@, "temp files"@, CleanedItemType::File, now),
        sample_view("/home/user/.cache/thumbnails/large/abc123.png"@, 262144, "Thumbnail Caches"@, "thumbnails"@, CleanedItemType::File, now),
        sample_view("/var/log/old_system.log"@, 10485760, "System Logs"@, "system logs"@, CleanedItemType::Log, now),
        sample_view("/home/user/.local/share/recently-used.xbel.bak"@, 32768, "Application Caches"@, "application cache"@, CleanedItemType::File, now),
        sample_view("/home/user/.cache/google-chrome/Default/Cache/"@, 209715200, "Browser Caches"@, "chrome cache"@, CleanedItemType::Directory, now),
        sample_view("/home/user/.npm/_cacache/tmp/"@, 4194304, "Package Manager Caches"@, "npm cache"@, CleanedItemType::Directory, now),
        sample_view("/home/user/.cache/yarn/v6/npm-lodash-4.17.21/"@, 1572864, "Package Manager Caches"@, "yarn cache"@, CleanedItemType::Directory, now),
        sample_view("/var/tmp/portage/"@, 83886080, "Temporary Files"@, "portage temp"@, CleanedItemType::Directory, now),
        sample_view("/home/user/.local/share/Trash/files/screenshot.png"@, 3145728, "Trash"@, "trash"@, CleanedItemType::File, now),
        sample_view("/home/user/.cache/fontconfig/"@, 524288, "Application Caches"@, "font cache"@, CleanedItemType::Directory, now),
    ]
}

/// Whether entry `(c, i)` of `cats` is running.
pub open spec fn holds_running(cats: Seq<CleanerCategory>, c: usize, i: usize) -> bool {
    crate::catalog::holds(ItemPred::Running, entry(cats, (c, i)))
}

/// Whether `after` is `before` with its first pending entry made running at `now`.
pub open spec fn promoted(before: Seq<CleanerCategory>, after: Seq<CleanerCategory>, now: u64) -> bool {
    exists|e: (usize, usize)| {
        &&& is_first_where(before, ItemPred::Pending, e)
        &&& only_entry_changed(before, after, e)
        &&& #[trigger] entry(after, e).status matches Some(Status::Running)
        &&& entry(after, e).started_at == now
        &&& entry(after, e).bytes_cleaned == entry(before, e).bytes_cleaned
    }
}

/// How the main screen is laid out.
#[derive(Debug, Clone, Copy, PartialEq, Eq, Structural)]
pub enum ViewMode {
    Standard,
    Compact,
    Detailed,
    Performance,
}

/// Which operations a listing shows.
#[derive(Debug, Clone, Copy, PartialEq, Eq, Structural)]
pub enum FilterMode {
    All,
    Selected,
    Completed,
    Errors,
    UserOnly,
    SystemOnly,
}

/// How reclaimed space is charted.
#[derive(Debug, Clone, Copy, PartialEq, Eq, Structural)]
pub enum ChartType {
    Bar,
    PieCount,
    PieSize,
}

/// Where the privilege gate stands.
#[derive(Debug, Clone, Copy, PartialEq, Eq, Structural)]
pub enum GateState {
    /// Nothing is waiting for a credential and none was accepted.
    Idle,
    /// A run waits for a credential; its entries are queued.
    AwaitingCredential,
    /// A credential was accepted; elevated entries run without asking again.
    Authenticated,
}

/// A key press, as the state machine sees it.
#[derive(Debug, Clone, Copy, PartialEq, Eq, Structural)]
pub enum Key {
    Char(char),
    /// Space with the control modifier.
    CtrlSpace,
    Enter,
    Esc,
    Up,
    Down,
    Tab,
    BackTab,
    Backspace,
    PageUp,
    PageDown,
    Home,
    End,
    Other,
}

/// What the caller does after a key press.
#[derive(Debug, Clone, Copy, PartialEq, Eq, Structural)]
pub enum KeyOutcome {
    /// Carry on.
    Continue,
    /// Leave the application.
    Quit,
    /// Check the prompt's secret and report with [`App::handle_password_result`].
    VerifyCredential,
}

/// What asking for a run at `now` does to state `a`, giving `b` (see
/// [`App::run_selected`]).
pub open spec fn run_requested(a: App, b: App, now: u64) -> bool {
    &&& a.is_running ==> b == a
    &&& !a.is_running && !any_where(a.categories@, ItemPred::Selected) ==> {
        &&& texts(b.result_messages@) == texts(a.result_messages@).push(NO_SELECTION@)
        &&& b.categories == a.categories
        &&& !b.is_running
        &&& b.gate() == a.gate()
        &&& b.password_prompt == a.password_prompt
        &&& b.needs_sudo == a.needs_sudo
        &&& b.pending_operations == a.pending_operations
        &&& b.detailed_cleaned_items == a.detailed_cleaned_items
        &&& b.total_bytes_cleaned == a.total_bytes_cleaned
        &&& b.demo_operation_timer == a.demo_operation_timer
    }
    &&& !a.is_running && any_where(a.categories@, ItemPred::Selected) && a.spec_requires_elevation() ==> {
        &&& b.gate() == GateState::AwaitingCredential
        &&& lists_where(a.categories@, ItemPred::Selected, b.pending_operations@)
        &&& b.categories == a.categories
        &&& !b.is_running
        &&& b.needs_sudo
        &&& b.password_prompt.spec_visible()
        &&& b.password_prompt.input().len() == 0
        &&& b.password_prompt.spec_authenticated() == a.password_prompt.spec_authenticated()
        &&& b.result_messages == a.result_messages
        &&& b.detailed_cleaned_items == a.detailed_cleaned_items
        &&& b.total_bytes_cleaned == a.total_bytes_cleaned
    }
    &&& !a.is_running && any_where(a.categories@, ItemPred::Selected) && !a.spec_requires_elevation() ==> {
        &&& b.started_from(a, now)
        &&& b.password_prompt == a.password_prompt
    }
}

/// What cancelling the run does to state `a`, giving `b` (see
/// [`App::cancel_sudo_operations`]).
pub open spec fn run_cancelled(a: App, b: App) -> bool {
    &&& all_transformed(ItemOp::CancelActive, a.categories@, b.categories@)
    &&& texts(b.result_messages@) == texts(a.result_messages@).push(RUN_CANCELLED@)
    &&& !b.is_running
    &&& b.demo_operation_timer is None
}

/// Whether a run in state `a` has just ended: the scheduler runs, no entry
/// is pending or running, and some entry has a status.
pub open spec fn finish_due(a: App) -> bool {
    a.is_running && !any_where(a.categories@, ItemPred::Running) && !any_where(a.categories@, ItemPred::Pending)
        && any_where(a.categories@, ItemPred::HasStatus)
}

/// What completion detection at `now` does to state `a`, giving `b` (see
/// [`App::update_counters`]).
pub open spec fn counters_updated(a: App, b: App, now: u64) -> bool {
    &&& finish_due(a) ==> !b.is_running && b.demo_operation_timer is None && b.operation_end_time == Some(now)
        && texts(b.result_messages@) == texts(a.result_messages@).push(completion_message(a.total_bytes_cleaned))
    &&& !finish_due(a) ==> b.is_running == a.is_running && b.demo_operation_timer == a.demo_operation_timer
        && b.operation_end_time == a.operation_end_time && b.result_messages == a.result_messages
}

/// Completion is reported once: after a run has been marked finished,
/// completion detection changes neither the messages nor the finished state.
pub proof fn lemma_completion_reported_once(a: App, b: App, c: App, t1: u64, t2: u64)
    requires
        counters_updated(a, b, t1),
        counters_updated(b, c, t2),
        !b.is_running,
    ensures
        c.result_messages == b.result_messages,
        !c.is_running,
        c.operation_end_time == b.operation_end_time,
{
}

/// What one scheduler tick at `now` does to a running state `a` with a
/// clock, giving `b` and the entries `due` for execution (see
/// [`App::update_demo_operations`]). The first pending entry may be
/// promoted; every running entry that needs rights the session lacks then
/// fails, and if any did, the run stops and the credential prompt is shown
/// with the selection queued, and the elevation hint is added once.
pub open spec fn ticked(a: App, b: App, now: u64, due: Seq<(usize, usize)>) -> bool {
    let start = a.demo_operation_timer->0;
    let elapsed = if now >= start { now - start } else { 0 };
    let promote = elapsed / (START_INTERVAL as int) > a.demo_operations_completed
        && any_where(a.categories@, ItemPred::Pending) && a.demo_operations_completed < usize::MAX;
    &&& promote ==> b.demo_operations_completed == a.demo_operations_completed + 1
    &&& !promote ==> b.demo_operations_completed == a.demo_operations_completed
    &&& exists|mid: Seq<CleanerCategory>| {
        &&& (if promote { promoted(a.categories@, mid, now) } else { mid == a.categories@ })
        &&& all_denied(a.elevated(), mid, b.categories@)
        &&& denial_due(a.elevated(), mid) ==> {
            &&& !b.is_running
            &&& b.needs_sudo
            &&& b.password_prompt.spec_visible()
            &&& b.password_prompt.input().len() == 0
            &&& lists_where(b.categories@, ItemPred::Selected, b.pending_operations@)
            &&& b.gate() == GateState::AwaitingCredential
            &&& some_text_contains(a.result_messages@, "sudo cleansys"@) ==> b.result_messages == a.result_messages
            &&& !some_text_contains(a.result_messages@, "sudo cleansys"@) ==> texts(b.result_messages@)
                == texts(a.result_messages@).push(ELEVATION_HINT@)
        }
        &&& !denial_due(a.elevated(), mid) ==> {
            &&& b.is_running
            &&& b.needs_sudo == a.needs_sudo
            &&& b.password_prompt == a.password_prompt
            &&& b.pending_operations == a.pending_operations
            &&& b.result_messages == a.result_messages
        }
    }
    &&& lists_where(b.categories@, ItemPred::DueAt(now), due)
    &&& b.elevated() == a.elevated()
    &&& b.detailed_cleaned_items == a.detailed_cleaned_items
    &&& b.total_bytes_cleaned == a.total_bytes_cleaned
    &&& b.demo_operation_timer == a.demo_operation_timer
}

/// Asking for a run whose selection needs a credential the session lacks
/// queues the selection and waits for the credential, and changes no entry,
/// no reclaimed record and no total yet.
pub proof fn lemma_credential_request_changes_no_entry(a: App, b: App, now: u64)
    requires
        run_requested(a, b, now),
        !a.is_running,
        any_where(a.categories@, ItemPred::Selected),
        a.spec_requires_elevation(),
    ensures
        b.gate() == GateState::AwaitingCredential,
        lists_where(a.categories@, ItemPred::Selected, b.pending_operations@),
        b.categories == a.categories,
        b.detailed_cleaned_items == a.detailed_cleaned_items,
        b.total_bytes_cleaned == a.total_bytes_cleaned,
        !b.is_running,
{
}

/// Whether some running entry of `mid` needs rights that the session lacks.
pub open spec fn denial_due(elevated: bool, mid: Seq<CleanerCategory>) -> bool {
    !elevated && any_where(mid, ItemPred::RunningNeedingRoot)
}

/// The texts of a sequence of strings.
pub open spec fn texts(v: Seq<String>) -> Seq<Seq<char>> {
    v.map_values(|s: String| s@)
}

/// Whether one of the texts contains `needle`.
pub open spec fn some_text_contains(v: Seq<String>, needle: Seq<char>) -> bool {
    exists|k: int| 0 <= k < v.len() && crate::chars::contains(#[trigger] v[k]@, needle)
}

/// The application state: the catalog with its run state, the privilege
/// gate, the scheduler's clock and counters, the result store and the view
/// settings.
pub struct App {
    pub categories: Vec<CleanerCategory>,
    pub category_index: usize,
    pub selected_item: Option<usize>,
    pub is_root: bool,
    pub is_running: bool,
    pub operation_start_time: Option<u64>,
    pub operation_end_time: Option<u64>,
    pub total_bytes_cleaned: u64,
    pub show_help: bool,
    pub result_messages: Vec<String>,
    pub detailed_view: bool,
    pub current_cleaner_index: usize,
    pub animation_frame: usize,
    pub last_frame_time: u64,
    pub terminal_width: u16,
    pub terminal_height: u16,
    pub compact_mode: bool,
    pub show_performance_stats: bool,
    pub operation_count: usize,
    pub errors_count: usize,
    pub paused: bool,
    pub confirmation_mode: bool,
    pub selected_cleaners_count: usize,
    pub view_mode: ViewMode,
    pub sort_mode: SortMode,
    pub filter_mode: FilterMode,
    pub detailed_cleaned_items: ResultStore,
    pub detailed_list_scroll: Option<usize>,
    pub search_query: String,
    pub search_active: bool,
    pub detailed_view_filter: String,
    pub demo_operation_timer: Option<u64>,
    pub demo_operations_completed: usize,
    pub chart_type: ChartType,
    pub operation_logs: Vec<String>,
    pub show_progress_screen: bool,
    pub password_prompt: PasswordPrompt,
    pub needs_sudo: bool,
    pub pending_operations: Vec<(usize, usize)>,
}

impl App {
    /// The state invariant: the store within capacity.
    pub open spec fn wf(&self) -> bool {
        self.detailed_cleaned_items.wf()
    }

    /// Whether elevated operations may run: the process is privileged or a
    /// credential was accepted.
    pub open spec fn elevated(&self) -> bool {
        self.is_root || self.password_prompt.spec_authenticated()
    }

    /// Whether the current selection needs a credential first.
    pub open spec fn spec_requires_elevation(&self) -> bool {
        any_where(self.categories@, ItemPred::SelectedNeedingRoot) && !self.elevated()
    }

    /// Where the privilege check stands.
    pub open spec fn gate(&self) -> GateState {
        if self.needs_sudo && self.password_prompt.spec_visible() {
            GateState::AwaitingCredential
        } else if self.password_prompt.spec_authenticated() {
            GateState::Authenticated
        } else {
            GateState::Idle
        }
    }

    /// A fresh state with an empty catalog and an empty store, for a
    /// terminal of the given size; `is_root` says whether the process is privileged.
    pub fn new(is_root: bool, width: u16, height: u16) -> (r: Self)
        ensures
            r.wf(),
            r.categories@.len() == 0,
            r.is_root == is_root,
            !r.is_running,
            r.detailed_cleaned_items@.len() == 0,
            r.gate() == GateState::Idle,
            r.pending_operations@.len() == 0,
            r.compact_mode == (height < 25),
            r.terminal_width == width && r.terminal_height == height,
            r.selected_item == Some(0usize),
    {
        let compact = height < 25;
        App {
            categories: Vec::new(),
            category_index: 0,
            selected_item: Some(0),
            is_root,
            is_running: false,
            operation_start_time: None,
            operation_end_time: None,
            total_bytes_cleaned: 0,
            show_help: false,
            result_messages: Vec::new(),
            detailed_view: false,
            current_cleaner_index: 0,
            animation_frame: 0,
            last_frame_time: 0,
            terminal_width: width,
            terminal_height: height,
            compact_mode: compact,
            show_performance_stats: false,
            operation_count: 0,
            errors_count: 0,
            paused: false,
            confirmation_mode: true,
            selected_cleaners_count: 0,
            view_mode: if compact {
                ViewMode::Compact
            } else {
                ViewMode::Standard
            },
            sort_mode: SortMode::Category,
            filter_mode: FilterMode::All,
            detailed_cleaned_items: ResultStore::new(),
            detailed_list_scroll: None,
            search_query: String::new(),
            search_active: false,
            detailed_view_filter: String::new(),
            demo_operation_timer: None,
            demo_operations_completed: 0,
            chart_type: ChartType::PieCount,
            operation_logs: Vec::new(),
            show_progress_screen: false,
            password_prompt: PasswordPrompt::new(),
            needs_sudo: false,
            pending_operations: Vec::new(),
        }
    }

    /// Whether any entry is selected.
    pub fn has_any_selected(&self) -> (r: bool)
        ensures
            r == any_where(self.categories@, ItemPred::Selected),
    {
        let list = entries_where(&self.categories, ItemPred::Selected);
        proof { lemma_list_any(self.categories@, ItemPred::Selected, list@); }
        list.len() > 0
    }

    /// Whether a selected entry needs elevated rights that the session lacks.
    pub fn requires_elevation(&self) -> (r: bool)
        ensures
            r == self.spec_requires_elevation(),
    {
        let list = entries_where(&self.categories, ItemPred::SelectedNeedingRoot);
        proof { lemma_list_any(self.categories@, ItemPred::SelectedNeedingRoot, list@); }
        list.len() > 0 && !(self.is_root || self.password_prompt.is_authenticated())
    }

    /// Where the privilege gate stands.
    pub fn gate_state(&self) -> (r: GateState)
        ensures
            r == self.gate(),
    {
        if self.needs_sudo && self.password_prompt.is_visible() {
            GateState::AwaitingCredential
        } else if self.password_prompt.is_authenticated() {
            GateState::Authenticated
        } else {
            GateState::Idle
        }
    }

    /// Whether `self` is `before` with a run just started at `now`: the
    /// scheduler running from `now`, the counters, messages, logs and store
    /// emptied, and every selected entry pending while the others have no status.
    pub open spec fn started_from(&self, before: App, now: u64) -> bool {
        &&& self.is_running
        &&& self.show_progress_screen
        &&& self.operation_start_time == Some(now)
        &&& self.operation_end_time is None
        &&& self.demo_operation_timer == Some(now)
        &&& self.demo_operations_completed == 0
        &&& self.total_bytes_cleaned == 0
        &&& self.current_cleaner_index == 0
        &&& self.result_messages@.len() == 0
        &&& self.operation_logs@.len() == 0
        &&& self.detailed_cleaned_items@.len() == 0
        &&& self.detailed_cleaned_items.wf()
        &&& all_transformed(ItemOp::ResetForRun, before.categories@, self.categories@)
        &&& self.is_root == before.is_root
        &&& self.category_index == before.category_index
    }

    fn start_run(&mut self, now: u64)
        ensures
            final(self).started_from(*old(self), now),
            final(self).password_prompt == old(self).password_prompt,
            final(self).needs_sudo == old(self).needs_sudo,
            final(self).pending_operations == old(self).pending_operations,
    {
        self.is_running = true;
        self.show_progress_screen = true;
        self.operation_start_time = Some(now);
        self.operation_end_time = None;
        self.total_bytes_cleaned = 0;
        self.demo_operation_timer = Some(now);
        self.demo_operations_completed = 0;
        self.result_messages = Vec::new();
        self.operation_logs = Vec::new();
        self.detailed_cleaned_items.clear();
        self.current_cleaner_index = 0;
        apply_to_all(&mut self.categories, ItemOp::ResetForRun);
    }

    /// Asks for a run of the selected entries at time `now`. Nothing happens
    /// while a run is going on. With nothing selected a message says so.
    /// Where a selected entry needs elevated rights that the session lacks,
    /// a credential is asked for and queues the selection, leaving
    /// every entry as it is. Otherwise the run starts at once.
    pub fn run_selected(&mut self, now: u64)
        requires
            old(self).wf(),
        ensures
            final(self).wf(),
            run_requested(*old(self), *final(self), now),
    {
        if self.is_running {
            return;
        }
        let selected = entries_where(&self.categories, ItemPred::Selected);
        proof { lemma_list_any(self.categories@, ItemPred::Selected, selected@); }
        if selected.len() == 0 {
            let ghost before = self.result_messages@;
            self.result_messages.push(String::from_str(NO_SELECTION));
            assert(texts(self.result_messages@) =~= texts(before).push(NO_SELECTION@));
            return;
        }
        if self.requires_elevation() {
            self.needs_sudo = true;
            self.password_prompt.show();
            self.pending_operations = selected;
            return;
        }
        self.start_run(now);
    }

    /// Whether one of the result messages contains `needle`.
    pub fn has_message_containing(&self, needle: &str) -> (r: bool)
        ensures
            r == some_text_contains(self.result_messages@, needle@),
    {
        let n = self.result_messages.len();
        let mut k: usize = 0;
        while k < n
            invariant
                n == self.result_messages@.len(),
                k <= n,
                forall|j: int| 0 <= j < k ==> !crate::chars::contains(#[trigger] self.result_messages@[j]@, needle@),
            decreases n - k,
        {
            let text = crate::chars::chars_of(self.result_messages[k].as_str());
            if crate::chars::str_contains(&text, needle) {
                return true;
            }
            k = k + 1;
        }
        false
    }

    fn add_elevation_hint(&mut self)
        ensures
            some_text_contains(old(self).result_messages@, "sudo cleansys"@) ==> final(self).result_messages
                == old(self).result_messages,
            !some_text_contains(old(self).result_messages@, "sudo cleansys"@) ==> texts(
                final(self).result_messages@,
            ) == texts(old(self).result_messages@).push(ELEVATION_HINT@),
            final(self).categories == old(self).categories,
            final(self).is_running == old(self).is_running,
            final(self).password_prompt == old(self).password_prompt,
            final(self).needs_sudo == old(self).needs_sudo,
            final(self).pending_operations == old(self).pending_operations,
            final(self).detailed_cleaned_items == old(self).detailed_cleaned_items,
            final(self).demo_operation_timer == old(self).demo_operation_timer,
            final(self).total_bytes_cleaned == old(self).total_bytes_cleaned,
            final(self).operation_logs == old(self).operation_logs,
            final(self).is_root == old(self).is_root,
            final(self).demo_operations_completed == old(self).demo_operations_completed,
            final(self).animation_frame == old(self).animation_frame,
            final(self).last_frame_time == old(self).last_frame_time,
    {
        if !self.has_message_containing("sudo cleansys") {
            let ghost before = self.result_messages@;
            self.result_messages.push(String::from_str(ELEVATION_HINT));
            assert(texts(self.result_messages@) =~= texts(before).push(ELEVATION_HINT@));
        }
    }

    /// Gives up on the credential: the privilege check returns to idle and drops its
    /// queue, and every selected entry that needs elevated rights fails with
    /// [`crate::catalog::NEEDS_ELEVATION`] and is deselected, with a one-time hint.
    pub fn cancel_password(&mut self)
        requires
            old(self).wf(),
        ensures
            final(self).wf(),
            !final(self).needs_sudo,
            !final(self).password_prompt.spec_visible(),
            final(self).password_prompt.input().len() == 0,
            final(self).password_prompt.spec_authenticated() == old(self).password_prompt.spec_authenticated(),
            final(self).pending_operations@.len() == 0,
            all_transformed(ItemOp::DenyElevation, old(self).categories@, final(self).categories@),
            final(self).is_running == old(self).is_running,
            some_text_contains(final(self).result_messages@, "sudo cleansys"@) || texts(final(self).result_messages@)
                == texts(old(self).result_messages@).push(ELEVATION_HINT@),
    {
        self.password_prompt.cancel();
        self.needs_sudo = false;
        self.pending_operations = Vec::new();
        apply_to_all(&mut self.categories, ItemOp::DenyElevation);
        self.add_elevation_hint();
    }

    /// Applies the verifier's answer on the typed credential at time `now`:
    /// accepted, the session is authenticated and the queued run starts;
    /// rejected, the prompt stays up with an error and the queue is kept;
    /// where the verifier could not be run, the credential is given up on
    /// as by [`App::cancel_password`], with the reason logged.
    pub fn handle_password_result(&mut self, outcome: Result<bool, String>, now: u64)
        requires
            old(self).wf(),
        ensures
            final(self).wf(),
            outcome == Ok::<bool, String>(true) ==> {
                &&& final(self).gate() == GateState::Authenticated
                &&& !final(self).password_prompt.spec_visible()
                &&& !final(self).needs_sudo
                &&& final(self).password_prompt.input().len() == 0
                &&& final(self).pending_operations@.len() == 0
                &&& old(self).pending_operations@.len() > 0 ==> final(self).started_from(*old(self), now)
                &&& old(self).pending_operations@.len() == 0 ==> final(self).categories == old(self).categories
            },
            outcome == Ok::<bool, String>(false) ==> {
                &&& final(self).gate() == old(self).gate()
                &&& final(self).password_prompt.input().len() == 0
                &&& final(self).password_prompt.spec_visible() == old(self).password_prompt.spec_visible()
                &&& final(self).needs_sudo == old(self).needs_sudo
                &&& final(self).pending_operations == old(self).pending_operations
                &&& final(self).categories == old(self).categories
                &&& final(self).is_running == old(self).is_running
                &&& final(self).detailed_cleaned_items == old(self).detailed_cleaned_items
                &&& final(self).total_bytes_cleaned == old(self).total_bytes_cleaned
            },
            outcome is Err ==> {
                &&& !final(self).needs_sudo
                &&& !final(self).password_prompt.spec_visible()
                &&& final(self).pending_operations@.len() == 0
                &&& all_transformed(ItemOp::DenyElevation, old(self).categories@, final(self).categories@)
            },
    {
        match outcome {
            Ok(true) => {
                self.password_prompt.submit(true);
                self.needs_sudo = false;
                self.password_prompt.hide_prompt();
                let queued = self.pending_operations.len();
                self.pending_operations = Vec::new();
                if queued > 0 {
                    self.start_run(now);
                }
            },
            Ok(false) => {
                self.password_prompt.submit(false);
            },
            Err(e) => {
                let mut line = String::from_str("❌ Authentication error: ");
                line.append(e.as_str());
                self.operation_logs.push(line);
                self.cancel_password();
            },
        }
    }

    /// Stops the run: every selected entry still pending or running fails as
    /// cancelled and is deselected, and the scheduler stops.
    pub fn cancel_sudo_operations(&mut self)
        requires
            old(self).wf(),
        ensures
            final(self).wf(),
            run_cancelled(*old(self), *final(self)),
    {
        apply_to_all(&mut self.categories, ItemOp::CancelActive);
        let ghost before = self.result_messages@;
        self.result_messages.push(String::from_str(RUN_CANCELLED));
        assert(texts(self.result_messages@) =~= texts(before).push(RUN_CANCELLED@));
        self.is_running = false;
        self.demo_operation_timer = None;
    }

    /// Dismisses every failure: failed entries lose their status.
    pub fn clear_errors(&mut self)
        ensures
            all_transformed(ItemOp::ClearErrors, old(self).categories@, final(self).categories@),
            final(self).errors_count == 0,
            final(self).detailed_cleaned_items == old(self).detailed_cleaned_items,
            final(self).is_running == old(self).is_running,
    {
        apply_to_all(&mut self.categories, ItemOp::ClearErrors);
        self.errors_count = 0;
    }

    /// Completion detection at time `now`, with the counters brought up to
    /// date. A running scheduler with no entry pending or running and some
    /// entry with a status has finished: it stops, records `now` as its end
    /// and adds the completion message. Nothing else changes; in
    /// particular a finished scheduler adds no second message.
    pub fn update_counters(&mut self, now: u64)
        requires
            old(self).wf(),
        ensures
            final(self).wf(),
            final(self).categories == old(self).categories,
            final(self).detailed_cleaned_items == old(self).detailed_cleaned_items,
            final(self).password_prompt == old(self).password_prompt,
            final(self).pending_operations == old(self).pending_operations,
            final(self).needs_sudo == old(self).needs_sudo,
            final(self).total_bytes_cleaned == old(self).total_bytes_cleaned,
            final(self).is_root == old(self).is_root,
            exists|l: Seq<(usize, usize)>| lists_where(old(self).categories@, ItemPred::Selected, l) && l.len() == final(self).selected_cleaners_count,
            exists|l: Seq<(usize, usize)>| lists_where(old(self).categories@, ItemPred::Errored, l) && l.len() == final(self).errors_count,
            exists|l: Seq<(usize, usize)>| lists_where(old(self).categories@, ItemPred::HasStatus, l) && l.len() == final(self).operation_count,
            counters_updated(*old(self), *final(self), now),
    {
        let selected = entries_where(&self.categories, ItemPred::Selected);
        let errored = entries_where(&self.categories, ItemPred::Errored);
        let with_status = entries_where(&self.categories, ItemPred::HasStatus);
        self.selected_cleaners_count = selected.len();
        self.errors_count = errored.len();
        self.operation_count = with_status.len();
        if self.is_running && with_status.len() > 0 {
            let running = entries_where(&self.categories, ItemPred::Running);
            let pending = entries_where(&self.categories, ItemPred::Pending);
            proof {
                lemma_list_any(self.categories@, ItemPred::Running, running@);
                lemma_list_any(self.categories@, ItemPred::Pending, pending@);
                lemma_list_any(self.categories@, ItemPred::HasStatus, with_status@);
            }
            if running.len() == 0 && pending.len() == 0 {
                self.is_running = false;
                self.demo_operation_timer = None;
                self.operation_end_time = Some(now);
                let mut msg = String::from_str("✅ Cleaning completed! Total space freed: ");
                let size = format_size(self.total_bytes_cleaned);
                msg.append(size.as_str());
                msg.append(" (Press ESC to return to main menu)");
                let ghost before = self.result_messages@;
                self.result_messages.push(msg);
                assert(texts(self.result_messages@) =~= texts(before).push(completion_message(self.total_bytes_cleaned)));
            }
        } else {
            proof { lemma_list_any(self.categories@, ItemPred::HasStatus, with_status@); }
        }
    }

    /// One scheduler tick at time `now`. While a run goes on, the first
    /// pending entry in catalog order becomes running once the time since the
    /// start allows one more promotion every [`START_INTERVAL`]; then each
    /// running entry that needs rights the session lacks fails before it is
    /// ever executed. Returns the running entries that are due for execution,
    /// in catalog order; the caller executes each and reports it with
    /// [`App::complete_operation`]. Without a run nothing changes.
    pub fn update_demo_operations(&mut self, now: u64) -> (due: Vec<(usize, usize)>)
        requires
            old(self).wf(),
        ensures
            final(self).wf(),
            !old(self).is_running || old(self).demo_operation_timer is None ==> *final(self) == *old(self)
                && due@.len() == 0,
            old(self).is_running && old(self).demo_operation_timer is Some ==> ticked(*old(self), *final(self), now, due@),
            final(self).animation_frame == old(self).animation_frame,
            final(self).last_frame_time == old(self).last_frame_time,
    {
        let start = match self.demo_operation_timer {
            Some(t) => t,
            None => {
                return Vec::new();
            },
        };
        if !self.is_running {
            return Vec::new();
        }
        let elapsed = if now >= start {
            now - start
        } else {
            0
        };
        let ghost cats0 = self.categories@;
        let ghost mut did_promote = false;
        let ghost mut first: (usize, usize) = (0, 0);
        let pending = entries_where(&self.categories, ItemPred::Pending);
        proof { lemma_list_any(self.categories@, ItemPred::Pending, pending@); }
        if elapsed / START_INTERVAL > self.demo_operations_completed as u64 && pending.len() > 0
            && self.demo_operations_completed < usize::MAX {
            let e = pending[0];
            proof { lemma_list_first(self.categories@, ItemPred::Pending, pending@); }
            let bytes = self.categories[e.0].items[e.1].bytes_cleaned;
            update_entry(&mut self.categories, e, Some(Status::Running), bytes, now);
            let mut line = String::from_str("Starting: ");
            line.append(self.categories[e.0].items[e.1].name.as_str());
            self.operation_logs.push(line);
            self.demo_operations_completed = self.demo_operations_completed + 1;
            assert(entry(self.categories@, e).status matches Some(Status::Running));
            proof {
                did_promote = true;
                first = e;
            }
        }
        let ghost mid = self.categories@;
        let elevated = self.is_root || self.password_prompt.is_authenticated();
        let running = entries_where(&self.categories, ItemPred::Running);
        let needy = entries_where(&self.categories, ItemPred::RunningNeedingRoot);
        proof { lemma_list_any(mid, ItemPred::RunningNeedingRoot, needy@); }
        let denied_any = !elevated && needy.len() > 0;
        let mut k: usize = 0;
        while k < running.len()
            invariant
                lists_where(mid, ItemPred::Running, running@),
                elevated == old(self).elevated(),
                self.is_root == old(self).is_root,
                self.password_prompt == old(self).password_prompt,
                self.detailed_cleaned_items == old(self).detailed_cleaned_items,
                self.detailed_cleaned_items.wf(),
                self.is_running,
                self.demo_operation_timer == old(self).demo_operation_timer,
                self.animation_frame == old(self).animation_frame,
                self.last_frame_time == old(self).last_frame_time,
                self.result_messages == old(self).result_messages,
                self.needs_sudo == old(self).needs_sudo,
                self.pending_operations == old(self).pending_operations,
                self.total_bytes_cleaned == old(self).total_bytes_cleaned,
                self.demo_operations_completed == old(self).demo_operations_completed + if did_promote {
                    1int
                } else {
                    0int
                },
                k <= running@.len(),
                self.categories@.len() == mid.len(),
                forall|c: int| 0 <= c < mid.len() ==> (#[trigger] self.categories@[c]).name == mid[c].name
                    && self.categories@[c].description == mid[c].description && self.categories@[c].items@.len() == mid[c].items@.len(),
                forall|c: usize, i: usize| valid_entry(mid, (c, i)) ==> if exists|j: int| 0 <= j < k && running@[j] == (c, i) {
                    denied_entry(elevated, entry(mid, (c, i)), #[trigger] entry(self.categories@, (c, i)))
                } else {
                    entry(self.categories@, (c, i)) == entry(mid, (c, i))
                },
            decreases running@.len() - k,
        {
            let e = running[k];
            let ghost prev = self.categories@;
            assert(!exists|j: int| 0 <= j < k && running@[j] == e) by {
                if exists|j: int| 0 <= j < k && running@[j] == e {
                    let j = choose|j: int| 0 <= j < k && running@[j] == e;
                    assert(entry_lt(running@[j], running@[k as int]));
                }
            }
            assert(entry(prev, e) == entry(mid, e));
            if self.categories[e.0].items[e.1].requires_root && !elevated {
                let bytes = self.categories[e.0].items[e.1].bytes_cleaned;
                let since = self.categories[e.0].items[e.1].started_at;
                update_entry(&mut self.categories, e, Some(Status::Error(String::from_str(NEEDS_ELEVATION))), bytes, since);
            }
            assert forall|c: usize, i: usize| valid_entry(mid, (c, i)) implies (if exists|j: int| 0 <= j < k + 1 && running@[j] == (c, i) {
                denied_entry(elevated, entry(mid, (c, i)), #[trigger] entry(self.categories@, (c, i)))
            } else {
                entry(self.categories@, (c, i)) == entry(mid, (c, i))
            }) by {
                if (c, i) != e {
                    assert(entry(self.categories@, (c, i)) == entry(prev, (c, i)));
                    if exists|j: int| 0 <= j < k + 1 && running@[j] == (c, i) {
                        let j = choose|j: int| 0 <= j < k + 1 && running@[j] == (c, i);
                        assert(j < k);
                    }
                } else {
                    assert(running@[k as int] == (c, i));
                }
            }
            k = k + 1;
        }
        assert forall|c: usize, i: usize| valid_entry(mid, (c, i)) implies denied_entry(elevated, entry(mid, (c, i)), #[trigger] entry(self.categories@, (c, i))) by {
            if !exists|j: int| 0 <= j < k && running@[j] == (c, i) {
                if entry(mid, (c, i)).status matches Some(Status::Running) {
                    assert(holds_running(mid, c, i));
                }
            }
        }
        proof {
            if did_promote {
                assert(is_first_where(cats0, ItemPred::Pending, first));
                assert(only_entry_changed(cats0, mid, first));
                assert(entry(mid, first).status matches Some(Status::Running));
                assert(promoted(cats0, mid, now));
            }
        }
        assert(all_denied(elevated, mid, self.categories@));
        proof {
            let el: int = if now >= start { now - start } else { 0 };
            let promote = el / (START_INTERVAL as int) > old(self).demo_operations_completed
                && any_where(cats0, ItemPred::Pending)
                && old(self).demo_operations_completed < usize::MAX;
            assert(el == elapsed as int);
            assert(did_promote == promote);
            if promote {
                assert(promoted(old(self).categories@, mid, now));
            } else {
                assert(mid == old(self).categories@);
            }
        }
        assert(all_denied(old(self).elevated(), mid, self.categories@));
        if denied_any {
            self.add_elevation_hint();
            let queued = entries_where(&self.categories, ItemPred::Selected);
            self.pending_operations = queued;
            self.needs_sudo = true;
            self.password_prompt.show();
            self.is_running = false;
        }
        assert(denial_due(old(self).elevated(), mid) == denied_any);
        entries_where(&self.categories, ItemPred::DueAt(now))
    }

    /// Reports at time `now` what executing entry `e` gave: the bytes it
    /// freed and the text it printed, or its error message. Only a running
    /// entry is updated (a cancelled one keeps its status). On success the
    /// entry succeeds with a size summary, the run's total grows by the bytes
    /// (saturating), and the records extracted from the text enter the store.
    /// On failure the entry fails with the error's last segment as reason.
    pub fn complete_operation(&mut self, e: (usize, usize), outcome: Result<(u64, String), String>, now: u64)
        requires
            old(self).wf(),
        ensures
            final(self).wf(),
            !running_entry(old(self).categories@, e) ==> *final(self) == *old(self),
            running_entry(old(self).categories@, e) ==> {
                let x = entry(old(self).categories@, e);
                &&& only_entry_changed(old(self).categories@, final(self).categories@, e)
                &&& entry(final(self).categories@, e).started_at == x.started_at
                &&& final(self).is_running == old(self).is_running
                &&& final(self).result_messages == old(self).result_messages
                &&& match outcome {
                    Ok(done) => {
                        &&& is_success_with(entry(final(self).categories@, e).status, success_text(x.name@, x.requires_root, done.0))
                        &&& entry(final(self).categories@, e).bytes_cleaned == done.0
                        &&& final(self).total_bytes_cleaned == saturating_sum(old(self).total_bytes_cleaned, done.0)
                        &&& final(self).detailed_cleaned_items@ == store_insert_all(
                            old(self).detailed_cleaned_items@,
                            extraction(done.1@, done.0, old(self).categories@[e.0 as int].name@, x.name@, now),
                        )
                    },
                    Err(msg) => {
                        &&& is_error_with(entry(final(self).categories@, e).status, "Failed: "@ + failure_reason(msg@))
                        &&& entry(final(self).categories@, e).bytes_cleaned == x.bytes_cleaned
                        &&& final(self).total_bytes_cleaned == old(self).total_bytes_cleaned
                        &&& final(self).detailed_cleaned_items == old(self).detailed_cleaned_items
                    },
                }
            },
    {
        let (c, i) = e;
        if c >= self.categories.len() || i >= self.categories[c].items.len() {
            return;
        }
        if !matches!(self.categories[c].items[i].status, Some(Status::Running)) {
            return;
        }
        let ghost x = entry(self.categories@, e);
        let since = self.categories[c].items[i].started_at;
        let name = self.categories[c].items[i].name.clone();
        let requires_root = self.categories[c].items[i].requires_root;
        match outcome {
            Ok((bytes, output)) => {
                let category = self.categories[c].name.clone();
                let found = extract_items(output.as_str(), bytes, &category, &name, now);
                let ghost store0 = self.detailed_cleaned_items@;
                let n = found.len();
                let mut k: usize = 0;
                while k < n
                    invariant
                        n == found@.len(),
                        k <= n,
                        self.detailed_cleaned_items.wf(),
                        self.detailed_cleaned_items@ == store_insert_all(store0, views(found@).subrange(0, k as int)),
                        self.categories == old(self).categories,
                        self.total_bytes_cleaned == old(self).total_bytes_cleaned,
                        self.result_messages == old(self).result_messages,
                        self.is_running == old(self).is_running,
                        store0 == old(self).detailed_cleaned_items@,
                    decreases n - k,
                {
                    let ghost done = views(found@).subrange(0, k as int);
                    assert(views(found@).subrange(0, k + 1).drop_last() =~= done);
                    self.detailed_cleaned_items.insert(found[k].duplicate());
                    k = k + 1;
                }
                assert(views(found@).subrange(0, n as int) =~= views(found@));
                let mut msg = String::from_str("Cleaned ");
                msg.append(name.as_str());
                if requires_root {
                    msg.append(" (root)");
                }
                msg.append(" (");
                let size = format_size(bytes);
                msg.append(size.as_str());
                msg.append(")");
                proof {
                    reveal_strlit("");
                }
                assert(msg@ =~= success_text(x.name@, x.requires_root, bytes));
                update_entry(&mut self.categories, e, Some(Status::Success(msg)), bytes, since);
                self.total_bytes_cleaned = if self.total_bytes_cleaned > u64::MAX - bytes {
                    u64::MAX
                } else {
                    self.total_bytes_cleaned + bytes
                };
                let mut line = String::from_str("✅ Completed ");
                line.append(name.as_str());
                line.append(": ");
                line.append(size.as_str());
                line.append(" freed");
                self.operation_logs.push(line);
            },
            Err(err) => {
                let mut msg = String::from_str("Failed: ");
                let reason = reason_of(err.as_str());
                msg.append(reason.as_str());
                let bytes = self.categories[c].items[i].bytes_cleaned;
                let mut line = String::from_str("❌ Failed ");
                line.append(name.as_str());
                line.append(": ");
                line.append(msg.as_str());
                self.operation_logs.push(line);
                update_entry(&mut self.categories, e, Some(Status::Error(msg)), bytes, since);
            },
        }
    }

    /// Moves the cursor to the next entry of the current category, wrapping
    /// to the first; without a cursor it goes to the first.
    pub fn next_item(&mut self)
        requires
            old(self).category_index < old(self).categories@.len(),
            old(self).categories@[old(self).category_index as int].items@.len() > 0,
        ensures
            ({
                let n = old(self).categories@[old(self).category_index as int].items@.len();
                final(self).selected_item == Some(match old(self).selected_item {
                    Some(i) => if i + 1 >= n { 0usize } else { (i + 1) as usize },
                    None => 0usize,
                })
            }),
            final(self).categories == old(self).categories,
            final(self).category_index == old(self).category_index,
            final(self).detailed_cleaned_items == old(self).detailed_cleaned_items,
    {
        let n = self.categories[self.category_index].items.len();
        let i = match self.selected_item {
            Some(i) => if i >= n - 1 {
                0
            } else {
                i + 1
            },
            None => 0,
        };
        self.selected_item = Some(i);
    }

    /// Moves the cursor to the previous entry of the current category,
    /// wrapping to the last; without a cursor it goes to the first.
    pub fn previous_item(&mut self)
        requires
            old(self).category_index < old(self).categories@.len(),
            old(self).categories@[old(self).category_index as int].items@.len() > 0,
        ensures
            ({
                let n = old(self).categories@[old(self).category_index as int].items@.len();
                final(self).selected_item == Some(match old(self).selected_item {
                    Some(i) => if i == 0 { (n - 1) as usize } else { (i - 1) as usize },
                    None => 0usize,
                })
            }),
            final(self).categories == old(self).categories,
            final(self).category_index == old(self).category_index,
            final(self).detailed_cleaned_items == old(self).detailed_cleaned_items,
    {
        let n = self.categories[self.category_index].items.len();
        let i = match self.selected_item {
            Some(i) => if i == 0 {
                n - 1
            } else {
                i - 1
            },
            None => 0,
        };
        self.selected_item = Some(i);
    }

    /// Flips the selection of the entry under the cursor, whatever its
    /// elevation need; without a valid cursor nothing changes.
    pub fn toggle_selected(&mut self)
        requires
            old(self).wf(),
        ensures
            final(self).wf(),
            ({
                let c = old(self).category_index;
                match old(self).selected_item {
                    Some(i) if valid_entry(old(self).categories@, (c, i)) => {
                        &&& final(self).categories@.len() == old(self).categories@.len()
                        &&& forall|k: int| 0 <= k < old(self).categories@.len() ==> (#[trigger] final(self).categories@[k]).name == old(self).categories@[k].name
                            && final(self).categories@[k].items@.len() == old(self).categories@[k].items@.len()
                        &&& forall|c2: usize, i2: usize| valid_entry(old(self).categories@, (c2, i2)) && (c2, i2) != (c, i)
                            ==> #[trigger] entry(final(self).categories@, (c2, i2)) == entry(old(self).categories@, (c2, i2))
                        &&& entry(final(self).categories@, (c, i)).selected == !entry(old(self).categories@, (c, i)).selected
                        &&& entry(final(self).categories@, (c, i)).status == entry(old(self).categories@, (c, i)).status
                        &&& entry(final(self).categories@, (c, i)).requires_root == entry(old(self).categories@, (c, i)).requires_root
                    },
                    _ => final(self).categories == old(self).categories,
                }
            }),
            final(self).is_running == old(self).is_running,
            final(self).password_prompt == old(self).password_prompt,
            final(self).pending_operations == old(self).pending_operations,
            final(self).needs_sudo == old(self).needs_sudo,
            final(self).category_index == old(self).category_index,
            final(self).selected_item == old(self).selected_item,
    {
        let c = self.category_index;
        if let Some(i) = self.selected_item {
            if c < self.categories.len() && i < self.categories[c].items.len() {
                let ghost prev = self.categories@;
                let flipped = !self.categories[c].items[i].selected;
                self.categories[c].items[i].selected = flipped;
                assert forall|c2: usize, i2: usize| valid_entry(prev, (c2, i2)) && (c2, i2) != (c, i)
                    implies #[trigger] entry(self.categories@, (c2, i2)) == entry(prev, (c2, i2)) by {
                    if c2 != c {
                        assert(self.categories@[c2 as int] == prev[c2 as int]);
                    }
                }
            }
        }
    }

    /// Switches to the next category, wrapping to the first, with the cursor
    /// on its first entry.
    pub fn next_category(&mut self)
        requires
            old(self).categories@.len() > 0,
        ensures
            final(self).detailed_cleaned_items == old(self).detailed_cleaned_items,
            final(self).category_index == if old(self).category_index < old(self).categories@.len() - 1 {
                (old(self).category_index + 1) as usize
            } else {
                0usize
            },
            final(self).selected_item == Some(0usize),
            final(self).categories == old(self).categories,
    {
        if self.category_index < self.categories.len() - 1 {
            self.category_index = self.category_index + 1;
        } else {
            self.category_index = 0;
        }
        self.selected_item = Some(0);
    }

    /// Switches to the previous category, wrapping to the last, with the
    /// cursor on its first entry.
    pub fn previous_category(&mut self)
        requires
            old(self).categories@.len() > 0,
        ensures
            final(self).detailed_cleaned_items == old(self).detailed_cleaned_items,
            final(self).category_index == if old(self).category_index > 0 {
                (old(self).category_index - 1) as usize
            } else {
                (old(self).categories@.len() - 1) as usize
            },
            final(self).selected_item == Some(0usize),
            final(self).categories == old(self).categories,
    {
        if self.category_index > 0 {
            self.category_index = self.category_index - 1;
        } else {
            self.category_index = self.categories.len() - 1;
        }
        self.selected_item = Some(0);
    }

    /// Selects every entry of the current category, elevated ones included.
    pub fn select_all(&mut self)
        requires
            old(self).category_index < old(self).categories@.len(),
        ensures
            final(self).detailed_cleaned_items == old(self).detailed_cleaned_items,
            crate::services::all_set_to(
                old(self).categories@[old(self).category_index as int].items@,
                final(self).categories@[old(self).category_index as int].items@,
                true,
            ),
            final(self).categories@.len() == old(self).categories@.len(),
            forall|k: int| 0 <= k < old(self).categories@.len() && k != old(self).category_index
                ==> #[trigger] final(self).categories@[k] == old(self).categories@[k],
            final(self).categories@[old(self).category_index as int].name == old(self).categories@[old(self).category_index as int].name,
            final(self).category_index == old(self).category_index,
    {
        let c = self.category_index;
        crate::services::select_all_in_category(&mut self.categories[c]);
    }

    /// Deselects every entry of the current category.
    pub fn deselect_all(&mut self)
        requires
            old(self).category_index < old(self).categories@.len(),
        ensures
            final(self).detailed_cleaned_items == old(self).detailed_cleaned_items,
            crate::services::all_set_to(
                old(self).categories@[old(self).category_index as int].items@,
                final(self).categories@[old(self).category_index as int].items@,
                false,
            ),
            final(self).categories@.len() == old(self).categories@.len(),
            forall|k: int| 0 <= k < old(self).categories@.len() && k != old(self).category_index
                ==> #[trigger] final(self).categories@[k] == old(self).categories@[k],
            final(self).categories@[old(self).category_index as int].name == old(self).categories@[old(self).category_index as int].name,
            final(self).category_index == old(self).category_index,
    {
        let c = self.category_index;
        crate::services::deselect_all_in_category(&mut self.categories[c]);
    }

    /// Shows or hides the help.
    pub fn toggle_help(&mut self)
        ensures
            final(self).detailed_cleaned_items == old(self).detailed_cleaned_items,
            final(self).show_help == !old(self).show_help,
            final(self).categories == old(self).categories,
    {
        self.show_help = !self.show_help;
    }

    /// Records a new terminal size.
    pub fn handle_resize(&mut self, width: u16, height: u16)
        ensures
            final(self).detailed_cleaned_items == old(self).detailed_cleaned_items,
            final(self).terminal_width == width,
            final(self).terminal_height == height,
            final(self).categories == old(self).categories,
    {
        self.terminal_width = width;
        self.terminal_height = height;
    }

    /// Switches between the compact and the standard layout.
    pub fn toggle_compact_mode(&mut self)
        ensures
            final(self).detailed_cleaned_items == old(self).detailed_cleaned_items,
            final(self).compact_mode == !old(self).compact_mode,
            final(self).view_mode == if final(self).compact_mode {
                ViewMode::Compact
            } else {
                ViewMode::Standard
            },
    {
        self.compact_mode = !self.compact_mode;
        self.view_mode = if self.compact_mode {
            ViewMode::Compact
        } else {
            ViewMode::Standard
        };
    }

    /// Leaves the state as it is: the log always follows its end.
    pub fn toggle_auto_scroll(&mut self)
        ensures
            *final(self) == *old(self),
    {
    }

    /// Shows or hides the performance figures.
    pub fn toggle_performance_stats(&mut self)
        ensures
            final(self).detailed_cleaned_items == old(self).detailed_cleaned_items,
            final(self).show_performance_stats == !old(self).show_performance_stats,
    {
        self.show_performance_stats = !self.show_performance_stats;
    }

    /// Moves to the next layout: standard, compact, detailed, performance, standard.
    pub fn cycle_view_mode(&mut self)
        ensures
            final(self).detailed_cleaned_items == old(self).detailed_cleaned_items,
            final(self).view_mode == match old(self).view_mode {
                ViewMode::Standard => ViewMode::Compact,
                ViewMode::Compact => ViewMode::Detailed,
                ViewMode::Detailed => ViewMode::Performance,
                ViewMode::Performance => ViewMode::Standard,
            },
    {
        self.view_mode = match self.view_mode {
            ViewMode::Standard => ViewMode::Compact,
            ViewMode::Compact => ViewMode::Detailed,
            ViewMode::Detailed => ViewMode::Performance,
            ViewMode::Performance => ViewMode::Standard,
        };
    }

    /// Moves to the next order: name, size, recency, category, name.
    pub fn cycle_sort_mode(&mut self)
        ensures
            final(self).detailed_cleaned_items == old(self).detailed_cleaned_items,
            final(self).sort_mode == match old(self).sort_mode {
                SortMode::Name => SortMode::Size,
                SortMode::Size => SortMode::Status,
                SortMode::Status => SortMode::Category,
                SortMode::Category => SortMode::Name,
            },
    {
        self.sort_mode = match self.sort_mode {
            SortMode::Name => SortMode::Size,
            SortMode::Size => SortMode::Status,
            SortMode::Status => SortMode::Category,
            SortMode::Category => SortMode::Name,
        };
    }

    /// Moves to the next listing filter, in declaration order, wrapping.
    pub fn cycle_filter_mode(&mut self)
        ensures
            final(self).detailed_cleaned_items == old(self).detailed_cleaned_items,
            final(self).filter_mode == match old(self).filter_mode {
                FilterMode::All => FilterMode::Selected,
                FilterMode::Selected => FilterMode::Completed,
                FilterMode::Completed => FilterMode::Errors,
                FilterMode::Errors => FilterMode::UserOnly,
                FilterMode::UserOnly => FilterMode::SystemOnly,
                FilterMode::SystemOnly => FilterMode::All,
            },
    {
        self.filter_mode = match self.filter_mode {
            FilterMode::All => FilterMode::Selected,
            FilterMode::Selected => FilterMode::Completed,
            FilterMode::Completed => FilterMode::Errors,
            FilterMode::Errors => FilterMode::UserOnly,
            FilterMode::UserOnly => FilterMode::SystemOnly,
            FilterMode::SystemOnly => FilterMode::All,
        };
    }

    /// Pauses or resumes the display of progress.
    pub fn toggle_pause(&mut self)
        ensures
            final(self).detailed_cleaned_items == old(self).detailed_cleaned_items,
            final(self).paused == !old(self).paused,
    {
        self.paused = !self.paused;
    }

    /// Switches whether operations ask for confirmation.
    pub fn toggle_confirmation_mode(&mut self)
        ensures
            final(self).detailed_cleaned_items == old(self).detailed_cleaned_items,
            final(self).confirmation_mode == !old(self).confirmation_mode,
    {
        self.confirmation_mode = !self.confirmation_mode;
    }

    /// Moves to the next chart: bars, pie by count, pie by size, bars.
    pub fn toggle_chart_type(&mut self)
        ensures
            final(self).detailed_cleaned_items == old(self).detailed_cleaned_items,
            final(self).chart_type == match old(self).chart_type {
                ChartType::Bar => ChartType::PieCount,
                ChartType::PieCount => ChartType::PieSize,
                ChartType::PieSize => ChartType::Bar,
            },
    {
        self.chart_type = match self.chart_type {
            ChartType::Bar => ChartType::PieCount,
            ChartType::PieCount => ChartType::PieSize,
            ChartType::PieSize => ChartType::Bar,
        };
    }

    /// Turns search on or off; turning it off forgets the query.
    pub fn toggle_search(&mut self)
        ensures
            final(self).detailed_cleaned_items == old(self).detailed_cleaned_items,
            final(self).search_active == !old(self).search_active,
            final(self).search_active ==> final(self).search_query == old(self).search_query,
            !final(self).search_active ==> final(self).search_query@.len() == 0,
    {
        self.search_active = !self.search_active;
        if !self.search_active {
            self.search_query = String::new();
        }
    }

    /// Turns search off and forgets the query and the category filter.
    pub fn clear_search(&mut self)
        ensures
            final(self).detailed_cleaned_items == old(self).detailed_cleaned_items,
            !final(self).search_active,
            final(self).search_query@.len() == 0,
            final(self).detailed_view_filter@.len() == 0,
    {
        self.search_active = false;
        self.search_query = String::new();
        self.detailed_view_filter = String::new();
    }

    /// Appends a character to the query while search is on.
    pub fn add_search_char(&mut self, c: char)
        ensures
            final(self).detailed_cleaned_items == old(self).detailed_cleaned_items,
            old(self).search_active ==> final(self).search_query@ == old(self).search_query@.push(c),
            !old(self).search_active ==> final(self).search_query == old(self).search_query,
            final(self).search_active == old(self).search_active,
    {
        if self.search_active {
            self.search_query.push(c);
        }
    }

    /// Removes the last character of the query while search is on.
    pub fn remove_search_char(&mut self)
        ensures
            final(self).detailed_cleaned_items == old(self).detailed_cleaned_items,
            old(self).search_active && old(self).search_query@.len() > 0 ==> final(self).search_query@
                == old(self).search_query@.drop_last(),
            !(old(self).search_active && old(self).search_query@.len() > 0) ==> final(self).search_query@
                == old(self).search_query@,
            final(self).search_active == old(self).search_active,
    {
        if self.search_active {
            self.search_query.pop();
        }
    }

    /// Adds a record stamped `timestamp` to the store (see [`ResultStore::insert`]).
    pub fn add_detailed_cleaned_item(
        &mut self,
        path: String,
        size: u64,
        category: String,
        cleaner_name: String,
        item_type: CleanedItemType,
        timestamp: u64,
    )
        requires
            old(self).wf(),
        ensures
            final(self).wf(),
            final(self).detailed_cleaned_items@ == store_insert(
                old(self).detailed_cleaned_items@,
                ItemView {
                    path: path@,
                    size,
                    category: category@,
                    cleaner_name: cleaner_name@,
                    timestamp,
                    item_type,
                },
            ),
            final(self).categories == old(self).categories,
            final(self).is_running == old(self).is_running,
    {
        let item = DetailedCleanedItem::new(path, size, category, cleaner_name, timestamp, item_type);
        self.detailed_cleaned_items.insert(item);
    }

    /// The stored records that match the current search, or else the current
    /// category filter, in the current order (see [`ResultStore::query`]).
    pub fn get_filtered_detailed_items(&self) -> (r: Vec<DetailedCleanedItem>)
        ensures
            exists|idx: Seq<int>| is_query_result(
                self.detailed_cleaned_items@,
                views(r@),
                idx,
                self.search_query@,
                self.detailed_view_filter@,
                self.sort_mode,
            ),
    {
        self.detailed_cleaned_items.query(self.search_query.as_str(), self.detailed_view_filter.as_str(), self.sort_mode)
    }

    /// The number of lines the record list takes: three per record, or the
    /// length of the placeholder list while there are none.
    pub open spec fn list_lines(&self) -> nat {
        if self.detailed_cleaned_items@.len() > 0 {
            3 * self.detailed_cleaned_items@.len()
        } else {
            45
        }
    }

    fn list_line_count(&self) -> (r: usize)
        requires
            self.wf(),
        ensures
            r == self.list_lines(),
    {
        let n = self.detailed_cleaned_items.len();
        if n > 0 {
            n * 3
        } else {
            45
        }
    }

    /// Moves the record-list cursor one line up; without a cursor it starts
    /// on the last line.
    pub fn scroll_detailed_list_up(&mut self)
        requires
            old(self).wf(),
        ensures
            final(self).detailed_list_scroll == match old(self).detailed_list_scroll {
                Some(s) => if s > 0 { Some((s - 1) as usize) } else { Some(s) },
                None => Some((old(self).list_lines() - 1) as usize),
            },
            final(self).detailed_cleaned_items == old(self).detailed_cleaned_items,
            final(self).categories == old(self).categories,
    {
        match self.detailed_list_scroll {
            Some(s) => {
                if s > 0 {
                    self.detailed_list_scroll = Some(s - 1);
                }
            },
            None => {
                let total = self.list_line_count();
                self.detailed_list_scroll = Some(total - 1);
            },
        }
    }

    /// Moves the record-list cursor one line down, stopping at the last
    /// line; without a cursor it starts on the first line.
    pub fn scroll_detailed_list_down(&mut self)
        requires
            old(self).wf(),
        ensures
            final(self).detailed_list_scroll == match old(self).detailed_list_scroll {
                Some(s) => if s + 1 < old(self).list_lines() { Some((s + 1) as usize) } else { Some(s) },
                None => Some(0usize),
            },
            final(self).detailed_cleaned_items == old(self).detailed_cleaned_items,
            final(self).categories == old(self).categories,
    {
        let total = self.list_line_count();
        match self.detailed_list_scroll {
            Some(s) => {
                if s < total - 1 {
                    self.detailed_list_scroll = Some(s + 1);
                }
            },
            None => {
                self.detailed_list_scroll = Some(0);
            },
        }
    }

    /// The length of the current or last run at time `now`, as `"42s"` or
    /// `"3m 5s"`; `"0s"` before any run.
    pub fn get_elapsed_time(&self, now: u64) -> (r: String)
        ensures
            r@ == match self.operation_start_time {
                Some(start) => {
                    let end = match self.operation_end_time {
                        Some(e) => e,
                        None => now,
                    };
                    let secs = (if end >= start { end - start } else { 0 }) / 1000;
                    if secs < 60 {
                        decimal(secs as nat) + "s"@
                    } else {
                        decimal((secs / 60) as nat) + "m "@ + decimal((secs % 60) as nat) + "s"@
                    }
                },
                None => "0s"@,
            },
    {
        match self.operation_start_time {
            Some(start) => {
                let end = match self.operation_end_time {
                    Some(e) => e,
                    None => now,
                };
                let secs = (if end >= start {
                    end - start
                } else {
                    0
                }) / 1000;
                if secs < 60 {
                    let mut s = decimal_string(secs);
                    s.append("s");
                    s
                } else {
                    let mut s = decimal_string(secs / 60);
                    s.append("m ");
                    let rest = decimal_string(secs % 60);
                    s.append(rest.as_str());
                    s.append("s");
                    s
                }
            },
            None => String::from_str("0s"),
        }
    }

    /// Advances the spinner at most every 100 ms, then, during a run, ticks
    /// the scheduler (see [`App::update_demo_operations`]) and returns the
    /// entries due for execution.
    pub fn update_animation(&mut self, now: u64) -> (due: Vec<(usize, usize)>)
        requires
            old(self).wf(),
        ensures
            final(self).wf(),
            now > old(self).last_frame_time + 100 ==> final(self).animation_frame == (old(self).animation_frame % 10 + 1) % 10
                && final(self).last_frame_time == now,
            now <= old(self).last_frame_time + 100 ==> final(self).animation_frame == old(self).animation_frame
                && final(self).last_frame_time == old(self).last_frame_time,
            !(old(self).is_running && old(self).demo_operation_timer is Some) ==> {
                &&& due@.len() == 0
                &&& final(self).categories == old(self).categories
                &&& final(self).result_messages == old(self).result_messages
                &&& final(self).detailed_cleaned_items == old(self).detailed_cleaned_items
                &&& final(self).total_bytes_cleaned == old(self).total_bytes_cleaned
                &&& final(self).is_running == old(self).is_running
                &&& final(self).password_prompt == old(self).password_prompt
                &&& final(self).needs_sudo == old(self).needs_sudo
                &&& final(self).pending_operations == old(self).pending_operations
                &&& final(self).demo_operations_completed == old(self).demo_operations_completed
            },
            old(self).is_running && old(self).demo_operation_timer is Some ==> ticked(*old(self), *final(self), now, due@),
    {
        let due = if self.is_running {
            self.update_demo_operations(now)
        } else {
            Vec::new()
        };
        if now > self.last_frame_time && now - self.last_frame_time > 100 {
            self.animation_frame = (self.animation_frame % 10 + 1) % 10;
            self.last_frame_time = now;
        }
        due
    }

    fn has_current_items(&self) -> (r: bool)
        ensures
            r == (self.category_index < self.categories@.len()
                && self.categories@[self.category_index as int].items@.len() > 0),
    {
        self.category_index < self.categories.len() && self.categories[self.category_index].items.len() > 0
    }

    /// Applies a key press at time `now`. While the credential prompt is
    /// shown, keys edit the secret, Enter asks the caller to verify it and
    /// Esc gives up on it (see [`App::cancel_password`]). Otherwise keys move
    /// the cursors, change the selection, start (Enter) or cancel (Esc, q) a
    /// run, and change the view; q with nothing to close or cancel quits.
    pub fn handle_key(&mut self, key: Key, now: u64) -> (r: KeyOutcome)
        requires
            old(self).wf(),
        ensures
            final(self).wf(),
            r == KeyOutcome::Quit <==> (!old(self).password_prompt.spec_visible() && key == Key::Char('q')
                && !old(self).show_help && !old(self).is_running),
            r == KeyOutcome::Quit ==> *final(self) == *old(self),
            r == KeyOutcome::VerifyCredential <==> (old(self).password_prompt.spec_visible() && key == Key::Enter),
            r == KeyOutcome::VerifyCredential ==> *final(self) == *old(self),
            !old(self).password_prompt.spec_visible() && key == Key::Enter && !old(self).show_help
                ==> run_requested(*old(self), *final(self), now),
            !old(self).password_prompt.spec_visible() && old(self).is_running && ((key == Key::Char('q')
                && !old(self).show_help) || (key == Key::Esc && !old(self).search_active))
                ==> run_cancelled(*old(self), *final(self)),
            !old(self).password_prompt.spec_visible() && key == Key::Char('?') ==> final(self).show_help
                == !old(self).show_help,
            old(self).password_prompt.spec_visible() && key == Key::Esc ==> {
                &&& !final(self).password_prompt.spec_visible()
                &&& !final(self).needs_sudo
                &&& final(self).password_prompt.input().len() == 0
                &&& final(self).password_prompt.spec_authenticated() == old(self).password_prompt.spec_authenticated()
                &&& final(self).is_running == old(self).is_running
                &&& final(self).gate() != GateState::AwaitingCredential
                &&& final(self).pending_operations@.len() == 0
                &&& all_transformed(ItemOp::DenyElevation, old(self).categories@, final(self).categories@)
            },
    {
        if self.password_prompt.is_visible() {
            match key {
                Key::Enter => {
                    return KeyOutcome::VerifyCredential;
                },
                Key::Esc => {
                    self.cancel_password();
                },
                Key::Char(c) => {
                    self.password_prompt.add_char(c);
                },
                Key::CtrlSpace => {
                    self.password_prompt.add_char(' ');
                },
                Key::Backspace => {
                    self.password_prompt.remove_char();
                },
                _ => {},
            }
            return KeyOutcome::Continue;
        }
        let help = self.show_help;
        let on_progress = self.is_running || self.show_progress_screen;
        match key {
            Key::Char('q') => {
                if help {
                    self.show_help = false;
                } else if self.is_running {
                    self.cancel_sudo_operations();
                } else {
                    return KeyOutcome::Quit;
                }
            },
            Key::Down => {
                if !help {
                    if on_progress {
                        self.scroll_detailed_list_down();
                    } else if self.has_current_items() {
                        self.next_item();
                    }
                }
            },
            Key::Up => {
                if !help {
                    if on_progress {
                        self.scroll_detailed_list_up();
                    } else if self.has_current_items() {
                        self.previous_item();
                    }
                }
            },
            Key::Tab => {
                if !help && self.categories.len() > 0 {
                    self.next_category();
                }
            },
            Key::BackTab => {
                if !help && self.categories.len() > 0 {
                    self.previous_category();
                }
            },
            Key::Char(' ') => {
                if !help {
                    self.toggle_selected();
                }
            },
            Key::Enter => {
                if !help {
                    self.run_selected(now);
                }
            },
            Key::Char('?') | Key::Char('h') => {
                self.toggle_help();
            },
            Key::Char('/') => {
                if !help {
                    self.toggle_search();
                }
            },
            Key::Esc => {
                if self.search_active {
                    self.clear_search();
                } else if self.is_running {
                    self.cancel_sudo_operations();
                } else if self.show_progress_screen {
                    self.show_progress_screen = false;
                }
            },
            Key::Char('j') => {
                if !help {
                    self.scroll_detailed_list_down();
                }
            },
            Key::Char('k') => {
                if !help {
                    self.scroll_detailed_list_up();
                }
            },
            Key::Char('a') => {
                if !help && self.category_index < self.categories.len() {
                    self.select_all();
                }
            },
            Key::Char('n') => {
                if !help && self.category_index < self.categories.len() {
                    self.deselect_all();
                }
            },
            Key::Char('m') => {
                if !help {
                    self.toggle_compact_mode();
                }
            },
            Key::Char('s') => {
                if !help && self.is_running {
                    self.toggle_auto_scroll();
                }
            },
            Key::Char('p') => {
                if !help {
                    self.toggle_performance_stats();
                }
            },
            Key::Char('v') => {
                if !help {
                    self.cycle_view_mode();
                }
            },
            Key::Char('o') => {
                if !help {
                    self.cycle_sort_mode();
                }
            },
            Key::Char('f') => {
                if !help {
                    self.cycle_filter_mode();
                }
            },
            Key::CtrlSpace => {
                if self.is_running {
                    self.toggle_pause();
                }
            },
            Key::Char('y') => {
                if !help {
                    self.toggle_confirmation_mode();
                }
            },
            Key::Char('c') => {
                if !help {
                    self.toggle_chart_type();
                }
            },
            Key::Char('x') => {
                if !help {
                    self.clear_errors();
                }
            },
            Key::Char(c) => {
                if self.search_active {
                    self.add_search_char(c);
                } else if !help {
                    self.toggle_selected();
                }
            },
            Key::Backspace => {
                if self.search_active {
                    self.remove_search_char();
                }
            },
            Key::PageUp => {
                if on_progress {
                    let mut k: usize = 0;
                    while k < 10
                        invariant
                            self.wf(),
                        decreases 10 - k,
                    {
                        self.scroll_detailed_list_up();
                        k = k + 1;
                    }
                }
            },
            Key::PageDown => {
                if on_progress {
                    let mut k: usize = 0;
                    while k < 10
                        invariant
                            self.wf(),
                        decreases 10 - k,
                    {
                        self.scroll_detailed_list_down();
                        k = k + 1;
                    }
                }
            },
            Key::Home => {
                if !help {
                    if on_progress {
                        self.detailed_list_scroll = Some(0);
                    } else {
                        self.selected_item = Some(0);
                    }
                }
            },
            Key::End => {
                if !help {
                    if on_progress {
                        let n = self.detailed_cleaned_items.len();
                        if n > 0 {
                            self.detailed_list_scroll = Some(n * 3 - 1);
                        }
                    } else if self.category_index < self.categories.len() {
                        let n = self.categories[self.category_index].items.len();
                        if n > 0 {
                            self.selected_item = Some(n - 1);
                        }
                    }
                }
            },
            Key::Other => {},
        }
        KeyOutcome::Continue
    }

    fn add_sample(&mut self, path: &str, size: u64, category: &str, name: &str, item_type: CleanedItemType, now: u64)
        requires
            old(self).wf(),
        ensures
            final(self).wf(),
            final(self).detailed_cleaned_items@ == store_insert(
                old(self).detailed_cleaned_items@,
                sample_view(path@, size, category@, name@, item_type, now),
            ),
            final(self).categories == old(self).categories,
    {
        self.add_detailed_cleaned_item(
            String::from_str(path),
            size,
            String::from_str(category),
            String::from_str(name),
            item_type,
            now,
        );
    }

    /// Fills the store with demonstration records stamped `now`, as if they
    /// had been inserted one by one.
    pub fn add_sample_cleaned_items(&mut self, now: u64)
        requires
            old(self).wf(),
        ensures
            final(self).wf(),
            final(self).detailed_cleaned_items@ == store_insert_all(old(self).detailed_cleaned_items@, sample_views(now)),
            final(self).categories == old(self).categories,
    {
        let ghost s = sample_views(now);
        let ghost s0 = self.detailed_cleaned_items@;
        assert(s0 == store_insert_all(s0, s.subrange(0, 0)));
        self.add_sample("/home/user/.cache/pip/wheels/abc123.whl", 15728640, "Package Manager Caches", "pip cache", CleanedItemType::File, now);
        proof {
            lemma_insert_all_step(s0, s, 0);
        }
        self.add_sample("/home/user/.cache/npm/_cacache/content-v2/sha512/", 8388608, "Package Manager Caches", "npm cache", CleanedItemType::Directory, now);
        proof {
            lemma_insert_all_step(s0, s, 1);
        }
        self.add_sample("/home/user/.local/share/Trash/files/old_document.pdf", 2097152, "Trash", "trash", CleanedItemType::File, now);
        proof {
            lemma_insert_all_step(s0, s, 2);
        }
        self.add_sample("/home/user/.cache/mozilla/firefox/profiles/", 104857600, "Browser Caches", "firefox cache", CleanedItemType::Directory, now);
        proof {
            lemma_insert_all_step(s0, s, 3);
        }
        self.add_sample("/home/user/.cargo/registry/cache/github.com-1ecc6299db9ec823/", 52428800, "Package Manager Caches", "cargo cache", CleanedItemType::Directory, now);
        proof {
            lemma_insert_all_step(s0, s, 4);
        }
        self.add_sample("/tmp/temp_file_12345.tmp", 1048576, "Temporary Files", "temp files", CleanedItemType::File, now);
        proof {
            lemma_insert_all_step(s0, s, 5);
        }
        self.add_sample("/home/user/.cache/thumbnails/large/abc123.png", 262144, "Thumbnail Caches", "thumbnails", CleanedItemType::File, now);
        proof {
            lemma_insert_all_step(s0, s, 6);
        }
        self.add_sample("/var/log/old_system.log", 10485760, "System Logs", "system logs", CleanedItemType::Log, now);
        proof {
            lemma_insert_all_step(s0, s, 7);
        }
        self.add_sample("/home/user/.local/share/recently-used.xbel.bak", 32768, "Application Caches", "application cache", CleanedItemType::File, now);
        proof {
            lemma_insert_all_step(s0, s, 8);
        }
        self.add_sample("/home/user/.cache/google-chrome/Default/Cache/", 209715200, "Browser Caches", "chrome cache", CleanedItemType::Directory, now);
        proof {
            lemma_insert_all_step(s0, s, 9);
        }
        self.add_sample("/home/user/.npm/_cacache/tmp/", 4194304, "Package Manager Caches", "npm cache", CleanedItemType::Directory, now);
        proof {
            lemma_insert_all_step(s0, s, 10);
        }
        self.add_sample("/home/user/.cache/yarn/v6/npm-lodash-4.17.21/", 1572864, "Package Manager Caches", "yarn cache", CleanedItemType::Directory, now);
        proof {
            lemma_insert_all_step(s0, s, 11);
        }
        self.add_sample("/var/tmp/portage/", 83886080, "Temporary Files", "portage temp", CleanedItemType::Directory, now);
        proof {
            lemma_insert_all_step(s0, s, 12);
        }
        self.add_sample("/home/user/.local/share/Trash/files/screenshot.png", 3145728, "Trash", "trash", CleanedItemType::File, now);
        proof {
            lemma_insert_all_step(s0, s, 13);
        }
        self.add_sample("/home/user/.cache/fontconfig/", 524288, "Application Caches", "font cache", CleanedItemType::Directory, now);
        proof {
            lemma_insert_all_step(s0, s, 14);
        }
        assert(s.subrange(0, 15) =~= s);
    }

    /// Per charted name (see [`display_name`]) the number of stored records
    /// and their bytes (saturating), largest total first.
    pub fn get_category_distribution(&self) -> (r: Vec<(String, usize, u64)>)
        requires
            self.wf(),
        ensures
            is_distribution(self.detailed_cleaned_items@, r@),
            forall|k1: int, k2: int| 0 <= k1 < k2 < r@.len() ==> (#[trigger] r@[k1]).2 >= (#[trigger] r@[k2]).2,
    {
        let ghost sv = self.detailed_cleaned_items@;
        let n = self.detailed_cleaned_items.len();
        let mut groups: Vec<(String, usize, u64)> = Vec::new();
        let mut j: usize = 0;
        while j < n
            invariant
                sv == self.detailed_cleaned_items@,
                n == sv.len(),
                n <= 1000,
                j <= n,
                is_distribution(sv.subrange(0, j as int), groups@),
                forall|k: int| 0 <= k < groups@.len() ==> (#[trigger] groups@[k]).1 <= j,
            decreases n - j,
        {
            let ghost pre = sv.subrange(0, j as int);
            let ghost post = sv.subrange(0, j + 1);
            assert(post.drop_last() =~= pre);
            let x = self.detailed_cleaned_items.get(j);
            let name = display_name_of(x);
            let ghost dn = name@;
            assert(post.last() == sv[j as int]);
            let mut k: usize = 0;
            while k < groups.len() && !groups[k].0.eq(&name)
                invariant
                    k <= groups@.len(),
                    forall|m: int| 0 <= m < k ==> (#[trigger] groups@[m]).0@ != name@,
                decreases groups@.len() - k,
            {
                k = k + 1;
            }
            let ghost old_groups = groups@;
            if k < groups.len() {
                let count = groups[k].1;
                let total = groups[k].2;
                let label = groups[k].0.clone();
                let grown = if total > u64::MAX - x.size {
                    u64::MAX
                } else {
                    total + x.size
                };
                assert(group_row(pre, old_groups[k as int]));
                assert(old_groups[k as int].0@ == dn);
                assert(group_count(post, dn) == group_count(pre, dn) + 1);
                assert(group_total(post, dn) == group_total(pre, dn) + x.size);
                assert(count <= j);
                groups.set(k, (label, count + 1, grown));
                assert(groups@[k as int].0@ == dn);
                assert(groups@[k as int].1 == group_count(post, dn));
                assert(groups@[k as int].2 == crate::extract::saturate(group_total(post, dn)));
                assert forall|m: int| 0 <= m < groups@.len() implies group_row(post, #[trigger] groups@[m]) by {
                    if m != k {
                        assert(groups@[m] == old_groups[m]);
                        assert(group_row(pre, old_groups[m]));
                        if m < k {
                            assert(old_groups[m].0@ != old_groups[k as int].0@);
                        } else {
                            assert(old_groups[k as int].0@ != old_groups[m].0@);
                        }
                        assert(group_count(post, old_groups[m].0@) == group_count(pre, old_groups[m].0@));
                        assert(group_total(post, old_groups[m].0@) == group_total(pre, old_groups[m].0@));
                    } else {
                        assert(groups@[m].0@ == dn);
                        assert(groups@[m].2 == crate::extract::saturate(group_total(post, dn)));
                    }
                }
                assert forall|m1: int, m2: int| 0 <= m1 < m2 < groups@.len() implies (#[trigger] groups@[m1]).0@ != (#[trigger] groups@[m2]).0@ by {
                    assert(groups@[m1].0@ == old_groups[m1].0@);
                    assert(groups@[m2].0@ == old_groups[m2].0@);
                }
                assert forall|i: int| 0 <= i < post.len() implies covered(groups@, #[trigger] post[i]) by {
                    if i < j {
                        assert(post[i] == pre[i]);
                        assert(covered(old_groups, pre[i]));
                        let m = choose|m: int| 0 <= m < old_groups.len() && old_groups[m].0@ == display_name(pre[i]);
                        assert(groups@[m].0@ == old_groups[m].0@);
                    } else {
                        assert(groups@[k as int].0@ == dn);
                    }
                }
            } else {
                proof {
                    if group_count(pre, dn) > 0 {
                        lemma_group_member(pre, dn);
                        let i = choose|i: int| 0 <= i < pre.len() && display_name(pre[i]) == dn;
                        assert(covered(old_groups, pre[i]));
                        let m = choose|m: int| 0 <= m < old_groups.len() && old_groups[m].0@ == display_name(pre[i]);
                        assert(old_groups[m].0@ != name@);
                    }
                    lemma_group_absent(pre, dn);
                }
                assert(group_count(post, dn) == group_count(pre, dn) + 1);
                assert(group_total(post, dn) == group_total(pre, dn) + x.size);
                groups.push((name, 1, x.size));
                assert forall|m: int| 0 <= m < groups@.len() implies group_row(post, #[trigger] groups@[m]) by {
                    if m < old_groups.len() {
                        assert(groups@[m] == old_groups[m]);
                        assert(group_row(pre, old_groups[m]));
                        assert(old_groups[m].0@ != dn);
                        assert(group_count(post, old_groups[m].0@) == group_count(pre, old_groups[m].0@));
                        assert(group_total(post, old_groups[m].0@) == group_total(pre, old_groups[m].0@));
                    }
                }
                assert forall|m1: int, m2: int| 0 <= m1 < m2 < groups@.len() implies (#[trigger] groups@[m1]).0@ != (#[trigger] groups@[m2]).0@ by {
                    assert(groups@[m1] == old_groups[m1]);
                    if m2 < old_groups.len() {
                        assert(groups@[m2] == old_groups[m2]);
                    }
                }
                assert forall|i: int| 0 <= i < post.len() implies covered(groups@, #[trigger] post[i]) by {
                    if i < j {
                        assert(post[i] == pre[i]);
                        assert(covered(old_groups, pre[i]));
                        let m = choose|m: int| 0 <= m < old_groups.len() && old_groups[m].0@ == display_name(pre[i]);
                        assert(groups@[m] == old_groups[m]);
                    } else {
                        assert(groups@[old_groups.len() as int].0@ == dn);
                    }
                }
            }
            j = j + 1;
        }
        assert(sv.subrange(0, n as int) =~= sv);
        let out = sort_by_total_desc(&groups);
        assert forall|k: int| 0 <= k < out@.len() implies group_row(sv, #[trigger] out@[k]) by {
            assert(row_in(groups@, out@[k]));
            let m = choose|m: int| 0 <= m < groups@.len() && groups@[m] == out@[k];
        }
        assert forall|j: int| 0 <= j < sv.len() implies covered(out@, #[trigger] sv[j]) by {
            assert(covered(groups@, sv[j]));
            let m = choose|m: int| 0 <= m < groups@.len() && groups@[m].0@ == display_name(sv[j]);
            assert(row_in(out@, groups@[m]));
            let k = choose|k: int| 0 <= k < out@.len() && out@[k] == groups@[m];
            assert(out@[k].0@ == display_name(sv[j]));
        }
        assert(forall|k: int| 0 <= k < out@.len() ==> group_row(sv, #[trigger] out@[k]));
        assert(forall|k1: int, k2: int| 0 <= k1 < k2 < out@.len() ==> (#[trigger] out@[k1]).0@ != (#[trigger] out@[k2]).0@);
        assert(is_distribution(sv, out@));
        out
    }
}

} // verus!
