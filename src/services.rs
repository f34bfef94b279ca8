//! Running the selected cleaners of a category and adding up what they freed.
use vstd::prelude::*;
use crate::models::{CleanerCategory, CleanerItem, CleanerMessage, Status};
use crate::text::{decimal, decimal_string};

verus! {

/// The bytes an item freed, counted only once it has succeeded.
pub open spec fn freed_if_done(item: CleanerItem) -> nat {
    if item.status matches Some(Status::Success(_)) {
        item.bytes_cleaned as nat
    } else {
        0
    }
}

/// The bytes freed by the succeeded items of a sequence.
pub open spec fn items_total(items: Seq<CleanerItem>) -> nat
    decreases items.len(),
{
    if items.len() == 0 {
        0
    } else {
        items_total(items.drop_last()) + freed_if_done(items.last())
    }
}

/// The bytes freed by the succeeded items of a sequence of categories.
pub open spec fn categories_total(cats: Seq<CleanerCategory>) -> nat
    decreases cats.len(),
{
    if cats.len() == 0 {
        0
    } else {
        categories_total(cats.drop_last()) + items_total(cats.last().items@)
    }
}

/// How many items of a sequence are selected.
pub open spec fn count_selected(items: Seq<CleanerItem>) -> nat
    decreases items.len(),
{
    if items.len() == 0 {
        0
    } else {
        count_selected(items.drop_last()) + if items.last().selected {
            1nat
        } else {
            0nat
        }
    }
}

proof fn lemma_count_selected_prefix(items: Seq<CleanerItem>, i: int)
    requires
        0 <= i < items.len(),
    ensures
        forall|j: int| 0 <= j < i ==> count_selected(items.subrange(0, j)) < count_selected(items.subrange(0, i))
            || !items[j].selected,
    decreases i,
{
    assert(items.subrange(0, i + 1).drop_last() =~= items.subrange(0, i));
    if i > 0 {
        lemma_count_selected_prefix(items, i - 1);
        assert(items.subrange(0, i).drop_last() =~= items.subrange(0, i - 1));
        assert forall|j: int| 0 <= j < i implies count_selected(items.subrange(0, j)) < count_selected(items.subrange(0, i))
            || !items[j].selected by {
            if j < i - 1 {
            } else {
                assert(items.subrange(0, i)[i - 1] == items[i - 1]);
            }
        }
    }
}

/// The message of a successful run.
pub open spec fn success_message(bytes: u64) -> Seq<char> {
    "Completed successfully, freed "@ + decimal(bytes as nat) + " bytes"@
}

/// Records the outcome of running one cleaner (the bytes it freed, or its
/// error) on the item, and reports it.
pub fn execute_cleaner(item: &mut CleanerItem, outcome: Result<u64, String>) -> (r: CleanerMessage)
    ensures
        r.cleaner_name@ == old(item).name@,
        final(item).name == old(item).name,
        final(item).description == old(item).description,
        final(item).requires_root == old(item).requires_root,
        final(item).selected == old(item).selected,
        final(item).started_at == old(item).started_at,
        match outcome {
            Ok(bytes) => {
                &&& final(item).bytes_cleaned == bytes
                &&& final(item).status matches Some(Status::Success(m)) && m@ == success_message(bytes)
                &&& r.message@ == success_message(bytes)
                &&& !r.is_error
                &&& r.bytes_cleaned == Some(bytes)
            },
            Err(e) => {
                &&& final(item).bytes_cleaned == old(item).bytes_cleaned
                &&& final(item).status matches Some(Status::Error(m)) && m@ == "Error: "@ + e@
                &&& r.message@ == "Error: "@ + e@
                &&& r.is_error
                &&& r.bytes_cleaned is None
            },
        },
{
    item.status = Some(Status::Running);
    match outcome {
        Ok(bytes) => {
            item.bytes_cleaned = bytes;
            let mut msg = String::from_str("Completed successfully, freed ");
            let digits = decimal_string(bytes);
            msg.append(digits.as_str());
            msg.append(" bytes");
            item.status = Some(Status::Success(msg.clone()));
            CleanerMessage {
                cleaner_name: item.name.clone(),
                message: msg,
                is_error: false,
                bytes_cleaned: Some(bytes),
            }
        },
        Err(e) => {
            let mut msg = String::from_str("Error: ");
            msg.append(e.as_str());
            item.status = Some(Status::Error(msg.clone()));
            CleanerMessage {
                cleaner_name: item.name.clone(),
                message: msg,
                is_error: true,
                bytes_cleaned: None,
            }
        },
    }
}

/// Records the outcomes of the selected cleaners of a category, in order;
/// `outcomes[i]` is what running item `i` gave (ignored for unselected items).
/// Returns one message per selected item.
pub fn execute_category(category: &mut CleanerCategory, outcomes: Vec<Result<u64, String>>) -> (r: Vec<CleanerMessage>)
    requires
        outcomes@.len() == old(category).items@.len(),
    ensures
        final(category).name == old(category).name,
        final(category).items@.len() == old(category).items@.len(),
        r@.len() == count_selected(old(category).items@),
        forall|i: int| 0 <= i < old(category).items@.len() && old(category).items@[i].selected ==> {
            let m = r@[count_selected(old(category).items@.subrange(0, i)) as int];
            &&& m.cleaner_name@ == old(category).items@[i].name@
            &&& m.is_error == outcomes@[i] is Err
        },
        forall|i: int| 0 <= i < old(category).items@.len() && !old(category).items@[i].selected
            ==> final(category).items@[i] == old(category).items@[i],
        forall|i: int| 0 <= i < old(category).items@.len() && old(category).items@[i].selected
            ==> match outcomes@[i] {
                Ok(bytes) => final(category).items@[i].bytes_cleaned == bytes
                    && final(category).items@[i].status matches Some(Status::Success(_)),
                Err(_) => final(category).items@[i].status matches Some(Status::Error(_)),
            },
{
    let ghost before = category.items@;
    let ghost given = outcomes@;
    let mut outcomes = outcomes;
    let mut messages: Vec<CleanerMessage> = Vec::new();
    let n = category.items.len();
    let mut i: usize = 0;
    while i < n
        invariant
            n == before.len(),
            outcomes@.len() == n,
            given.len() == n,
            i <= n,
            category.name == old(category).name,
            category.items@.len() == n,
            before == old(category).items@,
            messages@.len() == count_selected(before.subrange(0, i as int)),
            forall|j: int| 0 <= j < i && before[j].selected ==> {
                let m = messages@[count_selected(before.subrange(0, j)) as int];
                &&& m.cleaner_name@ == before[j].name@
                &&& m.is_error == given[j] is Err
            },
            forall|j: int| i <= j < n ==> category.items@[j] == before[j] && outcomes@[j] == given[j],
            forall|j: int| 0 <= j < i && !before[j].selected ==> category.items@[j] == before[j],
            forall|j: int| 0 <= j < i && before[j].selected ==> match given[j] {
                Ok(bytes) => category.items@[j].bytes_cleaned == bytes
                    && category.items@[j].status matches Some(Status::Success(_)),
                Err(_) => category.items@[j].status matches Some(Status::Error(_)),
            },
        decreases n - i,
    {
        assert(before.subrange(0, i + 1).drop_last() =~= before.subrange(0, i as int));
        proof { lemma_count_selected_prefix(before, i as int); }
        if category.items[i].selected {
            let mut outcome: Result<u64, String> = Ok(0);
            outcomes.set_and_swap(i, &mut outcome);
            let m = execute_cleaner(&mut category.items[i], outcome);
            messages.push(m);
        }
        i = i + 1;
    }
    assert(before.subrange(0, n as int) =~= before);
    messages
}

/// Whether `after` is `before` with every item's selection set to `on`.
pub open spec fn all_set_to(before: Seq<CleanerItem>, after: Seq<CleanerItem>, on: bool) -> bool {
    &&& after.len() == before.len()
    &&& forall|i: int| 0 <= i < before.len() ==> (#[trigger] after[i]).selected == on
        && after[i].name == before[i].name && after[i].description == before[i].description
        && after[i].requires_root == before[i].requires_root && after[i].bytes_cleaned
        == before[i].bytes_cleaned && after[i].status == before[i].status
        && after[i].started_at == before[i].started_at
}

/// Sets the selection of every item of a sequence to `on`.
pub fn set_all_selected(items: &mut Vec<CleanerItem>, on: bool)
    ensures
        all_set_to(old(items)@, final(items)@, on),
{
    let ghost before = items@;
    let n = items.len();
    let mut i: usize = 0;
    while i < n
        invariant
            n == before.len(),
            items@.len() == n,
            i <= n,
            before == old(items)@,
            forall|j: int| i <= j < n ==> items@[j] == before[j],
            forall|j: int| 0 <= j < i ==> (#[trigger] items@[j]).selected == on
                && items@[j].name == before[j].name && items@[j].description == before[j].description
                && items@[j].requires_root == before[j].requires_root && items@[j].bytes_cleaned
                == before[j].bytes_cleaned && items@[j].status == before[j].status
                && items@[j].started_at == before[j].started_at,
        decreases n - i,
    {
        items[i].selected = on;
        i = i + 1;
    }
}

/// Selects every cleaner of a category.
pub fn select_all_in_category(category: &mut CleanerCategory)
    ensures
        final(category).name == old(category).name,
        final(category).description == old(category).description,
        all_set_to(old(category).items@, final(category).items@, true),
{
    set_all_selected(&mut category.items, true);
}

/// Deselects every cleaner of a category.
pub fn deselect_all_in_category(category: &mut CleanerCategory)
    ensures
        final(category).name == old(category).name,
        final(category).description == old(category).description,
        all_set_to(old(category).items@, final(category).items@, false),
{
    set_all_selected(&mut category.items, false);
}

/// The bytes freed by the succeeded cleaners of a category.
pub fn calculate_category_total(category: &CleanerCategory) -> (r: u64)
    requires
        items_total(category.items@) <= u64::MAX,
    ensures
        r == items_total(category.items@),
{
    let n = category.items.len();
    let mut total: u64 = 0;
    let mut i: usize = 0;
    while i < n
        invariant
            n == category.items@.len(),
            i <= n,
            items_total(category.items@) <= u64::MAX,
            total == items_total(category.items@.subrange(0, i as int)),
        decreases n - i,
    {
        let ghost pre = category.items@.subrange(0, i as int);
        let ghost next = category.items@.subrange(0, i + 1);
        assert(next.drop_last() =~= pre);
        proof { lemma_items_total_prefix(category.items@, i as int + 1); }
        let item = &category.items[i];
        if let Some(Status::Success(_)) = &item.status {
            total = total + item.bytes_cleaned;
        }
        i = i + 1;
    }
    assert(category.items@.subrange(0, n as int) =~= category.items@);
    total
}

proof fn lemma_items_total_prefix(items: Seq<CleanerItem>, k: int)
    requires
        0 <= k <= items.len(),
    ensures
        items_total(items.subrange(0, k)) <= items_total(items),
    decreases items.len(),
{
    if k < items.len() {
        assert(items.drop_last().subrange(0, k) =~= items.subrange(0, k));
        lemma_items_total_prefix(items.drop_last(), k);
    } else {
        assert(items.subrange(0, k) =~= items);
    }
}

proof fn lemma_categories_total_prefix(cats: Seq<CleanerCategory>, k: int)
    requires
        0 <= k <= cats.len(),
    ensures
        categories_total(cats.subrange(0, k)) <= categories_total(cats),
    decreases cats.len(),
{
    if k < cats.len() {
        assert(cats.drop_last().subrange(0, k) =~= cats.subrange(0, k));
        lemma_categories_total_prefix(cats.drop_last(), k);
    } else {
        assert(cats.subrange(0, k) =~= cats);
    }
}

/// The bytes freed by the succeeded cleaners of all categories.
pub fn calculate_total_cleaned(categories: &[CleanerCategory]) -> (r: u64)
    requires
        categories_total(categories@) <= u64::MAX,
    ensures
        r == categories_total(categories@),
{
    let n = categories.len();
    let mut total: u64 = 0;
    let mut i: usize = 0;
    while i < n
        invariant
            n == categories@.len(),
            i <= n,
            categories_total(categories@) <= u64::MAX,
            total == categories_total(categories@.subrange(0, i as int)),
        decreases n - i,
    {
        let ghost pre = categories@.subrange(0, i as int);
        let ghost next = categories@.subrange(0, i + 1);
        assert(next.drop_last() =~= pre);
        proof { lemma_categories_total_prefix(categories@, i as int + 1); }
        let t = calculate_category_total(&categories[i]);
        total = total + t;
        i = i + 1;
    }
    assert(categories@.subrange(0, n as int) =~= categories@);
    total
}

} // verus!
