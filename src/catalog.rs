//! Queries and bulk updates over the entries of all categories.
use vstd::prelude::*;
use crate::models::{CleanerCategory, CleanerItem, Status, is_error_with};

verus! {

/// The message of an operation stopped by the user.
pub const CANCELLED: &'static str = "Operation cancelled by user";

/// The message of an operation that needs elevated rights the session lacks.
pub const NEEDS_ELEVATION: &'static str = "requires elevated privileges";

/// A property of one entry.
#[derive(Debug, Clone, Copy, PartialEq, Eq, Structural)]
pub enum ItemPred {
    Selected,
    Pending,
    Running,
    Errored,
    HasStatus,
    SelectedNeedingRoot,
    RunningNeedingRoot,
    /// Running for at least [`RUN_DURATION`] milliseconds at the given time.
    DueAt(u64),
}

/// How long an operation is shown running before it is executed, in milliseconds.
pub const RUN_DURATION: u64 = 2000;

/// Whether an entry has the property.
pub open spec fn holds(p: ItemPred, x: CleanerItem) -> bool {
    match p {
        ItemPred::Selected => x.selected,
        ItemPred::Pending => x.status matches Some(Status::Pending),
        ItemPred::Running => x.status matches Some(Status::Running),
        ItemPred::Errored => x.status matches Some(Status::Error(_)),
        ItemPred::HasStatus => x.status is Some,
        ItemPred::SelectedNeedingRoot => x.selected && x.requires_root,
        ItemPred::RunningNeedingRoot => x.status matches Some(Status::Running) && x.requires_root,
        ItemPred::DueAt(now) => x.status matches Some(Status::Running) && x.started_at as int
            + RUN_DURATION <= now,
    }
}

fn check(p: ItemPred, x: &CleanerItem) -> (r: bool)
    ensures
        r == holds(p, *x),
{
    match p {
        ItemPred::Selected => x.selected,
        ItemPred::Pending => matches!(x.status, Some(Status::Pending)),
        ItemPred::Running => matches!(x.status, Some(Status::Running)),
        ItemPred::Errored => matches!(x.status, Some(Status::Error(_))),
        ItemPred::HasStatus => x.status.is_some(),
        ItemPred::SelectedNeedingRoot => x.selected && x.requires_root,
        ItemPred::RunningNeedingRoot => matches!(x.status, Some(Status::Running)) && x.requires_root,
        ItemPred::DueAt(now) => matches!(x.status, Some(Status::Running)) && x.started_at <= now
            && now - x.started_at >= RUN_DURATION,
    }
}

/// Whether `e` names an entry of `cats`.
pub open spec fn valid_entry(cats: Seq<CleanerCategory>, e: (usize, usize)) -> bool {
    e.0 < cats.len() && e.1 < cats[e.0 as int].items@.len()
}

/// The entry at `e`.
pub open spec fn entry(cats: Seq<CleanerCategory>, e: (usize, usize)) -> CleanerItem {
    cats[e.0 as int].items@[e.1 as int]
}

/// Catalog order: by category, then by position in it.
pub open spec fn entry_lt(a: (usize, usize), b: (usize, usize)) -> bool {
    a.0 < b.0 || (a.0 == b.0 && a.1 < b.1)
}

/// Whether `list` names exactly the entries of `cats` with property `p`,
/// each once, in catalog order.
pub open spec fn lists_where(cats: Seq<CleanerCategory>, p: ItemPred, list: Seq<(usize, usize)>) -> bool {
    &&& forall|k: int| 0 <= k < list.len() ==> valid_entry(cats, #[trigger] list[k]) && holds(p, entry(cats, list[k]))
    &&& forall|k1: int, k2: int| 0 <= k1 < k2 < list.len() ==> entry_lt(#[trigger] list[k1], #[trigger] list[k2])
    &&& forall|c: usize, i: usize| valid_entry(cats, (c, i)) && #[trigger] holds(p, entry(cats, (c, i)))
        ==> exists|k: int| 0 <= k < list.len() && list[k] == (c, i)
}

/// Whether some entry of `cats` has property `p`.
pub open spec fn any_where(cats: Seq<CleanerCategory>, p: ItemPred) -> bool {
    exists|c: usize, i: usize| valid_entry(cats, (c, i)) && #[trigger] holds(p, entry(cats, (c, i)))
}

/// A list of the entries with a property is empty exactly when none has it.
pub proof fn lemma_list_any(cats: Seq<CleanerCategory>, p: ItemPred, list: Seq<(usize, usize)>)
    requires
        lists_where(cats, p, list),
    ensures
        any_where(cats, p) == (list.len() > 0),
{
    if list.len() > 0 {
        let e = list[0];
        assert(valid_entry(cats, (e.0, e.1)) && holds(p, entry(cats, (e.0, e.1))));
    } else if any_where(cats, p) {
        let (c, i) = choose|c: usize, i: usize| valid_entry(cats, (c, i)) && #[trigger] holds(p, entry(cats, (c, i)));
        assert(exists|k: int| 0 <= k < list.len() && list[k] == (c, i));
    }
}

/// The entries of `cats` with property `p`, in catalog order.
pub fn entries_where(cats: &Vec<CleanerCategory>, p: ItemPred) -> (r: Vec<(usize, usize)>)
    ensures
        lists_where(cats@, p, r@),
{
    let mut r: Vec<(usize, usize)> = Vec::new();
    let n = cats.len();
    let mut c: usize = 0;
    while c < n
        invariant
            n == cats@.len(),
            c <= n,
            forall|k: int| 0 <= k < r@.len() ==> valid_entry(cats@, #[trigger] r@[k]) && holds(p, entry(cats@, r@[k])) && r@[k].0 < c,
            forall|k1: int, k2: int| 0 <= k1 < k2 < r@.len() ==> entry_lt(#[trigger] r@[k1], #[trigger] r@[k2]),
            forall|c2: usize, i: usize| c2 < c && valid_entry(cats@, (c2, i)) && #[trigger] holds(p, entry(cats@, (c2, i)))
                ==> exists|k: int| 0 <= k < r@.len() && r@[k] == (c2, i),
        decreases n - c,
    {
        let m = cats[c].items.len();
        let mut i: usize = 0;
        let ghost before = r@;
        while i < m
            invariant
                n == cats@.len(),
                c < n,
                m == cats@[c as int].items@.len(),
                i <= m,
                before.len() <= r@.len(),
                forall|k: int| 0 <= k < before.len() ==> r@[k] == before[k],
                forall|k: int| 0 <= k < before.len() ==> (#[trigger] before[k]).0 < c,
                forall|k: int| before.len() <= k < r@.len() ==> (#[trigger] r@[k]).0 == c && r@[k].1 < i,
                forall|k: int| 0 <= k < r@.len() ==> valid_entry(cats@, #[trigger] r@[k]) && holds(p, entry(cats@, r@[k])),
                forall|k1: int, k2: int| 0 <= k1 < k2 < r@.len() ==> entry_lt(#[trigger] r@[k1], #[trigger] r@[k2]),
                forall|c2: usize, i2: usize| c2 < c && valid_entry(cats@, (c2, i2)) && #[trigger] holds(p, entry(cats@, (c2, i2)))
                    ==> exists|k: int| 0 <= k < r@.len() && r@[k] == (c2, i2),
                forall|i2: usize| i2 < i && #[trigger] holds(p, entry(cats@, (c, i2)))
                    ==> exists|k: int| 0 <= k < r@.len() && r@[k] == (c, i2),
            decreases m - i,
        {
            if check(p, &cats[c].items[i]) {
                let ghost prev = r@;
                r.push((c, i));
                assert forall|k1: int, k2: int| 0 <= k1 < k2 < r@.len() implies entry_lt(#[trigger] r@[k1], #[trigger] r@[k2]) by {
                    if k2 == prev.len() {
                        assert(r@[k1] == prev[k1]);
                        if k1 < before.len() {
                            assert(before[k1].0 < c);
                        }
                    } else {
                        assert(r@[k1] == prev[k1]);
                        assert(r@[k2] == prev[k2]);
                    }
                }
                assert forall|c2: usize, i2: usize| c2 < c && valid_entry(cats@, (c2, i2)) && #[trigger] holds(p, entry(cats@, (c2, i2)))
                    implies exists|k: int| 0 <= k < r@.len() && r@[k] == (c2, i2) by {
                    let k = choose|k: int| 0 <= k < prev.len() && prev[k] == (c2, i2);
                    assert(r@[k] == prev[k]);
                }
                assert forall|i2: usize| i2 < i + 1 && #[trigger] holds(p, entry(cats@, (c, i2)))
                    implies exists|k: int| 0 <= k < r@.len() && r@[k] == (c, i2) by {
                    if i2 < i {
                        let k = choose|k: int| 0 <= k < prev.len() && prev[k] == (c, i2);
                        assert(r@[k] == prev[k]);
                    } else {
                        assert(r@[prev.len() as int] == (c, i2));
                    }
                }
            }
            i = i + 1;
        }
        assert forall|k: int| 0 <= k < r@.len() implies (#[trigger] r@[k]).0 < c + 1 by {
            if k < before.len() {
                assert(before[k].0 < c);
            }
        }
        assert forall|c2: usize, i2: usize| c2 < c + 1 && valid_entry(cats@, (c2, i2)) && #[trigger] holds(p, entry(cats@, (c2, i2)))
            implies exists|k: int| 0 <= k < r@.len() && r@[k] == (c2, i2) by {
            if c2 == c {
                assert(i2 < m);
            }
        }
        c = c + 1;
    }
    r
}

/// A change applied to every entry.
#[derive(Debug, Clone, Copy, PartialEq, Eq, Structural)]
pub enum ItemOp {
    /// Start of a run: bytes forgotten, selected entries pending, others without status.
    ResetForRun,
    /// Cancel: selected entries still pending or running fail as cancelled and are deselected.
    CancelActive,
    /// Errors dismissed: failed entries lose their status.
    ClearErrors,
    /// Elevation refused: selected entries that need it fail and are deselected.
    DenyElevation,
}

/// Whether `after` is `before` with `op` applied.
pub open spec fn transformed(op: ItemOp, before: CleanerItem, after: CleanerItem) -> bool {
    let keeps = after.name == before.name && after.description == before.description
        && after.requires_root == before.requires_root && after.started_at == before.started_at;
    match op {
        ItemOp::ResetForRun => keeps && after.selected == before.selected && after.bytes_cleaned == 0
            && if before.selected {
            after.status matches Some(Status::Pending)
        } else {
            after.status is None
        },
        ItemOp::CancelActive => if before.selected && (before.status matches Some(Status::Running)
            || before.status matches Some(Status::Pending)) {
            keeps && !after.selected && after.bytes_cleaned == before.bytes_cleaned
                && is_error_with(after.status, CANCELLED@)
        } else {
            after == before
        },
        ItemOp::ClearErrors => if before.status matches Some(Status::Error(_)) {
            keeps && after.selected == before.selected && after.bytes_cleaned == before.bytes_cleaned
                && after.status is None
        } else {
            after == before
        },
        ItemOp::DenyElevation => if before.selected && before.requires_root {
            keeps && !after.selected && after.bytes_cleaned == before.bytes_cleaned
                && is_error_with(after.status, NEEDS_ELEVATION@)
        } else {
            after == before
        },
    }
}

/// Whether `after` is `before` with `op` applied to every entry.
pub open spec fn all_transformed(op: ItemOp, before: Seq<CleanerCategory>, after: Seq<CleanerCategory>) -> bool {
    &&& after.len() == before.len()
    &&& forall|c: int| 0 <= c < before.len() ==> (#[trigger] after[c]).name == before[c].name
        && after[c].description == before[c].description && after[c].items@.len() == before[c].items@.len()
    &&& forall|c: usize, i: usize| valid_entry(before, (c, i)) ==> transformed(op, entry(before, (c, i)), #[trigger] entry(after, (c, i)))
}

fn apply_to_item(op: ItemOp, x: &mut CleanerItem)
    ensures
        transformed(op, *old(x), *final(x)),
{
    match op {
        ItemOp::ResetForRun => {
            x.bytes_cleaned = 0;
            if x.selected {
                x.status = Some(Status::Pending);
            } else {
                x.status = None;
            }
        },
        ItemOp::CancelActive => {
            if x.selected && matches!(x.status, Some(Status::Running) | Some(Status::Pending)) {
                x.status = Some(Status::Error(String::from_str(CANCELLED)));
                x.selected = false;
            }
        },
        ItemOp::ClearErrors => {
            if matches!(x.status, Some(Status::Error(_))) {
                x.status = None;
            }
        },
        ItemOp::DenyElevation => {
            if x.selected && x.requires_root {
                x.status = Some(Status::Error(String::from_str(NEEDS_ELEVATION)));
                x.selected = false;
            }
        },
    }
}

/// Applies `op` to every entry.
pub fn apply_to_all(cats: &mut Vec<CleanerCategory>, op: ItemOp)
    ensures
        all_transformed(op, old(cats)@, final(cats)@),
{
    let ghost before = cats@;
    let n = cats.len();
    let mut c: usize = 0;
    while c < n
        invariant
            n == before.len(),
            cats@.len() == n,
            before == old(cats)@,
            c <= n,
            forall|c2: int| c <= c2 < n ==> cats@[c2] == before[c2],
            forall|c2: int| 0 <= c2 < n ==> (#[trigger] cats@[c2]).name == before[c2].name
                && cats@[c2].description == before[c2].description && cats@[c2].items@.len() == before[c2].items@.len(),
            forall|c2: usize, i: usize| c2 < c && valid_entry(before, (c2, i)) ==> transformed(op, entry(before, (c2, i)), #[trigger] entry(cats@, (c2, i))),
        decreases n - c,
    {
        let m = cats[c].items.len();
        let mut i: usize = 0;
        while i < m
            invariant
                n == before.len(),
                cats@.len() == n,
                c < n,
                m == before[c as int].items@.len(),
                i <= m,
                forall|c2: int| c < c2 < n ==> cats@[c2] == before[c2],
                forall|c2: int| 0 <= c2 < n ==> (#[trigger] cats@[c2]).name == before[c2].name
                    && cats@[c2].description == before[c2].description && cats@[c2].items@.len() == before[c2].items@.len(),
                forall|c2: usize, i2: usize| c2 < c && valid_entry(before, (c2, i2)) ==> transformed(op, entry(before, (c2, i2)), #[trigger] entry(cats@, (c2, i2))),
                forall|i2: usize| i2 < i ==> transformed(op, entry(before, (c, i2)), #[trigger] entry(cats@, (c, i2))),
                forall|i2: int| i <= i2 < m ==> cats@[c as int].items@[i2] == before[c as int].items@[i2],
            decreases m - i,
        {
            let ghost prev = cats@;
            apply_to_item(op, &mut cats[c].items[i]);
            assert(cats@[c as int].items@ == prev[c as int].items@.update(i as int, cats@[c as int].items@[i as int]));
            assert forall|c2: usize, i2: usize| c2 < c && valid_entry(before, (c2, i2)) implies transformed(op, entry(before, (c2, i2)), #[trigger] entry(cats@, (c2, i2))) by {
                assert(cats@[c2 as int] == prev[c2 as int]);
                assert(entry(prev, (c2, i2)) == entry(cats@, (c2, i2)));
            }
            assert forall|i2: usize| i2 < i + 1 implies transformed(op, entry(before, (c, i2)), #[trigger] entry(cats@, (c, i2))) by {
                if i2 < i {
                    assert(entry(prev, (c, i2)) == entry(cats@, (c, i2)));
                }
            }
            i = i + 1;
        }
        c = c + 1;
    }
}

/// Whether `e` is the first entry in catalog order with property `p`.
pub open spec fn is_first_where(cats: Seq<CleanerCategory>, p: ItemPred, e: (usize, usize)) -> bool {
    &&& valid_entry(cats, e)
    &&& holds(p, entry(cats, e))
    &&& forall|c: usize, i: usize| valid_entry(cats, (c, i)) && #[trigger] holds(p, entry(cats, (c, i)))
        ==> !entry_lt((c, i), e)
}

/// The head of a list of the entries with a property is the first of them.
pub proof fn lemma_list_first(cats: Seq<CleanerCategory>, p: ItemPred, list: Seq<(usize, usize)>)
    requires
        lists_where(cats, p, list),
        list.len() > 0,
    ensures
        is_first_where(cats, p, list[0]),
{
    assert forall|c: usize, i: usize| valid_entry(cats, (c, i)) && #[trigger] holds(p, entry(cats, (c, i)))
        implies !entry_lt((c, i), list[0]) by {
        let k = choose|k: int| 0 <= k < list.len() && list[k] == (c, i);
        if k > 0 {
            assert(entry_lt(list[0], list[k]));
        }
    }
}

/// Whether `after` is `before` with only entry `e` changed, and there only
/// its status and start time.
pub open spec fn only_entry_changed(
    before: Seq<CleanerCategory>,
    after: Seq<CleanerCategory>,
    e: (usize, usize),
) -> bool {
    &&& after.len() == before.len()
    &&& forall|c: int| 0 <= c < before.len() ==> (#[trigger] after[c]).name == before[c].name
        && after[c].description == before[c].description && after[c].items@.len() == before[c].items@.len()
    &&& forall|c: usize, i: usize| valid_entry(before, (c, i)) && (c, i) != e ==> #[trigger] entry(after, (c, i)) == entry(before, (c, i))
    &&& {
        let x = entry(before, e);
        let y = entry(after, e);
        y.name == x.name && y.description == x.description && y.requires_root == x.requires_root
            && y.selected == x.selected
    }
}

/// Sets the status, bytes and start time of entry `e`.
pub fn update_entry(cats: &mut Vec<CleanerCategory>, e: (usize, usize), status: Option<Status>, bytes: u64, started_at: u64)
    requires
        valid_entry(old(cats)@, e),
    ensures
        only_entry_changed(old(cats)@, final(cats)@, e),
        entry(final(cats)@, e).status == status,
        entry(final(cats)@, e).bytes_cleaned == bytes,
        entry(final(cats)@, e).started_at == started_at,
{
    let ghost prev = cats@;
    let (c, i) = e;
    let x = &mut cats[c].items[i];
    x.status = status;
    x.bytes_cleaned = bytes;
    x.started_at = started_at;
    assert forall|c2: usize, i2: usize| valid_entry(prev, (c2, i2)) && (c2, i2) != e implies #[trigger] entry(cats@, (c2, i2)) == entry(prev, (c2, i2)) by {
        if c2 != c {
            assert(cats@[c2 as int] == prev[c2 as int]);
        }
    }
}

/// When elevation is refused, every entry that was selected and needs
/// elevated rights ends failed with [`NEEDS_ELEVATION`] and deselected, and
/// every other entry is left as it was.
pub proof fn lemma_refusal_fails_elevated_entries(before: Seq<CleanerCategory>, after: Seq<CleanerCategory>)
    requires
        all_transformed(ItemOp::DenyElevation, before, after),
    ensures
        forall|c: usize, i: usize| #[trigger] valid_entry(before, (c, i)) && entry(before, (c, i)).requires_root
            && entry(before, (c, i)).selected ==> is_error_with(entry(after, (c, i)).status, NEEDS_ELEVATION@)
            && !entry(after, (c, i)).selected,
        forall|c: usize, i: usize| #[trigger] valid_entry(before, (c, i)) && !(entry(before, (c, i)).requires_root
            && entry(before, (c, i)).selected) ==> entry(after, (c, i)) == entry(before, (c, i)),
{
    assert forall|c: usize, i: usize| #[trigger] valid_entry(before, (c, i)) implies transformed(ItemOp::DenyElevation, entry(before, (c, i)), entry(after, (c, i))) by {
        assert(transformed(ItemOp::DenyElevation, entry(before, (c, i)), entry(after, (c, i))));
    }
}

} // verus!
