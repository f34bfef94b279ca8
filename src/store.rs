//! Reclaimed-item records and the bounded, queryable store that holds them.
use vstd::prelude::*;
use crate::chars::{chars_of, contains, contains_chars};

verus! {

/// What a reclaimed item was.
#[derive(Debug, Clone, Copy, PartialEq, Eq, Structural)]
pub enum CleanedItemType {
    File,
    Directory,
    Log,
}

/// One file or directory that a cleanup run reported as removed.
/// `timestamp` is the creation time in milliseconds since the Unix epoch.
#[derive(Debug)]
pub struct DetailedCleanedItem {
    pub path: String,
    pub size: u64,
    pub category: String,
    pub cleaner_name: String,
    pub timestamp: u64,
    pub item_type: CleanedItemType,
}

/// The mathematical content of a [`DetailedCleanedItem`].
pub struct ItemView {
    pub path: Seq<char>,
    pub size: u64,
    pub category: Seq<char>,
    pub cleaner_name: Seq<char>,
    pub timestamp: u64,
    pub item_type: CleanedItemType,
}

impl View for DetailedCleanedItem {
    type V = ItemView;

    open spec fn view(&self) -> ItemView {
        ItemView {
            path: self.path@,
            size: self.size,
            category: self.category@,
            cleaner_name: self.cleaner_name@,
            timestamp: self.timestamp,
            item_type: self.item_type,
        }
    }
}

/// The views of a sequence of items.
pub open spec fn views(s: Seq<DetailedCleanedItem>) -> Seq<ItemView> {
    s.map_values(|x: DetailedCleanedItem| x@)
}

impl DetailedCleanedItem {
    /// A record with the given fields.
    pub fn new(
        path: String,
        size: u64,
        category: String,
        cleaner_name: String,
        timestamp: u64,
        item_type: CleanedItemType,
    ) -> (r: Self)
        ensures
            r@ == (ItemView {
                path: path@,
                size,
                category: category@,
                cleaner_name: cleaner_name@,
                timestamp,
                item_type,
            }),
    {
        DetailedCleanedItem { path, size, category, cleaner_name, timestamp, item_type }
    }

    /// A copy with the same content.
    pub fn duplicate(&self) -> (r: Self)
        ensures
            r@ == self@,
    {
        DetailedCleanedItem {
            path: self.path.clone(),
            size: self.size,
            category: self.category.clone(),
            cleaner_name: self.cleaner_name.clone(),
            timestamp: self.timestamp,
            item_type: self.item_type,
        }
    }
}

/// How a query orders its results.
#[derive(Debug, Clone, Copy, PartialEq, Eq, Structural)]
pub enum SortMode {
    /// By path, lexicographically.
    Name,
    /// By size, largest first.
    Size,
    /// By recency, newest first.
    Status,
    /// By category, lexicographically.
    Category,
}

/// The most items a [`ResultStore`] keeps.
pub const CAPACITY: usize = 1000;

/// Strict lexicographic order on texts, by code point.
pub open spec fn text_lt(a: Seq<char>, b: Seq<char>) -> bool
    decreases a.len(),
{
    if b.len() == 0 {
        false
    } else if a.len() == 0 {
        true
    } else if a[0] != b[0] {
        a[0] < b[0]
    } else {
        text_lt(a.drop_first(), b.drop_first())
    }
}

proof fn lemma_text_lt_transitive(a: Seq<char>, b: Seq<char>, c: Seq<char>)
    requires
        text_lt(a, b),
        text_lt(b, c),
    ensures
        text_lt(a, c),
    decreases a.len(),
{
    if a.len() > 0 && a[0] == b[0] && b[0] == c[0] {
        lemma_text_lt_transitive(a.drop_first(), b.drop_first(), c.drop_first());
    }
}

proof fn lemma_text_lt_irreflexive(a: Seq<char>)
    ensures
        !text_lt(a, a),
    decreases a.len(),
{
    if a.len() > 0 {
        lemma_text_lt_irreflexive(a.drop_first());
    }
}

proof fn lemma_text_lt_total(a: Seq<char>, b: Seq<char>)
    requires
        !text_lt(a, b),
        !text_lt(b, a),
    ensures
        a == b,
    decreases a.len(),
{
    if a.len() > 0 && b.len() > 0 && a[0] == b[0] {
        lemma_text_lt_total(a.drop_first(), b.drop_first());
        assert(a =~= seq![a[0]] + a.drop_first());
        assert(b =~= seq![b[0]] + b.drop_first());
    } else if a.len() == 0 && b.len() == 0 {
        assert(a =~= b);
    }
}

/// Whether `a` comes strictly before `b` in the order of `mode`.
pub open spec fn before(mode: SortMode, a: ItemView, b: ItemView) -> bool {
    match mode {
        SortMode::Name => text_lt(a.path, b.path),
        SortMode::Size => a.size > b.size,
        SortMode::Status => a.timestamp > b.timestamp,
        SortMode::Category => text_lt(a.category, b.category),
    }
}

proof fn lemma_before_transitive(mode: SortMode, a: ItemView, b: ItemView, c: ItemView)
    requires
        before(mode, a, b),
        before(mode, b, c),
    ensures
        before(mode, a, c),
{
    match mode {
        SortMode::Name => lemma_text_lt_transitive(a.path, b.path, c.path),
        SortMode::Category => lemma_text_lt_transitive(a.category, b.category, c.category),
        _ => {},
    }
}

proof fn lemma_before_irreflexive(mode: SortMode, a: ItemView)
    ensures
        !before(mode, a, a),
{
    match mode {
        SortMode::Name => lemma_text_lt_irreflexive(a.path),
        SortMode::Category => lemma_text_lt_irreflexive(a.category),
        _ => {},
    }
}

/// `a` before `b` and `c` not before `b` give `a` before `c`.
proof fn lemma_before_then_not_before(mode: SortMode, a: ItemView, b: ItemView, c: ItemView)
    requires
        before(mode, a, b),
        !before(mode, c, b),
    ensures
        before(mode, a, c),
{
    match mode {
        SortMode::Name => {
            if !text_lt(b.path, c.path) {
                lemma_text_lt_total(b.path, c.path);
            } else {
                lemma_text_lt_transitive(a.path, b.path, c.path);
            }
        },
        SortMode::Category => {
            if !text_lt(b.category, c.category) {
                lemma_text_lt_total(b.category, c.category);
            } else {
                lemma_text_lt_transitive(a.category, b.category, c.category);
            }
        },
        _ => {},
    }
}

/// The lower-case form of a text, as Unicode defines it.
pub uninterp spec fn lower_of(s: Seq<char>) -> Seq<char>;

/// Relies on `str::to_lowercase`: the result depends on the characters alone,
/// and the empty string stays empty.
#[verifier::external_body]
fn lowercase(s: &str) -> (r: String)
    ensures
        r@ == lower_of(s@),
        s@.len() == 0 ==> r@.len() == 0,
{
    s.to_lowercase()
}

/// Whether an item matches a search or a category filter, case-insensitively:
/// a non-empty search is looked for in the path, the category and the cleaner
/// name, and the filter is then ignored; else a non-empty filter is looked for
/// in the category; else every item matches.
pub open spec fn item_matches(x: ItemView, search: Seq<char>, filter: Seq<char>) -> bool {
    if search.len() > 0 {
        folded_search_matches(lower_of(search), lower_of(x.path), lower_of(x.category), lower_of(x.cleaner_name))
    } else if filter.len() > 0 {
        contains(lower_of(x.category), lower_of(filter))
    } else {
        true
    }
}

/// Whether a lower-cased search occurs in one of three lower-cased fields.
pub open spec fn folded_search_matches(
    query: Seq<char>,
    path: Seq<char>,
    category: Seq<char>,
    name: Seq<char>,
) -> bool {
    contains(path, query) || contains(category, query) || contains(name, query)
}

/// Whether a lower-cased search occurs in the lower-cased path, category or
/// cleaner name of an item.
pub fn search_matches_folded(query: &str, path: &str, category: &str, name: &str) -> (r: bool)
    ensures
        r == folded_search_matches(query@, path@, category@, name@),
{
    let q = chars_of(query);
    contains_chars(&chars_of(path), &q) || contains_chars(&chars_of(category), &q)
        || contains_chars(&chars_of(name), &q)
}

/// Whether a lower-cased filter occurs in a lower-cased category.
pub fn filter_matches_folded(filter: &str, category: &str) -> (r: bool)
    ensures
        r == contains(category@, filter@),
{
    contains_chars(&chars_of(category), &chars_of(filter))
}

/// Whether an item matches a search or a category filter (see [`item_matches`]).
pub fn matches_query(item: &DetailedCleanedItem, search: &str, filter: &str) -> (r: bool)
    ensures
        r == item_matches(item@, search@, filter@),
{
    if search.unicode_len() > 0 {
        let q = lowercase(search);
        let p = lowercase(item.path.as_str());
        let c = lowercase(item.category.as_str());
        let n = lowercase(item.cleaner_name.as_str());
        search_matches_folded(q.as_str(), p.as_str(), c.as_str(), n.as_str())
    } else if filter.unicode_len() > 0 {
        let f = lowercase(filter);
        let c = lowercase(item.category.as_str());
        filter_matches_folded(f.as_str(), c.as_str())
    } else {
        true
    }
}

/// What a query returns: each stored item that matches, once, and nothing
/// else (`idx[k]` is the position in the store of result `k`), ordered by
/// `mode`, with items that the order does not tell apart kept in store order.
pub open spec fn is_query_result(
    store: Seq<ItemView>,
    res: Seq<ItemView>,
    idx: Seq<int>,
    search: Seq<char>,
    filter: Seq<char>,
    mode: SortMode,
) -> bool {
    &&& idx.len() == res.len()
    &&& forall|k: int| 0 <= k < idx.len() ==> 0 <= #[trigger] idx[k] < store.len() && res[k] == store[idx[k]]
    &&& forall|k1: int, k2: int| 0 <= k1 < k2 < idx.len() ==> idx[k1] != idx[k2]
    &&& forall|j: int| 0 <= j < store.len() ==> (item_matches(#[trigger] store[j], search, filter) <==> exists|k: int| 0 <= k < idx.len() && idx[k] == j)
    &&& forall|k1: int, k2: int| 0 <= k1 < k2 < res.len() ==> !before(mode, #[trigger] res[k2], #[trigger] res[k1])
    &&& forall|k1: int, k2: int| 0 <= k1 < k2 < res.len() && !before(mode, #[trigger] res[k1], #[trigger] res[k2]) ==> idx[k1] < idx[k2]
}

/// The store after inserting `x`: appended, and the oldest item dropped once
/// there are more than [`CAPACITY`].
pub open spec fn store_insert(s: Seq<ItemView>, x: ItemView) -> Seq<ItemView> {
    if s.len() + 1 > CAPACITY {
        s.push(x).drop_first()
    } else {
        s.push(x)
    }
}

/// The store after inserting each of `xs` in turn.
pub open spec fn store_insert_all(s: Seq<ItemView>, xs: Seq<ItemView>) -> Seq<ItemView>
    decreases xs.len(),
{
    if xs.len() == 0 {
        s
    } else {
        store_insert(store_insert_all(s, xs.drop_last()), xs.last())
    }
}

/// The last [`CAPACITY`] items of `s`, or all of them where there are fewer.
pub open spec fn newest(s: Seq<ItemView>) -> Seq<ItemView> {
    if s.len() > CAPACITY {
        s.subrange(s.len() - CAPACITY, s.len() as int)
    } else {
        s
    }
}

/// However many items are inserted, a store holds exactly the newest
/// [`CAPACITY`] of all it was given, in insertion order: never more than
/// [`CAPACITY`] items, the oldest evicted first, the latest always present.
pub proof fn lemma_store_keeps_newest(s: Seq<ItemView>, xs: Seq<ItemView>)
    requires
        s.len() <= CAPACITY,
    ensures
        store_insert_all(s, xs) == newest(s + xs),
        store_insert_all(s, xs).len() <= CAPACITY,
        xs.len() > 0 ==> store_insert_all(s, xs).last() == xs.last(),
    decreases xs.len(),
{
    if xs.len() == 0 {
        assert(s + xs =~= s);
    } else {
        lemma_store_keeps_newest(s, xs.drop_last());
        let prev = s + xs.drop_last();
        assert(s + xs =~= prev.push(xs.last()));
        let a = newest(prev);
        if prev.len() > CAPACITY {
            assert(a.push(xs.last()).drop_first() =~= newest(prev.push(xs.last())));
        } else if prev.len() == CAPACITY {
            assert(a.push(xs.last()).drop_first() =~= newest(prev.push(xs.last())));
        } else {
            assert(a.push(xs.last()) =~= newest(prev.push(xs.last())));
        }
    }
}

/// The text that `mode` orders by (unused for the numeric orders).
pub open spec fn sort_text(mode: SortMode, x: ItemView) -> Seq<char> {
    if mode == SortMode::Name {
        x.path
    } else {
        x.category
    }
}

fn text_less(a: &Vec<char>, b: &Vec<char>) -> (r: bool)
    ensures
        r == text_lt(a@, b@),
{
    let mut i: usize = 0;
    assert(a@.subrange(0, a@.len() as int) =~= a@);
    assert(b@.subrange(0, b@.len() as int) =~= b@);
    while i < a.len() && i < b.len() && a[i] == b[i]
        invariant
            i <= a@.len(),
            i <= b@.len(),
            text_lt(a@, b@) == text_lt(a@.subrange(i as int, a@.len() as int), b@.subrange(i as int, b@.len() as int)),
        decreases a@.len() - i,
    {
        let ghost sa = a@.subrange(i as int, a@.len() as int);
        let ghost sb = b@.subrange(i as int, b@.len() as int);
        assert(sa.drop_first() =~= a@.subrange(i + 1, a@.len() as int));
        assert(sb.drop_first() =~= b@.subrange(i + 1, b@.len() as int));
        i = i + 1;
    }
    let ghost sa = a@.subrange(i as int, a@.len() as int);
    let ghost sb = b@.subrange(i as int, b@.len() as int);
    if i < b.len() {
        if i < a.len() {
            assert(sa[0] == a@[i as int] && sb[0] == b@[i as int]);
            a[i] < b[i]
        } else {
            true
        }
    } else {
        false
    }
}

fn item_before(
    mode: SortMode,
    a: &DetailedCleanedItem,
    ka: &Vec<char>,
    b: &DetailedCleanedItem,
    kb: &Vec<char>,
) -> (r: bool)
    requires
        ka@ == sort_text(mode, a@),
        kb@ == sort_text(mode, b@),
    ensures
        r == before(mode, a@, b@),
{
    match mode {
        SortMode::Size => a.size > b.size,
        SortMode::Status => a.timestamp > b.timestamp,
        _ => text_less(ka, kb),
    }
}

/// The facts a query keeps about the positions `order` it has picked from
/// the first `i` stored items.
pub open spec fn order_ok(
    sv: Seq<ItemView>,
    order: Seq<usize>,
    i: int,
    search: Seq<char>,
    filter: Seq<char>,
    mode: SortMode,
) -> bool {
    &&& forall|k: int| 0 <= k < order.len() ==> #[trigger] order[k] < i
    &&& forall|k1: int, k2: int| 0 <= k1 < k2 < order.len() ==> order[k1] != order[k2]
    &&& forall|j: int| 0 <= j < i ==> (item_matches(#[trigger] sv[j], search, filter) <==> exists|k: int| 0 <= k < order.len() && order[k] == j)
    &&& forall|k1: int, k2: int| 0 <= k1 < k2 < order.len() ==> !before(mode, sv[order[k2] as int], sv[order[k1] as int])
    &&& forall|k1: int, k2: int| 0 <= k1 < k2 < order.len() && !before(mode, sv[order[k1] as int], sv[order[k2] as int]) ==> order[k1] < order[k2]
}

proof fn lemma_skip_keeps_order(
    sv: Seq<ItemView>,
    order: Seq<usize>,
    i: int,
    search: Seq<char>,
    filter: Seq<char>,
    mode: SortMode,
)
    requires
        0 <= i < sv.len(),
        order_ok(sv, order, i, search, filter, mode),
        !item_matches(sv[i], search, filter),
    ensures
        order_ok(sv, order, i + 1, search, filter, mode),
{
    assert forall|j: int| 0 <= j < i + 1 implies (item_matches(#[trigger] sv[j], search, filter) <==> exists|k: int| 0 <= k < order.len() && order[k] == j) by {
        if j == i {
            if exists|k: int| 0 <= k < order.len() && order[k] == j {
                let k = choose|k: int| 0 <= k < order.len() && order[k] == j;
                assert(order[k] < i);
            }
        }
    }
}

#[verifier::rlimit(50)]
proof fn lemma_insert_keeps_order(
    sv: Seq<ItemView>,
    old_order: Seq<usize>,
    p: int,
    i: int,
    search: Seq<char>,
    filter: Seq<char>,
    mode: SortMode,
)
    requires
        0 <= i < sv.len(),
        i <= usize::MAX,
        0 <= p <= old_order.len(),
        order_ok(sv, old_order, i, search, filter, mode),
        item_matches(sv[i], search, filter),
        forall|k: int| 0 <= k < p ==> !before(mode, sv[i], sv[#[trigger] old_order[k] as int]),
        p < old_order.len() ==> before(mode, sv[i], sv[old_order[p] as int]),
    ensures
        order_ok(sv, old_order.insert(p, i as usize), i + 1, search, filter, mode),
{
    let x = sv[i];
    let o = old_order.insert(p, i as usize);
    if p < old_order.len() {
        let y = sv[old_order[p] as int];
        assert forall|m: int| p <= m < old_order.len() implies before(mode, x, sv[#[trigger] old_order[m] as int]) by {
            if m > p {
                lemma_before_then_not_before(mode, x, y, sv[old_order[m] as int]);
            }
        }
        assert forall|m: int| p <= m < old_order.len() implies !before(mode, sv[#[trigger] old_order[m] as int], x) by {
            let z = sv[old_order[m] as int];
            if before(mode, z, x) {
                lemma_before_transitive(mode, z, x, y);
                if m == p {
                    lemma_before_irreflexive(mode, y);
                }
            }
        }
    }
    assert forall|k: int| 0 <= k < o.len() implies #[trigger] o[k] < i + 1 by {
        if k < p {
            assert(o[k] == old_order[k]);
        } else if k > p {
            assert(o[k] == old_order[k - 1]);
        }
    }
    assert forall|k1: int, k2: int| 0 <= k1 < k2 < o.len() implies o[k1] != o[k2] by {
        if k1 < p { assert(o[k1] == old_order[k1]); } else if k1 > p { assert(o[k1] == old_order[k1 - 1]); }
        if k2 < p { assert(o[k2] == old_order[k2]); } else if k2 > p { assert(o[k2] == old_order[k2 - 1]); }
    }
    assert forall|j: int| 0 <= j < i + 1 implies (item_matches(#[trigger] sv[j], search, filter) <==> exists|k: int| 0 <= k < o.len() && o[k] == j) by {
        if j < i {
            if item_matches(sv[j], search, filter) {
                let k = choose|k: int| 0 <= k < old_order.len() && old_order[k] == j;
                if k < p { assert(o[k] == j); } else { assert(o[k + 1] == j); }
            } else {
                if exists|k: int| 0 <= k < o.len() && o[k] == j {
                    let k = choose|k: int| 0 <= k < o.len() && o[k] == j;
                    if k < p { assert(old_order[k] == j); } else if k > p { assert(old_order[k - 1] == j); }
                }
            }
        } else {
            assert(o[p] == j);
        }
    }
    assert forall|k1: int, k2: int| 0 <= k1 < k2 < o.len() implies !before(mode, sv[o[k2] as int], sv[o[k1] as int]) by {
        if k1 < p { assert(o[k1] == old_order[k1]); } else if k1 > p { assert(o[k1] == old_order[k1 - 1]); }
        if k2 < p { assert(o[k2] == old_order[k2]); } else if k2 > p { assert(o[k2] == old_order[k2 - 1]); }
    }
    assert forall|k1: int, k2: int| 0 <= k1 < k2 < o.len() && !before(mode, sv[o[k1] as int], sv[o[k2] as int]) implies o[k1] < o[k2] by {
        if k1 < p { assert(o[k1] == old_order[k1]); } else if k1 > p { assert(o[k1] == old_order[k1 - 1]); }
        if k2 < p { assert(o[k2] == old_order[k2]); } else if k2 > p { assert(o[k2] == old_order[k2 - 1]); }
    }
}

/// A bounded, insertion-ordered collection of reclaimed-item records.
pub struct ResultStore {
    items: Vec<DetailedCleanedItem>,
}

impl View for ResultStore {
    type V = Seq<ItemView>;

    closed spec fn view(&self) -> Seq<ItemView> {
        views(self.items@)
    }
}

impl ResultStore {
    /// Whether the store is within its capacity.
    pub open spec fn wf(&self) -> bool {
        self@.len() <= CAPACITY
    }

    /// An empty store.
    pub fn new() -> (r: Self)
        ensures
            r@ == Seq::<ItemView>::empty(),
            r.wf(),
    {
        let r = ResultStore { items: Vec::new() };
        assert(r@ =~= Seq::<ItemView>::empty());
        r
    }

    /// The number of items held.
    pub fn len(&self) -> (r: usize)
        ensures
            r == self@.len(),
    {
        self.items.len()
    }

    /// The item at position `i`, oldest first.
    pub fn get(&self, i: usize) -> (r: &DetailedCleanedItem)
        requires
            i < self@.len(),
        ensures
            r@ == self@[i as int],
    {
        &self.items[i]
    }

    /// Removes every item.
    pub fn clear(&mut self)
        ensures
            final(self)@ == Seq::<ItemView>::empty(),
            final(self).wf(),
    {
        self.items.clear();
        assert(final(self)@ =~= Seq::<ItemView>::empty());
    }

    /// Appends an item, evicting the oldest once there are more than [`CAPACITY`].
    pub fn insert(&mut self, item: DetailedCleanedItem)
        requires
            old(self).wf(),
        ensures
            final(self)@ == store_insert(old(self)@, item@),
            final(self).wf(),
    {
        let ghost before = self@;
        self.items.push(item);
        assert(self@ =~= before.push(item@));
        if self.items.len() > CAPACITY {
            self.items.remove(0);
            assert(self@ =~= before.push(item@).drop_first());
        }
    }

    /// The stored items that match a search or a category filter (see
    /// [`item_matches`]), ordered by `mode`; ties keep store order.
    pub fn query(&self, search: &str, filter: &str, mode: SortMode) -> (r: Vec<DetailedCleanedItem>)
        ensures
            exists|idx: Seq<int>| is_query_result(self@, views(r@), idx, search@, filter@, mode),
            mode == SortMode::Size ==> forall|a: int, b: int|
                0 <= a < b < r@.len() ==> r@[a].size >= r@[b].size,
    {
        let ghost sv = self@;
        let n = self.items.len();
        let mut order: Vec<usize> = Vec::new();
        let mut keys: Vec<Vec<char>> = Vec::new();
        let mut i: usize = 0;
        while i < n
            invariant
                sv == self@,
                n == sv.len(),
                i <= n,
                keys@.len() == i,
                forall|j: int| 0 <= j < i ==> (#[trigger] keys@[j])@ == sort_text(mode, sv[j]),
                order_ok(sv, order@, i as int, search@, filter@, mode),
            decreases n - i,
        {
            let item = &self.items[i];
            assert(item@ == sv[i as int]);
            let key = if mode == SortMode::Name {
                chars_of(item.path.as_str())
            } else {
                chars_of(item.category.as_str())
            };
            keys.push(key);
            let ghost old_order = order@;
            if matches_query(item, search, filter) {
                let mut p: usize = 0;
                while p < order.len() && !item_before(mode, item, &keys[i], &self.items[order[p]], &keys[order[p]])
                    invariant
                        sv == self@,
                        n == sv.len(),
                        i < n,
                        item@ == sv[i as int],
                        keys@.len() == i + 1,
                        forall|j: int| 0 <= j <= i ==> (#[trigger] keys@[j])@ == sort_text(mode, sv[j]),
                        order@ == old_order,
                        order_ok(sv, order@, i as int, search@, filter@, mode),
                        p <= order@.len(),
                        forall|k: int| 0 <= k < p ==> !before(mode, sv[i as int], sv[#[trigger] order@[k] as int]),
                    decreases order@.len() - p,
                {
                    p = p + 1;
                }
                order.insert(p, i);
                proof {
                    lemma_insert_keeps_order(sv, old_order, p as int, i as int, search@, filter@, mode);
                }
            } else {
                proof {
                    lemma_skip_keeps_order(sv, order@, i as int, search@, filter@, mode);
                }
            }
            i = i + 1;
        }
        assert(order_ok(sv, order@, n as int, search@, filter@, mode));
        let mut r: Vec<DetailedCleanedItem> = Vec::new();
        let mut k: usize = 0;
        while k < order.len()
            invariant
                sv == self@,
                n == sv.len(),
                forall|m: int| 0 <= m < order@.len() ==> #[trigger] order@[m] < n,
                k <= order@.len(),
                r@.len() == k,
                forall|m: int| 0 <= m < k ==> (#[trigger] r@[m])@ == sv[order@[m] as int],
            decreases order@.len() - k,
        {
            r.push(self.items[order[k]].duplicate());
            k = k + 1;
        }
        let ghost idx = order@.map_values(|j: usize| j as int);
        let ghost rv = views(r@);
        assert forall|m: int| 0 <= m < idx.len() implies 0 <= #[trigger] idx[m] < sv.len() && rv[m] == sv[idx[m]] by {
            assert(rv[m] == r@[m]@);
        }
        assert forall|j: int| 0 <= j < sv.len() implies (item_matches(#[trigger] sv[j], search@, filter@) <==> exists|k: int| 0 <= k < idx.len() && idx[k] == j) by {
            if item_matches(sv[j], search@, filter@) {
                let k = choose|k: int| 0 <= k < order@.len() && order@[k] == j;
                assert(idx[k] == j);
            } else if exists|k: int| 0 <= k < idx.len() && idx[k] == j {
                let k = choose|k: int| 0 <= k < idx.len() && idx[k] == j;
                assert(order@[k] == j);
            }
        }
        assert forall|k1: int, k2: int| 0 <= k1 < k2 < rv.len() implies !before(mode, #[trigger] rv[k2], #[trigger] rv[k1]) by {
            assert(rv[k1] == r@[k1]@);
            assert(rv[k2] == r@[k2]@);
        }
        assert forall|k1: int, k2: int| 0 <= k1 < k2 < rv.len() && !before(mode, #[trigger] rv[k1], #[trigger] rv[k2]) implies idx[k1] < idx[k2] by {
            assert(rv[k1] == r@[k1]@);
            assert(rv[k2] == r@[k2]@);
        }
        assert(is_query_result(sv, rv, idx, search@, filter@, mode));
        assert forall|a: int, b: int| 0 <= a < b < r@.len() && mode == SortMode::Size implies r@[a].size >= r@[b].size by {
            assert(rv[a] == r@[a]@);
            assert(rv[b] == r@[b]@);
        }
        r
    }
}

} // verus!
