//! Items that a cleaner removed, and the tally of one cleaning operation.
use vstd::prelude::*;

verus! {

/// Kind of a removed item.
#[derive(Debug, Clone, Copy, PartialEq, Eq, Structural)]
pub enum CleanedItemType {
    File,
    Directory,
    SymLink,
}

/// A removed file system item.
#[derive(Debug)]
pub struct CleanedItem {
    /// The path of the item.
    pub path: String,
    /// Size in bytes.
    pub size: u64,
    /// What the item was.
    pub item_type: CleanedItemType,
}

/// The last component of a path, as the platform's path rules read it, or
/// none where the path ends in `..` or has no components.
pub uninterp spec fn file_name_of(path: Seq<char>) -> Option<Seq<char>>;

/// Relies on `std::path::Path::file_name`: the final component of the path,
/// if there is one.
#[verifier::external_body]
fn path_file_name(path: &str) -> (r: Option<String>)
    ensures
        r matches Some(n) ==> file_name_of(path@) == Some(n@),
        r is None ==> file_name_of(path@) is None,
{
    std::path::Path::new(path).file_name().map(|n| n.to_string_lossy().to_string())
}

/// The display name of an item: its file name where the path has one,
/// else the whole path.
pub fn name_or_path(file_name: Option<String>, path: &String) -> (r: String)
    ensures
        r@ == match file_name {
            Some(n) => n@,
            None => path@,
        },
{
    match file_name {
        Some(n) => n,
        None => path.clone(),
    }
}

impl CleanedItem {
    /// An item with the given fields.
    pub fn new(path: String, size: u64, item_type: CleanedItemType) -> (r: Self)
        ensures
            r.path@ == path@,
            r.size == size,
            r.item_type == item_type,
    {
        CleanedItem { path, size, item_type }
    }

    /// A removed file.
    pub fn file(path: String, size: u64) -> (r: Self)
        ensures
            r.path@ == path@,
            r.size == size,
            r.item_type == CleanedItemType::File,
    {
        Self::new(path, size, CleanedItemType::File)
    }

    /// A removed directory.
    pub fn directory(path: String, size: u64) -> (r: Self)
        ensures
            r.path@ == path@,
            r.size == size,
            r.item_type == CleanedItemType::Directory,
    {
        Self::new(path, size, CleanedItemType::Directory)
    }

    /// The path as text.
    pub fn path_str(&self) -> (r: String)
        ensures
            r@ == self.path@,
    {
        self.path.clone()
    }

    /// The file name of the path, or the whole path where it has none.
    pub fn filename(&self) -> (r: String)
        ensures
            r@ == match file_name_of(self.path@) {
                Some(n) => n,
                None => self.path@,
            },
    {
        name_or_path(path_file_name(self.path.as_str()), &self.path)
    }
}

/// The sum of the sizes of a sequence of items.
pub open spec fn sizes_total(items: Seq<CleanedItem>) -> nat
    decreases items.len(),
{
    if items.len() == 0 {
        0
    } else {
        (sizes_total(items.drop_last()) + items.last().size) as nat
    }
}

/// What one cleaning operation removed.
#[derive(Debug)]
pub struct CleaningResult {
    /// Total bytes cleaned.
    pub total_bytes: u64,
    /// The removed items.
    pub items: Vec<CleanedItem>,
}

impl CleaningResult {
    /// An empty tally.
    pub fn new() -> (r: Self)
        ensures
            r.total_bytes == 0,
            r.items@.len() == 0,
    {
        CleaningResult { total_bytes: 0, items: Vec::new() }
    }

    /// Adds an item and its size.
    pub fn add_item(&mut self, item: CleanedItem)
        requires
            old(self).total_bytes + item.size <= u64::MAX,
        ensures
            final(self).total_bytes == old(self).total_bytes + item.size,
            final(self).items@ == old(self).items@.push(item),
    {
        self.total_bytes = self.total_bytes + item.size;
        self.items.push(item);
    }

    /// Adds several items and their sizes, in order.
    pub fn add_items(&mut self, items: Vec<CleanedItem>)
        requires
            old(self).total_bytes + sizes_total(items@) <= u64::MAX,
        ensures
            final(self).total_bytes == old(self).total_bytes + sizes_total(items@),
            final(self).items@ == old(self).items@ + items@,
    {
        let ghost given = items@;
        let ghost start = self.items@;
        let mut rest = items;
        let mut k: usize = 0;
        let n = rest.len();
        while k < n
            invariant
                n == given.len(),
                k <= n,
                rest@ == given.subrange(k as int, n as int),
                self.items@ == start + given.subrange(0, k as int),
                self.total_bytes == old(self).total_bytes + sizes_total(given.subrange(0, k as int)),
                old(self).total_bytes + sizes_total(given) <= u64::MAX,
            decreases n - k,
        {
            let item = rest.remove(0);
            assert(item == given[k as int]);
            assert(rest@ =~= given.subrange(k + 1, n as int));
            assert(given.subrange(0, k + 1).drop_last() =~= given.subrange(0, k as int));
            proof { lemma_sizes_prefix(given, k + 1); }
            self.add_item(item);
            assert(self.items@ =~= start + given.subrange(0, k + 1));
            k = k + 1;
        }
        assert(given.subrange(0, n as int) =~= given);
    }

    /// Takes over another tally: its bytes and, after this one's, its items.
    pub fn merge(&mut self, other: CleaningResult)
        requires
            old(self).total_bytes + other.total_bytes <= u64::MAX,
        ensures
            final(self).total_bytes == old(self).total_bytes + other.total_bytes,
            final(self).items@ == old(self).items@ + other.items@,
    {
        self.total_bytes = self.total_bytes + other.total_bytes;
        let mut items = other.items;
        self.items.append(&mut items);
    }

    /// The number of items.
    pub fn item_count(&self) -> (r: usize)
        ensures
            r == self.items@.len(),
    {
        self.items.len()
    }
}

proof fn lemma_sizes_prefix(items: Seq<CleanedItem>, k: int)
    requires
        0 <= k <= items.len(),
    ensures
        sizes_total(items.subrange(0, k)) <= sizes_total(items),
    decreases items.len(),
{
    if k < items.len() {
        assert(items.drop_last().subrange(0, k) =~= items.subrange(0, k));
        lemma_sizes_prefix(items.drop_last(), k);
    } else {
        assert(items.subrange(0, k) =~= items);
    }
}

impl Default for CleaningResult {
    fn default() -> (r: Self)
        ensures
            r.total_bytes == 0,
            r.items@.len() == 0,
    {
        Self::new()
    }
}

} // verus!
