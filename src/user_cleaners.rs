//! The cleaners that work without elevated rights.
use vstd::prelude::*;

verus! {

/// The name and description of one cleaner.
#[derive(Debug, Clone, Copy)]
pub struct CleanerInfo {
    pub name: &'static str,
    pub description: &'static str,
}

/// The names and descriptions of the user-level cleaners, in order.
pub open spec fn catalog() -> Seq<(Seq<char>, Seq<char>)> {
    seq![
        ("Browser Caches"@, "Clean Firefox and Chrome/Chromium caches"@),
        ("Application Caches"@, "Clean application caches in ~/.cache"@),
        ("Thumbnail Caches"@, "Clean thumbnail caches"@),
        ("Temporary Files"@, "Clean temporary files in /tmp owned by the user"@),
        ("Package Manager Caches"@, "Clean user package manager caches like pip, npm, cargo"@),
        ("Trash"@, "Empty trash folder"@),
    ]
}

/// The cleaners, in order.
pub fn get_cleaners() -> (r: Vec<CleanerInfo>)
    ensures
        r@.len() == catalog().len(),
        forall|k: int| 0 <= k < r@.len() ==> (#[trigger] r@[k]).name@ == catalog()[k].0 && r@[k].description@ == catalog()[k].1,
{
    let mut r: Vec<CleanerInfo> = Vec::new();
    r.push(CleanerInfo { name: "Browser Caches", description: "Clean Firefox and Chrome/Chromium caches" });
    r.push(CleanerInfo { name: "Application Caches", description: "Clean application caches in ~/.cache" });
    r.push(CleanerInfo { name: "Thumbnail Caches", description: "Clean thumbnail caches" });
    r.push(CleanerInfo { name: "Temporary Files", description: "Clean temporary files in /tmp owned by the user" });
    r.push(CleanerInfo { name: "Package Manager Caches", description: "Clean user package manager caches like pip, npm, cargo" });
    r.push(CleanerInfo { name: "Trash", description: "Empty trash folder" });
    r
}

/// One line per cleaner: its name, a colon and its description.
pub fn list_cleaners() -> (r: Vec<String>)
    ensures
        r@.len() == catalog().len(),
        forall|k: int| 0 <= k < r@.len() ==> (#[trigger] r@[k])@ == catalog()[k].0 + ": "@ + catalog()[k].1,
{
    let cleaners = get_cleaners();
    let mut r: Vec<String> = Vec::new();
    let mut k: usize = 0;
    while k < cleaners.len()
        invariant
            cleaners@.len() == catalog().len(),
            forall|j: int| 0 <= j < cleaners@.len() ==> (#[trigger] cleaners@[j]).name@ == catalog()[j].0 && cleaners@[j].description@ == catalog()[j].1,
            k <= cleaners@.len(),
            r@.len() == k,
            forall|j: int| 0 <= j < k ==> (#[trigger] r@[j])@ == catalog()[j].0 + ": "@ + catalog()[j].1,
        decreases cleaners@.len() - k,
    {
        let info = cleaners[k];
        let mut line = String::from_str(info.name);
        line.append(": ");
        line.append(info.description);
        r.push(line);
        k = k + 1;
    }
    r
}

} // verus!
