//! The cleaners that need elevated rights.
use vstd::prelude::*;

verus! {

/// The name and description of one cleaner.
#[derive(Debug, Clone, Copy)]
pub struct CleanerInfo {
    pub name: &'static str,
    pub description: &'static str,
}

/// The names and descriptions of the system-level cleaners, in order.
pub open spec fn catalog() -> Seq<(Seq<char>, Seq<char>)> {
    seq![
        ("Package Manager Caches"@, "Clean package manager caches (apt, pacman, dnf, etc.)"@),
        ("System Logs"@, "Clean old system logs"@),
        ("System Caches"@, "Clean system-wide cache directories"@),
        ("Temporary Files"@, "Clean system temporary files"@),
        ("Old Kernels"@, "Remove old unused kernels"@),
        ("Crash Reports"@, "Remove system crash reports and core dumps"@),
    ]
}

/// The cleaners, in order.
pub fn get_cleaners() -> (r: Vec<CleanerInfo>)
    ensures
        r@.len() == catalog().len(),
        forall|k: int| 0 <= k < r@.len() ==> (#[trigger] r@[k]).name@ == catalog()[k].0 && r@[k].description@ == catalog()[k].1,
{
    let mut r: Vec<CleanerInfo> = Vec::new();
    r.push(CleanerInfo { name: "Package Manager Caches", description: "Clean package manager caches (apt, pacman, dnf, etc.)" });
    r.push(CleanerInfo { name: "System Logs", description: "Clean old system logs" });
    r.push(CleanerInfo { name: "System Caches", description: "Clean system-wide cache directories" });
    r.push(CleanerInfo { name: "Temporary Files", description: "Clean system temporary files" });
    r.push(CleanerInfo { name: "Old Kernels", description: "Remove old unused kernels" });
    r.push(CleanerInfo { name: "Crash Reports", description: "Remove system crash reports and core dumps" });
    r
}

/// One line per cleaner: its name, a colon and its description.
pub fn list_cleaners() -> (r: Vec<String>)
    ensures
        r@.len() == catalog().len(),
        forall|k: int| 0 <= k < r@.len() ==> (#[trigger] r@[k])@ == catalog()[k].0 + ": "@ + catalog()[k].1,
{
    let cleaners = get_cleaners();
    let mut r: Vec<String> = Vec::new();
    let mut k: usize = 0;
    while k < cleaners.len()
        invariant
            cleaners@.len() == catalog().len(),
            forall|j: int| 0 <= j < cleaners@.len() ==> (#[trigger] cleaners@[j]).name@ == catalog()[j].0 && cleaners@[j].description@ == catalog()[j].1,
            k <= cleaners@.len(),
            r@.len() == k,
            forall|j: int| 0 <= j < k ==> (#[trigger] r@[j])@ == catalog()[j].0 + ": "@ + catalog()[j].1,
        decreases cleaners@.len() - k,
    {
        let info = cleaners[k];
        let mut line = String::from_str(info.name);
        line.append(": ");
        line.append(info.description);
        r.push(line);
        k = k + 1;
    }
    r
}

} // verus!
