//! Which package and system tools need elevated rights.
use vstd::prelude::*;

verus! {

/// The tools that only run with elevated rights.
pub open spec fn root_commands() -> Seq<Seq<char>> {
    seq![
        "apt"@,
        "apt-get"@,
        "dpkg"@,
        "pacman"@,
        "dnf"@,
        "yum"@,
        "zypper"@,
        "journalctl"@,
        "systemctl"@,
    ]
}

/// Whether a command is one of [`root_commands`].
pub fn command_needs_root(command: &str) -> (r: bool)
    ensures
        r == root_commands().contains(command@),
{
    let c = String::from_str(command);
    let names = [
        "apt",
        "apt-get",
        "dpkg",
        "pacman",
        "dnf",
        "yum",
        "zypper",
        "journalctl",
        "systemctl",
    ];
    let mut k: usize = 0;
    while k < 9
        invariant
            k <= 9,
            c@ == command@,
            forall|j: int| 0 <= j < 9 ==> (#[trigger] names@[j])@ == root_commands()[j],
            forall|j: int| 0 <= j < k ==> root_commands()[j] != command@,
        decreases 9 - k,
    {
        if c.eq(&String::from_str(names[k])) {
            assert(root_commands()[k as int] == command@);
            return true;
        }
        k = k + 1;
    }
    false
}

} // verus!
