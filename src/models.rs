//! The catalog of cleanup operations and the per-entry run state.
use vstd::prelude::*;

verus! {

/// Where an operation stands in a run, with a message once it has ended.
#[derive(Debug)]
pub enum Status {
    Running,
    Success(String),
    Error(String),
    Pending,
}

/// The stage of an operation, without its message.
#[derive(Debug, Clone, Copy, PartialEq, Eq, Structural)]
pub enum CleanerStatus {
    /// The cleaner is currently running.
    Running,
    /// The cleaner completed successfully.
    Success,
    /// The cleaner encountered an error.
    Error,
    /// The cleaner is waiting to be run.
    Pending,
}

/// The stage of a status.
pub open spec fn stage(s: Status) -> CleanerStatus {
    match s {
        Status::Running => CleanerStatus::Running,
        Status::Success(_) => CleanerStatus::Success,
        Status::Error(_) => CleanerStatus::Error,
        Status::Pending => CleanerStatus::Pending,
    }
}

/// Whether a status is a failure with the given message.
pub open spec fn is_error_with(s: Option<Status>, msg: Seq<char>) -> bool {
    match s {
        Some(Status::Error(m)) => m@ == msg,
        _ => false,
    }
}

/// Whether a status is a success with the given message.
pub open spec fn is_success_with(s: Option<Status>, msg: Seq<char>) -> bool {
    match s {
        Some(Status::Success(m)) => m@ == msg,
        _ => false,
    }
}

/// The spinner frame shown for a running operation at animation step `i`.
pub open spec fn spinner_frame(i: int) -> Seq<char> {
    if i == 0 {
        "⠋"@
    } else if i == 1 {
        "⠙"@
    } else if i == 2 {
        "⠹"@
    } else if i == 3 {
        "⠸"@
    } else if i == 4 {
        "⠼"@
    } else if i == 5 {
        "⠴"@
    } else if i == 6 {
        "⠦"@
    } else if i == 7 {
        "⠧"@
    } else if i == 8 {
        "⠇"@
    } else {
        "⠏"@
    }
}

/// The symbol shown for a status at animation step `frame`.
pub open spec fn status_symbol(s: CleanerStatus, frame: nat) -> Seq<char> {
    match s {
        CleanerStatus::Running => spinner_frame((frame % 10) as int),
        CleanerStatus::Success => "✓"@,
        CleanerStatus::Error => "✗"@,
        CleanerStatus::Pending => "•"@,
    }
}

impl Status {
    /// The stage of this status.
    pub fn kind(&self) -> (r: CleanerStatus)
        ensures
            r == stage(*self),
    {
        match self {
            Status::Running => CleanerStatus::Running,
            Status::Success(_) => CleanerStatus::Success,
            Status::Error(_) => CleanerStatus::Error,
            Status::Pending => CleanerStatus::Pending,
        }
    }

    /// The symbol to draw for this status at animation step `frame`: a
    /// ten-step spinner while running, a mark otherwise.
    pub fn get_animation_frame(&self, frame: usize) -> (r: &'static str)
        ensures
            r@ == status_symbol(stage(*self), frame as nat),
    {
        match self {
            Status::Running => {
                let i = frame % 10;
                if i == 0 {
                    "⠋"
                } else if i == 1 {
                    "⠙"
                } else if i == 2 {
                    "⠹"
                } else if i == 3 {
                    "⠸"
                } else if i == 4 {
                    "⠼"
                } else if i == 5 {
                    "⠴"
                } else if i == 6 {
                    "⠦"
                } else if i == 7 {
                    "⠧"
                } else if i == 8 {
                    "⠇"
                } else {
                    "⠏"
                }
            },
            Status::Success(_) => "✓",
            Status::Error(_) => "✗",
            Status::Pending => "•",
        }
    }
}

/// One cleanup operation of the catalog with its run state. The operation
/// itself is run by the caller; `started_at` is when it last became running.
#[derive(Debug)]
pub struct CleanerItem {
    pub name: String,
    pub description: String,
    pub requires_root: bool,
    pub selected: bool,
    pub bytes_cleaned: u64,
    pub status: Option<Status>,
    pub started_at: u64,
}

impl CleanerItem {
    /// An unselected operation that has not run.
    pub fn new(name: String, description: String, requires_root: bool) -> (r: Self)
        ensures
            r.name@ == name@,
            r.description@ == description@,
            r.requires_root == requires_root,
            !r.selected,
            r.bytes_cleaned == 0,
            r.status is None,
            r.started_at == 0,
    {
        CleanerItem {
            name,
            description,
            requires_root,
            selected: false,
            bytes_cleaned: 0,
            status: None,
            started_at: 0,
        }
    }
}

/// A named group of operations.
#[derive(Debug)]
pub struct CleanerCategory {
    pub name: String,
    pub description: String,
    pub items: Vec<CleanerItem>,
}

/// Which cleaners a listing shows.
#[derive(Debug, Clone, Copy, PartialEq, Eq, Structural)]
pub enum ViewMode {
    /// View showing user land cleaners.
    UserLand,
    /// View showing root cleaners.
    Root,
}

/// The outcome of running one cleaner.
#[derive(Debug)]
pub struct CleanerMessage {
    /// Name of the cleaner that generated the message.
    pub cleaner_name: String,
    /// Content of the message.
    pub message: String,
    /// Whether the message represents an error.
    pub is_error: bool,
    /// Number of bytes cleaned (if successful).
    pub bytes_cleaned: Option<u64>,
}

} // verus!
