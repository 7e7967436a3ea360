use vstd::prelude::*;

use crate::node::Status;

verus! {

/// Run-wide policy that decides which statuses can be acted upon.
#[derive(Debug, Default, PartialEq, Eq, Clone, Copy)]
pub struct LinkOpts {
    /// Replace symlinks that point elsewhere.
    pub replace: bool,
    /// Create missing parent directories.
    pub create_dirs: bool,
}

/// What the filesystem shows at a link path, gathered by whoever can read it.
#[derive(Debug, Default, PartialEq, Eq)]
pub struct Probe {
    /// Some ancestor of the link path exists and is not a directory.
    pub obstructed: bool,
    /// Where the link path points, when it is a symlink.
    pub symlink_target: Option<String>,
    /// The link path exists (following symlinks).
    pub exists: bool,
    /// The link path has no parent, an empty one, or an existing one.
    pub parent_exists: bool,
}

/// The status that `probe` gives to a leaf whose symlink should point at `expected`.
/// The first rule that applies wins.
pub open spec fn probe_status(probe: Probe, expected: Seq<char>) -> Status {
    if probe.obstructed {
        Status::Obstructed
    } else if probe.symlink_target is Some {
        if crate::path::path_segments(probe.symlink_target->Some_0@)
            == crate::path::path_segments(expected) {
            Status::Done
        } else {
            Status::Mismatch
        }
    } else if probe.exists {
        Status::Conflict
    } else if probe.parent_exists {
        Status::Ready
    } else {
        Status::Unparented
    }
}

/// Whether `status` blocks linking under `opts`.
pub open spec fn blocks(status: Status, opts: LinkOpts) -> bool {
    match status {
        Status::Conflict | Status::Obstructed => true,
        Status::Mismatch => !opts.replace,
        Status::Unparented => !opts.create_dirs,
        _ => false,
    }
}

/// Classifies a leaf from what the filesystem shows at its link path.
pub fn classify(probe: &Probe, expected: &String) -> (r: Status)
    ensures
        r == probe_status(*probe, expected@),
{
    if probe.obstructed {
        Status::Obstructed
    } else if let Some(existing) = &probe.symlink_target {
        if crate::select::same_path(existing, expected) {
            Status::Done
        } else {
            Status::Mismatch
        }
    } else if probe.exists {
        Status::Conflict
    } else if probe.parent_exists {
        Status::Ready
    } else {
        Status::Unparented
    }
}

impl Status {
    /// Whether this status blocks linking under `opts`: a conflict or an obstruction
    /// always does, a mismatch unless replacing, a missing parent unless creating it.
    pub fn is_problem(&self, opts: &LinkOpts) -> (r: bool)
        ensures
            r == blocks(*self, *opts),
    {
        match self {
            Status::Conflict | Status::Obstructed => true,
            Status::Mismatch => !opts.replace,
            Status::Unparented => !opts.create_dirs,
            _ => false,
        }
    }
}

} // verus!
