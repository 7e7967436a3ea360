use vstd::prelude::*;

use crate::node::strings_view;

verus! {

/// The main configuration: the defaults and the targets to manage, in order.
#[derive(Debug, Default, PartialEq, Eq)]
pub struct Config {
    /// Tags that are always active.
    pub tags: Option<Vec<String>>,
    /// Directory where links are created unless a target says otherwise.
    pub base_dir: String,
    /// Directory that holds the targets; the current directory when absent.
    pub work_dir: Option<String>,
    /// Target paths with their options.
    pub targets: Option<Vec<(String, Target)>>,
}

/// Represents configuration for a dotfile.
#[derive(Debug, Default, PartialEq, Eq)]
pub struct Target {
    /// Link options of a dotfile.
    pub link: Option<Link>,
    /// Tags under which a dotfile should be managed.
    pub tags: Option<Tags>,
}

/// Configuration for constraints that toggle certain dotfiles on and off.
#[derive(Debug, Default, PartialEq, Eq)]
pub struct Tags {
    /// These tags are evaluated conjunctively.
    pub all_of: Option<Vec<String>>,
    /// These tags are evaluated disjunctively.
    pub any_of: Option<Vec<String>>,
}

/// Configuration for the symlink of dotfiles.
#[derive(Debug, Default, PartialEq, Eq)]
pub struct Link {
    /// The place where the symlink gets created in.
    pub base_dir: Option<String>,
    /// Filename for the symlink.
    pub name: Option<String>,
}

/// The strings of an optional list, none when absent.
pub open spec fn opt_strings(v: Option<Vec<String>>) -> Seq<Seq<char>> {
    match v {
        Some(v) => strings_view(v@),
        None => Seq::empty(),
    }
}

} // verus!
