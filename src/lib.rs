//! Declaratively managed dotfiles.
//!
//! A configuration names target paths; the selected ones are inserted into a path trie
//! whose leaves hold the link path of each target. The trie is traversed in preorder to
//! classify what the filesystem shows at every link path, and to decide the filesystem
//! work that links everything at once, or nothing when some leaf is a problem.

pub mod cli;
pub mod config;
pub mod error;
pub mod iter;
pub mod node;
pub mod path;
pub mod printer;
pub mod select;
pub mod status;
pub mod tree;
