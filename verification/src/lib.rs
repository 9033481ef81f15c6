//! A launcher that is driven by keystrokes. A configuration is a tree of named
//! nodes; each leaf is an entry that can be launched, with the executable, path,
//! arguments and environment that it inherits from the nodes above it. The keys
//! of the entries are typed a character at a time until one entry is left.
//!
//! `tree` holds the configuration, `entries` and `flatten` turn it into the list
//! of entries, `conflict` keeps the keys of the entries apart, `navigation`
//! takes the keys that are typed, and `ui` says what the list looks like.
//! `paths` relates the entries to the paths of the tree, `theme` holds the
//! colours, and `text` the work on strings.

pub mod conflict;
pub mod entries;
pub mod flatten;
pub mod navigation;
pub mod paths;
pub mod text;
pub mod theme;
pub mod tree;
pub mod ui;
