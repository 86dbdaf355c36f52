//! Injects an extra dependency into a package manifest for the length of a
//! build, scans the resulting lock file for packages that were resolved more
//! than once, and puts both files back as they were.
//!
//! - `document`: the manifest model, a table of keys to values.
//! - `manifest`: the dependency injector and the typed accessors.
//! - `dupes`: the duplicate scanner over a lock document's package list.
//! - `session`: the run as a state machine of actions and events.
//! - `restore`: what a run does to its files, and the restoration laws.
pub mod document;
pub mod dupes;
pub mod manifest;
pub mod restore;
pub mod session;
