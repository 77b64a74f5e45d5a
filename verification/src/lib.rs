//! The rules behind a release-notes generator: which commits point to which
//! Shortcut stories, how stories and epics are fetched at most once each, which
//! stories make it into a release, and what the closing summary says.

pub mod commits;
pub mod decimal;
pub mod ids;
pub mod links;
pub mod release;
pub mod repositories;
pub mod retrieval;
pub mod shortcut;
pub mod summary;
pub mod tasks;
