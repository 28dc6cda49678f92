//! Synchronisation engine that mirrors course-site content to local storage.
//!
//! The crate holds the decision logic: how links are classified, how a crawl
//! is bounded and deduplicated, how crawled resources are merged into the
//! known records, in which order downloads are admitted and how their
//! results move each record through its download states, and how
//! postprocessing is resumed and interrupted. Network and file access are
//! left to the caller, which performs the actions these state machines hand
//! out and reports what happened.

mod clock;
pub mod data;
pub mod download;
pub mod moodle;
pub mod postprocessing;
pub mod reconcile;
pub mod text;
pub mod urls;
pub mod vectors;
