//! Package history timeline: log parsing, cache validity and reconciliation
//! of recorded package events with the currently installed set.
pub mod cache;
pub mod event;
pub mod installed;
pub mod parser;
pub mod reconcile;
pub mod text;
