//! Parallel, progress-tracked archive building: the rules that decide how a
//! directory tree is split into work groups, how progress is recorded, and in
//! which order an archive is assembled from its segments.

pub mod balance;
pub mod contents;
pub mod handlers;
pub mod host;
pub mod job;
pub mod listing;
pub mod models;
pub mod ordering;
pub mod progress;
pub mod reporter;
pub mod segments;
pub mod state;
pub mod text;
pub mod walker;
