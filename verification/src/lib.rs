//! Core of an in-process file picker for an interactive editor.
//!
//! The library maintains a sorted, incrementally updated index of workspace
//! files annotated with git status, publishes immutable snapshots of that
//! index, and answers ranked fuzzy-search queries against a snapshot.
//! Scores combine the base match quality with frecency, directory distance
//! from a current file, and filename-structural bonuses.

pub mod git_status;
pub mod index;
pub mod path_util;
pub mod scanner;
pub mod score;
pub mod search;
pub mod seq_util;
pub mod text;
pub mod types;
