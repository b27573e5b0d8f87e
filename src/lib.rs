//! Counting of empty and non-empty lines over a set of files, in total or
//! grouped by file extension, with the reductions proved independent of how
//! the work is split between threads.

pub mod classify;
pub mod count;
pub mod ext;
pub mod stats;
