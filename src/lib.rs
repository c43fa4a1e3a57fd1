//! Disk usage of the entries of a directory: the largest first.
//!
//! The library holds the decisions of a scan; the caller performs the
//! file-system work and hands each result back.
//! - [`walk`]: the total byte size under one path, walked with an explicit stack.
//! - [`schedule`]: admission of entry walks under a concurrency cap.
//! - [`collect`]: one result slot per entry, gathered and ordered by size.
//! - [`report`]: the table printed for the largest entries.

pub mod walk;
pub mod schedule;
pub mod collect;
pub mod report;
