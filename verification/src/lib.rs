//! Change detection for a polled directory.
//!
//! A [`FileMonitor`] remembers which regular files a directory held at the
//! last poll and when each was last modified. Handed the listing read at the
//! next poll, it reports every file that was created, modified or deleted in
//! between, each exactly once, and remembers the new state in place of the
//! old one.
//!
//! The library never touches the file system. The caller reads the directory
//! and passes what it read, failures included, as plain values; which of
//! them count as files, and which changes they amount to, is decided here.

pub mod changes;
pub mod listing;
pub mod monitor;
pub mod snapshot;
pub mod theorems;

pub use changes::{diff, FileState};
pub use listing::{FileMetadata, Listing, ListingEntry};
pub use monitor::{FileMonitor, MonitorModel};
pub use snapshot::{Snapshot, SnapshotModel, Timestamp};
