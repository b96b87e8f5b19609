//! The monitor: the one long-lived value, which carries the snapshot from
//! one poll of its directory to the next.

use crate::changes::{changes_between, changes_view, diff, FileState};
use crate::listing::{scan, scan_entries, Listing};
use crate::snapshot::{Snapshot, SnapshotModel};
use vstd::prelude::*;

verus! {

/// What a monitor holds, as mathematics.
pub struct MonitorModel {
    /// The path of the monitored directory.
    pub directory: Seq<char>,
    /// The snapshot of the last poll.
    pub files: SnapshotModel,
}

impl MonitorModel {
    /// One poll that finds the directory as `current`: the monitor as it is
    /// afterwards, and the changes that it reports. The new snapshot takes
    /// the place of the one held before, whole; the directory stays.
    pub open spec fn poll(self, current: SnapshotModel) -> (
        MonitorModel,
        Seq<(Seq<char>, FileState)>,
    ) {
        (
            MonitorModel { directory: self.directory, files: current },
            changes_between(self.files, current),
        )
    }
}

/// Watches one directory by polling: it remembers the snapshot of the last
/// poll and compares the next one against it.
pub struct FileMonitor {
    directory: String,
    file_states: Snapshot,
}

impl View for FileMonitor {
    type V = MonitorModel;

    closed spec fn view(&self) -> MonitorModel {
        MonitorModel { directory: self.directory@, files: self.file_states@ }
    }
}

impl FileMonitor {
    /// A monitor for `directory` that has not polled yet: its snapshot is
    /// empty.
    pub fn new(directory: &str) -> (monitor: Self)
        ensures
            monitor@.directory == directory@,
            monitor@.files == SnapshotModel::empty(),
            monitor@.files.wf(),
    {
        FileMonitor { directory: directory.to_owned(), file_states: Snapshot::new() }
    }

    /// The path of the monitored directory.
    pub fn directory(&self) -> (directory: &str)
        ensures
            directory@ == self@.directory,
    {
        self.directory.as_str()
    }

    /// The snapshot of the last poll; empty before the first.
    pub fn snapshot(&self) -> (snapshot: &Snapshot)
        ensures
            snapshot@ == self@.files,
            snapshot@.wf(),
    {
        proof {
            use_type_invariant(&self.file_states);
            self.file_states.lemma_view_wf();
        }
        &self.file_states
    }

    /// Builds the snapshot that a listing of the directory amounts to: its
    /// regular files whose metadata and modification time could be read.
    /// Whatever could not be read is left out, and a directory that could
    /// not be opened gives the empty snapshot.
    pub fn scan_directory(listing: &Listing) -> (snapshot: Snapshot)
        ensures
            snapshot@ == scan(*listing),
            snapshot@.wf(),
    {
        let mut snapshot = Snapshot::new();
        match listing {
            Some(entries) => {
                let mut i: usize = 0;
                while i < entries.len()
                    invariant
                        i <= entries.len(),
                        snapshot@ == scan_entries(entries@.take(i as int)),
                        snapshot@.wf(),
                    decreases entries.len() - i,
                {
                    assert(entries@.take(i + 1).drop_last() =~= entries@.take(i as int));
                    match &entries[i] {
                        Some(entry) => match &entry.metadata {
                            Some(metadata) => match metadata.modified {
                                Some(modified) => if metadata.is_file {
                                    snapshot.insert(entry.path.clone(), modified);
                                },
                                None => {},
                            },
                            None => {},
                        },
                        None => {},
                    }
                    i += 1;
                }
                assert(entries@.take(entries.len() as int) =~= entries@);
            },
            None => {},
        }
        snapshot
    }

    /// Runs one poll on what was read from the directory: lists the changes
    /// since the last poll, and remembers the new snapshot in place of the
    /// old one.
    pub fn detect_changes(&mut self, listing: &Listing) -> (changes: Vec<(String, FileState)>)
        ensures
            (final(self)@, changes_view(changes@)) == old(self)@.poll(scan(*listing)),
            final(self)@.files.wf(),
    {
        let current = Self::scan_directory(listing);
        let changes = diff(&self.file_states, &current);
        self.file_states = current;
        changes
    }
}

} // verus!
