//! What holds of every monitor, whatever directory it watches and whatever
//! it is handed.

use crate::changes::{
    lemma_each_change_once, lemma_same_files_no_changes, reports_nothing, reports_once, FileState,
};
use crate::listing::{
    lemma_scan_entries_contains, lemma_scan_entries_skips, lemma_scan_entries_wf, scan_entries,
    stands_for, ListingEntry,
};
use crate::monitor::MonitorModel;
use crate::snapshot::SnapshotModel;
use vstd::prelude::*;

verus! {

/// A poll that finds the directory as the last poll left it reports nothing:
/// whatever the monitor held before, after a poll that found `current` a
/// second poll that finds `current` again is silent.
pub proof fn theorem_repeated_poll_is_silent(monitor: MonitorModel, current: SnapshotModel)
    ensures
        monitor.poll(current).0.poll(current).1 == Seq::<(Seq<char>, FileState)>::empty(),
        monitor.poll(current).0.poll(current).0 == monitor.poll(current).0,
{
    theorem_same_files_are_silent(monitor, current, current);
}

/// The order in which a directory lists its files is of no account: a poll
/// that finds the same files with the same modification times as the last
/// one reports nothing.
pub proof fn theorem_same_files_are_silent(
    monitor: MonitorModel,
    first: SnapshotModel,
    second: SnapshotModel,
)
    requires
        first.times == second.times,
    ensures
        monitor.poll(first).0.poll(second).1 == Seq::<(Seq<char>, FileState)>::empty(),
{
    lemma_same_files_no_changes(first, second);
}

/// A file that the last poll did not find and this one does is reported
/// exactly once, as created: there is no report of it as modified or
/// deleted, and the monitor holds it afterwards.
pub proof fn theorem_created_file_is_reported_once(
    monitor: MonitorModel,
    current: SnapshotModel,
    path: Seq<char>,
)
    requires
        monitor.files.wf(),
        current.wf(),
        !monitor.files.contains(path),
        current.contains(path),
    ensures
        reports_once(monitor.poll(current).1, path, FileState::Created),
        !monitor.poll(current).1.contains((path, FileState::Modified)),
        !monitor.poll(current).1.contains((path, FileState::Deleted)),
        monitor.poll(current).0.files.contains(path),
{
    lemma_each_change_once(monitor.files, current, path);
}

/// A file that the last poll found and this one does not is reported exactly
/// once, as deleted, and the monitor holds it no longer.
pub proof fn theorem_deleted_file_is_reported_once(
    monitor: MonitorModel,
    current: SnapshotModel,
    path: Seq<char>,
)
    requires
        monitor.files.wf(),
        current.wf(),
        monitor.files.contains(path),
        !current.contains(path),
    ensures
        reports_once(monitor.poll(current).1, path, FileState::Deleted),
        !monitor.poll(current).1.contains((path, FileState::Created)),
        !monitor.poll(current).1.contains((path, FileState::Modified)),
        !monitor.poll(current).0.files.contains(path),
{
    lemma_each_change_once(monitor.files, current, path);
}

/// A deleted file is reported by one poll only: while it stays away, the
/// polls that follow are silent on it.
pub proof fn theorem_deleted_file_is_not_reported_again(
    monitor: MonitorModel,
    current: SnapshotModel,
    next: SnapshotModel,
    path: Seq<char>,
)
    requires
        current.wf(),
        next.wf(),
        !current.contains(path),
        !next.contains(path),
    ensures
        reports_nothing(monitor.poll(current).0.poll(next).1, path),
{
    lemma_each_change_once(current, next, path);
}

/// A file that both polls found is reported exactly once, as modified, if
/// its modification time is strictly later than at the last poll. With an
/// equal or an earlier time there is no report of it at all.
pub proof fn theorem_modified_file_is_reported_once(
    monitor: MonitorModel,
    current: SnapshotModel,
    path: Seq<char>,
)
    requires
        monitor.files.wf(),
        current.wf(),
        monitor.files.contains(path),
        current.contains(path),
    ensures
        current.times[path] > monitor.files.times[path] ==> reports_once(
            monitor.poll(current).1,
            path,
            FileState::Modified,
        ),
        current.times[path] <= monitor.files.times[path] ==> reports_nothing(
            monitor.poll(current).1,
            path,
        ),
        monitor.poll(current).0.files.times[path] == current.times[path],
{
    lemma_each_change_once(monitor.files, current, path);
}

/// An entry whose metadata could not be read counts as if the directory did
/// not list it: the poll gives the same monitor and the same changes with
/// the entry as without.
pub proof fn theorem_unreadable_entry_counts_as_absent(
    monitor: MonitorModel,
    entries: Seq<Option<ListingEntry>>,
    i: int,
)
    requires
        0 <= i < entries.len(),
        match entries[i] {
            Some(entry) => entry.metadata is None,
            None => true,
        },
    ensures
        monitor.poll(scan_entries(entries)) == monitor.poll(scan_entries(entries.remove(i))),
{
    lemma_scan_entries_skips(entries, i);
}

/// A file that the last poll found and whose metadata can no longer be read
/// is reported exactly once, as deleted, and the monitor holds it no longer.
pub proof fn theorem_unreadable_file_is_reported_deleted(
    monitor: MonitorModel,
    entries: Seq<Option<ListingEntry>>,
    path: Seq<char>,
)
    requires
        monitor.files.wf(),
        monitor.files.contains(path),
        forall|i: int|
            0 <= i < entries.len() ==> match #[trigger] entries[i] {
                Some(entry) => entry.path@ == path ==> entry.metadata is None,
                None => true,
            },
    ensures
        reports_once(monitor.poll(scan_entries(entries)).1, path, FileState::Deleted),
        !monitor.poll(scan_entries(entries)).0.files.contains(path),
{
    let current = scan_entries(entries);
    lemma_scan_entries_wf(entries);
    lemma_scan_entries_contains(entries, path);
    assert forall|i: int| 0 <= i < entries.len() implies !stands_for(
        #[trigger] entries[i],
        path,
    ) by {}
    lemma_each_change_once(monitor.files, current, path);
}

} // verus!
