//! What one read of a directory gave, and the snapshot that it amounts to.
//!
//! Reading a directory can fail as a whole, for a single entry, for an
//! entry's metadata, or for the modification time in that metadata. None of
//! these failures is an error here: whatever could not be read is taken not
//! to be there.

use crate::snapshot::{SnapshotModel, Timestamp};
use vstd::prelude::*;

verus! {

/// What reading the metadata of a directory entry gave.
#[derive(Debug, Clone, Copy)]
pub struct FileMetadata {
    /// Whether the entry is a regular file: no directory, no symbolic link,
    /// no special file.
    pub is_file: bool,
    /// The time of the last modification, or `None` where it could not be
    /// read.
    pub modified: Option<Timestamp>,
}

/// One entry of a directory listing.
#[derive(Debug, Clone)]
pub struct ListingEntry {
    /// The path of the entry.
    pub path: String,
    /// The entry's metadata, or `None` where it could not be read.
    pub metadata: Option<FileMetadata>,
}

/// What one read of a directory gave: `None` where the directory could not
/// be opened, else its immediate entries in the order in which they were
/// read, with `None` for an entry that could not be read.
pub type Listing = Option<Vec<Option<ListingEntry>>>;

impl ListingEntry {
    /// The file that the entry stands for, as path and modification time:
    /// it must be a regular file of which both metadata and modification
    /// time were read.
    pub open spec fn file(self) -> Option<(Seq<char>, Timestamp)> {
        match self.metadata {
            Some(metadata) => match metadata.modified {
                Some(modified) => if metadata.is_file {
                    Some((self.path@, modified))
                } else {
                    None
                },
                None => None,
            },
            None => None,
        }
    }
}

/// The file that a listing's item stands for, if any.
pub open spec fn listed_file(item: Option<ListingEntry>) -> Option<(Seq<char>, Timestamp)> {
    match item {
        Some(entry) => entry.file(),
        None => None,
    }
}

/// The snapshot that a directory's entries amount to: the files that they
/// stand for, inserted one after the other.
pub open spec fn scan_entries(entries: Seq<Option<ListingEntry>>) -> SnapshotModel
    decreases entries.len(),
{
    if entries.len() == 0 {
        SnapshotModel::empty()
    } else {
        let before = scan_entries(entries.drop_last());
        match listed_file(entries.last()) {
            Some((path, modified)) => before.insert(path, modified),
            None => before,
        }
    }
}

/// The snapshot that a listing amounts to. A directory that could not be
/// opened counts as one without files.
pub open spec fn scan(listing: Listing) -> SnapshotModel {
    match listing {
        Some(entries) => scan_entries(entries@),
        None => SnapshotModel::empty(),
    }
}

/// The snapshot of a listing is well-formed.
pub proof fn lemma_scan_entries_wf(entries: Seq<Option<ListingEntry>>)
    ensures
        scan_entries(entries).wf(),
    decreases entries.len(),
{
    if entries.len() > 0 {
        lemma_scan_entries_wf(entries.drop_last());
        match listed_file(entries.last()) {
            Some((path, modified)) => {
                scan_entries(entries.drop_last()).lemma_insert_wf(path, modified);
            },
            None => {},
        }
    }
}

/// Whether a listing's item stands for a file at `path`.
pub open spec fn stands_for(item: Option<ListingEntry>, path: Seq<char>) -> bool {
    match listed_file(item) {
        Some(file) => file.0 == path,
        None => false,
    }
}

/// The snapshot of a listing holds exactly the paths for which one of the
/// entries stands.
pub proof fn lemma_scan_entries_contains(entries: Seq<Option<ListingEntry>>, path: Seq<char>)
    ensures
        scan_entries(entries).contains(path) <==> exists|i: int|
            0 <= i < entries.len() && stands_for(#[trigger] entries[i], path),
    decreases entries.len(),
{
    if entries.len() > 0 {
        let rest = entries.drop_last();
        lemma_scan_entries_contains(rest, path);
        if scan_entries(rest).contains(path) {
            let i = choose|i: int| 0 <= i < rest.len() && stands_for(#[trigger] rest[i], path);
            assert(stands_for(entries[i], path));
        }
        if exists|i: int| 0 <= i < entries.len() && stands_for(#[trigger] entries[i], path) {
            let i = choose|i: int| 0 <= i < entries.len() && stands_for(#[trigger] entries[i], path);
            if i < rest.len() {
                assert(stands_for(rest[i], path));
            }
        }
    }
}

/// Where several entries stand for one path, the last of them gives the
/// snapshot its modification time.
pub proof fn lemma_scan_entries_last_wins(
    entries: Seq<Option<ListingEntry>>,
    i: int,
    path: Seq<char>,
    modified: Timestamp,
)
    requires
        0 <= i < entries.len(),
        listed_file(entries[i]) == Some((path, modified)),
        forall|j: int| i < j < entries.len() ==> !stands_for(#[trigger] entries[j], path),
    ensures
        scan_entries(entries).get(path) == Some(modified),
    decreases entries.len(),
{
    if i < entries.len() - 1 {
        let rest = entries.drop_last();
        assert forall|j: int| i < j < rest.len() implies !stands_for(#[trigger] rest[j], path) by {
            assert(rest[j] == entries[j]);
        }
        lemma_scan_entries_last_wins(rest, i, path, modified);
    }
}

/// An item for which nothing could be read, or which is no regular file,
/// counts as if the listing did not hold it.
pub proof fn lemma_scan_entries_skips(entries: Seq<Option<ListingEntry>>, i: int)
    requires
        0 <= i < entries.len(),
        listed_file(entries[i]) is None,
    ensures
        scan_entries(entries) == scan_entries(entries.remove(i)),
    decreases entries.len(),
{
    if i == entries.len() - 1 {
        assert(entries.remove(i) =~= entries.drop_last());
    } else {
        assert(entries.remove(i).drop_last() =~= entries.drop_last().remove(i));
        lemma_scan_entries_skips(entries.drop_last(), i);
    }
}

} // verus!
