//! Changes between two snapshots of one directory.

use crate::snapshot::{Snapshot, SnapshotModel};
use vstd::prelude::*;

verus! {

/// What happened to a file between two snapshots.
#[derive(Debug, Clone, Copy, PartialEq, Eq, Structural)]
pub enum FileState {
    /// The file is in both snapshots, with a later modification time in the
    /// second.
    Modified,
    /// The file is in the second snapshot only.
    Created,
    /// The file is in the first snapshot only.
    Deleted,
}

impl FileState {
    /// The name of the state, as spelled in a report.
    pub open spec fn spec_name(self) -> Seq<char> {
        match self {
            FileState::Modified => "Modified"@,
            FileState::Created => "Created"@,
            FileState::Deleted => "Deleted"@,
        }
    }

    /// The name of the state, as spelled in a report.
    pub fn name(&self) -> (name: &'static str)
        ensures
            name@ == self.spec_name(),
    {
        match self {
            FileState::Modified => "Modified",
            FileState::Created => "Created",
            FileState::Deleted => "Deleted",
        }
    }
}

/// What happened to `path` between `previous` and `current`, if anything.
///
/// A file that is in both snapshots counts as modified only if its time is
/// strictly later in `current`: an equal or an earlier time is no change.
pub open spec fn change_of(
    previous: SnapshotModel,
    current: SnapshotModel,
    path: Seq<char>,
) -> Option<FileState> {
    match (previous.get(path), current.get(path)) {
        (None, Some(_)) => Some(FileState::Created),
        (Some(before), Some(now)) => if now > before {
            Some(FileState::Modified)
        } else {
            None
        },
        (Some(_), None) => Some(FileState::Deleted),
        (None, None) => None,
    }
}

/// What one walk over a snapshot's paths reports on each of them. The walk
/// over the current snapshot (`deletions` false) reports the files created
/// and modified; the walk over the previous one (`deletions` true) reports
/// the files deleted.
pub open spec fn report(previous: SnapshotModel, current: SnapshotModel, deletions: bool) -> spec_fn(
    Seq<char>,
) -> Option<(Seq<char>, FileState)> {
    |path: Seq<char>|
        match change_of(previous, current, path) {
            Some(state) => if (state == FileState::Deleted) == deletions {
                Some((path, state))
            } else {
                None
            },
            None => None,
        }
}

/// The changes from `previous` to `current`: first the files created and
/// modified, in the order of `current`; then the files deleted, in the order
/// of `previous`.
pub open spec fn changes_between(previous: SnapshotModel, current: SnapshotModel) -> Seq<
    (Seq<char>, FileState),
> {
    current.order.filter_map(report(previous, current, false)) + previous.order.filter_map(
        report(previous, current, true),
    )
}

/// A list of changes with each path as the sequence of its characters.
pub open spec fn changes_view(changes: Seq<(String, FileState)>) -> Seq<(Seq<char>, FileState)> {
    changes.map_values(|change: (String, FileState)| (change.0@, change.1))
}

/// `changes` holds exactly one change on `path`, and that change is `state`.
pub open spec fn reports_once(
    changes: Seq<(Seq<char>, FileState)>,
    path: Seq<char>,
    state: FileState,
) -> bool {
    exists|i: int|
        {
            &&& 0 <= i < changes.len()
            &&& #[trigger] changes[i] == (path, state)
            &&& forall|j: int| 0 <= j < changes.len() && (#[trigger] changes[j]).0 == path ==> j == i
        }
}

/// `changes` holds no change on `path`.
pub open spec fn reports_nothing(changes: Seq<(Seq<char>, FileState)>, path: Seq<char>) -> bool {
    forall|j: int| 0 <= j < changes.len() ==> (#[trigger] changes[j]).0 != path
}

/// Every change that one walk over `paths` reports is a change of the
/// walk's kind on one of the paths.
proof fn lemma_walk_sound(
    previous: SnapshotModel,
    current: SnapshotModel,
    deletions: bool,
    paths: Seq<Seq<char>>,
)
    ensures
        forall|j: int|
            0 <= j < paths.filter_map(report(previous, current, deletions)).len() ==> {
                let change = #[trigger] paths.filter_map(report(previous, current, deletions))[j];
                &&& paths.contains(change.0)
                &&& change_of(previous, current, change.0) == Some(change.1)
                &&& (change.1 == FileState::Deleted) == deletions
            },
    decreases paths.len(),
{
    if paths.len() > 0 {
        let rest = paths.drop_last();
        let before = rest.filter_map(report(previous, current, deletions));
        lemma_walk_sound(previous, current, deletions, rest);
        assert forall|j: int| 0 <= j < before.len() implies paths.contains(
            (#[trigger] before[j]).0,
        ) by {
            let m = choose|m: int| 0 <= m < rest.len() && rest[m] == before[j].0;
            assert(paths[m] == rest[m]);
        }
        assert(paths.contains(paths.last()));
    }
}

/// One walk over `paths`, none of which occurs twice, reports the change on
/// every path that has one of the walk's kind, and reports no path twice.
proof fn lemma_walk_complete(
    previous: SnapshotModel,
    current: SnapshotModel,
    deletions: bool,
    paths: Seq<Seq<char>>,
)
    requires
        paths.no_duplicates(),
    ensures
        ({
            let reported = paths.filter_map(report(previous, current, deletions));
            &&& forall|i: int|
                0 <= i < paths.len() ==> match report(previous, current, deletions)(
                    #[trigger] paths[i],
                ) {
                    Some(change) => reported.contains(change),
                    None => true,
                }
            &&& forall|j: int, k: int|
                0 <= j < k < reported.len() ==> (#[trigger] reported[j]).0 != (
                #[trigger] reported[k]).0
        }),
    decreases paths.len(),
{
    let walk = report(previous, current, deletions);
    let reported = paths.filter_map(walk);
    if paths.len() > 0 {
        let rest = paths.drop_last();
        let last = paths.last();
        let before = rest.filter_map(walk);
        lemma_walk_complete(previous, current, deletions, rest);
        lemma_walk_sound(previous, current, deletions, rest);
        assert forall|j: int| 0 <= j < before.len() implies (#[trigger] before[j]).0 != last by {
            let m = choose|m: int| 0 <= m < rest.len() && rest[m] == before[j].0;
            assert(paths[m] == rest[m]);
        }
        assert forall|i: int| 0 <= i < paths.len() implies match walk(#[trigger] paths[i]) {
            Some(found) => reported.contains(found),
            None => true,
        } by {
            match walk(paths[i]) {
                Some(found) => {
                    if i < rest.len() {
                        assert(rest[i] == paths[i]);
                        let j = choose|j: int| 0 <= j < before.len() && before[j] == found;
                        assert(reported[j] == found);
                    } else {
                        assert(reported[before.len() as int] == found);
                    }
                },
                None => {},
            }
        }
    }
}

/// Every change in the list is a real one: the file at its path changed
/// from `previous` to `current` in the way that the list says.
pub proof fn lemma_changes_are_real(previous: SnapshotModel, current: SnapshotModel)
    ensures
        forall|i: int|
            0 <= i < changes_between(previous, current).len() ==> {
                let change = #[trigger] changes_between(previous, current)[i];
                change_of(previous, current, change.0) == Some(change.1)
            },
{
    lemma_walk_sound(previous, current, false, current.order);
    lemma_walk_sound(previous, current, true, previous.order);
}

/// The files created and modified come before the files deleted: once the
/// list has reached a deletion, only deletions follow.
pub proof fn lemma_deletions_come_last(previous: SnapshotModel, current: SnapshotModel)
    ensures
        forall|i: int, j: int|
            0 <= i <= j < changes_between(previous, current).len() && (
            #[trigger] changes_between(previous, current)[i]).1 == FileState::Deleted ==> (
            #[trigger] changes_between(previous, current)[j]).1 == FileState::Deleted,
{
    lemma_walk_sound(previous, current, false, current.order);
    lemma_walk_sound(previous, current, true, previous.order);
}

/// The list is complete and free of duplicates: a file that changed from
/// `previous` to `current` has exactly one entry in it, which names the
/// change, and a file that did not change has none.
pub proof fn lemma_each_change_once(
    previous: SnapshotModel,
    current: SnapshotModel,
    path: Seq<char>,
)
    requires
        previous.wf(),
        current.wf(),
    ensures
        match change_of(previous, current, path) {
            Some(state) => reports_once(changes_between(previous, current), path, state),
            None => reports_nothing(changes_between(previous, current), path),
        },
{
    let arrived = current.order.filter_map(report(previous, current, false));
    let departed = previous.order.filter_map(report(previous, current, true));
    let changes = changes_between(previous, current);
    lemma_walk_sound(previous, current, false, current.order);
    lemma_walk_sound(previous, current, true, previous.order);
    lemma_walk_complete(previous, current, false, current.order);
    lemma_walk_complete(previous, current, true, previous.order);
    lemma_changes_are_real(previous, current);
    match change_of(previous, current, path) {
        Some(state) => {
            // The walk that reports changes of this state, and where its
            // reports begin in the list.
            let (walked, reported, offset) = if state == FileState::Deleted {
                (previous.order, departed, arrived.len() as int)
            } else {
                (current.order, arrived, 0int)
            };
            assert(walked.contains(path));
            let at = choose|at: int| 0 <= at < walked.len() && walked[at] == path;
            assert(report(previous, current, state == FileState::Deleted)(walked[at]) == Some(
                (path, state),
            ));
            let found = choose|found: int|
                0 <= found < reported.len() && reported[found] == (path, state);
            assert(changes[offset + found] == (path, state));
            assert forall|j: int| 0 <= j < changes.len() && (#[trigger] changes[j]).0
                == path implies j == offset + found by {
                assert(changes[j] == reported[j - offset]);
            }
        },
        None => {},
    }
}

/// Between two snapshots that hold the same files with the same
/// modification times nothing has changed, in whatever order each walks
/// them. So it is between a snapshot and itself.
pub proof fn lemma_same_files_no_changes(previous: SnapshotModel, current: SnapshotModel)
    requires
        previous.times == current.times,
    ensures
        changes_between(previous, current) == Seq::<(Seq<char>, FileState)>::empty(),
{
    lemma_changes_are_real(previous, current);
    let changes = changes_between(previous, current);
    if changes.len() > 0 {
        assert(change_of(previous, current, changes[0].0) == Some(changes[0].1));
    }
}

/// Compares two snapshots of one directory and lists what changed from
/// `previous` to `current`.
pub fn diff(previous: &Snapshot, current: &Snapshot) -> (changes: Vec<(String, FileState)>)
    ensures
        changes_view(changes@) == changes_between(previous@, current@),
{
    let mut changes: Vec<(String, FileState)> = Vec::new();
    let ghost arrived = report(previous@, current@, false);
    let ghost departed = report(previous@, current@, true);

    let current_len: usize = current.len();
    let mut i: usize = 0;
    while i < current_len
        invariant
            i <= current_len,
            current_len == current@.order.len(),
            arrived == report(previous@, current@, false),
            changes_view(changes@) == current@.order.take(i as int).filter_map(arrived),
        decreases current_len - i,
    {
        let ghost reported = changes_view(changes@);
        proof {
            current@.order.lemma_filter_map_take_succ(arrived, i as int);
        }
        match current.entry(i) {
            Some((path, modified)) => {
                match previous.get(path) {
                    Some(before) => {
                        if modified > before {
                            changes.push((path.to_owned(), FileState::Modified));
                            assert(changes_view(changes@) =~= reported.push(
                                (path@, FileState::Modified),
                            ));
                        }
                    },
                    None => {
                        changes.push((path.to_owned(), FileState::Created));
                        assert(changes_view(changes@) =~= reported.push(
                            (path@, FileState::Created),
                        ));
                    },
                }
            },
            None => {},
        }
        i += 1;
    }
    assert(current@.order.take(current_len as int) =~= current@.order);

    let ghost first = changes_view(changes@);
    let previous_len: usize = previous.len();
    let mut j: usize = 0;
    while j < previous_len
        invariant
            j <= previous_len,
            previous_len == previous@.order.len(),
            departed == report(previous@, current@, true),
            changes_view(changes@) == first + previous@.order.take(j as int).filter_map(departed),
        decreases previous_len - j,
    {
        let ghost reported = changes_view(changes@);
        proof {
            previous@.order.lemma_filter_map_take_succ(departed, j as int);
        }
        match previous.entry(j) {
            Some((path, _)) => {
                if !current.contains_key(path) {
                    changes.push((path.to_owned(), FileState::Deleted));
                    assert(changes_view(changes@) =~= reported.push((path@, FileState::Deleted)));
                }
            },
            None => {},
        }
        j += 1;
    }
    assert(previous@.order.take(previous_len as int) =~= previous@.order);
    changes
}

} // verus!
