use file_monitor::{diff, FileState, Snapshot};

fn snapshot_with(files: &[(&str, i128)]) -> Snapshot {
    let mut snapshot = Snapshot::new();
    for (path, modified) in files {
        snapshot.insert(path.to_string(), *modified);
    }
    snapshot
}

fn change(path: &str, state: FileState) -> (String, FileState) {
    (path.to_string(), state)
}

#[test]
fn empty_snapshots_do_not_differ() {
    assert_eq!(diff(&Snapshot::new(), &Snapshot::new()), vec![]);
}

#[test]
fn snapshot_does_not_differ_from_itself() {
    let snapshot = snapshot_with(&[("a", 1), ("b", 2), ("c", -3)]);
    assert_eq!(diff(&snapshot, &snapshot), vec![]);
}

#[test]
fn equal_snapshots_in_another_order_do_not_differ() {
    let previous = snapshot_with(&[("a", 1), ("b", 2), ("c", 3)]);
    let current = snapshot_with(&[("c", 3), ("a", 1), ("b", 2)]);
    assert_eq!(diff(&previous, &current), vec![]);
}

#[test]
fn new_file_is_created() {
    let previous = snapshot_with(&[("a", 1)]);
    let current = snapshot_with(&[("a", 1), ("b", 1)]);
    assert_eq!(diff(&previous, &current), vec![change("b", FileState::Created)]);
}

#[test]
fn new_file_is_created_whatever_its_time() {
    let previous = snapshot_with(&[("a", 100)]);
    let current = snapshot_with(&[("old", -5), ("a", 100)]);
    assert_eq!(diff(&previous, &current), vec![change("old", FileState::Created)]);
}

#[test]
fn missing_file_is_deleted() {
    let previous = snapshot_with(&[("a", 1), ("b", 1)]);
    let current = snapshot_with(&[("b", 1)]);
    assert_eq!(diff(&previous, &current), vec![change("a", FileState::Deleted)]);
}

#[test]
fn later_time_is_modified() {
    let previous = snapshot_with(&[("a", 1)]);
    let current = snapshot_with(&[("a", 2)]);
    assert_eq!(diff(&previous, &current), vec![change("a", FileState::Modified)]);
}

#[test]
fn equal_time_is_no_change() {
    let previous = snapshot_with(&[("a", 7)]);
    let current = snapshot_with(&[("a", 7)]);
    assert_eq!(diff(&previous, &current), vec![]);
}

#[test]
fn earlier_time_is_no_change() {
    let previous = snapshot_with(&[("a", 7)]);
    let current = snapshot_with(&[("a", 6)]);
    assert_eq!(diff(&previous, &current), vec![]);
}

#[test]
fn one_nanosecond_later_is_modified() {
    let previous = snapshot_with(&[("a", 1_700_000_000_000_000_000), ("b", -1)]);
    let current = snapshot_with(&[("a", 1_700_000_000_000_000_001), ("b", 0)]);
    assert_eq!(
        diff(&previous, &current),
        vec![change("a", FileState::Modified), change("b", FileState::Modified)]
    );
}

#[test]
fn times_are_compared_over_the_whole_range() {
    let previous = snapshot_with(&[("up", i128::MIN), ("down", i128::MAX)]);
    let current = snapshot_with(&[("up", i128::MAX), ("down", i128::MIN)]);
    assert_eq!(diff(&previous, &current), vec![change("up", FileState::Modified)]);
}

#[test]
fn created_and_modified_come_before_deleted() {
    let previous = snapshot_with(&[("gone-1", 1), ("kept", 1), ("touched", 1), ("gone-2", 1)]);
    let current = snapshot_with(&[("new-1", 5), ("touched", 2), ("kept", 1), ("new-2", 5)]);
    assert_eq!(
        diff(&previous, &current),
        vec![
            change("new-1", FileState::Created),
            change("touched", FileState::Modified),
            change("new-2", FileState::Created),
            change("gone-1", FileState::Deleted),
            change("gone-2", FileState::Deleted),
        ]
    );
}

#[test]
fn rename_is_created_and_deleted() {
    let previous = snapshot_with(&[("old-name", 3)]);
    let current = snapshot_with(&[("new-name", 3)]);
    assert_eq!(
        diff(&previous, &current),
        vec![change("new-name", FileState::Created), change("old-name", FileState::Deleted)]
    );
}

#[test]
fn everything_is_created_against_the_empty_snapshot() {
    let current = snapshot_with(&[("b", 2), ("a", 1), ("c", 0)]);
    assert_eq!(
        diff(&Snapshot::new(), &current),
        vec![
            change("b", FileState::Created),
            change("a", FileState::Created),
            change("c", FileState::Created),
        ]
    );
}

#[test]
fn everything_is_deleted_against_the_empty_snapshot() {
    let previous = snapshot_with(&[("b", 2), ("a", 1), ("c", 0)]);
    assert_eq!(
        diff(&previous, &Snapshot::new()),
        vec![
            change("b", FileState::Deleted),
            change("a", FileState::Deleted),
            change("c", FileState::Deleted),
        ]
    );
}

#[test]
fn no_path_is_reported_twice() {
    let mut previous = Snapshot::new();
    let mut current = Snapshot::new();
    for number in 0..300usize {
        if number % 2 == 0 {
            previous.insert(format!("f{number}"), 10);
        }
        if number % 3 == 0 {
            current.insert(format!("f{number}"), (number % 4) as i128 + 9);
        }
    }
    let changes = diff(&previous, &current);
    let mut paths: Vec<&String> = changes.iter().map(|change| &change.0).collect();
    paths.sort();
    let reported = paths.len();
    paths.dedup();
    assert_eq!(paths.len(), reported);
    for number in 0..300usize {
        let before = if number % 2 == 0 { Some(10) } else { None };
        let now = if number % 3 == 0 { Some((number % 4) as i128 + 9) } else { None };
        let expected = match (before, now) {
            (None, Some(_)) => Some(FileState::Created),
            (Some(then), Some(now)) if now > then => Some(FileState::Modified),
            (Some(_), None) => Some(FileState::Deleted),
            _ => None,
        };
        let found: Vec<FileState> = changes
            .iter()
            .filter(|change| change.0 == format!("f{number}"))
            .map(|change| change.1)
            .collect();
        match expected {
            Some(state) => assert_eq!(found, vec![state]),
            None => assert!(found.is_empty()),
        }
    }
    let first_deleted = changes.iter().position(|change| change.1 == FileState::Deleted);
    let first_deleted = first_deleted.unwrap_or(changes.len());
    assert!(changes[first_deleted..].iter().all(|change| change.1 == FileState::Deleted));
    assert!(changes[..first_deleted].iter().all(|change| change.1 != FileState::Deleted));
}

#[test]
fn states_are_named_as_in_reports() {
    assert_eq!(FileState::Modified.name(), "Modified");
    assert_eq!(FileState::Created.name(), "Created");
    assert_eq!(FileState::Deleted.name(), "Deleted");
}
