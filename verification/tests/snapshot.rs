use file_monitor::Snapshot;

#[test]
fn new_snapshot_is_empty() {
    let snapshot = Snapshot::new();
    assert!(snapshot.is_empty());
    assert_eq!(snapshot.len(), 0);
    assert_eq!(snapshot.get("a.txt"), None);
    assert!(!snapshot.contains_key("a.txt"));
    assert_eq!(snapshot.entry(0), None);
}

#[test]
fn insert_records_path_and_time() {
    let mut snapshot = Snapshot::new();
    assert_eq!(snapshot.insert("a.txt".to_string(), 17), None);
    assert!(!snapshot.is_empty());
    assert_eq!(snapshot.len(), 1);
    assert!(snapshot.contains_key("a.txt"));
    assert_eq!(snapshot.get("a.txt"), Some(17));
    assert_eq!(snapshot.entry(0), Some(("a.txt", 17)));
    assert_eq!(snapshot.entry(1), None);
}

#[test]
fn insert_of_known_path_replaces_time_and_keeps_place() {
    let mut snapshot = Snapshot::new();
    assert_eq!(snapshot.insert("a.txt".to_string(), 1), None);
    assert_eq!(snapshot.insert("b.txt".to_string(), 2), None);
    assert_eq!(snapshot.insert("c.txt".to_string(), 3), None);
    assert_eq!(snapshot.insert("a.txt".to_string(), 40), Some(1));
    assert_eq!(snapshot.len(), 3);
    assert_eq!(snapshot.entry(0), Some(("a.txt", 40)));
    assert_eq!(snapshot.entry(1), Some(("b.txt", 2)));
    assert_eq!(snapshot.entry(2), Some(("c.txt", 3)));
    assert_eq!(snapshot.entry(3), None);
    assert_eq!(snapshot.get("a.txt"), Some(40));
    assert_eq!(snapshot.get("b.txt"), Some(2));
    assert_eq!(snapshot.get("c.txt"), Some(3));
}

#[test]
fn insert_of_known_path_may_move_time_backwards() {
    let mut snapshot = Snapshot::new();
    snapshot.insert("a.txt".to_string(), 100);
    assert_eq!(snapshot.insert("a.txt".to_string(), 99), Some(100));
    assert_eq!(snapshot.get("a.txt"), Some(99));
    assert_eq!(snapshot.len(), 1);
}

#[test]
fn snapshot_walks_files_in_insertion_order() {
    let mut snapshot = Snapshot::new();
    let names = ["zeta", "alpha", "mid", "beta"];
    for (offset, name) in names.iter().enumerate() {
        snapshot.insert(name.to_string(), offset as i128);
    }
    for (offset, name) in names.iter().enumerate() {
        assert_eq!(snapshot.entry(offset), Some((*name, offset as i128)));
    }
    assert_eq!(snapshot.entry(names.len()), None);
}

#[test]
fn paths_differ_by_every_character() {
    let mut snapshot = Snapshot::new();
    snapshot.insert("dir/a".to_string(), 1);
    snapshot.insert("dir/A".to_string(), 2);
    snapshot.insert("dir/a ".to_string(), 3);
    snapshot.insert("".to_string(), 4);
    assert_eq!(snapshot.len(), 4);
    assert_eq!(snapshot.get("dir/a"), Some(1));
    assert_eq!(snapshot.get("dir/A"), Some(2));
    assert_eq!(snapshot.get("dir/a "), Some(3));
    assert_eq!(snapshot.get(""), Some(4));
    assert_eq!(snapshot.get("dir"), None);
}

#[test]
fn timestamps_before_the_epoch_and_at_the_limits_are_kept() {
    let mut snapshot = Snapshot::new();
    snapshot.insert("old".to_string(), -1);
    snapshot.insert("oldest".to_string(), i128::MIN);
    snapshot.insert("newest".to_string(), i128::MAX);
    assert_eq!(snapshot.get("old"), Some(-1));
    assert_eq!(snapshot.get("oldest"), Some(i128::MIN));
    assert_eq!(snapshot.get("newest"), Some(i128::MAX));
}

#[test]
fn snapshot_of_many_files_finds_each() {
    let mut snapshot = Snapshot::new();
    for number in 0..2_000usize {
        assert_eq!(snapshot.insert(format!("file-{number}"), number as i128), None);
    }
    assert_eq!(snapshot.len(), 2_000);
    for number in 0..2_000usize {
        assert_eq!(snapshot.get(&format!("file-{number}")), Some(number as i128));
        assert_eq!(
            snapshot.entry(number),
            Some((format!("file-{number}").as_str(), number as i128))
        );
    }
    assert_eq!(snapshot.get("file-2000"), None);
}
