use rlocate::traversal::{build_file_set, readable_entries, FileIndex, WalkEntry};

fn walk_of(items: &[&str]) -> Vec<String> {
    items.iter().map(|s| s.to_string()).collect()
}

#[test]
fn an_index_leaves_reserved_paths_out() {
    let walks = vec![
        walk_of(&["/data", "/data/a", "/proc/1/status"]),
        walk_of(&["/home/user/proc/data", "/tmp/x", "/home/user"]),
    ];
    let index = build_file_set(walks);
    assert_eq!(
        index.paths(),
        &walk_of(&["/data", "/data/a", "/home/user/proc/data", "/home/user"])
    );
    assert_eq!(index.len(), 4);
}

#[test]
fn the_process_tree_never_reaches_an_index() {
    for walks in [
        vec![walk_of(&["/proc/1/status"])],
        vec![walk_of(&["/", "/proc", "/proc/1", "/proc/1/status"])],
        vec![walk_of(&["/mnt"]), walk_of(&["/proc/1/status", "/home/user/proc/data"])],
    ] {
        let index = build_file_set(walks);
        assert!(!index.paths().contains(&"/proc/1/status".to_string()));
    }
    let index = build_file_set(vec![walk_of(&["/home/user/proc/data"])]);
    assert!(index.paths().contains(&"/home/user/proc/data".to_string()));
}

#[test]
fn no_walks_give_an_empty_index() {
    assert_eq!(build_file_set(Vec::new()).len(), 0);
    assert_eq!(build_file_set(vec![Vec::new(), Vec::new()]).len(), 0);
    assert_eq!(FileIndex::new().len(), 0);
}

#[test]
fn record_tells_whether_the_path_was_kept() {
    let mut index = FileIndex::new();
    assert!(index.record("/data/a".to_string()));
    assert!(!index.record("/dev/sda".to_string()));
    assert!(index.record("/data/a".to_string()));
    assert_eq!(index.paths(), &walk_of(&["/data/a", "/data/a"]));
    assert_eq!(index.into_paths(), walk_of(&["/data/a", "/data/a"]));
}

#[test]
fn record_walk_appends_in_visiting_order() {
    let mut index = FileIndex::new();
    index.record_walk(walk_of(&["/b", "/sys/x", "/a"]));
    index.record_walk(walk_of(&["/tmp", "/c"]));
    assert_eq!(index.paths(), &walk_of(&["/b", "/a", "/c"]));
}

#[test]
fn rebuilding_gives_the_same_contents() {
    let first = build_file_set(vec![
        walk_of(&["/data", "/data/a", "/data/b"]),
        walk_of(&["/home", "/tmp/x"]),
    ]);
    let second = build_file_set(vec![
        walk_of(&["/tmp/x", "/home"]),
        walk_of(&["/data/b", "/data", "/data/a"]),
    ]);
    let mut one = first.into_paths();
    let mut other = second.into_paths();
    one.sort();
    other.sort();
    assert_eq!(one, other);
    assert_eq!(one, walk_of(&["/data", "/data/a", "/data/b", "/home"]));
}

#[test]
fn unreadable_entries_are_passed_over() {
    let met = vec![
        WalkEntry::Unreadable,
        WalkEntry::Visited("/b".to_string()),
        WalkEntry::Unreadable,
        WalkEntry::Visited("/proc/1".to_string()),
        WalkEntry::Visited("/a".to_string()),
        WalkEntry::Unreadable,
    ];
    assert_eq!(readable_entries(met), walk_of(&["/b", "/proc/1", "/a"]));
    assert_eq!(readable_entries(Vec::new()), Vec::<String>::new());
    assert_eq!(
        readable_entries(vec![WalkEntry::Unreadable, WalkEntry::Unreadable]),
        Vec::<String>::new()
    );
}
