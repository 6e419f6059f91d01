use rlocate::mounts::{discover_mounts, is_allowed_filesystem, is_strictly_below, MountEntry};

fn mount_entry(path: &str, filesystem_type: &str, is_virtual: bool) -> MountEntry {
    MountEntry {
        path: path.to_string(),
        filesystem_type: filesystem_type.to_string(),
        is_virtual,
    }
}

fn mount_paths(mounts: &[MountEntry]) -> Vec<String> {
    mounts.iter().map(|m| m.path.clone()).collect()
}

#[test]
fn nested_mounts_keep_only_the_ancestor() {
    let listing = vec![
        mount_entry("/mnt/a", "ext4", false),
        mount_entry("/mnt/a/b", "ext4", false),
        mount_entry("/mnt/ab", "ext4", false),
        mount_entry("/mnt/a/b/c", "NTFS", false),
    ];
    let retained = discover_mounts(&listing);
    assert_eq!(mount_paths(&retained), vec!["/mnt/a".to_string(), "/mnt/ab".to_string()]);
}

#[test]
fn the_root_mount_covers_every_other() {
    let listing = vec![
        mount_entry("/home", "ext4", false),
        mount_entry("/", "ext4", false),
        mount_entry("/boot/efi", "FAT32", false),
    ];
    let retained = discover_mounts(&listing);
    assert_eq!(retained, vec![mount_entry("/", "ext4", false)]);
}

#[test]
fn virtual_and_unlisted_filesystems_are_dropped() {
    let listing = vec![
        mount_entry("/proc", "proc", true),
        mount_entry("/sys", "sysfs", false),
        mount_entry("/data", "ext4", true),
        mount_entry("/media", "btrfs", false),
        mount_entry("/x", "ext4", false),
        mount_entry("/y", "", false),
    ];
    let retained = discover_mounts(&listing);
    assert_eq!(retained, vec![mount_entry("/x", "ext4", false)]);
}

#[test]
fn an_ancestor_that_is_dropped_shadows_nothing() {
    let listing = vec![mount_entry("/mnt", "tmpfs", false), mount_entry("/mnt/disk", "ext4", false)];
    let retained = discover_mounts(&listing);
    assert_eq!(retained, vec![mount_entry("/mnt/disk", "ext4", false)]);

    let listing = vec![mount_entry("/mnt", "ext4", true), mount_entry("/mnt/disk", "ext4", false)];
    let retained = discover_mounts(&listing);
    assert_eq!(retained, vec![mount_entry("/mnt/disk", "ext4", false)]);
}

#[test]
fn a_path_listed_twice_is_kept_once() {
    let listing = vec![
        mount_entry("/data", "ext4", false),
        mount_entry("/data", "NTFS", false),
        mount_entry("/data", "ext4", false),
    ];
    let retained = discover_mounts(&listing);
    assert_eq!(retained, vec![mount_entry("/data", "ext4", false)]);

    let listing = vec![mount_entry("/data", "proc", false), mount_entry("/data", "NTFS", false)];
    let retained = discover_mounts(&listing);
    assert_eq!(retained, vec![mount_entry("/data", "NTFS", false)]);
}

#[test]
fn retained_mounts_keep_the_listing_order() {
    let listing = vec![
        mount_entry("/z", "ext3", false),
        mount_entry("/a", "ext2", false),
        mount_entry("/m", "APFS", false),
    ];
    let retained = discover_mounts(&listing);
    assert_eq!(mount_paths(&retained), vec!["/z".to_string(), "/a".to_string(), "/m".to_string()]);
}

#[test]
fn an_empty_listing_retains_nothing() {
    assert_eq!(discover_mounts(&Vec::new()), Vec::<MountEntry>::new());
}

#[test]
fn retained_mounts_are_free_of_nesting() {
    let listing = vec![
        mount_entry("/srv/a/b", "ext4", false),
        mount_entry("/srv", "exFAT", false),
        mount_entry("/srv/a", "ext4", false),
        mount_entry("/var", "UFS", false),
        mount_entry("/var/lib", "HFS+", false),
        mount_entry("/variable", "HFS", false),
        mount_entry("/opt/x", "HPFS", false),
        mount_entry("/opt", "devtmpfs", false),
        mount_entry("/var", "ReFS", false),
    ];
    let retained = discover_mounts(&listing);
    assert_eq!(
        mount_paths(&retained),
        vec![
            "/srv".to_string(),
            "/var".to_string(),
            "/variable".to_string(),
            "/opt/x".to_string()
        ]
    );
    for a in &retained {
        for b in &retained {
            assert!(!is_strictly_below(&a.path, &b.path));
        }
    }
}

#[test]
fn strictly_below_needs_a_separator() {
    assert!(is_strictly_below("/a/b", "/a"));
    assert!(is_strictly_below("/a/b/c", "/a"));
    assert!(is_strictly_below("/a/", "/a"));
    assert!(!is_strictly_below("/ab", "/a"));
    assert!(!is_strictly_below("/a", "/a"));
    assert!(!is_strictly_below("/a", "/a/b"));
    assert!(!is_strictly_below("/b/a", "/a"));
    assert!(!is_strictly_below("", ""));
}

#[test]
fn a_path_ending_in_a_separator_carries_its_own() {
    assert!(is_strictly_below("/a", "/"));
    assert!(is_strictly_below("/a/b", "/a/"));
    assert!(!is_strictly_below("/", "/"));
    assert!(!is_strictly_below("a", "/"));
    assert!(is_strictly_below("/a", ""));
    assert!(!is_strictly_below("a", ""));
}

#[test]
fn the_allow_list_is_exact() {
    let allowed = [
        "FAT12", "FAT16", "FAT32", "exFAT", "NTFS", "fuseblk", "ReFS", "HFS", "HFS+", "HPFS",
        "APFS", "UFS", "ext2", "ext3", "ext4",
    ];
    for name in allowed {
        assert!(is_allowed_filesystem(name));
    }
    for name in ["", "EXT4", "ext", "ext44", "ntfs", "btrfs", "tmpfs", "proc", "HFS ", "xfs"] {
        assert!(!is_allowed_filesystem(name));
    }
}

#[test]
fn eligibility_needs_both_conditions() {
    assert!(mount_entry("/a", "ext4", false).is_eligible());
    assert!(!mount_entry("/a", "ext4", true).is_eligible());
    assert!(!mount_entry("/a", "tmpfs", false).is_eligible());
    assert!(!mount_entry("/a", "tmpfs", true).is_eligible());
}

#[test]
fn a_cloned_entry_is_equal() {
    let entry = mount_entry("/a", "ext4", false);
    assert_eq!(entry.clone(), entry);
}
