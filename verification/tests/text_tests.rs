use rlocate::text::{has_prefix, same_text};

#[test]
fn has_prefix_compares_from_the_start() {
    assert!(has_prefix("/proc/1", "/proc"));
    assert!(has_prefix("/proc", "/proc"));
    assert!(has_prefix("/proc", ""));
    assert!(has_prefix("", ""));
    assert!(!has_prefix("/pro", "/proc"));
    assert!(!has_prefix("", "/"));
    assert!(!has_prefix("/home/proc", "/proc"));
    assert!(!has_prefix("/prox/1", "/proc"));
}

#[test]
fn same_text_is_exact() {
    assert!(same_text("ext4", "ext4"));
    assert!(same_text("", ""));
    assert!(!same_text("ext4", "ext3"));
    assert!(!same_text("ext4", "ext"));
    assert!(!same_text("ext", "ext4"));
    assert!(!same_text("ext4", "EXT4"));
    assert!(!same_text("", "x"));
}

#[test]
fn characters_beyond_ascii_are_compared_whole() {
    assert!(has_prefix("/données/été", "/données"));
    assert!(!has_prefix("/donnees/ete", "/données"));
    assert!(same_text("/straße", "/straße"));
    assert!(!same_text("/strasse", "/straße"));
}
