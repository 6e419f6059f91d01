use rlocate::exclusion::should_skip;

#[test]
fn reserved_roots_are_skipped() {
    assert!(should_skip("/proc/1/status"));
    assert!(should_skip("/boot"));
    assert!(should_skip("/boot/vmlinuz"));
    assert!(should_skip("/dev/null"));
    assert!(should_skip("/proc"));
    assert!(should_skip("/sys/kernel"));
    assert!(should_skip("/tmp/x"));
}

#[test]
fn a_reserved_name_further_down_is_kept() {
    assert!(!should_skip("/home/user/proc/data"));
    assert!(!should_skip("/home/tmp"));
    assert!(!should_skip("/data/dev/null"));
    assert!(!should_skip("/usr/boot"));
}

#[test]
fn the_test_is_anchored_at_the_start() {
    assert!(should_skip("/bootstrap"));
    assert!(should_skip("/tmpfile"));
    assert!(!should_skip("/"));
    assert!(!should_skip(""));
    assert!(!should_skip("proc"));
    assert!(!should_skip("/pro"));
    assert!(!should_skip("/Proc/1"));
    assert!(!should_skip(" /proc"));
}
