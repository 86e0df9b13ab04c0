use dupfinder::policy::{SizePolicy, BIG_FILE_SIZE, SMALL_FILE_SIZE};

#[test]
fn thresholds_have_documented_values() {
    assert_eq!(SMALL_FILE_SIZE, 8 * 1024 * 1024);
    assert_eq!(BIG_FILE_SIZE, 8 * 1024 * 1024 * 1024);
    let p = SizePolicy::new(true, true);
    assert_eq!(p.big_threshold, BIG_FILE_SIZE);
    assert_eq!(p.small_threshold, SMALL_FILE_SIZE);
}

#[test]
fn skip_big_boundary_is_strict() {
    let p = SizePolicy::new(true, false);
    assert!(p.should_skip(BIG_FILE_SIZE + 1));
    assert!(!p.should_skip(BIG_FILE_SIZE));
    assert!(!p.should_skip(0));
}

#[test]
fn skip_small_boundary_is_strict() {
    let p = SizePolicy::new(false, true);
    assert!(p.should_skip(SMALL_FILE_SIZE - 1));
    assert!(!p.should_skip(SMALL_FILE_SIZE));
    assert!(p.should_skip(0));
    assert!(!p.should_skip(BIG_FILE_SIZE + 1));
}

#[test]
fn no_toggles_never_skips() {
    let p = SizePolicy::new(false, false);
    assert!(!p.should_skip(0));
    assert!(!p.should_skip(SMALL_FILE_SIZE - 1));
    assert!(!p.should_skip(BIG_FILE_SIZE + 1));
    assert!(!p.should_skip(u64::MAX));
}

#[test]
fn both_toggles_combine() {
    let p = SizePolicy::new(true, true);
    assert!(p.should_skip(SMALL_FILE_SIZE - 1));
    assert!(!p.should_skip(SMALL_FILE_SIZE));
    assert!(!p.should_skip(BIG_FILE_SIZE));
    assert!(p.should_skip(BIG_FILE_SIZE + 1));
}
