use sentinel_cloud::naming::{classify_listing, decimal_string, is_safe_filename, make_capture_filename};
use sentinel_cloud::pipeline::plan_capture_filename;

#[test]
fn path_traversal_is_refused() {
    assert!(!is_safe_filename("../../etc/passwd"));
    assert!(!is_safe_filename(".."));
    assert!(!is_safe_filename("a/b.npz"));
    assert!(!is_safe_filename("a\\b.npz"));
    assert!(!is_safe_filename("trailing.."));
}

#[test]
fn ordinary_names_are_safe() {
    assert!(is_safe_filename("capture_T1_1700000000.npz"));
    assert!(is_safe_filename(""));
    assert!(is_safe_filename("a.b.c"));
    assert!(is_safe_filename("."));
}

#[test]
fn capture_filename_is_deterministic() {
    assert_eq!(make_capture_filename("T1", 1700000000), "capture_T1_1700000000.npz");
    assert_eq!(make_capture_filename("", 0), "capture__0.npz");
}

#[test]
fn decimal_rendering() {
    assert_eq!(decimal_string(0), "0");
    assert_eq!(decimal_string(7), "7");
    assert_eq!(decimal_string(1234567890), "1234567890");
    assert_eq!(decimal_string(u64::MAX), "18446744073709551615");
}

#[test]
fn planned_filename_carries_its_timestamp() {
    let (name, ts) = plan_capture_filename("T1");
    assert_eq!(name, format!("capture_T1_{}.npz", ts));
}

#[test]
fn listing_filters_and_classifies() {
    let f = classify_listing("capture_T1_5.npz", 2048).unwrap();
    assert_eq!(f.name, "capture_T1_5.npz");
    assert_eq!(f.size_kb, 2);
    assert!(!f.is_log);

    let f = classify_listing("robot_log.txt", 100).unwrap();
    assert_eq!(f.size_kb, 0);
    assert!(f.is_log);

    assert!(classify_listing("notes.bin", 10).is_none());
    assert!(classify_listing("npz", 10).is_none());
}
