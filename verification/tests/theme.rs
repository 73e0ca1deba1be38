use icon_resolver::theme::{size_range, DirectoryType, Subdirectory};

fn dir(kind: DirectoryType, size: u16, min: u16, max: u16, scale: u16) -> Subdirectory {
    Subdirectory {
        path: "48x48/apps".to_string(),
        size,
        min_size: min,
        max_size: max,
        scale,
        context: None,
        dir_type: kind,
    }
}

#[test]
fn fixed_directory_serves_its_nominal_size_only() {
    assert_eq!(size_range(DirectoryType::Fixed, 48, 2, None, None), Some((48, 48)));
    assert_eq!(size_range(DirectoryType::Fixed, 48, 9, Some(1), Some(512)), Some((48, 48)));
    assert_eq!(size_range(DirectoryType::Fixed, 0, 2, None, None), Some((0, 0)));
    assert_eq!(size_range(DirectoryType::Fixed, 65535, 2, None, None), Some((65535, 65535)));
}

#[test]
fn threshold_directory_reaches_threshold_both_ways() {
    assert_eq!(size_range(DirectoryType::Threshold, 32, 2, None, None), Some((30, 34)));
    assert_eq!(size_range(DirectoryType::Threshold, 32, 0, None, None), Some((32, 32)));
    assert_eq!(size_range(DirectoryType::Threshold, 32, 5, Some(1), Some(99)), Some((27, 37)));
}

#[test]
fn threshold_range_does_not_go_below_zero() {
    assert_eq!(size_range(DirectoryType::Threshold, 1, 2, None, None), Some((0, 3)));
    assert_eq!(size_range(DirectoryType::Threshold, 0, 7, None, None), Some((0, 7)));
}

#[test]
fn threshold_range_beyond_sixteen_bits_is_no_range() {
    assert_eq!(size_range(DirectoryType::Threshold, 65535, 1, None, None), None);
    assert_eq!(size_range(DirectoryType::Threshold, 65533, 2, None, None), Some((65531, 65535)));
    assert_eq!(size_range(DirectoryType::Threshold, 40000, 40000, None, None), None);
}

#[test]
fn scalable_directory_takes_declared_bounds_or_the_size() {
    assert_eq!(size_range(DirectoryType::Scalable, 64, 2, Some(16), Some(256)), Some((16, 256)));
    assert_eq!(size_range(DirectoryType::Scalable, 64, 2, None, Some(256)), Some((64, 256)));
    assert_eq!(size_range(DirectoryType::Scalable, 64, 2, Some(16), None), Some((16, 64)));
    assert_eq!(size_range(DirectoryType::Scalable, 64, 2, None, None), Some((64, 64)));
}

#[test]
fn scalable_directory_with_crossed_bounds_is_no_range() {
    assert_eq!(size_range(DirectoryType::Scalable, 64, 2, Some(128), Some(32)), None);
    assert_eq!(size_range(DirectoryType::Scalable, 64, 2, Some(65), None), None);
    assert_eq!(size_range(DirectoryType::Scalable, 64, 2, None, Some(63)), None);
}

#[test]
fn new_directory_carries_the_computed_range() {
    let made = Subdirectory::new(
        "32x32/actions".to_string(),
        32,
        DirectoryType::Threshold,
        2,
        None,
        None,
        1,
        Some("Actions".to_string()),
    );
    assert_eq!(
        made,
        Some(Subdirectory {
            path: "32x32/actions".to_string(),
            size: 32,
            min_size: 30,
            max_size: 34,
            scale: 1,
            context: Some("Actions".to_string()),
            dir_type: DirectoryType::Threshold,
        })
    );
    let none = Subdirectory::new(
        "x".to_string(),
        65535,
        DirectoryType::Threshold,
        2,
        None,
        None,
        1,
        None,
    );
    assert_eq!(none, None);
}

#[test]
fn threshold_directory_matches_32_but_not_36() {
    let d = dir(DirectoryType::Threshold, 32, 30, 34, 1);
    assert!(d.matches(Some(32), None));
    assert!(!d.matches(Some(36), None));
    assert!(d.matches(Some(30), None));
    assert!(d.matches(Some(34), None));
    assert!(!d.matches(Some(29), None));
    assert!(!d.matches(Some(35), None));
}

#[test]
fn directory_without_filters_always_matches() {
    assert!(dir(DirectoryType::Fixed, 48, 48, 48, 1).matches(None, None));
    assert!(dir(DirectoryType::Threshold, 32, 30, 34, 2).matches(None, None));
    assert!(dir(DirectoryType::Scalable, 64, 16, 256, 1).matches(None, None));
}

#[test]
fn scale_filter_must_equal_the_scale() {
    let d = dir(DirectoryType::Fixed, 48, 48, 48, 2);
    assert!(d.matches(None, Some(2)));
    assert!(!d.matches(None, Some(1)));
    assert!(d.matches(Some(48), Some(2)));
    assert!(!d.matches(Some(48), Some(1)));
    assert!(!d.matches(Some(47), Some(2)));
}

#[test]
fn scalable_directory_matches_any_request() {
    let d = dir(DirectoryType::Scalable, 64, 16, 256, 1);
    assert!(d.matches(Some(8), None));
    assert!(d.matches(Some(1000), None));
    assert!(d.matches(Some(64), Some(3)));
}
