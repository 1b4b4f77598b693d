use pixel_sorter::settings::{Direction, Order, SortSettings};

#[test]
fn default_settings() {
    let s = SortSettings::default();
    assert_eq!(s.lower_threshold, 50);
    assert_eq!(s.upper_threshold, 150);
    assert!(s.direction == Direction::Horizontal);
    assert!(s.order == Order::Ascending);
}

#[test]
fn lower_threshold_snaps_upper() {
    let mut s = SortSettings::default();
    s.set_lower_threshold(200);
    assert_eq!(s.lower_threshold, 200);
    assert_eq!(s.upper_threshold, 200);
}

#[test]
fn lower_threshold_below_upper_keeps_upper() {
    let mut s = SortSettings::default();
    s.set_lower_threshold(10);
    assert_eq!(s.lower_threshold, 10);
    assert_eq!(s.upper_threshold, 150);
}

#[test]
fn upper_threshold_snaps_lower() {
    let mut s = SortSettings::default();
    s.set_upper_threshold(20);
    assert_eq!(s.upper_threshold, 20);
    assert_eq!(s.lower_threshold, 20);
}

#[test]
fn upper_threshold_above_lower_keeps_lower() {
    let mut s = SortSettings::default();
    s.set_upper_threshold(240);
    assert_eq!(s.upper_threshold, 240);
    assert_eq!(s.lower_threshold, 50);
}

#[test]
fn equal_thresholds_are_kept() {
    let mut s = SortSettings::default();
    s.set_lower_threshold(150);
    assert_eq!(s.lower_threshold, 150);
    assert_eq!(s.upper_threshold, 150);
}
