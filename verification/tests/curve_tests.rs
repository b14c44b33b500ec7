use brightd::curve::{map_curve, ui_percent, HW_MAX, HW_MIN, SYS_MAX};

#[test]
fn table_values_at_bucket_bounds() {
    assert_eq!(map_curve(0), HW_MIN);
    assert_eq!(map_curve(5), HW_MIN);
    assert_eq!(map_curve(6), 200);
    assert_eq!(map_curve(10), 200);
    assert_eq!(map_curve(11), 600);
    assert_eq!(map_curve(20), 600);
    assert_eq!(map_curve(21), 1800);
    assert_eq!(map_curve(40), 1800);
    assert_eq!(map_curve(41), 2800);
    assert_eq!(map_curve(60), 2800);
    assert_eq!(map_curve(61), 3500);
    assert_eq!(map_curve(80), 3500);
    assert_eq!(map_curve(81), HW_MAX);
    assert_eq!(map_curve(100), HW_MAX);
}

#[test]
fn boundary_continuity_is_strictly_increasing() {
    assert!(map_curve(5) < map_curve(6));
    assert!(map_curve(10) < map_curve(11));
    assert!(map_curve(20) < map_curve(21));
    assert!(map_curve(40) < map_curve(41));
    assert!(map_curve(60) < map_curve(61));
    assert!(map_curve(80) < map_curve(81));
}

#[test]
fn monotone_over_valid_domain() {
    let mut prev = map_curve(0);
    let mut p = 1;
    while p <= 100 {
        let cur = map_curve(p);
        assert!(prev <= cur, "curve decreased at percent {}", p);
        prev = cur;
        p += 1;
    }
}

#[test]
fn above_hundred_saturates_to_top() {
    assert_eq!(map_curve(101), HW_MAX);
    assert_eq!(map_curve(500), HW_MAX);
    assert_eq!(map_curve(i32::MAX), HW_MAX);
}

#[test]
fn negative_percent_falls_to_catch_all() {
    assert_eq!(map_curve(-1), HW_MAX);
    assert_eq!(map_curve(-100), HW_MAX);
    assert_eq!(map_curve(i32::MIN), HW_MAX);
}

#[test]
fn percent_of_ui_scale_truncates() {
    assert_eq!(ui_percent(50, SYS_MAX), 11);
    assert_eq!(ui_percent(52, SYS_MAX), 12);
    assert_eq!(ui_percent(209, SYS_MAX), 50);
    assert_eq!(ui_percent(300, SYS_MAX), 71);
    assert_eq!(ui_percent(0, SYS_MAX), 0);
    assert_eq!(ui_percent(418, SYS_MAX), 100);
}

#[test]
fn percent_of_negative_reading_truncates_toward_zero() {
    assert_eq!(ui_percent(-1, SYS_MAX), 0);
    assert_eq!(ui_percent(-5, SYS_MAX), -1);
    assert_eq!(ui_percent(-418, SYS_MAX), -100);
}
