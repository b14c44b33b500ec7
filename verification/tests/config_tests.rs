use brightd::config::{Config, CurveEntry};

#[test]
fn standard_config_holds_the_built_in_tunables() {
    let c = Config::standard();
    assert_eq!(
        c.resource_path,
        "/sys/devices/platform/mtk_leds/leds/lcd-backlight/brightness".to_string()
    );
    assert_eq!(c.sys_max, 418);
    assert_eq!(c.hw_min, 10);
    assert_eq!(c.hw_max, 4095);
    assert_eq!(c.poll_interval_ms, 50);
    assert_eq!(c.step_count, 10);
    assert_eq!(c.step_delay_ms, 10);
}

#[test]
fn standard_curve_table_matches_the_mapper() {
    let c = Config::standard();
    assert_eq!(c.curve.len(), 7);
    assert_eq!(
        c.curve[0],
        CurveEntry {
            lo: 0,
            hi: 5,
            hw: 10
        }
    );
    assert_eq!(
        c.curve[6],
        CurveEntry {
            lo: 81,
            hi: i32::MAX,
            hw: 4095
        }
    );
    // Each bucket yields what the mapper yields at both of its ends.
    for e in c.curve.iter() {
        assert_eq!(brightd::curve::map_curve(e.lo), e.hw);
        let hi_probe = if e.hi == i32::MAX { 100 } else { e.hi };
        assert_eq!(brightd::curve::map_curve(hi_probe), e.hw);
    }
}
