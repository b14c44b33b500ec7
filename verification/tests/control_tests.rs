use brightd::control::{Controller, Decision};
use brightd::curve::SYS_MAX;

#[test]
fn fresh_controller_has_no_observations() {
    let c = Controller::new(SYS_MAX);
    assert_eq!(c.sys_max, SYS_MAX);
    assert_eq!(c.last_ui_value, None);
    assert_eq!(c.last_mapped, None);
}

#[test]
fn failed_reads_leave_state_untouched_until_first_value() {
    let mut c = Controller::new(SYS_MAX);
    for _ in 0..3 {
        let d = c.step(None);
        assert_eq!(d, Decision::Skip);
        assert_eq!(c.last_ui_value, None);
        assert_eq!(c.last_mapped, None);
    }
    // The first successful read is a genuine change: nothing it could
    // equal has been observed before.
    let d = c.step(Some(100));
    assert_eq!(
        d,
        Decision::Actuate {
            value: 100,
            target: 1800
        }
    );
    assert_eq!(c.last_ui_value, Some(100));
    assert_eq!(c.last_mapped, Some(1800));
}

#[test]
fn repeated_reading_is_skipped_without_mapping() {
    let mut c = Controller::new(SYS_MAX);
    let first = c.step(Some(50));
    assert_eq!(
        first,
        Decision::Actuate {
            value: 50,
            target: 600
        }
    );
    let again = c.step(Some(50));
    assert_eq!(again, Decision::Skip);
    assert_eq!(c.last_ui_value, Some(50));
    assert_eq!(c.last_mapped, Some(600));
}

#[test]
fn readings_in_one_bucket_actuate_only_once() {
    let mut c = Controller::new(SYS_MAX);
    // 50, 60 and 80 are 11%, 14% and 19% of the scale: one bucket.
    let first = c.step(Some(50));
    assert!(matches!(first, Decision::Actuate { .. }));
    let mut actuations = 0;
    for v in [60, 80, 50, 70] {
        match c.step(Some(v)) {
            Decision::Actuate { .. } => actuations += 1,
            Decision::Commit { value, target } => {
                assert_eq!(value, v);
                assert_eq!(target, 600);
            }
            Decision::Skip => panic!("a new reading must not be skipped"),
        }
    }
    assert_eq!(actuations, 0);
    assert_eq!(c.last_mapped, Some(600));
}

#[test]
fn scenario_two_smoothing_invocations_out_of_four_reads() {
    let mut c = Controller::new(418);
    let decisions: Vec<Decision> = [50, 52, 209, 300]
        .iter()
        .map(|&v| c.step(Some(v)))
        .collect();
    assert_eq!(
        decisions,
        vec![
            Decision::Actuate {
                value: 50,
                target: 600
            },
            Decision::Commit {
                value: 52,
                target: 600
            },
            Decision::Actuate {
                value: 209,
                target: 2800
            },
            Decision::Actuate {
                value: 300,
                target: 3500
            },
        ]
    );
    // Among the three transitions after the first read, exactly two
    // re-actuate the hardware.
    let after_first = decisions[1..]
        .iter()
        .filter(|d| matches!(d, Decision::Actuate { .. }))
        .count();
    assert_eq!(after_first, 2);
}

#[test]
fn reading_above_scale_is_ignored() {
    let mut c = Controller::new(SYS_MAX);
    let d = c.step(Some(SYS_MAX + 1));
    assert_eq!(d, Decision::Skip);
    assert_eq!(c.last_ui_value, None);
    assert_eq!(c.last_mapped, None);
}

#[test]
fn small_negative_reading_truncates_to_bottom_bucket() {
    let mut c = Controller::new(SYS_MAX);
    // -1 is within the accepted range check and its percentage
    // truncates toward zero, landing in the bottom bucket.
    let d = c.step(Some(-1));
    assert_eq!(
        d,
        Decision::Actuate {
            value: -1,
            target: 10
        }
    );
}

#[test]
fn observe_decides_without_touching_state() {
    let c = Controller::new(SYS_MAX);
    let d = c.observe(Some(50));
    assert_eq!(
        d,
        Decision::Actuate {
            value: 50,
            target: 600
        }
    );
    assert_eq!(c.last_ui_value, None);
    assert_eq!(c.last_mapped, None);
}
