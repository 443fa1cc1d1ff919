use fanctl::sweep::{describe, normalize, stalled, worth_saving, SweepReport, SweepStep};

fn steps(pairs: &[(u8, u32)]) -> Vec<SweepStep> {
    pairs
        .iter()
        .map(|(duty, rpm)| SweepStep {
            duty: *duty,
            rpm: *rpm,
        })
        .collect()
}

fn q(v: f64) -> i64 {
    (v * 1e9).round() as i64
}

#[test]
fn a_typical_ramp_saturates_before_the_top() {
    // A fan that starts at 20 % and reaches its top speed at 80 %.
    let s = steps(&[
        (0, 0),
        (10, 0),
        (20, 950),
        (30, 1420),
        (40, 1900),
        (50, 2350),
        (60, 2700),
        (70, 2950),
        (80, 3150),
        (90, 3160),
        (100, 3155),
    ]);
    assert_eq!(fanctl::sweep::derive(&s), (Some(20), Some(80), true));
    assert!(worth_saving(Some(20), Some(80)));
}

#[test]
fn still_rising_at_100_is_not_saturated() {
    let s = steps(&[
        (0, 0),
        (10, 400),
        (20, 900),
        (30, 1400),
        (40, 1900),
        (50, 2400),
        (60, 2800),
        (70, 3100),
        (80, 3350),
        (90, 3500),
        (100, 3600),
    ]);
    assert_eq!(fanctl::sweep::derive(&s), (Some(10), Some(100), false));
}

#[test]
fn a_fan_that_never_spins_yields_no_range() {
    let s = steps(&[
        (0, 0),
        (10, 0),
        (20, 0),
        (30, 0),
        (40, 0),
        (50, 0),
        (60, 0),
        (70, 0),
        (80, 0),
        (90, 0),
        (100, 0),
    ]);
    assert_eq!(fanctl::sweep::derive(&s), (None, None, false));
    assert!(!worth_saving(None, None));
}

#[test]
fn a_single_spinning_step_is_a_degenerate_range() {
    // Only spins at 100 %: one spinning step, no stall window.
    let s = steps(&[(0, 0), (50, 0), (100, 100)]);
    assert_eq!(fanctl::sweep::derive(&s), (Some(100), Some(100), false));
    assert!(!worth_saving(Some(100), Some(100)));
}

#[test]
fn small_jitter_is_ignored_but_a_stall_is_detected() {
    // 2 % of 1000 is 20: a 25-rpm step still counts as rising …
    let rising = steps(&[(20, 1000), (30, 1025), (40, 1050)]);
    assert_eq!(fanctl::sweep::derive(&rising), (Some(20), Some(40), false));
    // … a 10-rpm step is noise, and the fan saturates at 20 %.
    let flat = steps(&[(20, 1000), (30, 1010), (40, 1008)]);
    assert_eq!(fanctl::sweep::derive(&flat), (Some(20), Some(20), true));
    // A dip (a flaky connection) also counts as a stall.
    let dip = steps(&[(20, 1000), (30, 990)]);
    assert!(stalled(&dip));
}

#[test]
fn stalled_needs_two_steps_and_a_spinning_fan() {
    assert!(!stalled(&[]), "no steps");
    assert!(!stalled(&steps(&[(10, 950)])), "one step");
    assert!(
        !stalled(&steps(&[(0, 0), (10, 0)])),
        "not spinning is not a stall"
    );
    assert!(stalled(&steps(&[(20, 1000), (30, 1010)])));
    assert!(
        !stalled(&steps(&[(20, 1000), (30, 2000)])),
        "a real rise is no stall"
    );
}

#[test]
fn worth_saving_rejects_the_whole_span_and_single_points() {
    assert!(!worth_saving(None, None));
    assert!(!worth_saving(Some(0), Some(100)));
    assert!(!worth_saving(Some(50), Some(50)));
    assert!(worth_saving(Some(20), Some(80)));
    assert!(worth_saving(Some(0), Some(80)));
}

#[test]
fn normalize_clamps_and_orders_ranges() {
    let n = |a: Option<f64>, b: Option<f64>| normalize(a.map(q), b.map(q));
    assert_eq!(n(Some(20.0), Some(80.0)), (Some(q(20.0)), Some(q(80.0))));
    assert_eq!(n(Some(-5.0), Some(200.0)), (Some(q(0.0)), Some(q(100.0))));
    assert_eq!(
        n(Some(80.0), Some(20.0)),
        (Some(q(20.0)), Some(q(80.0))),
        "a hand-edited inverted range is swapped, not rejected"
    );
    assert_eq!(n(None, Some(50.0)), (None, Some(q(50.0))));
    assert_eq!(n(None, None), (None, None));
}

#[test]
fn describe_covers_the_outcomes() {
    let empty = describe("pwm1", None, None, false, &[], false);
    assert!(empty.contains("could not take a single reading"), "{empty}");

    let none = describe("pwm1", None, None, false, &steps(&[(0, 0), (10, 0)]), false);
    assert!(none.contains("no fan response"), "{none}");
    assert!(none.contains("probably not connected"), "{none}");

    let range = describe(
        "pwm1",
        Some(20),
        Some(80),
        true,
        &steps(&[(0, 0), (10, 0), (20, 950), (80, 3150)]),
        true,
    );
    assert!(range.contains("between 20 % and 80 %"), "{range}");
    assert!(range.contains("saturates at 80 %"), "{range}");
    assert!(range.contains("duty_min=20 / duty_max=80"), "{range}");

    let full_span = describe(
        "pwm1",
        Some(0),
        Some(100),
        false,
        &steps(&[(0, 950), (100, 3150)]),
        false,
    );
    assert!(full_span.contains("nothing to save"), "{full_span}");

    let stuck = describe(
        "pwm1",
        Some(0),
        Some(0),
        true,
        &steps(&[(0, 1234), (50, 1234)]),
        false,
    );
    assert!(stuck.contains("stuck tach"), "{stuck}");

    let stopped = describe(
        "pwm1",
        Some(20),
        Some(50),
        false,
        &steps(&[(0, 0), (20, 950), (50, 1400), (60, 0)]),
        true,
    );
    assert!(
        stopped.contains("stopped spinning again at 60 %"),
        "{stopped}"
    );
}

#[test]
fn the_noise_floor_is_fifteen_rpm_or_two_percent() {
    // 15 rpm at low speeds, 2 % (here 40 rpm) at high ones.
    assert!(stalled(&steps(&[(10, 100), (20, 115)])));
    assert!(!stalled(&steps(&[(10, 100), (20, 116)])));
    assert!(stalled(&steps(&[(10, 2000), (20, 2040)])));
    assert!(!stalled(&steps(&[(10, 2000), (20, 2041)])));
}

#[test]
fn the_saturation_point_is_where_the_trace_first_stalls() {
    let s = steps(&[(0, 0), (10, 900), (20, 1400), (30, 1405), (40, 2000)]);
    let (_, max, saturated) = fanctl::sweep::derive(&s);
    assert!(saturated);
    assert_eq!(max, Some(20));
    let first = (0..=s.len()).find(|n| stalled(&s[..*n])).unwrap();
    assert_eq!(s[first - 2].duty, 20);
}

#[test]
fn reports_are_compared_by_content() {
    let a = SweepReport {
        fan: "pwm1".to_string(),
        min_duty: Some(20),
        max_duty: Some(80),
        saturated: true,
        note: "n".to_string(),
    };
    let b = a.clone();
    assert!(a.same(&b));
    let c = SweepReport {
        note: "m".to_string(),
        ..a.clone()
    };
    assert!(!a.same(&c));
}

#[test]
fn a_drop_ends_the_rise() {
    // However much speed is lost, the fan has stopped accelerating.
    assert!(stalled(&steps(&[(20, 2000), (30, 1500)])));
    assert!(stalled(&steps(&[(20, 2000), (30, 1)])));
    // A fan that stops altogether is no longer spinning.
    assert!(!stalled(&steps(&[(20, 2000), (30, 0)])));
    // 30 % is the last duty at which the speed was still rising.
    let s = steps(&[(20, 1000), (30, 2000), (40, 1500)]);
    assert_eq!(fanctl::sweep::derive(&s), (Some(20), Some(30), true));
    // It stays so, whatever comes after.
    let s = steps(&[(20, 1000), (30, 2000), (40, 1500), (50, 3000)]);
    assert_eq!(fanctl::sweep::derive(&s), (Some(20), Some(30), true));
}
