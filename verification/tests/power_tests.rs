use kim_temp::power::{residual_of_readings, residual_power, residual_sample};

fn milli(v: f64) -> i64 {
    (v * 1000.0).round() as i64
}

#[test]
fn scenario_power_residual() {
    let components = [milli(3.0), milli(2.0), milli(1.0), milli(0.5)];
    assert_eq!(residual_power(milli(12.5), &components), milli(6.0) as i128);
    let heavy = [milli(6.0), milli(4.0), milli(2.0), milli(1.0)];
    assert_eq!(residual_power(milli(12.5), &heavy), 0);
}

#[test]
fn residual_is_never_negative() {
    assert_eq!(residual_power(0, &[1]), 0);
    assert_eq!(residual_power(-5, &[]), 0);
    assert_eq!(residual_power(i64::MIN, &[i64::MAX, i64::MAX]), 0);
    assert_eq!(residual_power(10, &[10]), 0);
    assert_eq!(residual_power(10, &[9]), 1);
}

#[test]
fn no_components_leave_the_total() {
    assert_eq!(residual_power(12_500, &[]), 12_500);
}

#[test]
fn negative_components_add() {
    assert_eq!(residual_power(5, &[-1]), 6);
    assert_eq!(residual_power(-5, &[-10, 2]), 3);
}

#[test]
fn wide_results_are_exact() {
    let rest = residual_power(i64::MAX, &[i64::MIN, i64::MIN]);
    assert_eq!(rest, i64::MAX as i128 - 2 * (i64::MIN as i128));
    assert_eq!(residual_sample(rest), i64::MAX);
}

#[test]
fn missing_readings_count_as_zero() {
    assert_eq!(residual_of_readings(Some(12_500), &[Some(3_000), None, Some(1_000)]), 8_500);
    assert_eq!(residual_of_readings(None, &[Some(3_000)]), 0);
    assert_eq!(residual_of_readings(None, &[Some(-3_000)]), 3_000);
    assert_eq!(residual_of_readings(Some(7), &[]), 7);
    assert_eq!(residual_of_readings(Some(7), &[None, None]), 7);
}

#[test]
fn samples_saturate() {
    assert_eq!(residual_sample(0), 0);
    assert_eq!(residual_sample(6_000), 6_000);
    assert_eq!(residual_sample(i64::MAX as i128), i64::MAX);
    assert_eq!(residual_sample(i64::MAX as i128 + 1), i64::MAX);
    assert_eq!(residual_sample(i64::MIN as i128 - 1), i64::MIN);
    assert_eq!(residual_sample(-3), -3);
}
