use kim_temp::probe::{
    content_thresholds, has_moved, matches_report, LEAST_RANGE_MW, MATCH_WITHIN, MOVED_ABOVE,
};

#[test]
fn key_matches_a_report() {
    // Within three tenths of a report of 1000 mW.
    assert!(matches_report(1_299_999, 1_000_000));
    assert!(matches_report(700_001, 1_000_000));
    assert!(!matches_report(1_300_000, 1_000_000));
    assert!(!matches_report(700_000, 1_000_000));
    // Within 200 mW of a small report.
    assert!(matches_report(210_000, 11_000));
    assert!(matches_report(0, 11_000));
    assert!(!matches_report(211_000, 11_000));
    assert!(matches_report(5, 5));
    assert!(!matches_report(i64::MAX, i64::MIN));
    assert!(!matches_report(i64::MIN, i64::MAX));
    assert_eq!(MATCH_WITHIN, 200_000);
}

#[test]
fn key_has_moved() {
    assert!(!has_moved(0, 500_000));
    assert!(has_moved(0, 500_001));
    assert!(has_moved(500_001, 0));
    assert!(!has_moved(-250_000, 250_000));
    assert!(has_moved(i64::MIN, i64::MAX));
    assert_eq!(MOVED_ABOVE, 500_000);
}

#[test]
fn thresholds_part_the_range_in_thirds() {
    assert_eq!(content_thresholds(4_000, 1_000), Some((2_000, 3_000)));
    assert_eq!(content_thresholds(1_500, 1_000), Some((1_166, 1_332)));
    assert_eq!(content_thresholds(1_499, 1_000), None);
    assert_eq!(content_thresholds(1_000, 4_000), None);
    assert_eq!(content_thresholds(500, 0), Some((166, 332)));
    assert_eq!(
        content_thresholds(i64::MAX, i64::MIN),
        Some((-3_074_457_345_618_258_603, 3_074_457_345_618_258_602))
    );
    assert_eq!(LEAST_RANGE_MW, 500);
}
