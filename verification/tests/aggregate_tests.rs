use kim_temp::aggregate::{
    aggregate, aggregate_family, aggregate_or_family, aggregate_values, mean_of, or_unavailable,
    SensorReading, ValidRange,
};
use kim_temp::key::SensorKey;
use kim_temp::zone::{ClassificationTable, Zone};

fn reading(name: &str, value: i64) -> SensorReading {
    let b = name.as_bytes();
    SensorReading { key: SensorKey::from_bytes(b[0], b[1], b[2], b[3]), value }
}

fn milli(v: f64) -> i64 {
    (v * 1000.0).round() as i64
}

const RANGE: ValidRange = ValidRange { min: 0, max: 150_000 };

#[test]
fn scenario_zone_aggregation() {
    let table = ClassificationTable::standard();
    let readings =
        [reading("Tp01", milli(45.0)), reading("Tp02", milli(55.0)), reading("Te03", milli(1000.0))];
    assert_eq!(aggregate(&table, Zone::Cpu, &readings, RANGE), Some(milli(50.0)));
}

#[test]
fn empty_zone_is_absent() {
    let table = ClassificationTable::standard();
    let readings = [reading("Tp01", 45_000), reading("Tg05", 200_000)];
    assert_eq!(aggregate(&table, Zone::Battery, &readings, RANGE), None);
    // The only GPU reading is out of range.
    assert_eq!(aggregate(&table, Zone::Gpu, &readings, RANGE), None);
    assert_eq!(aggregate(&table, Zone::Cpu, &[], RANGE), None);
    assert_eq!(aggregate_values(&[], RANGE), None);
}

#[test]
fn unmatched_readings_are_dropped() {
    let table = ClassificationTable::standard();
    let readings = [reading("PSTR", 12_000), reading("Txyz", 30_000)];
    assert_eq!(aggregate(&table, Zone::Unclassified, &readings, RANGE), None);
    assert_eq!(aggregate(&table, Zone::Cpu, &readings, RANGE), None);
}

#[test]
fn bounds_are_exclusive() {
    assert_eq!(aggregate_values(&[0, 150_000], RANGE), None);
    assert_eq!(aggregate_values(&[1, 149_999], RANGE), Some(75_000));
    assert_eq!(aggregate_values(&[-1, 0, 1], RANGE), Some(1));
    assert_eq!(aggregate_values(&[5], ValidRange { min: 5, max: 5 }), None);
    assert_eq!(aggregate_values(&[5], ValidRange { min: 6, max: 4 }), None);
}

#[test]
fn mean_rounds_down() {
    assert_eq!(aggregate_values(&[1, 2], RANGE), Some(1));
    assert_eq!(aggregate_values(&[1, 2, 2], RANGE), Some(1));
    let below = ValidRange { min: -100, max: 100 };
    assert_eq!(aggregate_values(&[-1, -2], below), Some(-2));
    assert_eq!(aggregate_values(&[-3, 2], below), Some(-1));
    assert_eq!(aggregate_values(&[-7], below), Some(-7));
    assert_eq!(mean_of(&[-1, -2]), Some(-2));
    assert_eq!(mean_of(&[10, 20, 31]), Some(20));
    assert_eq!(mean_of(&[]), None);
}

#[test]
fn large_values_do_not_overflow() {
    let wide = ValidRange { min: i64::MIN, max: i64::MAX };
    let big = i64::MAX - 1;
    assert_eq!(aggregate_values(&[big, big, big], wide), Some(big));
    let small = i64::MIN + 1;
    assert_eq!(aggregate_values(&[small, small], wide), Some(small));
    assert_eq!(aggregate_values(&[i64::MAX, i64::MIN], wide), None);
    assert_eq!(mean_of(&[i64::MAX, i64::MAX]), Some(i64::MAX));
    assert_eq!(mean_of(&[i64::MIN, i64::MIN, i64::MIN]), Some(i64::MIN));
    assert_eq!(mean_of(&[i64::MIN, i64::MAX]), Some(-1));
}

#[test]
fn dropping_out_of_range_values_changes_nothing() {
    let full = [45_000, -1, 55_000, 1_000_000, 0, 150_000, 47_000];
    let subset = [45_000, 55_000, 1_000_000, 47_000];
    let only_kept = [45_000, 55_000, 47_000];
    let expected = Some(49_000);
    assert_eq!(aggregate_values(&full, RANGE), expected);
    assert_eq!(aggregate_values(&subset, RANGE), expected);
    assert_eq!(aggregate_values(&only_kept, RANGE), expected);
}

#[test]
fn order_does_not_matter() {
    let a = [45_000, 1_000_000, 55_000, 47_000, -5];
    let b = [-5, 47_000, 55_000, 45_000, 1_000_000];
    assert_eq!(aggregate_values(&a, RANGE), aggregate_values(&b, RANGE));
    assert_eq!(aggregate_values(&a, RANGE), Some(49_000));
}

#[test]
fn zone_ranges() {
    assert_eq!(ValidRange::for_zone(Zone::Cpu), ValidRange { min: 0, max: 150_000 });
    assert_eq!(ValidRange::for_zone(Zone::Gpu), ValidRange { min: 0, max: 150_000 });
    assert_eq!(ValidRange::for_zone(Zone::Memory), ValidRange { min: 0, max: 100_000 });
    assert_eq!(ValidRange::for_zone(Zone::Storage), ValidRange { min: 0, max: 100_000 });
    assert_eq!(ValidRange::for_zone(Zone::Battery), ValidRange { min: 0, max: 80_000 });
    assert_eq!(ValidRange::for_zone(Zone::Unclassified), ValidRange { min: 0, max: 150_000 });
    assert_eq!(ValidRange::widest(), RANGE);
    assert!(ValidRange::for_zone(Zone::Battery).contains(79_999));
    assert!(!ValidRange::for_zone(Zone::Battery).contains(80_000));
    assert!(!ValidRange::for_zone(Zone::Battery).contains(0));
}

#[test]
fn each_zone_gets_its_own_readings() {
    let table = ClassificationTable::standard();
    let readings = [
        reading("Tp01", 40_000),
        reading("Tg05", 50_000),
        reading("TM0P", 30_000),
        reading("Tm02", 32_000),
        reading("TSCD", 35_000),
        reading("TB0T", 28_000),
        reading("Tc0a", 44_000),
        reading("PSTR", 99_000),
    ];
    assert_eq!(aggregate(&table, Zone::Cpu, &readings, RANGE), Some(42_000));
    assert_eq!(aggregate(&table, Zone::Gpu, &readings, RANGE), Some(50_000));
    assert_eq!(aggregate(&table, Zone::Memory, &readings, RANGE), Some(31_000));
    assert_eq!(aggregate(&table, Zone::Storage, &readings, RANGE), Some(35_000));
    assert_eq!(aggregate(&table, Zone::Battery, &readings, RANGE), Some(28_000));
}

#[test]
fn family_stands_in_for_an_empty_zone() {
    let table = ClassificationTable::extended();
    let no_cpu = [reading("TB0T", 30_000), reading("Tx00", 50_000), reading("PSTR", 10_000)];
    assert_eq!(aggregate(&table, Zone::Cpu, &no_cpu, RANGE), None);
    assert_eq!(aggregate_or_family(&table, Zone::Cpu, &no_cpu, RANGE, b"T"), Some(40_000));
    assert_eq!(aggregate_family(&no_cpu, b"T", RANGE), Some(40_000));
    assert_eq!(aggregate_family(&no_cpu, b"P", RANGE), Some(10_000));
    assert_eq!(aggregate_family(&no_cpu, b"V", RANGE), None);

    let with_cpu = [reading("TC0P", 60_000), reading("TB0T", 30_000)];
    assert_eq!(aggregate_or_family(&table, Zone::Cpu, &with_cpu, RANGE, b"T"), Some(60_000));

    let nothing = [reading("PSTR", 10_000)];
    assert_eq!(aggregate_or_family(&table, Zone::Cpu, &nothing, RANGE, b"T"), None);
}

#[test]
fn absent_mean_is_marked() {
    assert_eq!(or_unavailable(Some(42_000)), (42_000, true));
    assert_eq!(or_unavailable(Some(0)), (0, true));
    assert_eq!(or_unavailable(None), (0, false));
}
