use kim_temp::key::SensorKey;
use kim_temp::zone::{classify, key_has_prefix, ClassificationTable, PrefixRule, Zone};

fn key(text: &str) -> SensorKey {
    let b = text.as_bytes();
    SensorKey::from_bytes(b[0], b[1], b[2], b[3])
}

fn expected(b0: u8, b1: u8) -> Zone {
    if b0 != b'T' {
        return Zone::Unclassified;
    }
    match b1 {
        b'p' | b'e' | b'c' => Zone::Cpu,
        b'g' => Zone::Gpu,
        b'M' | b'm' => Zone::Memory,
        b'S' => Zone::Storage,
        b'B' => Zone::Battery,
        _ => Zone::Unclassified,
    }
}

#[test]
fn standard_families() {
    assert_eq!(classify(key("Tp01")), Zone::Cpu);
    assert_eq!(classify(key("Te03")), Zone::Cpu);
    assert_eq!(classify(key("Tc0a")), Zone::Cpu);
    assert_eq!(classify(key("Tg05")), Zone::Gpu);
    assert_eq!(classify(key("TM0P")), Zone::Memory);
    assert_eq!(classify(key("Tm02")), Zone::Memory);
    assert_eq!(classify(key("TS0P")), Zone::Storage);
    assert_eq!(classify(key("TSCD")), Zone::Storage);
    assert_eq!(classify(key("TB0T")), Zone::Battery);
}

#[test]
fn unmatched_keys_are_unclassified() {
    assert_eq!(classify(key("PSTR")), Zone::Unclassified);
    assert_eq!(classify(key("TC0P")), Zone::Unclassified);
    assert_eq!(classify(key("TG0P")), Zone::Unclassified);
    assert_eq!(classify(key("Tx00")), Zone::Unclassified);
    assert_eq!(classify(key("pT00")), Zone::Unclassified);
    assert_eq!(classify(SensorKey::from_bytes(0, 0, 0, 0)), Zone::Unclassified);
    assert_eq!(classify(SensorKey::from_bytes(0xff, 0xff, 0xff, 0xff)), Zone::Unclassified);
}

#[test]
fn every_key_has_exactly_one_zone() {
    let table = ClassificationTable::standard();
    for b0 in 0..=255u8 {
        for b1 in 0..=255u8 {
            for tail in [0u8, b'0', 0xff] {
                let k = SensorKey::from_bytes(b0, b1, tail, tail);
                let zone = classify(k);
                assert_eq!(zone, expected(b0, b1));
                assert_eq!(table.classify(k), zone);
            }
        }
    }
}

#[test]
fn extended_table_adds_upper_case_families() {
    let table = ClassificationTable::extended();
    assert_eq!(table.len(), 10);
    assert_eq!(table.classify(key("TC0P")), Zone::Cpu);
    assert_eq!(table.classify(key("TG0P")), Zone::Gpu);
    assert_eq!(table.classify(key("Tp01")), Zone::Cpu);
    assert_eq!(table.classify(key("TB0T")), Zone::Battery);
    assert_eq!(table.classify(key("PSTR")), Zone::Unclassified);
}

#[test]
fn empty_table_classifies_nothing() {
    let table = ClassificationTable::new();
    assert_eq!(table.len(), 0);
    assert_eq!(table.classify(key("Tp01")), Zone::Unclassified);
}

#[test]
fn first_matching_rule_wins() {
    let mut table = ClassificationTable::new();
    table.push(vec![b'T', b'p'], Zone::Cpu);
    table.push(vec![b'T'], Zone::Battery);
    table.push(vec![b'T', b'g'], Zone::Gpu);
    assert_eq!(table.classify(key("Tp01")), Zone::Cpu);
    // The generic rule stands before the GPU rule and shadows it.
    assert_eq!(table.classify(key("Tg05")), Zone::Battery);
    assert_eq!(table.classify(key("Tzzz")), Zone::Battery);
    assert_eq!(table.classify(key("PSTR")), Zone::Unclassified);

    let mut specific_first = ClassificationTable::new();
    specific_first.push(vec![b'T', b'g'], Zone::Gpu);
    specific_first.push(vec![b'T'], Zone::Battery);
    assert_eq!(specific_first.classify(key("Tg05")), Zone::Gpu);
}

#[test]
fn prefix_lengths() {
    let k = key("TSCD");
    assert!(key_has_prefix(k, &[]));
    assert!(key_has_prefix(k, b"T"));
    assert!(key_has_prefix(k, b"TSCD"));
    assert!(!key_has_prefix(k, b"TSCDE"));
    assert!(!key_has_prefix(k, b"TSCE"));
    assert!(!key_has_prefix(k, b"S"));

    let mut table = ClassificationTable::new();
    table.push(vec![b'T', b'S', b'C', b'D', b'E'], Zone::Cpu);
    table.push(vec![b'T', b'S', b'C', b'D'], Zone::Storage);
    assert_eq!(table.classify(k), Zone::Storage);

    let mut catch_all = ClassificationTable::new();
    catch_all.push(vec![], Zone::Memory);
    assert_eq!(catch_all.classify(key("PSTR")), Zone::Memory);
}

#[test]
fn table_from_a_list_of_rules() {
    let table = ClassificationTable::from_rules(vec![
        PrefixRule { prefix: vec![b'T', b'h'], zone: Zone::Storage },
        PrefixRule { prefix: vec![b'T'], zone: Zone::Cpu },
    ]);
    assert_eq!(table.len(), 2);
    assert_eq!(table.classify(key("Th0a")), Zone::Storage);
    assert_eq!(table.classify(key("Tp01")), Zone::Cpu);
    assert_eq!(table.classify(key("PSTR")), Zone::Unclassified);
}
