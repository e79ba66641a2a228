use tdns_cli::name::Name;
use tdns_cli::record::{RData, RecordKind, RecordSet, RsData, WireRecord, CLASS_IN, TYPE_A, TYPE_ANY, TYPE_TXT};
use tdns_cli::text::parse_rs_data_text;
use tdns_cli::update::{Expectation, Operation};

fn name(s: &str) -> Name {
    Name::parse(s).unwrap()
}

fn rs_data(s: &str) -> RsData {
    let (kind, texts) = parse_rs_data_text(s).unwrap();
    let values: Vec<Vec<u8>> = texts
        .iter()
        .map(|t| {
            let t = std::str::from_utf8(t).unwrap();
            match kind {
                RecordKind::A => t.split('.').map(|o| o.parse::<u8>().unwrap()).collect(),
                _ => t.as_bytes().to_vec(),
            }
        })
        .collect();
    RsData::from_values(kind, values).unwrap()
}

fn set(s: &str) -> RecordSet {
    RecordSet::new(name("foo.example.org"), rs_data(s))
}

fn answers(ips: &[[u8; 4]]) -> Vec<WireRecord> {
    ips.iter()
        .map(|ip| WireRecord {
            name: name("foo.example.org"),
            dns_class: CLASS_IN,
            rr_type: TYPE_A,
            ttl: 60,
            data: Some(RData::A(*ip)),
        })
        .collect()
}

#[test]
fn is_needs_exact_set() {
    let e = Expectation::Is(set("A:192.168.1.1,192.168.1.2"));
    assert!(e.satisfied_by(&answers(&[[192, 168, 1, 2], [192, 168, 1, 1]])));
    assert!(!e.satisfied_by(&answers(&[[192, 168, 1, 1]])));
    assert!(!e.satisfied_by(&answers(&[[192, 168, 1, 1], [192, 168, 1, 2], [192, 168, 1, 3]])));
    assert!(!e.satisfied_by(&[]));
}

#[test]
fn contains_is_met_by_supersets() {
    let e = Expectation::Contains(set("A:192.168.1.1,192.168.1.2"));
    assert!(e.satisfied_by(&answers(&[[192, 168, 1, 1], [192, 168, 1, 2]])));
    assert!(e.satisfied_by(&answers(&[[192, 168, 1, 3], [192, 168, 1, 2], [192, 168, 1, 1]])));
    assert!(!e.satisfied_by(&answers(&[[192, 168, 1, 1], [192, 168, 1, 3]])));
    assert!(!e.satisfied_by(&[]));
}

#[test]
fn not_any_is_met_without_overlap() {
    let e = Expectation::NotAny(set("A:192.168.1.1,192.168.1.2"));
    assert!(e.satisfied_by(&[]));
    assert!(e.satisfied_by(&answers(&[[10, 0, 0, 1], [10, 0, 0, 2]])));
    assert!(!e.satisfied_by(&answers(&[[10, 0, 0, 1], [192, 168, 1, 2]])));
}

#[test]
fn not_any_of_other_kind_is_met() {
    let e = Expectation::NotAny(set("TXT:abcd"));
    assert!(e.satisfied_by(&answers(&[[97, 98, 99, 100]])));
}

#[test]
fn empty_is_met_only_without_answers() {
    let e = Expectation::Empty(TYPE_A);
    assert!(e.satisfied_by(&[]));
    assert!(!e.satisfied_by(&answers(&[[192, 168, 1, 1]])));
    assert_eq!(e.record_type(), TYPE_A);
}

#[test]
fn expectation_types() {
    assert_eq!(Expectation::Is(set("TXT:x")).record_type(), TYPE_TXT);
    assert_eq!(Expectation::NotAny(set("A:1.2.3.4")).record_type(), TYPE_A);
}

#[test]
fn expectation_for_each_operation() {
    assert!(matches!(Expectation::for_operation(Operation::Create(set("A:1.2.3.4"))), Expectation::Is(_)));
    assert!(matches!(Expectation::for_operation(Operation::Append(set("A:1.2.3.4"), false)), Expectation::Contains(_)));
    assert!(matches!(Expectation::for_operation(Operation::Delete(set("A:1.2.3.4"))), Expectation::NotAny(_)));
    match Expectation::for_operation(Operation::Delete(set("TXT"))) {
        Expectation::Empty(t) => assert_eq!(t, TYPE_TXT),
        other => panic!("unexpected {:?}", other),
    }
    match Expectation::for_operation(Operation::DeleteAll(name("foo.example.org"))) {
        Expectation::Empty(t) => assert_eq!(t, TYPE_ANY),
        other => panic!("unexpected {:?}", other),
    }
}
