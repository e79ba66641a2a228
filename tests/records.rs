use tdns_cli::name::Name;
use tdns_cli::record::{
    RData, RecordKind, RecordSet, RsData, RsDataParseError, TryFromRecordsError, WireRecord, CLASS_IN,
    TYPE_A, TYPE_AAAA, TYPE_TXT,
};
use tdns_cli::text::parse_rs_data_text;

const TYPE_MX: u16 = 15;

fn name(s: &str) -> Name {
    Name::parse(s).unwrap()
}

fn rs_data(s: &str) -> RsData {
    let (kind, texts) = parse_rs_data_text(s).unwrap();
    let values: Vec<Vec<u8>> = texts
        .iter()
        .map(|t| {
            let t = std::str::from_utf8(t).unwrap();
            match kind {
                RecordKind::A => t.split('.').map(|o| o.parse::<u8>().unwrap()).collect(),
                RecordKind::AAAA => t.split('.').map(|o| o.parse::<u8>().unwrap()).collect(),
                RecordKind::TXT => t.as_bytes().to_vec(),
            }
        })
        .collect();
    RsData::from_values(kind, values).unwrap()
}

fn a_record(owner: &str, ip: [u8; 4]) -> WireRecord {
    WireRecord { name: name(owner), dns_class: CLASS_IN, rr_type: TYPE_A, ttl: 300, data: Some(RData::A(ip)) }
}

fn txt_record(owner: &str, segs: Vec<Vec<u8>>) -> WireRecord {
    WireRecord { name: name(owner), dns_class: CLASS_IN, rr_type: TYPE_TXT, ttl: 300, data: Some(RData::TXT(segs)) }
}

#[test]
fn from_records_fails_on_no_records() {
    let r = RecordSet::from_records(&[]);
    assert!(matches!(r, Err(TryFromRecordsError::Empty)));
    assert_eq!(r.unwrap_err().message(), "no records");
}

#[test]
fn from_records_fails_on_two_keys() {
    let rrs = vec![
        a_record("foo.example.org", [192, 168, 1, 1]),
        a_record("bar.example.org", [192, 168, 1, 2]),
        a_record("FOO.example.org", [192, 168, 1, 3]),
        a_record("bar.example.org", [192, 168, 1, 4]),
    ];
    match RecordSet::from_records(&rrs) {
        Err(TryFromRecordsError::MultipleKeys(ks)) => {
            assert_eq!(ks.len(), 2);
            assert!(ks.iter().any(|k| k.name() == &name("foo.example.org")));
            assert!(ks.iter().any(|k| k.name() == &name("bar.example.org")));
            assert!(ks.iter().all(|k| k.record_type() == TYPE_A && k.dns_class() == CLASS_IN));
        }
        other => panic!("unexpected {:?}", other),
    }
}

#[test]
fn from_records_keys_differ_by_class_or_type() {
    let mut other_class = a_record("foo.example.org", [1, 1, 1, 1]);
    other_class.dns_class = 3;
    let txt = txt_record("foo.example.org", vec![b"x".to_vec()]);
    let rrs = vec![a_record("foo.example.org", [1, 1, 1, 2]), other_class, txt];
    match RecordSet::from_records(&rrs) {
        Err(TryFromRecordsError::MultipleKeys(ks)) => assert_eq!(ks.len(), 3),
        other => panic!("unexpected {:?}", other),
    }
}

#[test]
fn rrset_is_of_internet_class() {
    let mut r = a_record("foo.example.org", [1, 1, 1, 1]);
    r.dns_class = 3;
    let rs = RecordSet::from_records(&[r]).unwrap();
    assert_eq!(rs.dns_class(), 3);
    let rrset = rs.to_rrset(60);
    assert_eq!(rrset.dns_class, CLASS_IN);
    assert!(rrset.records.iter().all(|r| r.dns_class == CLASS_IN));
}

#[test]
fn from_records_keys_ignore_case() {
    let rrs = vec![a_record("foo.example.org", [10, 0, 0, 1]), a_record("FOO.Example.ORG", [10, 0, 0, 2])];
    let rs = RecordSet::from_records(&rrs).unwrap();
    assert!(rs == RecordSet::new(name("foo.example.org"), rs_data("A:10.0.0.1,10.0.0.2")));
}

#[test]
fn from_records_in_any_order_gives_equal_sets() {
    let a = vec![
        a_record("foo.example.org", [192, 168, 1, 1]),
        a_record("foo.example.org", [192, 168, 1, 2]),
        a_record("foo.example.org", [192, 168, 1, 3]),
    ];
    let b = vec![a[2].clone(), a[0].clone(), a[1].clone()];
    let c = vec![a[1].clone(), a[2].clone(), a[0].clone(), a[1].clone()];
    let ra = RecordSet::from_records(&a).unwrap();
    let rb = RecordSet::from_records(&b).unwrap();
    let rc = RecordSet::from_records(&c).unwrap();
    assert!(ra == rb);
    assert!(ra == rc);
    assert_eq!(ra.data().values.len(), 3);
}

#[test]
fn from_records_unsupported_type() {
    let r = WireRecord { name: name("foo.example.org"), dns_class: CLASS_IN, rr_type: TYPE_MX, ttl: 1, data: Some(RData::Other) };
    match RecordSet::from_records(&[r]) {
        Err(TryFromRecordsError::UnsupportedType(t)) => assert_eq!(t, TYPE_MX),
        other => panic!("unexpected {:?}", other),
    }
}

#[test]
fn from_records_txt_values() {
    let rrs = vec![txt_record("foo.example.org", vec![b"hello".to_vec()]), txt_record("foo.example.org", vec![b"world".to_vec()])];
    let rs = RecordSet::from_records(&rrs).unwrap();
    assert!(rs == RecordSet::new(name("foo.example.org"), rs_data("TXT:world,hello")));
}

#[test]
fn from_records_txt_several_segments_refused() {
    let rrs = vec![txt_record("foo.example.org", vec![b"a".to_vec(), b"b".to_vec()])];
    assert!(matches!(RecordSet::from_records(&rrs), Err(TryFromRecordsError::UnsupportedTxtValue)));
}

#[test]
fn from_records_txt_not_utf8_refused() {
    let rrs = vec![txt_record("foo.example.org", vec![vec![0xff, 0xfe]])];
    assert!(matches!(RecordSet::from_records(&rrs), Err(TryFromRecordsError::Utf8)));
}

#[test]
fn from_records_skips_data_of_other_kinds() {
    let mut odd = a_record("foo.example.org", [1, 2, 3, 4]);
    odd.data = None;
    let rrs = vec![a_record("foo.example.org", [192, 168, 1, 1]), odd];
    let rs = RecordSet::from_records(&rrs).unwrap();
    assert!(rs == RecordSet::new(name("foo.example.org"), rs_data("A:192.168.1.1")));
}

#[test]
fn rrset_round_trip() {
    for text in ["A:192.168.1.1,10.0.0.1", "AAAA:32.1.13.184.0.0.0.0.0.0.0.0.0.0.0.1,0.0.0.0.0.0.0.0.0.0.0.0.0.0.0.1", "TXT:one,two,three"] {
        let rs = RecordSet::new(name("foo.example.org"), rs_data(text));
        let rrset = rs.to_rrset(3600);
        assert_eq!(rrset.records.len(), rs.data().values.len());
        assert!(rrset.records.iter().all(|r| r.ttl == 3600));
        let back = RecordSet::from_records(&rrset.records).unwrap();
        assert!(back == rs);
    }
}

#[test]
fn rrset_data_is_converted() {
    let rs = RecordSet::new(name("foo.example.org"), rs_data("A:192.168.1.1"));
    let rrset = rs.to_rrset(60);
    assert_eq!(rrset.rr_type, TYPE_A);
    match &rrset.records[0].data {
        Some(RData::A(a)) => assert_eq!(*a, [192, 168, 1, 1]),
        other => panic!("unexpected {:?}", other),
    }
}

#[test]
fn record_set_equality_ignores_order() {
    let a = RecordSet::new(name("foo.example.org"), rs_data("A:1.1.1.1,2.2.2.2"));
    let b = RecordSet::new(name("foo.example.org"), rs_data("A:2.2.2.2,1.1.1.1,2.2.2.2"));
    let c = RecordSet::new(name("foo.example.org"), rs_data("A:2.2.2.2"));
    assert!(a == b);
    assert!(a != c);
    assert_eq!(b.data().values.len(), 2);
}

#[test]
fn subset_and_contains() {
    let small = RecordSet::new(name("foo.example.org"), rs_data("A:1.1.1.1"));
    let big = RecordSet::new(name("foo.example.org"), rs_data("A:1.1.1.1,2.2.2.2"));
    let other_name = RecordSet::new(name("bar.example.org"), rs_data("A:1.1.1.1,2.2.2.2"));
    let txt = RecordSet::new(name("foo.example.org"), rs_data("TXT:x"));
    assert!(small.is_subset(&big));
    assert!(!big.is_subset(&small));
    assert!(!small.is_subset(&other_name));
    assert!(!small.is_subset(&txt));
    assert!(big.contains(&RData::A([2, 2, 2, 2])));
    assert!(!big.contains(&RData::A([3, 3, 3, 3])));
    assert!(!big.contains(&RData::TXT(vec![b"x".to_vec()])));
    assert!(txt.contains(&RData::TXT(vec![b"x".to_vec()])));
    assert!(!txt.contains(&RData::TXT(vec![b"x".to_vec(), b"y".to_vec()])));
}

#[test]
fn empty_sets() {
    let e = RecordSet::new(name("foo.example.org"), rs_data("A"));
    assert!(e.is_empty());
    assert_eq!(e.record_type(), TYPE_A);
    assert!(!RecordSet::new(name("foo.example.org"), rs_data("A:1.2.3.4")).is_empty());
    assert_eq!(RsData::empty(RecordKind::AAAA).record_type(), TYPE_AAAA);
}

#[test]
fn rs_data_values_must_fit() {
    assert_eq!(RsData::from_values(RecordKind::A, vec![vec![1, 2, 3]]).unwrap_err(), RsDataParseError::InvalidValue);
    assert_eq!(RsData::from_values(RecordKind::TXT, vec![vec![0xc0]]).unwrap_err(), RsDataParseError::InvalidValue);
    assert!(RsData::from_values(RecordKind::AAAA, vec![vec![0; 16]]).is_ok());
}

#[test]
fn iter_data_lists_each_value() {
    let rs = RecordSet::new(name("foo.example.org"), rs_data("TXT:a,b"));
    let list = rs.iter_data();
    assert_eq!(list.len(), 2);
    assert!(list.iter().all(|d| rs.contains(d)));
}
