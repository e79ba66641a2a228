use tdns_cli::name::Name;
use tdns_cli::options::{monitor_expectation, parse_key_spec, select_operation, KeyError, KeySpec, OptionsError};
use tdns_cli::query::{get_display_format, DisplayFormat, ParseDisplayFormatError, Query};
use tdns_cli::record::{RecordKind, RsData, RsDataParseError, TYPE_A, TYPE_AAAA, TYPE_ANY, TYPE_TXT};

const TYPE_MX: u16 = 15;
use tdns_cli::text::{parse_rs_data_text, split_bytes};
use tdns_cli::update::{Expectation, Operation, Update};
use tdns_cli::util::{parse_comma_separated, ParseSocketNameError, SocketName, TargetPlan, IpAddress, SocketAddress};

fn name(s: &str) -> Name {
    Name::parse(s).unwrap()
}

#[test]
fn names_compare_ignoring_case() {
    assert!(name("Foo.Example.ORG") == name("foo.example.org"));
    assert!(name("foo.example.org") != name("foo.example.net"));
    assert!(name("example.org").zone_of(&name("foo.example.org")));
    assert!(name("example.org").zone_of(&name("example.org")));
    assert!(!name("foo.example.org").zone_of(&name("example.org")));
    assert!(name("foo.example.org").base_name() == name("example.org"));
    assert_eq!(name("foo.example.org").num_labels(), 3);
    assert!(Name::parse("a..b").is_err());
}

#[test]
fn rs_data_text_forms() {
    let (k, v) = parse_rs_data_text("A:192.168.1.1,10.0.0.1").unwrap();
    assert_eq!(k, RecordKind::A);
    assert_eq!(v, vec![b"192.168.1.1".to_vec(), b"10.0.0.1".to_vec()]);
    let (k, v) = parse_rs_data_text("aaaa:2001:db8::1").unwrap();
    assert_eq!(k, RecordKind::AAAA);
    assert_eq!(v, vec![b"2001:db8::1".to_vec()]);
    let (k, v) = parse_rs_data_text("txt").unwrap();
    assert_eq!(k, RecordKind::TXT);
    assert!(v.is_empty());
    assert_eq!(parse_rs_data_text("MX:10 mail").unwrap_err(), RsDataParseError::UnknownType);
    assert_eq!(parse_rs_data_text("bogus").unwrap_err(), RsDataParseError::UnknownType);
    let (k, v) = parse_rs_data_text("TXT:").unwrap();
    assert_eq!(k, RecordKind::TXT);
    assert_eq!(v, vec![Vec::<u8>::new()]);
    assert!(RsData::from_values(k, v).is_ok());
}

#[test]
fn splitting() {
    assert_eq!(split_bytes(b"a,,b", b','), vec![b"a".to_vec(), Vec::new(), b"b".to_vec()]);
    assert_eq!(split_bytes(b"", b','), vec![Vec::<u8>::new()]);
}

#[test]
fn record_type_lists() {
    assert_eq!(parse_comma_separated("a,AAAA,txt").unwrap(), vec![TYPE_A, TYPE_AAAA, TYPE_TXT]);
    assert_eq!(parse_comma_separated("mx").unwrap(), vec![TYPE_MX]);
    assert!(parse_comma_separated("a,nonsense").is_err());
}

#[test]
fn display_formats() {
    assert_eq!(DisplayFormat::parse("short"), Ok(DisplayFormat::Short));
    assert_eq!(DisplayFormat::parse("zone"), Ok(DisplayFormat::Zone));
    assert_eq!(DisplayFormat::parse("long"), Err(ParseDisplayFormatError::UnknownFormat));
    assert_eq!(get_display_format(None, &[TYPE_TXT]), DisplayFormat::Short);
    assert_eq!(get_display_format(None, &[TYPE_ANY]), DisplayFormat::Zone);
    assert_eq!(get_display_format(None, &[TYPE_A, TYPE_AAAA]), DisplayFormat::Short);
    assert_eq!(get_display_format(None, &[TYPE_A, TYPE_TXT]), DisplayFormat::Zone);
    assert_eq!(get_display_format(Some(DisplayFormat::Zone), &[TYPE_A]), DisplayFormat::Zone);
    let q = Query::new(name("example.org"), None, None);
    assert_eq!(q.record_types, vec![TYPE_A]);
    assert_eq!(q.display_format, DisplayFormat::Short);
}

#[test]
fn operation_selection() {
    let entry = name("foo.example.org");
    let d = RsData::from_values(RecordKind::A, vec![vec![1, 2, 3, 4]]).unwrap();
    assert!(matches!(select_operation(false, false, false, &entry, None), Ok(None)));
    assert!(matches!(select_operation(true, true, false, &entry, None), Err(OptionsError::ConflictingOperations)));
    assert!(matches!(select_operation(true, false, false, &entry, None), Err(OptionsError::MissingRsData)));
    assert!(matches!(select_operation(true, false, false, &entry, Some(d.clone())), Ok(Some(Operation::Create(_)))));
    assert!(matches!(select_operation(false, false, true, &entry, Some(d.clone())), Ok(Some(Operation::Append(_, false)))));
    assert!(matches!(select_operation(false, true, false, &entry, None), Ok(Some(Operation::DeleteAll(_)))));
    assert!(matches!(select_operation(false, true, false, &entry, Some(d.clone())), Ok(Some(Operation::Delete(_)))));
    assert!(matches!(monitor_expectation(None, &entry, Some(d)), Ok(Expectation::Is(_))));
    assert!(matches!(monitor_expectation(None, &entry, None), Err(OptionsError::MissingRsData)));
}

#[test]
fn key_specs() {
    match parse_key_spec("key.example.org:hmac-sha256.:aGVsbG8=").unwrap() {
        KeySpec::Full(k) => {
            assert!(k.name == name("key.example.org"));
            assert!(k.algorithm == name("hmac-sha256"));
            assert_eq!(k.secret, b"hello".to_vec());
        }
        other => panic!("unexpected {:?}", other),
    }
    assert!(matches!(parse_key_spec("key.example.org").unwrap(), KeySpec::Named(_)));
    assert_eq!(parse_key_spec("a:b").unwrap_err(), KeyError::Parts(2));
    assert_eq!(parse_key_spec("a:b:!!!").unwrap_err(), KeyError::Secret);
    assert_eq!(parse_key_spec("a..b:alg:aGVsbG8=").unwrap_err(), KeyError::Name);
    assert_eq!(parse_key_spec("key:a..b:aGVsbG8=").unwrap_err(), KeyError::Algorithm);
    assert_eq!(parse_key_spec("a..b").unwrap_err(), KeyError::Name);
}

#[test]
fn socket_names() {
    match SocketName::parse_host("ns1.example.org:5353").unwrap() {
        SocketName::HostName(n, port) => {
            assert!(n == name("ns1.example.org"));
            assert_eq!(port, Some(5353));
        }
        other => panic!("unexpected {:?}", other),
    }
    assert!(matches!(SocketName::parse_host("ns1.example.org").unwrap(), SocketName::HostName(_, None)));
    assert_eq!(SocketName::parse_host("ns1:70000").unwrap_err(), ParseSocketNameError::Port);
    assert_eq!(SocketName::parse_host("ns1:x").unwrap_err(), ParseSocketNameError::Port);
    assert_eq!(SocketName::parse_host("a:b:c").unwrap_err(), ParseSocketNameError::Invalid);
    assert_eq!(SocketName::parse_host("a..b:53").unwrap_err(), ParseSocketNameError::Name);
    assert!(matches!(SocketName::parse_host("ns:0").unwrap(), SocketName::HostName(_, Some(0))));
    assert!(matches!(SocketName::parse_host("ns:65535").unwrap(), SocketName::HostName(_, Some(65535))));
    assert_eq!(SocketName::parse_host("ns:").unwrap_err(), ParseSocketNameError::Port);
}

#[test]
fn update_targets() {
    let base = Update {
        zone: name("example.org"),
        server: None,
        operation: Operation::DeleteAll(name("foo.example.org")),
        tsig_key: None,
        ttl: 1,
    };
    assert!(matches!(base.target(), TargetPlan::LookupSoa(_)));
    let mut u = base.clone();
    u.server = Some(SocketName::IpAddr(IpAddress::V4([10, 0, 0, 1])));
    match u.target() {
        TargetPlan::Direct(a) => assert_eq!(a.port, 53),
        other => panic!("unexpected {:?}", other),
    }
    u.server = Some(SocketName::HostName(name("ns.example.org"), Some(5300)));
    assert!(matches!(u.target(), TargetPlan::ResolveHost(_, 5300)));
    assert!(Update::primary_target(None).is_err());
    assert!(matches!(Update::primary_target(Some(&name("ns.example.org"))), Ok(TargetPlan::ResolveHost(_, 53))));
    let r = SocketName::resolve_with(Some(IpAddress::V4([1, 2, 3, 4])), 53).unwrap();
    assert!(matches!(r, SocketAddress { ip: IpAddress::V4([1, 2, 3, 4]), port: 53 }));
    assert!(SocketName::resolve_with(None, 53).is_err());
}
