use std::cell::RefCell;
use std::rc::Rc;

use tdns_cli::monitor::{Monitor, MonitorStatus, ServerAction, ServerEvent, ServerState};
use tdns_cli::name::Name;
use tdns_cli::record::{RData, RecordKind, RecordSet, RsData, WireRecord, CLASS_IN, CLASS_NONE, TYPE_A, TYPE_ANY};
use tdns_cli::update::{Expectation, Operation, Update};
use tdns_cli::util::IpAddress;

const TIMEOUT_US: u64 = 10_000;

type Store = Rc<RefCell<Vec<WireRecord>>>;

fn name(s: &str) -> Name {
    Name::parse(s).unwrap()
}

fn store(entries: &[[u8; 4]]) -> Store {
    Rc::new(RefCell::new(
        entries
            .iter()
            .map(|ip| WireRecord {
                name: name("foo.example.org"),
                dns_class: CLASS_IN,
                rr_type: TYPE_A,
                ttl: 300,
                data: Some(RData::A(*ip)),
            })
            .collect(),
    ))
}

fn a_set(ips: &[[u8; 4]]) -> RecordSet {
    let d = RsData::from_values(RecordKind::A, ips.iter().map(|ip| ip.to_vec()).collect()).unwrap();
    RecordSet::new(name("foo.example.org"), d)
}

fn monitor_settings(ips: &[[u8; 4]], exclude: Vec<IpAddress>) -> Monitor {
    let rset = a_set(ips);
    Monitor {
        zone: name("example.org"),
        entry: name("foo.example.org"),
        expectation: if rset.is_empty() { Expectation::Empty(rset.record_type()) } else { Expectation::Is(rset) },
        exclude,
        interval_us: TIMEOUT_US / 100,
        timeout_us: TIMEOUT_US,
        verbose: false,
    }
}

/// The answer a server backed by `store` gives to a query.
fn answer(store: &Store, entry: &Name, rtype: u16) -> Vec<WireRecord> {
    store
        .borrow()
        .iter()
        .filter(|r| r.name == *entry && (rtype == TYPE_ANY || r.rr_type == rtype))
        .cloned()
        .collect()
}

/// Applies the updates of a request to a server's store, as a test double.
fn apply(store: &Store, update: &Update) {
    let m = update.get_update();
    let mut records = store.borrow_mut();
    for u in &m.updates {
        if u.dns_class == CLASS_NONE {
            records.retain(|r| !(r.name == u.name && r.rr_type == u.rr_type));
        } else if let Some(r) = records.iter_mut().find(|r| r.name == u.name && r.rr_type == u.rr_type) {
            r.data = u.data.clone();
        } else {
            records.push(u.clone());
        }
    }
}

/// Runs the monitor over servers on a simulated clock; `later` changes a
/// store once the clock reaches its time.
fn run(monitor: &Monitor, servers: &[(IpAddress, Store)], mut later: Vec<(u64, Box<dyn FnMut()>)>) -> (MonitorStatus, u64) {
    let (entry, rtype) = monitor.query();
    let entry = entry.clone();
    let mut states: Vec<ServerState> = vec![ServerState::Resolving; servers.len()];
    let mut due: Vec<Option<u64>> = vec![None; servers.len()];
    let mut now: u64 = 0;
    for (i, (ip, _)) in servers.iter().enumerate() {
        let (s, action) = monitor.step(&states[i], &ServerEvent::Resolved(Some(*ip)));
        states[i] = s;
        if let ServerAction::Query(_) = action {
            due[i] = Some(0);
        }
    }
    loop {
        for (at, change) in later.iter_mut() {
            if *at <= now {
                change();
                *at = u64::MAX;
            }
        }
        for i in 0..servers.len() {
            if due[i] == Some(now) {
                let event = ServerEvent::Answered(answer(&servers[i].1, &entry, rtype));
                let (s, action) = monitor.step(&states[i], &event);
                states[i] = s;
                due[i] = match action {
                    ServerAction::QueryAfter(_, wait) => Some(now + wait),
                    ServerAction::Query(_) => Some(now),
                    _ => None,
                };
            }
        }
        let status = monitor.status(&states, now);
        if status != MonitorStatus::Pending {
            return (status, now);
        }
        let next_change = later.iter().map(|(at, _)| *at).filter(|at| *at != u64::MAX).min();
        let next_poll = due.iter().filter_map(|d| *d).min();
        now = match (next_poll, next_change) {
            (Some(a), Some(b)) => a.min(b),
            (Some(a), None) => a,
            (None, Some(b)) => b,
            (None, None) => TIMEOUT_US,
        };
    }
}

const AUTH1: IpAddress = IpAddress::V4([199, 43, 135, 53]);
const AUTH2: IpAddress = IpAddress::V4([199, 43, 133, 53]);

fn update_settings(operation: Operation) -> Update {
    Update { zone: name("example.org"), server: None, operation, tsig_key: None, ttl: 300 }
}

#[test]
fn test_smoke_match() {
    let servers = vec![(AUTH1, store(&[[192, 168, 1, 1]])), (AUTH2, store(&[[192, 168, 1, 1]]))];
    let (status, _) = run(&monitor_settings(&[[192, 168, 1, 1]], vec![]), &servers, vec![]);
    assert_eq!(status, MonitorStatus::Converged);
}

#[test]
fn test_smoke_mismatch() {
    let servers = vec![(AUTH1, store(&[[192, 168, 1, 1]])), (AUTH2, store(&[[192, 168, 1, 2]]))];
    let (status, _) = run(&monitor_settings(&[[192, 168, 1, 1]], vec![]), &servers, vec![]);
    assert_eq!(status, MonitorStatus::TimedOut);
}

#[test]
fn test_monitor_match() {
    let shared = store(&[[192, 168, 1, 1]]);
    let servers = vec![(AUTH1, shared.clone()), (AUTH2, shared)];
    let (status, at) = run(&monitor_settings(&[[192, 168, 1, 1]], vec![]), &servers, vec![]);
    assert_eq!(status, MonitorStatus::Converged);
    assert!(at < TIMEOUT_US);
}

#[test]
fn test_monitor_mismatch() {
    let servers = vec![(AUTH1, store(&[[192, 168, 1, 1]])), (AUTH2, store(&[[192, 168, 1, 2]]))];
    let (status, at) = run(&monitor_settings(&[[192, 168, 1, 1]], vec![]), &servers, vec![]);
    assert_eq!(status, MonitorStatus::TimedOut);
    assert_eq!(at, TIMEOUT_US);
}

#[test]
fn test_create_immediate() {
    let shared = store(&[[192, 168, 1, 1]]);
    apply(&shared, &update_settings(Operation::Create(a_set(&[[192, 168, 1, 2]]))));
    let servers = vec![(AUTH1, shared.clone()), (AUTH2, shared)];
    let (status, at) = run(&monitor_settings(&[[192, 168, 1, 2]], vec![]), &servers, vec![]);
    assert_eq!(status, MonitorStatus::Converged);
    assert_eq!(at, 0);
}

#[test]
fn test_create_delayed() {
    let master = store(&[[192, 168, 1, 1]]);
    let secondary = store(&[[192, 168, 1, 1]]);
    let update = update_settings(Operation::create(name("foo.example.org"), a_set(&[[192, 168, 1, 2]]).data().clone()));
    apply(&master, &update);
    let servers = vec![(AUTH1, secondary.clone()), (AUTH2, secondary.clone())];
    let target = secondary.clone();
    let change: Box<dyn FnMut()> = Box::new(move || apply(&target, &update));
    let (status, at) = run(&monitor_settings(&[[192, 168, 1, 2]], vec![]), &servers, vec![(TIMEOUT_US / 2, change)]);
    assert_eq!(status, MonitorStatus::Converged);
    assert!(at >= TIMEOUT_US / 2 && at < TIMEOUT_US);
}

#[test]
fn test_delete() {
    let shared = store(&[[192, 168, 1, 1]]);
    apply(&shared, &update_settings(Operation::delete(name("foo.example.org"), a_set(&[[192, 168, 1, 1]]).data().clone())));
    let servers = vec![(AUTH1, shared.clone()), (AUTH2, shared)];
    let (status, _) = run(&monitor_settings(&[], vec![]), &servers, vec![]);
    assert_eq!(status, MonitorStatus::Converged);
}

#[test]
fn excluded_server_never_blocks() {
    let servers = vec![(AUTH1, store(&[[192, 168, 1, 1]])), (AUTH2, store(&[[10, 9, 9, 9]]))];
    let (status, _) = run(&monitor_settings(&[[192, 168, 1, 1]], vec![AUTH2]), &servers, vec![]);
    assert_eq!(status, MonitorStatus::Converged);
    let m = monitor_settings(&[[192, 168, 1, 1]], vec![AUTH2]);
    let (s, action) = m.step(&ServerState::Resolving, &ServerEvent::Resolved(Some(AUTH2)));
    assert!(matches!(s, ServerState::Excluded));
    assert!(matches!(action, ServerAction::Finish));
}

#[test]
fn unresolvable_server_fails_monitor() {
    let m = monitor_settings(&[[192, 168, 1, 1]], vec![]);
    let (s, action) = m.step(&ServerState::Resolving, &ServerEvent::Resolved(None));
    assert!(matches!(s, ServerState::Failed));
    assert!(matches!(action, ServerAction::Fail));
    assert_eq!(m.status(&vec![ServerState::Converged, s], 0), MonitorStatus::Failed);
}

#[test]
fn failed_query_waits_for_interval() {
    let m = monitor_settings(&[[192, 168, 1, 1]], vec![]);
    let (s, action) = m.step(&ServerState::Resolving, &ServerEvent::Resolved(Some(AUTH1)));
    assert!(matches!(action, ServerAction::Query(a) if a.port == 53));
    let (s2, action) = m.step(&s, &ServerEvent::QueryFailed);
    assert!(matches!(s2, ServerState::Polling(_)));
    assert!(matches!(action, ServerAction::QueryAfter(_, 100)));
    let (_, action) = m.step(&ServerState::Converged, &ServerEvent::QueryFailed);
    assert!(matches!(action, ServerAction::Ignore));
}

#[test]
fn no_servers_converge_at_once() {
    let m = monitor_settings(&[[192, 168, 1, 1]], vec![]);
    assert_eq!(m.status(&vec![], 0), MonitorStatus::Converged);
    assert_eq!(m.status(&vec![ServerState::Resolving], 5), MonitorStatus::Pending);
    assert_eq!(m.status(&vec![ServerState::Resolving], TIMEOUT_US), MonitorStatus::TimedOut);
}
