//! Addresses, socket names and small parsing helpers.
use vstd::prelude::*;

use vstd::string::StringSliceAdditionalSpecFns;

use crate::name::{labels_of_text, Name};
use crate::text::{is_split, split_bytes};

pub use crate::text::parse_comma_separated;

verus! {

/// An IP address, held as its octets.
#[derive(Debug, Clone, Copy)]
pub enum IpAddress {
    V4([u8; 4]),
    V6([u8; 16]),
}

impl View for IpAddress {
    /// Whether the address is an IPv6 one, and its octets.
    type V = (bool, Seq<u8>);

    open spec fn view(&self) -> (bool, Seq<u8>) {
        match self {
            IpAddress::V4(a) => (false, a@),
            IpAddress::V6(a) => (true, a@),
        }
    }
}

impl IpAddress {
    /// Whether both are the same address.
    pub fn same(&self, other: &IpAddress) -> (r: bool)
        ensures
            r == (self@ == other@),
    {
        match (*self, *other) {
            (IpAddress::V4(a), IpAddress::V4(b)) => {
                let mut i: usize = 0;
                while i < 4
                    invariant
                        i <= 4,
                        *self == IpAddress::V4(a),
                        *other == IpAddress::V4(b),
                        forall|j: int| 0 <= j < i ==> a@[j] == b@[j],
                    decreases 4 - i,
                {
                    if a[i] != b[i] {
                        assert(a@[i as int] != b@[i as int]);
                        return false;
                    }
                    i = i + 1;
                }
                assert(a@ =~= b@);
                true
            },
            (IpAddress::V6(a), IpAddress::V6(b)) => {
                let mut i: usize = 0;
                while i < 16
                    invariant
                        i <= 16,
                        *self == IpAddress::V6(a),
                        *other == IpAddress::V6(b),
                        forall|j: int| 0 <= j < i ==> a@[j] == b@[j],
                    decreases 16 - i,
                {
                    if a[i] != b[i] {
                        assert(a@[i as int] != b@[i as int]);
                        return false;
                    }
                    i = i + 1;
                }
                assert(a@ =~= b@);
                true
            },
            _ => false,
        }
    }
}

/// Whether the list holds the address.
pub open spec fn holds_address(list: Seq<IpAddress>, ip: IpAddress) -> bool {
    exists|i: int| 0 <= i < list.len() && (#[trigger] list[i])@ == ip@
}

/// Whether the list `list` holds the address `ip`.
pub fn contains_address(list: &Vec<IpAddress>, ip: &IpAddress) -> (r: bool)
    ensures
        r == holds_address(list@, *ip),
{
    let mut i: usize = 0;
    while i < list.len()
        invariant
            i <= list@.len(),
            forall|j: int| 0 <= j < i ==> (#[trigger] list@[j])@ != ip@,
        decreases list@.len() - i,
    {
        if list[i].same(ip) {
            return true;
        }
        i = i + 1;
    }
    false
}

/// An IP address with a port.
#[derive(Debug, Clone, Copy)]
pub struct SocketAddress {
    pub ip: IpAddress,
    pub port: u16,
}

/// A host that may still need resolving: a host name with an optional port,
/// a socket address, or an IP address.
#[derive(Debug, Clone)]
pub enum SocketName {
    HostName(Name, Option<u16>),
    SocketAddr(SocketAddress),
    IpAddr(IpAddress),
}

/// How to reach a server: at a known address, by looking up the first
/// address of a host name and using the port given, or by looking up the
/// primary server of a zone.
#[derive(Debug, Clone)]
pub enum TargetPlan {
    Direct(SocketAddress),
    ResolveHost(Name, u16),
    LookupSoa(Name),
}

/// A host name had no address.
#[derive(Debug, Clone, Copy, PartialEq, Eq, Structural)]
pub enum ResolveError {
    NoRecordsFound,
}

impl SocketName {
    /// How to reach the named host: a host name is looked up, its own port
    /// or else `default_port` used; an IP address gets `default_port`; a
    /// socket address is used as it is.
    pub fn plan(&self, default_port: u16) -> (r: TargetPlan)
        ensures
            match *self {
                SocketName::HostName(n, port) => r matches TargetPlan::ResolveHost(n2, p) && n2@ == n@ && p == (
                match port {
                    Some(q) => q,
                    None => default_port,
                }),
                SocketName::SocketAddr(a) => r == TargetPlan::Direct(a),
                SocketName::IpAddr(ip) => r == TargetPlan::Direct(SocketAddress { ip, port: default_port }),
            },
    {
        match self {
            SocketName::HostName(n, port) => {
                let p = match port {
                    Some(q) => *q,
                    None => default_port,
                };
                TargetPlan::ResolveHost(n.duplicate(), p)
            },
            SocketName::SocketAddr(a) => TargetPlan::Direct(*a),
            SocketName::IpAddr(ip) => TargetPlan::Direct(SocketAddress { ip: *ip, port: default_port }),
        }
    }

    /// The socket address of a looked-up host: its first address, if the
    /// lookup found any, with the port given.
    pub fn resolve_with(first: Option<IpAddress>, port: u16) -> (r: Result<SocketAddress, ResolveError>)
        ensures
            match first {
                Some(ip) => r == Ok::<SocketAddress, ResolveError>(SocketAddress { ip, port }),
                None => r == Err::<SocketAddress, ResolveError>(ResolveError::NoRecordsFound),
            },
    {
        match first {
            Some(ip) => Ok(SocketAddress { ip, port }),
            None => Err(ResolveError::NoRecordsFound),
        }
    }
}

/// Whether every byte is an ASCII digit.
pub open spec fn all_digits(b: Seq<u8>) -> bool {
    forall|i: int| 0 <= i < b.len() ==> 48 <= #[trigger] b[i] && b[i] <= 57
}

/// The number the ASCII digits denote.
pub open spec fn decimal_value(b: Seq<u8>) -> int
    decreases b.len(),
{
    if b.len() == 0 {
        0
    } else {
        decimal_value(b.drop_last()) * 10 + (b.last() - 48)
    }
}

/// The port number a text of digits denotes, if it is one.
pub fn parse_port(b: &[u8]) -> (r: Option<u16>)
    ensures
        r matches Some(p) <==> (b@.len() > 0 && all_digits(b@) && decimal_value(b@) <= 65535),
        r matches Some(p) ==> p == decimal_value(b@),
{
    if b.len() == 0 {
        return None;
    }
    let mut v: u32 = 0;
    let mut i: usize = 0;
    while i < b.len()
        invariant
            i <= b@.len(),
            all_digits(b@.subrange(0, i as int)),
            v == decimal_value(b@.subrange(0, i as int)),
            v <= 65535,
        decreases b@.len() - i,
    {
        let c = b[i];
        assert(b@.subrange(0, i + 1).drop_last() =~= b@.subrange(0, i as int));
        if c < 48 || c > 57 {
            assert(!all_digits(b@)) by {
                assert(!(48 <= b@[i as int] && b@[i as int] <= 57));
            }
            return None;
        }
        let nv: u32 = v * 10 + (c - 48) as u32;
        if nv > 65535 {
            proof {
                lemma_decimal_prefix_grows(b@, i + 1);
            }
            return None;
        }
        v = nv;
        i = i + 1;
    }
    assert(b@.subrange(0, b@.len() as int) =~= b@);
    Some(v as u16)
}

/// The number denoted by a prefix of digits is at most that of the whole.
proof fn lemma_decimal_prefix_grows(b: Seq<u8>, n: int)
    requires
        0 <= n <= b.len(),
        all_digits(b.subrange(0, n)) || all_digits(b),
    ensures
        all_digits(b) ==> decimal_value(b.subrange(0, n)) <= decimal_value(b),
    decreases b.len() - n,
{
    if all_digits(b) && n < b.len() {
        lemma_decimal_prefix_grows(b, n + 1);
        assert(b.subrange(0, n + 1).drop_last() =~= b.subrange(0, n));
        assert(48 <= b[n] && b[n] <= 57);
        assert(decimal_value(b.subrange(0, n + 1)) == decimal_value(b.subrange(0, n)) * 10 + (b[n] - 48));
        assert(decimal_value(b.subrange(0, n)) >= 0) by {
            lemma_decimal_nonneg(b.subrange(0, n));
        }
    }
    if n == b.len() {
        assert(b.subrange(0, n) =~= b);
    }
}

/// Digits denote a number no less than zero.
proof fn lemma_decimal_nonneg(b: Seq<u8>)
    requires
        all_digits(b),
    ensures
        decimal_value(b) >= 0,
    decreases b.len(),
{
    if b.len() > 0 {
        assert(all_digits(b.drop_last()));
        lemma_decimal_nonneg(b.drop_last());
    }
}

/// A socket name text was neither a host name nor a host name with a port.
#[derive(Debug, Clone, Copy, PartialEq, Eq, Structural)]
pub enum ParseSocketNameError {
    /// More than one colon.
    Invalid,
    /// The host is no valid domain name.
    Name,
    /// The port is no number from 0 to 65535.
    Port,
}

impl SocketName {
    /// Parses `HOST` or `HOST:PORT`, for a text that is neither an IP address
    /// nor a socket address.
    pub fn parse_host(s: &str) -> (r: Result<SocketName, ParseSocketNameError>)
        ensures
            exists|parts: Seq<Seq<u8>>|
                #![trigger is_split(parts, s.spec_bytes(), 58u8)]
                is_split(parts, s.spec_bytes(), 58u8) && (if parts.len() == 1 {
                    match labels_of_text(parts[0]) {
                        Some(l) => r matches Ok(SocketName::HostName(n, None)) && n.raw_labels() == l,
                        None => r == Err::<SocketName, ParseSocketNameError>(ParseSocketNameError::Name),
                    }
                } else if parts.len() == 2 {
                    match labels_of_text(parts[0]) {
                        Some(l) => if parts[1].len() > 0 && all_digits(parts[1]) && decimal_value(parts[1]) <= 65535 {
                            r matches Ok(SocketName::HostName(n, Some(p))) && n.raw_labels() == l && p
                                == decimal_value(parts[1])
                        } else {
                            r == Err::<SocketName, ParseSocketNameError>(ParseSocketNameError::Port)
                        },
                        None => r == Err::<SocketName, ParseSocketNameError>(ParseSocketNameError::Name),
                    }
                } else {
                    r == Err::<SocketName, ParseSocketNameError>(ParseSocketNameError::Invalid)
                }),
    {
        let parts = split_bytes(s.as_bytes(), 58);
        let ghost pv = parts@.map_values(|p: Vec<u8>| p@);
        if parts.len() > 2 {
            return Err(ParseSocketNameError::Invalid);
        }
        assert(pv[0] == parts@[0]@);
        let name = match Name::parse_bytes(parts[0].as_slice()) {
            Ok(n) => n,
            Err(_) => {
                return Err(ParseSocketNameError::Name);
            },
        };
        if parts.len() == 1 {
            return Ok(SocketName::HostName(name, None));
        }
        assert(pv[1] == parts@[1]@);
        match parse_port(parts[1].as_slice()) {
            Some(p) => Ok(SocketName::HostName(name, Some(p))),
            None => Err(ParseSocketNameError::Port),
        }
    }
}

} // verus!
