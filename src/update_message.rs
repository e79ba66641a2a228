//! Builders of RFC 2136 update requests, one for each kind of change.
use vstd::prelude::*;

use crate::name::{is_zone_of, Name};
use crate::record::{RRset, WireRecord, CLASS_ANY, CLASS_NONE, TYPE_ANY, TYPE_SOA};

verus! {

/// Relies on `rand::random`, which draws the identifier of each request.
/// Nothing is known of the value drawn.
pub assume_specification<T>[ rand::random::<T> ]() -> (r: T)
    where
        rand::distributions::Standard: rand::distributions::Distribution<T>,
;

/// The zone section of an update request: the zone's name and class, with
/// the type SOA.
#[derive(Debug, Clone)]
pub struct ZoneSection {
    pub name: Name,
    pub query_class: u16,
    pub query_type: u16,
}

/// An update request: a query with the opcode UPDATE, without recursion,
/// that carries a zone, prerequisites and updates.
#[derive(Debug, Clone)]
pub struct UpdateMessage {
    pub id: u16,
    pub zone: ZoneSection,
    pub prerequisites: Vec<WireRecord>,
    pub updates: Vec<WireRecord>,
}

/// The zone section names `zone`, of class `class`, with the type SOA.
pub open spec fn zone_is(m: UpdateMessage, zone: Seq<Seq<u8>>, class: u16) -> bool {
    &&& m.zone.name@ == zone
    &&& m.zone.query_class == class
    &&& m.zone.query_type == TYPE_SOA
}

/// A record without data and with time to live 0, as RFC 2136 writes
/// prerequisites and deletions of whole record sets.
pub open spec fn is_marker(r: WireRecord, name: Seq<Seq<u8>>, class: u16, rtype: u16) -> bool {
    &&& r.name@ == name
    &&& r.dns_class == class
    &&& r.rr_type == rtype
    &&& r.ttl == 0
    &&& r.data is None
}

/// The section `s` is the one record `is_marker` describes.
pub open spec fn is_single_marker(s: Seq<WireRecord>, name: Seq<Seq<u8>>, class: u16, rtype: u16) -> bool {
    s.len() == 1 && is_marker(s[0], name, class, rtype)
}

/// `out` is `inp` with the class and time to live of every record replaced.
pub open spec fn relabelled(out: Seq<WireRecord>, inp: Seq<WireRecord>, class: u16, ttl: u32) -> bool {
    &&& out.len() == inp.len()
    &&& forall|i: int|
        0 <= i < out.len() ==> {
            &&& (#[trigger] out[i]).name == inp[i].name
            &&& out[i].rr_type == inp[i].rr_type
            &&& out[i].data == inp[i].data
            &&& out[i].dns_class == class
            &&& out[i].ttl == ttl
        }
}

/// A record without data and with time to live 0.
fn marker(name: Name, class: u16, rtype: u16) -> (r: WireRecord)
    ensures
        is_marker(r, name@, class, rtype),
        r.name == name,
{
    WireRecord { name, dns_class: class, rr_type: rtype, ttl: 0, data: None }
}

/// An update request for `zone_origin`, of class `class`, with no
/// prerequisites and no updates yet.
fn new_message(zone_origin: Name, class: u16) -> (m: UpdateMessage)
    ensures
        zone_is(m, zone_origin@, class),
        m.prerequisites@.len() == 0,
        m.updates@.len() == 0,
{
    let id: u16 = rand::random();
    UpdateMessage {
        id,
        zone: ZoneSection { name: zone_origin, query_class: class, query_type: TYPE_SOA },
        prerequisites: Vec::new(),
        updates: Vec::new(),
    }
}

/// Adds the record set, which must not exist yet: the prerequisite says
/// that no record of its name and type exists.
pub fn create(rrset: RRset, zone_origin: Name) -> (m: UpdateMessage)
    requires
        is_zone_of(zone_origin@, rrset.name@),
    ensures
        zone_is(m, zone_origin@, rrset.dns_class),
        is_single_marker(m.prerequisites@, rrset.name@, CLASS_NONE, rrset.rr_type),
        m.updates@ == rrset.records@,
{
    let mut m = new_message(zone_origin, rrset.dns_class);
    m.prerequisites.push(marker(rrset.name, CLASS_NONE, rrset.rr_type));
    m.updates = rrset.records;
    m
}

/// Adds the records to the record set; where `must_exist` holds, the
/// prerequisite says that a record of the set's name and type exists.
pub fn append(rrset: RRset, zone_origin: Name, must_exist: bool) -> (m: UpdateMessage)
    requires
        is_zone_of(zone_origin@, rrset.name@),
    ensures
        zone_is(m, zone_origin@, rrset.dns_class),
        must_exist ==> is_single_marker(m.prerequisites@, rrset.name@, CLASS_ANY, rrset.rr_type),
        !must_exist ==> m.prerequisites@.len() == 0,
        m.updates@ == rrset.records@,
{
    let mut m = new_message(zone_origin, rrset.dns_class);
    if must_exist {
        m.prerequisites.push(marker(rrset.name, CLASS_ANY, rrset.rr_type));
    }
    m.updates = rrset.records;
    m
}

/// Deletes exactly the listed values: each record goes with the class NONE
/// and time to live 0.
pub fn delete_by_rdata(rrset: RRset, zone_origin: Name) -> (m: UpdateMessage)
    requires
        is_zone_of(zone_origin@, rrset.name@),
    ensures
        zone_is(m, zone_origin@, rrset.dns_class),
        m.prerequisites@.len() == 0,
        relabelled(m.updates@, rrset.records@, CLASS_NONE, 0),
{
    let mut m = new_message(zone_origin, rrset.dns_class);
    let mut records = rrset.records;
    let ghost inp = records@;
    let mut out: Vec<WireRecord> = Vec::new();
    while records.len() > 0
        invariant
            out@.len() + records@.len() == inp.len(),
            records@ == inp.subrange(out@.len() as int, inp.len() as int),
            relabelled(out@, inp.subrange(0, out@.len() as int), CLASS_NONE, 0),
        decreases records@.len(),
    {
        let r = records.remove(0);
        out.push(WireRecord { name: r.name, dns_class: CLASS_NONE, rr_type: r.rr_type, ttl: 0, data: r.data });
        assert(records@ =~= inp.subrange(out@.len() as int, inp.len() as int));
    }
    assert(inp.subrange(0, out@.len() as int) =~= inp);
    m.updates = out;
    m
}

/// Deletes the whole record set of the record's name and type, whatever
/// values it holds.
pub fn delete_rrset(record: WireRecord, zone_origin: Name) -> (m: UpdateMessage)
    requires
        is_zone_of(zone_origin@, record.name@),
    ensures
        zone_is(m, zone_origin@, record.dns_class),
        m.prerequisites@.len() == 0,
        is_single_marker(m.updates@, record.name@, CLASS_ANY, record.rr_type),
{
    let mut m = new_message(zone_origin, record.dns_class);
    m.updates.push(marker(record.name, CLASS_ANY, record.rr_type));
    m
}

/// Deletes every record of `name_of_records`, whatever its type.
pub fn delete_all(name_of_records: Name, zone_origin: Name, dns_class: u16) -> (m: UpdateMessage)
    requires
        is_zone_of(zone_origin@, name_of_records@),
    ensures
        zone_is(m, zone_origin@, dns_class),
        m.prerequisites@.len() == 0,
        is_single_marker(m.updates@, name_of_records@, CLASS_ANY, TYPE_ANY),
{
    let mut m = new_message(zone_origin, dns_class);
    m.updates.push(marker(name_of_records, CLASS_ANY, TYPE_ANY));
    m
}

} // verus!
