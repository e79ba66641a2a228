//! Update intents, what a change should look like once it has propagated,
//! and the request that carries out an intent.
use vstd::prelude::*;

use crate::name::{is_zone_of, Name};
use crate::record::{
    holds_set, kind_code, lemma_records_form_set, records_ok, records_view, subset_view, none_held, RecordKind,
    RecordSet, WireRecord, CLASS_ANY, CLASS_IN, CLASS_NONE, TYPE_ANY,
};
use crate::update_message::{
    append, create, delete_all, delete_by_rdata, delete_rrset, is_single_marker, zone_is,
    UpdateMessage,
};
use crate::monitor::DNS_PORT;
use crate::util::{SocketName, TargetPlan};

verus! {

/// A shared-secret key to sign update requests with (TSIG): the key's name,
/// the name of its algorithm, and the secret.
#[derive(Debug, Clone)]
pub struct TsigKey {
    pub name: Name,
    pub algorithm: Name,
    pub secret: Vec<u8>,
}

/// A change to a zone.
#[derive(Debug, Clone)]
pub enum Operation {
    /// Add a record set that must not exist yet.
    Create(RecordSet),
    /// Add records to a record set; where the flag holds, the set must exist.
    Append(RecordSet, bool),
    /// Remove the listed values; with no values listed, the whole set.
    Delete(RecordSet),
    /// Remove every record of a name.
    DeleteAll(Name),
}

/// The name an operation changes.
pub open spec fn operation_name(op: Operation) -> Seq<Seq<u8>> {
    match op {
        Operation::Create(rs) => rs.name@,
        Operation::Append(rs, _) => rs.name@,
        Operation::Delete(rs) => rs.name@,
        Operation::DeleteAll(n) => n@,
    }
}

/// The record sets of an operation are well formed.
pub open spec fn operation_wf(op: Operation) -> bool {
    match op {
        Operation::Create(rs) => rs.wf(),
        Operation::Append(rs, _) => rs.wf(),
        Operation::Delete(rs) => rs.wf(),
        Operation::DeleteAll(_) => true,
    }
}

impl Operation {
    /// Creation of the record set of `name` with the values `data`.
    pub fn create(name: Name, data: crate::record::RsData) -> (r: Operation)
        ensures
            r matches Operation::Create(rs) && rs@.name == name@ && rs@.kind == data.kind
                && rs@.values == data.value_set() && rs.dns_class == CLASS_IN && rs.wf() == data.wf(),
    {
        Operation::Create(RecordSet::new(name, data))
    }

    /// Deletion of the values `data` from the record set of `name`.
    pub fn delete(name: Name, data: crate::record::RsData) -> (r: Operation)
        ensures
            r matches Operation::Delete(rs) && rs@.name == name@ && rs@.kind == data.kind
                && rs@.values == data.value_set() && rs.dns_class == CLASS_IN && rs.wf() == data.wf(),
    {
        Operation::Delete(RecordSet::new(name, data))
    }
}

/// An update: the zone, an optional server to send it to (else the zone's
/// primary server), the change, an optional key, and the time to live of
/// added records.
#[derive(Debug, Clone)]
pub struct Update {
    pub zone: Name,
    pub server: Option<SocketName>,
    pub operation: Operation,
    pub tsig_key: Option<TsigKey>,
    pub ttl: u32,
}

impl Update {
    /// The zone holds the changed name and the record sets are well formed.
    pub open spec fn wf(&self) -> bool {
        &&& is_zone_of(self.zone@, operation_name(self.operation))
        &&& operation_wf(self.operation)
    }

    /// Whether the zone holds the name that the operation changes.
    pub fn zone_holds_target(&self) -> (r: bool)
        ensures
            r == is_zone_of(self.zone@, operation_name(self.operation)),
    {
        match &self.operation {
            Operation::Create(rs) => self.zone.zone_of(&rs.name),
            Operation::Append(rs, _) => self.zone.zone_of(&rs.name),
            Operation::Delete(rs) => self.zone.zone_of(&rs.name),
            Operation::DeleteAll(n) => self.zone.zone_of(n),
        }
    }

    /// The update request for the operation. Signing it with the key, where
    /// there is one, is left to the transport.
    pub fn get_update(&self) -> (m: UpdateMessage)
        requires
            self.wf(),
        ensures
            match self.operation {
                Operation::Create(rs) => {
                    &&& zone_is(m, self.zone@, CLASS_IN)
                    &&& is_single_marker(m.prerequisites@, rs.name@, CLASS_NONE, kind_code(rs@.kind))
                    &&& holds_set(m.updates@, rs, CLASS_IN, self.ttl)
                },
                Operation::Append(rs, must_exist) => {
                    &&& zone_is(m, self.zone@, CLASS_IN)
                    &&& must_exist ==> is_single_marker(m.prerequisites@, rs.name@, CLASS_ANY, kind_code(rs@.kind))
                    &&& !must_exist ==> m.prerequisites@.len() == 0
                    &&& holds_set(m.updates@, rs, CLASS_IN, self.ttl)
                },
                Operation::Delete(rs) => {
                    &&& zone_is(m, self.zone@, CLASS_IN)
                    &&& m.prerequisites@.len() == 0
                    &&& rs@.values == Set::<Seq<u8>>::empty() ==> is_single_marker(m.updates@, rs.name@, CLASS_ANY, kind_code(rs@.kind))
                    &&& rs@.values != Set::<Seq<u8>>::empty() ==> holds_set(m.updates@, rs, CLASS_NONE, 0)
                },
                Operation::DeleteAll(n) => {
                    &&& zone_is(m, self.zone@, CLASS_IN)
                    &&& m.prerequisites@.len() == 0
                    &&& is_single_marker(m.updates@, n@, CLASS_ANY, TYPE_ANY)
                },
            },
    {
        let ttl = self.ttl;
        match &self.operation {
            Operation::Create(rs) => create(rs.to_rrset(ttl), self.zone.duplicate()),
            Operation::Append(rs, must_exist) => append(rs.to_rrset(ttl), self.zone.duplicate(), *must_exist),
            Operation::Delete(rs) => {
                if rs.is_empty() {
                    let record = WireRecord {
                        name: rs.name.duplicate(),
                        dns_class: CLASS_IN,
                        rr_type: rs.record_type(),
                        ttl,
                        data: None,
                    };
                    delete_rrset(record, self.zone.duplicate())
                } else {
                    delete_by_rdata(rs.to_rrset(ttl), self.zone.duplicate())
                }
            },
            Operation::DeleteAll(n) => delete_all(n.duplicate(), self.zone.duplicate(), CLASS_IN),
        }
    }
}

/// What the servers should serve once a change has propagated.
#[derive(Debug, Clone)]
pub enum Expectation {
    /// Exactly this record set.
    Is(RecordSet),
    /// At least the values of this record set.
    Contains(RecordSet),
    /// No records of this type.
    Empty(u16),
    /// None of the values of this record set.
    NotAny(RecordSet),
}

/// Whether the answer records `rrs` meet the expectation `e`.
pub open spec fn satisfied(e: Expectation, rrs: Seq<WireRecord>) -> bool {
    match e {
        Expectation::Is(other) => records_ok(rrs) && records_view(rrs) == other@,
        Expectation::Contains(other) => records_ok(rrs) && subset_view(other@, records_view(rrs)),
        Expectation::Empty(_) => rrs.len() == 0,
        Expectation::NotAny(other) => rrs.len() == 0 || (records_ok(rrs) && (records_view(rrs).kind
            != other@.kind || other@.values.disjoint(records_view(rrs).values))),
    }
}

/// What the servers should serve once `op` has been carried out.
pub open spec fn expectation_for(op: Operation) -> Expectation {
    match op {
        Operation::Create(rs) => Expectation::Is(rs),
        Operation::Append(rs, _) => Expectation::Contains(rs),
        Operation::Delete(rs) => if rs@.values == Set::<Seq<u8>>::empty() {
            Expectation::Empty(kind_code(rs@.kind))
        } else {
            Expectation::NotAny(rs)
        },
        Operation::DeleteAll(_) => Expectation::Empty(TYPE_ANY),
    }
}

/// The record type an expectation is about.
pub open spec fn expectation_type(e: Expectation) -> u16 {
    match e {
        Expectation::Is(rs) => kind_code(rs@.kind),
        Expectation::Contains(rs) => kind_code(rs@.kind),
        Expectation::NotAny(rs) => kind_code(rs@.kind),
        Expectation::Empty(t) => t,
    }
}

impl Expectation {
    /// The record set of the expectation is well formed.
    pub open spec fn wf(&self) -> bool {
        match self {
            Expectation::Is(rs) => rs.wf(),
            Expectation::Contains(rs) => rs.wf(),
            Expectation::NotAny(rs) => rs.wf(),
            Expectation::Empty(_) => true,
        }
    }

    /// The record type to query for.
    pub fn record_type(&self) -> (r: u16)
        ensures
            r == expectation_type(*self),
    {
        match self {
            Expectation::Is(rs) => rs.record_type(),
            Expectation::Contains(rs) => rs.record_type(),
            Expectation::NotAny(rs) => rs.record_type(),
            Expectation::Empty(t) => *t,
        }
    }

    /// Whether the answer records meet the expectation.
    pub fn satisfied_by(&self, rrs: &[WireRecord]) -> (r: bool)
        ensures
            r == satisfied(*self, rrs@),
    {
        match self {
            Expectation::Is(other) => {
                match RecordSet::from_records(rrs) {
                    Ok(rset) => rset == *other,
                    Err(_) => false,
                }
            },
            Expectation::Contains(other) => {
                match RecordSet::from_records(rrs) {
                    Ok(rset) => other.is_subset(&rset),
                    Err(_) => false,
                }
            },
            Expectation::Empty(_) => rrs.len() == 0,
            Expectation::NotAny(other) => {
                if rrs.len() == 0 {
                    return true;
                }
                match RecordSet::from_records(rrs) {
                    Ok(rset) => {
                        if rset.data.kind != other.data.kind {
                            true
                        } else {
                            none_held(&other.data.values, &rset.data.values)
                        }
                    },
                    Err(_) => false,
                }
            },
        }
    }

    /// What the servers should serve once `op` has been carried out: the
    /// created set, at least the appended values, no records of the deleted
    /// type, none of the deleted values, or no records at all.
    pub fn for_operation(op: Operation) -> (r: Expectation)
        ensures
            r == expectation_for(op),
    {
        match op {
            Operation::Create(rs) => Expectation::Is(rs),
            Operation::Append(rs, _) => Expectation::Contains(rs),
            Operation::Delete(rs) => {
                if rs.is_empty() {
                    Expectation::Empty(rs.record_type())
                } else {
                    Expectation::NotAny(rs)
                }
            },
            Operation::DeleteAll(_) => Expectation::Empty(TYPE_ANY),
        }
    }
}

/// Why an update could not be carried out.
#[derive(Debug, Clone, Copy, PartialEq, Eq, Structural)]
pub enum UpdateError {
    /// The zone has no start-of-authority record to name its primary server.
    SoaNotFound,
    /// The server answered the update with this non-zero response code.
    Rejected(u16),
}

/// The response code of success.
pub const RCODE_NO_ERROR: u16 = 0;

/// The outcome of an update from the response code of the server's answer:
/// any code but success fails the update.
pub fn check_response(rcode: u16) -> (r: Result<(), UpdateError>)
    ensures
        rcode == RCODE_NO_ERROR ==> r is Ok,
        rcode != RCODE_NO_ERROR ==> r == Err::<(), UpdateError>(UpdateError::Rejected(rcode)),
{
    if rcode == RCODE_NO_ERROR {
        Ok(())
    } else {
        Err(UpdateError::Rejected(rcode))
    }
}

impl Update {
    /// How to reach the server the update goes to: the explicit server, on
    /// the DNS port unless it names its own, or else the zone's primary
    /// server, found through the zone's start-of-authority record.
    pub fn target(&self) -> (r: TargetPlan)
        ensures
            match self.server {
                Some(s) => match s {
                    SocketName::HostName(n, port) => r matches TargetPlan::ResolveHost(n2, p) && n2@ == n@ && p
                        == (match port {
                        Some(q) => q,
                        None => DNS_PORT,
                    }),
                    SocketName::SocketAddr(a) => r == TargetPlan::Direct(a),
                    SocketName::IpAddr(ip) => r == TargetPlan::Direct(
                        crate::util::SocketAddress { ip, port: DNS_PORT },
                    ),
                },
                None => r matches TargetPlan::LookupSoa(z) && z@ == self.zone@,
            },
    {
        match &self.server {
            Some(s) => s.plan(DNS_PORT),
            None => TargetPlan::LookupSoa(self.zone.duplicate()),
        }
    }

    /// How to reach the zone's primary server, given the primary server
    /// named by the zone's start-of-authority record, if there is one.
    pub fn primary_target(primary: Option<&Name>) -> (r: Result<TargetPlan, UpdateError>)
        ensures
            match primary {
                Some(n) => r matches Ok(TargetPlan::ResolveHost(n2, p)) && n2@ == n@ && p == DNS_PORT,
                None => r == Err::<TargetPlan, UpdateError>(UpdateError::SoaNotFound),
            },
    {
        match primary {
            Some(n) => Ok(TargetPlan::ResolveHost(n.duplicate(), DNS_PORT)),
            None => Err(UpdateError::SoaNotFound),
        }
    }
}

/// A server that serves exactly the records a creation adds meets the
/// expectation that monitoring the creation waits for: once those records
/// are in the store every server reads, the first poll of each matches.
pub proof fn lemma_created_records_meet_expectation(rs: RecordSet, ttl: u32, recs: Seq<WireRecord>)
    requires
        rs.wf(),
        rs.dns_class == CLASS_IN,
        rs@.values != Set::<Seq<u8>>::empty(),
        holds_set(recs, rs, CLASS_IN, ttl),
    ensures
        satisfied(expectation_for(Operation::Create(rs)), recs),
{
    lemma_records_form_set(recs, rs, ttl);
}

/// An expectation of at least the values of `a` is met by every answer
/// whose record set holds all of them, under the same name and of the same
/// kind, and by no answer whose record set lacks one of them.
pub proof fn lemma_contains_superset(a: RecordSet, rrs: Seq<WireRecord>)
    ensures
        records_ok(rrs) && subset_view(a@, records_view(rrs)) ==> satisfied(Expectation::Contains(a), rrs),
        (exists|v: Seq<u8>| a@.values.contains(v) && !(#[trigger] records_view(rrs).values.contains(v)))
            ==> !satisfied(Expectation::Contains(a), rrs),
{
}

/// An expectation of none of the values of `a` is met by an empty answer,
/// and by an answer whose record set holds none of them; it is not met by
/// an answer whose record set, of the same kind, holds one of them.
pub proof fn lemma_not_any_overlap(a: RecordSet, rrs: Seq<WireRecord>)
    ensures
        satisfied(Expectation::NotAny(a), Seq::<WireRecord>::empty()),
        records_ok(rrs) && a@.values.disjoint(records_view(rrs).values) ==> satisfied(Expectation::NotAny(a), rrs),
        records_ok(rrs) && records_view(rrs).kind == a@.kind && (exists|v: Seq<u8>|
            a@.values.contains(v) && #[trigger] records_view(rrs).values.contains(v))
            ==> !satisfied(Expectation::NotAny(a), rrs),
{
    if records_ok(rrs) && records_view(rrs).kind == a@.kind && (exists|v: Seq<u8>|
        a@.values.contains(v) && #[trigger] records_view(rrs).values.contains(v)) {
        let v = choose|v: Seq<u8>| a@.values.contains(v) && #[trigger] records_view(rrs).values.contains(v);
        assert(rrs.len() > 0);
        assert(!a@.values.disjoint(records_view(rrs).values));
    }
}

/// An expectation of no records of a type is met exactly by an empty answer.
pub proof fn lemma_empty_iff_no_answers(t: u16, rrs: Seq<WireRecord>)
    ensures
        satisfied(Expectation::Empty(t), rrs) <==> rrs.len() == 0,
{
}

} // verus!
