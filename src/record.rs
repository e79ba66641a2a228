//! Record sets as described in RFC 2136: all records of one name, class and
//! type, held as an unordered set of values.
use vstd::prelude::*;
use vstd::utf8::valid_utf8;

use crate::name::Name;

verus! {

/// Record type code of an IPv4 address record.
pub const TYPE_A: u16 = 1;

/// Record type code of a name server record.
pub const TYPE_NS: u16 = 2;

/// Record type code of a start-of-authority record.
pub const TYPE_SOA: u16 = 6;

/// Record type code of a text record.
pub const TYPE_TXT: u16 = 16;

/// Record type code of an IPv6 address record.
pub const TYPE_AAAA: u16 = 28;

/// Record type code that stands for every type.
pub const TYPE_ANY: u16 = 255;

/// The Internet class.
pub const CLASS_IN: u16 = 1;

/// The class NONE of RFC 2136.
pub const CLASS_NONE: u16 = 254;

/// The class ANY.
pub const CLASS_ANY: u16 = 255;

/// The record kinds that a record set can hold.
#[derive(Debug, Clone, Copy, PartialEq, Eq, Structural)]
pub enum RecordKind {
    TXT,
    A,
    AAAA,
}

/// The record type code of a kind.
pub open spec fn kind_code(k: RecordKind) -> u16 {
    match k {
        RecordKind::TXT => TYPE_TXT,
        RecordKind::A => TYPE_A,
        RecordKind::AAAA => TYPE_AAAA,
    }
}

/// The kind that a record type code denotes, if the model represents it.
pub open spec fn kind_of_code(t: u16) -> Option<RecordKind> {
    if t == TYPE_A {
        Some(RecordKind::A)
    } else if t == TYPE_AAAA {
        Some(RecordKind::AAAA)
    } else if t == TYPE_TXT {
        Some(RecordKind::TXT)
    } else {
        None
    }
}

/// Whether `v` is a value that a set of kind `k` can hold: four octets for
/// an IPv4 address, sixteen for an IPv6 address, UTF-8 text for a text
/// record.
pub open spec fn value_fits(k: RecordKind, v: Seq<u8>) -> bool {
    match k {
        RecordKind::A => v.len() == 4,
        RecordKind::AAAA => v.len() == 16,
        RecordKind::TXT => valid_utf8(v),
    }
}

impl RecordKind {
    /// The record type code of the kind.
    pub fn record_type(&self) -> (r: u16)
        ensures
            r == kind_code(*self),
    {
        match self {
            RecordKind::TXT => TYPE_TXT,
            RecordKind::A => TYPE_A,
            RecordKind::AAAA => TYPE_AAAA,
        }
    }

    /// The kind of a record type code, if the model represents it.
    pub fn from_record_type(t: u16) -> (r: Option<RecordKind>)
        ensures
            r == kind_of_code(t),
    {
        if t == TYPE_A {
            Some(RecordKind::A)
        } else if t == TYPE_AAAA {
            Some(RecordKind::AAAA)
        } else if t == TYPE_TXT {
            Some(RecordKind::TXT)
        } else {
            None
        }
    }
}

/// The data of a resource record as it travels on the wire, for the kinds
/// the model represents; `Other` for any other kind of data.
#[derive(Debug, Clone)]
pub enum RData {
    A([u8; 4]),
    AAAA([u8; 16]),
    TXT(Vec<Vec<u8>>),
    Other,
}

/// A resource record: owner name, class, type, time to live and data. An
/// update record may carry no data.
#[derive(Debug, Clone)]
pub struct WireRecord {
    pub name: Name,
    pub dns_class: u16,
    pub rr_type: u16,
    pub ttl: u32,
    pub data: Option<RData>,
}

/// The byte strings held by a list of byte vectors.
pub open spec fn byte_seqs(vs: Seq<Vec<u8>>) -> Seq<Seq<u8>> {
    vs.map_values(|v: Vec<u8>| v@)
}

/// The text value of a text record's segments: the model represents a text
/// record of exactly one segment of UTF-8 text.
pub open spec fn txt_value(segs: Seq<Seq<u8>>) -> Option<Seq<u8>> {
    if segs.len() == 1 && valid_utf8(segs[0]) {
        Some(segs[0])
    } else {
        None
    }
}

/// The value that record data contributes to a set of kind `k`, if any.
pub open spec fn data_value(d: Option<RData>, k: RecordKind) -> Option<Seq<u8>> {
    match d {
        Some(RData::A(a)) => if k == RecordKind::A {
            Some(a@)
        } else {
            None
        },
        Some(RData::AAAA(a)) => if k == RecordKind::AAAA {
            Some(a@)
        } else {
            None
        },
        Some(RData::TXT(segs)) => if k == RecordKind::TXT {
            txt_value(byte_seqs(segs@))
        } else {
            None
        },
        _ => None,
    }
}

/// Relies on `std::str::from_utf8`: it succeeds exactly on valid UTF-8.
#[verifier::external_body]
fn is_utf8(b: &[u8]) -> (r: bool)
    ensures
        r == valid_utf8(b@),
{
    std::str::from_utf8(b).is_ok()
}

/// Pushing a value onto a sequence inserts it into the set of its elements.
proof fn lemma_push_to_set<A>(s: Seq<A>, v: A)
    ensures
        s.push(v).to_set() == s.to_set().insert(v),
        forall|x: A| #[trigger] s.push(v).contains(x) <==> (s.contains(x) || x == v),
{
    assert forall|x: A| #[trigger] s.push(v).contains(x) <==> (s.contains(x) || x == v) by {
        if s.contains(x) {
            let j = choose|j: int| 0 <= j < s.len() && s[j] == x;
            assert(s.push(v)[j] == x);
        }
        if x == v {
            assert(s.push(v)[s.len() as int] == x);
        }
        if s.push(v).contains(x) {
            let k = choose|k: int| 0 <= k < s.len() + 1 && s.push(v)[k] == x;
            if k < s.len() {
                assert(s[k] == x);
            }
        }
    }
    assert(s.push(v).to_set() =~= s.to_set().insert(v));
}

/// Whether two byte strings are equal.
pub fn bytes_equal(a: &Vec<u8>, b: &Vec<u8>) -> (r: bool)
    ensures
        r == (a@ == b@),
{
    if a.len() != b.len() {
        return false;
    }
    let mut i: usize = 0;
    while i < a.len()
        invariant
            a@.len() == b@.len(),
            i <= a@.len(),
            forall|j: int| 0 <= j < i ==> #[trigger] a@[j] == b@[j],
        decreases a@.len() - i,
    {
        if a[i] != b[i] {
            return false;
        }
        i = i + 1;
    }
    assert(a@ =~= b@);
    true
}

/// A copy of a byte string.
pub fn copy_bytes(a: &Vec<u8>) -> (r: Vec<u8>)
    ensures
        r@ == a@,
{
    let r = a.clone();
    assert(r@ =~= a@);
    r
}

/// Whether the list `vs` holds the byte string `v`.
pub fn holds_value(vs: &Vec<Vec<u8>>, v: &Vec<u8>) -> (r: bool)
    ensures
        r == byte_seqs(vs@).contains(v@),
{
    let mut i: usize = 0;
    while i < vs.len()
        invariant
            i <= vs@.len(),
            forall|j: int| 0 <= j < i ==> #[trigger] vs@[j]@ != v@,
        decreases vs@.len() - i,
    {
        if bytes_equal(&vs[i], v) {
            assert(byte_seqs(vs@)[i as int] == v@);
            return true;
        }
        i = i + 1;
    }
    false
}

/// Whether every byte string of `a` is held by `b`.
pub fn all_held(a: &Vec<Vec<u8>>, b: &Vec<Vec<u8>>) -> (r: bool)
    ensures
        r == byte_seqs(a@).to_set().subset_of(byte_seqs(b@).to_set()),
{
    let mut i: usize = 0;
    while i < a.len()
        invariant
            i <= a@.len(),
            forall|j: int| 0 <= j < i ==> byte_seqs(b@).contains(#[trigger] byte_seqs(a@)[j]),
        decreases a@.len() - i,
    {
        if !holds_value(b, &a[i]) {
            assert(byte_seqs(a@).to_set().contains(byte_seqs(a@)[i as int]));
            return false;
        }
        i = i + 1;
    }
    true
}

/// Whether no byte string of `a` is held by `b`.
pub fn none_held(a: &Vec<Vec<u8>>, b: &Vec<Vec<u8>>) -> (r: bool)
    ensures
        r == byte_seqs(a@).to_set().disjoint(byte_seqs(b@).to_set()),
{
    let mut i: usize = 0;
    while i < a.len()
        invariant
            i <= a@.len(),
            forall|j: int| 0 <= j < i ==> !byte_seqs(b@).contains(#[trigger] byte_seqs(a@)[j]),
        decreases a@.len() - i,
    {
        if holds_value(b, &a[i]) {
            assert(byte_seqs(a@).to_set().contains(byte_seqs(a@)[i as int]));
            return false;
        }
        i = i + 1;
    }
    true
}

/// Adds `v` to the list `vs` unless the list holds it already.
pub fn add_value(vs: &mut Vec<Vec<u8>>, v: Vec<u8>)
    requires
        byte_seqs(old(vs)@).no_duplicates(),
    ensures
        byte_seqs(final(vs)@).no_duplicates(),
        byte_seqs(final(vs)@).to_set() == byte_seqs(old(vs)@).to_set().insert(v@),
        forall|x: Seq<u8>| #[trigger] byte_seqs(final(vs)@).contains(x) ==> byte_seqs(old(vs)@).contains(x) || x == v@,
{
    let ghost before = byte_seqs(vs@);
    if !holds_value(vs, &v) {
        vs.push(v);
        assert(byte_seqs(vs@) =~= before.push(v@));
        proof {
            lemma_push_to_set(before, v@);
        }
    }
    assert(byte_seqs(vs@).to_set() =~= before.to_set().insert(v@));
}


/// Why record data was refused.
#[derive(Debug, Clone, Copy, PartialEq, Eq, Structural)]
pub enum RsDataParseError {
    /// The type tag names no kind that a record set can hold.
    UnknownType,
    /// A value does not fit the kind of its record set.
    InvalidValue,
}

/// The values of a record set: a set of values of one kind, held without
/// repetition and in no meaningful order.
#[derive(Debug, Clone)]
pub struct RsData {
    pub kind: RecordKind,
    pub values: Vec<Vec<u8>>,
}

impl RsData {
    /// The set of values.
    pub open spec fn value_set(&self) -> Set<Seq<u8>> {
        byte_seqs(self.values@).to_set()
    }

    /// Values are held once each, and each fits the kind.
    pub open spec fn wf(&self) -> bool {
        &&& byte_seqs(self.values@).no_duplicates()
        &&& forall|i: int| 0 <= i < self.values@.len() ==> value_fits(self.kind, #[trigger] self.values@[i]@)
    }

    /// No values, of the given kind.
    pub fn empty(kind: RecordKind) -> (r: RsData)
        ensures
            r.wf(),
            r.kind == kind,
            r.value_set() == Set::<Seq<u8>>::empty(),
    {
        let r = RsData { kind, values: Vec::new() };
        assert(r.value_set() =~= Set::<Seq<u8>>::empty());
        r
    }

    /// The set of the given values, each of which must fit the kind.
    pub fn from_values(kind: RecordKind, values: Vec<Vec<u8>>) -> (r: Result<RsData, RsDataParseError>)
        ensures
            r is Ok <==> forall|i: int| 0 <= i < values@.len() ==> value_fits(kind, #[trigger] values@[i]@),
            r is Err ==> r == Err::<RsData, RsDataParseError>(RsDataParseError::InvalidValue),
            r matches Ok(d) ==> d.wf() && d.kind == kind && d.value_set() == byte_seqs(values@).to_set(),
    {
        let mut out: Vec<Vec<u8>> = Vec::new();
        let mut i: usize = 0;
        while i < values.len()
            invariant
                i <= values@.len(),
                byte_seqs(out@).no_duplicates(),
                byte_seqs(out@).to_set() == byte_seqs(values@.subrange(0, i as int)).to_set(),
                forall|j: int| 0 <= j < i ==> value_fits(kind, #[trigger] values@[j]@),
                forall|x: Seq<u8>| #[trigger] byte_seqs(out@).contains(x) ==> value_fits(kind, x),
            decreases values@.len() - i,
        {
            let v = &values[i];
            let fits = match kind {
                RecordKind::A => v.len() == 4,
                RecordKind::AAAA => v.len() == 16,
                RecordKind::TXT => is_utf8(v.as_slice()),
            };
            if !fits {
                return Err(RsDataParseError::InvalidValue);
            }
            let ghost prev = byte_seqs(values@.subrange(0, i as int));
            add_value(&mut out, copy_bytes(v));
            assert(byte_seqs(values@.subrange(0, i + 1)) =~= prev.push(v@));
            proof {
                lemma_push_to_set(prev, v@);
            }
            i = i + 1;
        }
        assert(values@.subrange(0, values@.len() as int) =~= values@);
        let r = RsData { kind, values: out };
        assert forall|i: int| 0 <= i < r.values@.len() implies value_fits(kind, #[trigger] r.values@[i]@) by {
            assert(byte_seqs(r.values@)[i] == r.values@[i]@);
            assert(byte_seqs(r.values@).contains(r.values@[i]@));
        }
        Ok(r)
    }

    /// The record type code of the values.
    pub fn record_type(&self) -> (r: u16)
        ensures
            r == kind_code(self.kind),
    {
        self.kind.record_type()
    }

    /// Whether the set holds no values.
    pub fn is_empty(&self) -> (r: bool)
        ensures
            r == (self.value_set() == Set::<Seq<u8>>::empty()),
    {
        if self.values.len() == 0 {
            assert(self.value_set() =~= Set::<Seq<u8>>::empty());
            true
        } else {
            assert(self.value_set().contains(byte_seqs(self.values@)[0]));
            false
        }
    }

    /// Whether both are of one kind and hold the same values.
    pub fn same(&self, other: &RsData) -> (r: bool)
        ensures
            r == (self.kind == other.kind && self.value_set() == other.value_set()),
    {
        if self.kind != other.kind {
            return false;
        }
        let a = all_held(&self.values, &other.values);
        let b = all_held(&other.values, &self.values);
        proof {
            if a && b {
                assert(self.value_set() =~= other.value_set());
            }
        }
        a && b
    }
}

impl PartialEq for RsData {
    fn eq(&self, other: &RsData) -> (r: bool) {
        self.same(other)
    }
}

impl vstd::std_specs::cmp::PartialEqSpecImpl for RsData {
    open spec fn obeys_eq_spec() -> bool {
        true
    }

    open spec fn eq_spec(&self, other: &RsData) -> bool {
        self.kind == other.kind && self.value_set() == other.value_set()
    }
}

/// What a record set is: its name (case-folded), class, kind and values.
pub struct RecordSetView {
    pub name: Seq<Seq<u8>>,
    pub dns_class: u16,
    pub kind: RecordKind,
    pub values: Set<Seq<u8>>,
}

/// A record set: a name, a class and a set of values of one kind.
#[derive(Debug, Clone)]
pub struct RecordSet {
    pub name: Name,
    pub dns_class: u16,
    pub data: RsData,
}

impl View for RecordSet {
    type V = RecordSetView;

    open spec fn view(&self) -> RecordSetView {
        RecordSetView {
            name: self.name@,
            dns_class: self.dns_class,
            kind: self.data.kind,
            values: self.data.value_set(),
        }
    }
}

/// `a` is a subset of `b`: same name and kind, and every value of `a` is
/// one of `b`.
pub open spec fn subset_view(a: RecordSetView, b: RecordSetView) -> bool {
    &&& a.name == b.name
    &&& a.kind == b.kind
    &&& a.values.subset_of(b.values)
}

/// The value that record data contributes to a set of kind `k`, with the
/// data given as a value rather than an option.
pub open spec fn rdata_value(d: RData, k: RecordKind) -> Option<Seq<u8>> {
    data_value(Some(d), k)
}

/// The wire data that stands for a value of kind `k`.
fn value_rdata(k: RecordKind, v: &Vec<u8>) -> (r: RData)
    requires
        value_fits(k, v@),
    ensures
        rdata_value(r, k) == Some(v@),
{
    match k {
        RecordKind::A => {
            let a: [u8; 4] = [v[0], v[1], v[2], v[3]];
            assert(a@ =~= v@);
            RData::A(a)
        },
        RecordKind::AAAA => {
            let a: [u8; 16] = [
                v[0], v[1], v[2], v[3], v[4], v[5], v[6], v[7],
                v[8], v[9], v[10], v[11], v[12], v[13], v[14], v[15],
            ];
            assert(a@ =~= v@);
            RData::AAAA(a)
        },
        RecordKind::TXT => {
            let mut segs: Vec<Vec<u8>> = Vec::new();
            segs.push(copy_bytes(v));
            assert(byte_seqs(segs@) =~= seq![v@]);
            RData::TXT(segs)
        },
    }
}

impl RecordSet {
    /// The values of the set are well formed.
    pub open spec fn wf(&self) -> bool {
        self.data.wf()
    }

    /// A set of the Internet class.
    pub fn new(name: Name, data: RsData) -> (r: RecordSet)
        ensures
            r@ == (RecordSetView { name: name@, dns_class: CLASS_IN, kind: data.kind, values: data.value_set() }),
            r.wf() == data.wf(),
            r.name.raw_labels() == name.raw_labels(),
    {
        RecordSet { name, dns_class: CLASS_IN, data }
    }

    /// The owner name.
    pub fn name(&self) -> (r: &Name)
        ensures
            r == &self.name,
    {
        &self.name
    }

    /// The class.
    pub fn dns_class(&self) -> (r: u16)
        ensures
            r == self.dns_class,
    {
        self.dns_class
    }

    /// The record type code of the values.
    pub fn record_type(&self) -> (r: u16)
        ensures
            r == kind_code(self@.kind),
    {
        self.data.record_type()
    }

    /// The values.
    pub fn data(&self) -> (r: &RsData)
        ensures
            r == &self.data,
    {
        &self.data
    }

    /// Whether the set holds no values.
    pub fn is_empty(&self) -> (r: bool)
        ensures
            r == (self@.values == Set::<Seq<u8>>::empty()),
    {
        self.data.is_empty()
    }

    /// Whether the wire data `entry` is of the set's kind and its value is
    /// one of the set's values.
    pub fn contains(&self, entry: &RData) -> (r: bool)
        ensures
            r == (rdata_value(*entry, self@.kind) matches Some(v) && self@.values.contains(v)),
    {
        match (self.data.kind, entry) {
            (RecordKind::A, RData::A(a)) => {
                let mut v: Vec<u8> = Vec::new();
                v.push(a[0]);
                v.push(a[1]);
                v.push(a[2]);
                v.push(a[3]);
                assert(v@ =~= a@);
                holds_value(&self.data.values, &v)
            },
            (RecordKind::AAAA, RData::AAAA(a)) => {
                let mut v: Vec<u8> = Vec::new();
                let mut i: usize = 0;
                while i < 16
                    invariant
                        i <= 16,
                        v@ =~= a@.subrange(0, i as int),
                    decreases 16 - i,
                {
                    v.push(a[i]);
                    i = i + 1;
                }
                assert(v@ =~= a@);
                holds_value(&self.data.values, &v)
            },
            (RecordKind::TXT, RData::TXT(segs)) => {
                if segs.len() != 1 {
                    return false;
                }
                assert(byte_seqs(segs@)[0] == segs@[0]@);
                if !is_utf8(segs[0].as_slice()) {
                    return false;
                }
                holds_value(&self.data.values, &segs[0])
            },
            _ => false,
        }
    }

    /// Whether `self` is a subset of `other`: the same name and kind, and
    /// each value of `self` is one of `other`.
    pub fn is_subset(&self, other: &RecordSet) -> (r: bool)
        ensures
            r == subset_view(self@, other@),
    {
        if !self.name.same(&other.name) {
            return false;
        }
        if self.data.kind != other.data.kind {
            return false;
        }
        all_held(&self.data.values, &other.data.values)
    }

    /// The values as wire data, one entry for each value, in the order the
    /// set holds them.
    pub fn iter_data(&self) -> (r: Vec<RData>)
        requires
            self.wf(),
        ensures
            r@.len() == self.data.values@.len(),
            forall|i: int| 0 <= i < r@.len() ==> rdata_value(#[trigger] r@[i], self@.kind) == Some(self.data.values@[i]@),
    {
        let mut out: Vec<RData> = Vec::new();
        let mut i: usize = 0;
        while i < self.data.values.len()
            invariant
                self.wf(),
                i <= self.data.values@.len(),
                out@.len() == i,
                forall|j: int| 0 <= j < i ==> rdata_value(#[trigger] out@[j], self@.kind) == Some(self.data.values@[j]@),
            decreases self.data.values@.len() - i,
        {
            out.push(value_rdata(self.data.kind, &self.data.values[i]));
            i = i + 1;
        }
        out
    }
}

impl PartialEq for RecordSet {
    fn eq(&self, other: &RecordSet) -> (r: bool) {
        self.name.same(&other.name) && self.dns_class == other.dns_class && self.data.same(&other.data)
    }
}

impl vstd::std_specs::cmp::PartialEqSpecImpl for RecordSet {
    open spec fn obeys_eq_spec() -> bool {
        true
    }

    open spec fn eq_spec(&self, other: &RecordSet) -> bool {
        self@ == other@
    }
}

/// The key of a record: case-folded owner name, class and type.
pub open spec fn record_key(r: WireRecord) -> (Seq<Seq<u8>>, u16, u16) {
    (r.name@, r.dns_class, r.rr_type)
}

/// Every record shares the key of the first.
pub open spec fn single_key(rrs: Seq<WireRecord>) -> bool {
    forall|i: int| 0 <= i < rrs.len() ==> #[trigger] record_key(rrs[i]) == record_key(rrs[0])
}

/// What is wrong with the data of a text record, if anything: the model
/// represents exactly one segment of UTF-8 text.
pub open spec fn txt_fault(d: Option<RData>) -> Option<TryFromRecordsError> {
    match d {
        Some(RData::TXT(segs)) => if segs@.len() != 1 {
            Some(TryFromRecordsError::UnsupportedTxtValue)
        } else if !valid_utf8(segs@[0]@) {
            Some(TryFromRecordsError::Utf8)
        } else {
            None
        },
        _ => None,
    }
}

/// Some record holds text data that the model does not represent.
pub open spec fn has_txt_fault(rrs: Seq<WireRecord>) -> bool {
    exists|i: int| 0 <= i < rrs.len() && (#[trigger] txt_fault(rrs[i].data)) is Some
}

/// `i` is the first record whose text data the model does not represent.
pub open spec fn is_first_txt_fault(rrs: Seq<WireRecord>, i: int) -> bool {
    &&& 0 <= i < rrs.len()
    &&& txt_fault(rrs[i].data) is Some
    &&& forall|j: int| 0 <= j < i ==> (#[trigger] txt_fault(rrs[j].data)) is None
}

/// The values that the records contribute to a set of kind `k`. Records
/// whose data is not of that kind contribute nothing.
pub open spec fn values_of(rrs: Seq<WireRecord>, k: RecordKind) -> Set<Seq<u8>> {
    Set::new(|v: Seq<u8>| exists|i: int| 0 <= i < rrs.len() && #[trigger] data_value(rrs[i].data, k) == Some(v))
}

/// The records form one record set of a represented kind.
pub open spec fn records_ok(rrs: Seq<WireRecord>) -> bool {
    &&& rrs.len() > 0
    &&& single_key(rrs)
    &&& kind_of_code(rrs[0].rr_type) is Some
    &&& (kind_of_code(rrs[0].rr_type) == Some(RecordKind::TXT) ==> !has_txt_fault(rrs))
}

/// The record set that the records form, where they form one.
pub open spec fn records_view(rrs: Seq<WireRecord>) -> RecordSetView {
    RecordSetView {
        name: rrs[0].name@,
        dns_class: rrs[0].dns_class,
        kind: kind_of_code(rrs[0].rr_type)->0,
        values: values_of(rrs, kind_of_code(rrs[0].rr_type)->0),
    }
}

/// The key of a record set: owner name, class and record type.
#[derive(Debug, Clone)]
pub struct RsKey {
    pub name: Name,
    pub dns_class: u16,
    pub record_type: u16,
}

impl View for RsKey {
    type V = (Seq<Seq<u8>>, u16, u16);

    open spec fn view(&self) -> (Seq<Seq<u8>>, u16, u16) {
        (self.name@, self.dns_class, self.record_type)
    }
}

impl RsKey {
    /// The key of a record.
    pub fn from_record(r: &WireRecord) -> (k: RsKey)
        ensures
            k@ == record_key(*r),
    {
        RsKey { name: r.name.duplicate(), dns_class: r.dns_class, record_type: r.rr_type }
    }

    /// The owner name.
    pub fn name(&self) -> (r: &Name)
        ensures
            r == &self.name,
    {
        &self.name
    }

    /// The class.
    pub fn dns_class(&self) -> (r: u16)
        ensures
            r == self.dns_class,
    {
        self.dns_class
    }

    /// The record type code.
    pub fn record_type(&self) -> (r: u16)
        ensures
            r == self.record_type,
    {
        self.record_type
    }
}

/// The views of a list of keys.
pub open spec fn key_views(ks: Seq<RsKey>) -> Seq<(Seq<Seq<u8>>, u16, u16)> {
    ks.map_values(|k: RsKey| k@)
}

/// The keys of the records, each once.
pub open spec fn keys_of(rrs: Seq<WireRecord>) -> Set<(Seq<Seq<u8>>, u16, u16)> {
    Set::new(|k: (Seq<Seq<u8>>, u16, u16)| exists|i: int| 0 <= i < rrs.len() && #[trigger] record_key(rrs[i]) == k)
}

/// Whether the list of keys holds `k`.
fn holds_key(ks: &Vec<RsKey>, k: &RsKey) -> (r: bool)
    ensures
        r == key_views(ks@).contains(k@),
{
    let mut i: usize = 0;
    while i < ks.len()
        invariant
            i <= ks@.len(),
            forall|j: int| 0 <= j < i ==> (#[trigger] ks@[j])@ != k@,
        decreases ks@.len() - i,
    {
        let x = &ks[i];
        if x.name.same(&k.name) && x.dns_class == k.dns_class && x.record_type == k.record_type {
            assert(key_views(ks@)[i as int] == k@);
            return true;
        }
        i = i + 1;
    }
    assert forall|j: int| 0 <= j < key_views(ks@).len() implies key_views(ks@)[j] != k@ by {
        assert(key_views(ks@)[j] == ks@[j]@);
    }
    false
}

/// Taking one more record adds its key to the keys.
proof fn lemma_keys_of_extend(rrs: Seq<WireRecord>, i: int)
    requires
        0 <= i < rrs.len(),
    ensures
        keys_of(rrs.subrange(0, i + 1)) == keys_of(rrs.subrange(0, i)).insert(record_key(rrs[i])),
{
    let a = rrs.subrange(0, i);
    let b = rrs.subrange(0, i + 1);
    assert forall|k: (Seq<Seq<u8>>, u16, u16)| #[trigger] keys_of(b).contains(k) <==> (keys_of(a).contains(k)
        || record_key(rrs[i]) == k) by {
        if keys_of(b).contains(k) {
            let j = choose|j: int| 0 <= j < b.len() && #[trigger] record_key(b[j]) == k;
            if j < i {
                assert(a[j] == b[j]);
            }
        }
        if keys_of(a).contains(k) {
            let j = choose|j: int| 0 <= j < a.len() && #[trigger] record_key(a[j]) == k;
            assert(a[j] == b[j]);
        }
        if record_key(rrs[i]) == k {
            assert(b[i] == rrs[i]);
        }
    }
    assert(keys_of(b) =~= keys_of(a).insert(record_key(rrs[i])));
}

/// Every key among the records, once each.
fn distinct_keys(rrs: &[WireRecord]) -> (ks: Vec<RsKey>)
    ensures
        key_views(ks@).no_duplicates(),
        key_views(ks@).to_set() == keys_of(rrs@),
{
    let mut ks: Vec<RsKey> = Vec::new();
    let mut i: usize = 0;
    assert(keys_of(rrs@.subrange(0, 0)) =~= Set::<(Seq<Seq<u8>>, u16, u16)>::empty());
    assert(key_views(ks@).to_set() =~= Set::<(Seq<Seq<u8>>, u16, u16)>::empty());
    while i < rrs.len()
        invariant
            i <= rrs@.len(),
            key_views(ks@).no_duplicates(),
            key_views(ks@).to_set() == keys_of(rrs@.subrange(0, i as int)),
        decreases rrs@.len() - i,
    {
        let k = RsKey::from_record(&rrs[i]);
        proof {
            lemma_keys_of_extend(rrs@, i as int);
        }
        if !holds_key(&ks, &k) {
            let ghost before = key_views(ks@);
            ks.push(k);
            assert(key_views(ks@) =~= before.push(k@));
            proof {
                lemma_push_to_set(before, k@);
            }
        } else {
            assert(key_views(ks@).to_set() =~= key_views(ks@).to_set().insert(k@));
        }
        i = i + 1;
    }
    assert(rrs@.subrange(0, rrs@.len() as int) =~= rrs@);
    ks
}

/// Why a list of records does not form a record set.
#[derive(Debug, Clone)]
pub enum TryFromRecordsError {
    /// There are no records.
    Empty,
    /// The records have more than one key: every key among them, once each.
    MultipleKeys(Vec<RsKey>),
    /// The records are of a type that the model does not represent.
    UnsupportedType(u16),
    /// A text record has other than exactly one segment.
    UnsupportedTxtValue,
    /// A text record holds bytes that are no UTF-8.
    Utf8,
}

impl TryFromRecordsError {
    /// A short description of the error.
    pub fn message(&self) -> (r: &'static str)
        ensures
            self is Empty ==> r@ == "no records"@,
            self is MultipleKeys ==> r@ == "multiple keys"@,
            self is UnsupportedType ==> r@ == "unsupported record type"@,
            self is UnsupportedTxtValue ==> r@ == "unsupported TXT value"@,
            self is Utf8 ==> r@ == "non-UTF8 content"@,
    {
        match self {
            TryFromRecordsError::Empty => "no records",
            TryFromRecordsError::MultipleKeys(_) => "multiple keys",
            TryFromRecordsError::UnsupportedType(_) => "unsupported record type",
            TryFromRecordsError::UnsupportedTxtValue => "unsupported TXT value",
            TryFromRecordsError::Utf8 => "non-UTF8 content",
        }
    }
}

/// What is wrong with the data of a text record, if anything.
fn txt_check(d: &Option<RData>) -> (r: Option<TryFromRecordsError>)
    ensures
        r == txt_fault(*d),
{
    match d {
        Some(RData::TXT(segs)) => {
            if segs.len() != 1 {
                Some(TryFromRecordsError::UnsupportedTxtValue)
            } else if !is_utf8(segs[0].as_slice()) {
                Some(TryFromRecordsError::Utf8)
            } else {
                None
            }
        },
        _ => None,
    }
}

/// The value that record data contributes to a set of kind `k`, if any.
fn value_of_data(d: &Option<RData>, k: RecordKind) -> (r: Option<Vec<u8>>)
    ensures
        r matches Some(v) ==> data_value(*d, k) == Some(v@),
        r is None ==> data_value(*d, k) is None,
{
    match (k, d) {
        (RecordKind::A, Some(RData::A(a))) => {
            let mut v: Vec<u8> = Vec::new();
            let mut i: usize = 0;
            while i < 4
                invariant
                    i <= 4,
                    v@ =~= a@.subrange(0, i as int),
                decreases 4 - i,
            {
                v.push(a[i]);
                i = i + 1;
            }
            assert(v@ =~= a@);
            Some(v)
        },
        (RecordKind::AAAA, Some(RData::AAAA(a))) => {
            let mut v: Vec<u8> = Vec::new();
            let mut i: usize = 0;
            while i < 16
                invariant
                    i <= 16,
                    v@ =~= a@.subrange(0, i as int),
                decreases 16 - i,
            {
                v.push(a[i]);
                i = i + 1;
            }
            assert(v@ =~= a@);
            Some(v)
        },
        (RecordKind::TXT, Some(RData::TXT(segs))) => {
            if segs.len() != 1 {
                return None;
            }
            assert(byte_seqs(segs@)[0] == segs@[0]@);
            if !is_utf8(segs[0].as_slice()) {
                return None;
            }
            Some(copy_bytes(&segs[0]))
        },
        _ => None,
    }
}

/// A value that records contribute to a set fits the set's kind.
proof fn lemma_data_value_fits(d: Option<RData>, k: RecordKind)
    ensures
        data_value(d, k) matches Some(v) ==> value_fits(k, v),
{
}

/// Taking one more record adds its value, if any, to the values.
proof fn lemma_values_of_extend(rrs: Seq<WireRecord>, i: int, k: RecordKind)
    requires
        0 <= i < rrs.len(),
    ensures
        data_value(rrs[i].data, k) matches Some(v) ==> values_of(rrs.subrange(0, i + 1), k) == values_of(
            rrs.subrange(0, i),
            k,
        ).insert(v),
        data_value(rrs[i].data, k) is None ==> values_of(rrs.subrange(0, i + 1), k) == values_of(
            rrs.subrange(0, i),
            k,
        ),
{
    let a = rrs.subrange(0, i);
    let b = rrs.subrange(0, i + 1);
    assert forall|v: Seq<u8>| #[trigger] values_of(b, k).contains(v) <==> (values_of(a, k).contains(v)
        || data_value(rrs[i].data, k) == Some(v)) by {
        if values_of(b, k).contains(v) {
            let j = choose|j: int| 0 <= j < b.len() && #[trigger] data_value(b[j].data, k) == Some(v);
            if j < i {
                assert(a[j] == b[j]);
            }
        }
        if values_of(a, k).contains(v) {
            let j = choose|j: int| 0 <= j < a.len() && #[trigger] data_value(a[j].data, k) == Some(v);
            assert(a[j] == b[j]);
        }
        if data_value(rrs[i].data, k) == Some(v) {
            assert(b[i] == rrs[i]);
        }
    }
    if data_value(rrs[i].data, k) is Some {
        assert(values_of(b, k) =~= values_of(a, k).insert(data_value(rrs[i].data, k)->0));
    } else {
        assert(values_of(b, k) =~= values_of(a, k));
    }
}

/// Where two records have different keys, the list of all keys holds at
/// least two.
proof fn lemma_two_keys(ks: Seq<RsKey>, rrs: Seq<WireRecord>, i: int)
    requires
        0 < i < rrs.len(),
        record_key(rrs[i]) != record_key(rrs[0]),
        key_views(ks).to_set() == keys_of(rrs),
    ensures
        ks.len() >= 2,
{
    assert(keys_of(rrs).contains(record_key(rrs[0])));
    assert(keys_of(rrs).contains(record_key(rrs[i])));
    assert(key_views(ks).contains(record_key(rrs[0])));
    assert(key_views(ks).contains(record_key(rrs[i])));
    if ks.len() < 2 {
        let p = choose|p: int| 0 <= p < key_views(ks).len() && key_views(ks)[p] == record_key(rrs[0]);
        let q = choose|q: int| 0 <= q < key_views(ks).len() && key_views(ks)[q] == record_key(rrs[i]);
        assert(p == q);
    }
}

impl RecordSet {
    /// Groups records into a record set. Fails where there are no records,
    /// where they have more than one (name, class, type) key, where their
    /// type is not one the model represents, or where a text record holds a
    /// value the model does not represent. Records whose data is not of the
    /// set's kind contribute no value.
    pub fn from_records(rrs: &[WireRecord]) -> (r: Result<RecordSet, TryFromRecordsError>)
        ensures
            r is Ok <==> records_ok(rrs@),
            r matches Ok(rs) ==> rs.wf() && rs@ == records_view(rrs@),
            (r matches Err(TryFromRecordsError::Empty)) <==> rrs@.len() == 0,
            (r matches Err(TryFromRecordsError::MultipleKeys(_))) <==> (rrs@.len() > 0 && !single_key(rrs@)),
            r matches Err(TryFromRecordsError::MultipleKeys(ks)) ==> key_views(ks@).no_duplicates()
                && key_views(ks@).to_set() == keys_of(rrs@) && ks@.len() >= 2,
            (r matches Err(TryFromRecordsError::UnsupportedType(t))) <==> (rrs@.len() > 0 && single_key(rrs@)
                && kind_of_code(rrs@[0].rr_type) is None),
            r matches Err(TryFromRecordsError::UnsupportedType(t)) ==> t == rrs@[0].rr_type,
            (r matches Err(TryFromRecordsError::UnsupportedTxtValue) || r matches Err(TryFromRecordsError::Utf8))
                <==> (rrs@.len() > 0 && single_key(rrs@) && kind_of_code(rrs@[0].rr_type) == Some(RecordKind::TXT)
                && has_txt_fault(rrs@)),
            r matches Err(e) ==> ((e is UnsupportedTxtValue || e is Utf8) ==> exists|i: int|
                is_first_txt_fault(rrs@, i) && txt_fault(#[trigger] rrs@[i].data) == Some(e)),
    {
        if rrs.len() == 0 {
            return Err(TryFromRecordsError::Empty);
        }
        let first = &rrs[0];
        let mut i: usize = 1;
        while i < rrs.len()
            invariant
                1 <= i <= rrs@.len(),
                first == &rrs@[0],
                forall|j: int| 0 <= j < i ==> #[trigger] record_key(rrs@[j]) == record_key(rrs@[0]),
            decreases rrs@.len() - i,
        {
            let r = &rrs[i];
            if !(r.name.same(&first.name) && r.dns_class == first.dns_class && r.rr_type == first.rr_type) {
                let ks = distinct_keys(rrs);
                proof {
                    lemma_two_keys(ks@, rrs@, i as int);
                }
                return Err(TryFromRecordsError::MultipleKeys(ks));
            }
            i = i + 1;
        }
        assert(single_key(rrs@));
        let kind = match RecordKind::from_record_type(first.rr_type) {
            Some(k) => k,
            None => {
                return Err(TryFromRecordsError::UnsupportedType(first.rr_type));
            },
        };
        let mut values: Vec<Vec<u8>> = Vec::new();
        let mut i: usize = 0;
        while i < rrs.len()
            invariant
                i <= rrs@.len(),
                rrs@.len() > 0,
                single_key(rrs@),
                kind_of_code(rrs@[0].rr_type) == Some(kind),
                byte_seqs(values@).no_duplicates(),
                byte_seqs(values@).to_set() == values_of(rrs@.subrange(0, i as int), kind),
                forall|x: Seq<u8>| #[trigger] byte_seqs(values@).contains(x) ==> value_fits(kind, x),
                kind == RecordKind::TXT ==> forall|j: int| 0 <= j < i ==> (#[trigger] txt_fault(rrs@[j].data)) is None,
            decreases rrs@.len() - i,
        {
            if kind == RecordKind::TXT {
                match txt_check(&rrs[i].data) {
                    Some(e) => {
                        assert(is_first_txt_fault(rrs@, i as int));
                        return Err(e);
                    },
                    None => {},
                }
            }
            proof {
                lemma_values_of_extend(rrs@, i as int, kind);
                lemma_data_value_fits(rrs@[i as int].data, kind);
            }
            match value_of_data(&rrs[i].data, kind) {
                Some(v) => {
                    add_value(&mut values, v);
                },
                None => {},
            }
            i = i + 1;
        }
        assert(rrs@.subrange(0, rrs@.len() as int) =~= rrs@);
        let data = RsData { kind, values };
        assert forall|j: int| 0 <= j < data.values@.len() implies value_fits(kind, #[trigger] data.values@[j]@) by {
            assert(byte_seqs(data.values@)[j] == data.values@[j]@);
            assert(byte_seqs(data.values@).contains(data.values@[j]@));
        }
        Ok(RecordSet { name: first.name.duplicate(), dns_class: first.dns_class, data })
    }
}

/// A record set as wire records: each record carries the set's name, type,
/// class and time to live.
#[derive(Debug, Clone)]
pub struct RRset {
    pub name: Name,
    pub rr_type: u16,
    pub dns_class: u16,
    pub ttl: u32,
    pub records: Vec<WireRecord>,
}

/// The records are one for each value of `rs`, in its order, with the name
/// and type of `rs` and the given class and time to live.
pub open spec fn holds_set(recs: Seq<WireRecord>, rs: RecordSet, class: u16, ttl: u32) -> bool {
    &&& recs.len() == rs.data.values@.len()
    &&& forall|i: int|
        0 <= i < recs.len() ==> {
            &&& (#[trigger] recs[i]).name@ == rs.name@
            &&& recs[i].dns_class == class
            &&& recs[i].rr_type == kind_code(rs@.kind)
            &&& recs[i].ttl == ttl
            &&& data_value(recs[i].data, rs@.kind) == Some(rs.data.values@[i]@)
        }
}

/// `r` holds the values of `rs` as wire records of the Internet class, one
/// for each value in the order of `rs`, all with time to live `ttl`.
pub open spec fn expands(r: RRset, rs: RecordSet, ttl: u32) -> bool {
    &&& r.name@ == rs.name@
    &&& r.rr_type == kind_code(rs@.kind)
    &&& r.dns_class == CLASS_IN
    &&& r.ttl == ttl
    &&& holds_set(r.records@, rs, CLASS_IN, ttl)
}

impl RecordSet {
    /// The set as wire records of the Internet class sharing the time to
    /// live `ttl`.
    pub fn to_rrset(&self, ttl: u32) -> (r: RRset)
        requires
            self.wf(),
        ensures
            expands(r, *self, ttl),
    {
        let rtype = self.record_type();
        let mut records: Vec<WireRecord> = Vec::new();
        let mut i: usize = 0;
        while i < self.data.values.len()
            invariant
                self.wf(),
                rtype == kind_code(self@.kind),
                i <= self.data.values@.len(),
                records@.len() == i,
                forall|j: int|
                    0 <= j < i ==> {
                        &&& (#[trigger] records@[j]).name@ == self.name@
                        &&& records@[j].dns_class == CLASS_IN
                        &&& records@[j].rr_type == rtype
                        &&& records@[j].ttl == ttl
                        &&& data_value(records@[j].data, self@.kind) == Some(self.data.values@[j]@)
                    },
            decreases self.data.values@.len() - i,
        {
            let data = value_rdata(self.data.kind, &self.data.values[i]);
            records.push(
                WireRecord {
                    name: self.name.duplicate(),
                    dns_class: CLASS_IN,
                    rr_type: rtype,
                    ttl,
                    data: Some(data),
                },
            );
            i = i + 1;
        }
        RRset { name: self.name.duplicate(), rr_type: rtype, dns_class: CLASS_IN, ttl, records }
    }
}

/// Records that hold each value of a non-empty set of the Internet class,
/// under its name and type and with the Internet class, form that set.
pub proof fn lemma_records_form_set(recs: Seq<WireRecord>, rs: RecordSet, ttl: u32)
    requires
        rs.wf(),
        rs.dns_class == CLASS_IN,
        rs@.values != Set::<Seq<u8>>::empty(),
        holds_set(recs, rs, CLASS_IN, ttl),
    ensures
        records_ok(recs),
        records_view(recs) == rs@,
{
    let rrs = recs;
    let k = rs@.kind;
    if rs.data.values@.len() == 0 {
        assert(rs@.values =~= Set::<Seq<u8>>::empty());
    }
    assert(kind_of_code(kind_code(k)) == Some(k));
    assert(single_key(rrs));
    assert forall|i: int| 0 <= i < rrs.len() implies (#[trigger] txt_fault(rrs[i].data)) is None by {
        assert(data_value(rrs[i].data, k) is Some);
    }
    assert forall|v: Seq<u8>| #[trigger] values_of(rrs, k).contains(v) <==> rs@.values.contains(v) by {
        if values_of(rrs, k).contains(v) {
            let i = choose|i: int| 0 <= i < rrs.len() && #[trigger] data_value(rrs[i].data, k) == Some(v);
            assert(byte_seqs(rs.data.values@)[i] == v);
        }
        if rs@.values.contains(v) {
            let i = choose|i: int| 0 <= i < rs.data.values@.len() && byte_seqs(rs.data.values@)[i] == v;
            assert(data_value(rrs[i].data, k) == Some(v));
        }
    }
    assert(values_of(rrs, k) =~= rs@.values);
}

/// Turning a non-empty record set of the Internet class into wire records
/// and grouping those records again gives back an equal record set.
pub proof fn lemma_rrset_round_trip(rs: RecordSet, ttl: u32, r: RRset)
    requires
        rs.wf(),
        rs.dns_class == CLASS_IN,
        rs@.values != Set::<Seq<u8>>::empty(),
        expands(r, rs, ttl),
    ensures
        records_ok(r.records@),
        records_view(r.records@) == rs@,
{
    lemma_records_form_set(r.records@, rs, ttl);
}

/// Grouping records does not depend on their order: two lists that hold the
/// same records, in any order, both form a record set or both do not, and
/// the sets they form are equal.
pub proof fn lemma_from_records_order_independent(a: Seq<WireRecord>, b: Seq<WireRecord>)
    requires
        a.to_multiset() == b.to_multiset(),
    ensures
        records_ok(a) <==> records_ok(b),
        records_ok(a) ==> records_view(a) == records_view(b),
{
    broadcast use vstd::seq_lib::group_to_multiset_ensures;

    assert(a.len() == b.len()) by {
        assert(a.len() == a.to_multiset().len());
        assert(b.len() == b.to_multiset().len());
    }
    assert forall|x: WireRecord| a.contains(x) <==> b.contains(x) by {
        assert(a.contains(x) <==> a.to_multiset().count(x) > 0);
        assert(b.contains(x) <==> b.to_multiset().count(x) > 0);
    }
    if a.len() > 0 {
        lemma_same_elements_single_key(a, b);
        lemma_same_elements_single_key(b, a);
        if single_key(a) && single_key(b) {
            assert(a.contains(a[0]));
            let j = choose|j: int| 0 <= j < b.len() && b[j] == a[0];
            assert(record_key(b[j]) == record_key(b[0]));
            let k = kind_of_code(a[0].rr_type);
            assert(has_txt_fault(a) ==> has_txt_fault(b)) by {
                if has_txt_fault(a) {
                    let i = choose|i: int| 0 <= i < a.len() && (#[trigger] txt_fault(a[i].data)) is Some;
                    assert(a.contains(a[i]));
                    let j2 = choose|j2: int| 0 <= j2 < b.len() && b[j2] == a[i];
                    assert(txt_fault(b[j2].data) is Some);
                }
            }
            assert(has_txt_fault(b) ==> has_txt_fault(a)) by {
                if has_txt_fault(b) {
                    let i = choose|i: int| 0 <= i < b.len() && (#[trigger] txt_fault(b[i].data)) is Some;
                    assert(b.contains(b[i]));
                    let j2 = choose|j2: int| 0 <= j2 < a.len() && a[j2] == b[i];
                    assert(txt_fault(a[j2].data) is Some);
                }
            }
            if k is Some {
                let kk = k->0;
                assert forall|v: Seq<u8>| #[trigger] values_of(a, kk).contains(v) <==> values_of(b, kk).contains(v) by {
                    if values_of(a, kk).contains(v) {
                        let i = choose|i: int| 0 <= i < a.len() && #[trigger] data_value(a[i].data, kk) == Some(v);
                        assert(a.contains(a[i]));
                        let j2 = choose|j2: int| 0 <= j2 < b.len() && b[j2] == a[i];
                        assert(data_value(b[j2].data, kk) == Some(v));
                    }
                    if values_of(b, kk).contains(v) {
                        let i = choose|i: int| 0 <= i < b.len() && #[trigger] data_value(b[i].data, kk) == Some(v);
                        assert(b.contains(b[i]));
                        let j2 = choose|j2: int| 0 <= j2 < a.len() && a[j2] == b[i];
                        assert(data_value(a[j2].data, kk) == Some(v));
                    }
                }
                assert(values_of(a, kk) =~= values_of(b, kk));
            }
        }
    }
}

/// Where `b` holds every record of `a` and `a` has a single key, `b` has it
/// too.
proof fn lemma_same_elements_single_key(a: Seq<WireRecord>, b: Seq<WireRecord>)
    requires
        a.len() > 0,
        b.len() > 0,
        forall|x: WireRecord| a.contains(x) <==> b.contains(x),
    ensures
        single_key(a) ==> single_key(b),
{
    if single_key(a) {
        assert forall|i: int| 0 <= i < b.len() implies #[trigger] record_key(b[i]) == record_key(b[0]) by {
            assert(b.contains(b[i]));
            assert(b.contains(b[0]));
            let p = choose|p: int| 0 <= p < a.len() && a[p] == b[i];
            let q = choose|q: int| 0 <= q < a.len() && a[q] == b[0];
            assert(record_key(a[p]) == record_key(a[0]));
            assert(record_key(a[q]) == record_key(a[0]));
        }
    }
}

} // verus!
