//! Domain names as sequences of labels, compared by ASCII case folding.
use vstd::prelude::*;
use vstd::string::StringSliceAdditionalSpecFns;

verus! {

/// The byte `b` with ASCII upper-case letters mapped to lower case.
pub open spec fn ascii_lower(b: u8) -> u8 {
    if 65 <= b && b <= 90 {
        (b + 32) as u8
    } else {
        b
    }
}

/// A label with every byte case-folded.
pub open spec fn fold_label(l: Seq<u8>) -> Seq<u8> {
    l.map_values(|b: u8| ascii_lower(b))
}

/// `zone` is equal to `name` or one of its ancestors: its labels end `name`.
pub open spec fn is_zone_of(zone: Seq<Seq<u8>>, name: Seq<Seq<u8>>) -> bool {
    &&& zone.len() <= name.len()
    &&& name.subrange(name.len() - zone.len(), name.len() as int) == zone
}

/// The labels, as they were written, of the name that the UTF-8 text `s`
/// denotes, or `None` where `s` is no valid domain name.
pub uninterp spec fn labels_of_text(s: Seq<u8>) -> Option<Seq<Seq<u8>>>;

/// A domain name: its labels from the leaf to the top-level domain.
#[derive(Debug, Clone)]
pub struct Name {
    pub labels: Vec<Vec<u8>>,
}

impl View for Name {
    /// The case-folded labels: two names are the same name when their views
    /// are equal.
    type V = Seq<Seq<u8>>;

    open spec fn view(&self) -> Seq<Seq<u8>> {
        self.raw_labels().map_values(|l: Seq<u8>| fold_label(l))
    }
}

/// The text given was not a valid domain name.
#[derive(Debug, Clone, Copy, PartialEq, Eq)]
pub struct NameError;

/// Relies on `hickory_proto::rr::Name::from_str`: the labels of the parsed
/// name, or `None` where the text is no valid name (or no UTF-8).
#[verifier::external_body]
fn parse_labels(s: &[u8]) -> (r: Option<Vec<Vec<u8>>>)
    ensures
        match r {
            Some(v) => labels_of_text(s@) == Some(v@.map_values(|l: Vec<u8>| l@)),
            None => labels_of_text(s@) is None,
        },
{
    match std::str::from_utf8(s) {
        Ok(t) => t.parse::<hickory_proto::rr::Name>().ok().map(|n| n.iter().map(|l| l.to_vec()).collect()),
        Err(_) => None,
    }
}

/// The label `l` with every ASCII letter in lower case.
fn lower_label(l: &Vec<u8>) -> (r: Vec<u8>)
    ensures
        r@ == fold_label(l@),
{
    let mut r: Vec<u8> = Vec::new();
    let mut i: usize = 0;
    while i < l.len()
        invariant
            i <= l@.len(),
            r@ == fold_label(l@.subrange(0, i as int)),
        decreases l@.len() - i,
    {
        let b = l[i];
        let lb: u8 = if 65 <= b && b <= 90 { b + 32 } else { b };
        r.push(lb);
        i = i + 1;
        assert(fold_label(l@.subrange(0, i as int)) =~= fold_label(l@.subrange(0, i - 1)).push(
            ascii_lower(b),
        ));
    }
    assert(l@.subrange(0, l@.len() as int) =~= l@);
    r
}

/// Whether two labels are equal once case-folded.
fn labels_match(a: &Vec<u8>, b: &Vec<u8>) -> (r: bool)
    ensures
        r == (fold_label(a@) == fold_label(b@)),
{
    if a.len() != b.len() {
        assert(fold_label(a@).len() != fold_label(b@).len());
        return false;
    }
    let mut i: usize = 0;
    while i < a.len()
        invariant
            a@.len() == b@.len(),
            i <= a@.len(),
            forall|j: int| 0 <= j < i ==> ascii_lower(#[trigger] a@[j]) == ascii_lower(b@[j]),
        decreases a@.len() - i,
    {
        let x = a[i];
        let y = b[i];
        let lx: u8 = if 65 <= x && x <= 90 { x + 32 } else { x };
        let ly: u8 = if 65 <= y && y <= 90 { y + 32 } else { y };
        if lx != ly {
            assert(fold_label(a@)[i as int] != fold_label(b@)[i as int]);
            return false;
        }
        i = i + 1;
    }
    assert(fold_label(a@) =~= fold_label(b@));
    true
}

impl Name {
    /// The labels as they were written.
    pub open spec fn raw_labels(&self) -> Seq<Seq<u8>> {
        self.labels@.map_values(|l: Vec<u8>| l@)
    }

    /// Parses a domain name written in the usual dotted notation.
    pub fn parse(s: &str) -> (r: Result<Name, NameError>)
        ensures
            match r {
                Ok(n) => labels_of_text(s.spec_bytes()) == Some(n.raw_labels()),
                Err(_) => labels_of_text(s.spec_bytes()) is None,
            },
    {
        Name::parse_bytes(s.as_bytes())
    }

    /// Parses a domain name given as UTF-8 bytes.
    pub fn parse_bytes(s: &[u8]) -> (r: Result<Name, NameError>)
        ensures
            match r {
                Ok(n) => labels_of_text(s@) == Some(n.raw_labels()),
                Err(_) => labels_of_text(s@) is None,
            },
    {
        match parse_labels(s) {
            Some(labels) => {
                let n = Name { labels };
                assert(n.raw_labels() =~= labels@.map_values(|l: Vec<u8>| l@));
                Ok(n)
            },
            None => Err(NameError),
        }
    }

    /// The name with the given labels.
    pub fn from_labels(labels: Vec<Vec<u8>>) -> (r: Name)
        ensures
            r.labels@ == labels@,
    {
        Name { labels }
    }

    /// A copy of the name, with its labels as they were written.
    pub fn duplicate(&self) -> (r: Name)
        ensures
            r.raw_labels() == self.raw_labels(),
            r@ == self@,
    {
        let mut labels: Vec<Vec<u8>> = Vec::new();
        let mut i: usize = 0;
        while i < self.labels.len()
            invariant
                i <= self.labels@.len(),
                labels@.len() == i,
                forall|j: int| 0 <= j < i ==> #[trigger] labels@[j]@ == self.labels@[j]@,
            decreases self.labels@.len() - i,
        {
            let l = self.labels[i].clone();
            assert(l@ =~= self.labels@[i as int]@);
            labels.push(l);
            i = i + 1;
        }
        let r = Name { labels };
        assert(r.raw_labels() =~= self.raw_labels());
        assert(r@ =~= self@);
        r
    }

    /// The number of labels.
    pub fn num_labels(&self) -> (r: usize)
        ensures
            r == self@.len(),
    {
        self.labels.len()
    }

    /// Whether `self` and `other` are the same name, ignoring ASCII case.
    pub fn same(&self, other: &Name) -> (r: bool)
        ensures
            r == (self@ == other@),
    {
        let n = self.labels.len();
        if n != other.labels.len() {
            assert(self@.len() != other@.len());
            return false;
        }
        let mut i: usize = 0;
        while i < n
            invariant
                n == self.labels@.len(),
                n == other.labels@.len(),
                i <= n,
                forall|j: int| 0 <= j < i ==> #[trigger] self@[j] == other@[j],
            decreases n - i,
        {
            if !labels_match(&self.labels[i], &other.labels[i]) {
                assert(self@[i as int] != other@[i as int]);
                return false;
            }
            i = i + 1;
        }
        assert(self@ =~= other@);
        true
    }

    /// Whether `self` is the zone of `name`: equal to it or one of its
    /// ancestors.
    pub fn zone_of(&self, name: &Name) -> (r: bool)
        ensures
            r == is_zone_of(self@, name@),
    {
        let n = self.labels.len();
        let m = name.labels.len();
        if n > m {
            return false;
        }
        let off = m - n;
        let mut i: usize = 0;
        while i < n
            invariant
                n == self.labels@.len(),
                m == name.labels@.len(),
                off == m - n,
                i <= n,
                forall|j: int| 0 <= j < i ==> #[trigger] self@[j] == name@[off + j],
            decreases n - i,
        {
            if !labels_match(&self.labels[i], &name.labels[off + i]) {
                assert(name@.subrange(off as int, m as int)[i as int] != self@[i as int]);
                return false;
            }
            i = i + 1;
        }
        assert(name@.subrange(off as int, m as int) =~= self@);
        true
    }

    /// The parent of the name: every label but the first. The root stays the
    /// root.
    pub fn base_name(&self) -> (r: Name)
        ensures
            self@.len() == 0 ==> r@.len() == 0,
            self@.len() > 0 ==> r@ == self@.drop_first(),
    {
        let mut labels: Vec<Vec<u8>> = Vec::new();
        if self.labels.len() == 0 {
            return Name { labels };
        }
        let mut i: usize = 1;
        while i < self.labels.len()
            invariant
                1 <= i <= self.labels@.len(),
                labels@.len() == i - 1,
                forall|j: int| 0 <= j < labels@.len() ==> #[trigger] labels@[j]@ == self.labels@[j + 1]@,
            decreases self.labels@.len() - i,
        {
            labels.push(self.labels[i].clone());
            i = i + 1;
        }
        let r = Name { labels };
        assert(r@ =~= self@.drop_first());
        r
    }
}

impl PartialEq for Name {
    fn eq(&self, other: &Name) -> (r: bool) {
        self.same(other)
    }
}

impl vstd::std_specs::cmp::PartialEqSpecImpl for Name {
    open spec fn obeys_eq_spec() -> bool {
        true
    }

    open spec fn eq_spec(&self, other: &Name) -> bool {
        self@ == other@
    }
}

impl Eq for Name {
}

} // verus!
