//! Splitting text at separators, and the text forms of record data and of
//! record type lists.
use vstd::prelude::*;

use vstd::string::StringSliceAdditionalSpecFns;

use crate::record::{RecordKind, RsDataParseError};

verus! {

/// The parts joined again, with `sep` between each two.
pub open spec fn join_bytes(parts: Seq<Seq<u8>>, sep: u8) -> Seq<u8>
    decreases parts.len(),
{
    if parts.len() == 0 {
        Seq::<u8>::empty()
    } else if parts.len() == 1 {
        parts[0]
    } else {
        join_bytes(parts.drop_last(), sep).push(sep) + parts.last()
    }
}

/// `parts` are the pieces of `s` between occurrences of `sep`: joined with
/// `sep` they give `s`, and none holds `sep`. There is at least one part.
pub open spec fn is_split(parts: Seq<Seq<u8>>, s: Seq<u8>, sep: u8) -> bool {
    &&& parts.len() >= 1
    &&& join_bytes(parts, sep) == s
    &&& forall|i: int| 0 <= i < parts.len() ==> !(#[trigger] parts[i]).contains(sep)
}

/// Appending a byte other than the separator to the last part appends it to
/// the joined text.
proof fn lemma_join_extend_last(parts: Seq<Seq<u8>>, cur: Seq<u8>, b: u8, sep: u8)
    ensures
        join_bytes(parts.push(cur.push(b)), sep) == join_bytes(parts.push(cur), sep).push(b),
{
    let grown = parts.push(cur.push(b));
    let before = parts.push(cur);
    assert(grown.drop_last() =~= parts);
    assert(before.drop_last() =~= parts);
    if parts.len() == 0 {
        assert(grown[0] == cur.push(b));
        assert(before[0] == cur);
    } else {
        assert(join_bytes(parts, sep).push(sep) + cur.push(b) =~= (join_bytes(parts, sep).push(sep) + cur).push(b));
    }
}

/// Starting a new, empty part appends the separator to the joined text.
proof fn lemma_join_new_part(parts: Seq<Seq<u8>>, sep: u8)
    requires
        parts.len() >= 1,
    ensures
        join_bytes(parts.push(Seq::<u8>::empty()), sep) == join_bytes(parts, sep).push(sep),
{
    let p = parts.push(Seq::<u8>::empty());
    assert(p.drop_last() =~= parts);
    assert(join_bytes(parts, sep).push(sep) + Seq::<u8>::empty() =~= join_bytes(parts, sep).push(sep));
}

/// Appends a part to a list of parts.
fn push_part(parts: &mut Vec<Vec<u8>>, cur: Vec<u8>)
    ensures
        final(parts)@ == old(parts)@.push(cur),
        final(parts)@.map_values(|p: Vec<u8>| p@) == old(parts)@.map_values(|p: Vec<u8>| p@).push(cur@),
{
    parts.push(cur);
    assert(parts@.map_values(|p: Vec<u8>| p@) =~= old(parts)@.map_values(|p: Vec<u8>| p@).push(cur@));
}

/// A text has exactly one split at a separator: the parts that
/// `is_split` describes are unique.
pub proof fn lemma_split_unique(a: Seq<Seq<u8>>, b: Seq<Seq<u8>>, s: Seq<u8>, sep: u8)
    requires
        is_split(a, s, sep),
        is_split(b, s, sep),
    ensures
        a == b,
    decreases a.len(),
{
    if a.len() == 1 && b.len() == 1 {
        assert(a =~= b);
    } else if a.len() == 1 {
        let jb = join_bytes(b.drop_last(), sep);
        assert(s == jb.push(sep) + b.last());
        assert(s[jb.len() as int] == sep);
        assert(a[0].contains(sep));
    } else if b.len() == 1 {
        let ja = join_bytes(a.drop_last(), sep);
        assert(s == ja.push(sep) + a.last());
        assert(s[ja.len() as int] == sep);
        assert(b[0].contains(sep));
    } else {
        let ja = join_bytes(a.drop_last(), sep);
        let jb = join_bytes(b.drop_last(), sep);
        let la = a.last();
        let lb = b.last();
        assert(s == ja.push(sep) + la);
        assert(s == jb.push(sep) + lb);
        assert(!la.contains(sep)) by {
            assert(a[a.len() - 1] == la);
        }
        assert(!lb.contains(sep)) by {
            assert(b[b.len() - 1] == lb);
        }
        if la.len() < lb.len() {
            let k = ja.len() as int;
            assert(s[k] == sep);
            assert(lb[k - jb.len() - 1] == sep);
        } else if lb.len() < la.len() {
            let k = jb.len() as int;
            assert(s[k] == sep);
            assert(la[k - ja.len() - 1] == sep);
        }
        assert(la =~= s.subrange(s.len() - la.len(), s.len() as int));
        assert(lb =~= s.subrange(s.len() - lb.len(), s.len() as int));
        assert(ja =~= s.subrange(0, ja.len() as int));
        assert(jb =~= s.subrange(0, jb.len() as int));
        let ia = a.drop_last();
        let ib = b.drop_last();
        assert forall|i: int| 0 <= i < ia.len() implies !(#[trigger] ia[i]).contains(sep) by {
            assert(ia[i] == a[i]);
        }
        assert forall|i: int| 0 <= i < ib.len() implies !(#[trigger] ib[i]).contains(sep) by {
            assert(ib[i] == b[i]);
        }
        lemma_split_unique(ia, ib, ja, sep);
        assert(a =~= ia.push(la));
        assert(b =~= ib.push(lb));
    }
}

/// Splits `s` at every occurrence of `sep`.
pub fn split_bytes(s: &[u8], sep: u8) -> (r: Vec<Vec<u8>>)
    ensures
        is_split(r@.map_values(|p: Vec<u8>| p@), s@, sep),
{
    let mut parts: Vec<Vec<u8>> = Vec::new();
    let mut cur: Vec<u8> = Vec::new();
    let mut i: usize = 0;
    while i < s.len()
        invariant
            i <= s@.len(),
            join_bytes(parts@.map_values(|p: Vec<u8>| p@).push(cur@), sep) == s@.subrange(0, i as int),
            forall|j: int| 0 <= j < parts@.len() ==> !(#[trigger] parts@[j])@.contains(sep),
            !cur@.contains(sep),
        decreases s@.len() - i,
    {
        let b = s[i];
        let ghost pv = parts@.map_values(|p: Vec<u8>| p@);
        if b == sep {
            proof {
                lemma_join_new_part(pv.push(cur@), sep);
            }
            push_part(&mut parts, cur);
            cur = Vec::new();
            assert(cur@ =~= Seq::<u8>::empty());
        } else {
            proof {
                lemma_join_extend_last(pv, cur@, b, sep);
            }
            cur.push(b);
            assert(!cur@.contains(sep)) by {
                if cur@.contains(sep) {
                    let k = choose|k: int| 0 <= k < cur@.len() && cur@[k] == sep;
                    assert(cur@.drop_last()[k] == sep);
                }
            }
        }
        assert(s@.subrange(0, i + 1) =~= s@.subrange(0, i as int).push(b));
        i = i + 1;
    }
    push_part(&mut parts, cur);
    assert(s@.subrange(0, s@.len() as int) =~= s@);
    let ghost pv = parts@.map_values(|p: Vec<u8>| p@);
    assert forall|j: int| 0 <= j < pv.len() implies !(#[trigger] pv[j]).contains(sep) by {
        assert(pv[j] == parts@[j]@);
    }
    parts
}

/// Splits `s` at the first occurrence of `sep`, if there is one: the part
/// before it, which does not hold `sep`, and the rest after it.
pub fn split_first(s: &[u8], sep: u8) -> (r: Option<(Vec<u8>, Vec<u8>)>)
    ensures
        r is None ==> !s@.contains(sep),
        r matches Some((a, b)) ==> !a@.contains(sep) && s@ == a@.push(sep) + b@,
{
    let mut i: usize = 0;
    while i < s.len()
        invariant
            i <= s@.len(),
            forall|j: int| 0 <= j < i ==> s@[j] != sep,
        decreases s@.len() - i,
    {
        if s[i] == sep {
            let mut a: Vec<u8> = Vec::new();
            let mut j: usize = 0;
            while j < i
                invariant
                    j <= i < s@.len(),
                    a@ == s@.subrange(0, j as int),
                decreases i - j,
            {
                a.push(s[j]);
                j = j + 1;
                assert(a@ =~= s@.subrange(0, j as int));
            }
            let mut b: Vec<u8> = Vec::new();
            let mut k: usize = i + 1;
            while k < s.len()
                invariant
                    i < k <= s@.len(),
                    b@ == s@.subrange(i + 1, k as int),
                decreases s@.len() - k,
            {
                b.push(s[k]);
                k = k + 1;
                assert(b@ =~= s@.subrange(i + 1, k as int));
            }
            assert(s@ =~= a@.push(sep) + b@);
            return Some((a, b));
        }
        i = i + 1;
    }
    None
}

/// The byte `b` with ASCII lower-case letters mapped to upper case.
pub open spec fn ascii_upper(b: u8) -> u8 {
    if 97 <= b && b <= 122 {
        (b - 32) as u8
    } else {
        b
    }
}

/// The text with every ASCII letter in upper case.
pub open spec fn upper_bytes(s: Seq<u8>) -> Seq<u8> {
    s.map_values(|b: u8| ascii_upper(b))
}

/// The text `s` with every ASCII letter in upper case.
pub fn to_upper_bytes(s: &[u8]) -> (r: Vec<u8>)
    ensures
        r@ == upper_bytes(s@),
{
    let mut r: Vec<u8> = Vec::new();
    let mut i: usize = 0;
    while i < s.len()
        invariant
            i <= s@.len(),
            r@ == upper_bytes(s@.subrange(0, i as int)),
        decreases s@.len() - i,
    {
        let b = s[i];
        let u: u8 = if 97 <= b && b <= 122 { b - 32 } else { b };
        r.push(u);
        i = i + 1;
        assert(upper_bytes(s@.subrange(0, i as int)) =~= upper_bytes(s@.subrange(0, i - 1)).push(ascii_upper(b)));
    }
    assert(s@.subrange(0, s@.len() as int) =~= s@);
    r
}

/// The record kind a type tag names, ignoring ASCII case: `TXT`, `A` or
/// `AAAA`.
pub open spec fn kind_of_tag(tag: Seq<u8>) -> Option<RecordKind> {
    let u = upper_bytes(tag);
    if u == seq![84u8, 88u8, 84u8] {
        Some(RecordKind::TXT)
    } else if u == seq![65u8] {
        Some(RecordKind::A)
    } else if u == seq![65u8, 65u8, 65u8, 65u8] {
        Some(RecordKind::AAAA)
    } else {
        None
    }
}

/// The record kind a type tag names, ignoring ASCII case.
pub fn parse_kind_tag(tag: &[u8]) -> (r: Option<RecordKind>)
    ensures
        r == kind_of_tag(tag@),
{
    let u = to_upper_bytes(tag);
    let n = u.len();
    if n == 3 && u[0] == 84 && u[1] == 88 && u[2] == 84 {
        assert(u@ =~= seq![84u8, 88u8, 84u8]);
        Some(RecordKind::TXT)
    } else if n == 1 && u[0] == 65 {
        assert(u@ =~= seq![65u8]);
        Some(RecordKind::A)
    } else if n == 4 && u[0] == 65 && u[1] == 65 && u[2] == 65 && u[3] == 65 {
        assert(u@ =~= seq![65u8, 65u8, 65u8, 65u8]);
        Some(RecordKind::AAAA)
    } else {
        assert(u@ != seq![84u8, 88u8, 84u8] && u@ != seq![65u8] && u@ != seq![65u8, 65u8, 65u8, 65u8]) by {
            if u@ == seq![84u8, 88u8, 84u8] {
                assert(u@[0] == 84 && u@[1] == 88 && u@[2] == 84);
            }
            if u@ == seq![65u8, 65u8, 65u8, 65u8] {
                assert(u@[0] == 65 && u@[1] == 65 && u@[2] == 65 && u@[3] == 65);
            }
            if u@ == seq![65u8] {
                assert(u@[0] == 65);
            }
        }
        None
    }
}

/// The record type code that the text names, or `None` where it names no
/// record type.
pub uninterp spec fn record_type_of_text(b: Seq<u8>) -> Option<u16>;

/// Relies on `hickory_proto::rr::RecordType::from_str`: the code of the
/// record type the text names, or `None` where it names none; its table
/// maps `A`, `AAAA`, `TXT` and `ANY` to 1, 28, 16 and 255. That function
/// asserts in debug builds that the text holds no lower-case ASCII letter.
#[verifier::external_body]
fn record_type_code(b: &[u8]) -> (r: Option<u16>)
    requires
        forall|i: int| 0 <= i < b@.len() ==> !(97 <= #[trigger] b@[i] && b@[i] <= 122),
    ensures
        r == record_type_of_text(b@),
        b@ == seq![65u8] ==> r == Some(1u16),
        b@ == seq![65u8, 65u8, 65u8, 65u8] ==> r == Some(28u16),
        b@ == seq![84u8, 88u8, 84u8] ==> r == Some(16u16),
        b@ == seq![65u8, 78u8, 89u8] ==> r == Some(255u16),
{
    match std::str::from_utf8(b) {
        Ok(s) => s.parse::<hickory_proto::rr::RecordType>().ok().map(u16::from),
        Err(_) => None,
    }
}

/// A record type in a list was not recognised.
#[derive(Debug, Clone, Copy, PartialEq, Eq, Structural)]
pub enum ParseRecordTypeError {
    UnknownType,
}

/// Upper-casing leaves no lower-case ASCII letter.
proof fn lemma_upper_has_no_lower(s: Seq<u8>)
    ensures
        forall|i: int| 0 <= i < upper_bytes(s).len() ==> !(97 <= #[trigger] upper_bytes(s)[i] && upper_bytes(s)[i] <= 122),
{
}

/// Parses a comma-separated list of record types, such as `a,aaaa,txt`,
/// ignoring ASCII case.
pub fn parse_comma_separated(s: &str) -> (r: Result<Vec<u16>, ParseRecordTypeError>)
    ensures
        exists|parts: Seq<Seq<u8>>|
            #![trigger is_split(parts, upper_bytes(s.spec_bytes()), 44u8)]
            is_split(parts, upper_bytes(s.spec_bytes()), 44u8) && match r {
                Ok(v) => v@.len() == parts.len() && forall|i: int|
                    0 <= i < parts.len() ==> record_type_of_text(#[trigger] parts[i]) == Some(v@[i]),
                Err(_) => exists|i: int| 0 <= i < parts.len() && (#[trigger] record_type_of_text(parts[i])) is None,
            },
{
    let u = to_upper_bytes(s.as_bytes());
    let parts = split_bytes(u.as_slice(), 44);
    let ghost pv = parts@.map_values(|p: Vec<u8>| p@);
    let mut out: Vec<u16> = Vec::new();
    let mut i: usize = 0;
    while i < parts.len()
        invariant
            i <= parts@.len(),
            pv == parts@.map_values(|p: Vec<u8>| p@),
            is_split(pv, upper_bytes(s.spec_bytes()), 44u8),
            out@.len() == i,
            forall|j: int| 0 <= j < i ==> record_type_of_text(#[trigger] pv[j]) == Some(out@[j]),
        decreases parts@.len() - i,
    {
        proof {
            lemma_upper_has_no_lower(s.spec_bytes());
            lemma_split_parts_within(pv, upper_bytes(s.spec_bytes()), 44u8, i as int);
        }
        assert(pv[i as int] == parts@[i as int]@);
        let ghost u_all = upper_bytes(s.spec_bytes());
        assert forall|k: int| 0 <= k < parts@[i as int]@.len() implies !(97 <= #[trigger] parts@[i as int]@[k]
            && parts@[i as int]@[k] <= 122) by {
            let x = parts@[i as int]@[k];
            assert(pv[i as int].contains(x));
            assert(u_all.contains(x));
            let m = choose|m: int| 0 <= m < u_all.len() && u_all[m] == x;
            assert(!(97 <= u_all[m] && u_all[m] <= 122));
        }
        match record_type_code(parts[i].as_slice()) {
            Some(t) => out.push(t),
            None => {
                return Err(ParseRecordTypeError::UnknownType);
            },
        }
        i = i + 1;
    }
    Ok(out)
}

/// Every byte of a part of a split text is a byte of the text.
proof fn lemma_split_parts_within(parts: Seq<Seq<u8>>, s: Seq<u8>, sep: u8, i: int)
    requires
        join_bytes(parts, sep) == s,
        0 <= i < parts.len(),
    ensures
        forall|b: u8| #[trigger] parts[i].contains(b) ==> s.contains(b),
    decreases parts.len(),
{
    if parts.len() == 1 {
    } else {
        let init = parts.drop_last();
        let j = join_bytes(init, sep);
        assert(s == j.push(sep) + parts.last());
        if i < parts.len() - 1 {
            lemma_split_parts_within(init, j, sep, i);
            assert forall|b: u8| #[trigger] parts[i].contains(b) implies s.contains(b) by {
                assert(init[i] == parts[i]);
                let k = choose|k: int| 0 <= k < j.len() && j[k] == b;
                assert(s[k] == b);
            }
        } else {
            assert forall|b: u8| #[trigger] parts[i].contains(b) implies s.contains(b) by {
                let k = choose|k: int| 0 <= k < parts[i].len() && parts[i][k] == b;
                assert(s[j.len() + 1 + k] == b);
            }
        }
    }
}

/// The pieces of the text form `KIND` or `KIND:VALUE,VALUE,...` of record
/// data: the kind, named ignoring ASCII case, and the value texts. A bare
/// kind has no values.
pub fn parse_rs_data_text(s: &str) -> (r: Result<(RecordKind, Vec<Vec<u8>>), RsDataParseError>)
    ensures
        !s.spec_bytes().contains(58u8) ==> match kind_of_tag(s.spec_bytes()) {
            Some(k) => r matches Ok((k2, v)) && k2 == k && v@.len() == 0,
            None => r == Err::<(RecordKind, Vec<Vec<u8>>), RsDataParseError>(RsDataParseError::UnknownType),
        },
        s.spec_bytes().contains(58u8) ==> exists|tag: Seq<u8>, rest: Seq<u8>|
            #![trigger tag.push(58u8) + rest]
            !tag.contains(58u8) && s.spec_bytes() == tag.push(58u8) + rest && match kind_of_tag(tag) {
                Some(k) => r matches Ok((k2, v)) && k2 == k && is_split(v@.map_values(|p: Vec<u8>| p@), rest, 44u8),
                None => r == Err::<(RecordKind, Vec<Vec<u8>>), RsDataParseError>(RsDataParseError::UnknownType),
            },
{
    let b = s.as_bytes();
    match split_first(b, 58) {
        None => {
            match parse_kind_tag(b) {
                Some(k) => Ok((k, Vec::new())),
                None => Err(RsDataParseError::UnknownType),
            }
        },
        Some((tag, rest)) => {
            assert(b@.contains(58u8)) by {
                assert(b@[tag@.len() as int] == 58u8);
            }
            match parse_kind_tag(tag.as_slice()) {
                Some(k) => Ok((k, split_bytes(rest.as_slice(), 44))),
                None => Err(RsDataParseError::UnknownType),
            }
        },
    }
}

} // verus!
