//! The choices a caller makes, as plain values: which change to make, what
//! to expect afterwards, and the key to sign with.
use vstd::prelude::*;
use vstd::string::StringSliceAdditionalSpecFns;

use crate::name::{labels_of_text, Name};
use crate::record::{RecordSet, RecordSetView, RsData, CLASS_IN};
use crate::text::{is_split, split_bytes};
use crate::update::{Expectation, Operation, TsigKey};

verus! {

/// The record set of `entry` with the values `d`, of the Internet class.
pub open spec fn set_of(entry: Name, d: RsData) -> RecordSetView {
    RecordSetView { name: entry@, dns_class: CLASS_IN, kind: d.kind, values: d.value_set() }
}

/// Why the choices do not describe a change.
#[derive(Debug, Clone, Copy, PartialEq, Eq, Structural)]
pub enum OptionsError {
    /// More than one of create, delete and append was chosen.
    ConflictingOperations,
    /// The change needs record data and none was given.
    MissingRsData,
}

/// The change chosen by the flags `create`, `delete` and `append`, of which
/// at most one may be set: creation or appending of the given data, deletion
/// of the given data or, with none given, of every record of the entry.
pub fn select_operation(create: bool, delete: bool, append: bool, entry: &Name, rs_data: Option<RsData>) -> (r:
    Result<Option<Operation>, OptionsError>)
    ensures
        !create && !delete && !append ==> r matches Ok(None),
        (create && delete) || (create && append) || (delete && append) ==> r == Err::<
            Option<Operation>,
            OptionsError,
        >(OptionsError::ConflictingOperations),
        create && !delete && !append ==> match rs_data {
            Some(d) => r matches Ok(Some(Operation::Create(rs))) && rs@ == set_of(*entry, d) && rs.wf() == d.wf(),
            None => r == Err::<Option<Operation>, OptionsError>(OptionsError::MissingRsData),
        },
        append && !create && !delete ==> match rs_data {
            Some(d) => r matches Ok(Some(Operation::Append(rs, false))) && rs@ == set_of(*entry, d) && rs.wf()
                == d.wf(),
            None => r == Err::<Option<Operation>, OptionsError>(OptionsError::MissingRsData),
        },
        delete && !create && !append ==> match rs_data {
            Some(d) => r matches Ok(Some(Operation::Delete(rs))) && rs@ == set_of(*entry, d) && rs.wf() == d.wf(),
            None => r matches Ok(Some(Operation::DeleteAll(n))) && n@ == entry@,
        },
{
    let count: u8 = (if create { 1u8 } else { 0u8 }) + (if delete { 1u8 } else { 0u8 }) + (if append { 1u8 } else { 0u8 });
    if count == 0 {
        return Ok(None);
    }
    if count > 1 {
        return Err(OptionsError::ConflictingOperations);
    }
    if delete {
        return match rs_data {
            Some(d) => Ok(Some(Operation::Delete(RecordSet::new(entry.duplicate(), d)))),
            None => Ok(Some(Operation::DeleteAll(entry.duplicate()))),
        };
    }
    match rs_data {
        Some(d) => {
            let rs = RecordSet::new(entry.duplicate(), d);
            if create {
                Ok(Some(Operation::Create(rs)))
            } else {
                Ok(Some(Operation::Append(rs, false)))
            }
        },
        None => Err(OptionsError::MissingRsData),
    }
}

/// What to expect once the chosen change has propagated; with no change
/// chosen, the given data itself.
pub fn monitor_expectation(op: Option<Operation>, entry: &Name, rs_data: Option<RsData>) -> (r: Result<
    Expectation,
    OptionsError,
>)
    ensures
        match op {
            Some(o) => r == Ok::<Expectation, OptionsError>(crate::update::expectation_for(o)),
            None => match rs_data {
                Some(d) => r matches Ok(Expectation::Is(rs)) && rs@ == set_of(*entry, d) && rs.wf() == d.wf(),
                None => r == Err::<Expectation, OptionsError>(OptionsError::MissingRsData),
            },
        },
{
    match op {
        Some(o) => Ok(Expectation::for_operation(o)),
        None => match rs_data {
            Some(d) => Ok(Expectation::Is(RecordSet::new(entry.duplicate(), d))),
            None => Err(OptionsError::MissingRsData),
        },
    }
}

/// The bytes that the standard, padded base64 text `s` encodes, or `None`
/// where `s` is no such text.
pub uninterp spec fn base64_decoded(s: Seq<u8>) -> Option<Seq<u8>>;

/// Relies on `data_encoding::BASE64.decode`: the bytes the base64 text
/// encodes, or `None` where it is not valid base64. That function asserts
/// that the input is at most an eighth of the address space long.
#[verifier::external_body]
fn decode_base64(s: &[u8]) -> (r: Option<Vec<u8>>)
    requires
        s@.len() <= usize::MAX / 8,
    ensures
        match r {
            Some(v) => base64_decoded(s@) == Some(v@),
            None => base64_decoded(s@) is None,
        },
{
    data_encoding::BASE64.decode(s).ok()
}

/// A key given as `NAME` alone, to be looked up elsewhere, or in full as
/// `NAME:ALGORITHM:BASE64-SECRET`.
#[derive(Debug, Clone)]
pub enum KeySpec {
    Named(Name),
    Full(TsigKey),
}

/// Why a key text was refused.
#[derive(Debug, Clone, Copy, PartialEq, Eq, Structural)]
pub enum KeyError {
    /// Neither one nor three colon-separated parts; the number found.
    Parts(usize),
    /// The key's name is no valid domain name.
    Name,
    /// The algorithm's name is no valid domain name.
    Algorithm,
    /// The secret is no valid base64.
    Secret,
}

/// Parses a key given as `NAME` or `NAME:ALGORITHM:BASE64-SECRET`.
pub fn parse_key_spec(s: &str) -> (r: Result<KeySpec, KeyError>)
    requires
        s.spec_bytes().len() <= usize::MAX / 8,
    ensures
        exists|parts: Seq<Seq<u8>>|
            #![trigger is_split(parts, s.spec_bytes(), 58u8)]
            is_split(parts, s.spec_bytes(), 58u8) && (if parts.len() == 1 {
                match labels_of_text(parts[0]) {
                    Some(l) => r matches Ok(KeySpec::Named(n)) && n.raw_labels() == l,
                    None => r == Err::<KeySpec, KeyError>(KeyError::Name),
                }
            } else if parts.len() == 3 {
                match (labels_of_text(parts[0]), labels_of_text(parts[1]), base64_decoded(parts[2])) {
                    (Some(a), Some(b), Some(c)) => r matches Ok(KeySpec::Full(k)) && k.name.raw_labels() == a
                        && k.algorithm.raw_labels() == b && k.secret@ == c,
                    (None, _, _) => r == Err::<KeySpec, KeyError>(KeyError::Name),
                    (Some(_), None, _) => r == Err::<KeySpec, KeyError>(KeyError::Algorithm),
                    (Some(_), Some(_), None) => r == Err::<KeySpec, KeyError>(KeyError::Secret),
                }
            } else {
                r == Err::<KeySpec, KeyError>(KeyError::Parts(parts.len() as usize))
            }),
{
    let parts = split_bytes(s.as_bytes(), 58);
    let ghost pv = parts@.map_values(|p: Vec<u8>| p@);
    if parts.len() == 1 {
        assert(pv[0] == parts@[0]@);
        return match Name::parse_bytes(parts[0].as_slice()) {
            Ok(n) => Ok(KeySpec::Named(n)),
            Err(_) => Err(KeyError::Name),
        };
    }
    if parts.len() != 3 {
        return Err(KeyError::Parts(parts.len()));
    }
    assert(pv[0] == parts@[0]@ && pv[1] == parts@[1]@ && pv[2] == parts@[2]@);
    let name = match Name::parse_bytes(parts[0].as_slice()) {
        Ok(n) => n,
        Err(_) => {
            return Err(KeyError::Name);
        },
    };
    let algorithm = match Name::parse_bytes(parts[1].as_slice()) {
        Ok(n) => n,
        Err(_) => {
            return Err(KeyError::Algorithm);
        },
    };
    proof {
        lemma_part_no_longer(pv, s.spec_bytes(), 2);
    }
    let secret = match decode_base64(parts[2].as_slice()) {
        Some(v) => v,
        None => {
            return Err(KeyError::Secret);
        },
    };
    Ok(KeySpec::Full(TsigKey { name, algorithm, secret }))
}

/// No part of a split text is longer than the text.
proof fn lemma_part_no_longer(parts: Seq<Seq<u8>>, s: Seq<u8>, i: int)
    requires
        crate::text::join_bytes(parts, 58u8) == s,
        0 <= i < parts.len(),
    ensures
        parts[i].len() <= s.len(),
    decreases parts.len(),
{
    if parts.len() > 1 {
        let init = parts.drop_last();
        if i < parts.len() - 1 {
            lemma_part_no_longer(init, crate::text::join_bytes(init, 58u8), i);
        }
    }
}

} // verus!
