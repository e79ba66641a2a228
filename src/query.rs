//! Plain queries: which record types to ask for and how to show answers.
use vstd::prelude::*;
use vstd::string::StringSliceAdditionalSpecFns;

use crate::name::Name;
use crate::record::{TYPE_A, TYPE_AAAA, TYPE_ANY};

verus! {

/// The format name was neither `short` nor `zone`.
#[derive(Debug, Clone, Copy, PartialEq, Eq, Structural)]
pub enum ParseDisplayFormatError {
    UnknownFormat,
}

/// How answers are shown: the data alone, or whole records in zone-file
/// form.
#[derive(Debug, Clone, Copy, PartialEq, Eq, Structural)]
pub enum DisplayFormat {
    Short,
    Zone,
}

impl DisplayFormat {
    /// Parses `short` or `zone`.
    pub fn parse(s: &str) -> (r: Result<DisplayFormat, ParseDisplayFormatError>)
        ensures
            s.spec_bytes() == seq![115u8, 104u8, 111u8, 114u8, 116u8] ==> r == Ok::<
                DisplayFormat,
                ParseDisplayFormatError,
            >(DisplayFormat::Short),
            s.spec_bytes() == seq![122u8, 111u8, 110u8, 101u8] ==> r == Ok::<DisplayFormat, ParseDisplayFormatError>(
                DisplayFormat::Zone,
            ),
            s.spec_bytes() != seq![115u8, 104u8, 111u8, 114u8, 116u8] && s.spec_bytes() != seq![
                122u8,
                111u8,
                110u8,
                101u8,
            ] ==> r == Err::<DisplayFormat, ParseDisplayFormatError>(ParseDisplayFormatError::UnknownFormat),
    {
        let b = s.as_bytes();
        if b.len() == 5 && b[0] == 115 && b[1] == 104 && b[2] == 111 && b[3] == 114 && b[4] == 116 {
            assert(b@ =~= seq![115u8, 104u8, 111u8, 114u8, 116u8]);
            return Ok(DisplayFormat::Short);
        }
        if b.len() == 4 && b[0] == 122 && b[1] == 111 && b[2] == 110 && b[3] == 101 {
            assert(b@ =~= seq![122u8, 111u8, 110u8, 101u8]);
            return Ok(DisplayFormat::Zone);
        }
        assert(b@ != seq![115u8, 104u8, 111u8, 114u8, 116u8]) by {
            if b@ == seq![115u8, 104u8, 111u8, 114u8, 116u8] {
                assert(b@[0] == 115 && b@[1] == 104 && b@[2] == 111 && b@[3] == 114 && b@[4] == 116);
            }
        }
        assert(b@ != seq![122u8, 111u8, 110u8, 101u8]) by {
            if b@ == seq![122u8, 111u8, 110u8, 101u8] {
                assert(b@[0] == 122 && b@[1] == 111 && b@[2] == 110 && b@[3] == 101);
            }
        }
        Err(ParseDisplayFormatError::UnknownFormat)
    }
}

/// The format chosen when none is given: the short one for a single type
/// other than ANY, or for address types only; else zone-file form.
pub open spec fn default_format(types: Seq<u16>) -> DisplayFormat {
    if (types.len() == 1 && types[0] != TYPE_ANY) || (forall|i: int|
        0 <= i < types.len() ==> #[trigger] types[i] == TYPE_A || types[i] == TYPE_AAAA) {
        DisplayFormat::Short
    } else {
        DisplayFormat::Zone
    }
}

/// The format given, or else the default for the queried types.
pub fn get_display_format(display_format: Option<DisplayFormat>, query_types: &[u16]) -> (r: DisplayFormat)
    ensures
        r == match display_format {
            Some(f) => f,
            None => default_format(query_types@),
        },
{
    match display_format {
        Some(f) => f,
        None => {
            if query_types.len() == 1 && query_types[0] != TYPE_ANY {
                return DisplayFormat::Short;
            }
            let mut i: usize = 0;
            while i < query_types.len()
                invariant
                    i <= query_types@.len(),
                    display_format is None,
                    !(query_types@.len() == 1 && query_types@[0] != TYPE_ANY),
                    forall|j: int| 0 <= j < i ==> #[trigger] query_types@[j] == TYPE_A || query_types@[j] == TYPE_AAAA,
                decreases query_types@.len() - i,
            {
                let t = query_types[i];
                if t != TYPE_A && t != TYPE_AAAA {
                    assert(!(query_types@[i as int] == TYPE_A || query_types@[i as int] == TYPE_AAAA));
                    return DisplayFormat::Zone;
                }
                i = i + 1;
            }
            DisplayFormat::Short
        },
    }
}

/// A query: the entry, the record types to ask for, and how to show the
/// answers.
#[derive(Debug, Clone)]
pub struct Query {
    pub entry: Name,
    pub record_types: Vec<u16>,
    pub display_format: DisplayFormat,
}

impl Query {
    /// A query of the given types, or of A records alone where none are
    /// given, shown in the given format or else the default for the types.
    pub fn new(entry: Name, record_types: Option<Vec<u16>>, display_format: Option<DisplayFormat>) -> (r: Query)
        ensures
            r.entry == entry,
            r.record_types@ == match record_types {
                Some(t) => t@,
                None => seq![TYPE_A],
            },
            r.display_format == match display_format {
                Some(f) => f,
                None => default_format(r.record_types@),
            },
    {
        let types = match record_types {
            Some(t) => t,
            None => {
                let mut v: Vec<u16> = Vec::new();
                v.push(TYPE_A);
                assert(v@ =~= seq![TYPE_A]);
                v
            },
        };
        let display_format = get_display_format(display_format, types.as_slice());
        Query { entry, record_types: types, display_format }
    }
}

} // verus!
