//! The makes of tracking units known to the database.
use vstd::prelude::*;

use crate::text::{spec_trim, str_eq, trim};

verus! {

/// The manufacturer of a unit.
#[derive(Debug, Clone, Copy, PartialEq, Eq, Structural)]
pub enum UnitMake {
    Teltonika,
    Ruptela,
}

impl UnitMake {
    /// The make that a subject segment or database value names.
    pub open spec fn spec_from_name(s: Seq<char>) -> Option<UnitMake> {
        if s == "TELTONIKA"@ {
            Some(UnitMake::Teltonika)
        } else if s == "RUPTELA"@ {
            Some(UnitMake::Ruptela)
        } else {
            None
        }
    }

    /// The upper-case name of the make.
    pub open spec fn spec_name(self) -> Seq<char> {
        match self {
            UnitMake::Teltonika => "TELTONIKA"@,
            UnitMake::Ruptela => "RUPTELA"@,
        }
    }

    /// The make named by a database `make` column.
    pub fn from_db(s: &str) -> (r: Option<Self>)
        ensures
            r == Self::spec_from_name(s@),
    {
        Self::from_subject_segment(s)
    }

    /// The make named by a subject segment (upper case only).
    pub fn from_subject_segment(s: &str) -> (r: Option<Self>)
        ensures
            r == Self::spec_from_name(s@),
    {
        if str_eq(s, "TELTONIKA") {
            Some(UnitMake::Teltonika)
        } else if str_eq(s, "RUPTELA") {
            Some(UnitMake::Ruptela)
        } else {
            None
        }
    }

    /// The subject segment of the make, in upper case.
    pub fn as_subject_segment(self) -> (s: &'static str)
        ensures
            s@ == self.spec_name(),
    {
        match self {
            UnitMake::Teltonika => "TELTONIKA",
            UnitMake::Ruptela => "RUPTELA",
        }
    }

    /// The name that `{:?}` prints for the make.
    pub open spec fn spec_debug_name(self) -> Seq<char> {
        match self {
            UnitMake::Teltonika => "Teltonika"@,
            UnitMake::Ruptela => "Ruptela"@,
        }
    }

    /// The name that `{:?}` prints for the make.
    pub fn debug_name(self) -> (s: &'static str)
        ensures
            s@ == self.spec_debug_name(),
    {
        match self {
            UnitMake::Teltonika => "Teltonika",
            UnitMake::Ruptela => "Ruptela",
        }
    }
}

/// Reading the segment of a make gives the make back.
pub proof fn lemma_subject_segment_roundtrip(make: UnitMake)
    ensures
        UnitMake::spec_from_name(make.spec_name()) == Some(make),
{
    reveal_strlit("TELTONIKA");
    reveal_strlit("RUPTELA");
    assert("TELTONIKA"@ != "RUPTELA"@) by {
        assert("TELTONIKA"@.len() != "RUPTELA"@.len());
    }
}

/// The IMEI under which a unit is looked up: the IMEI without surrounding
/// whitespace, or `None` when nothing is left.
pub fn lookup_imei(imei: &str) -> (r: Option<&str>)
    ensures
        match r {
            Some(s) => s@ == spec_trim(imei@) && s@.len() > 0,
            None => spec_trim(imei@).len() == 0,
        },
{
    let imei = trim(imei);
    if imei.unicode_len() == 0 {
        return None;
    }
    Some(imei)
}

} // verus!
