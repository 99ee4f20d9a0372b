//! Predicates: the relationship a statement asserts between its subject and
//! its object, each encoded as one byte (0 through 8).
use vstd::prelude::*;
use crate::error::{Error, ErrorKind, Result};

verus! {

/// Semantic predicate of a statement.
#[derive(Debug, Clone, Copy, PartialEq, Eq, Structural, Hash)]
pub enum Predicate {
    /// (0) General claim of truth regarding the subject.
    Attests,
    /// (1) Issuer created the subject artifact.
    Authors,
    /// (2) Subject artifact was transformed from the object artifact.
    DerivedFrom,
    /// (3) This statement replaces the object statement.
    Supersedes,
    /// (4) This statement invalidates the object statement or artifact.
    Revokes,
    /// (5) Countersignature or multi-party approval.
    Endorses,
    /// (6) Streaming chunk linkage.
    Appends,
    /// (7) Subject artifact satisfies the policy of the object artifact.
    CompliesWith,
    /// (8) Guardian authorises replacement of a lost key.
    Recovers,
}

/// Numeric code of a predicate.
pub open spec fn predicate_code(p: Predicate) -> u8 {
    match p {
        Predicate::Attests => 0,
        Predicate::Authors => 1,
        Predicate::DerivedFrom => 2,
        Predicate::Supersedes => 3,
        Predicate::Revokes => 4,
        Predicate::Endorses => 5,
        Predicate::Appends => 6,
        Predicate::CompliesWith => 7,
        Predicate::Recovers => 8,
    }
}

/// The predicate with code `v`, for `v` at most 8.
pub open spec fn predicate_of_code(v: u8) -> Predicate {
    if v == 0 {
        Predicate::Attests
    } else if v == 1 {
        Predicate::Authors
    } else if v == 2 {
        Predicate::DerivedFrom
    } else if v == 3 {
        Predicate::Supersedes
    } else if v == 4 {
        Predicate::Revokes
    } else if v == 5 {
        Predicate::Endorses
    } else if v == 6 {
        Predicate::Appends
    } else if v == 7 {
        Predicate::CompliesWith
    } else {
        Predicate::Recovers
    }
}

/// Upper-case constant-style name of a predicate.
pub open spec fn predicate_name(p: Predicate) -> &'static str {
    match p {
        Predicate::Attests => "ATTESTS",
        Predicate::Authors => "AUTHORS",
        Predicate::DerivedFrom => "DERIVED_FROM",
        Predicate::Supersedes => "SUPERSEDES",
        Predicate::Revokes => "REVOKES",
        Predicate::Endorses => "ENDORSES",
        Predicate::Appends => "APPENDS",
        Predicate::CompliesWith => "COMPLIES_WITH",
        Predicate::Recovers => "RECOVERS",
    }
}

/// Human-readable description of a predicate.
pub open spec fn predicate_description(p: Predicate) -> &'static str {
    match p {
        Predicate::Attests => "General claim of truth regarding the subject",
        Predicate::Authors => "Issuer created the subject Artifact",
        Predicate::DerivedFrom => "Subject Artifact was transformed from the Object Artifact",
        Predicate::Supersedes => "This Statement replaces the Object Statement",
        Predicate::Revokes => "This Statement invalidates the Object Statement or Artifact",
        Predicate::Endorses => "Countersignature or multi-party approval",
        Predicate::Appends => "Streaming chunk linkage (Subject is Chunk N, Object is Chunk N-1)",
        Predicate::CompliesWith => "Subject Artifact satisfies the policy defined in Object Artifact",
        Predicate::Recovers => "Guardian authorises replacement of a lost key",
    }
}

impl Predicate {
    /// The predicate with code `v`; codes above 8 are refused with
    /// `Error::InvalidField("predicate")`.
    pub fn from_u8(v: u8) -> (r: Result<Self>)
        ensures
            v <= 8 ==> r == Ok::<Predicate, Error>(predicate_of_code(v)),
            v > 8 ==> (r matches Err(e) && e == Error::InvalidField("predicate")),
    {
        match v {
            0 => Ok(Predicate::Attests),
            1 => Ok(Predicate::Authors),
            2 => Ok(Predicate::DerivedFrom),
            3 => Ok(Predicate::Supersedes),
            4 => Ok(Predicate::Revokes),
            5 => Ok(Predicate::Endorses),
            6 => Ok(Predicate::Appends),
            7 => Ok(Predicate::CompliesWith),
            8 => Ok(Predicate::Recovers),
            _ => Err(Error::InvalidField("predicate")),
        }
    }

    /// The numeric code of this predicate.
    pub fn to_u8(self) -> (r: u8)
        ensures
            r == predicate_code(self),
    {
        match self {
            Predicate::Attests => 0,
            Predicate::Authors => 1,
            Predicate::DerivedFrom => 2,
            Predicate::Supersedes => 3,
            Predicate::Revokes => 4,
            Predicate::Endorses => 5,
            Predicate::Appends => 6,
            Predicate::CompliesWith => 7,
            Predicate::Recovers => 8,
        }
    }

    /// The upper-case name of this predicate (e.g. `"DERIVED_FROM"`).
    pub fn name(&self) -> (r: &'static str)
        ensures
            r == predicate_name(*self),
    {
        match self {
            Predicate::Attests => "ATTESTS",
            Predicate::Authors => "AUTHORS",
            Predicate::DerivedFrom => "DERIVED_FROM",
            Predicate::Supersedes => "SUPERSEDES",
            Predicate::Revokes => "REVOKES",
            Predicate::Endorses => "ENDORSES",
            Predicate::Appends => "APPENDS",
            Predicate::CompliesWith => "COMPLIES_WITH",
            Predicate::Recovers => "RECOVERS",
        }
    }

    /// A human-readable description of this predicate.
    pub fn description(&self) -> (r: &'static str)
        ensures
            r == predicate_description(*self),
    {
        match self {
            Predicate::Attests => "General claim of truth regarding the subject",
            Predicate::Authors => "Issuer created the subject Artifact",
            Predicate::DerivedFrom => "Subject Artifact was transformed from the Object Artifact",
            Predicate::Supersedes => "This Statement replaces the Object Statement",
            Predicate::Revokes => "This Statement invalidates the Object Statement or Artifact",
            Predicate::Endorses => "Countersignature or multi-party approval",
            Predicate::Appends => "Streaming chunk linkage (Subject is Chunk N, Object is Chunk N-1)",
            Predicate::CompliesWith => "Subject Artifact satisfies the policy defined in Object Artifact",
            Predicate::Recovers => "Guardian authorises replacement of a lost key",
        }
    }
}

/// All nine core predicates, in code order.
pub fn core_predicates() -> (r: Vec<Predicate>)
    ensures
        r@.len() == 9,
        forall|i: int| 0 <= i < 9 ==> predicate_code(#[trigger] r@[i]) == i,
{
    let r = vec![
        Predicate::Attests,
        Predicate::Authors,
        Predicate::DerivedFrom,
        Predicate::Supersedes,
        Predicate::Revokes,
        Predicate::Endorses,
        Predicate::Appends,
        Predicate::CompliesWith,
        Predicate::Recovers,
    ];
    r
}

/// Every predicate reads back from its code: `from_u8(p.to_u8()) == Ok(p)`,
/// and the codes are exactly 0 through 8.
pub proof fn law_predicate_code_roundtrip(p: Predicate)
    ensures
        predicate_code(p) <= 8,
        predicate_of_code(predicate_code(p)) == p,
        forall|v: u8| v <= 8 ==> predicate_code(#[trigger] predicate_of_code(v)) == v,
{
}

} // verus!
