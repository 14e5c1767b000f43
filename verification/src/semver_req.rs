//! The version-requirement model: a comparator list paralleling what the
//! semver crate parses from a requirement string, and the rule deciding
//! whether a requirement admits compiler versions past 0.8.19.

use vstd::prelude::*;

verus! {

/// A comparison operator of one version comparator.
#[derive(Clone, Copy, PartialEq, Eq, Structural, Debug)]
pub enum VersionOp {
    Exact,
    Greater,
    GreaterEq,
    Less,
    LessEq,
    Tilde,
    Caret,
    Wildcard,
    /// An operator this model does not distinguish (the parser's
    /// operator set may grow); never treated as a match.
    Other,
}

/// One comparator of a version requirement, e.g. `^0.8.20`.
#[derive(Clone, Copy, PartialEq, Eq, Structural, Debug)]
pub struct VersionComparator {
    pub op: VersionOp,
    pub major: u64,
    pub minor: Option<u64>,
    pub patch: Option<u64>,
}

/// The comparators that the semver grammar assigns to a requirement
/// string, or nothing when the string is not a valid requirement; a
/// function of the characters alone.
pub uninterp spec fn req_comparators_of(s: Seq<char>) -> Option<Seq<VersionComparator>>;

/// Relies on semver's `VersionReq::parse`: parses a requirement string
/// into its comparator list, moving each comparator's operator, major,
/// minor and patch fields into the model; `None` exactly when parsing
/// fails.
#[verifier::external_body]
fn parse_version_req(s: &str) -> (r: Option<Vec<VersionComparator>>)
    ensures
        match r {
            Some(v) => req_comparators_of(s@) == Some(v@),
            None => req_comparators_of(s@) is None,
        },
{
    let req = match semver::VersionReq::parse(s) {
        Ok(req) => req,
        Err(_) => return None,
    };
    Some(req.comparators.iter().map(|c| VersionComparator {
        op: match c.op {
            semver::Op::Exact => VersionOp::Exact, semver::Op::Greater => VersionOp::Greater,
            semver::Op::GreaterEq => VersionOp::GreaterEq, semver::Op::Less => VersionOp::Less,
            semver::Op::LessEq => VersionOp::LessEq, semver::Op::Tilde => VersionOp::Tilde,
            semver::Op::Caret => VersionOp::Caret, semver::Op::Wildcard => VersionOp::Wildcard,
            _ => VersionOp::Other,
        },
        major: c.major, minor: c.minor, patch: c.patch,
    }).collect())
}

/// Parses a version requirement through the semver grammar into the
/// comparator model; `None` exactly when the string is not a valid
/// requirement.
pub fn parse_version_requirement(s: &str) -> (r: Option<Vec<VersionComparator>>)
    ensures
        match r {
            Some(v) => req_comparators_of(s@) == Some(v@),
            None => req_comparators_of(s@) is None,
        },
{
    parse_version_req(s)
}

/// Whether an optional component is present and at least `v`.
pub open spec fn opt_at_least(o: Option<u64>, v: u64) -> bool {
    match o {
        Some(x) => x >= v,
        None => false,
    }
}

/// Whether a requirement admits some compiler version above 0.8.19.
/// Deliberately simplified: a single tilde/caret comparator counts when
/// it names major > 0 or minor >= 8; a single greater(-equal) comparator
/// always counts; a single exact comparator only for 0.8.20 itself; a
/// two-comparator range counts by its upper bound.
pub open spec fn spec_allows_above_0_8_19(cs: Seq<VersionComparator>) -> bool {
    if cs.len() == 1 {
        let c = cs[0];
        match c.op {
            VersionOp::Tilde => c.major > 0 || opt_at_least(c.minor, 8),
            VersionOp::Caret => c.major > 0 || opt_at_least(c.minor, 8),
            VersionOp::Greater => true,
            VersionOp::GreaterEq => true,
            VersionOp::Exact => c.major == 0 && c.minor == Some(8u64) && c.patch == Some(20u64),
            _ => false,
        }
    } else if cs.len() == 2 {
        let c2 = cs[1];
        c2.major > 0 || opt_at_least(c2.minor, 8) || (c2.minor == Some(8u64) && opt_at_least(
            c2.patch,
            20,
        ))
    } else {
        false
    }
}

/// Decides whether a parsed requirement admits compiler versions above
/// 0.8.19 (the first versions whose default target emits the new
/// stack-push opcode).
pub fn version_req_allows_above_0_8_19(comparators: &Vec<VersionComparator>) -> (r: bool)
    ensures
        r == spec_allows_above_0_8_19(comparators@),
{
    if comparators.len() == 1 {
        let c = comparators[0];
        match c.op {
            VersionOp::Tilde | VersionOp::Caret => {
                c.major > 0 || (match c.minor {
                    Some(m) => m >= 8,
                    None => false,
                })
            },
            VersionOp::Greater | VersionOp::GreaterEq => true,
            VersionOp::Exact => {
                c.major == 0 && (match c.minor {
                    Some(m) => m == 8,
                    None => false,
                }) && (match c.patch {
                    Some(q) => q == 20,
                    None => false,
                })
            },
            _ => false,
        }
    } else if comparators.len() == 2 {
        let c2 = comparators[1];
        c2.major > 0 || (match c2.minor {
            Some(m) => m >= 8,
            None => false,
        }) || ((match c2.minor {
            Some(m) => m == 8,
            None => false,
        }) && (match c2.patch {
            Some(q) => q >= 20,
            None => false,
        }))
    } else {
        false
    }
}

} // verus!
