use vstd::prelude::*;
use crate::decimal::{decimal_value, is_decimal, parse_u64};
use crate::error::CheckError;
use crate::time::{instant_of, parse_instant};

verus! {

/// The unit reported downstream: an entity id, the commit's timestamp and the
/// commit id, each as the text that travels on the wire.
#[derive(Debug, Clone)]
pub struct Version {
    pub iid: String,
    pub committed_date: String,
    pub sha: String,
}

impl PartialEq for Version {
    fn eq(&self, other: &Version) -> (r: bool) {
        self.iid == other.iid && self.committed_date == other.committed_date && self.sha
            == other.sha
    }
}

impl vstd::std_specs::cmp::PartialEqSpecImpl for Version {
    open spec fn obeys_eq_spec() -> bool {
        true
    }

    open spec fn eq_spec(&self, other: &Version) -> bool {
        self.iid@ == other.iid@ && self.committed_date@ == other.committed_date@ && self.sha@
            == other.sha@
    }
}

impl Version {
    /// The three texts, for contracts.
    pub open spec fn texts(&self) -> (Seq<char>, Seq<char>, Seq<char>) {
        (self.iid@, self.committed_date@, self.sha@)
    }

    /// A copy with the same texts.
    pub fn duplicate(&self) -> (r: Version)
        ensures
            r == *self,
    {
        Version { iid: self.iid.clone(), committed_date: self.committed_date.clone(), sha: self.sha.clone() }
    }
}

/// The entity id is a decimal number of 64 bits and the timestamp is RFC 3339.
pub open spec fn readable(v: Version) -> bool {
    &&& is_decimal(v.iid@)
    &&& decimal_value(v.iid@) <= u64::MAX
    &&& instant_of(v.committed_date@) is Some
}

/// The candidate that a readable version stands for.
pub open spec fn candidate_of(v: Version) -> Candidate {
    Candidate {
        id: decimal_value(v.iid@) as u64,
        at: instant_of(v.committed_date@).unwrap() as i128,
        version: v,
    }
}

/// A version together with what the reconciliation reads from it: the entity id
/// as a number and the commit timestamp in nanoseconds since the Unix epoch.
#[derive(Debug, Clone)]
pub struct Candidate {
    pub id: u64,
    pub at: i128,
    pub version: Version,
}

impl Candidate {
    /// The numbers agree with the texts of the version.
    pub open spec fn wf(&self) -> bool {
        &&& is_decimal(self.version.iid@)
        &&& decimal_value(self.version.iid@) == self.id
        &&& instant_of(self.version.committed_date@) == Some(self.at as int)
    }

    /// A copy with the same fields.
    pub fn duplicate(&self) -> (r: Candidate)
        ensures
            r == *self,
    {
        Candidate { id: self.id, at: self.at, version: self.version.duplicate() }
    }

    /// Reads the entity id and the commit timestamp of a version.
    pub fn from_version(version: &Version) -> (r: Result<Candidate, CheckError>)
        ensures
            r is Ok <==> readable(*version),
            r matches Ok(c) ==> c == candidate_of(*version) && c.wf(),
            !(is_decimal(version.iid@) && decimal_value(version.iid@) <= u64::MAX) ==> (r matches Err(
                CheckError::InvalidIid(x),
            ) && x@ == version.iid@),
            is_decimal(version.iid@) && decimal_value(version.iid@) <= u64::MAX && instant_of(
                version.committed_date@,
            ) is None ==> (r matches Err(CheckError::InvalidTimestamp(x)) && x@
                == version.committed_date@),
    {
        let id = match parse_u64(version.iid.as_str()) {
            Some(n) => n,
            None => return Err(CheckError::InvalidIid(version.iid.clone())),
        };
        let at = match parse_instant(&version.committed_date) {
            Ok(t) => t,
            Err(e) => return Err(e),
        };
        Ok(Candidate { id, at, version: version.duplicate() })
    }
}

} // verus!
