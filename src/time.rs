use vstd::prelude::*;
use crate::error::CheckError;

verus! {

/// Nanoseconds in one second.
pub const NANOS_PER_SEC: i128 = 1_000_000_000;

/// Nanoseconds in one day.
pub const NANOS_PER_DAY: i128 = 86_400_000_000_000;

/// The whole seconds since the Unix epoch and the nanoseconds past that second
/// that an RFC 3339 text denotes in UTC, or `None` where the text is not one.
/// The form read is chrono's relaxed one: a space may stand for the `T`
/// between date and time.
pub uninterp spec fn rfc3339_parts(text: Seq<char>) -> Option<(i64, u32)>;

/// The instant an RFC 3339 text denotes, in nanoseconds since the Unix epoch.
pub open spec fn instant_of(text: Seq<char>) -> Option<int> {
    match rfc3339_parts(text) {
        Some((secs, nanos)) => Some(secs * NANOS_PER_SEC + nanos),
        None => None,
    }
}

/// Relies on chrono's `FromStr` for `DateTime<Utc>` (relaxed RFC 3339 with any
/// offset, normalised to UTC), read back through `DateTime::timestamp` and
/// `DateTime::timestamp_subsec_nanos`.
#[verifier::external_body]
fn rfc3339_seconds_and_nanos(text: &str) -> (r: Option<(i64, u32)>)
    ensures
        r == rfc3339_parts(text@),
{
    match text.parse::<chrono::DateTime<chrono::Utc>>() {
        Ok(dt) => Some((dt.timestamp(), dt.timestamp_subsec_nanos())),
        Err(_) => None,
    }
}

/// Parses an RFC 3339 timestamp into nanoseconds since the Unix epoch.
pub fn parse_instant(text: &String) -> (r: Result<i128, CheckError>)
    ensures
        match instant_of(text@) {
            Some(t) => r == Ok::<i128, CheckError>(t as i128),
            None => r matches Err(CheckError::InvalidTimestamp(x)) && x@ == text@,
        },
{
    match rfc3339_seconds_and_nanos(text.as_str()) {
        Some((secs, nanos)) => Ok(secs as i128 * NANOS_PER_SEC + nanos as i128),
        None => Err(CheckError::InvalidTimestamp(text.clone())),
    }
}

/// A point in time together with the RFC 3339 text it was read from.
pub struct Moment {
    pub nanos: i128,
    pub text: String,
}

impl Moment {
    /// The text denotes the instant held beside it.
    pub open spec fn wf(&self) -> bool {
        instant_of(self.text@) == Some(self.nanos as int)
    }

    /// Reads a moment from its RFC 3339 text.
    pub fn parse(text: String) -> (r: Result<Moment, CheckError>)
        ensures
            match instant_of(text@) {
                Some(t) => r matches Ok(m) && m.nanos == t && m.text@ == text@ && m.wf(),
                None => r matches Err(CheckError::InvalidTimestamp(x)) && x@ == text@,
            },
    {
        match parse_instant(&text) {
            Ok(nanos) => Ok(Moment { nanos, text }),
            Err(e) => Err(e),
        }
    }
}

} // verus!
