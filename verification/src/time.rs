//! Points in time, and reading one from its RFC 3339 text.

use vstd::prelude::*;
use crate::error::Error;

verus! {

/// A point in time: whole seconds since 1970-01-01T00:00:00Z, and the
/// nanoseconds past that second.
#[derive(Clone, Copy, Debug, PartialEq, Eq, Structural)]
pub struct Timestamp {
    pub secs: i64,
    pub nanos: u32,
}

/// `chrono::ParseError`, carried as it is. Nothing is claimed of it.
#[verifier::external_type_specification]
#[verifier::external_body]
pub struct ExParseError(chrono::ParseError);

/// The instant that `text` denotes as an RFC 3339 date and time, as seconds
/// since the epoch and nanoseconds past the second; `None` where `text` is
/// no such date and time.
pub uninterp spec fn rfc3339_instant(text: Seq<char>) -> Option<(i64, u32)>;

/// `chrono::DateTime::parse_from_rfc3339`, with the instant it finds handed
/// back as `timestamp()` and `timestamp_subsec_nanos()`. The claim is only
/// that the outcome is a function of the text, named `rfc3339_instant`.
#[verifier::external_body]
fn parse_from_rfc3339(text: &str) -> (r: Result<(i64, u32), chrono::ParseError>)
    ensures
        match r {
            Ok(instant) => rfc3339_instant(text@) == Some(instant),
            Err(_) => rfc3339_instant(text@) is None,
        },
{
    match chrono::DateTime::parse_from_rfc3339(text) {
        Ok(t) => Ok((t.timestamp(), t.timestamp_subsec_nanos())),
        Err(e) => Err(e),
    }
}

/// What `Timestamp::parse` makes of what `text` denotes.
pub open spec fn parsed(instant: Option<(i64, u32)>) -> Result<Timestamp, Error> {
    match instant {
        Some((secs, nanos)) => Ok(Timestamp { secs, nanos }),
        None => Err(Error::InvalidData),
    }
}

impl Timestamp {
    /// Reads an RFC 3339 date and time. Text that is none is `InvalidData`.
    pub fn parse(text: &str) -> (r: Result<Timestamp, Error>)
        ensures
            r == parsed(rfc3339_instant(text@)),
    {
        match parse_from_rfc3339(text) {
            Ok((secs, nanos)) => Ok(Timestamp { secs, nanos }),
            Err(_) => Err(Error::InvalidData),
        }
    }
}

} // verus!
