//! Timestamp literals: an RFC 3339 instant, relaxed, as whole seconds and
//! nanoseconds since the Unix epoch.

use vstd::prelude::*;
use crate::error::{matches_outcome, ErrorKind, LitError};

verus! {

/// What humantime's relaxed RFC 3339 parser gives for a text, as an offset
/// from the Unix epoch (`None` for an instant before it), or its error message.
pub uninterp spec fn humantime_timestamp(s: Seq<char>) -> Result<Option<(u64, u32)>, Seq<char>>;

/// Relies on `humantime::parse_rfc3339_weak`, read as an offset from the
/// epoch through `SystemTime::duration_since(UNIX_EPOCH)` (whose error stands
/// for an earlier instant), `Duration::as_secs` and `Duration::subsec_nanos`
/// (below one second), and on its error's `Display`, whose every message is
/// non-empty.
#[verifier::external_body]
fn parse_human_timestamp(s: &str) -> (r: Result<Option<(u64, u32)>, String>)
    ensures
        match r {
            Ok(o) => humantime_timestamp(s@) == Ok::<Option<(u64, u32)>, Seq<char>>(o) && (o matches Some(
                v,
            ) ==> v.1 < 1_000_000_000),
            Err(m) => humantime_timestamp(s@) == Err::<Option<(u64, u32)>, Seq<char>>(m@) && m@.len()
                > 0,
        },
{
    match humantime::parse_rfc3339_weak(s) {
        Ok(t) => match t.duration_since(std::time::UNIX_EPOCH) {
            Ok(d) => Ok(Some((d.as_secs(), d.subsec_nanos()))),
            Err(_) => Ok(None),
        },
        Err(e) => Err(e.to_string()),
    }
}

/// What converting the timestamp text `text` gives: seconds and nanoseconds
/// since the epoch, or the error's kind and cause.
pub open spec fn timestamp_result(text: Seq<char>) -> Result<(u64, u32), (ErrorKind, Seq<char>)> {
    match humantime_timestamp(text) {
        Err(m) => Err((ErrorKind::TimestampParse, m)),
        Ok(None) => Err((ErrorKind::EpochUnderflow, Seq::empty())),
        Ok(Some(v)) => Ok(v),
    }
}

/// Converts a timestamp text to seconds and nanoseconds since the epoch. An
/// instant before the epoch is reported, never wrapped around.
pub fn convert_timestamp(text: &str) -> (r: Result<(u64, u32), LitError>)
    ensures
        matches_outcome(r, timestamp_result(text@), text@),
        humantime_timestamp(text@) matches Err(m) ==> m.len() > 0,
        r matches Ok(v) ==> v.1 < 1_000_000_000,
{
    match parse_human_timestamp(text) {
        Ok(Some(v)) => Ok(v),
        Ok(None) => Err(LitError::conversion(ErrorKind::EpochUnderflow, text, String::new())),
        Err(m) => Err(LitError::conversion(ErrorKind::TimestampParse, text, m)),
    }
}

} // verus!
