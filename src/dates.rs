use std::fmt::Write;
use vstd::prelude::*;
use crate::posts::Stamp;

verus! {

/// The text that chrono writes for the instant `secs`/`nanos` (as a naive UTC date and time)
/// under the format string `fmt`; `None` where the instant is out of chrono's range or
/// the format string is invalid.
pub uninterp spec fn date_text(secs: i64, nanos: u32, fmt: Seq<char>) -> Option<Seq<char>>;

/// Relies on chrono's `DateTime::from_timestamp` and `NaiveDateTime::format`: the text depends
/// on the instant and the format string alone, and writing fails on an invalid format.
#[verifier::external_body]
pub(crate) fn format_stamp(t: Stamp, fmt: &str) -> (r: Option<String>)
    ensures
        r is None <==> date_text(t.secs, t.nanos, fmt@) is None,
        r matches Some(s) ==> date_text(t.secs, t.nanos, fmt@) == Some(s@),
{
    let dt = chrono::DateTime::from_timestamp(t.secs, t.nanos)?.naive_utc();
    let mut out = String::new();
    match write!(out, "{}", dt.format(fmt)) {
        Ok(()) => Some(out),
        Err(_) => None,
    }
}

} // verus!
