//! The time of day.

use crate::dag_flow::tree::Timestamp;
use vstd::prelude::*;

verus! {

/// `chrono::Utc::now` and `DateTime::timestamp_millis`: the milliseconds since the Unix
/// epoch by the machine's clock. Nothing is known of the number.
#[verifier::external_body]
pub(crate) fn utc_millis() -> (r: i64) {
    chrono::Utc::now().timestamp_millis()
}

/// The text in which a time is written, by its seconds and nanoseconds.
pub uninterp spec fn time_text(secs: int, rest: int) -> Seq<char>;

/// The time that a text says, as seconds and nanoseconds; nothing where it says none.
pub uninterp spec fn text_time(text: Seq<char>) -> Option<(int, int)>;

/// Whether a time can be written: its year is between -262143 and 262142, and its nanoseconds
/// reach past a second only in the last second of a minute.
pub open spec fn is_time(t: Timestamp) -> bool {
    &&& -8_334_601_228_800 <= t.secs <= 8_210_266_876_799
    &&& t.nanos < 1_000_000_000 || (t.secs % 60 == 59 && t.nanos < 2_000_000_000)
}

/// Whether the year of a time has four digits and its second is none that was put in.
pub open spec fn is_ordinary(t: Timestamp) -> bool {
    -62_167_219_200 <= t.secs <= 253_402_300_799 && t.nanos < 1_000_000_000
}

/// `chrono::DateTime::from_timestamp` and `DateTime::to_rfc3339`: the time as a text. Where the
/// year has four digits, [`parse_rfc3339`] reads the time back from it.
#[verifier::external_body]
pub(crate) fn to_rfc3339(t: Timestamp) -> (r: String)
    requires
        is_time(t),
    ensures
        r@ == time_text(t.secs as int, t.nanos as int),
        is_ordinary(t) ==> text_time(r@) == Some((t.secs as int, t.nanos as int)),
{
    chrono::DateTime::from_timestamp(t.secs, t.nanos).map_or_else(String::new, |d| d.to_rfc3339())
}

/// `chrono::DateTime::parse_from_rfc3339`: the time that a text says, by the time of day in
/// Greenwich. Nothing is claimed of the words in which an error is told.
#[verifier::external_body]
pub(crate) fn parse_rfc3339(text: &str) -> (r: Result<Timestamp, String>)
    ensures
        r is Ok <==> text_time(text@) is Some,
        r matches Ok(t) ==> text_time(text@) == Some((t.secs as int, t.nanos as int)),
{
    match chrono::DateTime::parse_from_rfc3339(text) {
        Ok(d) => Ok(Timestamp { secs: d.timestamp(), nanos: d.timestamp_subsec_nanos() }),
        Err(e) => Err(e.to_string()),
    }
}

} // verus!
