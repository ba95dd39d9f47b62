use vstd::prelude::*;

verus! {

/// An instant in UTC: whole seconds since the Unix epoch and the
/// nanoseconds past that second.
#[derive(Clone, Copy, PartialEq, Eq, Structural, Debug)]
pub struct Timestamp {
    pub secs: i64,
    pub nanos: u32,
}

/// The first second of chrono's calendar (January 1, 262144 BCE, UTC).
pub const EARLIEST_SECS: i64 = -8_334_601_228_800;

/// The last second of chrono's calendar (December 31, 262142 CE,
/// 23:59:59 UTC).
pub const LATEST_SECS: i64 = 8_210_266_876_799;

/// The text that chrono writes for the UTC instant `secs` seconds after
/// the epoch with the format `%Y%m%d-%H%M%S`.
pub uninterp spec fn compact_stamp(secs: i64) -> Seq<char>;

/// Formats the UTC instant `secs` seconds after the epoch as
/// `%Y%m%d-%H%M%S` (`chrono::DateTime::from_timestamp`, then `format`).
/// `from_timestamp` gives `None` only for an instant outside chrono's
/// calendar.
#[verifier::external_body]
pub(crate) fn utc_compact_stamp(secs: i64) -> (r: Option<String>)
    ensures
        r matches Some(s) ==> s@ == compact_stamp(secs),
        EARLIEST_SECS <= secs <= LATEST_SECS ==> r is Some,
{
    match chrono::DateTime::from_timestamp(secs, 0) {
        Some(dt) => Some(dt.format("%Y%m%d-%H%M%S").to_string()),
        None => None,
    }
}

} // verus!
