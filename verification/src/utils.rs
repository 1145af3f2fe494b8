use vstd::prelude::*;

verus! {

/// The text chrono renders for `ts_millis` with the fixed
/// "%Y-%m-%d %H:%M:%S" pattern; the zone is fixed to UTC, so the text is a
/// function of the timestamp alone.
pub uninterp spec fn timestamp_text(ts_millis: i64) -> Seq<char>;

/// Timestamps up to 9999-12-31 23:59:59 UTC; every such value formats
/// successfully.
pub open spec fn renderable_millis(ts_millis: i64) -> bool {
    0 <= ts_millis <= 253402300799999
}

/// Relies on chrono's Utc::now and timestamp_millis: now() panics rather
/// than return a time before the Unix epoch, and the millisecond count of a
/// time at or after the epoch is nonnegative.
#[verifier::external_body]
pub(crate) fn now_millis() -> (r: i64)
    ensures
        r >= 0,
{
    chrono::Utc::now().timestamp_millis()
}

/// Relies on chrono's DateTime::<Utc>::from_timestamp_millis, which accepts
/// every value in `renderable_millis`, and on its formatting with the fixed
/// "%Y-%m-%d %H:%M:%S" pattern, whose text depends on the timestamp alone.
#[verifier::external_body]
pub fn format_timestamp(ts_millis: i64) -> (r: Option<String>)
    ensures
        renderable_millis(ts_millis) ==> r is Some,
        r matches Some(s) ==> s@ == timestamp_text(ts_millis),
{
    match chrono::DateTime::<chrono::Utc>::from_timestamp_millis(ts_millis) {
        Some(dt) => Some(dt.format("%Y-%m-%d %H:%M:%S").to_string()),
        None => None,
    }
}

} // verus!
