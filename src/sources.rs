use vstd::prelude::*;

verus! {

/// The RFC 3339 text that chrono writes for a UTC instant given in
/// milliseconds since the Unix epoch.
pub uninterp spec fn rfc3339_of(millis: int) -> Seq<char>;

/// The last millisecond that chrono can represent as a UTC instant: the end
/// of year 262142.
pub const LATEST_INSTANT: i64 = 8_210_266_876_799_999;

/// An instant, in milliseconds since the Unix epoch, from the epoch up to
/// chrono's latest one.
pub open spec fn in_chrono_range(millis: int) -> bool {
    0 <= millis <= LATEST_INSTANT
}

/// Relies on chrono's `DateTime::<Utc>::from_timestamp_millis` and
/// `DateTime::to_rfc3339`: `None` for an instant out of chrono's range,
/// else the RFC 3339 text of the instant; every instant from the epoch up
/// to `LATEST_INSTANT` is in range.
#[verifier::external_body]
pub(crate) fn format_instant(millis: i64) -> (r: Option<String>)
    ensures
        r matches Some(t) ==> t@ == rfc3339_of(millis as int),
        in_chrono_range(millis as int) ==> r is Some,
{
    chrono::DateTime::<chrono::Utc>::from_timestamp_millis(millis).map(|d| d.to_rfc3339())
}

/// Relies on chrono's `Utc::now` and `DateTime::timestamp_millis`: the
/// current time in milliseconds since the Unix epoch. `Utc::now` takes the
/// system time since the epoch and unwraps it as a chrono instant, so the
/// value is never before the epoch nor after `LATEST_INSTANT`.
#[verifier::external_body]
pub(crate) fn now_millis() -> (r: i64)
    ensures
        in_chrono_range(r as int),
{
    chrono::Utc::now().timestamp_millis()
}

/// Lower and upper bound of the multiplier of the derived economic estimate.
pub const MULTIPLIER_MIN: u64 = 1000;

pub const MULTIPLIER_MAX: u64 = 2000;

/// Relies on rand's `thread_rng` and `Rng::gen_range` on an inclusive range:
/// a value drawn from `[MULTIPLIER_MIN, MULTIPLIER_MAX]`.
#[verifier::external_body]
pub(crate) fn draw_multiplier() -> (r: u64)
    ensures
        MULTIPLIER_MIN <= r <= MULTIPLIER_MAX,
{
    rand::Rng::gen_range(&mut rand::thread_rng(), MULTIPLIER_MIN..=MULTIPLIER_MAX)
}

} // verus!
