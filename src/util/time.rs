use vstd::prelude::*;

verus! {

// Instants are counted in milliseconds since the Unix epoch: a reading of the
// clock fits a `u64`, an expiry instant (a reading plus a delay) a `u128`.

/// Relies on `SystemTime::now`, read as whole milliseconds since the Unix
/// epoch. Nothing is known of the value: it is whatever the clock says.
#[verifier::external_body]
pub(crate) fn now_millis() -> (r: u64) {
    std::time::SystemTime::now().duration_since(std::time::UNIX_EPOCH).map_or(0, |d| d.as_millis() as u64)
}

/// An instant `t` has passed at `now` once `now` has reached it.
pub open spec fn expired_at(t: u128, now: u64) -> bool {
    now as int >= t as int
}

/// The instant `seconds` after `now`.
pub fn seconds_after(now: u64, seconds: u64) -> (r: u128)
    ensures
        r as int == now as int + seconds as int * 1000,
{
    now as u128 + seconds as u128 * 1000
}

/// The instant `milliseconds` after `now`.
pub fn milliseconds_after(now: u64, milliseconds: u64) -> (r: u128)
    ensures
        r as int == now as int + milliseconds as int,
{
    now as u128 + milliseconds as u128
}

/// The instant `seconds` from the present reading of the clock.
pub fn current_time_with_seconds(seconds: u64) -> (r: u128)
    ensures
        seconds as int * 1000 <= r as int <= u64::MAX as int + seconds as int * 1000,
{
    seconds_after(now_millis(), seconds)
}

/// The instant `milliseconds` from the present reading of the clock.
pub fn current_time_with_milliseconds(milliseconds: u64) -> (r: u128)
    ensures
        milliseconds as int <= r as int <= u64::MAX as int + milliseconds as int,
{
    milliseconds_after(now_millis(), milliseconds)
}

/// Whether `expiry_time` has passed at `now`.
pub fn is_expired_at(expiry_time: u128, now: u64) -> (r: bool)
    ensures
        r == expired_at(expiry_time, now),
{
    now as u128 >= expiry_time
}

/// Whether `expiry_time` has passed at the present reading of the clock.
pub fn is_expired(expiry_time: u128) -> (r: bool)
    ensures
        exists|now: u64| r == #[trigger] expired_at(expiry_time, now),
{
    is_expired_at(expiry_time, now_millis())
}

} // verus!
