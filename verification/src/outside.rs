//! The calls that leave this library: identifiers from the `uuid` crate and
//! the wall clock from `chrono`. What is stated of them here is believed,
//! not proved.

use vstd::prelude::*;

verus! {

/// A fresh random identifier: `uuid::Uuid::new_v4`, as a 128-bit number.
/// Nothing is known of the number but what every version-4 identifier has:
/// the version digit is 4 and the two variant bits are `10`.
#[verifier::external_body]
pub(crate) fn fresh_uuid() -> (id: u128)
    ensures
        (id >> 76) & 0xf == 4,
        (id >> 62) & 0x3 == 2,
{
    uuid::Uuid::new_v4().as_u128()
}

/// The identifier whose upper and lower halves are `high` and `low`:
/// `uuid::Uuid::from_u64_pair`, as a 128-bit number.
#[verifier::external_body]
pub(crate) fn uuid_from_pair(high: u64, low: u64) -> (id: u128)
    ensures
        id == ((high as u128) << 64) | (low as u128),
{
    uuid::Uuid::from_u64_pair(high, low).as_u128()
}

/// The upper and lower halves of an identifier: `uuid::Uuid::as_u64_pair`.
#[verifier::external_body]
pub(crate) fn uuid_to_pair(id: u128) -> (pair: (u64, u64))
    ensures
        pair.0 == (id >> 64) as u64,
        pair.1 == (id & 0xffff_ffff_ffff_ffff) as u64,
{
    uuid::Uuid::from_u128(id).as_u64_pair()
}

/// The time on the wall clock: `chrono::Utc::now`, as whole seconds since
/// the Unix epoch and the nanoseconds past them, which are fewer than a
/// second's worth. Nothing else is known of it.
#[verifier::external_body]
pub(crate) fn current_time() -> (now: (i64, u32))
    ensures
        now.1 < 1_000_000_000,
{
    let now = chrono::Utc::now();
    (now.timestamp(), now.timestamp_subsec_nanos())
}

/// Whether `chrono` takes `seconds` and `nanos` for an instant: what
/// `chrono::DateTime::from_timestamp` answers, which depends on nothing
/// but the two numbers.
pub uninterp spec fn chrono_accepts(seconds: i64, nanos: u32) -> bool;

/// Whether `seconds` since the Unix epoch and `nanos` past them name an
/// instant that `chrono` can hold: `chrono::DateTime::from_timestamp` gives
/// one.
#[verifier::external_body]
pub(crate) fn timestamp_in_range(seconds: i64, nanos: u32) -> (accepted: bool)
    ensures
        accepted == chrono_accepts(seconds, nanos),
{
    chrono::DateTime::from_timestamp(seconds, nanos).is_some()
}

} // verus!
