//! Trusted boundary to the outside crates: fresh record identifiers and
//! the current time.

use vstd::prelude::*;
use crate::date::{Date, day_index_spec};

verus! {

/// Relies on uuid::Uuid::new_v4 and its hyphenated text form: a fresh
/// random version-4 UUID rendered as 36 ASCII bytes.  The value is random;
/// nothing beyond its length is assumed.
#[verifier::external_body]
pub fn fresh_id() -> (r: Vec<u8>)
    ensures
        r@.len() == 36,
{
    uuid::Uuid::new_v4().to_string().into_bytes()
}

/// Relies on chrono::Utc::now and DateTime::timestamp: whole seconds since
/// the Unix epoch.  Utc::now panics rather than report a pre-epoch time,
/// so a returned value is never negative; nothing else is assumed of the
/// clock.
#[verifier::external_body]
pub fn now_timestamp() -> (r: i64)
    ensures
        r >= 0,
{
    chrono::Utc::now().timestamp()
}

/// Day index (days since January 1 of year 1) of the current UTC day,
/// clamped to the supported calendar range.
pub fn today_day_index() -> (r: u32)
    ensures
        r <= day_index_spec(Date { year: 9999, month: 12, day: 31 }),
{
    let ts = now_timestamp();
    // January 1 of 1970 has day index 719162.
    let days: i64 = 719162 + ts / 86400;
    let last = Date { year: 9999, month: 12, day: 31 };
    proof {
        assert(last.valid());
    }
    let max = last.day_number();
    if days > max as i64 {
        max
    } else {
        days as u32
    }
}

} // verus!
