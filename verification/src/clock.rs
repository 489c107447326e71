//! The system clock. Every reading may differ from the last, so nothing
//! here promises a particular time: callers get what the clock says and the
//! verified functions that take a time as an argument do the rest.

use vstd::prelude::*;
use crate::text;

verus! {

#[verifier::external_type_specification]
#[verifier::external_body]
pub struct ExSystemTime(std::time::SystemTime);

/// `std::time::SystemTime::now`: what the system clock says. Nothing is
/// promised of it.
#[verifier::external_body]
fn system_now() -> std::time::SystemTime {
    std::time::SystemTime::now()
}

/// `SystemTime::duration_since(UNIX_EPOCH)` of a clock reading, as whole
/// seconds and the milliseconds past them, or zero where the reading stands
/// before the epoch. The only claim made is the one
/// `Duration::subsec_millis` documents: the milliseconds are under a
/// thousand.
#[verifier::external_body]
fn since_unix_epoch(t: std::time::SystemTime) -> (r: (u64, u32))
    ensures
        r.1 < 1000,
{
    let d = t.duration_since(std::time::UNIX_EPOCH).unwrap_or_default();
    (d.as_secs(), d.subsec_millis())
}

/// The time since the Unix epoch by the system clock, as whole seconds and
/// the milliseconds past them.
fn since_epoch() -> (t: (u64, u32))
    ensures
        t.1 < 1000,
{
    since_unix_epoch(system_now())
}

/// Whole seconds since the Unix epoch.
pub fn unix_secs() -> (s: u64) {
    since_epoch().0
}

/// Milliseconds since the Unix epoch, cut to 64 bits. Cut that way, every
/// 64-bit value is a possible reading, so nothing is promised of the result.
pub fn now_ms() -> (ms: u64) {
    let (secs, millis) = since_epoch();
    let total: u128 = (secs as u128) * 1000 + (millis as u128);
    total as u64
}

/// The decimal digits of a 128-bit number.
fn wide_decimal_chars(n: u128) -> (v: Vec<char>)
    ensures
        v@ == text::decimal(n as nat),
    decreases n,
{
    let d: u128 = n % 10;
    let c: char = ((48u8 + d as u8) as char);
    if n < 10 {
        let mut v: Vec<char> = Vec::new();
        v.push(c);
        v
    } else {
        let mut v = wide_decimal_chars(n / 10);
        v.push(c);
        v
    }
}

/// Milliseconds since the Unix epoch in decimal (the stamp of a backup
/// directory).
pub fn chrono_timestamp() -> (s: String)
    ensures
        exists|secs: u64, millis: u32| millis < 1000 && s@ == #[trigger] text::decimal((secs as nat) * 1000 + millis as nat),
{
    let (secs, millis) = since_epoch();
    let total: u128 = (secs as u128) * 1000 + (millis as u128);
    let v = wide_decimal_chars(total);
    assert(total as nat == (secs as nat) * 1000 + millis as nat);
    text::string_from_chars(v.as_slice())
}

} // verus!
