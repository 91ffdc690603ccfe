//! The clock of the platform.

use vstd::prelude::*;

verus! {

/// A clock value as the timer counts it: the seconds shifted past the
/// nanoseconds.
pub open spec fn nstime_spec(secs: u64, nanos: u32) -> u64 {
    (secs << 30) | (nanos as u64)
}

/// Puts a clock value together from its seconds and its nanoseconds.
///
/// The correct way to count nanoseconds is `secs * 1_000_000_000 + nanos`. A
/// shift is faster, and the difference in terms of entropy is negligible.
pub fn nstime(secs: u64, nanos: u32) -> (r: u64)
    ensures
        r == nstime_spec(secs, nanos),
{
    (secs << 30) | (nanos as u64)
}

/// The time since 1970 as the system clock has it, in seconds and nanoseconds;
/// `None` where the clock is set to an earlier time.
///
/// Calls `std::time::SystemTime::elapsed` on `std::time::UNIX_EPOCH`, which
/// gives the difference between that time and the current one. What is claimed
/// of it is that the nanoseconds are a fraction of a second, that is fewer than
/// a billion; which time it is depends on the clock, and is left open.
#[verifier::external_body]
pub(crate) fn since_epoch() -> (r: Option<(u64, u32)>)
    ensures
        r matches Some(time) ==> time.1 < 1_000_000_000,
{
    match std::time::UNIX_EPOCH.elapsed() {
        Ok(time) => Some((time.as_secs(), time.subsec_nanos())),
        Err(_) => None,
    }
}

/// What a reading of the platform clock can be.
pub open spec fn is_nstime(t: u64) -> bool {
    exists|secs: u64, nanos: u32|
        nanos < 1_000_000_000 && t == #[trigger] nstime_spec(secs, nanos)
}

/// The clock value for what the system clock says: the time since the start of
/// 1970, or nothing if the clock is set to a time before. Such a clock reads 0, which
/// the timer test takes for a missing timer.
pub fn clock_value(since: Option<(u64, u32)>) -> (r: u64)
    ensures
        r == match since {
            Some(time) => nstime_spec(time.0, time.1),
            None => 0,
        },
{
    match since {
        Some(time) => nstime(time.0, time.1),
        None => 0,
    }
}

/// The system clock has shown this value: `since_epoch` returned the time that it
/// stands for.
pub closed spec fn was_shown(t: u64) -> bool {
    exists|since: Option<(u64, u32)>| #[trigger]
        call_ensures(since_epoch, (), since) && t == match since {
            Some(time) => nstime_spec(time.0, time.1),
            None => 0,
        }
}

/// Reads the system clock.
pub fn get_nstime() -> (r: u64)
    ensures
        is_nstime(r),
        was_shown(r),
{
    assert(nstime_spec(0, 0) == 0) by (bit_vector);
    let since: Option<(u64, u32)> = since_epoch();
    clock_value(since)
}

/// Up to the year 2514, clock values count up as the clock does: seconds first,
/// then nanoseconds.
pub proof fn law_nstime_is_ordered(secs: u64, nanos: u32, later_secs: u64, later_nanos: u32)
    requires
        nanos < 1_000_000_000,
        later_nanos < 1_000_000_000,
        later_secs < 0x4_0000_0000,
        secs < later_secs || (secs == later_secs && nanos < later_nanos),
    ensures
        nstime_spec(secs, nanos) < nstime_spec(later_secs, later_nanos),
{
    assert(nstime_spec(secs, nanos) < nstime_spec(later_secs, later_nanos)) by (bit_vector)
        requires
            nanos < 1_000_000_000,
            later_nanos < 1_000_000_000,
            later_secs < 0x4_0000_0000,
            secs < later_secs || (secs == later_secs && nanos < later_nanos),
    ;
}

/// A clock value counts units of 2^-30 seconds, up to a wrap-around at 2^64: it
/// holds all bits of the nanoseconds, and as many of the seconds as there is room
/// for.
pub proof fn law_nstime_is_congruent(secs: u64, nanos: u32)
    requires
        nanos < 0x4000_0000,
    ensures
        (secs * 0x4000_0000 + nanos - nstime_spec(secs, nanos)) % 0x1_0000_0000_0000_0000 == 0,
        nstime_spec(secs, nanos) % 0x4000_0000 == nanos,
{
    assert((secs << 30) | (nanos as u64) == (secs % 0x4_0000_0000) * 0x4000_0000 + nanos)
        by (bit_vector)
        requires
            nanos < 0x4000_0000,
    ;
    assert(secs == 0x4_0000_0000 * (secs / 0x4_0000_0000) + secs % 0x4_0000_0000);
}

/// The lower 30 bits of a clock value are a number of nanoseconds.
pub proof fn law_clock_values_hold_nanoseconds(t: u64)
    requires
        is_nstime(t),
    ensures
        t % 0x4000_0000 < 1_000_000_000,
{
    let (secs, nanos): (u64, u32) = choose|secs: u64, nanos: u32|
        nanos < 1_000_000_000 && t == #[trigger] nstime_spec(secs, nanos);
    law_nstime_is_congruent(secs, nanos);
}

/// A value that the system clock has shown stands for a time that it returned.
pub(crate) proof fn law_shown_value_was_returned(t: u64)
    requires
        was_shown(t),
    ensures
        exists|since: Option<(u64, u32)>| #[trigger]
            call_ensures(since_epoch, (), since) && t == match since {
                Some(time) => nstime_spec(time.0, time.1),
                None => 0,
            },
{
}

} // verus!
