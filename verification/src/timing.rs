//! Differences between timer readings.

use vstd::prelude::*;

verus! {

/// The 32-bit signed number that `x` is congruent to, modulo 2^32.
pub open spec fn signed32(x: int) -> int {
    let low = x % 0x1_0000_0000;
    if low < 0x8000_0000 {
        low
    } else {
        low - 0x1_0000_0000
    }
}

/// The 64-bit signed number that `x` is congruent to, modulo 2^64.
pub open spec fn signed64(x: int) -> int {
    let low = x % 0x1_0000_0000_0000_0000;
    if low < 0x8000_0000_0000_0000 {
        low
    } else {
        low - 0x1_0000_0000_0000_0000
    }
}

/// The time that passed between two readings, as the generator measures it.
pub open spec fn delta_spec(from: u64, to: u64) -> i32 {
    signed32(to - from) as i32
}

/// The time that passed between two readings, in full width.
pub open spec fn long_delta_spec(from: u64, to: u64) -> i64 {
    signed64(to - from) as i64
}

/// The 64-bit word that carries a time difference into the pool.
pub open spec fn widened(delta: i32) -> u64 {
    if delta < 0 {
        (0x1_0000_0000_0000_0000 + delta) as u64
    } else {
        delta as u64
    }
}

/// The difference of two 32-bit numbers, wrapped around.
pub open spec fn difference32(x: i32, y: i32) -> i32 {
    (if x - y > i32::MAX {
        x - y - 0x1_0000_0000
    } else if x - y < i32::MIN {
        x - y + 0x1_0000_0000
    } else {
        x - y
    }) as i32
}

/// Subtracts one 32-bit number from another, and wraps around.
pub fn difference(x: i32, y: i32) -> (r: i32)
    ensures
        r == difference32(x, y),
{
    x.wrapping_sub(y)
}

/// Measures the time that passed from one reading to another. The subtraction
/// wraps around, so that the sign is right even when the timer ran backwards.
pub fn delta(from: u64, to: u64) -> (r: i32)
    ensures
        r == delta_spec(from, to),
{
    let passed: u64 = to.wrapping_sub(from);
    assert(if passed % 0x1_0000_0000 < 0x8000_0000 {
        (passed as i64) as i32 == passed % 0x1_0000_0000
    } else {
        (passed as i64) as i32 == passed % 0x1_0000_0000 - 0x1_0000_0000
    }) by (bit_vector);
    #[verifier::truncate]
    let long: i64 = passed as i64;
    #[verifier::truncate]
    let short: i32 = long as i32;
    short
}

/// Measures the time that passed from one reading to another, in full width.
pub fn long_delta(from: u64, to: u64) -> (r: i64)
    ensures
        r == long_delta_spec(from, to),
{
    let passed: u64 = to.wrapping_sub(from);
    assert(passed >= 0x8000_0000_0000_0000 ==> passed as i64 == passed
        - 0x1_0000_0000_0000_0000) by (bit_vector);
    #[verifier::truncate]
    let long: i64 = passed as i64;
    long
}

/// Widens a time difference to the word that goes into the pool: its sign bit is
/// repeated in all higher bits.
pub fn widen(delta: i32) -> (r: u64)
    ensures
        r == widened(delta),
{
    assert(delta < 0 ==> delta as u64 == (0x1_0000_0000_0000_0000 + delta) as u64) by (bit_vector);
    #[verifier::truncate]
    let wide: u64 = delta as u64;
    wide
}

/// The measured difference is correct, with its sign, for any two readings that
/// are less than 2^31 apart, even if the timer ran backwards in between.
pub proof fn law_delta_is_correct(from: u64, to: u64)
    requires
        -0x8000_0000 <= to - from < 0x8000_0000,
    ensures
        delta_spec(from, to) == to - from,
{
}

/// For any two readings, however far apart, the measured difference and the real
/// one differ by a multiple of 2^32. With the range of the result, no other value
/// can be meant.
pub proof fn law_delta_is_congruent(from: u64, to: u64)
    ensures
        (to - from - delta_spec(from, to)) % 0x1_0000_0000 == 0,
        -0x8000_0000 <= delta_spec(from, to) < 0x8000_0000,
        delta_spec(from, to) == 0 <==> (to - from) % 0x1_0000_0000 == 0,
{
}

/// For any two readings, the difference in full width and the real one differ by a
/// multiple of 2^64; it is the real one where that fits into 64 bits, and zero only
/// for equal readings.
pub proof fn law_long_delta_is_congruent(from: u64, to: u64)
    ensures
        (to - from - long_delta_spec(from, to)) % 0x1_0000_0000_0000_0000 == 0,
        -0x8000_0000_0000_0000 <= to - from < 0x8000_0000_0000_0000 ==> long_delta_spec(from, to)
            == to - from,
        long_delta_spec(from, to) == 0 <==> from == to,
{
}

/// The word that carries a time difference into the pool holds all of it: it is
/// congruent to the difference modulo 2^64, so that different differences are
/// carried by different words.
pub proof fn law_widened_holds_the_delta(delta: i32, other: i32)
    ensures
        (widened(delta) - delta) % 0x1_0000_0000_0000_0000 == 0,
        widened(delta) == widened(other) ==> delta == other,
{
}

/// A wrapped difference and the real one differ by a multiple of 2^32.
pub proof fn law_difference_is_congruent(x: i32, y: i32)
    ensures
        (x - y - difference32(x, y)) % 0x1_0000_0000 == 0,
        -0x8000_0000 <= x - y < 0x8000_0000 ==> difference32(x, y) == x - y,
        difference32(x, y) == 0 <==> x == y,
{
}

} // verus!
