//! The entropy pool: a 64-bit word that takes in timing values through a
//! linear feedback shift register and is stirred before it is handed out.

use vstd::prelude::*;

use crate::bits::rotate_left;

verus! {

use crate::bits::{bit, lemma_bit_is_small, lemma_xor, rotl};

/// The feedback of the shift register, with the polynomial
/// x^64 + x^61 + x^56 + x^31 + x^28 + x^23 + 1. The taps lie one below the
/// exponents, since bits are counted from 0.
pub open spec fn feedback(data: u64) -> u64 {
    ((data >> 63) ^ (data >> 60) ^ (data >> 55) ^ (data >> 30) ^ (data >> 27) ^ (data >> 22)) & 1
}

/// One step of the shift register: `input` and the feedback go into the lowest
/// bit, and the word turns left by one.
pub open spec fn lfsr_step(data: u64, input: u64) -> u64 {
    rotl(data ^ input ^ feedback(data), 1)
}

/// The pool `data` after the `n` lowest bits of `time` went in, lowest first.
pub open spec fn lfsr_bits(data: u64, time: u64, n: nat) -> u64
    decreases n,
{
    if n == 0 {
        data
    } else {
        lfsr_step(lfsr_bits(data, time, (n - 1) as nat), bit(time, (n - 1) as u64))
    }
}

/// The pool `data` after all of `time` went in.
pub open spec fn lfsr_spec(data: u64, time: u64) -> u64 {
    lfsr_bits(data, time, 64)
}

/// Injects the bits of `time` into the pool `data`, one by one.
///
/// The bits are shifted out in a deliberately slow way: the run time of this
/// function is what the generator measures.
pub fn lfsr(data: u64, time: u64) -> (r: u64)
    ensures
        r == lfsr_spec(data, time),
{
    let ghost start = data;
    let mut data: u64 = data;
    let mut i: u64 = 1;
    while i < 65
        invariant
            1 <= i <= 65,
            data == lfsr_bits(start, time, (i - 1) as nat),
        decreases 65 - i,
    {
        let ghost before = data;
        let mut tmp: u64 = time << (64 - i);
        tmp = tmp >> 63;
        proof {
            let j: u64 = (i - 1) as u64;
            let up: u64 = (64 - i) as u64;
            assert((time << up) >> 63 == (time >> j) & 1) by (bit_vector)
                requires
                    1 <= i <= 64,
                    j == (i - 1) as u64,
                    up == (64 - i) as u64,
            ;
            lemma_bit_is_small(time, j);
        }
        data = data ^ tmp;
        data = data ^ ((data >> 63) & 1);
        data = data ^ ((data >> 60) & 1);
        data = data ^ ((data >> 55) & 1);
        data = data ^ ((data >> 30) & 1);
        data = data ^ ((data >> 27) & 1);
        data = data ^ ((data >> 22) & 1);
        proof {
            lemma_taps_in_turn(before, tmp);
        }
        data = rotate_left(data, 1);
        i = i + 1;
    }
    data
}

/// The pool `data` after `time` went in `n` times.
pub open spec fn lfsr_repeated(data: u64, time: u64, n: nat) -> u64
    decreases n,
{
    if n == 0 {
        data
    } else {
        lfsr_spec(lfsr_repeated(data, time, (n - 1) as nat), time)
    }
}

/// Runs the shift register `count` times on a pool that is not the generator's,
/// and starts out empty.
pub fn lfsr_throw_away(time: u64, count: u32) -> (r: u64)
    ensures
        r == lfsr_repeated(0, time, count as nat),
{
    let mut throw_away: u64 = 0;
    let mut done: u32 = 0;
    while done < count
        invariant
            done <= count,
            throw_away == lfsr_repeated(0, time, done as nat),
        decreases count - done,
    {
        throw_away = lfsr(throw_away, time);
        done = done + 1;
    }
    throw_away
}

/// Taking the taps one after the other is the same as taking them at once,
/// since none of them is the bit that changes.
proof fn lemma_taps_in_turn(data: u64, input: u64)
    requires
        input <= 1,
    ensures
        ({
            let d0 = data ^ input;
            let d1 = d0 ^ ((d0 >> 63) & 1);
            let d2 = d1 ^ ((d1 >> 60) & 1);
            let d3 = d2 ^ ((d2 >> 55) & 1);
            let d4 = d3 ^ ((d3 >> 30) & 1);
            let d5 = d4 ^ ((d4 >> 27) & 1);
            let d6 = d5 ^ ((d5 >> 22) & 1);
            d6 == data ^ input ^ feedback(data)
        }),
{
    let d0 = data ^ input;
    let d1 = d0 ^ ((d0 >> 63) & 1);
    let d2 = d1 ^ ((d1 >> 60) & 1);
    let d3 = d2 ^ ((d2 >> 55) & 1);
    let d4 = d3 ^ ((d3 >> 30) & 1);
    let d5 = d4 ^ ((d4 >> 27) & 1);
    let d6 = d5 ^ ((d5 >> 22) & 1);
    assert(d6 == data ^ input ^ feedback(data)) by (bit_vector)
        requires
            input <= 1,
            d0 == data ^ input,
            d1 == d0 ^ ((d0 >> 63) & 1),
            d2 == d1 ^ ((d1 >> 60) & 1),
            d3 == d2 ^ ((d2 >> 55) & 1),
            d4 == d3 ^ ((d3 >> 30) & 1),
            d5 == d4 ^ ((d4 >> 27) & 1),
            d6 == d5 ^ ((d5 >> 22) & 1),
    ;
}


/// The two SHA-1 constants that are mixed in for every set bit of the pool.
pub const MIXER_CONSTANT: u64 = 0x67452301efcdab89;

/// The two SHA-1 constants that the mixer starts from.
pub const MIXER_START: u64 = 0x98badcfe10325476;

/// One step of the mixer: takes in the constant where the bit is set, and turns
/// left by one.
pub open spec fn mixer_step(mixer: u64, set: bool) -> u64 {
    rotl(
        if set {
            mixer ^ MIXER_CONSTANT
        } else {
            mixer
        },
        1,
    )
}

/// The mixer, started from `mixer`, after it has seen the `n` lowest bits of
/// `data`.
pub open spec fn mixer_bits(mixer: u64, data: u64, n: nat) -> u64
    decreases n,
{
    if n == 0 {
        mixer
    } else {
        mixer_step(
            mixer_bits(mixer, data, (n - 1) as nat),
            bit(data, (n - 1) as u64) == 1,
        )
    }
}

/// The pool `data` after it has been stirred: XORed with the mixer value that
/// its own bits select.
pub open spec fn stirred(data: u64) -> u64 {
    data ^ mixer_bits(MIXER_START, data, 64)
}

/// Stirs the pool: mixes into it, by XOR, a value that depends on which of its
/// bits are set.
///
/// The constant is selected by a mask and not by a branch, so that the run time
/// tells nothing of the pool.
pub fn stir(data: u64) -> (r: u64)
    ensures
        r == stirred(data),
{
    let mut mixer: u64 = MIXER_START;
    let mut i: u64 = 0;
    while i < 64
        invariant
            i <= 64,
            mixer == mixer_bits(MIXER_START, data, i as nat),
        decreases 64 - i,
    {
        let apply: u64 = (data >> i) & 1;
        let mask: u64 = !apply.wrapping_sub(1);
        proof {
            lemma_bit_is_small(data, i);
            lemma_xor(mixer, 0, 0);
            assert(MIXER_CONSTANT & !0u64 == MIXER_CONSTANT && MIXER_CONSTANT & !u64::MAX == 0)
                by (bit_vector);
        }
        mixer = mixer ^ (MIXER_CONSTANT & mask);
        mixer = rotate_left(mixer, 1);
        i = i + 1;
    }
    data ^ mixer
}

} // verus!
