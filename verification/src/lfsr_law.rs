//! What the shift register does to the entropy of the pool and of the time
//! values it takes in: it loses neither.

use vstd::prelude::*;

verus! {

use crate::bits::{bit, lemma_bit_is_small, rotl};
use crate::pool::{feedback, lfsr_bits, lfsr_repeated, lfsr_spec, lfsr_step};
use vstd::arithmetic::div_mod::lemma_mod_equivalence;

proof fn lemma_pools_stay_apart(a: u64, b: u64, time: u64, n: nat)
    ensures
        lfsr_bits(a, time, n) == lfsr_bits(b, time, n) ==> a == b,
    decreases n,
{
    if n > 0 {
        let k = (n - 1) as nat;
        lemma_pools_stay_apart(a, b, time, k);
        let x = lfsr_bits(a, time, k);
        let y = lfsr_bits(b, time, k);
        let input = bit(time, k as u64);
        lemma_bit_is_small(time, k as u64);
        assert(input <= 1 && lfsr_step(x, input) == lfsr_step(y, input) ==> x == y) by (bit_vector);
    }
}

/// Taking in a time value keeps the entropy that is in the pool: two different
/// pools stay different, whatever the time value is.
pub proof fn law_lfsr_keeps_pool_entropy(a: u64, b: u64, time: u64)
    ensures
        lfsr_spec(a, time) == lfsr_spec(b, time) ==> a == b,
{
    lemma_pools_stay_apart(a, b, time, 64);
}

/// As long as two time values agree the pools do; once they have differed, the
/// pools differ in the bit that took in the first difference.
proof fn lemma_difference_travels(data: u64, s: u64, t: u64, n: nat) -> (k: nat)
    requires
        n <= 64,
    ensures
        s << ((64 - n) as u64) == t << ((64 - n) as u64) ==> lfsr_bits(data, s, n) == lfsr_bits(
            data,
            t,
            n,
        ),
        s << ((64 - n) as u64) != t << ((64 - n) as u64) ==> {
            &&& k < n
            &&& bit(lfsr_bits(data, s, n), ((n - k) % 64) as u64) != bit(
                lfsr_bits(data, t, n),
                ((n - k) % 64) as u64,
            )
        },
    decreases n,
{
    if n == 0 {
        assert(s << 64 == t << 64) by (bit_vector);
        0
    } else {
        let m = (n - 1) as nat;
        let i = m as u64;
        let up = (64 - n) as u64;
        let earlier = lemma_difference_travels(data, s, t, m);
        let x = lfsr_bits(data, s, m);
        let y = lfsr_bits(data, t, m);
        let in_x = bit(s, i);
        let in_y = bit(t, i);
        assert(in_x <= 1 && in_y <= 1 && (s << up == t << up <==> (in_x == in_y && s << ((up
            + 1) as u64) == t << ((up + 1) as u64)))) by (bit_vector)
            requires
                i < 64,
                up == (63 - i) as u64,
                in_x == bit(s, i),
                in_y == bit(t, i),
        ;
        if s << ((up + 1) as u64) == t << ((up + 1) as u64) {
            assert(in_x <= 1 && in_y <= 1 && in_x != in_y ==> bit(lfsr_step(x, in_x), 1) != bit(
                lfsr_step(x, in_y),
                1,
            )) by (bit_vector);
            m
        } else {
            let p = ((m - earlier) % 64) as u64;
            assert(bit(lfsr_step(x, in_x), ((p + 1) % 64) as u64) == bit(x, p)) by (bit_vector)
                requires
                    0 < p < 64,
                    in_x <= 1,
            ;
            assert(bit(lfsr_step(y, in_y), ((p + 1) % 64) as u64) == bit(y, p)) by (bit_vector)
                requires
                    0 < p < 64,
                    in_y <= 1,
            ;
            earlier
        }
    }
}

/// Every bit of a time value goes into the pool: two different time values turn
/// the same pool into different ones.
pub proof fn law_lfsr_takes_in_all_of_time(data: u64, s: u64, t: u64)
    ensures
        lfsr_spec(data, s) == lfsr_spec(data, t) ==> s == t,
{
    let k = lemma_difference_travels(data, s, t, 64);
    assert(s << 0 == t << 0 ==> s == t) by (bit_vector);
}

/// The turn by seven bits that follows a measurement keeps different pools
/// different.
pub proof fn law_turn_is_injective(a: u64, b: u64)
    ensures
        rotl(a, 7) == rotl(b, 7) ==> a == b,
{
    assert(rotl(a, 7) == rotl(b, 7) ==> a == b) by (bit_vector);
}

/// A word after `k` turns by seven bits.
pub open spec fn turned(x: u64, k: nat) -> u64
    decreases k,
{
    if k == 0 {
        x
    } else {
        rotl(turned(x, (k - 1) as nat), 7)
    }
}

/// Where `k` turns by seven bits take the bit at `from`.
pub open spec fn position(from: int, k: int) -> int {
    (from + 7 * k) % 64
}

/// A bit moves by seven positions with each turn.
pub proof fn law_turn_moves_bits(x: u64, from: u64, k: nat)
    requires
        from < 64,
    ensures
        bit(turned(x, k), position(from as int, k as int) as u64) == bit(x, from),
    decreases k,
{
    if k > 0 {
        law_turn_moves_bits(x, from, (k - 1) as nat);
        let y = turned(x, (k - 1) as nat);
        let p = position(from as int, k - 1) as u64;
        assert(bit(rotl(y, 7), ((p + 7) % 64) as u64) == bit(y, p)) by (bit_vector)
            requires
                p < 64,
        ;
        assert((p + 7) % 64 == position(from as int, k as int));
    }
}

/// The turn at which a bit comes to a position: 55 turns move it by one.
proof fn lemma_position(from: int, k: int, to: int)
    requires
        0 <= to < 64,
    ensures
        position(from, k) == to <==> k % 64 == ((to - from) * 55) % 64,
{
    let there = from + 7 * k - to;
    let back = (to - from) * 55 - k;
    // 7 * 55 is 6 * 64 + 1.
    assert(there == -7 * back + 64 * (6 * (to - from)));
    assert(back == -55 * there + 64 * (6 * k));
    if there % 64 == 0 {
        assert(back == 64 * (-55 * (there / 64) + 6 * k));
    }
    if back % 64 == 0 {
        assert(there == 64 * (-7 * (back / 64) + 6 * (to - from)));
    }
    lemma_mod_equivalence(from + 7 * k, to, 64);
    lemma_mod_equivalence((to - from) * 55, k, 64);
}

/// Every bit of the pool comes to every position just once in 64 turns, so that
/// all positions have an even chance of meeting a bit of the next time value.
pub proof fn law_turns_reach_every_position(from: int, to: int)
    requires
        0 <= from < 64,
        0 <= to < 64,
    ensures
        exists|k: int| 0 <= k < 64 && #[trigger] position(from, k) == to,
        forall|i: int, j: int|
            0 <= i < 64 && 0 <= j < 64 && #[trigger] position(from, i) == #[trigger] position(
                from,
                j,
            ) ==> i == j,
{
    let k = ((to - from) * 55) % 64;
    lemma_position(from, k, to);
    assert forall|i: int, j: int|
        0 <= i < 64 && 0 <= j < 64 && #[trigger] position(from, i) == #[trigger] position(
            from,
            j,
        ) implies i == j by {
        lemma_position(from, i, position(from, i));
        lemma_position(from, j, position(from, i));
    }
}

proof fn lemma_lfsr_xor(a: u64, b: u64, s: u64, t: u64, n: nat)
    requires
        n <= 64,
    ensures
        lfsr_bits(a ^ b, s ^ t, n) == lfsr_bits(a, s, n) ^ lfsr_bits(b, t, n),
    decreases n,
{
    if n > 0 {
        let k = (n - 1) as nat;
        let i = k as u64;
        lemma_lfsr_xor(a, b, s, t, k);
        let x = lfsr_bits(a, s, k);
        let y = lfsr_bits(b, t, k);
        assert(lfsr_step(x ^ y, bit(s ^ t, i)) == lfsr_step(x, bit(s, i)) ^ lfsr_step(
            y,
            bit(t, i),
        )) by (bit_vector);
    }
}

/// The shift register is linear over XOR, in the pool and in the time value
/// together: what two time values do to two pools, their XOR does to the XOR of the
/// pools.
pub proof fn law_lfsr_is_linear(a: u64, b: u64, s: u64, t: u64)
    ensures
        lfsr_spec(a ^ b, s ^ t) == lfsr_spec(a, s) ^ lfsr_spec(b, t),
{
    lemma_lfsr_xor(a, b, s, t, 64);
}

/// The pool after a single bit went in by the polynomial
/// x^64 + x^61 + x^56 + x^31 + x^28 + x^23 + 1: the lowest bit is flipped if an odd
/// number of the taps and the bit are set, and the word turns left by one.
pub open spec fn fed(data: u64, input: bool) -> u64 {
    let set = bit(data, 63) + bit(data, 60) + bit(data, 55) + bit(data, 30) + bit(data, 27) + bit(
        data,
        22,
    ) + if input {
        1int
    } else {
        0
    };
    rotl(
        if set % 2 == 1 {
            data ^ 1
        } else {
            data
        },
        1,
    )
}

proof fn lemma_fed(data: u64, input: u64)
    requires
        input <= 1,
    ensures
        lfsr_step(data, input) == fed(data, input == 1),
{
    let flip = (feedback(data) ^ input) == 1;
    let (a, b, c) = (bit(data, 63), bit(data, 60), bit(data, 55));
    let (d, e, f) = (bit(data, 30), bit(data, 27), bit(data, 22));
    assert(a <= 1 && b <= 1 && c <= 1 && d <= 1 && e <= 1 && f <= 1 && flip == ((a + b + c + d + e
        + f + input) % 2 == 1) && data ^ input ^ feedback(data) == if flip {
        data ^ 1
    } else {
        data
    }) by (bit_vector)
        requires
            input <= 1,
            flip == ((feedback(data) ^ input) == 1),
            a == bit(data, 63),
            b == bit(data, 60),
            c == bit(data, 55),
            d == bit(data, 30),
            e == bit(data, 27),
            f == bit(data, 22),
    ;
}

proof fn lemma_lfsr_shifts(data: u64, time: u64, input: bool, n: nat)
    requires
        n <= 63,
    ensures
        lfsr_bits(fed(data, input), time, n) == lfsr_bits(
            data,
            (time << 1) | if input {
                1u64
            } else {
                0
            },
            n + 1,
        ),
    decreases n,
{
    let low: u64 = if input {
        1
    } else {
        0
    };
    let longer = (time << 1) | low;
    let i = n as u64;
    assert(bit(longer, 0) == low && (0 < i < 64 ==> bit(longer, i) == bit(time, (i - 1) as u64)))
        by (bit_vector)
        requires
            longer == (time << 1) | low,
            low <= 1,
    ;
    reveal_with_fuel(lfsr_bits, 2);
    if n == 0 {
        lemma_fed(data, low);
    } else {
        lemma_lfsr_shifts(data, time, input, (n - 1) as nat);
    }
}

/// The bits of a time value go in one after the other, the lowest first, each by the
/// polynomial: to feed a bit and then a time value is to feed the time value that
/// starts with the bit, and then the bit that fell off its end.
pub proof fn law_lfsr_follows_its_polynomial(data: u64, time: u64, input: bool)
    ensures
        lfsr_spec(fed(data, input), time) == fed(
            lfsr_spec(
                data,
                (time << 1) | if input {
                    1u64
                } else {
                    0
                },
            ),
            bit(time, 63) == 1,
        ),
{
    lemma_lfsr_shifts(data, time, input, 63);
    lemma_bit_is_small(time, 63);
    lemma_fed(lfsr_bits(fed(data, input), time, 63), bit(time, 63));
}

/// Repeated runs of the shift register add up: none leave the pool as it is, one is
/// a run of the shift register, and `m` runs and then `n` more are `m + n` runs.
pub proof fn law_repeated_runs_add_up(data: u64, time: u64, m: nat, n: nat)
    ensures
        lfsr_repeated(data, time, 0) == data,
        lfsr_repeated(data, time, 1) == lfsr_spec(data, time),
        lfsr_repeated(lfsr_repeated(data, time, m), time, n) == lfsr_repeated(data, time, m + n),
    decreases n,
{
    reveal_with_fuel(lfsr_repeated, 2);
    if n > 0 {
        law_repeated_runs_add_up(data, time, m, (n - 1) as nat);
    }
}

} // verus!
