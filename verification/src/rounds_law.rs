//! The number of rounds that the timer test gives is the least that is enough.

use vstd::prelude::*;

verus! {

use crate::timer_test::rounds_spec;
use vstd::arithmetic::logarithm::log;
use vstd::arithmetic::power::{
    lemma_pow1, lemma_pow_adds, lemma_pow_increases, lemma_pow_positive, pow,
};

/// A number lies between the powers of two that its logarithm stands for.
proof fn lemma_log_bounds(x: int)
    requires
        x > 0,
    ensures
        log(2, x) >= 0,
        pow(2, log(2, x) as nat) <= x < pow(2, (log(2, x) + 1) as nat),
    decreases x,
{
    reveal(log);
    reveal_with_fuel(pow, 2);
    if x >= 2 {
        lemma_log_bounds(x / 2);
    }
}

/// There is one number of binary digits only.
proof fn lemma_digits(x: int, b: nat)
    requires
        b > 0,
        pow(2, (b - 1) as nat) <= x < pow(2, b),
    ensures
        b == log(2, x) + 1,
{
    lemma_pow_positive(2, (b - 1) as nat);
    lemma_log_bounds(x);
    let l = log(2, x) as nat;
    if l + 1 < b {
        lemma_pow_increases(2, l + 1, (b - 1) as nat);
    }
    if b < l + 1 {
        lemma_pow_increases(2, b, l);
    }
}

/// No number of rounds is given for an average variation below 2, and one for every
/// other.
pub proof fn law_rounds_need_variation(average: u64)
    ensures
        rounds_spec(average) is None <==> average < 2,
{
}

/// The rounds are enough for 64 bits, and no more than needed: where the deltas vary
/// by an average of 16 or more that has `b` binary digits, and a round is taken to
/// yield `b / 2` bits, it is the least number of rounds that yields 64.
pub proof fn law_rounds_are_just_enough(average: u64, b: nat)
    requires
        average >= 16,
        b > 0,
        pow(2, (b - 1) as nat) <= average < pow(2, b),
    ensures
        rounds_spec(average) matches Some(r) && r * b >= 128 && (r - 1) * b < 128,
{
    lemma_digits(average as int, b);
    reveal_with_fuel(pow, 6);
    if b <= 4 {
        lemma_pow_increases(2, b, 4);
    }
    let r = (128 + b - 1) / b as int;
    assert(r * b >= 128 && (r - 1) * b < 128 && 0 <= r < 256) by (nonlinear_arith)
        requires
            b >= 5,
            r == (128 + b - 1) / b as int,
    ;
}

/// A power from the power of half the exponent.
proof fn lemma_doubled(a: int, k: nat, v: int)
    requires
        pow(a, k) == v,
    ensures
        pow(a, 2 * k) == v * v,
        pow(a, 2 * k + 1) == v * v * a,
{
    lemma_pow_adds(a, k, k);
    lemma_pow_adds(a, 2 * k, 1);
    lemma_pow1(a);
}

/// As for larger variations, but without rounding: where the deltas vary by an average
/// from 2 to 15, and a round is taken to yield half the binary logarithm of the average
/// in bits, it is the least number of rounds that yields 64. In whole numbers: it is
/// the least `r` for which the average to the power of `r` is no less than 2^128.
pub proof fn law_few_variations_take_just_enough_rounds(average: u64)
    requires
        2 <= average < 16,
    ensures
        rounds_spec(average) matches Some(r) && r > 0 && pow(average as int, (r - 1) as nat)
            < 0x1_0000_0000_0000_0000 * 0x1_0000_0000_0000_0000 <= pow(average as int, r as nat),
{
    if average == 2 {
        lemma_pow1(2);
        lemma_doubled(2, 1, 2);
        lemma_doubled(2, 3, 8);
        lemma_doubled(2, 7, 128);
        lemma_doubled(2, 15, 32768);
        lemma_doubled(2, 31, 2147483648);
        lemma_doubled(2, 63, 9223372036854775808);
        lemma_pow_adds(2, 127, 1);
    } else if average == 3 {
        lemma_pow1(3);
        lemma_doubled(3, 1, 3);
        lemma_doubled(3, 2, 9);
        lemma_doubled(3, 5, 243);
        lemma_doubled(3, 10, 59049);
        lemma_doubled(3, 20, 3486784401);
        lemma_doubled(3, 40, 12157665459056928801);
        lemma_pow_adds(3, 80, 1);
    } else if average == 4 {
        lemma_pow1(4);
        lemma_doubled(4, 1, 4);
        lemma_doubled(4, 3, 64);
        lemma_doubled(4, 7, 16384);
        lemma_doubled(4, 15, 1073741824);
        lemma_doubled(4, 31, 4611686018427387904);
        lemma_pow_adds(4, 63, 1);
    } else if average == 5 {
        lemma_pow1(5);
        lemma_doubled(5, 1, 5);
        lemma_doubled(5, 3, 125);
        lemma_doubled(5, 6, 15625);
        lemma_doubled(5, 13, 1220703125);
        lemma_doubled(5, 27, 7450580596923828125);
        lemma_pow_adds(5, 55, 1);
    } else if average == 6 {
        lemma_pow1(6);
        lemma_doubled(6, 1, 6);
        lemma_doubled(6, 3, 216);
        lemma_doubled(6, 6, 46656);
        lemma_doubled(6, 12, 2176782336);
        lemma_doubled(6, 24, 4738381338321616896);
        lemma_pow_adds(6, 49, 1);
    } else if average == 7 {
        lemma_pow1(7);
        lemma_doubled(7, 1, 7);
        lemma_doubled(7, 2, 49);
        lemma_doubled(7, 5, 16807);
        lemma_doubled(7, 11, 1977326743);
        lemma_doubled(7, 22, 3909821048582988049);
        lemma_pow_adds(7, 45, 1);
    } else if average == 8 {
        lemma_pow1(8);
        lemma_doubled(8, 1, 8);
        lemma_doubled(8, 2, 64);
        lemma_doubled(8, 5, 32768);
        lemma_doubled(8, 10, 1073741824);
        lemma_doubled(8, 21, 9223372036854775808);
        lemma_pow_adds(8, 42, 1);
    } else if average == 9 {
        lemma_pow1(9);
        lemma_doubled(9, 1, 9);
        lemma_doubled(9, 2, 81);
        lemma_doubled(9, 5, 59049);
        lemma_doubled(9, 10, 3486784401);
        lemma_doubled(9, 20, 12157665459056928801);
        lemma_pow_adds(9, 40, 1);
    } else if average == 10 {
        lemma_pow1(10);
        lemma_doubled(10, 1, 10);
        lemma_doubled(10, 2, 100);
        lemma_doubled(10, 4, 10000);
        lemma_doubled(10, 9, 1000000000);
        lemma_doubled(10, 19, 10000000000000000000);
        lemma_pow_adds(10, 38, 1);
    } else if average == 11 {
        lemma_pow1(11);
        lemma_doubled(11, 1, 11);
        lemma_doubled(11, 2, 121);
        lemma_doubled(11, 4, 14641);
        lemma_doubled(11, 9, 2357947691);
        lemma_doubled(11, 18, 5559917313492231481);
        lemma_pow_adds(11, 37, 1);
    } else if average == 12 {
        lemma_pow1(12);
        lemma_doubled(12, 1, 12);
        lemma_doubled(12, 2, 144);
        lemma_doubled(12, 4, 20736);
        lemma_doubled(12, 8, 429981696);
        lemma_doubled(12, 17, 2218611106740436992);
        lemma_pow_adds(12, 35, 1);
    } else if average == 13 {
        lemma_pow1(13);
        lemma_doubled(13, 1, 13);
        lemma_doubled(13, 2, 169);
        lemma_doubled(13, 4, 28561);
        lemma_doubled(13, 8, 815730721);
        lemma_doubled(13, 17, 8650415919381337933);
        lemma_pow_adds(13, 34, 1);
    } else if average == 14 {
        lemma_pow1(14);
        lemma_doubled(14, 1, 14);
        lemma_doubled(14, 2, 196);
        lemma_doubled(14, 4, 38416);
        lemma_doubled(14, 8, 1475789056);
        lemma_doubled(14, 16, 2177953337809371136);
        lemma_pow_adds(14, 33, 1);
    } else {
        lemma_pow1(15);
        lemma_doubled(15, 1, 15);
        lemma_doubled(15, 2, 225);
        lemma_doubled(15, 4, 50625);
        lemma_doubled(15, 8, 2562890625);
        lemma_doubled(15, 16, 6568408355712890625);
        lemma_pow_adds(15, 32, 1);
    }
}

} // verus!
