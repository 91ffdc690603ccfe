//! Stirring destroys no entropy: no two pools are stirred into the same one.
//!
//! The mixer is linear in the pool, up to the constant it starts from, and the
//! linear part, applied three times, gives zero. A difference that stirring
//! wiped out would be its own image under the linear part, hence zero.

use vstd::prelude::*;

verus! {

use crate::bits::{bit, lemma_xor, rotl};
use crate::pool::{mixer_bits, mixer_step, stirred, MIXER_CONSTANT, MIXER_START};

/// The mixer value of a difference of two pools.
spec fn linear(d: u64) -> u64 {
    mixer_bits(0, d, 64)
}

/// The mixer is linear over XOR in its start and in the pool together.
proof fn lemma_mixer_xor(m1: u64, m2: u64, a: u64, b: u64, n: nat)
    requires
        n <= 64,
    ensures
        mixer_bits(m1, a, n) ^ mixer_bits(m2, b, n) == mixer_bits(m1 ^ m2, a ^ b, n),
    decreases n,
{
    if n > 0 {
        let k = (n - 1) as nat;
        lemma_mixer_xor(m1, m2, a, b, k);
        let x = mixer_bits(m1, a, k);
        let y = mixer_bits(m2, b, k);
        let i = k as u64;
        assert(mixer_step(x, bit(a, i) == 1) ^ mixer_step(y, bit(b, i) == 1) == mixer_step(
            x ^ y,
            bit(a ^ b, i) == 1,
        )) by (bit_vector);
    }
}

/// A turn to the left undoes a turn to the right, and the other way round.
proof fn lemma_turn_back(x: u64)
    ensures
        rotl(rotl(x, 1), 63) == x,
        rotl(rotl(x, 63), 1) == x,
{
    assert(rotl(rotl(x, 1), 63) == x && rotl(rotl(x, 63), 1) == x) by (bit_vector);
}

/// On an empty pool the mixer only turns.
proof fn lemma_mixer_turns(m: u64, n: nat)
    requires
        n <= 64,
    ensures
        mixer_bits(m, 0, n) == if n == 0 || n == 64 {
            m
        } else {
            rotl(m, n as u64)
        },
    decreases n,
{
    if n > 0 {
        let k = (n - 1) as nat;
        lemma_mixer_turns(m, k);
        let i = k as u64;
        assert(bit(0, i) == 0 && (0 < i < 63 ==> rotl(rotl(m, i), 1) == rotl(m, (i + 1) as u64)))
            by (bit_vector);
        lemma_turn_back(m);
    }
}

/// Turning a pool to the right lets the mixer see its lowest bit last.
proof fn lemma_mixer_turned_pool(m: u64, d: u64, n: nat)
    requires
        n <= 63,
    ensures
        mixer_bits(mixer_step(m, bit(d, 0) == 1), rotl(d, 63), n) == mixer_bits(m, d, n + 1),
    decreases n,
{
    reveal_with_fuel(mixer_bits, 2);
    if n > 0 {
        let k = (n - 1) as nat;
        lemma_mixer_turned_pool(m, d, k);
        let i = k as u64;
        assert(i < 63 ==> bit(rotl(d, 63), i) == bit(d, (i + 1) as u64)) by (bit_vector);
    }
}

/// Turning a difference to the right turns its mixer value to the left.
proof fn lemma_linear_turns(d: u64)
    ensures
        linear(rotl(d, 63)) == rotl(linear(d), 1),
{
    let low = bit(d, 0) == 1;
    let turned = rotl(d, 63);
    let first = mixer_step(0, low);
    let rest = mixer_bits(0, turned, 63);
    lemma_mixer_turned_pool(0, d, 63);
    lemma_mixer_xor(first, 0, 0, turned, 63);
    lemma_mixer_turns(first, 63);
    let x = mixer_bits(first, turned, 63);
    lemma_xor(first, 0, 0);
    lemma_xor(turned, 0, 0);
    assert(x == rotl(first, 63) ^ rest);
    assert(linear(d) == x);
    assert(linear(turned) == mixer_step(rest, bit(turned, 63) == 1));
    assert(mixer_step(rest, bit(turned, 63) == 1) == rotl(rotl(first, 63) ^ rest, 1))
        by (bit_vector)
        requires
            turned == rotl(d, 63),
            low == (bit(d, 0) == 1),
            first == mixer_step(0, low),
    ;
}

/// Three rounds of the linear part are as indifferent to a turn as one.
proof fn lemma_cube_turns(d: u64)
    ensures
        linear(linear(linear(rotl(d, 63)))) == rotl(linear(linear(linear(d))), 1),
{
    lemma_linear_turns(d);
    let once = linear(d);
    let turned = rotl(once, 1);
    lemma_linear_turns(turned);
    lemma_turn_back(once);
    let twice = linear(once);
    let back = linear(turned);
    assert(twice == rotl(back, 1));
    lemma_turn_back(back);
    assert(back == rotl(twice, 63));
    lemma_linear_turns(twice);
}

/// The mixer value of the lowest bit, of that value, and of the one after that.
proof fn lemma_mixer_values()
    ensures
        linear(1) == MIXER_CONSTANT,
        linear(MIXER_CONSTANT) == 0x1010101010101010,
        linear(0x1010101010101010) == 0,
        1u64 << 63 == rotl(1, 63),
        rotl(0, 1) == 0,
{
    assert(linear(1) == MIXER_CONSTANT && mixer_bits(0, 0x1010101010101010, 64) == 0 && mixer_bits(
        0,
        MIXER_CONSTANT,
        64,
    ) == 0x1010101010101010 && 1u64 << 63 == rotl(1, 63) && rotl(0, 1) == 0) by (bit_vector);
}

/// Three rounds of the linear part clear every single bit.
proof fn lemma_cube_clears_bit(k: nat)
    requires
        k < 64,
    ensures
        linear(linear(linear(1u64 << (k as u64)))) == 0,
    decreases 64 - k,
{
    let i = k as u64;
    lemma_mixer_values();
    if k == 63 {
        lemma_cube_turns(1);
    } else {
        lemma_cube_clears_bit(k + 1);
        lemma_cube_turns(1u64 << ((k + 1) as u64));
        assert(i < 63 ==> rotl(1u64 << ((i + 1) as u64), 63) == 1u64 << i) by (bit_vector);
    }
}

/// Three rounds of the linear part clear every difference.
proof fn lemma_cube_clears(d: u64, n: nat)
    requires
        n <= 64,
        d >> (n as u64) == 0,
    ensures
        linear(linear(linear(d))) == 0,
    decreases n,
{
    let m = n as u64;
    if n == 0 {
        assert(d >> 0 == 0 ==> d == 0) by (bit_vector);
        lemma_mixer_turns(0, 64);
    } else {
        let top = 1u64 << ((m - 1) as u64);
        let low = d & ((top - 1) as u64);
        assert(low >> ((m - 1) as u64) == 0 && (d == low || d == low ^ top)) by (bit_vector)
            requires
                0 < m <= 64,
                d >> m == 0,
                top == 1u64 << ((m - 1) as u64),
                low == d & ((top - 1) as u64),
        ;
        lemma_cube_clears(low, (n - 1) as nat);
        lemma_cube_clears_bit((n - 1) as nat);
        lemma_xor(0, 0, 0);
        lemma_mixer_xor(0, 0, low, top, 64);
        lemma_mixer_xor(0, 0, linear(low), linear(top), 64);
        lemma_mixer_xor(0, 0, linear(linear(low)), linear(linear(top)), 64);
    }
}

/// Stirring keeps all entropy: two different pools are never stirred into the
/// same pool.
pub proof fn law_stirring_is_injective(a: u64, b: u64)
    ensures
        stirred(a) == stirred(b) ==> a == b,
{
    if stirred(a) == stirred(b) {
        let d = a ^ b;
        let x = mixer_bits(MIXER_START, a, 64);
        let y = mixer_bits(MIXER_START, b, 64);
        lemma_mixer_xor(MIXER_START, MIXER_START, a, b, 64);
        lemma_xor(MIXER_START, 0, 0);
        assert(a ^ b == x ^ y) by (bit_vector)
            requires
                a ^ x == b ^ y,
        ;
        assert(d == linear(d));
        assert(d >> 64 == 0) by (bit_vector);
        lemma_cube_clears(d, 64);
        lemma_xor(a, b, 0);
    }
}

/// Stirring is affine over XOR: of three pools, the XOR of what they are stirred into
/// is what their XOR is stirred into.
pub proof fn law_stirring_is_affine(a: u64, b: u64, c: u64)
    ensures
        stirred(a ^ b ^ c) == stirred(a) ^ stirred(b) ^ stirred(c),
{
    let (x, y, z) = (
        mixer_bits(MIXER_START, a, 64),
        mixer_bits(MIXER_START, b, 64),
        mixer_bits(MIXER_START, c, 64),
    );
    lemma_mixer_xor(MIXER_START, MIXER_START, a, b, 64);
    lemma_mixer_xor(MIXER_START ^ MIXER_START, MIXER_START, a ^ b, c, 64);
    lemma_xor(MIXER_START, 0, 0);
    assert((a ^ b ^ c) ^ (x ^ y ^ z) == (a ^ x) ^ (b ^ y) ^ (c ^ z)) by (bit_vector);
}

/// What stirring mixes into the pool: it starts from one constant, takes in the other
/// for the lowest bit, and what it takes in for the other bits turns with them, the
/// other way round. With the affinity of stirring this leaves nothing open.
pub proof fn law_mixer_turns_with_the_pool(data: u64)
    ensures
        stirred(0) == 0x98badcfe10325476,
        stirred(1) ^ 1 == stirred(0) ^ 0x67452301efcdab89,
        stirred(rotl(data, 63)) ^ rotl(data, 63) ^ stirred(0) == rotl(
            stirred(data) ^ data ^ stirred(0),
            1,
        ),
{
    let start = MIXER_START;
    lemma_mixer_turns(start, 64);
    lemma_xor(start, 0, 0);
    lemma_linear_turns(data);
    lemma_mixer_values();
    let turned = rotl(data, 63);
    lemma_xor(0, data, 0);
    lemma_xor(0, turned, 0);
    lemma_xor(0, 1, 0);
    lemma_xor(data, 0, 0);
    lemma_xor(turned, 0, 0);
    lemma_xor(1, 0, 0);
    lemma_mixer_xor(start, 0, 0, data, 64);
    lemma_mixer_xor(start, 0, 0, turned, 64);
    lemma_mixer_xor(start, 0, 0, 1, 64);
    let (x, y) = (linear(data), linear(turned));
    assert((data ^ (start ^ x)) ^ data ^ start == x && (turned ^ (start ^ y)) ^ turned ^ start == y
        && (1 ^ (start ^ MIXER_CONSTANT)) ^ 1 == start ^ MIXER_CONSTANT) by (bit_vector);
}

} // verus!
