//! Rotations and folds of 64-bit words.

use vstd::prelude::*;

verus! {

use vstd::arithmetic::div_mod::lemma_mod_sub_multiples_vanish;

/// `x` rotated left by `n` bits, for `n` between 1 and 63.
pub open spec fn rotl(x: u64, n: u64) -> u64 {
    (x << n) | (x >> ((64 - n) as u64))
}

/// Bit `i` of `x`, as a number.
pub open spec fn bit(x: u64, i: u64) -> u64 {
    (x >> i) & 1
}

/// A bit is 0 or 1.
pub(crate) proof fn lemma_bit_is_small(x: u64, i: u64)
    ensures
        bit(x, i) <= 1,
{
    assert((x >> i) & 1 <= 1) by (bit_vector);
}

/// XOR is a group operation in which everything is its own inverse.
pub(crate) proof fn lemma_xor(a: u64, b: u64, c: u64)
    ensures
        a ^ 0 == a,
        0 ^ a == a,
        a ^ a == 0,
        (a ^ b) ^ c == a ^ (b ^ c),
        a ^ b == 0 ==> a == b,
{
    assert(a ^ 0 == a && 0 ^ a == a && a ^ a == 0 && (a ^ b) ^ c == a ^ (b ^ c) && (a ^ b == 0
        ==> a == b)) by (bit_vector);
}

/// Shifts and casts split a word into its halves.
pub(crate) proof fn lemma_halves(x: u64)
    ensures
        x as u32 == x % 0x1_0000_0000,
        x >> 32 == x / 0x1_0000_0000,
{
    assert(x as u32 == x % 0x1_0000_0000 && x >> 32 == x / 0x1_0000_0000) by (bit_vector);
}

/// Rotates `x` left by `n` bits.
pub fn rotate_left(x: u64, n: u64) -> (r: u64)
    requires
        0 < n < 64,
    ensures
        r == rotl(x, n),
{
    (x << n) | (x >> (64 - n))
}

/// The XOR of the `folds` lowest digits of `time`, each of `n_bits` bits.
pub open spec fn xor_fold(time: u64, n_bits: u64, folds: nat) -> u64
    decreases folds,
{
    if folds == 0 {
        0
    } else {
        (time & (((1u64 << n_bits) - 1) as u64)) ^ xor_fold(
            time >> n_bits,
            n_bits,
            (folds - 1) as nat,
        )
    }
}

/// How many digits of `n_bits` bits it takes to cover all 64 bits of a word.
pub open spec fn digits(n_bits: int) -> int {
    (64 + n_bits - 1) / n_bits
}

/// The whole of `time` folded down to `n_bits` bits.
pub open spec fn folded(time: u64, n_bits: u64) -> u64 {
    xor_fold(time, n_bits, digits(n_bits as int) as nat)
}

/// A fold has no more bits than its digits.
pub(crate) proof fn lemma_fold_is_small(time: u64, n_bits: u64, folds: nat)
    requires
        0 < n_bits < 64,
    ensures
        xor_fold(time, n_bits, folds) < 1u64 << n_bits,
    decreases folds,
{
    let rest = if folds == 0 {
        0
    } else {
        xor_fold(time >> n_bits, n_bits, (folds - 1) as nat)
    };
    if folds > 0 {
        lemma_fold_is_small(time >> n_bits, n_bits, (folds - 1) as nat);
    }
    assert(0 < 1u64 << n_bits && (rest < 1u64 << n_bits ==> (time & (((1u64 << n_bits) - 1)
        as u64)) ^ rest < 1u64 << n_bits)) by (bit_vector)
        requires
            0 < n_bits < 64,
    ;
}

/// Folds `time` down to `n_bits` bits: the XOR of all its `n_bits`-wide digits.
pub fn fold_time(time: u64, n_bits: u32) -> (r: u64)
    requires
        0 < n_bits < 64,
    ensures
        r == folded(time, n_bits as u64),
        r < 1u64 << (n_bits as u64),
{
    let n: u64 = n_bits as u64;
    let ghost start = time;
    let mut time: u64 = time;
    let mut rounds: u64 = 0;
    let folds: u64 = (64 + n - 1) / n;
    assert((1u64 << n) >= 1) by (bit_vector)
        requires
            n < 64,
    ;
    let mask: u64 = (1u64 << n) - 1;
    let mut done: u64 = 0;
    proof {
        lemma_xor(folded(start, n), 0, 0);
    }
    while done < folds
        invariant
            0 < n < 64,
            mask == ((1u64 << n) - 1) as u64,
            done <= folds,
            rounds ^ xor_fold(time, n, (folds - done) as nat) == xor_fold(start, n, folds as nat),
        decreases folds - done,
    {
        let digit: u64 = time & mask;
        let ghost rest = xor_fold(time >> n, n, (folds - done - 1) as nat);
        assert(xor_fold(time, n, (folds - done) as nat) == digit ^ rest);
        proof {
            lemma_xor(rounds, digit, rest);
        }
        rounds = rounds ^ digit;
        time = time >> n;
        done = done + 1;
    }
    proof {
        lemma_xor(rounds, 0, 0);
        lemma_fold_is_small(start, n, folds as nat);
    }
    rounds
}

/// A flipped bit among those that are folded flips one bit of the fold.
proof fn lemma_fold_flips(time: u64, n: u64, folds: nat, j: u64)
    requires
        0 < n < 64,
        j < 64,
        j < folds * n,
    ensures
        xor_fold(time ^ (1u64 << j), n, folds) == xor_fold(time, n, folds) ^ (1u64 << ((j % n)
            as u64)),
    decreases folds,
{
    let flipped = time ^ (1u64 << j);
    let mask = ((1u64 << n) - 1) as u64;
    if folds == 0 {
        assert(folds * n == 0) by (nonlinear_arith)
            requires
                folds == 0,
        ;
    } else {
        let rest = xor_fold(time >> n, n, (folds - 1) as nat);
        let digit = time & mask;
        if j < n {
            assert(j % n == j) by (nonlinear_arith)
                requires
                    0 <= j < n,
            ;
            assert(flipped >> n == time >> n && (flipped & mask) ^ rest == (digit ^ rest) ^ (1u64
                << j)) by (bit_vector)
                requires
                    j < n < 64,
                    flipped == time ^ (1u64 << j),
                    mask == ((1u64 << n) - 1) as u64,
                    digit == time & mask,
            ;
        } else {
            let below = (j - n) as u64;
            assert(below < (folds - 1) * n) by (nonlinear_arith)
                requires
                    j < folds * n,
                    below == j - n,
            ;
            lemma_fold_flips(time >> n, n, (folds - 1) as nat, below);
            assert(below % n == j % n) by {
                lemma_mod_sub_multiples_vanish(j as int, n as int);
            }
            let low = 1u64 << ((j % n) as u64);
            assert(flipped >> n == (time >> n) ^ (1u64 << below) && flipped & mask == digit)
                by (bit_vector)
                requires
                    n <= j < 64,
                    below == (j - n) as u64,
                    flipped == time ^ (1u64 << j),
                    mask == ((1u64 << n) - 1) as u64,
                    digit == time & mask,
            ;
            lemma_xor(digit, rest, low);
        }
    }
}

/// As many bits of a time value as possible are folded in, that is all of them:
/// flipping any bit of the time value flips a bit of the fold.
pub proof fn law_fold_takes_in_every_bit(time: u64, n_bits: u64, j: u64)
    requires
        0 < n_bits < 64,
        j < 64,
    ensures
        folded(time ^ (1u64 << j), n_bits) == folded(time, n_bits) ^ (1u64 << ((j % n_bits)
            as u64)),
{
    let n = n_bits as int;
    assert(digits(n) * n >= 64 && digits(n) >= 0) by (nonlinear_arith)
        requires
            0 < n < 64,
            digits(n) == (64 + n - 1) / n,
    ;
    lemma_fold_flips(time, n_bits, digits(n) as nat, j);
}

/// A rotation moves every bit up by `n` positions, from the top to the bottom, and
/// changes none.
pub proof fn law_rotation_moves_bits(x: u64, n: u64, i: u64)
    requires
        0 < n < 64,
        i < 64,
    ensures
        bit(rotl(x, n), ((i + n) % 64) as u64) == bit(x, i),
{
    assert(bit(rotl(x, n), ((i + n) % 64) as u64) == bit(x, i)) by (bit_vector)
        requires
            0 < n < 64,
            i < 64,
    ;
}

proof fn lemma_fold_xor(s: u64, t: u64, n: u64, folds: nat)
    requires
        0 < n < 64,
    ensures
        xor_fold(s ^ t, n, folds) == xor_fold(s, n, folds) ^ xor_fold(t, n, folds),
    decreases folds,
{
    if folds == 0 {
        lemma_xor(0, 0, 0);
    } else {
        let k = (folds - 1) as nat;
        lemma_fold_xor(s >> n, t >> n, n, k);
        let mask = ((1u64 << n) - 1) as u64;
        let x = xor_fold(s >> n, n, k);
        let y = xor_fold(t >> n, n, k);
        assert((s ^ t) >> n == (s >> n) ^ (t >> n) && ((s ^ t) & mask) ^ (x ^ y) == ((s & mask)
            ^ x) ^ ((t & mask) ^ y)) by (bit_vector);
    }
}

/// Folding is linear over XOR. In particular, nothing is folded to nothing.
pub proof fn law_fold_is_linear(s: u64, t: u64, n_bits: u64)
    requires
        0 < n_bits < 64,
    ensures
        folded(s ^ t, n_bits) == folded(s, n_bits) ^ folded(t, n_bits),
        folded(0, n_bits) == 0,
{
    let folds = digits(n_bits as int) as nat;
    lemma_fold_xor(s, t, n_bits, folds);
    lemma_fold_xor(0, 0, n_bits, folds);
    lemma_xor(0, 0, 0);
    lemma_xor(folded(0, n_bits), 0, 0);
}

} // verus!
