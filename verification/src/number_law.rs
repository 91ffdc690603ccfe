//! How numbers are cut into smaller ones, and what the smaller operations of the
//! generator amount to.

use vstd::prelude::*;

use crate::error::TimerError;
use crate::model::{Pool, RngState, STUCK_LIMIT};

verus! {

use crate::bits::{
    digits, folded, law_fold_is_linear, law_fold_takes_in_every_bit, lemma_fold_is_small, lemma_xor,
};
use crate::lfsr_law::{law_lfsr_keeps_pool_entropy, law_lfsr_takes_in_all_of_time};
use crate::memory::law_walk_goes_by_steps;
use crate::model::{
    accesses, after_noise, byte_of, entropy_spec, fill_run, fill_spec, index_after, loop_count,
    next_u32_spec, next_u64_spec, optional,
};
use crate::pool::lfsr_spec;
use crate::rng::stats_spec;
use crate::timing::law_long_delta_is_congruent;

/// What byte `k` of a word counts for, the lowest byte first.
pub open spec fn place(k: int) -> int {
    if k == 0 {
        1
    } else if k == 1 {
        0x100
    } else if k == 2 {
        0x1_0000
    } else {
        0x100_0000
    }
}

/// Words that were generated one after the other, from the state `first` to the state
/// `last`, by way of `states`.
pub open spec fn generated(
    first: RngState,
    last: RngState,
    states: Seq<RngState>,
    words: Seq<u32>,
) -> bool {
    &&& states.len() == words.len() + 1
    &&& states[0] == first
    &&& states[words.len() as int] == last
    &&& forall|i: int|
        0 <= i < words.len() ==> next_u32_spec(
            states[i],
            states[i + 1],
            Ok(#[trigger] words[i]),
        )
}

/// The bytes up to `end` are those of the words, four of each, the lowest first.
pub open spec fn written(bytes: Seq<u8>, end: int, words: Seq<u32>) -> bool {
    forall|i: int|
        0 <= i < end ==> #[trigger] bytes[i] == words[i / 4] as int / place(i % 4) % 256
}

proof fn lemma_byte(word: u32, k: int)
    requires
        0 <= k < 4,
    ensures
        byte_of(word, k) == word as int / place(k) % 256,
{
    assert(((word >> 0) & 0xff) as u8 == word % 256 && ((word >> 8) & 0xff) as u8 == word / 0x100
        % 256 && ((word >> 16) & 0xff) as u8 == word / 0x1_0000 % 256 && ((word >> 24) & 0xff) as u8
        == word / 0x100_0000 % 256) by (bit_vector);
}

proof fn lemma_written(words: Seq<u32>, bytes: Seq<u8>, end: int)
    requires
        forall|i: int|
            0 <= i < end ==> #[trigger] bytes[i] == byte_of(words[i / 4], i % 4),
    ensures
        written(bytes, end, words),
{
    assert forall|i: int| 0 <= i < end implies #[trigger] bytes[i] == words[i / 4] as int / place(
        i % 4,
    ) % 256 by {
        lemma_byte(words[i / 4], i % 4);
    }
}

/// Where filling a buffer succeeds, every byte of it was written from a generated word,
/// and no word was generated that is not needed: there are four bytes to a word, and
/// only the last may be used in part.
pub proof fn law_fill_writes_every_byte(
    pre: RngState,
    post: RngState,
    before: Seq<u8>,
    after: Seq<u8>,
)
    requires
        fill_spec(pre, post, before, after, Ok(())),
    ensures
        after.len() == before.len(),
        exists|states: Seq<RngState>, words: Seq<u32>| #[trigger]
            generated(pre, post, states, words) && after.len() <= 4 * words.len() < after.len() + 4
                && written(after, after.len() as int, words),
{
    let (states, words): (Seq<RngState>, Seq<u32>) = choose|
        states: Seq<RngState>,
        words: Seq<u32>,
    | #[trigger]
        fill_run(states, words, post, before, after, Ok(())) && states[0] == pre;
    lemma_written(words, after, after.len() as int);
    assert(generated(pre, post, states, words));
}

/// Where filling a buffer fails, it does so as the first word fails that cannot be
/// generated. What was generated up to then is written, and the rest of the buffer
/// keeps what it held.
pub proof fn law_failed_fill_keeps_the_rest(
    pre: RngState,
    post: RngState,
    before: Seq<u8>,
    after: Seq<u8>,
    error: TimerError,
)
    requires
        fill_spec(pre, post, before, after, Err(error)),
    ensures
        after.len() == before.len(),
        exists|states: Seq<RngState>, words: Seq<u32>|
            {
                &&& #[trigger] generated(pre, states[words.len() as int], states, words)
                &&& next_u32_spec(states[words.len() as int], post, Err(error))
                &&& 4 * words.len() < after.len()
                &&& written(after, 4 * words.len() as int, words)
                &&& forall|i: int|
                    4 * words.len() <= i < after.len() ==> #[trigger] after[i] == before[i]
            },
{
    let (states, words): (Seq<RngState>, Seq<u32>) = choose|
        states: Seq<RngState>,
        words: Seq<u32>,
    | #[trigger]
        fill_run(states, words, post, before, after, Err(error)) && states[0] == pre;
    lemma_written(words, after, 4 * words.len() as int);
    assert(generated(pre, states[words.len() as int], states, words));
}

/// A 64-bit number is always a new one: whether half of the number before is left makes
/// no difference to it, and none is left afterwards. A whole collection goes into it, and
/// it is what the pool then holds.
pub proof fn law_next_u64_is_new(pre: RngState, post: RngState, r: Result<u64, TimerError>)
    ensures
        next_u64_spec(pre, post, r) == next_u64_spec(
            (RngState { half_used: !pre.half_used, ..pre }),
            post,
            r,
        ),
        next_u64_spec(pre, post, r) ==> {
            &&& !post.half_used
            &&& post.rounds == pre.rounds
            &&& pre.readings.len() < post.readings.len()
            &&& r matches Ok(number) ==> number == post.data
            &&& entropy_spec((RngState { half_used: false, ..pre }), post, STUCK_LIMIT, r)
        },
{
}

/// A 32-bit number fails only where a 64-bit number would, in the same way.
pub proof fn law_next_u32_fails_as_next_u64(pre: RngState, post: RngState, error: TimerError)
    requires
        next_u32_spec(pre, post, Err(error)),
    ensures
        !pre.half_used,
        next_u64_spec(pre, post, Err(error)),
{
}

/// A loop count of up to 32 bits takes in every bit of the reading and of the pool:
/// flipping any bit of either flips a bit of the count. A reading that is the pool
/// itself counts for nothing.
pub proof fn law_loop_count_takes_in_every_bit(data: u64, reading: u64, n_bits: u32, j: u64)
    requires
        0 < n_bits <= 32,
        j < 64,
    ensures
        loop_count(data, data, n_bits) == 0,
        loop_count(data, reading, n_bits) < 1u64 << (n_bits as u64),
        loop_count(data, reading ^ (1u64 << j), n_bits) as u64 == loop_count(
            data,
            reading,
            n_bits,
        ) as u64 ^ (1u64 << ((j % n_bits as u64) as u64)),
        loop_count(data ^ (1u64 << j), reading, n_bits) == loop_count(
            data,
            reading ^ (1u64 << j),
            n_bits,
        ),
{
    let n = n_bits as u64;
    let flip = 1u64 << j;
    let folds = digits(n as int) as nat;
    assert((reading ^ flip) ^ data == (reading ^ data) ^ flip && reading ^ (data ^ flip) == (reading
        ^ data) ^ flip) by (bit_vector);
    lemma_xor(data, 0, 0);
    law_fold_is_linear(0, 0, n);
    law_fold_takes_in_every_bit(reading ^ data, n, j);
    lemma_fold_is_small(reading ^ data, n, folds);
    lemma_fold_is_small((reading ^ data) ^ flip, n, folds);
    assert(1u64 << n <= 0x1_0000_0000) by (bit_vector)
        requires
            n <= 32,
    ;
}

/// A reading that is taken is the one at its place in the log.
pub proof fn law_reading_is_taken_or_not(log: Seq<u64>, i: int)
    ensures
        optional(log, i, true) == Some(log[i]),
        optional(log, i, false) == None::<u64>,
{
}

/// A loop count of more than 32 bits is cut down to the lower 32 of the fold.
pub proof fn law_long_loop_count_is_cut(data: u64, reading: u64, n_bits: u32)
    requires
        0 < n_bits < 64,
    ensures
        (folded(reading ^ data, n_bits as u64) - loop_count(data, reading, n_bits))
            % 0x1_0000_0000 == 0,
{
}

/// The number of memory accesses varies with every bit of the reading and of the pool:
/// it is 128, and the loop count of four bits more, if there is a reading. After as
/// many steps of 31 bytes, the walk over the memory ends.
pub proof fn law_accesses_vary_with_the_reading(pool: Pool, reading: u64)
    ensures
        accesses(pool.data, None) == 128,
        accesses(pool.data, Some(reading)) == 128 + loop_count(pool.data, reading, 4),
        0 <= index_after(pool, None) < 2048,
        0 <= index_after(pool, Some(reading)) < 2048,
        (index_after(pool, None) - pool.mem_index - 31 * 128) % 2048 == 0,
        (index_after(pool, Some(reading)) - pool.mem_index - 31 * (128 + loop_count(
            pool.data,
            reading,
            4,
        ))) % 2048 == 0,
{
    law_walk_goes_by_steps(pool.mem_index, 128);
    law_walk_goes_by_steps(pool.mem_index, accesses(pool.data, Some(reading)));
}

/// A run of the noise sources takes in the time value and loses nothing of the pool:
/// from different pools, or with different times, it comes to different pools. How
/// often the memory is accessed has no part in it, and neither has the pool in where
/// the walk ends, but for that number.
pub proof fn law_noise_run_takes_in_its_time(
    pool: Pool,
    other: Pool,
    time: u64,
    late: u64,
    reading: Option<u64>,
    varied: Option<u64>,
)
    ensures
        after_noise(pool, time, reading).data == after_noise(pool, late, varied).data ==> time
            == late,
        after_noise(pool, time, reading).data == after_noise(other, time, varied).data ==> pool.data
            == other.data,
        after_noise(pool, time, reading).data == lfsr_spec(pool.data, time),
        0 <= after_noise(pool, time, reading).mem_index < 2048,
        (after_noise(pool, time, reading).mem_index - pool.mem_index - 31 * accesses(
            pool.data,
            reading,
        )) % 2048 == 0,
{
    law_lfsr_takes_in_all_of_time(pool.data, time, late);
    law_lfsr_keeps_pool_entropy(pool.data, other.data, time);
    law_walk_goes_by_steps(pool.mem_index, accesses(pool.data, reading));
}

/// The statistics of a run are the time that passed between the two clock values, the
/// one before the run and the one after it. It is zero only if they are the same.
pub proof fn law_stats_are_the_time_that_passed(
    pre: RngState,
    post: RngState,
    var_rounds: bool,
    time: u64,
    time2: u64,
    r: i64,
)
    requires
        stats_spec(pre, post, var_rounds, time, time2, r),
    ensures
        (time2 - time - r) % 0x1_0000_0000_0000_0000 == 0,
        -0x8000_0000_0000_0000 <= time2 - time < 0x8000_0000_0000_0000 ==> r == time2 - time,
        r == 0 <==> time == time2,
        post.rounds == pre.rounds,
        post.half_used == pre.half_used,
{
    law_long_delta_is_congruent(time, time2);
}

/// The statistics of a run are part of the generator's life: the clock value before the
/// run goes into the pool. Two runs from the same state that start at different clock
/// values leave different pools.
pub proof fn law_stats_stir_in_the_clock(
    pre: RngState,
    post: RngState,
    var_rounds: bool,
    time: u64,
    time2: u64,
    r: i64,
    other: RngState,
    other_rounds: bool,
    other_time: u64,
    other_time2: u64,
    other_r: i64,
)
    requires
        stats_spec(pre, post, var_rounds, time, time2, r),
        stats_spec(pre, other, other_rounds, other_time, other_time2, other_r),
    ensures
        post.data == lfsr_spec(pre.data, time),
        post.data == other.data ==> time == other_time,
        (post.mem_index - pre.mem_index - 31 * accesses(
            pre.data,
            if var_rounds {
                Some(post.readings[pre.readings.len() as int])
            } else {
                None
            },
        )) % 2048 == 0,
{
    let reading = optional(post.readings, pre.readings.len() as int, var_rounds);
    let other_reading = optional(other.readings, pre.readings.len() as int, other_rounds);
    law_noise_run_takes_in_its_time(
        pre.pool(),
        pre.pool(),
        time,
        other_time,
        reading,
        other_reading,
    );
}

} // verus!
