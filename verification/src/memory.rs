//! The memory access noise source: a walk over a block of memory that touches
//! one byte at a time.

use vstd::prelude::*;

verus! {

use vstd::arithmetic::div_mod::lemma_mod_equivalence;

/// Number of blocks of the memory that is walked over.
pub const MEMORY_BLOCKS: usize = 64;

/// Size of a block, in bytes.
pub const MEMORY_BLOCKSIZE: usize = 32;

/// Size of the memory that is walked over: all blocks together.
pub const MEMORY_SIZE: usize = MEMORY_BLOCKS * MEMORY_BLOCKSIZE;

/// The location that the `k`th step of a walk from `start` touches. A step goes
/// one byte less than a block ahead, and wraps around at the end.
pub open spec fn location(start: int, k: int) -> int {
    (start + (MEMORY_BLOCKSIZE - 1) * k) % MEMORY_SIZE as int
}

/// How many of the first `n` steps of a walk from `start` touch `loc`.
pub open spec fn hits(start: int, n: nat, loc: int) -> nat
    decreases n,
{
    if n == 0 {
        0
    } else {
        hits(start, (n - 1) as nat, loc) + if location(start, n as int) == loc {
            1nat
        } else {
            0nat
        }
    }
}

/// Walks `count` steps over `mem`, from `start` on, and adds 1 to each byte that
/// it comes to. Returns where the walk ended.
pub fn walk(mem: &mut [u8; MEMORY_SIZE], start: u16, count: u32) -> (r: u16)
    ensures
        r == if count == 0 {
            start as int
        } else {
            location(start as int, count as int)
        },
        forall|l: int|
            0 <= l < MEMORY_SIZE ==> #[trigger] final(mem)@[l] == (old(mem)@[l] + hits(
                start as int,
                count as nat,
                l,
            )) % 256,
{
    let mut index: usize = start as usize;
    let mut done: u32 = 0;
    while done < count
        invariant
            done <= count,
            index <= u16::MAX,
            done == 0 ==> index == start,
            done > 0 ==> index == location(start as int, done as int),
            forall|l: int|
                0 <= l < MEMORY_SIZE ==> #[trigger] mem@[l] == (old(mem)@[l] + hits(
                    start as int,
                    done as nat,
                    l,
                )) % 256,
        decreases count - done,
    {
        index = (index + MEMORY_BLOCKSIZE - 1) % MEMORY_SIZE;
        mem[index] = mem[index].wrapping_add(1);
        done = done + 1;
        assert(index == location(start as int, done as int));
    }
    index as u16
}

/// A walk that goes on from where another ended touches what one long walk does.
pub(crate) proof fn lemma_walks_join(start: int, n: nat, k: nat, loc: int)
    requires
        n > 0,
    ensures
        hits(start, n, loc) + hits(location(start, n as int), k, loc) == hits(start, n + k, loc),
        location(location(start, n as int), k as int) == location(start, (n + k) as int),
    decreases k,
{
    if k > 0 {
        lemma_walks_join(start, n, (k - 1) as nat, loc);
    }
}

/// The step, modulo the memory's size, at which a walk from `start` comes to
/// `loc`: 991 steps of a block less one byte go one byte ahead.
spec fn turn(start: int, loc: int) -> int {
    ((loc - start) * 991) % MEMORY_SIZE as int
}

proof fn lemma_turn(start: int, k: int, loc: int)
    requires
        0 <= loc < MEMORY_SIZE,
    ensures
        location(start, k) == loc <==> k % MEMORY_SIZE as int == turn(start, loc),
{
    let there = start + 31 * k - loc;
    let back = (loc - start) * 991 - k;
    // 31 * 991 is 15 * 2048 + 1.
    assert(there == -31 * back + 2048 * (15 * (loc - start)));
    assert(back == -991 * there + 2048 * (15 * k));
    if there % 2048 == 0 {
        assert(back == 2048 * (-991 * (there / 2048) + 15 * k));
    }
    if back % 2048 == 0 {
        assert(there == 2048 * (-31 * (back / 2048) + 15 * (loc - start)));
    }
    lemma_mod_equivalence(start + 31 * k, loc, 2048);
    lemma_mod_equivalence((loc - start) * 991, k, 2048);
}

proof fn lemma_hits(start: int, n: nat, loc: int)
    requires
        0 <= loc < MEMORY_SIZE,
    ensures
        hits(start, n, loc) == n / MEMORY_SIZE as nat + if 0 < turn(start, loc) <= n
            % MEMORY_SIZE as nat {
            1nat
        } else {
            0nat
        },
    decreases n,
{
    if n > 0 {
        lemma_hits(start, (n - 1) as nat, loc);
        lemma_turn(start, n as int, loc);
    }
}

/// Every memory location is hit evenly: after any number of steps, a location
/// has been touched once for each full round, and at most once more.
pub proof fn law_memory_is_hit_evenly(start: int, n: nat, loc: int)
    requires
        0 <= loc < MEMORY_SIZE,
    ensures
        n / MEMORY_SIZE as nat <= hits(start, n, loc) <= n / MEMORY_SIZE as nat + 1,
        n % MEMORY_SIZE as nat == 0 ==> hits(start, n, loc) == n / MEMORY_SIZE as nat,
{
    lemma_hits(start, n, loc);
}

/// Every step of a walk goes 31 bytes ahead, and wraps around at the end of the 2048
/// bytes.
pub proof fn law_walk_goes_by_steps(start: int, k: int)
    ensures
        0 <= location(start, k) < 2048,
        (location(start, k) - start - 31 * k) % 2048 == 0,
{
}

/// The hits of a location are the steps that come to it.
pub proof fn law_hits_are_steps(start: int, n: nat, loc: int)
    requires
        0 <= loc < 2048,
    ensures
        Set::new(|k: int| 1 <= k <= n && (start + 31 * k - loc) % 2048 == 0).finite(),
        Set::new(|k: int| 1 <= k <= n && (start + 31 * k - loc) % 2048 == 0).len() == hits(
            start,
            n,
            loc,
        ),
    decreases n,
{
    let steps = Set::new(|k: int| 1 <= k <= n && (start + 31 * k - loc) % 2048 == 0);
    if n == 0 {
        assert(steps =~= Set::<int>::empty());
    } else {
        let m = (n - 1) as nat;
        law_hits_are_steps(start, m, loc);
        let before = Set::new(|k: int| 1 <= k <= m && (start + 31 * k - loc) % 2048 == 0);
        lemma_mod_equivalence(start + 31 * n, loc, 2048);
        if location(start, n as int) == loc {
            assert(steps =~= before.insert(n as int));
        } else {
            assert(steps =~= before);
        }
    }
}

} // verus!
