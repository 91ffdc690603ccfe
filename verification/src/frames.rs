//! A run depends only on the readings that it takes, and runs can be joined.

use vstd::prelude::*;

verus! {

use crate::memory::{hits, lemma_walks_join, location};
use crate::model::{
    accesses, agree, noise_run, run, run_accesses, stuck_in_run, stuck_row, yields, Collector,
    Pool,
};

/// The pool after runs of the noise sources depends only on their readings.
pub proof fn lemma_noise_run_frame(pool: Pool, log1: Seq<u64>, log2: Seq<u64>, at: int, n: nat)
    requires
        agree(log1, log2, at, at + 4 * n),
    ensures
        noise_run(pool, log1, at, n) == noise_run(pool, log2, at, n),
    decreases n,
{
    if n > 0 {
        lemma_noise_run_frame(pool, log1, log2, at, (n - 1) as nat);
        let here = at + 4 * (n - 1);
        assert(log1[here] == log2[here]);
        assert(log1[here + 1] == log2[here + 1]);
    }
}

/// The state after measurements depends only on their readings.
pub proof fn lemma_run_frame(c: Collector, log1: Seq<u64>, log2: Seq<u64>, at: int, m: nat)
    requires
        agree(log1, log2, at, at + 3 * m),
    ensures
        run(c, log1, at, m) == run(c, log2, at, m),
    decreases m,
{
    if m > 0 {
        lemma_run_frame(c, log1, log2, at, (m - 1) as nat);
        let here = at + 3 * (m - 1);
        assert(log1[here] == log2[here]);
        assert(log1[here + 1] == log2[here + 1]);
    }
}

/// Which measurements are stuck depends only on the readings up to then.
pub proof fn lemma_stuck_frame(c: Collector, log1: Seq<u64>, log2: Seq<u64>, at: int, m: nat)
    requires
        agree(log1, log2, at, at + 3 * m),
    ensures
        forall|j: int|
            0 <= j < m ==> stuck_in_run(c, log1, at, j) == #[trigger] stuck_in_run(c, log2, at, j),
{
    assert forall|j: int| 0 <= j < m implies stuck_in_run(c, log1, at, j)
        == #[trigger] stuck_in_run(c, log2, at, j) by {
        lemma_run_frame(c, log1, log2, at, j as nat);
        assert(log1[at + 3 * j + 1] == log2[at + 3 * j + 1]);
    }
}

/// How many measurements yield entropy, and how many are stuck at the end,
/// depends only on their readings.
pub proof fn lemma_yields_frame(c: Collector, log1: Seq<u64>, log2: Seq<u64>, at: int, m: nat)
    requires
        agree(log1, log2, at, at + 3 * m),
    ensures
        yields(c, log1, at, m) == yields(c, log2, at, m),
        stuck_row(c, log1, at, m) == stuck_row(c, log2, at, m),
    decreases m,
{
    if m > 1 {
        lemma_yields_frame(c, log1, log2, at, (m - 1) as nat);
        lemma_stuck_frame(c, log1, log2, at, m);
        assert(stuck_in_run(c, log1, at, m - 1) == stuck_in_run(c, log2, at, m - 1));
    }
}

/// How often the memory is accessed depends only on the readings.
pub proof fn lemma_accesses_frame(c: Collector, log1: Seq<u64>, log2: Seq<u64>, at: int, m: nat)
    requires
        agree(log1, log2, at, at + 3 * m),
    ensures
        run_accesses(c, log1, at, m) == run_accesses(c, log2, at, m),
    decreases m,
{
    if m > 0 {
        let k = (m - 1) as nat;
        lemma_accesses_frame(c, log1, log2, at, k);
        lemma_run_frame(c, log1, log2, at, k);
        assert(log1[at + 3 * k] == log2[at + 3 * k]);
    }
}

/// One more measurement goes on with the walk over the memory.
pub proof fn lemma_measurement_walks_on(c: Collector, log: Seq<u64>, at: int, m: nat, loc: int)
    ensures
        ({
            let before = run(c, log, at, m);
            let count = accesses(before.pool.data, Some(log[at + 3 * m])) as nat;
            hits(c.pool.mem_index, run_accesses(c, log, at, m), loc) + hits(
                before.pool.mem_index,
                count,
                loc,
            ) == hits(c.pool.mem_index, run_accesses(c, log, at, m + 1), loc)
        }),
        m > 0 ==> run_accesses(c, log, at, m) > 0 && run(c, log, at, m).pool.mem_index == location(
            c.pool.mem_index,
            run_accesses(c, log, at, m) as int,
        ),
    decreases m,
{
    let so_far = run_accesses(c, log, at, m);
    let count = accesses(run(c, log, at, m).pool.data, Some(log[at + 3 * m])) as nat;
    if m > 0 {
        let k = (m - 1) as nat;
        lemma_measurement_walks_on(c, log, at, k, loc);
        let last = accesses(run(c, log, at, k).pool.data, Some(log[at + 3 * k])) as nat;
        if k > 0 {
            lemma_walks_join(c.pool.mem_index, run_accesses(c, log, at, k), last, loc);
        }
        lemma_walks_join(c.pool.mem_index, so_far, count, loc);
    }
}

/// A run that goes on from where another ended.
pub proof fn lemma_run_joins(c: Collector, log: Seq<u64>, at: int, m: nat, k: nat)
    ensures
        run(run(c, log, at, m), log, at + 3 * m, k) == run(c, log, at, m + k),
    decreases k,
{
    if k > 0 {
        lemma_run_joins(c, log, at, m, (k - 1) as nat);
        assert(at + 3 * m + 3 * (k - 1) == at + 3 * (m + k - 1));
    }
}

/// The measurements of a run that goes on from where another ended.
pub proof fn lemma_stuck_joins(c: Collector, log: Seq<u64>, at: int, m: nat, k: nat)
    ensures
        forall|j: int|
            0 <= j < k ==> #[trigger] stuck_in_run(run(c, log, at, m), log, at + 3 * m, j)
                == stuck_in_run(c, log, at, m + j),
{
    assert forall|j: int| 0 <= j < k implies #[trigger] stuck_in_run(
        run(c, log, at, m),
        log,
        at + 3 * m,
        j,
    ) == stuck_in_run(c, log, at, m + j) by {
        lemma_run_joins(c, log, at, m, j as nat);
        assert(at + 3 * m + 3 * j + 1 == at + 3 * (m + j) + 1);
    }
}

/// Stuck measurements yield nothing: going on with `k` of them leaves the yield
/// as it is, and makes the row of them longer.
pub proof fn lemma_stuck_yields_nothing(c: Collector, log: Seq<u64>, at: int, m: nat, k: nat)
    requires
        m >= 1,
        forall|j: int| m <= j < m + k ==> #[trigger] stuck_in_run(c, log, at, j),
    ensures
        yields(c, log, at, m + k) == yields(c, log, at, m),
        stuck_row(c, log, at, m + k) == stuck_row(c, log, at, m) + k,
    decreases k,
{
    if k > 0 {
        lemma_stuck_yields_nothing(c, log, at, m, (k - 1) as nat);
        assert(stuck_in_run(c, log, at, m + k - 1));
    }
}

} // verus!
