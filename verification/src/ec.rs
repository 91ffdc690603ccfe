//! The state of an entropy collection.

use vstd::prelude::*;

use crate::memory::MEMORY_SIZE;
use crate::timing::difference;

verus! {

use crate::timing::difference32;

/// The state of an entropy collection. It is not kept from one collection to the
/// next.
pub struct EcState {
    /// The previous time stamp, from which the next time delta is measured.
    pub prev_time: u64,
    /// The last time delta, for the stuck test.
    pub last_delta: i32,
    /// The last delta of time deltas, for the stuck test.
    pub last_delta2: i32,
    /// The memory for the memory access noise source.
    pub mem: [u8; MEMORY_SIZE],
}

/// Whether a time delta holds no entropy, given the delta and the delta of
/// deltas before it: its first, second or third derivation is zero.
pub open spec fn is_stuck(last_delta: i32, last_delta2: i32, current_delta: i32) -> bool {
    let delta2 = difference32(last_delta, current_delta);
    let delta3 = difference32(delta2, last_delta2);
    current_delta == 0 || delta2 == 0 || delta3 == 0
}

impl EcState {
    /// The state at the start of a collection, with a first time stamp.
    pub fn new(prev_time: u64) -> (r: EcState)
        ensures
            r.prev_time == prev_time,
            r.last_delta == 0,
            r.last_delta2 == 0,
            forall|i: int| 0 <= i < MEMORY_SIZE ==> r.mem@[i] == 0,
    {
        EcState { prev_time, last_delta: 0, last_delta2: 0, mem: [0u8;MEMORY_SIZE] }
    }

    /// The stuck test: checks the
    /// - 1st derivation of the jitter measurement (time delta),
    /// - 2nd derivation of the jitter measurement (delta of time deltas),
    /// - 3rd derivation of the jitter measurement (delta of delta of time
    ///   deltas).
    ///
    /// All values must always be non-zero. This test is a heuristic to see
    /// whether the last measurement holds entropy.
    pub fn stuck(&mut self, current_delta: i32) -> (r: bool)
        ensures
            r == is_stuck(old(self).last_delta, old(self).last_delta2, current_delta),
            final(self).last_delta == current_delta,
            final(self).last_delta2 == difference32(old(self).last_delta, current_delta),
            final(self).prev_time == old(self).prev_time,
            final(self).mem == old(self).mem,
    {
        let delta2: i32 = difference(self.last_delta, current_delta);
        let delta3: i32 = difference(delta2, self.last_delta2);

        self.last_delta = current_delta;
        self.last_delta2 = delta2;

        current_delta == 0 || delta2 == 0 || delta3 == 0
    }
}

/// A time delta is stuck if it is zero, if it is the delta before it, or if it goes
/// on from the delta before it, modulo 2^32, by the same step as that did from its
/// own; and otherwise it is not.
pub proof fn law_stuck_delta_is_predictable(before: i32, last: i32, current: i32)
    ensures
        is_stuck(last, difference32(before, last), current) <==> {
            ||| current == 0
            ||| current == last
            ||| ((current - last) - (last - before)) % 0x1_0000_0000 == 0
        },
{
}

} // verus!
