//! Keeping the optimizer away from work that is done for its run time alone.

use vstd::prelude::*;

verus! {

/// `core::hint::black_box` is an identity function that the compiler is hinted to
/// know nothing about. Claimed of it is that it returns its argument.
pub assume_specification<T>[ core::hint::black_box::<T> ](dummy: T) -> (r: T)
    ensures
        r == dummy,
;

/// A function that is opaque to the optimizer, to assist in avoiding dead-code
/// elimination.
pub fn black_box<T>(dummy: T) -> (ret: T)
    ensures
        ret == dummy,
{
    core::hint::black_box(dummy)
}

} // verus!
