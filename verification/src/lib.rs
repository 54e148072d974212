//! A fixed-arena allocator bridge together with the incrementally growing
//! prime-sieve generator that exercises it.
//!
//! The allocator side models raw allocation addresses as plain offsets into a
//! byte arena, so that the claiming backend's accounting and its copy on
//! reallocation are verified. The generator side is a stateful Sieve of
//! Eratosthenes whose backing storage doubles whenever the scan runs past the
//! current limit.

pub mod primality;
pub mod arena;
pub mod bridge;
pub mod sieve;

use vstd::prelude::*;

verus! {

/// Values that the runtime entry reports on its diagnostic sink before the
/// prime loop starts; the surrounding program formats and prints them.
pub fn rust_main() -> (r: Vec<i32>)
    ensures
        r@ == seq![1i32, 2i32],
{
    let mut v: Vec<i32> = Vec::new();
    v.push(1);
    v.push(2);
    proof {
        assert(v@ =~= seq![1i32, 2i32]);
    }
    v
}

} // verus!
