//! The order in which the sockets are tested for readiness. A fixed order
//! would starve every socket but the first under sustained load, so each
//! poll takes a fresh random permutation.

use vstd::prelude::*;

use rand::seq::SliceRandom;

verus! {

/// Relies on rand's `SliceRandom::shuffle` with the thread-local generator:
/// it reorders the slice in place by swaps, so every element stays.
#[verifier::external_body]
fn shuffle(v: &mut Vec<usize>)
    ensures
        final(v)@.to_multiset() == old(v)@.to_multiset(),
{
    v.shuffle(&mut rand::thread_rng());
}

/// The indices `0..n` in order.
pub open spec fn indices(n: nat) -> Seq<usize> {
    Seq::new(n, |i: int| i as usize)
}

/// A random order of the indices `0..n`: each index once.
pub fn poll_order(n: usize) -> (r: Vec<usize>)
    ensures
        r@.len() == n,
        r@.to_multiset() == indices(n as nat).to_multiset(),
{
    let mut v: Vec<usize> = Vec::with_capacity(n);
    let mut i: usize = 0;
    while i < n
        invariant
            i <= n,
            v@ == indices(i as nat),
        decreases n - i,
    {
        v.push(i);
        i += 1;
        assert(v@ =~= indices(i as nat));
    }
    shuffle(&mut v);
    proof {
        vstd::seq_lib::to_multiset_len(v@);
        vstd::seq_lib::to_multiset_len(indices(n as nat));
    }
    v
}

} // verus!
