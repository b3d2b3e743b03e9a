//! The sequence that a function unfolds from a seed.
//!
//! Where a transition computes a function `t`, the run of a generator is fixed by `t`
//! and the seed alone. These definitions say what it is, step by step.

use crate::generator::{emitted, next_state};
use vstd::prelude::*;

verus! {

/// The state after `n` steps by `t` that started from `seed`.
pub open spec fn state_at<A, B>(t: spec_fn(A) -> Option<(A, B)>, seed: A, n: nat) -> A
    decreases n,
{
    if n == 0 {
        seed
    } else {
        let before = state_at(t, seed, (n - 1) as nat);
        next_state(before, t(before))
    }
}

/// What the step with the number `n` reports, the first step being number 0.
pub open spec fn report_at<A, B>(t: spec_fn(A) -> Option<(A, B)>, seed: A, n: nat) -> Option<B> {
    emitted(t(state_at(t, seed, n)))
}

/// `items` is what gathering under the limit `limit` gives of the sequence that `t`
/// unfolds from `seed`: the items that the first steps report, up to the first step
/// that reports none, and no more of them than `limit`.
pub open spec fn gathers<A, B>(
    t: spec_fn(A) -> Option<(A, B)>,
    seed: A,
    limit: nat,
    items: Seq<B>,
) -> bool {
    &&& items.len() <= limit
    &&& forall|i: int| 0 <= i < items.len() ==> report_at(t, seed, i as nat) == Some(items[i])
    &&& items.len() < limit ==> report_at(t, seed, items.len()) is None
}

} // verus!
