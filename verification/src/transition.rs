//! What can be said of a transition function from outside.
//!
//! A transition is any callable of the shape `FnMut(&mut A) -> Option<(A, B)>`. It is
//! handed a reference to the current state and answers `Some((next, item))` to go on
//! with the state `next` after producing `item`, or `None` to end the sequence.
//! Nothing is assumed about it beyond its own precondition and postcondition: it may
//! refuse some states, and it may have several possible answers on one state. The
//! predicates here name the properties of a transition that the generator's contracts
//! and laws speak of.
//!
//! The reference is mutable, but a transition is meant to read through it, not to
//! write: its way to change the state is to answer with the next one. What it writes
//! before answering `Some` is lost when the next state replaces the old. When it
//! answers `None`, stepping demands that it has written nothing.

use vstd::prelude::*;

verus! {

/// `f` may be applied to the state `base`.
pub open spec fn accepts<A, B, F>(f: F, base: A) -> bool where
    F: FnMut(&mut A) -> Option<(A, B)>,
 {
    forall|r: &mut A| *r == base ==> #[trigger] call_requires(f, (r,))
}

/// Applied to the state `base`, `f` can answer `out`.
pub open spec fn may_answer<A, B, F>(f: F, base: A, out: Option<(A, B)>) -> bool where
    F: FnMut(&mut A) -> Option<(A, B)>,
 {
    exists|r: &mut A| *r == base && #[trigger] call_ensures(f, (r,), out)
}

/// On the state `base`, `f` has one possible answer at most.
pub open spec fn single_valued_at<A, B, F>(f: F, base: A) -> bool where
    F: FnMut(&mut A) -> Option<(A, B)>,
 {
    forall|o1: Option<(A, B)>, o2: Option<(A, B)>|
        #[trigger] may_answer(f, base, o1) && #[trigger] may_answer(f, base, o2) ==> o1 == o2
}

/// On the state `base`, `f` can only end the sequence.
pub open spec fn ends_at<A, B, F>(f: F, base: A) -> bool where
    F: FnMut(&mut A) -> Option<(A, B)>,
 {
    forall|out: Option<(A, B)>| #[trigger] may_answer(f, base, out) ==> out is None
}

/// `f` never ends the sequence, on any state.
pub open spec fn never_ends<A, B, F>(f: F) -> bool where F: FnMut(&mut A) -> Option<(A, B)> {
    forall|base: A, out: Option<(A, B)>| #[trigger] may_answer(f, base, out) ==> out is Some
}

/// `f` computes the function `t`: whenever it answers on a state, its answer is the
/// value of `t` there.
pub open spec fn computes<A, B, F>(f: F, t: spec_fn(A) -> Option<(A, B)>) -> bool where
    F: FnMut(&mut A) -> Option<(A, B)>,
 {
    forall|base: A, out: Option<(A, B)>| #[trigger] may_answer(f, base, out) ==> out == t(base)
}

} // verus!
