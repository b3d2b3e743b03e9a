//! The generator: a state, a transition, and the steps that apply one to the other.

use crate::transition::{accepts, may_answer};
use vstd::prelude::*;

verus! {

/// The state that a step leaves when the transition, applied to `base`, answers `out`:
/// the next state that the answer carries, or `base` itself where the answer ends the
/// sequence.
pub open spec fn next_state<A, B>(base: A, out: Option<(A, B)>) -> A {
    match out {
        Some((next, _)) => next,
        None => base,
    }
}

/// What a step reports when the transition answers `out`: the item that the answer
/// carries, or `None` where the answer ends the sequence.
pub open spec fn emitted<A, B>(out: Option<(A, B)>) -> Option<B> {
    match out {
        Some((_, item)) => Some(item),
        None => None,
    }
}

/// The reports of steps that each produced an item: `items`, one after the other.
pub open spec fn somes<B>(items: Seq<B>) -> Seq<Option<B>> {
    items.map_values(|item: B| Some(item))
}

/// The reports of the steps made to gather `items` under the limit `limit`: each of
/// `items` in turn and, where they are fewer than the limit, the `None` that ended
/// the gathering.
pub open spec fn reports_of<B>(items: Seq<B>, limit: nat) -> Seq<Option<B>> {
    if items.len() < limit {
        somes(items).push(None)
    } else {
        somes(items)
    }
}

/// A generator of a lazy sequence: the state reached so far, and the transition
/// that is applied to it on every step.
pub struct Unfold<A, F> {
    base: A,
    f: F,
}

impl<A, F> Unfold<A, F> {
    /// The current state: the seed at first, afterwards the next state that the last
    /// successful step produced.
    pub closed spec fn base(&self) -> A {
        self.base
    }

    /// The transition function. No step changes it.
    pub closed spec fn transition(&self) -> F {
        self.f
    }

    /// A generator that starts from the seed `base` and steps by `f`. Any seed and
    /// any transition are taken as they are.
    pub fn new(base: A, f: F) -> (un: Self)
        ensures
            un.base() == base,
            un.transition() == f,
    {
        Unfold { base, f }
    }
}

impl<A, B, F> Unfold<A, F> where F: FnMut(&mut A) -> Option<(A, B)> {
    /// One step takes the generator `self` to the generator `after` and reports `item`:
    /// the transition has some answer on the current state, and the step reports and
    /// leaves what [`emitted`] and [`next_state`] make of that answer.
    pub open spec fn steps_to(self, after: Self, item: Option<B>) -> bool {
        &&& after.transition() == self.transition()
        &&& exists|out: Option<(A, B)>|
            {
                &&& #[trigger] may_answer(self.transition(), self.base(), out)
                &&& item == emitted(out)
                &&& after.base() == next_state(self.base(), out)
            }
    }

    /// `reports` is what `reports.len()` steps in a row report, one after the other,
    /// when they take the generator `self` to the generator `after`.
    pub open spec fn runs_to(self, reports: Seq<Option<B>>, after: Self) -> bool
        decreases reports.len(),
    {
        if reports.len() == 0 {
            after.base() == self.base() && after.transition() == self.transition()
        } else {
            exists|mid: Self|
                self.runs_to(reports.drop_last(), mid) && #[trigger] mid.steps_to(
                    after,
                    reports.last(),
                )
        }
    }

    /// A run followed by one more step is a run: its reports are those of the run,
    /// and after them that of the step.
    pub proof fn lemma_run_with_one_more_step(
        self,
        reports: Seq<Option<B>>,
        mid: Self,
        item: Option<B>,
        after: Self,
    )
        requires
            self.runs_to(reports, mid),
            mid.steps_to(after, item),
        ensures
            self.runs_to(reports.push(item), after),
    {
        assert(reports.push(item).drop_last() =~= reports);
        assert(mid.steps_to(after, reports.push(item).last()));
    }

    /// Advances the generator by one step: applies the transition once to the
    /// current state. On `Some((next, item))` the state becomes `next` and the step
    /// reports `Some(item)`; on `None` the state stays and the step reports `None`.
    ///
    /// The generator keeps no memory of a `None`: a further call applies the
    /// transition again to the same state.
    ///
    /// The transition is handed the state by mutable reference but is expected only
    /// to read it: when it ends the sequence it must have left the state as it found
    /// it.
    pub fn next(&mut self) -> (item: Option<B>)
        requires
            accepts(old(self).transition(), old(self).base()),
            forall|r: &mut A|
                *r == old(self).base() && #[trigger] call_ensures(
                    old(self).transition(),
                    (r,),
                    None,
                ) ==> *final(r) == *r,
        ensures
            old(self).steps_to(*final(self), item),
    {
        let out = (self.f)(&mut self.base);
        assert(may_answer(old(self).transition(), old(self).base(), out));
        match out {
            None => None,
            Some((a, b)) => {
                self.base = a;
                Some(b)
            },
        }
    }

    /// Steps until `limit` items have been produced or the transition ends the
    /// sequence, whichever comes first, and hands back the items in the order in
    /// which they were produced. With the limit reached, no further step is made.
    ///
    /// Every state that the gathering can come to must be one that the transition
    /// accepts and, when it ends the sequence there, leaves as it found it.
    #[verifier::loop_isolation(false)]
    pub fn take(&mut self, limit: usize) -> (items: Vec<B>)
        requires
            forall|reports: Seq<Option<B>>, g: Self|
                reports.len() < limit && #[trigger] old(self).runs_to(reports, g) ==> accepts(
                    old(self).transition(),
                    g.base(),
                ),
            forall|reports: Seq<Option<B>>, g: Self, r: &mut A|
                reports.len() < limit && #[trigger] old(self).runs_to(reports, g) && *r == g.base()
                    && #[trigger] call_ensures(old(self).transition(), (r,), None) ==> *final(r)
                    == *r,
        ensures
            items.len() <= limit,
            old(self).runs_to(reports_of(items@, limit as nat), *final(self)),
    {
        let mut items: Vec<B> = Vec::new();
        while items.len() < limit
            invariant
                items.len() <= limit,
                self.transition() == old(self).transition(),
                old(self).runs_to(somes(items@), *self),
            decreases limit - items.len(),
        {
            let ghost before = *self;
            let ghost gathered = items@;
            match self.next() {
                Some(item) => {
                    items.push(item);
                    proof {
                        old(self).lemma_run_with_one_more_step(
                            somes(gathered),
                            before,
                            Some(item),
                            *self,
                        );
                        assert(somes(items@) =~= somes(gathered).push(Some(item)));
                    }
                },
                None => {
                    proof {
                        old(self).lemma_run_with_one_more_step(
                            somes(gathered),
                            before,
                            None,
                            *self,
                        );
                    }
                    return items;
                },
            }
        }
        items
    }
}

} // verus!
