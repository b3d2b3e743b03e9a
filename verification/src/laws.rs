//! Laws of stepping: what holds of every generator, over any number of steps.

use crate::generator::{emitted, next_state, reports_of, Unfold};
use crate::sequence::{gathers, report_at, state_at};
use crate::transition::{computes, ends_at, may_answer, never_ends, single_valued_at};
use vstd::prelude::*;

verus! {

/// Stepping never changes the transition function.
pub proof fn lemma_transition_is_kept<A, B, F>(
    start: Unfold<A, F>,
    reports: Seq<Option<B>>,
    after: Unfold<A, F>,
) where F: FnMut(&mut A) -> Option<(A, B)>
    requires
        start.runs_to(reports, after),
    ensures
        after.transition() == start.transition(),
    decreases reports.len(),
{
    if reports.len() > 0 {
        let mid = choose|mid: Unfold<A, F>|
            start.runs_to(reports.drop_last(), mid) && #[trigger] mid.steps_to(
                after,
                reports.last(),
            );
        lemma_transition_is_kept(start, reports.drop_last(), mid);
    }
}

/// The state that a successful step hands over is the state that the following step
/// works on: if a step reports `Some(item)`, the transition answered with the pair of
/// the generator's new state and `item`, and whatever the step after it reports and
/// leaves is an answer of the transition on that new state.
pub proof fn lemma_next_state_feeds_following_step<A, B, F>(
    before: Unfold<A, F>,
    between: Unfold<A, F>,
    after: Unfold<A, F>,
    item: B,
    report: Option<B>,
) where F: FnMut(&mut A) -> Option<(A, B)>
    requires
        before.steps_to(between, Some(item)),
        between.steps_to(after, report),
    ensures
        may_answer(before.transition(), before.base(), Some((between.base(), item))),
        exists|out: Option<(A, B)>|
            #[trigger] may_answer(before.transition(), between.base(), out) && report == emitted(
                out,
            ) && after.base() == next_state(between.base(), out),
{
    let first = choose|out: Option<(A, B)>|
        {
            &&& #[trigger] may_answer(before.transition(), before.base(), out)
            &&& Some(item) == emitted(out)
            &&& between.base() == next_state(before.base(), out)
        };
    assert(first == Some((between.base(), item)));
}

/// Where the transition ends the sequence on the seed, the sequence is empty: no
/// step ever reports an item, the state stays the seed, and gathering under any limit
/// gathers nothing.
pub proof fn lemma_ended_seed_gives_nothing<A, B, F>(
    start: Unfold<A, F>,
    reports: Seq<Option<B>>,
    after: Unfold<A, F>,
) where F: FnMut(&mut A) -> Option<(A, B)>
    requires
        ends_at(start.transition(), start.base()),
        start.runs_to(reports, after),
    ensures
        forall|i: int| 0 <= i < reports.len() ==> reports[i] is None,
        after.base() == start.base(),
        forall|items: Seq<B>, limit: nat|
            reports == #[trigger] reports_of(items, limit) ==> items.len() == 0,
    decreases reports.len(),
{
    if reports.len() > 0 {
        let mid = choose|mid: Unfold<A, F>|
            start.runs_to(reports.drop_last(), mid) && #[trigger] mid.steps_to(
                after,
                reports.last(),
            );
        lemma_ended_seed_gives_nothing(start, reports.drop_last(), mid);
        lemma_transition_is_kept(start, reports.drop_last(), mid);
        assert forall|i: int| 0 <= i < reports.len() implies reports[i] is None by {
            if i < reports.len() - 1 {
                assert(reports[i] == reports.drop_last()[i]);
            }
        }
    }
    assert forall|items: Seq<B>, limit: nat|
        reports == #[trigger] reports_of(items, limit) implies items.len() == 0 by {
        if items.len() > 0 {
            assert(reports[0] == Some(items[0]));
        }
    }
}

/// Exhaustion is stable: once a step has reported `None`, every later step reports
/// `None` too, the state no longer moves, and gathering under any limit gathers
/// nothing, provided that the transition has a single answer on the state that the
/// exhaustion left.
pub proof fn lemma_exhaustion_is_stable<A, B, F>(
    before: Unfold<A, F>,
    exhausted: Unfold<A, F>,
    reports: Seq<Option<B>>,
    after: Unfold<A, F>,
) where F: FnMut(&mut A) -> Option<(A, B)>
    requires
        before.steps_to(exhausted, None),
        single_valued_at(exhausted.transition(), exhausted.base()),
        exhausted.runs_to(reports, after),
    ensures
        exhausted.base() == before.base(),
        forall|i: int| 0 <= i < reports.len() ==> reports[i] is None,
        after.base() == exhausted.base(),
        forall|items: Seq<B>, limit: nat|
            reports == #[trigger] reports_of(items, limit) ==> items.len() == 0,
{
    assert(may_answer(exhausted.transition(), exhausted.base(), None::<(A, B)>));
    lemma_ended_seed_gives_nothing(exhausted, reports, after);
}

/// A transition that never ends the sequence yields an item on every step, however
/// many steps are made, and gathering under a limit always fills the limit.
pub proof fn lemma_never_ending_always_yields<A, B, F>(
    start: Unfold<A, F>,
    reports: Seq<Option<B>>,
    after: Unfold<A, F>,
) where F: FnMut(&mut A) -> Option<(A, B)>
    requires
        never_ends(start.transition()),
        start.runs_to(reports, after),
    ensures
        forall|i: int| 0 <= i < reports.len() ==> reports[i] is Some,
        forall|items: Seq<B>, limit: nat|
            reports == #[trigger] reports_of(items, limit) ==> items.len() >= limit,
    decreases reports.len(),
{
    if reports.len() > 0 {
        let mid = choose|mid: Unfold<A, F>|
            start.runs_to(reports.drop_last(), mid) && #[trigger] mid.steps_to(
                after,
                reports.last(),
            );
        lemma_never_ending_always_yields(start, reports.drop_last(), mid);
        lemma_transition_is_kept(start, reports.drop_last(), mid);
        assert forall|i: int| 0 <= i < reports.len() implies reports[i] is Some by {
            if i < reports.len() - 1 {
                assert(reports[i] == reports.drop_last()[i]);
            }
        }
    }
    assert forall|items: Seq<B>, limit: nat|
        reports == #[trigger] reports_of(items, limit) implies items.len() >= limit by {
        if items.len() < limit {
            assert(reports[items.len() as int] is None);
        }
    }
}

/// Where the transition computes a function `t`, a run is the unfolding of `t` from
/// the seed: the step with the number `i` reports `report_at(t, seed, i)`, and after
/// `n` steps the state is `state_at(t, seed, n)`.
pub proof fn lemma_run_unfolds_function<A, B, F>(
    start: Unfold<A, F>,
    t: spec_fn(A) -> Option<(A, B)>,
    reports: Seq<Option<B>>,
    after: Unfold<A, F>,
) where F: FnMut(&mut A) -> Option<(A, B)>
    requires
        computes(start.transition(), t),
        start.runs_to(reports, after),
    ensures
        after.base() == state_at(t, start.base(), reports.len()),
        forall|i: int|
            0 <= i < reports.len() ==> reports[i] == report_at(t, start.base(), i as nat),
        forall|items: Seq<B>, limit: nat|
            items.len() <= limit && reports == #[trigger] reports_of(items, limit) ==> gathers(
                t,
                start.base(),
                limit,
                items,
            ),
    decreases reports.len(),
{
    if reports.len() > 0 {
        let mid = choose|mid: Unfold<A, F>|
            start.runs_to(reports.drop_last(), mid) && #[trigger] mid.steps_to(
                after,
                reports.last(),
            );
        lemma_run_unfolds_function(start, t, reports.drop_last(), mid);
        lemma_transition_is_kept(start, reports.drop_last(), mid);
        assert forall|i: int| 0 <= i < reports.len() implies reports[i] == report_at(
            t,
            start.base(),
            i as nat,
        ) by {
            if i < reports.len() - 1 {
                assert(reports[i] == reports.drop_last()[i]);
            }
        }
    }
    assert forall|items: Seq<B>, limit: nat|
        items.len() <= limit && reports == #[trigger] reports_of(items, limit) implies gathers(
        t,
        start.base(),
        limit,
        items,
    ) by {
        assert forall|i: int| 0 <= i < items.len() implies report_at(t, start.base(), i as nat)
            == Some(items[i]) by {
            assert(reports[i] == Some(items[i]));
        }
        if items.len() < limit {
            assert(reports[items.len() as int] is None);
        }
    }
}

} // verus!
