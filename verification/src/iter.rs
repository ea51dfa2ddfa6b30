//! Views that iterate over what a resumable computation yields.

use crate::generator::{finished, is_only_run, units, Generator, GeneratorState};
use vstd::prelude::*;

verus! {

/// Simple view over the yielded values. The computation takes no resume
/// argument and returns nothing worth keeping. The view reports the end when
/// the computation completes and keeps no record of it: what a further advance
/// does is left to the computation, so the view must not be advanced again.
pub struct SimpleGenIterator<G>(pub(crate) G);

/// Marks the return types that the simple view may discard.
pub trait SupportedReturnValue {

}

impl SupportedReturnValue for () {

}

impl SupportedReturnValue for core::convert::Infallible {

}

impl<G> SimpleGenIterator<G> {
    pub(crate) fn new(g: G) -> (view: Self)
        ensures
            view.inner() == g,
    {
        SimpleGenIterator(g)
    }

    /// The wrapped computation.
    pub closed spec fn inner(&self) -> G {
        self.0
    }
}

impl<G: Generator<()>> SimpleGenIterator<G> {
    /// Whether an advance of this view may hand out `item` and leave the view
    /// as `next`: the wrapped computation makes one step, and the item is what
    /// that step yielded, or the end marker where it completed.
    pub open spec fn advances(&self, item: Option<G::Yield>, next: &Self) -> bool {
        exists|out: GeneratorState<G::Yield, G::Return>| #[trigger]
            self.inner().step((), out, &next.inner()) && item == out.yielded()
    }

    /// Whether the `i`-th advance of a recorded sequence of advances is one.
    pub open spec fn advanced_at(views: Seq<Self>, items: Seq<Option<G::Yield>>, i: int) -> bool {
        views[i].advances(items[i], &views[i + 1])
    }

    /// Whether `views` and `items` record consecutive advances of one view.
    pub open spec fn is_advance_run(views: Seq<Self>, items: Seq<Option<G::Yield>>) -> bool {
        &&& views.len() == items.len() + 1
        &&& forall|i: int| 0 <= i < items.len() ==> #[trigger] Self::advanced_at(views, items, i)
    }
}

impl<G> SimpleGenIterator<G> where G: Generator<()>, G::Return: SupportedReturnValue {
    /// Resumes the computation once. Hands out the value if it yielded one,
    /// and reports the end, dropping the final value, if it completed.
    pub fn next(&mut self) -> (item: Option<G::Yield>)
        requires
            old(self).inner().can_resume(()),
        ensures
            old(self).advances(item, final(self)),
    {
        let out = self.0.resume(());
        assert(old(self).inner().step((), out, &self.inner()));
        match out {
            GeneratorState::Yielded(y) => Some(y),
            GeneratorState::Complete(_) => None,
        }
    }
}

/// Low-level view that hands out the outcomes themselves. It is endless: it
/// never reports the end, and the consumer stops once it has seen a
/// completion. The view keeps no record of the completion: what a further
/// advance does is left to the computation.
pub struct RawGenIterator<G> {
    pub(crate) gen: G,
}

impl<G> RawGenIterator<G> {
    pub(crate) fn new(g: G) -> (view: Self)
        ensures
            view.inner() == g,
    {
        RawGenIterator { gen: g }
    }

    /// The wrapped computation.
    pub closed spec fn inner(&self) -> G {
        self.gen
    }
}

impl<G: Generator<()>> RawGenIterator<G> {
    /// Whether an advance of this view may hand out `item` and leave the view
    /// as `next`: the wrapped computation makes one step, and the item is the
    /// outcome of that step, whichever it is.
    pub open spec fn advances(
        &self,
        item: Option<GeneratorState<G::Yield, G::Return>>,
        next: &Self,
    ) -> bool {
        item matches Some(out) && self.inner().step((), out, &next.inner())
    }

    /// Whether the `i`-th advance of a recorded sequence of advances is one.
    pub open spec fn advanced_at(
        views: Seq<Self>,
        items: Seq<Option<GeneratorState<G::Yield, G::Return>>>,
        i: int,
    ) -> bool {
        views[i].advances(items[i], &views[i + 1])
    }

    /// Whether `views` and `items` record consecutive advances of one view.
    pub open spec fn is_advance_run(
        views: Seq<Self>,
        items: Seq<Option<GeneratorState<G::Yield, G::Return>>>,
    ) -> bool {
        &&& views.len() == items.len() + 1
        &&& forall|i: int| 0 <= i < items.len() ==> #[trigger] Self::advanced_at(views, items, i)
    }
}

impl<G: Generator<()>> RawGenIterator<G> {
    /// Resumes the computation once and hands out the outcome.
    pub fn next(&mut self) -> (item: Option<GeneratorState<G::Yield, G::Return>>)
        requires
            old(self).inner().can_resume(()),
        ensures
            old(self).advances(item, final(self)),
    {
        Some(self.gen.resume(()))
    }
}

/// Fused view over the yielded values. When the computation completes, the
/// view keeps the final value and never resumes the computation again: every
/// later advance reports the end.
pub enum FusedGenIterator<G: Generator<()>> {
    /// The computation has not completed yet.
    Generator(G),
    /// The computation has completed with this value.
    Completed(G::Return),
}

impl<G: Generator<()>> FusedGenIterator<G> {
    /// The view after a resumption of the wrapped computation that produced
    /// `out` and left the computation as `after`.
    pub open spec fn latched(out: GeneratorState<G::Yield, G::Return>, after: G) -> Self {
        match out {
            GeneratorState::Yielded(_) => FusedGenIterator::Generator(after),
            GeneratorState::Complete(r) => FusedGenIterator::Completed(r),
        }
    }

    /// Whether an advance of this view may hand out `item` and leave the view
    /// as `next`. A completed view reports the end and stays as it is. A
    /// running view lets the wrapped computation make one step, hands out what
    /// the step yielded, or the end marker where it completed, and latches.
    pub open spec fn advances(&self, item: Option<G::Yield>, next: &Self) -> bool {
        match *self {
            FusedGenIterator::Completed(_) => item is None && *next == *self,
            FusedGenIterator::Generator(g) => exists|
                out: GeneratorState<G::Yield, G::Return>,
                after: G,
            | #[trigger]
                g.step((), out, &after) && item == out.yielded() && *next == Self::latched(
                    out,
                    after,
                ),
        }
    }

    /// Whether the `i`-th advance of a recorded sequence of advances is one.
    pub open spec fn advanced_at(views: Seq<Self>, items: Seq<Option<G::Yield>>, i: int) -> bool {
        views[i].advances(items[i], &views[i + 1])
    }

    /// Whether `views` and `items` record consecutive advances of one view.
    pub open spec fn is_advance_run(views: Seq<Self>, items: Seq<Option<G::Yield>>) -> bool {
        &&& views.len() == items.len() + 1
        &&& forall|i: int| 0 <= i < items.len() ==> #[trigger] Self::advanced_at(views, items, i)
    }
}

impl<G: Generator<()>> FusedGenIterator<G> {
    /// A view over a computation that has not been resumed yet.
    pub fn new(g: G) -> (view: Self)
        ensures
            view == FusedGenIterator::Generator(g),
    {
        FusedGenIterator::Generator(g)
    }

    /// Checks if more values can still be yielded: `true` while the
    /// computation has not completed, `false` once it has.
    pub fn is_completed(&self) -> (running: bool)
        ensures
            running == (self is Generator),
    {
        matches!(self, FusedGenIterator::Generator(_))
    }

    /// Reports the end if the computation has completed. Otherwise resumes it
    /// once: hands out the value if it yielded one, and if it completed, keeps
    /// the final value and reports the end.
    pub fn next(&mut self) -> (item: Option<G::Yield>)
        requires
            *old(self) matches FusedGenIterator::Generator(g) ==> g.can_resume(()),
        ensures
            old(self).advances(item, final(self)),
    {
        let gen = match self {
            FusedGenIterator::Generator(gen) => gen,
            FusedGenIterator::Completed(_) => return None,
        };
        let ghost before = *gen;
        match gen.resume(()) {
            GeneratorState::Yielded(y) => {
                proof {
                    let after = *gen;
                    assert(before.step((), GeneratorState::Yielded(y), &after));
                }
                Some(y)
            },
            GeneratorState::Complete(c) => {
                proof {
                    let after = *gen;
                    assert(before.step((), GeneratorState::Complete(c), &after));
                }
                *self = FusedGenIterator::Completed(c);
                None
            },
        }
    }
}

/// Along the one run of a computation, the simple view over it follows the
/// computation state by state and hands out what each step yielded.
proof fn lemma_simple_view_tracks<G: Generator<()>>(
    states: Seq<G>,
    outs: Seq<GeneratorState<G::Yield, G::Return>>,
    views: Seq<SimpleGenIterator<G>>,
    items: Seq<Option<G::Yield>>,
    k: int,
)
    requires
        is_only_run(states, units(outs.len()), outs),
        SimpleGenIterator::is_advance_run(views, items),
        views[0].inner() == states[0],
        items.len() <= outs.len(),
        0 <= k <= items.len(),
    ensures
        views[k].inner() == states[k],
        k > 0 ==> items[k - 1] == outs[k - 1].yielded(),
    decreases k,
{
    if k > 0 {
        lemma_simple_view_tracks(states, outs, views, items, k - 1);
        assert(SimpleGenIterator::advanced_at(views, items, k - 1));
        let out = choose|out: GeneratorState<G::Yield, G::Return>| #[trigger]
            views[k - 1].inner().step((), out, &views[k].inner()) && items[k - 1] == out.yielded();
        assert(states[k - 1].step(units(outs.len())[k - 1], out, &views[k].inner()));
    }
}

/// Over a computation that yields `ys` and then completes with `r`, the simple
/// view hands out the values of `ys`, in order, and then reports the end. The
/// final value `r` is not handed out.
///
/// The view is advanced at most until it reports the end: `items` holds what
/// the advances handed out, and `views` the view before and after each.
pub proof fn lemma_simple_view_of_finished_run<G: Generator<()>>(
    states: Seq<G>,
    ys: Seq<G::Yield>,
    r: G::Return,
    views: Seq<SimpleGenIterator<G>>,
    items: Seq<Option<G::Yield>>,
)
    requires
        is_only_run(states, units(ys.len() + 1), finished(ys, r)),
        SimpleGenIterator::is_advance_run(views, items),
        views[0].inner() == states[0],
        items.len() <= ys.len() + 1,
    ensures
        forall|i: int| 0 <= i < views.len() ==> (#[trigger] views[i]).inner() == states[i],
        forall|i: int|
            0 <= i < items.len() ==> #[trigger] items[i] == if i < ys.len() {
                Some(ys[i])
            } else {
                None
            },
{
    let outs = finished(ys, r);
    assert forall|i: int| 0 <= i < views.len() implies (#[trigger] views[i]).inner()
        == states[i] by {
        lemma_simple_view_tracks(states, outs, views, items, i);
    }
    assert forall|i: int| 0 <= i < items.len() implies #[trigger] items[i] == if i < ys.len() {
        Some(ys[i])
    } else {
        None
    } by {
        lemma_simple_view_tracks(states, outs, views, items, i + 1);
    }
}

/// Along the one run of a computation, the raw view over it follows the
/// computation state by state and hands out the outcome of each step.
proof fn lemma_raw_view_tracks<G: Generator<()>>(
    states: Seq<G>,
    outs: Seq<GeneratorState<G::Yield, G::Return>>,
    views: Seq<RawGenIterator<G>>,
    items: Seq<Option<GeneratorState<G::Yield, G::Return>>>,
    k: int,
)
    requires
        is_only_run(states, units(outs.len()), outs),
        RawGenIterator::is_advance_run(views, items),
        views[0].inner() == states[0],
        items.len() <= outs.len(),
        0 <= k <= items.len(),
    ensures
        views[k].inner() == states[k],
        k > 0 ==> items[k - 1] == Some(outs[k - 1]),
    decreases k,
{
    if k > 0 {
        lemma_raw_view_tracks(states, outs, views, items, k - 1);
        assert(RawGenIterator::advanced_at(views, items, k - 1));
        let out = items[k - 1]->Some_0;
        assert(states[k - 1].step(units(outs.len())[k - 1], out, &views[k].inner()));
    }
}

/// Over a computation that yields `ys` and then completes with `r`, the raw
/// view hands out a yield for each value of `ys`, in order, and then the
/// completion with `r`. It never reports the end.
///
/// The view is advanced at most until it has handed out the completion:
/// nothing is said of an advance after that.
pub proof fn lemma_raw_view_of_finished_run<G: Generator<()>>(
    states: Seq<G>,
    ys: Seq<G::Yield>,
    r: G::Return,
    views: Seq<RawGenIterator<G>>,
    items: Seq<Option<GeneratorState<G::Yield, G::Return>>>,
)
    requires
        is_only_run(states, units(ys.len() + 1), finished(ys, r)),
        RawGenIterator::is_advance_run(views, items),
        views[0].inner() == states[0],
        items.len() <= ys.len() + 1,
    ensures
        forall|i: int| 0 <= i < views.len() ==> (#[trigger] views[i]).inner() == states[i],
        forall|i: int|
            0 <= i < items.len() ==> #[trigger] items[i] == if i < ys.len() {
                Some(GeneratorState::<G::Yield, G::Return>::Yielded(ys[i]))
            } else {
                Some(GeneratorState::<G::Yield, G::Return>::Complete(r))
            },
{
    let outs = finished(ys, r);
    assert forall|i: int| 0 <= i < views.len() implies (#[trigger] views[i]).inner()
        == states[i] by {
        lemma_raw_view_tracks(states, outs, views, items, i);
    }
    assert forall|i: int| 0 <= i < items.len() implies #[trigger] items[i] == if i < ys.len() {
        Some(GeneratorState::<G::Yield, G::Return>::Yielded(ys[i]))
    } else {
        Some(GeneratorState::<G::Yield, G::Return>::Complete(r))
    } by {
        lemma_raw_view_tracks(states, outs, views, items, i + 1);
    }
}

/// The raw view never reports the end, whatever the computation does.
pub proof fn lemma_raw_view_is_endless<G: Generator<()>>(
    views: Seq<RawGenIterator<G>>,
    items: Seq<Option<GeneratorState<G::Yield, G::Return>>>,
)
    requires
        RawGenIterator::is_advance_run(views, items),
    ensures
        forall|i: int| 0 <= i < items.len() ==> (#[trigger] items[i]) is Some,
{
    assert forall|i: int| 0 <= i < items.len() implies (#[trigger] items[i]) is Some by {
        assert(RawGenIterator::advanced_at(views, items, i));
    }
}

/// The fused view as it stands before the `k`-th advance (counted from 0) over
/// a computation that yields `n` values and then completes with `r`: running
/// until the completion has been seen, completed with `r` from then on.
pub open spec fn fused_view_at<G: Generator<()>>(
    states: Seq<G>,
    n: nat,
    r: G::Return,
    k: int,
) -> FusedGenIterator<G> {
    if k <= n {
        FusedGenIterator::Generator(states[k])
    } else {
        FusedGenIterator::Completed(r)
    }
}

/// Along the one run of a computation that yields `ys` and then completes
/// with `r`, the fused view is in the state that `fused_view_at` gives.
proof fn lemma_fused_view_tracks<G: Generator<()>>(
    states: Seq<G>,
    ys: Seq<G::Yield>,
    r: G::Return,
    views: Seq<FusedGenIterator<G>>,
    items: Seq<Option<G::Yield>>,
    k: int,
)
    requires
        is_only_run(states, units(ys.len() + 1), finished(ys, r)),
        FusedGenIterator::is_advance_run(views, items),
        views[0] == FusedGenIterator::Generator(states[0]),
        0 <= k <= items.len(),
    ensures
        views[k] == fused_view_at(states, ys.len(), r, k),
        k > 0 ==> items[k - 1] == if k - 1 < ys.len() {
            Some(ys[k - 1])
        } else {
            None
        },
    decreases k,
{
    if k > 0 {
        lemma_fused_view_tracks(states, ys, r, views, items, k - 1);
        assert(FusedGenIterator::advanced_at(views, items, k - 1));
        if k - 1 <= ys.len() {
            let (out, after) = choose|out: GeneratorState<G::Yield, G::Return>, after: G| #[trigger]
                states[k - 1].step((), out, &after) && items[k - 1] == out.yielded() && views[k]
                    == FusedGenIterator::latched(out, after);
            assert(states[k - 1].step(units(ys.len() + 1)[k - 1], out, &after));
        }
    }
}

/// Over a computation that yields `ys` and then completes with `r`, the fused
/// view hands out the values of `ys`, in order, and reports the end at every
/// advance after that. It is running, so that `is_completed` returns `true`,
/// before and after each advance that hands out a value; from the first
/// report of the end on it is completed and holds `r`, and no advance changes
/// it any more.
///
/// The view may be advanced any number of times.
pub proof fn lemma_fused_view_of_finished_run<G: Generator<()>>(
    states: Seq<G>,
    ys: Seq<G::Yield>,
    r: G::Return,
    views: Seq<FusedGenIterator<G>>,
    items: Seq<Option<G::Yield>>,
)
    requires
        is_only_run(states, units(ys.len() + 1), finished(ys, r)),
        FusedGenIterator::is_advance_run(views, items),
        views[0] == FusedGenIterator::Generator(states[0]),
    ensures
        forall|i: int|
            0 <= i < views.len() ==> #[trigger] views[i] == fused_view_at(states, ys.len(), r, i),
        forall|i: int|
            0 <= i < items.len() ==> #[trigger] items[i] == if i < ys.len() {
                Some(ys[i])
            } else {
                None
            },
{
    assert forall|i: int| 0 <= i < views.len() implies #[trigger] views[i] == fused_view_at(
        states,
        ys.len(),
        r,
        i,
    ) by {
        lemma_fused_view_tracks(states, ys, r, views, items, i);
    }
    assert forall|i: int| 0 <= i < items.len() implies #[trigger] items[i] == if i < ys.len() {
        Some(ys[i])
    } else {
        None
    } by {
        lemma_fused_view_tracks(states, ys, r, views, items, i + 1);
    }
}

/// Once the fused view is completed it stays as it is, whatever the
/// computation was: every later advance reports the end and leaves the view,
/// with the final value that it holds, unchanged.
pub proof fn lemma_fused_view_stays_completed<G: Generator<()>>(
    views: Seq<FusedGenIterator<G>>,
    items: Seq<Option<G::Yield>>,
    i: int,
    j: int,
)
    requires
        FusedGenIterator::is_advance_run(views, items),
        0 <= i <= j < views.len(),
        views[i] is Completed,
    ensures
        views[j] == views[i],
        forall|k: int| i <= k < j ==> (#[trigger] items[k]) is None,
    decreases j - i,
{
    if i < j {
        lemma_fused_view_stays_completed(views, items, i, j - 1);
        assert(FusedGenIterator::advanced_at(views, items, j - 1));
    }
}

} // verus!
