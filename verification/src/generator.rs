//! The contract of a resumable computation, and the record of a run of one.

use vstd::prelude::*;

verus! {

/// What one resumption of a computation produced.
#[derive(Debug, PartialEq, Eq)]
pub enum GeneratorState<Y, R> {
    /// The computation suspended again and handed out an intermediate value.
    Yielded(Y),
    /// The computation finished with its final value.
    Complete(R),
}

impl<Y, R> GeneratorState<Y, R> {
    /// The intermediate value of a `Yielded` outcome; `None` for a completion.
    pub open spec fn yielded(self) -> Option<Y> {
        match self {
            GeneratorState::Yielded(y) => Some(y),
            GeneratorState::Complete(_) => None,
        }
    }
}

impl<Y: Clone, R: Clone> Clone for GeneratorState<Y, R> {
    /// A copy of the same kind of outcome, holding a clone of the value.
    fn clone(&self) -> (copy: Self)
        ensures
            match *self {
                GeneratorState::Yielded(y) => copy matches GeneratorState::Yielded(c) && cloned(y, c),
                GeneratorState::Complete(r) => copy matches GeneratorState::Complete(c) && cloned(r, c),
            },
    {
        match self {
            GeneratorState::Yielded(y) => GeneratorState::Yielded(y.clone()),
            GeneratorState::Complete(r) => GeneratorState::Complete(r.clone()),
        }
    }
}

impl<Y: Copy, R: Copy> Copy for GeneratorState<Y, R> {

}

/// A resumable computation: a state machine that is driven forward one step at
/// a time, each step fed with an argument of type `R`.
///
/// The behaviour of an implementation is described by two predicates. Both are
/// relations rather than functions, so a computation may be nondeterministic.
pub trait Generator<R> {
    /// The type of the intermediate values.
    type Yield;

    /// The type of the final value.
    type Return;

    /// Whether the computation, in this state, may be resumed with `arg`.
    ///
    /// A computation that has completed is, as a rule, no longer resumable.
    spec fn can_resume(&self, arg: R) -> bool;

    /// Whether resuming this state with `arg` may produce `out` and leave the
    /// computation in the state `next`.
    spec fn step(
        &self,
        arg: R,
        out: GeneratorState<Self::Yield, Self::Return>,
        next: &Self,
    ) -> bool;

    /// Drives the computation forward by one step.
    fn resume(&mut self, arg: R) -> (out: GeneratorState<Self::Yield, Self::Return>)
        requires
            old(self).can_resume(arg),
        ensures
            old(self).step(arg, out, final(self)),
    ;
}

/// A mutable borrow of a computation is a handle to it: resuming the handle
/// resumes the computation behind it, in place. The predicates speak of the
/// computation as it stands behind the handle; `resume` adds that the handle
/// still borrows the same computation.
impl<R, G: Generator<R>> Generator<R> for &mut G {
    type Yield = G::Yield;

    type Return = G::Return;

    open spec fn can_resume(&self, arg: R) -> bool {
        (**self).can_resume(arg)
    }

    open spec fn step(
        &self,
        arg: R,
        out: GeneratorState<G::Yield, G::Return>,
        next: &Self,
    ) -> bool {
        (**self).step(arg, out, &**next)
    }

    fn resume(&mut self, arg: R) -> (out: GeneratorState<G::Yield, G::Return>)
        ensures
            *final(*final(self)) == *final(*old(self)),
    {
        (**self).resume(arg)
    }
}

/// A boxed computation is a handle to it: resuming the box resumes the
/// computation on the heap, which stays where it was placed.
impl<R, G: Generator<R>> Generator<R> for Box<G> {
    type Yield = G::Yield;

    type Return = G::Return;

    open spec fn can_resume(&self, arg: R) -> bool {
        (**self).can_resume(arg)
    }

    open spec fn step(
        &self,
        arg: R,
        out: GeneratorState<G::Yield, G::Return>,
        next: &Self,
    ) -> bool {
        (**self).step(arg, out, &**next)
    }

    fn resume(&mut self, arg: R) -> (out: GeneratorState<G::Yield, G::Return>) {
        (**self).resume(arg)
    }
}

/// Whether the `i`-th resumption of a recorded run is a step of the
/// computation: from `states[i]`, fed `args[i]`, to `outs[i]` and `states[i + 1]`.
pub open spec fn resumed_at<R, G: Generator<R>>(
    states: Seq<G>,
    args: Seq<R>,
    outs: Seq<GeneratorState<G::Yield, G::Return>>,
    i: int,
) -> bool {
    states[i].step(args[i], outs[i], &states[i + 1])
}

/// Whether `states`, `args` and `outs` record consecutive resumptions of one
/// computation: it starts in `states[0]`, and the `i`-th resumption, fed
/// `args[i]`, produces `outs[i]` and leaves it in `states[i + 1]`.
pub open spec fn is_run<R, G: Generator<R>>(
    states: Seq<G>,
    args: Seq<R>,
    outs: Seq<GeneratorState<G::Yield, G::Return>>,
) -> bool {
    &&& states.len() == outs.len() + 1
    &&& args.len() == outs.len()
    &&& forall|i: int| 0 <= i < outs.len() ==> #[trigger] resumed_at(states, args, outs, i)
}

/// Whether `states`, `args` and `outs` record the one way in which a
/// computation can run when fed `args`: they are a run of it, and no
/// resumption along the run can produce anything but what is recorded.
pub open spec fn is_only_run<R, G: Generator<R>>(
    states: Seq<G>,
    args: Seq<R>,
    outs: Seq<GeneratorState<G::Yield, G::Return>>,
) -> bool {
    &&& is_run(states, args, outs)
    &&& forall|i: int, out: GeneratorState<G::Yield, G::Return>, next: G|
        0 <= i < outs.len() && #[trigger] states[i].step(args[i], out, &next) ==> out == outs[i]
            && next == states[i + 1]
}

/// The arguments of `n` resumptions of a computation that takes none.
pub open spec fn units(n: nat) -> Seq<()> {
    Seq::new(n, |i: int| ())
}

/// The outcomes of a computation that yields `ys`, in order, and then
/// completes with `r`.
pub open spec fn finished<Y, R>(ys: Seq<Y>, r: R) -> Seq<GeneratorState<Y, R>> {
    Seq::new(
        ys.len() + 1,
        |i: int|
            if i < ys.len() {
                GeneratorState::Yielded(ys[i])
            } else {
                GeneratorState::Complete(r)
            },
    )
}

} // verus!
