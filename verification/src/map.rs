//! Combinators that map one channel of a resumable computation.

use crate::generator::{is_run, resumed_at, Generator, GeneratorState};
use vstd::prelude::*;

verus! {

/// Computation that applies a function to each value that the wrapped
/// computation yields. The final value passes through as it is.
pub struct MapYield<G, F> {
    pub(crate) gen: G,
    pub(crate) func: F,
}

impl<G, F> MapYield<G, F> {
    pub(crate) fn new(gen: G, func: F) -> (mapped: Self)
        ensures
            mapped.inner() == gen,
            mapped.transform() == func,
    {
        MapYield { gen, func }
    }

    /// The wrapped computation.
    pub closed spec fn inner(&self) -> G {
        self.gen
    }

    /// The function applied to the yielded values.
    pub closed spec fn transform(&self) -> F {
        self.func
    }
}

/// Whether `outer` is what the yield-mapper makes of the outcome `inner`: a
/// yield of something that `f` may return for the yielded value, or the same
/// completion.
pub open spec fn maps_yield<Y, T, C, F: FnMut(Y) -> T>(
    f: F,
    inner: GeneratorState<Y, C>,
    outer: GeneratorState<T, C>,
) -> bool {
    match inner {
        GeneratorState::Yielded(y) => outer matches GeneratorState::Yielded(t) && call_ensures(
            f,
            (y,),
            t,
        ),
        GeneratorState::Complete(c) => outer == GeneratorState::<T, C>::Complete(c),
    }
}

impl<R, G, F, T> Generator<R> for MapYield<G, F> where G: Generator<R>, F: FnMut(G::Yield) -> T {
    type Yield = T;

    type Return = G::Return;

    /// The wrapped computation may be resumed with `arg`, and the function
    /// accepts whatever that step may yield.
    open spec fn can_resume(&self, arg: R) -> bool {
        &&& self.inner().can_resume(arg)
        &&& forall|y: G::Yield, next: G| #[trigger]
            self.inner().step(arg, GeneratorState::Yielded(y), &next) ==> call_requires(
                self.transform(),
                (y,),
            )
    }

    /// The wrapped computation makes one step with `arg`, and the outcome is
    /// what `maps_yield` makes of that step's. The function stays as it is.
    open spec fn step(&self, arg: R, out: GeneratorState<T, G::Return>, next: &Self) -> bool {
        &&& next.transform() == self.transform()
        &&& exists|inner_out: GeneratorState<G::Yield, G::Return>| #[trigger]
            self.inner().step(arg, inner_out, &next.inner()) && maps_yield(
                self.transform(),
                inner_out,
                out,
            )
    }

    fn resume(&mut self, arg: R) -> (out: GeneratorState<T, G::Return>) {
        match self.gen.resume(arg) {
            GeneratorState::Complete(c) => {
                assert(old(self).inner().step(arg, GeneratorState::Complete(c), &self.inner()));
                GeneratorState::Complete(c)
            },
            GeneratorState::Yielded(y) => {
                assert(old(self).inner().step(arg, GeneratorState::Yielded(y), &self.inner()));
                GeneratorState::Yielded((self.func)(y))
            },
        }
    }
}

/// Whether `outer` is `inner`, entry by entry, as the yield-mapper with `f`
/// makes it.
pub open spec fn yields_mapped<Y, T, C, F: FnMut(Y) -> T>(
    f: F,
    inner: Seq<GeneratorState<Y, C>>,
    outer: Seq<GeneratorState<T, C>>,
) -> bool {
    &&& inner.len() == outer.len()
    &&& forall|i: int| 0 <= i < inner.len() ==> #[trigger] maps_yield(f, inner[i], outer[i])
}

/// Along a run of the yield-mapper the function stays the same.
proof fn lemma_map_yield_keeps_transform<R, G, F, T>(
    mappers: Seq<MapYield<G, F>>,
    args: Seq<R>,
    outs: Seq<GeneratorState<T, G::Return>>,
    k: int,
) where G: Generator<R>, F: FnMut(G::Yield) -> T
    requires
        is_run(mappers, args, outs),
        0 <= k < mappers.len(),
    ensures
        mappers[k].transform() == mappers[0].transform(),
    decreases k,
{
    if k > 0 {
        lemma_map_yield_keeps_transform(mappers, args, outs, k - 1);
        assert(resumed_at(mappers, args, outs, k - 1));
    }
}

/// The runs of the yield-mapper are the runs of the wrapped computation,
/// resumed with the same arguments, with the function applied to each
/// yielded value and each final value left as it is: the yielded values are
/// the function's results for the values that the wrapped computation
/// yielded, in the same order, and the mapper completes when, and with what,
/// the wrapped computation completes. The function is the same throughout.
pub proof fn lemma_map_yield_run<R, G, F, T>(
    mappers: Seq<MapYield<G, F>>,
    args: Seq<R>,
    outs: Seq<GeneratorState<T, G::Return>>,
) where G: Generator<R>, F: FnMut(G::Yield) -> T
    ensures
        is_run(mappers, args, outs) <==> {
            &&& mappers.len() == outs.len() + 1
            &&& forall|i: int|
                0 <= i < mappers.len() ==> (#[trigger] mappers[i]).transform()
                    == mappers[0].transform()
            &&& exists|inner_outs: Seq<GeneratorState<G::Yield, G::Return>>|
                #![trigger yields_mapped(mappers[0].transform(), inner_outs, outs)]
                is_run(mappers.map_values(|m: MapYield<G, F>| m.inner()), args, inner_outs)
                    && yields_mapped(mappers[0].transform(), inner_outs, outs)
        },
{
    let inners = mappers.map_values(|m: MapYield<G, F>| m.inner());
    if is_run(mappers, args, outs) {
        let f = mappers[0].transform();
        assert forall|i: int| 0 <= i < mappers.len() implies (#[trigger] mappers[i]).transform()
            == f by {
            lemma_map_yield_keeps_transform(mappers, args, outs, i);
        }
        let inner_outs = Seq::new(
            outs.len(),
            |i: int|
                choose|inner_out: GeneratorState<G::Yield, G::Return>| #[trigger]
                    mappers[i].inner().step(args[i], inner_out, &mappers[i + 1].inner())
                        && maps_yield(mappers[i].transform(), inner_out, outs[i]),
        );
        assert forall|i: int| 0 <= i < outs.len() implies #[trigger] resumed_at(
            inners,
            args,
            inner_outs,
            i,
        ) by {
            assert(resumed_at(mappers, args, outs, i));
        }
        assert forall|i: int| 0 <= i < outs.len() implies #[trigger] maps_yield(
            f,
            inner_outs[i],
            outs[i],
        ) by {
            assert(resumed_at(mappers, args, outs, i));
        }
        assert(is_run(inners, args, inner_outs));
        assert(yields_mapped(f, inner_outs, outs));
    }
    if mappers.len() == outs.len() + 1 && (forall|i: int|
        0 <= i < mappers.len() ==> (#[trigger] mappers[i]).transform() == mappers[0].transform())
        && (exists|inner_outs: Seq<GeneratorState<G::Yield, G::Return>>|
        #![trigger yields_mapped(mappers[0].transform(), inner_outs, outs)]
        is_run(inners, args, inner_outs) && yields_mapped(
            mappers[0].transform(),
            inner_outs,
            outs,
        )) {
        let f = mappers[0].transform();
        let inner_outs = choose|inner_outs: Seq<GeneratorState<G::Yield, G::Return>>|
            #![trigger yields_mapped(mappers[0].transform(), inner_outs, outs)]
            is_run(inners, args, inner_outs) && yields_mapped(f, inner_outs, outs);
        assert forall|i: int| 0 <= i < outs.len() implies #[trigger] resumed_at(
            mappers,
            args,
            outs,
            i,
        ) by {
            assert(resumed_at(inners, args, inner_outs, i));
            assert(maps_yield(f, inner_outs[i], outs[i]));
            assert(mappers[i].transform() == f);
            assert(mappers[i + 1].transform() == f);
            assert(mappers[i].inner().step(args[i], inner_outs[i], &mappers[i + 1].inner()));
        }
    }
}

/// One step of the yield-mapper whose function computes `apply`: the wrapped
/// computation makes a step with the same argument, and the mapper's outcome
/// is `apply` of the value that the step yielded, or the same completion.
pub proof fn lemma_map_yield_step<R, G, F, T>(
    mapper: MapYield<G, F>,
    arg: R,
    out: GeneratorState<T, G::Return>,
    next: MapYield<G, F>,
    apply: spec_fn(G::Yield) -> T,
) where G: Generator<R>, F: FnMut(G::Yield) -> T
    requires
        mapper.step(arg, out, &next),
        forall|y: G::Yield, t: T| #[trigger] call_ensures(mapper.transform(), (y,), t) ==> t == apply(y),
    ensures
        next.transform() == mapper.transform(),
        exists|inner_out: GeneratorState<G::Yield, G::Return>| #[trigger]
            mapper.inner().step(arg, inner_out, &next.inner()) && out == match inner_out {
                GeneratorState::Yielded(y) => GeneratorState::<T, G::Return>::Yielded(apply(y)),
                GeneratorState::Complete(c) => GeneratorState::<T, G::Return>::Complete(c),
            },
{
    let inner_out = choose|inner_out: GeneratorState<G::Yield, G::Return>| #[trigger]
        mapper.inner().step(arg, inner_out, &next.inner()) && maps_yield(
            mapper.transform(),
            inner_out,
            out,
        );
    assert(mapper.inner().step(arg, inner_out, &next.inner()));
}

/// Computation that applies a function to the final value of the wrapped
/// computation, at the moment it completes. The yielded values pass through
/// as they are.
pub struct MapReturn<G, F> {
    pub(crate) gen: G,
    pub(crate) func: F,
}

impl<G, F> MapReturn<G, F> {
    pub(crate) fn new(gen: G, func: F) -> (mapped: Self)
        ensures
            mapped.inner() == gen,
            mapped.transform() == func,
    {
        MapReturn { gen, func }
    }

    /// The wrapped computation.
    pub closed spec fn inner(&self) -> G {
        self.gen
    }

    /// The function applied to the final value.
    pub closed spec fn transform(&self) -> F {
        self.func
    }
}

/// Whether `outer` is what the return-mapper makes of the outcome `inner`: the
/// same yield, or a completion with something that `f` may return for the
/// final value.
pub open spec fn maps_return<Y, C, T, F: FnMut(C) -> T>(
    f: F,
    inner: GeneratorState<Y, C>,
    outer: GeneratorState<Y, T>,
) -> bool {
    match inner {
        GeneratorState::Yielded(y) => outer == GeneratorState::<Y, T>::Yielded(y),
        GeneratorState::Complete(c) => outer matches GeneratorState::Complete(t) && call_ensures(
            f,
            (c,),
            t,
        ),
    }
}

impl<R, G, F, T> Generator<R> for MapReturn<G, F> where G: Generator<R>, F: FnMut(G::Return) -> T {
    type Yield = G::Yield;

    type Return = T;

    /// The wrapped computation may be resumed with `arg`, and the function
    /// accepts whatever that step may complete with.
    open spec fn can_resume(&self, arg: R) -> bool {
        &&& self.inner().can_resume(arg)
        &&& forall|c: G::Return, next: G| #[trigger]
            self.inner().step(arg, GeneratorState::Complete(c), &next) ==> call_requires(
                self.transform(),
                (c,),
            )
    }

    /// The wrapped computation makes one step with `arg`, and the outcome is
    /// what `maps_return` makes of that step's. The function stays as it is.
    open spec fn step(&self, arg: R, out: GeneratorState<G::Yield, T>, next: &Self) -> bool {
        &&& next.transform() == self.transform()
        &&& exists|inner_out: GeneratorState<G::Yield, G::Return>| #[trigger]
            self.inner().step(arg, inner_out, &next.inner()) && maps_return(
                self.transform(),
                inner_out,
                out,
            )
    }

    fn resume(&mut self, arg: R) -> (out: GeneratorState<G::Yield, T>) {
        match self.gen.resume(arg) {
            GeneratorState::Complete(c) => {
                assert(old(self).inner().step(arg, GeneratorState::Complete(c), &self.inner()));
                GeneratorState::Complete((self.func)(c))
            },
            GeneratorState::Yielded(y) => {
                assert(old(self).inner().step(arg, GeneratorState::Yielded(y), &self.inner()));
                GeneratorState::Yielded(y)
            },
        }
    }
}

/// Whether `outer` is `inner`, entry by entry, as the return-mapper with `f`
/// makes it.
pub open spec fn returns_mapped<Y, C, T, F: FnMut(C) -> T>(
    f: F,
    inner: Seq<GeneratorState<Y, C>>,
    outer: Seq<GeneratorState<Y, T>>,
) -> bool {
    &&& inner.len() == outer.len()
    &&& forall|i: int| 0 <= i < inner.len() ==> #[trigger] maps_return(f, inner[i], outer[i])
}

/// Along a run of the return-mapper the function stays the same.
proof fn lemma_map_return_keeps_transform<R, G, F, T>(
    mappers: Seq<MapReturn<G, F>>,
    args: Seq<R>,
    outs: Seq<GeneratorState<G::Yield, T>>,
    k: int,
) where G: Generator<R>, F: FnMut(G::Return) -> T
    requires
        is_run(mappers, args, outs),
        0 <= k < mappers.len(),
    ensures
        mappers[k].transform() == mappers[0].transform(),
    decreases k,
{
    if k > 0 {
        lemma_map_return_keeps_transform(mappers, args, outs, k - 1);
        assert(resumed_at(mappers, args, outs, k - 1));
    }
}

/// The runs of the return-mapper are the runs of the wrapped computation,
/// resumed with the same arguments, with each yielded value left as it is and
/// the function applied to each final value: the mapper yields what the
/// wrapped computation yields, in the same order, and completes when the
/// wrapped computation completes, with a result of the function for its final
/// value. Only a completion goes through the function, so a computation that
/// completes once has it applied once. The function is the same throughout.
pub proof fn lemma_map_return_run<R, G, F, T>(
    mappers: Seq<MapReturn<G, F>>,
    args: Seq<R>,
    outs: Seq<GeneratorState<G::Yield, T>>,
) where G: Generator<R>, F: FnMut(G::Return) -> T
    ensures
        is_run(mappers, args, outs) <==> {
            &&& mappers.len() == outs.len() + 1
            &&& forall|i: int|
                0 <= i < mappers.len() ==> (#[trigger] mappers[i]).transform()
                    == mappers[0].transform()
            &&& exists|inner_outs: Seq<GeneratorState<G::Yield, G::Return>>|
                #![trigger returns_mapped(mappers[0].transform(), inner_outs, outs)]
                is_run(mappers.map_values(|m: MapReturn<G, F>| m.inner()), args, inner_outs)
                    && returns_mapped(mappers[0].transform(), inner_outs, outs)
        },
{
    let inners = mappers.map_values(|m: MapReturn<G, F>| m.inner());
    if is_run(mappers, args, outs) {
        let f = mappers[0].transform();
        assert forall|i: int| 0 <= i < mappers.len() implies (#[trigger] mappers[i]).transform()
            == f by {
            lemma_map_return_keeps_transform(mappers, args, outs, i);
        }
        let inner_outs = Seq::new(
            outs.len(),
            |i: int|
                choose|inner_out: GeneratorState<G::Yield, G::Return>| #[trigger]
                    mappers[i].inner().step(args[i], inner_out, &mappers[i + 1].inner())
                        && maps_return(mappers[i].transform(), inner_out, outs[i]),
        );
        assert forall|i: int| 0 <= i < outs.len() implies #[trigger] resumed_at(
            inners,
            args,
            inner_outs,
            i,
        ) by {
            assert(resumed_at(mappers, args, outs, i));
        }
        assert forall|i: int| 0 <= i < outs.len() implies #[trigger] maps_return(
            f,
            inner_outs[i],
            outs[i],
        ) by {
            assert(resumed_at(mappers, args, outs, i));
        }
        assert(is_run(inners, args, inner_outs));
        assert(returns_mapped(f, inner_outs, outs));
    }
    if mappers.len() == outs.len() + 1 && (forall|i: int|
        0 <= i < mappers.len() ==> (#[trigger] mappers[i]).transform() == mappers[0].transform())
        && (exists|inner_outs: Seq<GeneratorState<G::Yield, G::Return>>|
        #![trigger returns_mapped(mappers[0].transform(), inner_outs, outs)]
        is_run(inners, args, inner_outs) && returns_mapped(
            mappers[0].transform(),
            inner_outs,
            outs,
        )) {
        let f = mappers[0].transform();
        let inner_outs = choose|inner_outs: Seq<GeneratorState<G::Yield, G::Return>>|
            #![trigger returns_mapped(mappers[0].transform(), inner_outs, outs)]
            is_run(inners, args, inner_outs) && returns_mapped(f, inner_outs, outs);
        assert forall|i: int| 0 <= i < outs.len() implies #[trigger] resumed_at(
            mappers,
            args,
            outs,
            i,
        ) by {
            assert(resumed_at(inners, args, inner_outs, i));
            assert(maps_return(f, inner_outs[i], outs[i]));
            assert(mappers[i].transform() == f);
            assert(mappers[i + 1].transform() == f);
            assert(mappers[i].inner().step(args[i], inner_outs[i], &mappers[i + 1].inner()));
        }
    }
}

/// One step of the return-mapper whose function computes `apply`: the wrapped
/// computation makes a step with the same argument, and the mapper's outcome
/// is the same yield, or the completion with `apply` of the final value.
pub proof fn lemma_map_return_step<R, G, F, T>(
    mapper: MapReturn<G, F>,
    arg: R,
    out: GeneratorState<G::Yield, T>,
    next: MapReturn<G, F>,
    apply: spec_fn(G::Return) -> T,
) where G: Generator<R>, F: FnMut(G::Return) -> T
    requires
        mapper.step(arg, out, &next),
        forall|c: G::Return, t: T| #[trigger] call_ensures(mapper.transform(), (c,), t) ==> t == apply(c),
    ensures
        next.transform() == mapper.transform(),
        exists|inner_out: GeneratorState<G::Yield, G::Return>| #[trigger]
            mapper.inner().step(arg, inner_out, &next.inner()) && out == match inner_out {
                GeneratorState::Yielded(y) => GeneratorState::<G::Yield, T>::Yielded(y),
                GeneratorState::Complete(c) => GeneratorState::<G::Yield, T>::Complete(apply(c)),
            },
{
    let inner_out = choose|inner_out: GeneratorState<G::Yield, G::Return>| #[trigger]
        mapper.inner().step(arg, inner_out, &next.inner()) && maps_return(
            mapper.transform(),
            inner_out,
            out,
        );
    assert(mapper.inner().step(arg, inner_out, &next.inner()));
}

/// Computation that applies a function to each resume argument and resumes
/// the wrapped computation with the result. The yielded values and the final
/// value pass through as they are.
pub struct MapResume<G, F> {
    pub(crate) gen: G,
    pub(crate) func: F,
}

impl<G, F> MapResume<G, F> {
    pub(crate) fn new(gen: G, func: F) -> (mapped: Self)
        ensures
            mapped.inner() == gen,
            mapped.transform() == func,
    {
        MapResume { gen, func }
    }

    /// The wrapped computation.
    pub closed spec fn inner(&self) -> G {
        self.gen
    }

    /// The function applied to the resume arguments.
    pub closed spec fn transform(&self) -> F {
        self.func
    }
}

impl<ResumeInner, ResumeOuter, G, F> Generator<ResumeOuter> for MapResume<G, F> where
    G: Generator<ResumeInner>,
    F: FnMut(ResumeOuter) -> ResumeInner,
 {
    type Yield = G::Yield;

    type Return = G::Return;

    /// The function accepts `arg`, and the wrapped computation may be resumed
    /// with whatever the function may return for it.
    open spec fn can_resume(&self, arg: ResumeOuter) -> bool {
        &&& call_requires(self.transform(), (arg,))
        &&& forall|inner_arg: ResumeInner| #[trigger]
            call_ensures(self.transform(), (arg,), inner_arg) ==> self.inner().can_resume(
                inner_arg,
            )
    }

    /// The wrapped computation makes one step, with something that the
    /// function may return for `arg`, and the outcome is that step's. The
    /// function stays as it is.
    open spec fn step(
        &self,
        arg: ResumeOuter,
        out: GeneratorState<G::Yield, G::Return>,
        next: &Self,
    ) -> bool {
        &&& next.transform() == self.transform()
        &&& exists|inner_arg: ResumeInner| #[trigger]
            call_ensures(self.transform(), (arg,), inner_arg) && self.inner().step(
                inner_arg,
                out,
                &next.inner(),
            )
    }

    fn resume(&mut self, arg: ResumeOuter) -> (out: GeneratorState<G::Yield, G::Return>) {
        let arg = (self.func)(arg);
        self.gen.resume(arg)
    }
}

/// Whether each entry of `inner` is something that `f` may return for the
/// entry of `outer` at the same place.
pub open spec fn resumes_mapped<A, B, F: FnMut(A) -> B>(f: F, outer: Seq<A>, inner: Seq<B>) -> bool {
    &&& inner.len() == outer.len()
    &&& forall|i: int| 0 <= i < outer.len() ==> #[trigger] call_ensures(f, (outer[i],), inner[i])
}

/// Along a run of the resume-mapper the function stays the same.
proof fn lemma_map_resume_keeps_transform<ResumeInner, ResumeOuter, G, F>(
    mappers: Seq<MapResume<G, F>>,
    args: Seq<ResumeOuter>,
    outs: Seq<GeneratorState<G::Yield, G::Return>>,
    k: int,
) where G: Generator<ResumeInner>, F: FnMut(ResumeOuter) -> ResumeInner
    requires
        is_run(mappers, args, outs),
        0 <= k < mappers.len(),
    ensures
        mappers[k].transform() == mappers[0].transform(),
    decreases k,
{
    if k > 0 {
        lemma_map_resume_keeps_transform(mappers, args, outs, k - 1);
        assert(resumed_at(mappers, args, outs, k - 1));
    }
}

/// The runs of the resume-mapper are the runs of the wrapped computation in
/// which each argument is a result of the function for the argument that the
/// mapper was resumed with: the wrapped computation receives what the
/// function made of each argument, and what it yields and completes with
/// comes out of the mapper as it is. The function is the same throughout.
pub proof fn lemma_map_resume_run<ResumeInner, ResumeOuter, G, F>(
    mappers: Seq<MapResume<G, F>>,
    args: Seq<ResumeOuter>,
    outs: Seq<GeneratorState<G::Yield, G::Return>>,
) where G: Generator<ResumeInner>, F: FnMut(ResumeOuter) -> ResumeInner
    ensures
        is_run(mappers, args, outs) <==> {
            &&& mappers.len() == outs.len() + 1
            &&& forall|i: int|
                0 <= i < mappers.len() ==> (#[trigger] mappers[i]).transform()
                    == mappers[0].transform()
            &&& exists|inner_args: Seq<ResumeInner>|
                #![trigger resumes_mapped(mappers[0].transform(), args, inner_args)]
                resumes_mapped(mappers[0].transform(), args, inner_args) && is_run(
                    mappers.map_values(|m: MapResume<G, F>| m.inner()),
                    inner_args,
                    outs,
                )
        },
{
    let inners = mappers.map_values(|m: MapResume<G, F>| m.inner());
    if is_run(mappers, args, outs) {
        let f = mappers[0].transform();
        assert forall|i: int| 0 <= i < mappers.len() implies (#[trigger] mappers[i]).transform()
            == f by {
            lemma_map_resume_keeps_transform(mappers, args, outs, i);
        }
        let inner_args = Seq::new(
            outs.len(),
            |i: int|
                choose|inner_arg: ResumeInner| #[trigger]
                    call_ensures(mappers[i].transform(), (args[i],), inner_arg)
                        && mappers[i].inner().step(inner_arg, outs[i], &mappers[i + 1].inner()),
        );
        assert forall|i: int| 0 <= i < outs.len() implies #[trigger] resumed_at(
            inners,
            inner_args,
            outs,
            i,
        ) by {
            assert(resumed_at(mappers, args, outs, i));
        }
        assert forall|i: int| 0 <= i < args.len() implies #[trigger] call_ensures(
            f,
            (args[i],),
            inner_args[i],
        ) by {
            assert(resumed_at(mappers, args, outs, i));
        }
        assert(is_run(inners, inner_args, outs));
        assert(resumes_mapped(f, args, inner_args));
    }
    if mappers.len() == outs.len() + 1 && (forall|i: int|
        0 <= i < mappers.len() ==> (#[trigger] mappers[i]).transform() == mappers[0].transform())
        && (exists|inner_args: Seq<ResumeInner>|
        #![trigger resumes_mapped(mappers[0].transform(), args, inner_args)]
        resumes_mapped(mappers[0].transform(), args, inner_args) && is_run(
            inners,
            inner_args,
            outs,
        )) {
        let f = mappers[0].transform();
        let inner_args = choose|inner_args: Seq<ResumeInner>|
            #![trigger resumes_mapped(mappers[0].transform(), args, inner_args)]
            resumes_mapped(f, args, inner_args) && is_run(inners, inner_args, outs);
        assert forall|i: int| 0 <= i < outs.len() implies #[trigger] resumed_at(
            mappers,
            args,
            outs,
            i,
        ) by {
            assert(resumed_at(inners, inner_args, outs, i));
            assert(call_ensures(f, (args[i],), inner_args[i]));
            assert(mappers[i].transform() == f);
            assert(mappers[i + 1].transform() == f);
            assert(mappers[i].inner().step(inner_args[i], outs[i], &mappers[i + 1].inner()));
        }
    }
}

/// The resume-mapper whose function accepts `arg` and computes `apply` may be
/// resumed with `arg` where the wrapped computation may be resumed with
/// `apply(arg)`.
pub proof fn lemma_map_resume_can_resume<ResumeInner, ResumeOuter, G, F>(
    mapper: MapResume<G, F>,
    arg: ResumeOuter,
    apply: spec_fn(ResumeOuter) -> ResumeInner,
) where G: Generator<ResumeInner>, F: FnMut(ResumeOuter) -> ResumeInner
    requires
        call_requires(mapper.transform(), (arg,)),
        forall|a: ResumeOuter, b: ResumeInner| #[trigger]
            call_ensures(mapper.transform(), (a,), b) ==> b == apply(a),
        mapper.inner().can_resume(apply(arg)),
    ensures
        mapper.can_resume(arg),
{
}

/// One step of the resume-mapper whose function computes `apply`: the wrapped
/// computation makes a step with `apply` of the argument, and the mapper's
/// outcome is that step's.
pub proof fn lemma_map_resume_step<ResumeInner, ResumeOuter, G, F>(
    mapper: MapResume<G, F>,
    arg: ResumeOuter,
    out: GeneratorState<G::Yield, G::Return>,
    next: MapResume<G, F>,
    apply: spec_fn(ResumeOuter) -> ResumeInner,
) where G: Generator<ResumeInner>, F: FnMut(ResumeOuter) -> ResumeInner
    requires
        mapper.step(arg, out, &next),
        forall|a: ResumeOuter, b: ResumeInner| #[trigger]
            call_ensures(mapper.transform(), (a,), b) ==> b == apply(a),
    ensures
        next.transform() == mapper.transform(),
        mapper.inner().step(apply(arg), out, &next.inner()),
{
}

} // verus!
