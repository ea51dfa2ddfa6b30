//! Adapters over resumable computations: views that iterate over what a
//! computation yields, and combinators that map one of its three channels.

pub mod generator;
pub mod iter;
pub mod map;

pub use generator::{Generator, GeneratorState};
pub use iter::{FusedGenIterator, RawGenIterator, SimpleGenIterator, SupportedReturnValue};
pub use map::{MapResume, MapReturn, MapYield};
use vstd::prelude::*;

verus! {

/// Methods to wrap a computation in the adapters of this crate. The trait is
/// implemented for every computation.
pub trait GeneratorExt<R>: Generator<R> {
    /// Apply provided function to each yielded value.
    fn map_yield<F, T>(self, func: F) -> (mapped: MapYield<Self, F>) where
        F: FnMut(Self::Yield) -> T,
        Self: Sized,

        ensures
            mapped.inner() == self,
            mapped.transform() == func,
    {
        MapYield::new(self, func)
    }

    /// Apply provided function to return value.
    fn map_return<F, T>(self, func: F) -> (mapped: MapReturn<Self, F>) where
        F: FnMut(Self::Return) -> T,
        Self: Sized,

        ensures
            mapped.inner() == self,
            mapped.transform() == func,
    {
        MapReturn::new(self, func)
    }

    /// Apply provided function to resume arguments. A computation that takes
    /// an argument can be iterated over once its arguments are mapped from `()`.
    fn map_resume<F, T>(self, func: F) -> (mapped: MapResume<Self, F>) where
        F: FnMut(T) -> R,
        Self: Sized,

        ensures
            mapped.inner() == self,
            mapped.transform() == func,
    {
        MapResume::new(self, func)
    }

    /// Resumes a computation that may be moved between resumptions.
    fn resume_unpin(&mut self, arg: R) -> (out: GeneratorState<Self::Yield, Self::Return>)
        requires
            old(self).can_resume(arg),
        ensures
            old(self).step(arg, out, final(self)),
    {
        self.resume(arg)
    }

    /// Utility method to pass a computation by mutable reference.
    fn by_ref(&mut self) -> (handle: &mut Self) where
        Self: Sized,

        ensures
            *handle == *old(self),
            *final(self) == *final(handle),
    {
        self
    }

    /// Places the computation on the heap and returns the handle to it.
    fn boxed(self) -> (handle: Box<Self>) where
        Self: Sized,

        ensures
            *handle == self,
    {
        Box::new(self)
    }

    /// Converts this computation into the view over its yielded values.
    fn iterate_over_yields(self) -> (view: SimpleGenIterator<Self>) where
        Self: Sized,
        Self::Return: SupportedReturnValue,

        ensures
            view.inner() == self,
    {
        SimpleGenIterator::new(self)
    }

    /// Converts this computation into the view over its outcomes.
    fn into_raw_iterator(self) -> (view: RawGenIterator<Self>) where
        Self: Generator<()> + Sized,

        ensures
            view.inner() == self,
    {
        RawGenIterator::new(self)
    }

    /// Converts this computation into the fused view, which also keeps the
    /// final value.
    fn into_fused_iterator(self) -> (view: FusedGenIterator<Self>) where
        Self: Generator<()> + Sized,

        ensures
            view == FusedGenIterator::Generator(self),
    {
        FusedGenIterator::new(self)
    }
}

impl<R, G: Generator<R>> GeneratorExt<R> for G {

}

} // verus!
