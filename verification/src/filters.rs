//! The common interface of the stateful filters.
//!
//! The filtering function is called `update` rather than `apply` or `filter`:
//! `update` says that the filter has internal state, whereas `apply` suggests
//! a pure mathematical function with no memory.
use vstd::prelude::*;

verus! {

/// A stateful filter of signal values of type `T` with gains of type `F`.
///
/// The filters of this crate define the spec functions exactly.  A filter
/// implemented outside verified code keeps the defaults (always defined, a
/// fixed unspecified result), which describe nothing of it.
pub trait SignalFilter<T, F>: Sized {
    /// Whether `update(input)` can be computed from this state.
    closed spec fn update_ok(&self, input: T) -> bool {
        true
    }

    /// The filter after `update(input)`.
    closed spec fn after_update(&self, input: T) -> Self {
        vstd::pervasive::arbitrary()
    }

    /// The value that `update(input)` returns.
    closed spec fn output(&self, input: T) -> T {
        vstd::pervasive::arbitrary()
    }

    /// Whether `reset_to_value(value)` can be computed from this state.
    closed spec fn reset_ok(&self, value: T) -> bool {
        true
    }

    /// Clears the filter's memory.
    fn reset(&mut self);

    /// Sets the filter's memory to the steady state for the constant input
    /// `value`, instead of zero.
    fn reset_to_value(&mut self, value: T)
        requires
            old(self).reset_ok(value),
    ;

    /// Feeds `input` through the filter and returns the filtered value.
    fn update(&mut self, input: T) -> (out: T)
        requires
            old(self).update_ok(input),
        ensures
            *final(self) == old(self).after_update(input),
            out == old(self).output(input),
    ;
}

/// Adds `value.filter_using(&mut filter)` method call syntax to `SignalFilter`.
pub trait UpdateFilter<T, R>: Sized {
    fn filter_using<F: SignalFilter<Self, R>>(self, filter: &mut F) -> (r: Self)
        requires
            old(filter).update_ok(self),
        ensures
            *final(filter) == old(filter).after_update(self),
            r == old(filter).output(self),
    ;
}

impl<T, R> UpdateFilter<T, R> for T {
    fn filter_using<F: SignalFilter<T, R>>(self, filter: &mut F) -> (r: T) {
        filter.update(self)
    }
}

} // verus!
