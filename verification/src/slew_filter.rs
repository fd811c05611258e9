use vstd::prelude::*;

use crate::numeric::{
    exact_additive, exact_order, lemma_add_difference, lemma_add_then_subtract,
    lemma_at_most_translate, lemma_difference_regroup, lemma_exact_order_is_linear, Additive,
    Ordered, Scale, Zero,
};

verus! {

/// The largest change allowed for a difference `diff`: the rise step when
/// the signal increases, the fall step otherwise.
pub open spec fn slew_limit<T: Additive + Ordered>(diff: T, rise_step: T, fall_step: T) -> T {
    if T::spec_less_than(T::spec_zero(), diff) {
        rise_step
    } else {
        fall_step
    }
}

/// `diff` clamped to `[-limit, limit]`, testing the upper bound first.
pub open spec fn slew_change<T: Additive + Ordered>(diff: T, limit: T) -> T {
    if T::spec_less_than(limit, diff) {
        limit
    } else if T::spec_less_than(diff, T::spec_negated(limit)) {
        T::spec_negated(limit)
    } else {
        diff
    }
}

/// The output of the limiter for `input` after the output `last_output`.
pub open spec fn slew_output<T: Additive + Ordered>(last_output: T, rise_step: T, fall_step: T, input: T) -> T {
    let diff = T::spec_minus(input, last_output);
    T::spec_plus(last_output, slew_change(diff, slew_limit(diff, rise_step, fall_step)))
}

/// Whether `slew_output(last_output, rise_step, fall_step, input)` can be computed.
pub open spec fn slew_output_ok<T: Additive + Ordered>(last_output: T, rise_step: T, fall_step: T, input: T) -> bool {
    let diff = T::spec_minus(input, last_output);
    let limit = slew_limit(diff, rise_step, fall_step);
    &&& T::sub_ok(input, last_output)
    &&& !T::spec_less_than(limit, diff) ==> T::neg_ok(limit)
    &&& T::add_ok(last_output, slew_change(diff, limit))
}

/// Limits the maximum rate of change of a signal, with different rates for
/// a rising and a falling signal.
///
/// With `diff = x{n} - y{n-1}` and `limit` the rise step (rise rate times the
/// sample interval) when `diff > 0` and the fall step otherwise,
/// `y{n} = y{n-1} + clamp(diff, -limit, limit)`.
#[derive(Clone, Copy, Debug, PartialEq)]
pub struct SlewRateLimiter<T> {
    last_output: T,
    rise_step: T,
    fall_step: T,
}

impl<T> View for SlewRateLimiter<T> {
    /// The last output, the rise step and the fall step.
    type V = (T, T, T);

    closed spec fn view(&self) -> (T, T, T) {
        (self.last_output, self.rise_step, self.fall_step)
    }
}

/// Default: output zero, and rates of zero.
impl<T: Zero> Default for SlewRateLimiter<T> {
    fn default() -> (s: Self)
        ensures
            s@ == (T::spec_zero(), T::spec_zero(), T::spec_zero()),
    {
        SlewRateLimiter { last_output: T::zero(), rise_step: T::zero(), fall_step: T::zero() }
    }
}

impl<T: Scale<T>> SlewRateLimiter<T> {
    /// A limiter starting at zero, with steps of the given rates times `dt`.
    pub fn new(rise_rate_per_second: T, fall_rate_per_second: T, dt: T) -> (s: Self)
        requires
            T::scale_ok(rise_rate_per_second, dt),
            T::scale_ok(fall_rate_per_second, dt),
        ensures
            s@ == (
                T::spec_zero(),
                T::spec_scaled(rise_rate_per_second, dt),
                T::spec_scaled(fall_rate_per_second, dt),
            ),
    {
        SlewRateLimiter {
            last_output: T::zero(),
            rise_step: rise_rate_per_second.scaled(dt),
            fall_step: fall_rate_per_second.scaled(dt),
        }
    }

    pub fn reset(&mut self)
        ensures
            final(self)@ == (T::spec_zero(), old(self)@.1, old(self)@.2),
    {
        self.last_output = T::zero();
    }
}

impl<T: Additive + Ordered> SlewRateLimiter<T> {
    /// Moves the output towards `input` by at most the allowed step.
    pub fn update(&mut self, input: T) -> (out: T)
        requires
            slew_output_ok(old(self)@.0, old(self)@.1, old(self)@.2, input),
        ensures
            out == slew_output(old(self)@.0, old(self)@.1, old(self)@.2, input),
            final(self)@ == (out, old(self)@.1, old(self)@.2),
    {
        let diff = input.minus(self.last_output);

        // select the precalculated limit
        let limit = if T::zero().less_than(diff) {
            self.rise_step
        } else {
            self.fall_step
        };

        let actual_change = if limit.less_than(diff) {
            limit
        } else {
            let lower = limit.negated();
            if diff.less_than(lower) {
                lower
            } else {
                diff
            }
        };

        self.last_output = self.last_output.plus(actual_change);
        self.last_output
    }
}

/// Adds `value.limit_slew_using(&mut slew_rate_limiter)` method call syntax.
pub trait LimitSlew<T>: Additive + Ordered {
    /// Replaces the value by the limiter's output for it.
    fn limit_slew_using(&mut self, limiter: &mut SlewRateLimiter<Self>)
        requires
            slew_output_ok(old(limiter)@.0, old(limiter)@.1, old(limiter)@.2, *old(self)),
        ensures
            *final(self) == slew_output(old(limiter)@.0, old(limiter)@.1, old(limiter)@.2, *old(self)),
            final(limiter)@ == (*final(self), old(limiter)@.1, old(limiter)@.2),
    ;
}

impl<T: Additive + Ordered> LimitSlew<T> for T {
    fn limit_slew_using(&mut self, limiter: &mut SlewRateLimiter<T>) {
        *self = limiter.update(*self);
    }
}

/// For integers with non-negative steps, the output moves from the last
/// output by at most the rise step upwards and the fall step downwards, and
/// follows the input exactly when the input lies within those steps.
pub proof fn lemma_slew_within_steps(last_output: i32, rise_step: i32, fall_step: i32, input: i32)
    requires
        0 <= rise_step,
        0 <= fall_step,
        slew_output_ok(last_output, rise_step, fall_step, input),
    ensures
        last_output - fall_step <= slew_output(last_output, rise_step, fall_step, input) <= last_output
            + rise_step,
        last_output - fall_step <= input <= last_output + rise_step ==> slew_output(
            last_output,
            rise_step,
            fall_step,
            input,
        ) == input,
{
}

/// `0 <= a` gives `-a <= 0`.
proof fn lemma_negated_at_most_zero<T: Additive + Ordered>(a: T)
    requires
        exact_additive::<T>(),
        exact_order::<T>(),
        T::spec_at_most(T::spec_zero(), a),
    ensures
        T::spec_at_most(T::spec_negated(a), T::spec_zero()),
{
    let na = T::spec_negated(a);
    lemma_at_most_translate(T::spec_zero(), a, na);
    assert(T::spec_plus(T::spec_zero(), na) == na && T::spec_plus(a, na) == T::spec_zero()) by {
        reveal(exact_additive);
        assert(T::spec_plus(T::spec_zero(), na) == T::spec_plus(na, T::spec_zero()));
    }
}

/// Adding `y` and then `-y` gives back `x`, in either order of the sum.
proof fn lemma_add_then_negated<T: Additive>(x: T, y: T)
    requires
        exact_additive::<T>(),
    ensures
        T::spec_plus(T::spec_plus(x, y), T::spec_negated(y)) == x,
        T::spec_plus(T::spec_plus(y, x), T::spec_negated(y)) == x,
        T::spec_plus(T::spec_minus(x, y), y) == x,
{
    lemma_add_then_subtract(x, y);
    lemma_difference_regroup(x, y, y);
    assert(T::spec_minus(T::spec_plus(x, y), y) == T::spec_plus(T::spec_plus(x, y), T::spec_negated(y)))
        by {
        reveal(exact_additive);
    }
    assert(T::spec_plus(y, x) == T::spec_plus(x, y)) by {
        reveal(exact_additive);
    }
    assert(T::spec_minus(y, y) == T::spec_zero()) by {
        reveal(exact_additive);
    }
    assert(T::spec_plus(x, T::spec_zero()) == x) by {
        reveal(exact_additive);
    }
}

/// `last - fall <= input <= last + rise` exactly when
/// `-fall <= input - last <= rise`.
proof fn lemma_window_around_last<T: Additive + Ordered>(last: T, rise: T, fall: T, input: T)
    requires
        exact_additive::<T>(),
        exact_order::<T>(),
    ensures
        T::spec_at_most(T::spec_minus(last, fall), input) == T::spec_at_most(
            T::spec_negated(fall),
            T::spec_minus(input, last),
        ),
        T::spec_at_most(input, T::spec_plus(last, rise)) == T::spec_at_most(T::spec_minus(input, last), rise),
{
    let nl = T::spec_negated(last);
    let lo = T::spec_minus(last, fall);
    let hi = T::spec_plus(last, rise);
    let diff = T::spec_minus(input, last);
    let nf = T::spec_negated(fall);
    assert(lo == T::spec_plus(last, nf) && diff == T::spec_plus(input, nl) && T::spec_plus(last, nf)
        == T::spec_plus(nf, last) && hi == T::spec_plus(rise, last)) by {
        reveal(exact_additive);
    }
    lemma_add_then_negated(nf, last);
    lemma_add_then_negated(rise, last);
    lemma_add_then_negated(input, last);
    if T::spec_at_most(lo, input) {
        lemma_at_most_translate(lo, input, nl);
    }
    if T::spec_at_most(nf, diff) {
        lemma_at_most_translate(nf, diff, last);
    }
    if T::spec_at_most(input, hi) {
        lemma_at_most_translate(input, hi, nl);
    }
    if T::spec_at_most(diff, rise) {
        lemma_at_most_translate(diff, rise, last);
    }
}

/// The slew limiter's law: with non-negative steps, the output moves from
/// the last output by at most the rise step upwards and the fall step
/// downwards, and follows the input exactly when the input lies within
/// those steps, for any exact arithmetic with an order that addition keeps.
pub proof fn lemma_slew_within_steps_exact<T: Additive + Ordered>(
    last_output: T,
    rise_step: T,
    fall_step: T,
    input: T,
)
    requires
        exact_additive::<T>(),
        exact_order::<T>(),
        T::spec_at_most(T::spec_zero(), rise_step),
        T::spec_at_most(T::spec_zero(), fall_step),
    ensures
        T::spec_at_most(
            T::spec_minus(last_output, fall_step),
            slew_output(last_output, rise_step, fall_step, input),
        ),
        T::spec_at_most(
            slew_output(last_output, rise_step, fall_step, input),
            T::spec_plus(last_output, rise_step),
        ),
        T::spec_at_most(T::spec_minus(last_output, fall_step), input) && T::spec_at_most(
            input,
            T::spec_plus(last_output, rise_step),
        ) ==> slew_output(last_output, rise_step, fall_step, input) == input,
{
    lemma_exact_order_is_linear::<T>();
    lemma_negated_at_most_zero(rise_step);
    lemma_negated_at_most_zero(fall_step);
    let diff = T::spec_minus(input, last_output);
    let change = slew_change(diff, slew_limit(diff, rise_step, fall_step));
    let out = slew_output(last_output, rise_step, fall_step, input);
    assert(T::spec_at_most(T::spec_negated(fall_step), change) && T::spec_at_most(change, rise_step));
    lemma_window_around_last(last_output, rise_step, fall_step, out);
    lemma_window_around_last(last_output, rise_step, fall_step, input);
    // out - last == change
    assert(T::spec_minus(out, last_output) == T::spec_plus(out, T::spec_negated(last_output))) by {
        reveal(exact_additive);
    }
    lemma_add_then_negated(change, last_output);
    lemma_add_difference(last_output, input);
}

} // verus!
