//! First-, second- and third-order low-pass filters (Proportional Time elements).
use vstd::prelude::*;

use crate::filters::SignalFilter;
use crate::numeric::{
    exact_additive, exact_arithmetic, exact_order, exact_scaling, exact_sign_scaling,
    is_linear_order, lemma_add_difference, lemma_add_then_subtract, lemma_at_most_iff_difference,
    lemma_at_most_translate, lemma_at_most_zero_iff_negated, lemma_difference_of_complements,
    lemma_difference_of_sums, lemma_difference_regroup, lemma_difference_zero,
    lemma_exact_order_is_linear, lemma_exact_parts, lemma_gain_product_commutes, lemma_minus_and_assoc,
    lemma_no_zero_divisors, lemma_scaled_by_sum, lemma_scaled_by_zero, lemma_scaled_sum, ordered_cutoff_corrections,
    lemma_mul_add_exact, lemma_scaled_by_complement, lemma_scaled_difference,
    lemma_scaled_keeps_sign, lemma_scaled_negated, lemma_scaled_quotient, lemma_scaled_twice,
    lemma_sum_regroup, lemma_sum_with_signed, MathConstants, One, Ordered, Scalar, Scale, Zero,
};

verus! {

/// One first-order low-pass step, `state + k * (input - state)`, computed as
/// `(input - state).mul_add(k, state)`.
pub open spec fn pt_step<T: Scale<R>, R>(input: T, state: T, k: R) -> T {
    T::spec_mul_add(T::spec_minus(input, state), k, state)
}

/// Whether `pt_step(input, state, k)` can be computed.
pub open spec fn pt_step_ok<T: Scale<R>, R>(input: T, state: T, k: R) -> bool {
    &&& T::sub_ok(input, state)
    &&& T::mul_add_ok(T::spec_minus(input, state), k, state)
}

/// `k` clamped to the unit interval: below zero gives zero, above one gives one.
pub open spec fn clamp_gain<R: Scalar>(k: R) -> R {
    if R::spec_less_than(k, R::spec_zero()) {
        R::spec_zero()
    } else if R::spec_less_than(R::spec_one(), k) {
        R::spec_one()
    } else {
        k
    }
}

/// `1 + 1`
pub open spec fn spec_two<R: Scalar>() -> R {
    R::spec_plus(R::spec_one(), R::spec_one())
}

/// `omega / (omega + 1)`
pub open spec fn gain_from_omega<R: Scalar>(omega: R) -> R {
    R::spec_divided(omega, R::spec_plus(omega, R::spec_one()))
}

/// Whether `gain_from_omega(omega)` can be computed.
pub open spec fn gain_from_omega_ok<R: Scalar>(omega: R) -> bool {
    &&& R::add_ok(omega, R::spec_one())
    &&& R::div_ok(omega, R::spec_plus(omega, R::spec_one()))
}

/// The gain of a first-order filter whose time constant is `delay`:
/// one (no filtering) for a delay that is not positive, else
/// `omega / (omega + 1)` with `omega = delta_t / delay`.
pub open spec fn spec_gain_from_delay<R: Scalar>(delay: R, delta_t: R) -> R {
    if R::spec_at_most(delay, R::spec_zero()) {
        R::spec_one()
    } else {
        gain_from_omega(R::spec_divided(delta_t, delay))
    }
}

pub open spec fn gain_from_delay_ok<R: Scalar>(delay: R, delta_t: R) -> bool {
    !R::spec_at_most(delay, R::spec_zero()) ==> {
        &&& R::div_ok(delta_t, delay)
        &&& gain_from_omega_ok(R::spec_divided(delta_t, delay))
    }
}

/// `2 * PI * frequency * delta_t`, multiplied from the left.
pub open spec fn frequency_omega<R: Scalar + MathConstants>(frequency: R, delta_t: R) -> R {
    R::spec_scaled(R::spec_scaled(R::spec_scaled(spec_two::<R>(), R::spec_pi()), frequency), delta_t)
}

pub open spec fn frequency_omega_ok<R: Scalar + MathConstants>(frequency: R, delta_t: R) -> bool {
    let two = spec_two::<R>();
    let two_pi = R::spec_scaled(two, R::spec_pi());
    let two_pi_f = R::spec_scaled(two_pi, frequency);
    &&& R::add_ok(R::spec_one(), R::spec_one())
    &&& R::scale_ok(two, R::spec_pi())
    &&& R::scale_ok(two_pi, frequency)
    &&& R::scale_ok(two_pi_f, delta_t)
}

/// The gain of a first-order filter with the given cutoff frequency:
/// `omega / (omega + 1)` with `omega = 2 * PI * frequency * delta_t`.
pub open spec fn spec_gain_from_frequency<R: Scalar + MathConstants>(frequency: R, delta_t: R) -> R {
    gain_from_omega(frequency_omega(frequency, delta_t))
}

pub open spec fn gain_from_frequency_ok<R: Scalar + MathConstants>(frequency: R, delta_t: R) -> bool {
    &&& frequency_omega_ok(frequency, delta_t)
    &&& gain_from_omega_ok(frequency_omega(frequency, delta_t))
}

/// The state from which a first-order stage with gain `new_k` gives, for
/// the input `input`, the output `output`: `(output - input * new_k) / (1 - new_k)`.
pub open spec fn back_calculated_state<T: Scale<R>, R: Scalar>(output: T, input: T, new_k: R) -> T {
    T::spec_divided(
        T::spec_minus(output, T::spec_scaled(input, new_k)),
        R::spec_minus(R::spec_one(), new_k),
    )
}

pub open spec fn back_calculated_state_ok<T: Scale<R>, R: Scalar>(output: T, input: T, new_k: R) -> bool {
    &&& T::scale_ok(input, new_k)
    &&& T::sub_ok(output, T::spec_scaled(input, new_k))
    &&& R::sub_ok(R::spec_one(), new_k)
    &&& T::div_ok(
        T::spec_minus(output, T::spec_scaled(input, new_k)),
        R::spec_minus(R::spec_one(), new_k),
    )
}

/// `k` clamped to the unit interval.
fn clamped_gain<R: Scalar>(k: R) -> (r: R)
    ensures
        r == clamp_gain(k),
{
    if k.less_than(R::zero()) {
        R::zero()
    } else if R::one().less_than(k) {
        R::one()
    } else {
        k
    }
}

fn gain_from_omega_value<R: Scalar>(omega: R) -> (r: R)
    requires
        gain_from_omega_ok(omega),
    ensures
        r == gain_from_omega(omega),
{
    omega.divided(omega.plus(R::one()))
}

fn frequency_omega_value<R: Scalar + MathConstants>(frequency: R, delta_t: R) -> (r: R)
    requires
        frequency_omega_ok(frequency, delta_t),
    ensures
        r == frequency_omega(frequency, delta_t),
{
    let two = R::one().plus(R::one());
    two.scaled(R::pi()).scaled(frequency).scaled(delta_t)
}

/// Discrete-time, first-order low-pass filter (Proportional Time element).
///
/// The discrete-time transfer function is
/// `y{n} = y{n-1} + k * (x{n} - y{n-1})`,
/// where `k` is calculated from the time constant `T` and sample time `dt`:
/// `k = dt / (T + dt)`.
#[derive(Clone, Copy, Debug, PartialEq)]
pub struct Pt1Filter<T, R> {
    state: T,
    k: R,
}

impl<T, R> View for Pt1Filter<T, R> {
    /// The filter's memory and its gain.
    type V = (T, R);

    closed spec fn view(&self) -> (T, R) {
        (self.state, self.k)
    }
}

/// Default is k = 1, which is passthrough.
impl<T: Zero, R: One> Default for Pt1Filter<T, R> {
    fn default() -> (f: Self)
        ensures
            f@ == (T::spec_zero(), R::spec_one()),
    {
        Self::new()
    }
}

impl<T: Copy, R: Copy> Pt1Filter<T, R> {
    /// A filter starting at a specific signal value with a specific k.
    pub fn with_state_and_k(state: T, k: R) -> (f: Self)
        ensures
            f@ == (state, k),
    {
        Pt1Filter { state, k }
    }

    /// A filter starting at zero with a custom k.
    pub fn with_k(k: R) -> (f: Self)
        where T: Zero,
        ensures
            f@ == (T::spec_zero(), k),
    {
        Pt1Filter { state: T::zero(), k }
    }

    /// A passthrough filter starting at zero.
    pub fn new() -> (f: Self)
        where T: Zero, R: One,
        ensures
            f@ == (T::spec_zero(), R::spec_one()),
    {
        Pt1Filter { state: T::zero(), k: R::one() }
    }
}

impl<T: Scale<R>, R: Copy> SignalFilter<T, R> for Pt1Filter<T, R> {
    open spec fn reset_ok(&self, value: T) -> bool {
        true
    }

    open spec fn update_ok(&self, input: T) -> bool {
        pt_step_ok(input, self@.0, self@.1)
    }

    closed spec fn after_update(&self, input: T) -> Self {
        Pt1Filter { state: pt_step(input, self.state, self.k), k: self.k }
    }

    open spec fn output(&self, input: T) -> T {
        pt_step(input, self@.0, self@.1)
    }

    fn reset(&mut self)
        ensures
            final(self)@ == (T::spec_zero(), old(self)@.1),
    {
        self.state = T::zero();
    }

    /// Reset the historical memory to a specific value instead of hard zero.
    fn reset_to_value(&mut self, value: T)
        ensures
            final(self)@ == (value, old(self)@.1),
    {
        self.state = value;
    }

    fn update(&mut self, input: T) -> (out: T)
        ensures
            final(self)@ == (pt_step(input, old(self)@.0, old(self)@.1), old(self)@.1),
            out == final(self)@.0,
    {
        // state = (input - state) * k + state
        self.state = input.minus(self.state).mul_add(self.k, self.state);
        self.state
    }
}

impl<T: Scale<R>, R: Copy> Pt1Filter<T, R> {
    /// What `update(input)` (or `input.filter_using`) leaves: the stepped
    /// memory and the same gain.
    pub proof fn lemma_after_update(self, input: T)
        ensures
            self.after_update(input)@ == (pt_step(input, self@.0, self@.1), self@.1),
    {
    }
}

impl<T: Copy, R: Scalar> Pt1Filter<T, R> {
    pub fn set_to_passthrough(&mut self)
        ensures
            final(self)@ == (old(self)@.0, R::spec_one()),
    {
        self.k = R::one();
    }

    pub fn set_k(&mut self, k: R)
        ensures
            final(self)@ == (old(self)@.0, k),
    {
        self.k = k;
    }

    /// Sets the gain, clamped to the unit interval.
    pub fn set_k_safe(&mut self, k: R)
        ensures
            final(self)@ == (old(self)@.0, clamp_gain(k)),
    {
        self.k = clamped_gain(k);
    }

    pub fn k(&self) -> (k: R)
        ensures
            k == self@.1,
    {
        self.k
    }

    pub fn state(&self) -> (s: T)
        ensures
            s == self@.0,
    {
        self.state
    }
}

impl<T: Copy, R: Scalar + MathConstants> Pt1Filter<T, R> {
    pub fn set_cutoff_frequency(&mut self, cutoff_frequency_hz: R, delta_t: R)
        requires
            gain_from_frequency_ok(cutoff_frequency_hz, delta_t),
        ensures
            final(self)@ == (old(self)@.0, spec_gain_from_frequency(cutoff_frequency_hz, delta_t)),
    {
        self.k = Self::gain_from_frequency(cutoff_frequency_hz, delta_t);
    }

    /// The gain for a filter whose time constant (the time the response takes
    /// to reach 63.2% of a step input) is `delay`.
    pub fn gain_from_delay(delay: R, delta_t: R) -> (k: R)
        requires
            gain_from_delay_ok(delay, delta_t),
        ensures
            k == spec_gain_from_delay(delay, delta_t),
            exact_arithmetic::<R, R>() && exact_order::<R>() && R::spec_less_than(R::spec_zero(), R::spec_one())
                && R::spec_less_than(R::spec_zero(), delay) && R::spec_at_most(R::spec_zero(), delta_t)
                ==> R::spec_scaled(k, R::spec_plus(delay, delta_t)) == delta_t,
    {
        proof {
            if exact_arithmetic::<R, R>() && exact_order::<R>() && R::spec_less_than(R::spec_zero(), R::spec_one())
                && R::spec_less_than(R::spec_zero(), delay) && R::spec_at_most(R::spec_zero(), delta_t) {
                lemma_gain_from_delay_time_constant(delay, delta_t);
            }
        }
        if delay.at_most(R::zero()) {
            // gain of one means no filtering
            return R::one();
        }
        let omega = delta_t.divided(delay);
        gain_from_omega_value(omega)
    }

    pub fn gain_from_frequency(cutoff_frequency_hz: R, delta_t: R) -> (k: R)
        requires
            gain_from_frequency_ok(cutoff_frequency_hz, delta_t),
        ensures
            k == spec_gain_from_frequency(cutoff_frequency_hz, delta_t),
    {
        let omega = frequency_omega_value(cutoff_frequency_hz, delta_t);
        gain_from_omega_value(omega)
    }
}

/// The memory of a first-order filter after a seamless change of its gain
/// from `k` to `new_k` (already clamped), given the last input.
pub open spec fn pt1_seamless_state<T: Scale<R>, R: Scalar>(state: T, k: R, new_k: R, last_input: T) -> T {
    if R::spec_less_than(R::spec_zero(), new_k) && R::spec_less_than(new_k, R::spec_one()) {
        back_calculated_state(pt_step(last_input, state, k), last_input, new_k)
    } else {
        state
    }
}

pub open spec fn pt1_seamless_ok<T: Scale<R>, R: Scalar>(state: T, k: R, new_k: R, last_input: T) -> bool {
    R::spec_less_than(R::spec_zero(), new_k) ==> {
        &&& pt_step_ok(last_input, state, k)
        &&& R::spec_less_than(new_k, R::spec_one()) ==> back_calculated_state_ok(
            pt_step(last_input, state, k),
            last_input,
            new_k,
        )
    }
}

impl<T: Scale<R>, R: Scalar + MathConstants> Pt1Filter<T, R> {
    /// Updates the cutoff frequency seamlessly, that is without a
    /// discontinuity in the output: the memory is recalculated so that the
    /// new gain reproduces the last output from the last input.
    pub fn set_cutoff_frequency_seamless(&mut self, cutoff_frequency_hz: R, delta_t: R, last_input: T)
        requires
            gain_from_frequency_ok(cutoff_frequency_hz, delta_t),
            pt1_seamless_ok(
                old(self)@.0,
                old(self)@.1,
                clamp_gain(spec_gain_from_frequency(cutoff_frequency_hz, delta_t)),
                last_input,
            ),
        ensures
            ({
                let new_k = clamp_gain(spec_gain_from_frequency(cutoff_frequency_hz, delta_t));
                final(self)@ == (pt1_seamless_state(old(self)@.0, old(self)@.1, new_k, last_input), new_k)
            }),
    {
        let new_k = Self::gain_from_frequency(cutoff_frequency_hz, delta_t);
        let safe_new_k = clamped_gain(new_k);

        // adjust the state if the filter is active and not an exact passthrough
        if R::zero().less_than(safe_new_k) {
            // reconstruct the last output using the old parameters
            let last_output = last_input.minus(self.state).mul_add(self.k, self.state);
            // compute the state that gives the same output with the new gain
            if safe_new_k.less_than(R::one()) {
                self.state = last_output.minus(last_input.scaled(safe_new_k)).divided(
                    R::one().minus(safe_new_k),
                );
            }
        }
        self.k = safe_new_k;
    }
}

/// Discrete-time, second-order low-pass filter: two cascaded first-order
/// stages with the same gain.
///
/// `w{n} = w{n-1} + k * (x{n} - w{n-1})` and `y{n} = y{n-1} + k * (w{n} - y{n-1})`,
/// where `w` is kept in `state[1]` and `y` in `state[0]`.
#[derive(Clone, Copy, Debug, PartialEq)]
pub struct Pt2Filter<T, R> {
    state: [T; 2],
    k: R,
}

impl<T, R> View for Pt2Filter<T, R> {
    /// The filter's memory and its gain.
    type V = ([T; 2], R);

    closed spec fn view(&self) -> ([T; 2], R) {
        (self.state, self.k)
    }
}

/// Default is k = 1, which is passthrough.
impl<T: Zero, R: One> Default for Pt2Filter<T, R> {
    fn default() -> (f: Self)
        ensures
            f@.0[0] == T::spec_zero(),
            f@.0[1] == T::spec_zero(),
            f@.1 == R::spec_one(),
    {
        Self::new()
    }
}

impl<T: Copy, R: Copy> Pt2Filter<T, R> {
    /// A filter starting at a specific memory with a specific k.
    pub fn with_state_and_k(state: [T; 2], k: R) -> (f: Self)
        ensures
            f@ == (state, k),
    {
        Pt2Filter { state, k }
    }

    /// A filter starting at zero with a custom k.
    pub fn with_k(k: R) -> (f: Self)
        where T: Zero,
        ensures
            f@.0[0] == T::spec_zero(),
            f@.0[1] == T::spec_zero(),
            f@.1 == k,
    {
        Pt2Filter { state: [T::zero(), T::zero()], k }
    }

    /// A passthrough filter starting at zero.
    pub fn new() -> (f: Self)
        where T: Zero, R: One,
        ensures
            f@.0[0] == T::spec_zero(),
            f@.0[1] == T::spec_zero(),
            f@.1 == R::spec_one(),
    {
        Pt2Filter { state: [T::zero(), T::zero()], k: R::one() }
    }
}

impl<T: Scale<R>, R: Copy> SignalFilter<T, R> for Pt2Filter<T, R> {
    open spec fn reset_ok(&self, value: T) -> bool {
        true
    }

    open spec fn update_ok(&self, input: T) -> bool {
        &&& pt_step_ok(input, self@.0[1], self@.1)
        &&& pt_step_ok(pt_step(input, self@.0[1], self@.1), self@.0[0], self@.1)
    }

    closed spec fn after_update(&self, input: T) -> Self {
        let w = pt_step(input, self.state[1], self.k);
        Pt2Filter { state: [pt_step(w, self.state[0], self.k), w], k: self.k }
    }

    open spec fn output(&self, input: T) -> T {
        pt_step(pt_step(input, self@.0[1], self@.1), self@.0[0], self@.1)
    }

    fn reset(&mut self)
        ensures
            final(self)@.0[0] == T::spec_zero(),
            final(self)@.0[1] == T::spec_zero(),
            final(self)@.1 == old(self)@.1,
    {
        self.state = [T::zero(), T::zero()];
    }

    /// Reset the historical memory to a specific value instead of hard zero.
    fn reset_to_value(&mut self, value: T)
        ensures
            final(self)@.0[0] == value,
            final(self)@.0[1] == value,
            final(self)@.1 == old(self)@.1,
    {
        self.state[1] = value;
        self.state[0] = value;
    }

    fn update(&mut self, input: T) -> (out: T)
        ensures
            final(self)@.0[1] == pt_step(input, old(self)@.0[1], old(self)@.1),
            final(self)@.0[0] == pt_step(final(self)@.0[1], old(self)@.0[0], old(self)@.1),
            final(self)@.1 == old(self)@.1,
            out == final(self)@.0[0],
    {
        self.state[1] = input.minus(self.state[1]).mul_add(self.k, self.state[1]);
        self.state[0] = self.state[1].minus(self.state[0]).mul_add(self.k, self.state[0]);
        proof {
            broadcast use vstd::array::group_array_axioms;
            assert(self.state =~= old(self).after_update(input).state);
        }
        self.state[0]
    }
}

impl<T: Scale<R>, R: Copy> Pt2Filter<T, R> {
    /// What `update(input)` (or `input.filter_using`) leaves: the first
    /// stage stepped towards the input, the second towards the first, and the
    /// same gain.
    pub proof fn lemma_after_update(self, input: T)
        ensures
            self.after_update(input)@.0[1] == pt_step(input, self@.0[1], self@.1),
            self.after_update(input)@.0[0] == pt_step(
                pt_step(input, self@.0[1], self@.1),
                self@.0[0],
                self@.1,
            ),
            self.after_update(input)@.1 == self@.1,
    {
    }

    /// With gain one the filter passes its input through: in exact
    /// arithmetic `update(input)` returns `input` and leaves both stages
    /// holding it.
    pub proof fn lemma_gain_one_passes_input(self, input: T)
        where R: Scalar,
        requires
            exact_arithmetic::<T, R>(),
            self@.1 == R::spec_one(),
        ensures
            self.output(input) == input,
            self.after_update(input)@.0[0] == input,
            self.after_update(input)@.0[1] == input,
    {
        lemma_pt_step_exact_extremes::<T, R>(input, self@.0[1]);
        lemma_pt_step_exact_extremes::<T, R>(input, self@.0[0]);
    }
}

impl<T: Copy, R: Scalar> Pt2Filter<T, R> {
    pub fn set_to_passthrough(&mut self)
        ensures
            final(self)@ == (old(self)@.0, R::spec_one()),
    {
        self.k = R::one();
    }

    pub fn set_k(&mut self, k: R)
        ensures
            final(self)@ == (old(self)@.0, k),
    {
        self.k = k;
    }

    /// Sets the gain, clamped to the unit interval.
    pub fn set_k_safe(&mut self, k: R)
        ensures
            final(self)@ == (old(self)@.0, clamp_gain(k)),
    {
        self.k = clamped_gain(k);
    }

    pub fn k(self) -> (k: R)
        ensures
            k == self@.1,
    {
        self.k
    }

    pub fn state(self) -> (s: [T; 2])
        ensures
            s == self@.0,
    {
        self.state
    }
}

impl<T: Copy, R: Scalar + MathConstants> Pt2Filter<T, R> {
    pub fn set_cutoff_frequency(&mut self, cutoff_frequency_hz: R, delta_t: R)
        requires
            R::scale_ok(cutoff_frequency_hz, R::spec_pt2_cutoff_correction()),
            gain_from_frequency_ok(
                R::spec_scaled(cutoff_frequency_hz, R::spec_pt2_cutoff_correction()),
                delta_t,
            ),
        ensures
            final(self)@ == (old(self)@.0, spec_gain_from_frequency(
                R::spec_scaled(cutoff_frequency_hz, R::spec_pt2_cutoff_correction()),
                delta_t,
            )),
    {
        self.k = Self::gain_from_frequency(cutoff_frequency_hz, delta_t);
    }

    /// The gain of the cascade whose time constant is `delay`: that of a
    /// first-order filter with the delay scaled by the PT2 cutoff correction.
    pub fn gain_from_delay(delay: R, delta_t: R) -> (k: R)
        requires
            R::scale_ok(delay, R::spec_pt2_cutoff_correction()),
            gain_from_delay_ok(R::spec_scaled(delay, R::spec_pt2_cutoff_correction()), delta_t),
        ensures
            k == spec_gain_from_delay(R::spec_scaled(delay, R::spec_pt2_cutoff_correction()), delta_t),
    {
        Pt1Filter::<T, R>::gain_from_delay(delay.scaled(R::pt2_cutoff_correction()), delta_t)
    }

    /// The gain of the cascade for a cutoff frequency: that of a first-order
    /// filter with the frequency shifted to satisfy the -3dB cutoff condition.
    pub fn gain_from_frequency(cutoff_frequency_hz: R, delta_t: R) -> (k: R)
        requires
            R::scale_ok(cutoff_frequency_hz, R::spec_pt2_cutoff_correction()),
            gain_from_frequency_ok(
                R::spec_scaled(cutoff_frequency_hz, R::spec_pt2_cutoff_correction()),
                delta_t,
            ),
        ensures
            k == spec_gain_from_frequency(
                R::spec_scaled(cutoff_frequency_hz, R::spec_pt2_cutoff_correction()),
                delta_t,
            ),
    {
        Pt1Filter::<T, R>::gain_from_frequency(
            cutoff_frequency_hz.scaled(R::pt2_cutoff_correction()),
            delta_t,
        )
    }
}

/// Whether a seamless gain change of a second-order filter to `new_k`
/// recalculates the memory: `new_k` is positive and `1 - new_k` is positive.
pub open spec fn pt2_seamless_adjusts<R: Scalar>(new_k: R) -> bool {
    R::spec_less_than(R::spec_zero(), new_k) && R::spec_less_than(
        R::spec_zero(),
        R::spec_minus(R::spec_one(), new_k),
    )
}

pub open spec fn pt2_seamless_ok<T: Scale<R>, R: Scalar>(state: [T; 2], k: R, new_k: R, last_input: T) -> bool {
    R::spec_less_than(R::spec_zero(), new_k) ==> {
        &&& R::sub_ok(R::spec_one(), new_k)
        &&& pt2_seamless_adjusts(new_k) ==> {
            let stage1 = pt_step(last_input, state[1], k);
            let stage2 = pt_step(state[1], state[0], k);
            let w = back_calculated_state(stage1, last_input, new_k);
            &&& pt_step_ok(last_input, state[1], k)
            &&& pt_step_ok(state[1], state[0], k)
            &&& back_calculated_state_ok(stage1, last_input, new_k)
            &&& back_calculated_state_ok(stage2, w, new_k)
        }
    }
}

impl<T: Scale<R>, R: Scalar + MathConstants> Pt2Filter<T, R> {
    /// Seamlessly updates the cutoff frequency by recalculating the memory of
    /// both stages: at the new gain each stage gives the output it gave at
    /// the old one, the first stage fed `last_input` and the second fed the
    /// first stage's new memory.
    /// The new gain is the one `set_cutoff_frequency` sets for this frequency
    /// (the first-order gain of the frequency shifted by the PT2 cutoff
    /// correction), clamped to the unit interval.
    pub fn set_cutoff_frequency_seamless(&mut self, cutoff_frequency_hz: R, delta_t: R, last_input: T)
        requires
            R::scale_ok(cutoff_frequency_hz, R::spec_pt2_cutoff_correction()),
            gain_from_frequency_ok(
                R::spec_scaled(cutoff_frequency_hz, R::spec_pt2_cutoff_correction()),
                delta_t,
            ),
            pt2_seamless_ok(
                old(self)@.0,
                old(self)@.1,
                clamp_gain(
                    spec_gain_from_frequency(
                        R::spec_scaled(cutoff_frequency_hz, R::spec_pt2_cutoff_correction()),
                        delta_t,
                    ),
                ),
                last_input,
            ),
        ensures
            ({
                let new_k = clamp_gain(
                    spec_gain_from_frequency(
                        R::spec_scaled(cutoff_frequency_hz, R::spec_pt2_cutoff_correction()),
                        delta_t,
                    ),
                );
                let s = old(self)@.0;
                let k = old(self)@.1;
                let w = back_calculated_state(pt_step(last_input, s[1], k), last_input, new_k);
                &&& final(self)@.1 == new_k
                &&& pt2_seamless_adjusts(new_k) ==> final(self)@.0[1] == w && final(self)@.0[0]
                    == back_calculated_state(pt_step(s[1], s[0], k), w, new_k)
                &&& !pt2_seamless_adjusts(new_k) ==> final(self)@.0 == s
            }),
    {
        // the raw gain for the corrected cutoff frequency
        let corrected_hz = cutoff_frequency_hz.scaled(R::pt2_cutoff_correction());
        let omega = frequency_omega_value(corrected_hz, delta_t);
        let new_k = gain_from_omega_value(omega);

        // clamp the gain to the unit interval to keep the filter stable
        let safe_new_k = clamped_gain(new_k);

        // recalculate the memory unless the filter bypasses completely
        if R::zero().less_than(safe_new_k) {
            let one_minus_new_k = R::one().minus(safe_new_k);
            if R::zero().less_than(one_minus_new_k) {
                // stage 1 output before the gain change
                let last_output_stage1 = last_input.minus(self.state[1]).mul_add(self.k, self.state[1]);
                // stage 2 output: the filter's last result before the change
                let last_output_stage2 = self.state[1].minus(self.state[0]).mul_add(self.k, self.state[0]);
                // the new memory of stage 1
                self.state[1] = last_output_stage1.minus(last_input.scaled(safe_new_k)).divided(one_minus_new_k);
                // stage 2 takes the new stage 1 memory as its incoming sample
                self.state[0] = last_output_stage2.minus(self.state[1].scaled(safe_new_k)).divided(one_minus_new_k);
            }
        }
        self.k = safe_new_k;
        proof {
            if !pt2_seamless_adjusts(safe_new_k) {
                assert(self.state =~= old(self).state);
            }
        }
    }
}

/// Discrete-time, third-order low-pass filter: three cascaded first-order
/// stages with the same gain.
///
/// `u{n} = u{n-1} + k * (x{n} - u{n-1})`, `v{n} = v{n-1} + k * (u{n} - v{n-1})`
/// and `y{n} = y{n-1} + k * (v{n} - y{n-1})`, where `u`, `v` and `y` are kept in
/// `state[2]`, `state[1]` and `state[0]`.
#[derive(Clone, Copy, Debug, PartialEq)]
pub struct Pt3Filter<T, R> {
    state: [T; 3],
    k: R,
}

impl<T, R> View for Pt3Filter<T, R> {
    /// The filter's memory and its gain.
    type V = ([T; 3], R);

    closed spec fn view(&self) -> ([T; 3], R) {
        (self.state, self.k)
    }
}

/// Default is k = 1, which is passthrough.
impl<T: Zero, R: One> Default for Pt3Filter<T, R> {
    fn default() -> (f: Self)
        ensures
            f@.0[0] == T::spec_zero(),
            f@.0[1] == T::spec_zero(),
            f@.0[2] == T::spec_zero(),
            f@.1 == R::spec_one(),
    {
        Self::new()
    }
}

impl<T: Copy, R: Copy> Pt3Filter<T, R> {
    /// A filter starting at a specific memory with a specific k.
    pub fn with_state_and_k(state: [T; 3], k: R) -> (f: Self)
        ensures
            f@ == (state, k),
    {
        Pt3Filter { state, k }
    }

    /// A filter starting at zero with a custom k.
    pub fn with_k(k: R) -> (f: Self)
        where T: Zero,
        ensures
            f@.0[0] == T::spec_zero(),
            f@.0[1] == T::spec_zero(),
            f@.0[2] == T::spec_zero(),
            f@.1 == k,
    {
        Pt3Filter { state: [T::zero(), T::zero(), T::zero()], k }
    }

    /// A passthrough filter starting at zero.
    pub fn new() -> (f: Self)
        where T: Zero, R: One,
        ensures
            f@.0[0] == T::spec_zero(),
            f@.0[1] == T::spec_zero(),
            f@.0[2] == T::spec_zero(),
            f@.1 == R::spec_one(),
    {
        Self::with_k(R::one())
    }
}

impl<T: Scale<R>, R: Copy> SignalFilter<T, R> for Pt3Filter<T, R> {
    open spec fn reset_ok(&self, value: T) -> bool {
        true
    }

    open spec fn update_ok(&self, input: T) -> bool {
        let u = pt_step(input, self@.0[2], self@.1);
        let v = pt_step(u, self@.0[1], self@.1);
        &&& pt_step_ok(input, self@.0[2], self@.1)
        &&& pt_step_ok(u, self@.0[1], self@.1)
        &&& pt_step_ok(v, self@.0[0], self@.1)
    }

    closed spec fn after_update(&self, input: T) -> Self {
        let u = pt_step(input, self.state[2], self.k);
        let v = pt_step(u, self.state[1], self.k);
        Pt3Filter { state: [pt_step(v, self.state[0], self.k), v, u], k: self.k }
    }

    open spec fn output(&self, input: T) -> T {
        let u = pt_step(input, self@.0[2], self@.1);
        let v = pt_step(u, self@.0[1], self@.1);
        pt_step(v, self@.0[0], self@.1)
    }

    fn reset(&mut self)
        ensures
            final(self)@.0[0] == T::spec_zero(),
            final(self)@.0[1] == T::spec_zero(),
            final(self)@.0[2] == T::spec_zero(),
            final(self)@.1 == old(self)@.1,
    {
        self.state = [T::zero(), T::zero(), T::zero()];
    }

    /// Reset the historical memory of every stage to a specific value instead
    /// of hard zero.
    fn reset_to_value(&mut self, value: T)
        ensures
            final(self)@.0[0] == value,
            final(self)@.0[1] == value,
            final(self)@.0[2] == value,
            final(self)@.1 == old(self)@.1,
    {
        self.state[2] = value;
        self.state[1] = value;
        self.state[0] = value;
    }

    fn update(&mut self, input: T) -> (out: T)
        ensures
            final(self)@.0[2] == pt_step(input, old(self)@.0[2], old(self)@.1),
            final(self)@.0[1] == pt_step(final(self)@.0[2], old(self)@.0[1], old(self)@.1),
            final(self)@.0[0] == pt_step(final(self)@.0[1], old(self)@.0[0], old(self)@.1),
            final(self)@.1 == old(self)@.1,
            out == final(self)@.0[0],
    {
        self.state[2] = input.minus(self.state[2]).mul_add(self.k, self.state[2]);
        self.state[1] = self.state[2].minus(self.state[1]).mul_add(self.k, self.state[1]);
        self.state[0] = self.state[1].minus(self.state[0]).mul_add(self.k, self.state[0]);
        proof {
            broadcast use vstd::array::group_array_axioms;
            assert(self.state =~= old(self).after_update(input).state);
        }
        self.state[0]
    }
}

impl<T: Scale<R>, R: Copy> Pt3Filter<T, R> {
    /// What `update(input)` (or `input.filter_using`) leaves: each stage
    /// stepped towards the one before it, and the same gain.
    pub proof fn lemma_after_update(self, input: T)
        ensures
            self.after_update(input)@.0[2] == pt_step(input, self@.0[2], self@.1),
            self.after_update(input)@.0[1] == pt_step(
                self.after_update(input)@.0[2],
                self@.0[1],
                self@.1,
            ),
            self.after_update(input)@.0[0] == pt_step(
                self.after_update(input)@.0[1],
                self@.0[0],
                self@.1,
            ),
            self.after_update(input)@.1 == self@.1,
    {
    }

    /// With gain one the filter passes its input through: in exact
    /// arithmetic `update(input)` returns `input` and leaves every stage
    /// holding it.
    pub proof fn lemma_gain_one_passes_input(self, input: T)
        where R: Scalar,
        requires
            exact_arithmetic::<T, R>(),
            self@.1 == R::spec_one(),
        ensures
            self.output(input) == input,
            self.after_update(input)@.0[0] == input,
            self.after_update(input)@.0[1] == input,
            self.after_update(input)@.0[2] == input,
    {
        lemma_pt_step_exact_extremes::<T, R>(input, self@.0[2]);
        lemma_pt_step_exact_extremes::<T, R>(input, self@.0[1]);
        lemma_pt_step_exact_extremes::<T, R>(input, self@.0[0]);
    }
}

impl<T: Copy, R: Scalar> Pt3Filter<T, R> {
    pub fn set_to_passthrough(&mut self)
        ensures
            final(self)@ == (old(self)@.0, R::spec_one()),
    {
        self.k = R::one();
    }

    pub fn set_k(&mut self, k: R)
        ensures
            final(self)@ == (old(self)@.0, k),
    {
        self.k = k;
    }

    /// Sets the gain, clamped to the unit interval.
    pub fn set_k_safe(&mut self, k: R)
        ensures
            final(self)@ == (old(self)@.0, clamp_gain(k)),
    {
        self.k = clamped_gain(k);
    }

    pub fn k(self) -> (k: R)
        ensures
            k == self@.1,
    {
        self.k
    }

    pub fn state(self) -> (s: [T; 3])
        ensures
            s == self@.0,
    {
        self.state
    }
}

impl<T: Copy, R: Scalar + MathConstants> Pt3Filter<T, R> {
    pub fn set_cutoff_frequency(&mut self, cutoff_frequency_hz: R, delta_t: R)
        requires
            R::scale_ok(cutoff_frequency_hz, R::spec_pt3_cutoff_correction()),
            gain_from_frequency_ok(
                R::spec_scaled(cutoff_frequency_hz, R::spec_pt3_cutoff_correction()),
                delta_t,
            ),
        ensures
            final(self)@ == (old(self)@.0, spec_gain_from_frequency(
                R::spec_scaled(cutoff_frequency_hz, R::spec_pt3_cutoff_correction()),
                delta_t,
            )),
    {
        self.k = Self::gain_from_frequency(cutoff_frequency_hz, delta_t);
    }

    /// The gain of the cascade whose time constant is `delay`: that of a
    /// first-order filter with the delay scaled by the PT3 cutoff correction.
    pub fn gain_from_delay(delay: R, delta_t: R) -> (k: R)
        requires
            R::scale_ok(delay, R::spec_pt3_cutoff_correction()),
            gain_from_delay_ok(R::spec_scaled(delay, R::spec_pt3_cutoff_correction()), delta_t),
        ensures
            k == spec_gain_from_delay(R::spec_scaled(delay, R::spec_pt3_cutoff_correction()), delta_t),
    {
        Pt1Filter::<T, R>::gain_from_delay(delay.scaled(R::pt3_cutoff_correction()), delta_t)
    }

    /// The gain of the cascade for a cutoff frequency: that of a first-order
    /// filter with the frequency shifted to satisfy the -3dB cutoff condition.
    pub fn gain_from_frequency(cutoff_frequency_hz: R, delta_t: R) -> (k: R)
        requires
            R::scale_ok(cutoff_frequency_hz, R::spec_pt3_cutoff_correction()),
            gain_from_frequency_ok(
                R::spec_scaled(cutoff_frequency_hz, R::spec_pt3_cutoff_correction()),
                delta_t,
            ),
        ensures
            k == spec_gain_from_frequency(
                R::spec_scaled(cutoff_frequency_hz, R::spec_pt3_cutoff_correction()),
                delta_t,
            ),
    {
        Pt1Filter::<T, R>::gain_from_frequency(
            cutoff_frequency_hz.scaled(R::pt3_cutoff_correction()),
            delta_t,
        )
    }
}


/// A gain of one passes the input straight through, and a gain of zero
/// holds the memory: exactly so for integers.
pub proof fn lemma_pt_step_extremes(input: i32, state: i32)
    ensures
        pt_step_ok(input, state, 1i32) ==> pt_step(input, state, 1i32) == input,
        pt_step_ok(input, state, 0i32) ==> pt_step(input, state, 0i32) == state,
{
}

/// Every cascade of first-order stages with gain one passes its input
/// through: the second- and third-order filters with gain one output their input.
pub proof fn lemma_pt_cascade_passthrough(input: i32, s0: i32, s1: i32, s2: i32)
    requires
        pt_step_ok(input, s2, 1i32),
        pt_step_ok(input, s1, 1i32),
        pt_step_ok(input, s0, 1i32),
    ensures
        pt_step(pt_step(input, s1, 1i32), s0, 1i32) == input,
        pt_step(pt_step(pt_step(input, s2, 1i32), s1, 1i32), s0, 1i32) == input,
{
}

/// Under a linear order in which zero is at most one, a gain set through
/// `set_k_safe` lies in the unit interval, and a gain already there is kept.
pub proof fn lemma_clamp_gain_in_unit_interval<R: Scalar>(k: R)
    requires
        is_linear_order::<R>(),
        R::spec_at_most(R::spec_zero(), R::spec_one()),
    ensures
        R::spec_at_most(R::spec_zero(), clamp_gain(k)),
        R::spec_at_most(clamp_gain(k), R::spec_one()),
        R::spec_at_most(R::spec_zero(), k) && R::spec_at_most(k, R::spec_one()) ==> clamp_gain(k) == k,
{
    let z = R::spec_zero();
    let o = R::spec_one();
    assert(R::spec_at_most(z, z));
    assert(R::spec_at_most(o, o));
    if !R::spec_less_than(k, z) && !R::spec_less_than(o, k) {
        assert(R::spec_at_most(z, k));
        assert(R::spec_at_most(k, o));
    }
    if R::spec_at_most(z, k) && R::spec_at_most(k, o) {
        assert(!R::spec_less_than(k, z));
        assert(!R::spec_less_than(o, k));
    }
}

/// A delay that is not positive gives the passthrough gain one.
pub proof fn lemma_no_delay_no_filtering<R: Scalar>(delay: R, delta_t: R)
    requires
        R::spec_at_most(delay, R::spec_zero()),
    ensures
        spec_gain_from_delay(delay, delta_t) == R::spec_one(),
{
}

/// In exact arithmetic a first-order stage with gain `new_k` and the
/// back-calculated memory turns `input` into `output`.
pub proof fn lemma_back_calculated_state_reproduces<T: Scale<R>, R: Scalar>(output: T, input: T, new_k: R)
    requires
        exact_arithmetic::<T, R>(),
        R::spec_minus(R::spec_one(), new_k) != R::spec_zero(),
    ensures
        pt_step(input, back_calculated_state(output, input, new_k), new_k) == output,
{
    let y = output;
    let x = input;
    let m = R::spec_minus(R::spec_one(), new_k);
    let xk = T::spec_scaled(x, new_k);
    let s = back_calculated_state(output, input, new_k);
    let sk = T::spec_scaled(s, new_k);
    lemma_exact_parts::<T, R>();
    // s * (1 - k') == y - x k'
    lemma_scaled_quotient(T::spec_minus(y, xk), m);
    lemma_scaled_by_complement(s, new_k);
    // (x - s) k' + s == (x k' - s k') + s == x k' + (s - s k') == x k' + (y - x k') == y
    lemma_mul_add_exact(T::spec_minus(x, s), new_k, s);
    lemma_scaled_difference(x, s, new_k);
    lemma_difference_regroup(xk, sk, s);
    lemma_add_difference(xk, y);
}

/// In exact arithmetic a seamless change of a first-order filter's gain
/// keeps its output: fed the last input again, the filter with the new
/// memory and gain gives the output it gave with the old ones.
pub proof fn lemma_seamless_keeps_output<T: Scale<R>, R: Scalar>(state: T, k: R, new_k: R, last_input: T)
    requires
        exact_arithmetic::<T, R>(),
        R::spec_less_than(R::spec_zero(), new_k),
        R::spec_less_than(new_k, R::spec_one()),
        R::spec_minus(R::spec_one(), new_k) != R::spec_zero(),
    ensures
        pt_step(last_input, pt1_seamless_state(state, k, new_k, last_input), new_k) == pt_step(
            last_input,
            state,
            k,
        ),
{
    lemma_back_calculated_state_reproduces(pt_step(last_input, state, k), last_input, new_k);
}

/// In exact arithmetic, after a seamless gain change of a second-order
/// filter, its first stage fed the last input gives the first stage's old
/// output, and its second stage fed the new first-stage memory gives
/// `(state[1] - state[0]) * k + state[0]`, the second stage's step from the
/// old memories.
pub proof fn lemma_pt2_seamless_stages<T: Scale<R>, R: Scalar>(state: [T; 2], k: R, new_k: R, last_input: T)
    requires
        exact_arithmetic::<T, R>(),
        R::spec_minus(R::spec_one(), new_k) != R::spec_zero(),
    ensures
        ({
            let w = back_calculated_state(pt_step(last_input, state[1], k), last_input, new_k);
            let v = back_calculated_state(pt_step(state[1], state[0], k), w, new_k);
            &&& pt_step(last_input, w, new_k) == pt_step(last_input, state[1], k)
            &&& pt_step(w, v, new_k) == pt_step(state[1], state[0], k)
        }),
{
    let w = back_calculated_state(pt_step(last_input, state[1], k), last_input, new_k);
    lemma_back_calculated_state_reproduces(pt_step(last_input, state[1], k), last_input, new_k);
    lemma_back_calculated_state_reproduces(pt_step(state[1], state[0], k), w, new_k);
}

/// In exact arithmetic a step with gain one gives the input and a step with
/// gain zero keeps the state.
pub proof fn lemma_pt_step_exact_extremes<T: Scale<R>, R: Scalar>(input: T, state: T)
    requires
        exact_arithmetic::<T, R>(),
    ensures
        pt_step(input, state, R::spec_one()) == input,
        pt_step(input, state, R::spec_zero()) == state,
{
    lemma_exact_parts::<T, R>();
    let d = T::spec_minus(input, state);
    lemma_mul_add_exact(d, R::spec_one(), state);
    lemma_mul_add_exact(d, R::spec_zero(), state);
    lemma_scaled_twice(d, R::spec_one(), R::spec_one());
    lemma_add_difference(state, input);
    assert(T::spec_scaled(d, R::spec_zero()) == T::spec_zero()) by {
        reveal(exact_scaling);
    }
    assert(T::spec_plus(d, state) == T::spec_plus(state, d) && T::spec_plus(T::spec_zero(), state)
        == state) by {
        reveal(exact_additive);
        assert(T::spec_plus(T::spec_zero(), state) == T::spec_plus(state, T::spec_zero()));
    }
}

/// The first-order step `y` splits the way from the state to the input:
/// `y == (input - state) * k + state` and `input == (input - state) * (1 - k) + y`.
proof fn lemma_pt_step_split<T: Scale<R>, R: Scalar>(input: T, state: T, k: R)
    requires
        exact_arithmetic::<T, R>(),
    ensures
        pt_step(input, state, k) == T::spec_plus(T::spec_scaled(T::spec_minus(input, state), k), state),
        input == T::spec_plus(
            T::spec_scaled(T::spec_minus(input, state), R::spec_minus(R::spec_one(), k)),
            pt_step(input, state, k),
        ),
{
    lemma_exact_parts::<T, R>();
    let d = T::spec_minus(input, state);
    let dk = T::spec_scaled(d, k);
    let e = T::spec_scaled(d, R::spec_minus(R::spec_one(), k));
    let y = pt_step(input, state, k);
    lemma_mul_add_exact(d, k, state);
    lemma_scaled_by_complement(d, k);
    lemma_sum_regroup(dk, state, e);
    lemma_add_difference(dk, d);
    lemma_add_difference(state, input);
    assert(T::spec_plus(e, y) == T::spec_plus(y, e)) by {
        reveal(exact_additive);
    }
}

/// The sign of `input - state` scaled by a non-negative gain follows the
/// order of the state and the input.
proof fn lemma_scaled_difference_sign<T: Scale<R> + Ordered, R: Scalar>(input: T, state: T, k: R)
    requires
        exact_arithmetic::<T, R>(),
        exact_order::<T>(),
        exact_sign_scaling::<T, R>(),
        R::spec_at_most(R::spec_zero(), k),
    ensures
        T::spec_at_most(state, input) ==> T::spec_at_most(
            T::spec_zero(),
            T::spec_scaled(T::spec_minus(input, state), k),
        ),
        T::spec_at_most(input, state) ==> T::spec_at_most(
            T::spec_scaled(T::spec_minus(input, state), k),
            T::spec_zero(),
        ),
{
    lemma_exact_parts::<T, R>();
    let d = T::spec_minus(input, state);
    let dk = T::spec_scaled(d, k);
    if T::spec_at_most(state, input) {
        lemma_at_most_iff_difference(state, input);
        lemma_scaled_keeps_sign(d, k);
    }
    if T::spec_at_most(input, state) {
        let ns = T::spec_negated(state);
        lemma_at_most_translate(input, state, ns);
        assert(T::spec_plus(input, ns) == d && T::spec_plus(state, ns) == T::spec_zero()) by {
            reveal(exact_additive);
        }
        lemma_at_most_zero_iff_negated(d);
        let nd = T::spec_negated(d);
        lemma_scaled_keeps_sign(nd, k);
        assert(T::spec_scaled(nd, k) == T::spec_negated(dk)) by {
            reveal(exact_scaling);
        }
        lemma_at_most_zero_iff_negated(dk);
    }
}

/// The first-order step lies between the state and the input: for a gain
/// `0 <= k <= 1`, `state + k * (input - state)` is at least the smaller and
/// at most the larger of the two, in exact arithmetic with an order that
/// addition and scaling keep.
pub proof fn lemma_pt_step_between<T: Scale<R> + Ordered, R: Scalar>(input: T, state: T, k: R)
    requires
        exact_arithmetic::<T, R>(),
        exact_order::<T>(),
        exact_order::<R>(),
        exact_sign_scaling::<T, R>(),
        R::spec_at_most(R::spec_zero(), k),
        R::spec_at_most(k, R::spec_one()),
    ensures
        T::spec_at_most(state, input) ==> T::spec_at_most(state, pt_step(input, state, k)) && T::spec_at_most(
            pt_step(input, state, k),
            input,
        ),
        T::spec_at_most(input, state) ==> T::spec_at_most(input, pt_step(input, state, k)) && T::spec_at_most(
            pt_step(input, state, k),
            state,
        ),
{
    lemma_exact_parts::<T, R>();
    let ck = R::spec_minus(R::spec_one(), k);
    let d = T::spec_minus(input, state);
    let y = pt_step(input, state, k);
    lemma_pt_step_split(input, state, k);
    lemma_at_most_iff_difference::<R>(k, R::spec_one());
    lemma_scaled_difference_sign(input, state, k);
    lemma_scaled_difference_sign(input, state, ck);
    lemma_sum_with_signed(T::spec_scaled(d, k), state);
    lemma_sum_with_signed(T::spec_scaled(d, ck), y);
}

/// The gain for a non-negative `omega` lies in `[0, 1)`: at least zero and
/// less than one, in exact arithmetic with an order that addition and
/// scaling keep and in which `0 < 1`.
pub proof fn lemma_gain_from_omega_in_unit_range<R: Scalar>(omega: R)
    requires
        exact_arithmetic::<R, R>(),
        exact_order::<R>(),
        exact_sign_scaling::<R, R>(),
        R::spec_less_than(R::spec_zero(), R::spec_one()),
        R::spec_at_most(R::spec_zero(), omega),
    ensures
        R::spec_at_most(R::spec_zero(), gain_from_omega(omega)),
        R::spec_less_than(gain_from_omega(omega), R::spec_one()),
{
    lemma_exact_parts::<R, R>();
    lemma_exact_order_is_linear::<R>();
    let zero = R::spec_zero();
    let one = R::spec_one();
    let p = R::spec_plus(omega, one);
    let k = gain_from_omega(omega);
    // 1 <= omega + 1, so omega + 1 is positive
    lemma_sum_with_signed(omega, one);
    assert(R::spec_plus(omega, one) == R::spec_plus(one, omega)) by {
        reveal(exact_additive);
    }
    assert(R::spec_at_most(zero, p));
    assert(p != zero);
    // k * p == omega
    lemma_scaled_quotient::<R, R>(omega, p);
    lemma_gain_product_commutes(k, p);
    if R::spec_less_than(k, zero) {
        // then omega == k * p <= 0, so omega == 0 and k == k * 1 == 0
        lemma_at_most_zero_iff_negated(k);
        lemma_scaled_keeps_sign(R::spec_negated(k), p);
        lemma_scaled_negated::<R, R>(k, p);
        lemma_at_most_zero_iff_negated(omega);
        assert(omega == zero);
        assert(p == one) by {
            reveal(exact_additive);
            assert(R::spec_plus(zero, one) == R::spec_plus(one, zero));
        }
        lemma_scaled_twice::<R, R>(k, one, one);
        assert(false);
    }
    if R::spec_at_most(one, k) {
        // then (1 - k) * p == p - omega == 1 would be at most zero
        let ck = R::spec_minus(one, k);
        lemma_scaled_by_complement::<R, R>(p, k);
        lemma_gain_product_commutes(ck, p);
        lemma_add_then_subtract(one, omega);
        assert(R::spec_plus(one, omega) == p) by {
            reveal(exact_additive);
        }
        assert(R::spec_scaled(ck, p) == one);
        lemma_at_most_translate(one, k, R::spec_negated(k));
        assert(R::spec_plus(one, R::spec_negated(k)) == ck && R::spec_plus(k, R::spec_negated(k)) == zero)
            by {
            reveal(exact_additive);
        }
        assert(R::spec_at_most(ck, zero));
        lemma_at_most_zero_iff_negated(ck);
        lemma_scaled_keeps_sign(R::spec_negated(ck), p);
        lemma_scaled_negated::<R, R>(ck, p);
        lemma_at_most_zero_iff_negated(one);
        assert(false);
    }
}

/// `(1 - k) * (omega + 1) == 1` for the gain `k` of a non-negative `omega`.
proof fn lemma_gain_complement<R: Scalar>(omega: R)
    requires
        exact_arithmetic::<R, R>(),
        exact_order::<R>(),
        R::spec_less_than(R::spec_zero(), R::spec_one()),
        R::spec_at_most(R::spec_zero(), omega),
    ensures
        R::spec_plus(omega, R::spec_one()) != R::spec_zero(),
        R::spec_scaled(
            R::spec_minus(R::spec_one(), gain_from_omega(omega)),
            R::spec_plus(omega, R::spec_one()),
        ) == R::spec_one(),
{
    lemma_exact_parts::<R, R>();
    lemma_exact_order_is_linear::<R>();
    let one = R::spec_one();
    let p = R::spec_plus(omega, one);
    let k = gain_from_omega(omega);
    lemma_sum_with_signed(omega, one);
    assert(R::spec_plus(omega, one) == R::spec_plus(one, omega)) by {
        reveal(exact_additive);
    }
    assert(p != R::spec_zero());
    lemma_scaled_quotient::<R, R>(omega, p);
    lemma_gain_product_commutes(k, p);
    lemma_scaled_by_complement::<R, R>(p, k);
    lemma_gain_product_commutes(R::spec_minus(one, k), p);
    lemma_add_then_subtract(one, omega);
}

/// The gain grows with `omega`: for `0 <= omega1 <= omega2` the gain of
/// `omega1` is at most that of `omega2`, in exact arithmetic with an order
/// that addition and scaling keep and in which `0 < 1`.
pub proof fn lemma_gain_from_omega_monotonic<R: Scalar>(omega1: R, omega2: R)
    requires
        exact_arithmetic::<R, R>(),
        exact_order::<R>(),
        exact_sign_scaling::<R, R>(),
        R::spec_less_than(R::spec_zero(), R::spec_one()),
        R::spec_at_most(R::spec_zero(), omega1),
        R::spec_at_most(omega1, omega2),
    ensures
        R::spec_at_most(gain_from_omega(omega1), gain_from_omega(omega2)),
{
    lemma_exact_parts::<R, R>();
    lemma_exact_order_is_linear::<R>();
    let zero = R::spec_zero();
    let one = R::spec_one();
    assert(R::spec_at_most(zero, omega2));
    let k1 = gain_from_omega(omega1);
    let k2 = gain_from_omega(omega2);
    if !R::spec_at_most(k1, k2) {
        let p1 = R::spec_plus(omega1, one);
        let p2 = R::spec_plus(omega2, one);
        let u1 = R::spec_minus(one, k1);
        let u2 = R::spec_minus(one, k2);
        lemma_gain_complement(omega1);
        lemma_gain_complement(omega2);
        lemma_gain_from_omega_in_unit_range(omega1);
        lemma_gain_from_omega_in_unit_range(omega2);
        // 0 <= u1, 0 <= u2 - u1 and 0 <= p2 - p1
        assert(R::spec_at_most(k1, one));
        lemma_at_most_iff_difference::<R>(k1, one);
        assert(R::spec_at_most(k2, k1));
        lemma_at_most_iff_difference::<R>(k2, k1);
        lemma_difference_of_complements(one, k1, k2);
        lemma_at_most_iff_difference::<R>(omega1, omega2);
        lemma_difference_of_sums(omega2, omega1, one);
        let du = R::spec_minus(u2, u1);
        let dp = R::spec_minus(p2, p1);
        // 0 <= 1 <= omega2 + 1
        lemma_sum_with_signed(omega2, one);
        assert(R::spec_plus(omega2, one) == R::spec_plus(one, omega2)) by {
            reveal(exact_additive);
        }
        assert(R::spec_at_most(zero, p2));
        // (u2 - u1) * p2 == 1 - m and u1 * (p2 - p1) == m - 1, both at least zero
        lemma_scaled_keeps_sign(du, p2);
        lemma_scaled_keeps_sign(u1, dp);
        lemma_scaled_difference::<R, R>(u2, u1, p2);
        lemma_scaled_difference::<R, R>(p2, p1, u1);
        lemma_gain_product_commutes(u1, dp);
        lemma_gain_product_commutes(p2, u1);
        lemma_gain_product_commutes(p1, u1);
        let m = R::spec_scaled(u1, p2);
        lemma_at_most_iff_difference::<R>(m, one);
        lemma_at_most_iff_difference::<R>(one, m);
        assert(m == one);
        // so (u2 - u1) * p2 == 0, u2 - u1 == 0 and k1 == k2
        lemma_difference_zero(one, one);
        lemma_no_zero_divisors(du, p2);
        lemma_difference_zero(k1, k2);
        assert(R::spec_at_most(k1, k1));
        assert(false);
    }
}

/// For a non-negative frequency and sample interval (and `0 <= PI`), the
/// gain lies in `[0, 1)` and grows with the frequency, in exact arithmetic
/// with an order that addition and scaling keep and in which `0 < 1`.
pub proof fn lemma_gain_from_frequency_range_and_growth<R: Scalar + MathConstants>(
    frequency1: R,
    frequency2: R,
    delta_t: R,
)
    requires
        exact_arithmetic::<R, R>(),
        exact_order::<R>(),
        exact_sign_scaling::<R, R>(),
        R::spec_less_than(R::spec_zero(), R::spec_one()),
        R::spec_at_most(R::spec_zero(), R::spec_pi()),
        R::spec_at_most(R::spec_zero(), delta_t),
        R::spec_at_most(R::spec_zero(), frequency1),
        R::spec_at_most(frequency1, frequency2),
    ensures
        R::spec_at_most(R::spec_zero(), spec_gain_from_frequency(frequency1, delta_t)),
        R::spec_less_than(spec_gain_from_frequency(frequency1, delta_t), R::spec_one()),
        R::spec_at_most(
            spec_gain_from_frequency(frequency1, delta_t),
            spec_gain_from_frequency(frequency2, delta_t),
        ),
{
    lemma_exact_parts::<R, R>();
    lemma_exact_order_is_linear::<R>();
    let zero = R::spec_zero();
    let one = R::spec_one();
    let two = spec_two::<R>();
    let two_pi = R::spec_scaled(two, R::spec_pi());
    let w1 = frequency_omega(frequency1, delta_t);
    let w2 = frequency_omega(frequency2, delta_t);
    // 0 <= 2 and 0 <= 2 * PI
    lemma_sum_with_signed(one, one);
    assert(R::spec_at_most(zero, two));
    lemma_scaled_keeps_sign(two, R::spec_pi());
    // 0 <= omega1
    lemma_scaled_keeps_sign(two_pi, frequency1);
    lemma_scaled_keeps_sign(R::spec_scaled(two_pi, frequency1), delta_t);
    // omega2 - omega1 == 2 * PI * (frequency2 - frequency1) * delta_t >= 0
    let df = R::spec_minus(frequency2, frequency1);
    lemma_at_most_iff_difference::<R>(frequency1, frequency2);
    lemma_gain_product_commutes(two_pi, frequency1);
    lemma_gain_product_commutes(two_pi, frequency2);
    lemma_gain_product_commutes(two_pi, df);
    lemma_scaled_difference::<R, R>(frequency2, frequency1, two_pi);
    let d1 = R::spec_scaled(two_pi, frequency1);
    let d2 = R::spec_scaled(two_pi, frequency2);
    lemma_scaled_difference::<R, R>(d2, d1, delta_t);
    lemma_scaled_keeps_sign(df, two_pi);
    lemma_scaled_keeps_sign(R::spec_scaled(two_pi, df), delta_t);
    lemma_at_most_iff_difference::<R>(w1, w2);
    lemma_gain_from_omega_in_unit_range(w1);
    lemma_gain_from_omega_monotonic(w1, w2);
}

/// A first-order stage at rest stays at rest: fed the value it holds, it
/// returns that value, whatever its gain, in exact arithmetic.  So after
/// `reset_to_value(value)` a filter fed `value` outputs `value` and keeps
/// every stage at `value`.
pub proof fn lemma_pt_step_at_rest<T: Scale<R>, R: Scalar>(value: T, k: R)
    requires
        exact_arithmetic::<T, R>(),
    ensures
        pt_step(value, value, k) == value,
{
    lemma_exact_parts::<T, R>();
    lemma_mul_add_exact(T::spec_minus(value, value), k, value);
    lemma_scaled_difference(value, value, k);
    lemma_difference_zero(value, value);
    lemma_difference_zero(T::spec_scaled(value, k), value);
    lemma_minus_and_assoc(value, T::spec_zero(), T::spec_zero());
}

/// The gain of a non-negative `omega` is zero exactly when `omega` is zero,
/// in exact arithmetic with an order that addition keeps and `0 < 1`.
pub proof fn lemma_gain_from_omega_zero<R: Scalar>(omega: R)
    requires
        exact_arithmetic::<R, R>(),
        exact_order::<R>(),
        R::spec_less_than(R::spec_zero(), R::spec_one()),
        R::spec_at_most(R::spec_zero(), omega),
    ensures
        (gain_from_omega(omega) == R::spec_zero()) == (omega == R::spec_zero()),
{
    lemma_exact_parts::<R, R>();
    let zero = R::spec_zero();
    let one = R::spec_one();
    let p = R::spec_plus(omega, one);
    let k = gain_from_omega(omega);
    lemma_gain_complement(omega);
    lemma_scaled_quotient::<R, R>(omega, p);
    lemma_scaled_by_zero::<R, R>(p);
    lemma_gain_product_commutes(zero, p);
    if omega == zero {
        lemma_minus_and_assoc(one, zero, zero);
        lemma_minus_and_assoc(zero, one, zero);
        lemma_scaled_twice::<R, R>(k, one, one);
    }
}

/// Where `a <= b` and `0 <= c`, `c * a <= c * b`.
proof fn lemma_scaled_keeps_order<R: Scalar>(c: R, a: R, b: R)
    requires
        exact_arithmetic::<R, R>(),
        exact_order::<R>(),
        exact_sign_scaling::<R, R>(),
        R::spec_at_most(R::spec_zero(), c),
        R::spec_at_most(a, b),
    ensures
        R::spec_at_most(R::spec_scaled(c, a), R::spec_scaled(c, b)),
{
    lemma_exact_parts::<R, R>();
    let d = R::spec_minus(b, a);
    lemma_at_most_iff_difference::<R>(a, b);
    lemma_scaled_keeps_sign(d, c);
    lemma_scaled_difference::<R, R>(b, a, c);
    lemma_gain_product_commutes(d, c);
    lemma_gain_product_commutes(b, c);
    lemma_gain_product_commutes(a, c);
    lemma_at_most_iff_difference::<R>(R::spec_scaled(c, a), R::spec_scaled(c, b));
}

/// For a non-negative cutoff frequency (and `0 <= PI`), the gain grows with
/// the sample interval and is zero exactly when `omega` is, that is for a
/// zero frequency or interval, in exact arithmetic with an order that
/// addition and scaling keep and `0 < 1`.
pub proof fn lemma_gain_from_frequency_zero_and_growth_in_delta_t<R: Scalar + MathConstants>(
    frequency: R,
    delta_t1: R,
    delta_t2: R,
)
    requires
        exact_arithmetic::<R, R>(),
        exact_order::<R>(),
        exact_sign_scaling::<R, R>(),
        R::spec_less_than(R::spec_zero(), R::spec_one()),
        R::spec_at_most(R::spec_zero(), R::spec_pi()),
        R::spec_at_most(R::spec_zero(), frequency),
        R::spec_at_most(R::spec_zero(), delta_t1),
        R::spec_at_most(delta_t1, delta_t2),
    ensures
        R::spec_at_most(
            spec_gain_from_frequency(frequency, delta_t1),
            spec_gain_from_frequency(frequency, delta_t2),
        ),
        (spec_gain_from_frequency(frequency, delta_t1) == R::spec_zero()) == (frequency_omega(
            frequency,
            delta_t1,
        ) == R::spec_zero()),
{
    lemma_exact_parts::<R, R>();
    lemma_exact_order_is_linear::<R>();
    let zero = R::spec_zero();
    let one = R::spec_one();
    let two = spec_two::<R>();
    let two_pi = R::spec_scaled(two, R::spec_pi());
    let c = R::spec_scaled(two_pi, frequency);
    lemma_sum_with_signed(one, one);
    lemma_scaled_keeps_sign(two, R::spec_pi());
    lemma_scaled_keeps_sign(two_pi, frequency);
    lemma_scaled_keeps_sign(c, delta_t1);
    lemma_scaled_keeps_order(c, delta_t1, delta_t2);
    let w1 = frequency_omega(frequency, delta_t1);
    let w2 = frequency_omega(frequency, delta_t2);
    lemma_gain_from_omega_monotonic(w1, w2);
    lemma_gain_from_omega_zero(w1);
}

/// With cutoff corrections ordered as the true constants are, for the same
/// non-negative cutoff the PT1 gain is at most the PT2 gain, which is at
/// most the PT3 gain: the higher-order cascades shift their stages' cutoff
/// up, in exact arithmetic with an order that addition and scaling keep
/// and `0 < 1`.
pub proof fn lemma_corrected_gains_ordered<R: Scalar + MathConstants>(frequency: R, delta_t: R)
    requires
        exact_arithmetic::<R, R>(),
        exact_order::<R>(),
        exact_sign_scaling::<R, R>(),
        ordered_cutoff_corrections::<R>(),
        R::spec_less_than(R::spec_zero(), R::spec_one()),
        R::spec_at_most(R::spec_zero(), R::spec_pi()),
        R::spec_at_most(R::spec_zero(), frequency),
        R::spec_at_most(R::spec_zero(), delta_t),
    ensures
        R::spec_at_most(
            spec_gain_from_frequency(frequency, delta_t),
            spec_gain_from_frequency(R::spec_scaled(frequency, R::spec_pt2_cutoff_correction()), delta_t),
        ),
        R::spec_at_most(
            spec_gain_from_frequency(R::spec_scaled(frequency, R::spec_pt2_cutoff_correction()), delta_t),
            spec_gain_from_frequency(R::spec_scaled(frequency, R::spec_pt3_cutoff_correction()), delta_t),
        ),
{
    lemma_exact_parts::<R, R>();
    lemma_exact_order_is_linear::<R>();
    let one = R::spec_one();
    let c2 = R::spec_pt2_cutoff_correction();
    let c3 = R::spec_pt3_cutoff_correction();
    // f <= f * c2 <= f * c3
    lemma_scaled_keeps_order(frequency, one, c2);
    lemma_scaled_keeps_order(frequency, c2, c3);
    lemma_scaled_twice::<R, R>(frequency, one, one);
    let f2 = R::spec_scaled(frequency, c2);
    let f3 = R::spec_scaled(frequency, c3);
    assert(R::spec_at_most(R::spec_zero(), f2));
    lemma_gain_from_frequency_range_and_growth(frequency, f2, delta_t);
    lemma_gain_from_frequency_range_and_growth(f2, f3, delta_t);
}

/// The gain for a positive time constant `delay` is `delta_t / (delay +
/// delta_t)`: times `delay + delta_t` it gives `delta_t`.  So it is below one
/// for a positive delay, and one half for `delay == delta_t`.  In exact
/// arithmetic with an order that addition keeps and `0 < 1`, for a
/// non-negative `delta_t`.
pub proof fn lemma_gain_from_delay_time_constant<R: Scalar>(delay: R, delta_t: R)
    requires
        exact_arithmetic::<R, R>(),
        exact_order::<R>(),
        R::spec_less_than(R::spec_zero(), R::spec_one()),
        R::spec_less_than(R::spec_zero(), delay),
        R::spec_at_most(R::spec_zero(), delta_t),
    ensures
        R::spec_scaled(spec_gain_from_delay(delay, delta_t), R::spec_plus(delay, delta_t)) == delta_t,
        spec_gain_from_delay(delay, delta_t) != R::spec_one(),
        delay == delta_t ==> R::spec_plus(spec_gain_from_delay(delay, delta_t), spec_gain_from_delay(
            delay,
            delta_t,
        )) == R::spec_one(),
{
    lemma_exact_parts::<R, R>();
    lemma_exact_order_is_linear::<R>();
    let zero = R::spec_zero();
    let one = R::spec_one();
    let sum = R::spec_plus(delay, delta_t);
    assert(!R::spec_at_most(delay, zero));
    assert(delay != zero);
    // 0 < delay <= delay + delta_t, so the sum is not zero
    lemma_sum_with_signed(delta_t, delay);
    lemma_minus_and_assoc(delta_t, delay, zero);
    assert(R::spec_at_most(delay, sum));
    assert(sum != zero);
    let omega = R::spec_divided(delta_t, delay);
    let p = R::spec_plus(omega, one);
    let k = spec_gain_from_delay(delay, delta_t);
    assert(k == gain_from_omega(omega));
    // omega * delay == delta_t, so (omega + 1) * delay == delay + delta_t
    lemma_scaled_quotient::<R, R>(delta_t, delay);
    lemma_scaled_sum::<R, R>(omega, one, delay);
    lemma_gain_product_commutes(one, delay);
    lemma_scaled_twice::<R, R>(delay, one, one);
    lemma_minus_and_assoc(delta_t, delay, zero);
    assert(R::spec_scaled(p, delay) == sum);
    // so omega + 1 is not zero
    if p == zero {
        lemma_scaled_by_zero::<R, R>(delay);
        lemma_gain_product_commutes(zero, delay);
    }
    // k * (omega + 1) == omega, so k * (delay + delta_t) == omega * delay == delta_t
    lemma_scaled_quotient::<R, R>(omega, p);
    lemma_scaled_twice::<R, R>(k, p, delay);
    // k == 1 would give delay + delta_t == delta_t, so delay == 0
    if k == one {
        lemma_gain_product_commutes(one, sum);
        lemma_scaled_twice::<R, R>(sum, one, one);
        lemma_add_then_subtract(delay, delta_t);
        lemma_difference_zero(delta_t, delta_t);
    }
    if delay == delta_t {
        // (k + k) * d == d == 1 * d, so (k + k - 1) * d == 0
        let kk = R::spec_plus(k, k);
        lemma_scaled_by_sum::<R, R>(delay, k, k);
        lemma_gain_product_commutes(delay, k);
        lemma_gain_product_commutes(delay, kk);
        lemma_scaled_sum::<R, R>(delay, delay, k);
        lemma_gain_product_commutes(sum, k);
        lemma_scaled_difference::<R, R>(kk, one, delay);
        lemma_gain_product_commutes(one, delay);
        lemma_difference_zero(delay, delay);
        lemma_no_zero_divisors(R::spec_minus(kk, one), delay);
        lemma_difference_zero(kk, one);
    }
}

} // verus!
