//! Second-order biquad IIR filter, usable as a low-pass or a notch filter.
use vstd::prelude::*;

use crate::filters::SignalFilter;
use crate::numeric::{
    exact_additive, exact_arithmetic, exact_half, exact_trigonometry, lemma_add_then_subtract,
    lemma_half_is_one_over_two, lemma_scaled_by_zero, lemma_cancel_in_sum,
    lemma_cancel_two, lemma_difference_after_sum, lemma_double_minus_sum, lemma_exact_parts,
    lemma_gain_product_commutes, lemma_gains_exact, lemma_minus_and_assoc, lemma_regroup_sum,
    lemma_scaled_by_complement, lemma_scaled_by_sum, lemma_scaled_difference, lemma_scaled_negated,
    lemma_scaled_quotient, lemma_scaled_sum, lemma_scaled_twice, lemma_sum_regroup,
    lemma_zero_minus, Additive, ConstHalf, MathConstants, One, Scalar, Scale, TrigonometricMethods,
    Zero,
};

verus! {

/// The coefficients of the difference equation
/// `y{n} = b0 * x{n} + b1 * x{n-1} + b2 * x{n-2} - a1 * y{n-1} - a2 * y{n-2}`.
#[derive(Clone, Copy, Debug, PartialEq)]
pub struct BiquadFilterCoefficients<R> {
    pub a1: R,
    pub a2: R,
    pub b0: R,
    pub b1: R,
    pub b2: R,
}

impl<R: Zero + One> BiquadFilterCoefficients<R> {
    /// The passthrough coefficients: `b0 = 1`, all others zero.
    pub fn new() -> (c: Self)
        ensures
            c == passthrough_coefficients::<R>(),
    {
        BiquadFilterCoefficients { a1: R::zero(), a2: R::zero(), b0: R::one(), b1: R::zero(), b2: R::zero() }
    }
}

impl<R: Zero + One> Default for BiquadFilterCoefficients<R> {
    fn default() -> (c: Self)
        ensures
            c == passthrough_coefficients::<R>(),
    {
        Self::new()
    }
}

/// `b0 = 1`, all others zero: the output is the input.
pub open spec fn passthrough_coefficients<R: Zero + One>() -> BiquadFilterCoefficients<R> {
    BiquadFilterCoefficients {
        a1: R::spec_zero(),
        a2: R::spec_zero(),
        b0: R::spec_one(),
        b1: R::spec_zero(),
        b2: R::spec_zero(),
    }
}

/// The input and output history of a biquad filter.
#[derive(Clone, Copy, Debug, PartialEq)]
pub struct BiquadFilterState<T> {
    /// The previous input.
    pub x1: T,
    /// The input before the previous one.
    pub x2: T,
    /// The previous output.
    pub y1: T,
    /// The output before the previous one.
    pub y2: T,
}

impl<T: Zero> BiquadFilterState<T> {
    /// All history zero.
    pub fn new() -> (s: Self)
        ensures
            s == zero_state::<T>(),
    {
        BiquadFilterState { x1: T::zero(), x2: T::zero(), y1: T::zero(), y2: T::zero() }
    }
}

impl<T: Zero> Default for BiquadFilterState<T> {
    fn default() -> (s: Self)
        ensures
            s == zero_state::<T>(),
    {
        Self::new()
    }
}

pub open spec fn zero_state<T: Zero>() -> BiquadFilterState<T> {
    BiquadFilterState { x1: T::spec_zero(), x2: T::spec_zero(), y1: T::spec_zero(), y2: T::spec_zero() }
}

/// The history after `input` gave `output`.
pub open spec fn shifted_state<T>(s: BiquadFilterState<T>, input: T, output: T) -> BiquadFilterState<T> {
    BiquadFilterState { x1: input, x2: s.x1, y1: output, y2: s.y1 }
}

/// `b0 * x + b1 * x1 + b2 * x2 - a1 * y1 - a2 * y2`, evaluated from the left.
pub open spec fn biquad_output<T: Scale<R>, R>(
    s: BiquadFilterState<T>,
    c: BiquadFilterCoefficients<R>,
    input: T,
) -> T {
    let p1 = T::spec_plus(T::spec_scaled(input, c.b0), T::spec_scaled(s.x1, c.b1));
    let p2 = T::spec_plus(p1, T::spec_scaled(s.x2, c.b2));
    let p3 = T::spec_minus(p2, T::spec_scaled(s.y1, c.a1));
    T::spec_minus(p3, T::spec_scaled(s.y2, c.a2))
}

pub open spec fn biquad_output_ok<T: Scale<R>, R>(
    s: BiquadFilterState<T>,
    c: BiquadFilterCoefficients<R>,
    input: T,
) -> bool {
    let p1 = T::spec_plus(T::spec_scaled(input, c.b0), T::spec_scaled(s.x1, c.b1));
    let p2 = T::spec_plus(p1, T::spec_scaled(s.x2, c.b2));
    let p3 = T::spec_minus(p2, T::spec_scaled(s.y1, c.a1));
    &&& T::scale_ok(input, c.b0)
    &&& T::scale_ok(s.x1, c.b1)
    &&& T::add_ok(T::spec_scaled(input, c.b0), T::spec_scaled(s.x1, c.b1))
    &&& T::scale_ok(s.x2, c.b2)
    &&& T::add_ok(p1, T::spec_scaled(s.x2, c.b2))
    &&& T::scale_ok(s.y1, c.a1)
    &&& T::sub_ok(p2, T::spec_scaled(s.y1, c.a1))
    &&& T::scale_ok(s.y2, c.a2)
    &&& T::sub_ok(p3, T::spec_scaled(s.y2, c.a2))
}

/// The notch form `(x + x2) * b0 + (x1 - y1) * a1 - y2 * a2`, equal to
/// `biquad_output` in exact arithmetic when `b0 == b2` and `a1 == b1`.
pub open spec fn notch_output<T: Scale<R>, R>(
    s: BiquadFilterState<T>,
    c: BiquadFilterCoefficients<R>,
    input: T,
) -> T {
    let q1 = T::spec_scaled(T::spec_plus(input, s.x2), c.b0);
    let q2 = T::spec_scaled(T::spec_minus(s.x1, s.y1), c.a1);
    T::spec_minus(T::spec_plus(q1, q2), T::spec_scaled(s.y2, c.a2))
}

pub open spec fn notch_output_ok<T: Scale<R>, R>(
    s: BiquadFilterState<T>,
    c: BiquadFilterCoefficients<R>,
    input: T,
) -> bool {
    let q1 = T::spec_scaled(T::spec_plus(input, s.x2), c.b0);
    let q2 = T::spec_scaled(T::spec_minus(s.x1, s.y1), c.a1);
    &&& T::add_ok(input, s.x2)
    &&& T::scale_ok(T::spec_plus(input, s.x2), c.b0)
    &&& T::sub_ok(s.x1, s.y1)
    &&& T::scale_ok(T::spec_minus(s.x1, s.y1), c.a1)
    &&& T::add_ok(q1, q2)
    &&& T::scale_ok(s.y2, c.a2)
    &&& T::sub_ok(T::spec_plus(q1, q2), T::spec_scaled(s.y2, c.a2))
}

/// The gain at zero frequency, `(b0 + b1 + b2) / (1 + a1 + a2)`.
pub open spec fn dc_gain<R: Scalar>(c: BiquadFilterCoefficients<R>) -> R {
    R::spec_divided(
        R::spec_plus(R::spec_plus(c.b0, c.b1), c.b2),
        R::spec_plus(R::spec_plus(R::spec_one(), c.a1), c.a2),
    )
}

pub open spec fn dc_gain_ok<R: Scalar>(c: BiquadFilterCoefficients<R>) -> bool {
    &&& R::add_ok(c.b0, c.b1)
    &&& R::add_ok(R::spec_plus(c.b0, c.b1), c.b2)
    &&& R::add_ok(R::spec_one(), c.a1)
    &&& R::add_ok(R::spec_plus(R::spec_one(), c.a1), c.a2)
    &&& R::div_ok(
        R::spec_plus(R::spec_plus(c.b0, c.b1), c.b2),
        R::spec_plus(R::spec_plus(R::spec_one(), c.a1), c.a2),
    )
}

/// The history of a filter that has long been fed the constant `value`:
/// inputs `value`, outputs `value * dc_gain(c)`.
pub open spec fn dc_state<T: Scale<R>, R: Scalar>(value: T, c: BiquadFilterCoefficients<R>) -> BiquadFilterState<T> {
    let y = T::spec_scaled(value, dc_gain(c));
    BiquadFilterState { x1: value, x2: value, y1: y, y2: y }
}

/// `(output - input) * weight + input`: weight one gives the output, weight
/// zero the input.
pub open spec fn weighted<T: Scale<R>, R>(output: T, input: T, weight: R) -> T {
    T::spec_plus(T::spec_scaled(T::spec_minus(output, input), weight), input)
}

pub open spec fn weighted_ok<T: Scale<R>, R>(output: T, input: T, weight: R) -> bool {
    &&& T::sub_ok(output, input)
    &&& T::scale_ok(T::spec_minus(output, input), weight)
    &&& T::add_ok(T::spec_scaled(T::spec_minus(output, input), weight), input)
}

/// `1 / (2 * q)`
pub open spec fn one_over_two_q<R: Scalar>(q: R) -> R {
    R::spec_divided(R::spec_one(), R::spec_scaled(R::spec_plus(R::spec_one(), R::spec_one()), q))
}

pub open spec fn one_over_two_q_ok<R: Scalar>(q: R) -> bool {
    &&& R::add_ok(R::spec_one(), R::spec_one())
    &&& R::scale_ok(R::spec_plus(R::spec_one(), R::spec_one()), q)
    &&& R::div_ok(R::spec_one(), R::spec_scaled(R::spec_plus(R::spec_one(), R::spec_one()), q))
}

/// `2 * PI * loop_time_seconds`
pub open spec fn two_pi_times<R: Scalar + MathConstants>(loop_time_seconds: R) -> R {
    R::spec_scaled(R::spec_scaled(R::spec_plus(R::spec_one(), R::spec_one()), R::spec_pi()), loop_time_seconds)
}

pub open spec fn two_pi_times_ok<R: Scalar + MathConstants>(loop_time_seconds: R) -> bool {
    &&& R::add_ok(R::spec_one(), R::spec_one())
    &&& R::scale_ok(R::spec_plus(R::spec_one(), R::spec_one()), R::spec_pi())
    &&& R::scale_ok(R::spec_scaled(R::spec_plus(R::spec_one(), R::spec_one()), R::spec_pi()), loop_time_seconds)
}

/// `center * lower / (center * center - lower * lower)`
pub open spec fn q_from_frequencies<R: Scalar>(center: R, lower: R) -> R {
    R::spec_divided(
        R::spec_scaled(center, lower),
        R::spec_minus(R::spec_scaled(center, center), R::spec_scaled(lower, lower)),
    )
}

pub open spec fn q_from_frequencies_ok<R: Scalar>(center: R, lower: R) -> bool {
    &&& R::scale_ok(center, lower)
    &&& R::scale_ok(center, center)
    &&& R::scale_ok(lower, lower)
    &&& R::sub_ok(R::spec_scaled(center, center), R::spec_scaled(lower, lower))
    &&& R::div_ok(
        R::spec_scaled(center, lower),
        R::spec_minus(R::spec_scaled(center, center), R::spec_scaled(lower, lower)),
    )
}

/// `alpha = sin_omega * one_over_2q` and `a0_reciprocal = 1 / (1 + alpha)`.
pub open spec fn alpha_of<R: Scalar>(sin_omega: R, one_over_2q: R) -> R {
    R::spec_scaled(sin_omega, one_over_2q)
}

pub open spec fn a0_reciprocal_of<R: Scalar>(alpha: R) -> R {
    R::spec_divided(R::spec_one(), R::spec_plus(R::spec_one(), alpha))
}

pub open spec fn alpha_ok<R: Scalar>(sin_omega: R, one_over_2q: R) -> bool {
    let alpha = alpha_of(sin_omega, one_over_2q);
    &&& R::scale_ok(sin_omega, one_over_2q)
    &&& R::add_ok(R::spec_one(), alpha)
    &&& R::div_ok(R::spec_one(), R::spec_plus(R::spec_one(), alpha))
    &&& R::sub_ok(R::spec_one(), alpha)
    &&& R::scale_ok(R::spec_minus(R::spec_one(), alpha), a0_reciprocal_of(alpha))
}

/// The low-pass coefficients for the given sine and cosine of the normalised
/// frequency:
/// `b1 = (1 - cos) / a0`, `b0 = b2 = b1 / 2`, `a1 = -2 cos / a0`, `a2 = (1 - alpha) / a0`.
pub open spec fn low_pass_coefficients<R: Scalar>(sin_omega: R, cos_omega: R, one_over_2q: R) -> BiquadFilterCoefficients<R> {
    let one = R::spec_one();
    let two = R::spec_plus(one, one);
    let alpha = alpha_of(sin_omega, one_over_2q);
    let a0r = a0_reciprocal_of(alpha);
    let b1 = R::spec_scaled(R::spec_minus(one, cos_omega), a0r);
    let b0 = R::spec_scaled(b1, R::spec_divided(one, two));
    BiquadFilterCoefficients {
        b1,
        b0,
        b2: b0,
        a1: R::spec_scaled(R::spec_scaled(R::spec_negated(two), cos_omega), a0r),
        a2: R::spec_scaled(R::spec_minus(one, alpha), a0r),
    }
}

pub open spec fn low_pass_coefficients_ok<R: Scalar>(sin_omega: R, cos_omega: R, one_over_2q: R) -> bool {
    let one = R::spec_one();
    let two = R::spec_plus(one, one);
    let alpha = alpha_of(sin_omega, one_over_2q);
    let a0r = a0_reciprocal_of(alpha);
    let b1 = R::spec_scaled(R::spec_minus(one, cos_omega), a0r);
    &&& alpha_ok(sin_omega, one_over_2q)
    &&& R::sub_ok(one, cos_omega)
    &&& R::scale_ok(R::spec_minus(one, cos_omega), a0r)
    &&& R::add_ok(one, one)
    &&& R::div_ok(one, two)
    &&& R::scale_ok(b1, R::spec_divided(one, two))
    &&& R::neg_ok(two)
    &&& R::scale_ok(R::spec_negated(two), cos_omega)
    &&& R::scale_ok(R::spec_scaled(R::spec_negated(two), cos_omega), a0r)
}

/// The notch coefficients for the given sine and cosine of the normalised
/// frequency: `b0 = b2 = 1 / a0`, `a1 = b1 = 0 - 2 cos / a0`, `a2 = (1 - alpha) / a0`.
pub open spec fn notch_coefficients<R: Scalar>(sin_omega: R, cos_omega: R, one_over_2q: R) -> BiquadFilterCoefficients<R> {
    let one = R::spec_one();
    let two = R::spec_plus(one, one);
    let alpha = alpha_of(sin_omega, one_over_2q);
    let a0r = a0_reciprocal_of(alpha);
    let b1 = R::spec_minus(R::spec_zero(), R::spec_scaled(R::spec_scaled(two, cos_omega), a0r));
    BiquadFilterCoefficients { b0: a0r, b2: a0r, b1, a1: b1, a2: R::spec_scaled(R::spec_minus(one, alpha), a0r) }
}

pub open spec fn notch_coefficients_ok<R: Scalar>(sin_omega: R, cos_omega: R, one_over_2q: R) -> bool {
    let one = R::spec_one();
    let two = R::spec_plus(one, one);
    let alpha = alpha_of(sin_omega, one_over_2q);
    let a0r = a0_reciprocal_of(alpha);
    &&& alpha_ok(sin_omega, one_over_2q)
    &&& R::add_ok(one, one)
    &&& R::scale_ok(two, cos_omega)
    &&& R::scale_ok(R::spec_scaled(two, cos_omega), a0r)
    &&& R::sub_ok(R::spec_zero(), R::spec_scaled(R::spec_scaled(two, cos_omega), a0r))
}

/// Second-order biquad IIR filter in Direct Form I:
/// `y{n} = b0 * x{n} + b1 * x{n-1} + b2 * x{n-2} - a1 * y{n-1} - a2 * y{n-2}`.
#[derive(Clone, Copy, Debug, PartialEq)]
pub struct BiquadFilter<T, R> {
    state: BiquadFilterState<T>,
    coeffs: BiquadFilterCoefficients<R>,
    weight: R,
    loop_time_seconds: R,
    // cached value of 2 * PI * loop_time_seconds
    two_pi_loop_time_seconds: R,
    q: R,
    // cached value of 1 / (2 * q)
    one_over_2q: R,
}

impl<T, R> BiquadFilter<T, R> {
    /// The input and output history.
    pub closed spec fn history(&self) -> BiquadFilterState<T> {
        self.state
    }

    pub closed spec fn coefficients(&self) -> BiquadFilterCoefficients<R> {
        self.coeffs
    }

    /// The weight of the filtered value in `update_weighted`.
    pub closed spec fn weight_value(&self) -> R {
        self.weight
    }

    pub closed spec fn loop_time(&self) -> R {
        self.loop_time_seconds
    }

    /// The cached `2 * PI * loop_time_seconds`.
    pub closed spec fn two_pi_loop_time(&self) -> R {
        self.two_pi_loop_time_seconds
    }

    pub closed spec fn q_value(&self) -> R {
        self.q
    }

    /// The cached `1 / (2 * q)`.
    pub closed spec fn one_over_2q(&self) -> R {
        self.one_over_2q
    }
}

/// Everything but the history is the same in `a` and `b`.
pub open spec fn same_settings<T, R>(a: BiquadFilter<T, R>, b: BiquadFilter<T, R>) -> bool {
    &&& a.coefficients() == b.coefficients()
    &&& a.weight_value() == b.weight_value()
    &&& a.loop_time() == b.loop_time()
    &&& a.two_pi_loop_time() == b.two_pi_loop_time()
    &&& a.q_value() == b.q_value()
    &&& a.one_over_2q() == b.one_over_2q()
}

/// Everything but the coefficients and the weight is the same in `a` and `b`.
pub open spec fn same_timing<T, R>(a: BiquadFilter<T, R>, b: BiquadFilter<T, R>) -> bool {
    &&& a.history() == b.history()
    &&& a.loop_time() == b.loop_time()
    &&& a.two_pi_loop_time() == b.two_pi_loop_time()
    &&& a.q_value() == b.q_value()
    &&& a.one_over_2q() == b.one_over_2q()
}

/// The cached `1 / (2 * q)` is that of the filter's `q`.
pub open spec fn q_cache_consistent<T, R: Scalar>(f: BiquadFilter<T, R>) -> bool {
    f.one_over_2q() == one_over_two_q(f.q_value())
}

/// The cached `2 * PI * loop_time_seconds` is that of the filter's loop time.
pub open spec fn loop_time_cache_consistent<T, R: Scalar + MathConstants>(f: BiquadFilter<T, R>) -> bool {
    f.two_pi_loop_time() == two_pi_times(f.loop_time())
}

/// The well-formedness of a filter's caches: both cached values agree with
/// the values they are computed from.
pub open spec fn caches_consistent<T, R: Scalar + MathConstants>(f: BiquadFilter<T, R>) -> bool {
    q_cache_consistent(f) && loop_time_cache_consistent(f)
}

/// A filter as `new`, `default` and `with_coefficients` make it (`q` one,
/// caching one half, loop time zero, caching zero) has consistent caches, in
/// exact arithmetic with an exact half.
pub proof fn lemma_fresh_filter_caches_consistent<T, R: Scalar + MathConstants + ConstHalf>(
    f: BiquadFilter<T, R>,
)
    requires
        exact_arithmetic::<R, R>(),
        exact_half::<R>(),
        f.q_value() == R::spec_one(),
        f.one_over_2q() == R::spec_half(),
        f.loop_time() == R::spec_zero(),
        f.two_pi_loop_time() == R::spec_zero(),
    ensures
        caches_consistent(f),
{
    lemma_half_is_one_over_two::<R>();
    lemma_scaled_by_zero::<R, R>(R::spec_scaled(R::spec_plus(R::spec_one(), R::spec_one()), R::spec_pi()));
}

/// Changing only the history, the coefficients or the weight keeps the
/// caches as consistent as they were.
pub proof fn lemma_timing_keeps_caches<T, R: Scalar + MathConstants>(a: BiquadFilter<T, R>, b: BiquadFilter<T, R>)
    requires
        same_timing(a, b) || same_settings(a, b),
    ensures
        caches_consistent(a) == caches_consistent(b),
{
}

impl<T: Zero, R: Zero + One + ConstHalf> Default for BiquadFilter<T, R> {
    fn default() -> (f: Self)
        ensures
            f.history() == zero_state::<T>(),
            f.coefficients() == passthrough_coefficients::<R>(),
            f.weight_value() == R::spec_one(),
            f.loop_time() == R::spec_zero(),
            f.two_pi_loop_time() == R::spec_zero(),
            f.q_value() == R::spec_one(),
            f.one_over_2q() == R::spec_half(),
    {
        Self::new()
    }
}

impl<T: Zero, R: Zero + One + ConstHalf> BiquadFilter<T, R> {
    /// A passthrough filter with zero history, weight one, loop time zero and `q` one.
    pub fn new() -> (f: Self)
        ensures
            f.history() == zero_state::<T>(),
            f.coefficients() == passthrough_coefficients::<R>(),
            f.weight_value() == R::spec_one(),
            f.loop_time() == R::spec_zero(),
            f.two_pi_loop_time() == R::spec_zero(),
            f.q_value() == R::spec_one(),
            f.one_over_2q() == R::spec_half(),
    {
        BiquadFilter {
            state: BiquadFilterState::new(),
            coeffs: BiquadFilterCoefficients::new(),
            weight: R::one(),
            loop_time_seconds: R::zero(),
            two_pi_loop_time_seconds: R::zero(),
            q: R::one(),
            one_over_2q: R::half(),
        }
    }

    /// A filter with the given coefficients, zero history, weight one, loop
    /// time zero and `q` one.
    pub fn with_coefficients(coeffs: BiquadFilterCoefficients<R>) -> (f: Self)
        ensures
            f.history() == zero_state::<T>(),
            f.coefficients() == coeffs,
            f.weight_value() == R::spec_one(),
            f.loop_time() == R::spec_zero(),
            f.two_pi_loop_time() == R::spec_zero(),
            f.q_value() == R::spec_one(),
            f.one_over_2q() == R::spec_half(),
    {
        BiquadFilter {
            state: BiquadFilterState::new(),
            coeffs,
            weight: R::one(),
            loop_time_seconds: R::zero(),
            two_pi_loop_time_seconds: R::zero(),
            q: R::one(),
            one_over_2q: R::half(),
        }
    }
}

impl<T: Scale<R>, R: Scalar> SignalFilter<T, R> for BiquadFilter<T, R> {
    open spec fn reset_ok(&self, value: T) -> bool {
        &&& dc_gain_ok(self.coefficients())
        &&& T::scale_ok(value, dc_gain(self.coefficients()))
    }

    open spec fn update_ok(&self, input: T) -> bool {
        biquad_output_ok(self.history(), self.coefficients(), input)
    }

    closed spec fn after_update(&self, input: T) -> Self {
        BiquadFilter {
            state: shifted_state(self.state, input, biquad_output(self.state, self.coeffs, input)),
            ..*self
        }
    }

    open spec fn output(&self, input: T) -> T {
        biquad_output(self.history(), self.coefficients(), input)
    }

    fn reset(&mut self)
        ensures
            final(self).history() == zero_state::<T>(),
            same_settings(*old(self), *final(self)),
    {
        self.state.x1 = T::zero();
        self.state.x2 = T::zero();
        self.state.y1 = T::zero();
        self.state.y2 = T::zero();
    }

    /// Sets the history to the steady state for the constant input `value`:
    /// both inputs `value`, both outputs `value` times the gain at zero
    /// frequency, so that the output does not jump.
    fn reset_to_value(&mut self, value: T)
        ensures
            final(self).history() == dc_state(value, old(self).coefficients()),
            same_settings(*old(self), *final(self)),
    {
        let c = self.coeffs;
        let gain = c.b0.plus(c.b1).plus(c.b2).divided(R::one().plus(c.a1).plus(c.a2));
        let output = value.scaled(gain);
        self.state.x1 = value;
        self.state.x2 = value;
        self.state.y1 = output;
        self.state.y2 = output;
    }

    fn update(&mut self, input: T) -> (out: T)
        ensures
            out == biquad_output(old(self).history(), old(self).coefficients(), input),
            final(self).history() == shifted_state(old(self).history(), input, out),
            same_settings(*old(self), *final(self)),
    {
        let c = self.coeffs;
        let s = self.state;
        let output = input.scaled(c.b0).plus(s.x1.scaled(c.b1)).plus(s.x2.scaled(c.b2)).minus(
            s.y1.scaled(c.a1),
        ).minus(s.y2.scaled(c.a2));
        self.state.x2 = self.state.x1;
        self.state.x1 = input;
        self.state.y2 = self.state.y1;
        self.state.y1 = output;
        output
    }
}

impl<T: Scale<R>, R: Scalar> BiquadFilter<T, R> {
    /// What `update(input)` (or `input.filter_using`) leaves: the history
    /// shifted by the input and the output, and the same settings.
    pub proof fn lemma_after_update(self, input: T)
        ensures
            self.after_update(input).history() == shifted_state(
                self.history(),
                input,
                biquad_output(self.history(), self.coefficients(), input),
            ),
            same_settings(self, self.after_update(input)),
    {
    }
}

impl<T: Scale<R>, R: Copy> BiquadFilter<T, R> {
    pub fn set_weight(&mut self, weight: R)
        ensures
            final(self).weight_value() == weight,
            final(self).coefficients() == old(self).coefficients(),
            same_timing(*old(self), *final(self)),
    {
        self.weight = weight;
    }

    pub fn weight(&self) -> (w: R)
        ensures
            w == self.weight_value(),
    {
        self.weight
    }

    pub fn set_coefficients(&mut self, coeffs: BiquadFilterCoefficients<R>)
        ensures
            final(self).coefficients() == coeffs,
            final(self).weight_value() == old(self).weight_value(),
            same_timing(*old(self), *final(self)),
    {
        self.coeffs = coeffs;
    }

    pub fn set_coefficients_and_weight(&mut self, coeffs: BiquadFilterCoefficients<R>, weight: R)
        ensures
            final(self).coefficients() == coeffs,
            final(self).weight_value() == weight,
            same_timing(*old(self), *final(self)),
    {
        self.weight = weight;
        self.coeffs = coeffs;
    }

    /// Copies the coefficients and the weight of another filter.
    pub fn set_parameters_from(&mut self, other: &BiquadFilter<T, R>)
        ensures
            final(self).coefficients() == other.coefficients(),
            final(self).weight_value() == other.weight_value(),
            same_timing(*old(self), *final(self)),
    {
        self.weight = other.weight;
        self.coeffs = other.coeffs;
    }

    pub fn q(&self) -> (q: R)
        ensures
            q == self.q_value(),
    {
        self.q
    }

    pub fn loop_time_seconds(&self) -> (t: R)
        ensures
            t == self.loop_time(),
    {
        self.loop_time_seconds
    }

    /// The input and output history.
    pub fn state(self) -> (s: BiquadFilterState<T>)
        ensures
            s == self.history(),
    {
        self.state
    }
}

impl<T: Scale<R>, R: Scalar> BiquadFilter<T, R> {
    /// The update for a notch filter, where `a1 == b1` and `b0 == b2`, in an
    /// optimised form with fewer multiplications.
    pub fn update_notch(&mut self, input: T) -> (out: T)
        requires
            notch_output_ok(old(self).history(), old(self).coefficients(), input),
        ensures
            out == notch_output(old(self).history(), old(self).coefficients(), input),
            exact_arithmetic::<T, R>() && old(self).coefficients().b2 == old(self).coefficients().b0
                && old(self).coefficients().b1 == old(self).coefficients().a1 ==> out == biquad_output(
                old(self).history(),
                old(self).coefficients(),
                input,
            ),
            final(self).history() == shifted_state(old(self).history(), input, out),
            same_settings(*old(self), *final(self)),
    {
        let c = self.coeffs;
        let s = self.state;
        let output = input.plus(s.x2).scaled(c.b0).plus(s.x1.minus(s.y1).scaled(c.a1)).minus(
            s.y2.scaled(c.a2),
        );
        proof {
            if exact_arithmetic::<T, R>() && c.b2 == c.b0 && c.b1 == c.a1 {
                lemma_notch_form_exact(s, c, input);
            }
        }
        self.state.x2 = self.state.x1;
        self.state.x1 = input;
        self.state.y2 = self.state.y1;
        self.state.y1 = output;
        output
    }

    /// `frequency * 2 * PI * loop_time_seconds`, from the cached product.
    pub fn calculate_omega(&self, frequency: R) -> (omega: R)
        requires
            R::scale_ok(frequency, self.two_pi_loop_time()),
        ensures
            omega == R::spec_scaled(frequency, self.two_pi_loop_time()),
    {
        frequency.scaled(self.two_pi_loop_time_seconds)
    }

    /// Sets `q` and caches `1 / (2 * q)`.
    pub fn set_q(&mut self, q: R)
        requires
            one_over_two_q_ok(q),
        ensures
            final(self).q_value() == q,
            final(self).one_over_2q() == one_over_two_q(q),
            q_cache_consistent(*final(self)),
            final(self).history() == old(self).history(),
            final(self).coefficients() == old(self).coefficients(),
            final(self).weight_value() == old(self).weight_value(),
            final(self).loop_time() == old(self).loop_time(),
            final(self).two_pi_loop_time() == old(self).two_pi_loop_time(),
    {
        self.q = q;
        self.one_over_2q = R::one().divided(R::one().plus(R::one()).scaled(q));
    }

    /// Passthrough coefficients, weight one, and the history cleared.
    pub fn set_to_passthrough(&mut self)
        ensures
            final(self).coefficients() == passthrough_coefficients::<R>(),
            final(self).weight_value() == R::spec_one(),
            final(self).history() == zero_state::<T>(),
            final(self).loop_time() == old(self).loop_time(),
            final(self).two_pi_loop_time() == old(self).two_pi_loop_time(),
            final(self).q_value() == old(self).q_value(),
            final(self).one_over_2q() == old(self).one_over_2q(),
    {
        self.coeffs.b0 = R::one();
        self.coeffs.b1 = R::zero();
        self.coeffs.b2 = R::zero();
        self.coeffs.a1 = R::zero();
        self.coeffs.a2 = R::zero();
        self.weight = R::one();
        self.reset();
    }

    /// `update`, then the output mixed with the input by the weight.
    pub fn update_weighted(&mut self, input: T) -> (out: T)
        requires
            biquad_output_ok(old(self).history(), old(self).coefficients(), input),
            weighted_ok(
                biquad_output(old(self).history(), old(self).coefficients(), input),
                input,
                old(self).weight_value(),
            ),
        ensures
            ({
                let y = biquad_output(old(self).history(), old(self).coefficients(), input);
                &&& out == weighted(y, input, old(self).weight_value())
                &&& final(self).history() == shifted_state(old(self).history(), input, y)
            }),
            same_settings(*old(self), *final(self)),
    {
        let output = self.update(input);
        // weight of one gives just the output, weight of zero just the input
        output.minus(input).scaled(self.weight).plus(input)
    }

    /// `update_notch`, then the output mixed with the input by the weight.
    pub fn update_notch_weighted(&mut self, input: T) -> (out: T)
        requires
            notch_output_ok(old(self).history(), old(self).coefficients(), input),
            weighted_ok(
                notch_output(old(self).history(), old(self).coefficients(), input),
                input,
                old(self).weight_value(),
            ),
        ensures
            ({
                let y = notch_output(old(self).history(), old(self).coefficients(), input);
                &&& out == weighted(y, input, old(self).weight_value())
                &&& final(self).history() == shifted_state(old(self).history(), input, y)
            }),
            same_settings(*old(self), *final(self)),
    {
        let output = self.update_notch(input);
        output.minus(input).scaled(self.weight).plus(input)
    }

    /// The `q` of a notch with the given centre and lower cutoff frequencies.
    pub fn calculate_q(center_frequency_hz: R, lower_cutoff_frequency_hz: R) -> (q: R)
        requires
            q_from_frequencies_ok(center_frequency_hz, lower_cutoff_frequency_hz),
        ensures
            q == q_from_frequencies(center_frequency_hz, lower_cutoff_frequency_hz),
    {
        center_frequency_hz.scaled(lower_cutoff_frequency_hz).divided(
            center_frequency_hz.scaled(center_frequency_hz).minus(
                lower_cutoff_frequency_hz.scaled(lower_cutoff_frequency_hz),
            ),
        )
    }

    pub fn set_q_from_frequencies(&mut self, center_frequency_hz: R, lower_cutoff_frequency_hz: R)
        requires
            q_from_frequencies_ok(center_frequency_hz, lower_cutoff_frequency_hz),
            one_over_two_q_ok(q_from_frequencies(center_frequency_hz, lower_cutoff_frequency_hz)),
        ensures
            final(self).q_value() == q_from_frequencies(center_frequency_hz, lower_cutoff_frequency_hz),
            final(self).one_over_2q() == one_over_two_q(
                q_from_frequencies(center_frequency_hz, lower_cutoff_frequency_hz),
            ),
            final(self).history() == old(self).history(),
            final(self).coefficients() == old(self).coefficients(),
            final(self).weight_value() == old(self).weight_value(),
            final(self).loop_time() == old(self).loop_time(),
            final(self).two_pi_loop_time() == old(self).two_pi_loop_time(),
    {
        self.set_q(Self::calculate_q(center_frequency_hz, lower_cutoff_frequency_hz));
    }

    /// Sets the weight and the notch coefficients for the given sine and
    /// cosine of the normalised frequency, using the cached `1 / (2 * q)`.
    pub fn set_notch_frequency_weighted_from_sin_cos_assuming_q(&mut self, sin_omega: R, cos_omega: R, weight: R)
        requires
            notch_coefficients_ok(sin_omega, cos_omega, old(self).one_over_2q()),
        ensures
            final(self).coefficients() == notch_coefficients(sin_omega, cos_omega, old(self).one_over_2q()),
            q_cache_consistent(*old(self)) ==> final(self).coefficients() == notch_coefficients(
                sin_omega,
                cos_omega,
                one_over_two_q(old(self).q_value()),
            ),
            final(self).coefficients().b2 == final(self).coefficients().b0,
            final(self).coefficients().a1 == final(self).coefficients().b1,
            exact_arithmetic::<R, R>() && R::spec_plus(
                R::spec_one(),
                alpha_of(sin_omega, old(self).one_over_2q()),
            ) != R::spec_zero() ==> numerator_sum(final(self).coefficients()) == denominator_sum(
                final(self).coefficients(),
            ),
            final(self).weight_value() == weight,
            exact_arithmetic::<R, R>() && R::spec_plus(
                R::spec_one(),
                alpha_of(sin_omega, old(self).one_over_2q()),
            ) != R::spec_zero() ==> is_notch_design(
                final(self).coefficients(),
                sin_omega,
                cos_omega,
                old(self).one_over_2q(),
            ),
            same_timing(*old(self), *final(self)),
    {
        proof {
            if exact_arithmetic::<R, R>() && R::spec_plus(R::spec_one(), alpha_of(sin_omega, self.one_over_2q))
                != R::spec_zero() {
                lemma_notch_unity_dc_gain(sin_omega, cos_omega, self.one_over_2q);
                lemma_notch_design(sin_omega, cos_omega, self.one_over_2q);
            }
        }
        self.weight = weight;

        let alpha = sin_omega.scaled(self.one_over_2q);
        let a0reciprocal = R::one().divided(R::one().plus(alpha));
        // b0 == b2 and a1 == b1 for a notch filter
        self.coeffs.b0 = a0reciprocal;
        self.coeffs.b2 = a0reciprocal;
        self.coeffs.b1 = R::zero().minus(R::one().plus(R::one()).scaled(cos_omega).scaled(a0reciprocal));
        self.coeffs.a1 = self.coeffs.b1;
        self.coeffs.a2 = R::one().minus(alpha).scaled(a0reciprocal);
    }
}

impl<T: Scale<R>, R: Scalar + MathConstants> BiquadFilter<T, R> {
    /// Sets the loop time and caches `2 * PI * loop_time_seconds`.
    pub fn set_loop_time(&mut self, loop_time_seconds: R)
        requires
            two_pi_times_ok(loop_time_seconds),
        ensures
            final(self).loop_time() == loop_time_seconds,
            final(self).two_pi_loop_time() == two_pi_times(loop_time_seconds),
            loop_time_cache_consistent(*final(self)),
            q_cache_consistent(*old(self)) ==> caches_consistent(*final(self)),
            final(self).history() == old(self).history(),
            final(self).coefficients() == old(self).coefficients(),
            final(self).weight_value() == old(self).weight_value(),
            final(self).q_value() == old(self).q_value(),
            final(self).one_over_2q() == old(self).one_over_2q(),
    {
        self.loop_time_seconds = loop_time_seconds;
        self.two_pi_loop_time_seconds = R::one().plus(R::one()).scaled(R::pi()).scaled(loop_time_seconds);
    }
}

/// The normalised frequency `frequency * 2 * PI * loop_time` of a filter.
pub open spec fn normalised_frequency<T, R: Scalar>(f: BiquadFilter<T, R>, frequency: R) -> R {
    R::spec_scaled(frequency, f.two_pi_loop_time())
}

impl<T: Scale<R>, R: Scalar + MathConstants + TrigonometricMethods> BiquadFilter<T, R> {
    /// Sets the weight and the low-pass coefficients for `frequency_hz`,
    /// using the cached loop time and `q`.  The weight should be in `[0, 1]`.
    pub fn set_low_pass_frequency_weighted_assuming_q(&mut self, frequency_hz: R, weight: R)
        requires
            R::scale_ok(frequency_hz, old(self).two_pi_loop_time()),
            ({
                let omega = normalised_frequency(*old(self), frequency_hz);
                low_pass_coefficients_ok(R::spec_sin(omega), R::spec_cos(omega), old(self).one_over_2q())
            }),
        ensures
            ({
                let omega = normalised_frequency(*old(self), frequency_hz);
                final(self).coefficients() == low_pass_coefficients(
                    R::spec_sin(omega),
                    R::spec_cos(omega),
                    old(self).one_over_2q(),
                )
            }),
            final(self).weight_value() == weight,
            caches_consistent(*old(self)) ==> ({
                let w = R::spec_scaled(frequency_hz, two_pi_times(old(self).loop_time()));
                final(self).coefficients() == low_pass_coefficients(
                    R::spec_sin(w),
                    R::spec_cos(w),
                    one_over_two_q(old(self).q_value()),
                )
            }),
            ({
                let omega = normalised_frequency(*old(self), frequency_hz);
                let c = final(self).coefficients();
                exact_arithmetic::<R, R>() && R::spec_plus(
                    R::spec_one(),
                    alpha_of(R::spec_sin(omega), old(self).one_over_2q()),
                ) != R::spec_zero() && R::spec_plus(R::spec_one(), R::spec_one()) != R::spec_zero() ==> {
                    &&& numerator_sum(c) == denominator_sum(c)
                    &&& R::spec_plus(R::spec_minus(c.b0, c.b1), c.b2) == R::spec_zero()
                }
            }),
            final(self).coefficients().b0 == final(self).coefficients().b2,
            ({
                let omega = normalised_frequency(*old(self), frequency_hz);
                exact_arithmetic::<R, R>() && R::spec_plus(
                    R::spec_one(),
                    alpha_of(R::spec_sin(omega), old(self).one_over_2q()),
                ) != R::spec_zero()
                    && R::spec_plus(R::spec_one(), R::spec_one()) != R::spec_zero() ==> is_low_pass_design(
                    final(self).coefficients(),
                    R::spec_sin(omega),
                    R::spec_cos(omega),
                    old(self).one_over_2q(),
                )
            }),
            same_timing(*old(self), *final(self)),
    {
        proof {
            let omega = normalised_frequency(*self, frequency_hz);
            if exact_arithmetic::<R, R>() && R::spec_plus(R::spec_one(), alpha_of(R::spec_sin(omega), self.one_over_2q))
                != R::spec_zero() && R::spec_plus(R::spec_one(), R::spec_one()) != R::spec_zero() {
                lemma_low_pass_design(R::spec_sin(omega), R::spec_cos(omega), self.one_over_2q);
            }
        }
        proof {
            let omega = normalised_frequency(*self, frequency_hz);
            if exact_arithmetic::<R, R>() && R::spec_plus(R::spec_one(), alpha_of(R::spec_sin(omega), self.one_over_2q))
                != R::spec_zero() && R::spec_plus(R::spec_one(), R::spec_one()) != R::spec_zero() {
                lemma_low_pass_unity_dc_gain(R::spec_sin(omega), R::spec_cos(omega), self.one_over_2q);
            }
        }
        self.weight = weight;

        let omega = frequency_hz.scaled(self.two_pi_loop_time_seconds);
        let (sin_omega, cos_omega) = omega.sin_cos();
        let alpha = sin_omega.scaled(self.one_over_2q);
        let a0_reciprocal = R::one().divided(R::one().plus(alpha));

        self.coeffs.b1 = R::one().minus(cos_omega).scaled(a0_reciprocal);
        self.coeffs.b0 = self.coeffs.b1.scaled(R::one().divided(R::one().plus(R::one())));
        self.coeffs.b2 = self.coeffs.b0;
        self.coeffs.a1 = R::one().plus(R::one()).negated().scaled(cos_omega).scaled(a0_reciprocal);
        self.coeffs.a2 = R::one().minus(alpha).scaled(a0_reciprocal);
    }

    /// Low-pass coefficients for `frequency_hz` with weight one.
    pub fn set_low_pass_frequency_assuming_q(&mut self, frequency_hz: R)
        requires
            R::scale_ok(frequency_hz, old(self).two_pi_loop_time()),
            ({
                let omega = normalised_frequency(*old(self), frequency_hz);
                low_pass_coefficients_ok(R::spec_sin(omega), R::spec_cos(omega), old(self).one_over_2q())
            }),
        ensures
            ({
                let omega = normalised_frequency(*old(self), frequency_hz);
                final(self).coefficients() == low_pass_coefficients(
                    R::spec_sin(omega),
                    R::spec_cos(omega),
                    old(self).one_over_2q(),
                )
            }),
            final(self).weight_value() == R::spec_one(),
            caches_consistent(*old(self)) ==> ({
                let w = R::spec_scaled(frequency_hz, two_pi_times(old(self).loop_time()));
                final(self).coefficients() == low_pass_coefficients(
                    R::spec_sin(w),
                    R::spec_cos(w),
                    one_over_two_q(old(self).q_value()),
                )
            }),
            ({
                let omega = normalised_frequency(*old(self), frequency_hz);
                let c = final(self).coefficients();
                exact_arithmetic::<R, R>() && R::spec_plus(
                    R::spec_one(),
                    alpha_of(R::spec_sin(omega), old(self).one_over_2q()),
                ) != R::spec_zero() && R::spec_plus(R::spec_one(), R::spec_one()) != R::spec_zero() ==> {
                    &&& numerator_sum(c) == denominator_sum(c)
                    &&& R::spec_plus(R::spec_minus(c.b0, c.b1), c.b2) == R::spec_zero()
                }
            }),
            final(self).coefficients().b0 == final(self).coefficients().b2,
            ({
                let omega = normalised_frequency(*old(self), frequency_hz);
                exact_arithmetic::<R, R>() && R::spec_plus(
                    R::spec_one(),
                    alpha_of(R::spec_sin(omega), old(self).one_over_2q()),
                ) != R::spec_zero()
                    && R::spec_plus(R::spec_one(), R::spec_one()) != R::spec_zero() ==> is_low_pass_design(
                    final(self).coefficients(),
                    R::spec_sin(omega),
                    R::spec_cos(omega),
                    old(self).one_over_2q(),
                )
            }),
            same_timing(*old(self), *final(self)),
    {
        proof {
            let omega = normalised_frequency(*self, frequency_hz);
            if exact_arithmetic::<R, R>() && R::spec_plus(R::spec_one(), alpha_of(R::spec_sin(omega), self.one_over_2q))
                != R::spec_zero() && R::spec_plus(R::spec_one(), R::spec_one()) != R::spec_zero() {
                lemma_low_pass_design(R::spec_sin(omega), R::spec_cos(omega), self.one_over_2q);
            }
        }
        proof {
            let omega = normalised_frequency(*self, frequency_hz);
            if exact_arithmetic::<R, R>() && R::spec_plus(R::spec_one(), alpha_of(R::spec_sin(omega), self.one_over_2q))
                != R::spec_zero() && R::spec_plus(R::spec_one(), R::spec_one()) != R::spec_zero() {
                lemma_low_pass_unity_dc_gain(R::spec_sin(omega), R::spec_cos(omega), self.one_over_2q);
            }
        }
        self.set_low_pass_frequency_weighted_assuming_q(frequency_hz, R::one());
    }

    /// Sets the weight and the notch coefficients for `frequency_hz`, using
    /// the cached loop time and `q`.
    pub fn set_notch_frequency_weighted_assuming_q(&mut self, frequency_hz: R, weight: R)
        requires
            R::scale_ok(frequency_hz, old(self).two_pi_loop_time()),
            ({
                let omega = normalised_frequency(*old(self), frequency_hz);
                notch_coefficients_ok(R::spec_sin(omega), R::spec_cos(omega), old(self).one_over_2q())
            }),
        ensures
            ({
                let omega = normalised_frequency(*old(self), frequency_hz);
                final(self).coefficients() == notch_coefficients(
                    R::spec_sin(omega),
                    R::spec_cos(omega),
                    old(self).one_over_2q(),
                )
            }),
            final(self).weight_value() == weight,
            caches_consistent(*old(self)) ==> ({
                let w = R::spec_scaled(frequency_hz, two_pi_times(old(self).loop_time()));
                final(self).coefficients() == notch_coefficients(
                    R::spec_sin(w),
                    R::spec_cos(w),
                    one_over_two_q(old(self).q_value()),
                )
            }),
            ({
                let omega = normalised_frequency(*old(self), frequency_hz);
                let c = final(self).coefficients();
                &&& exact_arithmetic::<R, R>() && R::spec_plus(
                    R::spec_one(),
                    alpha_of(R::spec_sin(omega), old(self).one_over_2q()),
                ) != R::spec_zero() ==> numerator_sum(c) == denominator_sum(c)
                &&& exact_arithmetic::<R, R>() && exact_trigonometry::<R>() ==> numerator_at(
                    c,
                    R::spec_cos(omega),
                    R::spec_sin(omega),
                ) == (R::spec_zero(), R::spec_zero())
            }),
            final(self).coefficients().b0 == final(self).coefficients().b2,
            ({
                let omega = normalised_frequency(*old(self), frequency_hz);
                exact_arithmetic::<R, R>() && R::spec_plus(
                    R::spec_one(),
                    alpha_of(R::spec_sin(omega), old(self).one_over_2q()),
                ) != R::spec_zero() ==> is_notch_design(
                    final(self).coefficients(),
                    R::spec_sin(omega),
                    R::spec_cos(omega),
                    old(self).one_over_2q(),
                )
            }),
            same_timing(*old(self), *final(self)),
    {
        proof {
            let omega = normalised_frequency(*self, frequency_hz);
            if exact_arithmetic::<R, R>() && R::spec_plus(R::spec_one(), alpha_of(R::spec_sin(omega), self.one_over_2q))
                != R::spec_zero() {
                lemma_notch_design(R::spec_sin(omega), R::spec_cos(omega), self.one_over_2q);
            }
        }
        proof {
            let omega = normalised_frequency(*self, frequency_hz);
            if exact_arithmetic::<R, R>() && R::spec_plus(R::spec_one(), alpha_of(R::spec_sin(omega), self.one_over_2q))
                != R::spec_zero() {
                lemma_notch_unity_dc_gain(R::spec_sin(omega), R::spec_cos(omega), self.one_over_2q);
            }
            if exact_arithmetic::<R, R>() && exact_trigonometry::<R>() {
                lemma_notch_rejects_omega(omega, self.one_over_2q);
            }
        }
        let omega = frequency_hz.scaled(self.two_pi_loop_time_seconds);
        let (sin_omega, cos_omega) = omega.sin_cos();
        self.set_notch_frequency_weighted_from_sin_cos_assuming_q(sin_omega, cos_omega, weight);
    }

    /// Notch coefficients for `frequency_hz` with weight one.
    pub fn set_notch_frequency_assuming_q(&mut self, frequency_hz: R)
        requires
            R::scale_ok(frequency_hz, old(self).two_pi_loop_time()),
            ({
                let omega = normalised_frequency(*old(self), frequency_hz);
                notch_coefficients_ok(R::spec_sin(omega), R::spec_cos(omega), old(self).one_over_2q())
            }),
        ensures
            ({
                let omega = normalised_frequency(*old(self), frequency_hz);
                final(self).coefficients() == notch_coefficients(
                    R::spec_sin(omega),
                    R::spec_cos(omega),
                    old(self).one_over_2q(),
                )
            }),
            final(self).weight_value() == R::spec_one(),
            caches_consistent(*old(self)) ==> ({
                let w = R::spec_scaled(frequency_hz, two_pi_times(old(self).loop_time()));
                final(self).coefficients() == notch_coefficients(
                    R::spec_sin(w),
                    R::spec_cos(w),
                    one_over_two_q(old(self).q_value()),
                )
            }),
            ({
                let omega = normalised_frequency(*old(self), frequency_hz);
                let c = final(self).coefficients();
                &&& exact_arithmetic::<R, R>() && R::spec_plus(
                    R::spec_one(),
                    alpha_of(R::spec_sin(omega), old(self).one_over_2q()),
                ) != R::spec_zero() ==> numerator_sum(c) == denominator_sum(c)
                &&& exact_arithmetic::<R, R>() && exact_trigonometry::<R>() ==> numerator_at(
                    c,
                    R::spec_cos(omega),
                    R::spec_sin(omega),
                ) == (R::spec_zero(), R::spec_zero())
            }),
            final(self).coefficients().b0 == final(self).coefficients().b2,
            ({
                let omega = normalised_frequency(*old(self), frequency_hz);
                exact_arithmetic::<R, R>() && R::spec_plus(
                    R::spec_one(),
                    alpha_of(R::spec_sin(omega), old(self).one_over_2q()),
                ) != R::spec_zero() ==> is_notch_design(
                    final(self).coefficients(),
                    R::spec_sin(omega),
                    R::spec_cos(omega),
                    old(self).one_over_2q(),
                )
            }),
            same_timing(*old(self), *final(self)),
    {
        proof {
            let omega = normalised_frequency(*self, frequency_hz);
            if exact_arithmetic::<R, R>() && R::spec_plus(R::spec_one(), alpha_of(R::spec_sin(omega), self.one_over_2q))
                != R::spec_zero() {
                lemma_notch_design(R::spec_sin(omega), R::spec_cos(omega), self.one_over_2q);
            }
        }
        proof {
            let omega = normalised_frequency(*self, frequency_hz);
            if exact_arithmetic::<R, R>() && R::spec_plus(R::spec_one(), alpha_of(R::spec_sin(omega), self.one_over_2q))
                != R::spec_zero() {
                lemma_notch_unity_dc_gain(R::spec_sin(omega), R::spec_cos(omega), self.one_over_2q);
            }
            if exact_arithmetic::<R, R>() && exact_trigonometry::<R>() {
                lemma_notch_rejects_omega(omega, self.one_over_2q);
            }
        }
        self.set_notch_frequency_weighted_assuming_q(frequency_hz, R::one());
    }

    /// Sets `q` from the centre and lower cutoff frequencies, then the notch
    /// coefficients for the centre frequency with weight one.
    pub fn set_notch_frequency(&mut self, center_frequency_hz: R, lower_cutoff_frequency_hz: R)
        requires
            q_from_frequencies_ok(center_frequency_hz, lower_cutoff_frequency_hz),
            one_over_two_q_ok(q_from_frequencies(center_frequency_hz, lower_cutoff_frequency_hz)),
            R::scale_ok(center_frequency_hz, old(self).two_pi_loop_time()),
            ({
                let omega = normalised_frequency(*old(self), center_frequency_hz);
                let q = q_from_frequencies(center_frequency_hz, lower_cutoff_frequency_hz);
                notch_coefficients_ok(R::spec_sin(omega), R::spec_cos(omega), one_over_two_q(q))
            }),
        ensures
            ({
                let omega = normalised_frequency(*old(self), center_frequency_hz);
                let q = q_from_frequencies(center_frequency_hz, lower_cutoff_frequency_hz);
                &&& final(self).q_value() == q
                &&& final(self).one_over_2q() == one_over_two_q(q)
                &&& final(self).coefficients() == notch_coefficients(
                    R::spec_sin(omega),
                    R::spec_cos(omega),
                    one_over_two_q(q),
                )
            }),
            loop_time_cache_consistent(*old(self)) ==> ({
                let w = R::spec_scaled(center_frequency_hz, two_pi_times(old(self).loop_time()));
                let q = q_from_frequencies(center_frequency_hz, lower_cutoff_frequency_hz);
                &&& caches_consistent(*final(self))
                &&& final(self).coefficients() == notch_coefficients(
                    R::spec_sin(w),
                    R::spec_cos(w),
                    one_over_two_q(q),
                )
            }),
            final(self).weight_value() == R::spec_one(),
            final(self).history() == old(self).history(),
            final(self).loop_time() == old(self).loop_time(),
            final(self).two_pi_loop_time() == old(self).two_pi_loop_time(),
    {
        self.set_q(Self::calculate_q(center_frequency_hz, lower_cutoff_frequency_hz));
        self.set_notch_frequency_assuming_q(center_frequency_hz);
    }
}

impl<T: Scale<R>, R: Scalar + MathConstants + TrigonometricMethods> BiquadFilter<T, R> {
    /// Sets the loop time and `q`, the low-pass coefficients for
    /// `frequency_hz` with weight one, and clears the history.
    pub fn init_low_pass(&mut self, frequency_hz: R, loop_time_seconds: R, q: R)
        requires
            two_pi_times_ok(loop_time_seconds),
            one_over_two_q_ok(q),
            R::scale_ok(frequency_hz, two_pi_times(loop_time_seconds)),
            ({
                let omega = R::spec_scaled(frequency_hz, two_pi_times(loop_time_seconds));
                low_pass_coefficients_ok(R::spec_sin(omega), R::spec_cos(omega), one_over_two_q(q))
            }),
        ensures
            ({
                let omega = R::spec_scaled(frequency_hz, two_pi_times(loop_time_seconds));
                final(self).coefficients() == low_pass_coefficients(
                    R::spec_sin(omega),
                    R::spec_cos(omega),
                    one_over_two_q(q),
                )
            }),
            final(self).weight_value() == R::spec_one(),
            final(self).history() == zero_state::<T>(),
            final(self).loop_time() == loop_time_seconds,
            final(self).two_pi_loop_time() == two_pi_times(loop_time_seconds),
            final(self).q_value() == q,
            final(self).one_over_2q() == one_over_two_q(q),
            final(self).coefficients().b0 == final(self).coefficients().b2,
            ({
                let omega = R::spec_scaled(frequency_hz, two_pi_times(loop_time_seconds));
                exact_arithmetic::<R, R>() && R::spec_plus(
                    R::spec_one(),
                    alpha_of(R::spec_sin(omega), one_over_two_q(q)),
                ) != R::spec_zero()
                    && R::spec_plus(R::spec_one(), R::spec_one()) != R::spec_zero() ==> is_low_pass_design(
                    final(self).coefficients(),
                    R::spec_sin(omega),
                    R::spec_cos(omega),
                    one_over_two_q(q),
                )
            }),
            caches_consistent(*final(self)),
    {
        proof {
            let omega = R::spec_scaled(frequency_hz, two_pi_times(loop_time_seconds));
            if exact_arithmetic::<R, R>() && R::spec_plus(R::spec_one(), alpha_of(R::spec_sin(omega), one_over_two_q(q)))
                != R::spec_zero() && R::spec_plus(R::spec_one(), R::spec_one()) != R::spec_zero() {
                lemma_low_pass_design(R::spec_sin(omega), R::spec_cos(omega), one_over_two_q(q));
            }
        }
        self.set_loop_time(loop_time_seconds);
        self.set_q(q);
        self.set_low_pass_frequency_assuming_q(frequency_hz);
        self.reset();
    }

    /// Sets the loop time and `q`, the notch coefficients for `frequency_hz`
    /// with weight one, and clears the history.
    pub fn init_notch(&mut self, frequency_hz: R, loop_time_seconds: R, q: R)
        requires
            two_pi_times_ok(loop_time_seconds),
            one_over_two_q_ok(q),
            R::scale_ok(frequency_hz, two_pi_times(loop_time_seconds)),
            ({
                let omega = R::spec_scaled(frequency_hz, two_pi_times(loop_time_seconds));
                notch_coefficients_ok(R::spec_sin(omega), R::spec_cos(omega), one_over_two_q(q))
            }),
        ensures
            ({
                let omega = R::spec_scaled(frequency_hz, two_pi_times(loop_time_seconds));
                final(self).coefficients() == notch_coefficients(
                    R::spec_sin(omega),
                    R::spec_cos(omega),
                    one_over_two_q(q),
                )
            }),
            final(self).weight_value() == R::spec_one(),
            final(self).history() == zero_state::<T>(),
            final(self).loop_time() == loop_time_seconds,
            final(self).two_pi_loop_time() == two_pi_times(loop_time_seconds),
            final(self).q_value() == q,
            final(self).one_over_2q() == one_over_two_q(q),
            final(self).coefficients().b0 == final(self).coefficients().b2,
            ({
                let omega = R::spec_scaled(frequency_hz, two_pi_times(loop_time_seconds));
                exact_arithmetic::<R, R>() && R::spec_plus(
                    R::spec_one(),
                    alpha_of(R::spec_sin(omega), one_over_two_q(q)),
                ) != R::spec_zero() ==> is_notch_design(
                    final(self).coefficients(),
                    R::spec_sin(omega),
                    R::spec_cos(omega),
                    one_over_two_q(q),
                )
            }),
            caches_consistent(*final(self)),
    {
        proof {
            let omega = R::spec_scaled(frequency_hz, two_pi_times(loop_time_seconds));
            if exact_arithmetic::<R, R>() && R::spec_plus(R::spec_one(), alpha_of(R::spec_sin(omega), one_over_two_q(q)))
                != R::spec_zero() {
                lemma_notch_design(R::spec_sin(omega), R::spec_cos(omega), one_over_two_q(q));
            }
        }
        self.set_loop_time(loop_time_seconds);
        self.set_q(q);
        self.set_notch_frequency_assuming_q(frequency_hz);
        self.reset();
    }
}

/// With the passthrough coefficients the filter outputs its input,
/// whatever its history: exactly so for integers.
pub proof fn lemma_passthrough_outputs_input(s: BiquadFilterState<i32>, input: i32)
    requires
        biquad_output_ok(s, passthrough_coefficients::<i32>(), input),
    ensures
        biquad_output(s, passthrough_coefficients::<i32>(), input) == input,
{
}

/// A weight of one gives just the filtered value, a weight of zero just the
/// input: exactly so for integers.
pub proof fn lemma_weight_extremes(output: i32, input: i32)
    ensures
        weighted_ok(output, input, 1i32) ==> weighted(output, input, 1i32) == output,
        weighted_ok(output, input, 0i32) ==> weighted(output, input, 0i32) == input,
{
}

/// For notch coefficients (`b0 == b2` and `a1 == b1`) the optimised notch
/// form computes the same output as the general difference equation, in
/// exact arithmetic.
pub proof fn lemma_notch_form_exact<T: Scale<R>, R: Scalar>(
    s: BiquadFilterState<T>,
    c: BiquadFilterCoefficients<R>,
    input: T,
)
    requires
        exact_arithmetic::<T, R>(),
        c.b2 == c.b0,
        c.b1 == c.a1,
    ensures
        notch_output(s, c, input) == biquad_output(s, c, input),
{
    lemma_exact_parts::<T, R>();
    let xb = T::spec_scaled(input, c.b0);
    let x1a = T::spec_scaled(s.x1, c.a1);
    let x2b = T::spec_scaled(s.x2, c.b0);
    let y1a = T::spec_scaled(s.y1, c.a1);
    lemma_scaled_sum(input, s.x2, c.b0);
    lemma_scaled_difference(s.x1, s.y1, c.a1);
    lemma_regroup_sum(xb, x1a, x2b, y1a);
}

/// The notch coefficients have the notch form, so `update_notch` may be used
/// with them.
pub proof fn lemma_notch_coefficients_have_notch_form<R: Scalar>(sin_omega: R, cos_omega: R, one_over_2q: R)
    ensures
        notch_coefficients(sin_omega, cos_omega, one_over_2q).b2 == notch_coefficients(
            sin_omega,
            cos_omega,
            one_over_2q,
        ).b0,
        notch_coefficients(sin_omega, cos_omega, one_over_2q).b1 == notch_coefficients(
            sin_omega,
            cos_omega,
            one_over_2q,
        ).a1,
{
}

/// For integers the cached `1 / (2 * q)` of a new filter (one half, that
/// is zero in integer division) is the value that `set_q(1)` caches.
pub proof fn lemma_new_filter_cache_consistent()
    ensures
        i32::spec_half() == one_over_two_q(i32::spec_one()),
{
    vstd::arithmetic::div_mod::lemma_basic_div(1, 2);
}

/// In exact arithmetic the history set by `reset_to_value` is a steady
/// state: fed `value` again, the filter outputs `value * dc_gain(c)` and its
/// history stays the same, so the output does not jump.
pub proof fn lemma_dc_state_is_steady<T: Scale<R>, R: Scalar>(value: T, c: BiquadFilterCoefficients<R>)
    requires
        exact_arithmetic::<T, R>(),
        R::spec_plus(R::spec_plus(R::spec_one(), c.a1), c.a2) != R::spec_zero(),
    ensures
        biquad_output(dc_state(value, c), c, value) == T::spec_scaled(value, dc_gain(c)),
        shifted_state(dc_state(value, c), value, T::spec_scaled(value, dc_gain(c))) == dc_state(value, c),
{
    lemma_exact_parts::<T, R>();
    let sb = R::spec_plus(R::spec_plus(c.b0, c.b1), c.b2);
    let one_a1 = R::spec_plus(R::spec_one(), c.a1);
    let sa = R::spec_plus(one_a1, c.a2);
    let g = dc_gain(c);
    let y = T::spec_scaled(value, g);
    // value * (b0 + b1 + b2)
    lemma_scaled_by_sum(value, c.b0, c.b1);
    lemma_scaled_by_sum(value, R::spec_plus(c.b0, c.b1), c.b2);
    // (b0 + b1 + b2) == g * (1 + a1 + a2)
    lemma_gains_exact::<T, R>();
    lemma_scaled_quotient::<R, R>(sb, sa);
    lemma_scaled_twice(value, g, sa);
    // y * (1 + a1 + a2) == (y + y a1) + y a2
    lemma_scaled_by_sum(y, one_a1, c.a2);
    lemma_scaled_by_sum(y, R::spec_one(), c.a1);
    lemma_scaled_twice(y, R::spec_one(), R::spec_one());
    lemma_cancel_two(y, T::spec_scaled(y, c.a1), T::spec_scaled(y, c.a2));
}

/// `b0 + b1 + b2`, the numerator of the gain at zero frequency.
pub open spec fn numerator_sum<R: Scalar>(c: BiquadFilterCoefficients<R>) -> R {
    R::spec_plus(R::spec_plus(c.b0, c.b1), c.b2)
}

/// `1 + a1 + a2`, the denominator of the gain at zero frequency.
pub open spec fn denominator_sum<R: Scalar>(c: BiquadFilterCoefficients<R>) -> R {
    R::spec_plus(R::spec_plus(R::spec_one(), c.a1), c.a2)
}

/// `2 * (1 - cos) / a0`, which both sums of the low-pass and the notch
/// coefficients come to.
pub open spec fn unit_dc_sum<R: Scalar>(sin_omega: R, cos_omega: R, one_over_2q: R) -> R {
    let two = R::spec_plus(R::spec_one(), R::spec_one());
    R::spec_scaled(
        R::spec_scaled(two, R::spec_minus(R::spec_one(), cos_omega)),
        a0_reciprocal_of(alpha_of(sin_omega, one_over_2q)),
    )
}

/// `1 - 2 cos / a0 + (1 - alpha) / a0 == 2 (1 - cos) / a0`, using `1 == (1 + alpha) / a0`.
proof fn lemma_denominator_sum<R: Scalar>(sin_omega: R, cos_omega: R, one_over_2q: R)
    requires
        exact_arithmetic::<R, R>(),
        R::spec_plus(R::spec_one(), alpha_of(sin_omega, one_over_2q)) != R::spec_zero(),
    ensures
        ({
            let two = R::spec_plus(R::spec_one(), R::spec_one());
            let alpha = alpha_of(sin_omega, one_over_2q);
            let a0r = a0_reciprocal_of(alpha);
            let x = R::spec_scaled(R::spec_scaled(two, cos_omega), a0r);
            R::spec_plus(
                R::spec_plus(R::spec_one(), R::spec_negated(x)),
                R::spec_scaled(R::spec_minus(R::spec_one(), alpha), a0r),
            ) == unit_dc_sum(sin_omega, cos_omega, one_over_2q)
        }),
{
    lemma_exact_parts::<R, R>();
    let one = R::spec_one();
    let two = R::spec_plus(one, one);
    let alpha = alpha_of(sin_omega, one_over_2q);
    let a0r = a0_reciprocal_of(alpha);
    let m = R::spec_plus(one, alpha);
    let tc = R::spec_scaled(two, cos_omega);
    let n = R::spec_negated(tc);
    // one == (1 + alpha) / a0
    lemma_scaled_quotient::<R, R>(one, m);
    lemma_gain_product_commutes(a0r, m);
    lemma_scaled_negated::<R, R>(tc, a0r);
    lemma_scaled_sum::<R, R>(m, n, a0r);
    lemma_scaled_sum::<R, R>(R::spec_plus(m, n), R::spec_minus(one, alpha), a0r);
    lemma_cancel_in_sum(one, one, alpha, n);
    assert(R::spec_plus(two, n) == R::spec_minus(two, tc)) by {
        reveal(exact_additive);
    }
    lemma_scaled_by_complement::<R, R>(two, cos_omega);
}

/// The low-pass coefficients have gain one at zero frequency (the sums of
/// numerator and denominator agree) and a zero at the Nyquist frequency
/// (`b0 - b1 + b2 == 0`), in exact arithmetic.
pub proof fn lemma_low_pass_unity_dc_gain<R: Scalar>(sin_omega: R, cos_omega: R, one_over_2q: R)
    requires
        exact_arithmetic::<R, R>(),
        R::spec_plus(R::spec_one(), alpha_of(sin_omega, one_over_2q)) != R::spec_zero(),
        R::spec_plus(R::spec_one(), R::spec_one()) != R::spec_zero(),
    ensures
        numerator_sum(low_pass_coefficients(sin_omega, cos_omega, one_over_2q)) == unit_dc_sum(
            sin_omega,
            cos_omega,
            one_over_2q,
        ),
        denominator_sum(low_pass_coefficients(sin_omega, cos_omega, one_over_2q)) == unit_dc_sum(
            sin_omega,
            cos_omega,
            one_over_2q,
        ),
        ({
            let c = low_pass_coefficients(sin_omega, cos_omega, one_over_2q);
            R::spec_plus(R::spec_minus(c.b0, c.b1), c.b2) == R::spec_zero()
        }),
{
    lemma_exact_parts::<R, R>();
    let one = R::spec_one();
    let two = R::spec_plus(one, one);
    let alpha = alpha_of(sin_omega, one_over_2q);
    let a0r = a0_reciprocal_of(alpha);
    let c = low_pass_coefficients(sin_omega, cos_omega, one_over_2q);
    let tc = R::spec_scaled(two, cos_omega);
    let oc = R::spec_minus(one, cos_omega);
    let b1 = c.b1;
    let h = R::spec_divided(one, two);
    // denominator: a1 == -(2 cos / a0)
    lemma_scaled_negated::<R, R>(two, cos_omega);
    lemma_scaled_negated::<R, R>(tc, a0r);
    lemma_denominator_sum(sin_omega, cos_omega, one_over_2q);
    // h + h == 1
    lemma_scaled_quotient::<R, R>(one, two);
    lemma_scaled_by_sum::<R, R>(h, one, one);
    lemma_scaled_twice::<R, R>(h, one, one);
    // b0 + b0 == b1
    lemma_scaled_by_sum::<R, R>(b1, h, h);
    lemma_scaled_twice::<R, R>(b1, one, one);
    assert(R::spec_plus(c.b0, c.b0) == b1);
    // numerator: b1 + b1 == b1 * 2 == 2 (1 - cos) / a0
    lemma_sum_regroup(c.b0, b1, c.b0);
    lemma_scaled_by_sum::<R, R>(b1, one, one);
    lemma_scaled_twice::<R, R>(oc, a0r, two);
    lemma_gain_product_commutes(a0r, two);
    lemma_scaled_twice::<R, R>(oc, two, a0r);
    lemma_gain_product_commutes(oc, two);
    // Nyquist: (b0 - b1) + b0 == (b0 + b0) - b1 == 0
    lemma_difference_after_sum(c.b0, b1, c.b0);
    lemma_add_then_subtract(R::spec_zero(), b1);
    assert(R::spec_plus(R::spec_zero(), b1) == b1) by {
        reveal(exact_additive);
        assert(R::spec_plus(R::spec_zero(), b1) == R::spec_plus(b1, R::spec_zero()));
    }
}

/// The notch coefficients have gain one at zero frequency: the sums of
/// numerator and denominator agree, in exact arithmetic.
pub proof fn lemma_notch_unity_dc_gain<R: Scalar>(sin_omega: R, cos_omega: R, one_over_2q: R)
    requires
        exact_arithmetic::<R, R>(),
        R::spec_plus(R::spec_one(), alpha_of(sin_omega, one_over_2q)) != R::spec_zero(),
    ensures
        numerator_sum(notch_coefficients(sin_omega, cos_omega, one_over_2q)) == unit_dc_sum(
            sin_omega,
            cos_omega,
            one_over_2q,
        ),
        denominator_sum(notch_coefficients(sin_omega, cos_omega, one_over_2q)) == unit_dc_sum(
            sin_omega,
            cos_omega,
            one_over_2q,
        ),
{
    lemma_exact_parts::<R, R>();
    let one = R::spec_one();
    let two = R::spec_plus(one, one);
    let alpha = alpha_of(sin_omega, one_over_2q);
    let a0r = a0_reciprocal_of(alpha);
    let c = notch_coefficients(sin_omega, cos_omega, one_over_2q);
    let tc = R::spec_scaled(two, cos_omega);
    let x = R::spec_scaled(tc, a0r);
    let w = R::spec_scaled(two, a0r);
    // b1 == a1 == -x
    lemma_zero_minus(x);
    lemma_denominator_sum(sin_omega, cos_omega, one_over_2q);
    // numerator: (a0r + b1) + a0r == b1 + 2 a0r == 2 a0r - x
    lemma_sum_regroup(a0r, c.b1, a0r);
    lemma_scaled_by_sum::<R, R>(a0r, one, one);
    lemma_scaled_twice::<R, R>(a0r, one, one);
    lemma_gain_product_commutes(a0r, two);
    assert(R::spec_plus(c.b1, w) == R::spec_minus(w, x)) by {
        reveal(exact_additive);
    }
    lemma_scaled_difference::<R, R>(two, tc, a0r);
    lemma_scaled_by_complement::<R, R>(two, cos_omega);
}

/// The numerator `b0 + b1 * w + b2 * w^2` of the transfer function at the
/// complex point `w = re + i * im` (standing for `z^-1`), as its real and
/// imaginary parts.
pub open spec fn numerator_at<R: Scalar>(c: BiquadFilterCoefficients<R>, re: R, im: R) -> (R, R) {
    let two = R::spec_plus(R::spec_one(), R::spec_one());
    let re2 = R::spec_minus(R::spec_scaled(re, re), R::spec_scaled(im, im));
    let im2 = R::spec_scaled(R::spec_scaled(two, re), im);
    (
        R::spec_plus(R::spec_plus(c.b0, R::spec_scaled(c.b1, re)), R::spec_scaled(c.b2, re2)),
        R::spec_plus(R::spec_scaled(c.b1, im), R::spec_scaled(c.b2, im2)),
    )
}

/// The notch: the numerator of the notch coefficients vanishes on the unit
/// circle at the angle whose cosine is `cos_omega`, that is at
/// `z^-1 = cos_omega + i * im` for either `im` with
/// `cos_omega^2 + im^2 == 1`, so the filter blocks that frequency, in exact
/// arithmetic.
pub proof fn lemma_notch_zero_at_its_frequency<R: Scalar>(
    sin_omega: R,
    cos_omega: R,
    one_over_2q: R,
    im: R,
)
    requires
        exact_arithmetic::<R, R>(),
        R::spec_plus(R::spec_scaled(cos_omega, cos_omega), R::spec_scaled(im, im)) == R::spec_one(),
    ensures
        numerator_at(notch_coefficients(sin_omega, cos_omega, one_over_2q), cos_omega, im) == (
            R::spec_zero(),
            R::spec_zero(),
        ),
{
    lemma_exact_parts::<R, R>();
    let zero = R::spec_zero();
    let one = R::spec_one();
    let two = R::spec_plus(one, one);
    let c = cos_omega;
    let a = a0_reciprocal_of(alpha_of(sin_omega, one_over_2q));
    let n = notch_coefficients(sin_omega, cos_omega, one_over_2q);
    let tc = R::spec_scaled(two, c);
    let x = R::spec_scaled(tc, a);
    lemma_zero_minus(x);
    // imaginary part: -(x * im) + a * (tc * im) == 0
    let y = R::spec_scaled(tc, R::spec_scaled(a, im));
    lemma_scaled_negated::<R, R>(x, im);
    lemma_scaled_twice::<R, R>(tc, a, im);
    lemma_gain_product_commutes(a, R::spec_scaled(tc, im));
    lemma_scaled_twice::<R, R>(tc, im, a);
    lemma_gain_product_commutes(im, a);
    lemma_minus_and_assoc(R::spec_negated(y), y, zero);
    lemma_minus_and_assoc(y, zero, zero);
    // real part: (a - a * d) + (a * d - a) == 0 with d == 2 * c * c
    let cc = R::spec_scaled(c, c);
    let ss = R::spec_scaled(im, im);
    let d = R::spec_scaled(tc, c);
    let ad = R::spec_scaled(a, d);
    lemma_scaled_negated::<R, R>(x, c);
    lemma_scaled_twice::<R, R>(tc, a, c);
    lemma_gain_product_commutes(a, d);
    lemma_scaled_twice::<R, R>(tc, c, a);
    lemma_gain_product_commutes(c, a);
    assert(R::spec_scaled(x, c) == ad);
    // d == c * c + c * c
    lemma_scaled_sum::<R, R>(one, one, c);
    lemma_gain_product_commutes(one, c);
    lemma_scaled_twice::<R, R>(c, one, one);
    lemma_scaled_sum::<R, R>(c, c, c);
    assert(d == R::spec_plus(cc, cc));
    // c * c - im * im == d - 1
    lemma_double_minus_sum(cc, ss);
    let e = R::spec_minus(cc, ss);
    assert(e == R::spec_minus(d, one));
    // a * (d - 1) == a * d - a
    lemma_gain_product_commutes(a, e);
    lemma_scaled_difference::<R, R>(d, one, a);
    lemma_gain_product_commutes(d, a);
    lemma_gain_product_commutes(one, a);
    lemma_scaled_twice::<R, R>(a, one, one);
    assert(R::spec_scaled(a, e) == R::spec_minus(ad, a));
    lemma_cancel_in_sum(zero, ad, a, R::spec_negated(ad));
    lemma_minus_and_assoc(a, zero, zero);
    lemma_minus_and_assoc(ad, zero, zero);
}

/// The notch rejects its own frequency: with sine and cosine that satisfy
/// `sin^2 + cos^2 == 1`, the numerator of the notch coefficients for `omega`
/// vanishes at `z^-1 = cos(omega) + i * sin(omega)`, in exact arithmetic.
pub proof fn lemma_notch_rejects_omega<R: Scalar + TrigonometricMethods>(omega: R, one_over_2q: R)
    requires
        exact_arithmetic::<R, R>(),
        exact_trigonometry::<R>(),
    ensures
        numerator_at(
            notch_coefficients(R::spec_sin(omega), R::spec_cos(omega), one_over_2q),
            R::spec_cos(omega),
            R::spec_sin(omega),
        ) == (R::spec_zero(), R::spec_zero()),
{
    lemma_exact_parts::<R, R>();
    let s = R::spec_sin(omega);
    let c = R::spec_cos(omega);
    assert(R::spec_plus(R::spec_scaled(s, s), R::spec_scaled(c, c)) == R::spec_one());
    lemma_minus_and_assoc(R::spec_scaled(s, s), R::spec_scaled(c, c), R::spec_zero());
    lemma_notch_zero_at_its_frequency(s, c, one_over_2q, s);
}

/// The relations that a biquad low-pass design satisfies (RBJ's cookbook
/// design, normalised by `a0 = 1 + alpha`, `alpha = sin * one_over_2q`):
/// the numerator is symmetric with `b0` half of `b1`,
/// `b1 * a0 == 1 - cos`, `a1 * a0 == -(2 * cos)` and `a2 * a0 == 1 - alpha`.
pub open spec fn is_low_pass_design<R: Scalar>(
    c: BiquadFilterCoefficients<R>,
    sin_omega: R,
    cos_omega: R,
    one_over_2q: R,
) -> bool {
    let one = R::spec_one();
    let two = R::spec_plus(one, one);
    let alpha = R::spec_scaled(sin_omega, one_over_2q);
    let a0 = R::spec_plus(one, alpha);
    &&& c.b0 == c.b2
    &&& R::spec_plus(c.b0, c.b0) == c.b1
    &&& R::spec_scaled(c.b1, a0) == R::spec_minus(one, cos_omega)
    &&& R::spec_scaled(c.a1, a0) == R::spec_negated(R::spec_scaled(two, cos_omega))
    &&& R::spec_scaled(c.a2, a0) == R::spec_minus(one, alpha)
}

/// The relations that a biquad notch design satisfies (RBJ's cookbook
/// design, normalised by `a0 = 1 + alpha`): `b0 == b2`, `a1 == b1`,
/// `b0 * a0 == 1`, `b1 * a0 == -(2 * cos)` and `a2 * a0 == 1 - alpha`.
pub open spec fn is_notch_design<R: Scalar>(
    c: BiquadFilterCoefficients<R>,
    sin_omega: R,
    cos_omega: R,
    one_over_2q: R,
) -> bool {
    let one = R::spec_one();
    let two = R::spec_plus(one, one);
    let alpha = R::spec_scaled(sin_omega, one_over_2q);
    let a0 = R::spec_plus(one, alpha);
    &&& c.b0 == c.b2
    &&& c.a1 == c.b1
    &&& R::spec_scaled(c.b0, a0) == one
    &&& R::spec_scaled(c.b1, a0) == R::spec_negated(R::spec_scaled(two, cos_omega))
    &&& R::spec_scaled(c.a2, a0) == R::spec_minus(one, alpha)
}

/// `x * (1 / a0) * a0 == x` for `a0` not zero.
proof fn lemma_times_reciprocal<R: Scalar>(x: R, a0: R)
    requires
        exact_arithmetic::<R, R>(),
        a0 != R::spec_zero(),
    ensures
        R::spec_scaled(R::spec_scaled(x, R::spec_divided(R::spec_one(), a0)), a0) == x,
{
    let one = R::spec_one();
    lemma_scaled_quotient::<R, R>(one, a0);
    lemma_scaled_twice::<R, R>(x, R::spec_divided(one, a0), a0);
    lemma_scaled_twice::<R, R>(x, one, one);
}

/// The low-pass coefficients are the low-pass design, in exact arithmetic
/// where `1 + alpha` and `2` are not zero.
pub proof fn lemma_low_pass_design<R: Scalar>(sin_omega: R, cos_omega: R, one_over_2q: R)
    requires
        exact_arithmetic::<R, R>(),
        R::spec_plus(R::spec_one(), alpha_of(sin_omega, one_over_2q)) != R::spec_zero(),
        R::spec_plus(R::spec_one(), R::spec_one()) != R::spec_zero(),
    ensures
        is_low_pass_design(low_pass_coefficients(sin_omega, cos_omega, one_over_2q), sin_omega, cos_omega, one_over_2q),
{
    lemma_exact_parts::<R, R>();
    let one = R::spec_one();
    let two = R::spec_plus(one, one);
    let alpha = alpha_of(sin_omega, one_over_2q);
    let a0 = R::spec_plus(one, alpha);
    let c = low_pass_coefficients(sin_omega, cos_omega, one_over_2q);
    let b1 = c.b1;
    let h = R::spec_divided(one, two);
    // b0 + b0 == b1 * (h + h) == b1
    lemma_scaled_quotient::<R, R>(one, two);
    lemma_scaled_by_sum::<R, R>(h, one, one);
    lemma_scaled_twice::<R, R>(h, one, one);
    lemma_scaled_by_sum::<R, R>(b1, h, h);
    lemma_scaled_twice::<R, R>(b1, one, one);
    // times a0
    lemma_times_reciprocal(R::spec_minus(one, cos_omega), a0);
    lemma_times_reciprocal(R::spec_scaled(R::spec_negated(two), cos_omega), a0);
    lemma_times_reciprocal(R::spec_minus(one, alpha), a0);
    lemma_scaled_negated::<R, R>(two, cos_omega);
}

/// The notch coefficients are the notch design, in exact arithmetic where
/// `1 + alpha` is not zero.
pub proof fn lemma_notch_design<R: Scalar>(sin_omega: R, cos_omega: R, one_over_2q: R)
    requires
        exact_arithmetic::<R, R>(),
        R::spec_plus(R::spec_one(), alpha_of(sin_omega, one_over_2q)) != R::spec_zero(),
    ensures
        is_notch_design(notch_coefficients(sin_omega, cos_omega, one_over_2q), sin_omega, cos_omega, one_over_2q),
{
    lemma_exact_parts::<R, R>();
    let one = R::spec_one();
    let two = R::spec_plus(one, one);
    let alpha = alpha_of(sin_omega, one_over_2q);
    let a0 = R::spec_plus(one, alpha);
    let a0r = a0_reciprocal_of(alpha);
    let x = R::spec_scaled(R::spec_scaled(two, cos_omega), a0r);
    lemma_scaled_quotient::<R, R>(one, a0);
    lemma_times_reciprocal(R::spec_scaled(two, cos_omega), a0);
    lemma_times_reciprocal(R::spec_minus(one, alpha), a0);
    lemma_zero_minus(x);
    lemma_scaled_negated::<R, R>(x, a0);
}

} // verus!
