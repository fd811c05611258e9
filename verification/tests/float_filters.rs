//! The filters over `f32`, run through a thin `f32` wrapper that gives the
//! library's arithmetic traits the semantics of plain `f32` operations.
#![allow(clippy::float_cmp)]

use signal_filters::{
    Additive, BiquadFilter, BiquadFilterCoefficients, ConstHalf, LimitSlew, MathConstants, Mean,
    Median3Filter, Median3FilterTF, MedianFilter, MovingAverageFilter, One, Ordered, Pt1Filter,
    Pt2Filter, Pt3Filter, Scale, SignalFilter, SlewRateLimiter, TrigonometricMethods, UpdateFilter,
    Zero,
};

#[derive(Clone, Copy, Debug, Default, PartialEq)]
struct F32(f32);

impl Zero for F32 {
    fn zero() -> F32 {
        F32(0.0)
    }
}

impl Additive for F32 {
    fn plus(self, rhs: F32) -> F32 {
        F32(self.0 + rhs.0)
    }
    fn minus(self, rhs: F32) -> F32 {
        F32(self.0 - rhs.0)
    }
    fn negated(self) -> F32 {
        F32(-self.0)
    }
}

impl Scale<F32> for F32 {
    fn scaled(self, k: F32) -> F32 {
        F32(self.0 * k.0)
    }
    fn mul_add(self, k: F32, b: F32) -> F32 {
        F32(self.0.mul_add(k.0, b.0))
    }
    fn divided(self, k: F32) -> F32 {
        F32(self.0 / k.0)
    }
}

impl Ordered for F32 {
    fn less_than(self, other: F32) -> bool {
        self.0 < other.0
    }
    fn at_most(self, other: F32) -> bool {
        self.0 <= other.0
    }
}

impl One for F32 {
    fn one() -> F32 {
        F32(1.0)
    }
}

impl ConstHalf for F32 {
    fn half() -> F32 {
        F32(0.5)
    }
}

impl MathConstants for F32 {
    fn pi() -> F32 {
        F32(core::f32::consts::PI)
    }
    fn pt2_cutoff_correction() -> F32 {
        F32(1.553_774)
    }
    fn pt3_cutoff_correction() -> F32 {
        F32(1.961_459_2)
    }
}

impl TrigonometricMethods for F32 {
    fn sin_cos(self) -> (F32, F32) {
        let (s, c) = self.0.sin_cos();
        (F32(s), F32(c))
    }
}

impl Mean for F32 {
    fn mean(sum: F32, count: usize) -> F32 {
        F32(sum.0 * (1.0 / count as f32))
    }
}

type Pt1Filterf32 = Pt1Filter<F32, F32>;
type Pt2Filterf32 = Pt2Filter<F32, F32>;
type Pt3Filterf32 = Pt3Filter<F32, F32>;
type BiquadFilterf32 = BiquadFilter<F32, F32>;
type SlewRateLimiterf32 = SlewRateLimiter<F32>;

fn is_normal<T: Sized + Send + Sync + Unpin>() {}
fn is_full<T: Sized + Send + Sync + Unpin + Copy + Clone + Default + PartialEq>() {}

// ---- filters ----

#[test]
fn filters_normal_types() {}

#[test]
fn default() {}

#[test]
fn filter_using_is_update() {
    let mut a = Pt1Filterf32::with_k(F32(0.5));
    let mut b = Pt1Filterf32::with_k(F32(0.5));
    for x in [1.0, -3.0, 7.5, 0.25] {
        assert_eq!(a.update(F32(x)), F32(x).filter_using(&mut b));
    }
    assert_eq!(a, b);
}

// ---- median ----

#[test]
fn median_filter_normal_types() {
    is_full::<Median3Filter<F32>>();
    is_full::<MedianFilter<F32, 5>>();
}

#[test]
fn test_median3_spike_rejection() {
    let mut filter = <Median3FilterTF<F32, F32>>::new();

    // Values: [10.0, 0.0, 0.0] -> Count 1 -> Returns 10.0
    let input = F32(10.0f32);
    let output = filter.apply(input);
    assert_eq!(input, output);
}

#[test]
fn median3_rejects_spikes_once_full() {
    let mut filter = <Median3FilterTF<F32, F32>>::new();
    assert_eq!(F32(10.0), filter.apply(F32(10.0)));
    assert_eq!(F32(20.0), filter.apply(F32(20.0)));
    // the window is full: [10, 20, 30]
    assert_eq!(F32(20.0), filter.apply(F32(30.0)));
    // [400, 20, 30]: the spike is ignored
    assert_eq!(F32(30.0), filter.apply(F32(400.0)));
    // [400, 25, 30]
    assert_eq!(F32(30.0), filter.apply(F32(25.0)));
    // [400, 25, 22]
    assert_eq!(F32(25.0), filter.apply(F32(22.0)));

    filter.reset();
    assert_eq!(F32(5.0), filter.apply(F32(5.0)));
}

#[test]
fn median_filter_takes_middle_of_window() {
    let mut filter = MedianFilter::<F32, 5>::new();
    // the window starts as zeros
    assert_eq!(F32(0.0), filter.apply(F32(9.0)));
    assert_eq!(F32(0.0), filter.apply(F32(8.0)));
    assert_eq!(F32(7.0), filter.apply(F32(7.0)));
    // window [9, 8, 7, 100, 0]
    assert_eq!(F32(8.0), filter.apply(F32(100.0)));
    // window [9, 8, 7, 100, 1]
    assert_eq!(F32(8.0), filter.apply(F32(1.0)));
    // window [2, 8, 7, 100, 1]
    assert_eq!(F32(7.0), filter.apply(F32(2.0)));
    filter.reset();
    assert_eq!(F32(0.0), filter.apply(F32(3.0)));
}

// ---- moving average ----

#[test]
fn moving_average_filter_normal_types() {
    is_full::<MovingAverageFilter<F32, 2>>();
}

#[test]
fn moving_average_filter_f32() {
    let mut filter = MovingAverageFilter::<F32, 3>::new();
    assert_eq!(F32(1.0), filter.update(F32(1.0)));
    assert_eq!(F32(1.5), filter.update(F32(2.0)));
    assert_eq!(F32(2.0), filter.update(F32(3.0)));
    assert_eq!(F32(3.0), filter.update(F32(4.0)));
    assert_eq!(F32(4.0), filter.update(F32(5.0)));
    assert_eq!(F32(5.0), filter.update(F32(6.0)));
    assert_eq!(F32(7.0), filter.update(F32(10.0)));

    filter.reset();
    assert_eq!(F32(4.0), filter.update(F32(4.0)));
    assert_eq!(F32(12.0), filter.update(F32(20.0)));
    assert_eq!(F32(5.0), filter.update(F32(-9.0)));
}

// ---- slew rate limiter ----

#[test]
fn slew_filter_normal_types() {
    is_full::<SlewRateLimiter<F32>>();
    is_normal::<SlewRateLimiter<F32>>();
}

#[test]
fn slew_filter_biquad_filter_f32() {}

#[test]
fn slew_rate_asymmetric() {
    // Rise: 10.0 units/sec, Fall: 100.0 units/sec (fast stop)
    let dt = F32(0.1);
    let rise_rate_per_second = F32(10.0);
    let fall_rate_per_second = F32(100.0);
    let mut limiter = SlewRateLimiterf32::new(rise_rate_per_second, fall_rate_per_second, dt);

    // max rise per step = 10.0 * 0.1 = 1.0 unit
    assert_eq!(F32(1.0), limiter.update(F32(10.0)));
    // next step: 1.0 + 1.0 = 2.0
    assert_eq!(F32(2.0), limiter.update(F32(10.0)));

    // max fall per step = 100.0 * 0.1 = 10.0 units: 2.0 to 0.0 in a single step
    assert_eq!(F32(0.0), limiter.update(F32(0.0)));
}

#[test]
fn slew_reset() {
    let dt = F32(0.1);
    let rise_rate_per_second = F32(4.0);
    let fall_rate_per_second = F32(50.0);
    let mut limiter = SlewRateLimiterf32::new(rise_rate_per_second, fall_rate_per_second, dt);

    let input = F32(100.0);
    let output = limiter.update(input);
    assert_eq!(F32(0.4), output);

    let input = F32(100.0);
    let output = limiter.update(input);
    assert_eq!(F32(0.8), output);

    // after reset, last_output is 0.0
    limiter.reset();
    let input = F32(100.0);
    let output = limiter.update(input);
    assert_eq!(F32(0.4), output);
}

#[test]
fn slew_clamping() {
    let dt = F32(0.1);
    let rise_rate_per_second = F32(4.0);
    let fall_rate_per_second = F32(50.0);
    let mut limiter = SlewRateLimiterf32::new(rise_rate_per_second, fall_rate_per_second, dt);

    let input = F32(100.0);
    let output = limiter.update(input);
    assert_eq!(F32(0.4), output);

    let input = F32(100.0);
    let output = limiter.update(input);
    assert_eq!(F32(0.8), output);

    let input = F32(1.1);
    let output = limiter.update(input);
    assert_eq!(F32(1.1), output);
}

#[test]
fn extended_trait() {
    let dt = F32(0.1);
    let rise_rate_per_second = F32(4.0);
    let fall_rate_per_second = F32(50.0);
    let mut limiter = SlewRateLimiterf32::new(rise_rate_per_second, fall_rate_per_second, dt);

    let mut value = F32(100.0);
    value.limit_slew_using(&mut limiter);
    assert_eq!(F32(0.4), value);
    value = F32(100.0);
    value.limit_slew_using(&mut limiter);
    assert_eq!(F32(0.8), value);

    value = F32(1.1);
    value.limit_slew_using(&mut limiter);
    assert_eq!(F32(1.1), value);
}

#[test]
fn output_array() {
    const MAX_MOTOR_COUNT: usize = 8;
    type MotorOutputs = [F32; MAX_MOTOR_COUNT];
    const QUAD_MOTOR_COUNT: usize = 4;
    type QuadOutputs = [F32; QUAD_MOTOR_COUNT];

    let mut motor_outputs = MotorOutputs::default();

    let quad_outputs = QuadOutputs::default();

    let mut output_filters = <[SlewRateLimiterf32; QUAD_MOTOR_COUNT]>::default();

    for ii in 0..QUAD_MOTOR_COUNT {
        motor_outputs[ii] = output_filters[ii].update(quad_outputs[ii]);
    }
    assert_eq!(MotorOutputs::default(), motor_outputs);
}

// ---- PT filters ----

#[test]
fn pt_filters_normal_types() {
    is_full::<Pt1Filter<F32, F32>>();
    is_full::<Pt1Filterf32>();
    is_full::<Pt2Filter<F32, F32>>();
    is_full::<Pt2Filterf32>();
    is_full::<Pt3Filter<F32, F32>>();
    is_full::<Pt3Filterf32>();
}

#[test]
fn pt1_filter_f32() {
    let mut filter = Pt1Filterf32::new();

    let mut reading = F32(2.7);
    reading = filter.update(reading);
    assert_eq!(F32(2.7), reading);

    // test that filter with default settings performs no filtering
    assert_eq!(F32(1.0), filter.update(F32(1.0)));
    assert_eq!(F32(1.0), filter.update(F32(1.0)));
    assert_eq!(F32(-1.0), filter.update(F32(-1.0)));

    filter.reset();
    assert_eq!(F32(0.0), filter.state());
    assert_eq!(F32(4.0), filter.update(F32(4.0)));

    filter.reset();
    filter.set_cutoff_frequency(F32(100.0), F32(0.001));
    assert_eq!(F32(0.385_869_56), filter.k());
    assert_eq!(F32(0.385_869_56), filter.update(F32(1.0)));
    assert_eq!(F32(1.008_713_4), filter.update(F32(2.0)));

    filter.set_k(F32(1.0));
    assert_eq!(F32(1.0), filter.update(F32(1.0)));
    assert_eq!(F32(2.0), filter.update(F32(2.0)));

    filter.reset();
    filter.set_k(F32(0.5));
    assert_eq!(F32(0.5), filter.update(F32(1.0)));
    assert_eq!(F32(1.25), filter.update(F32(2.0)));

    filter.set_cutoff_frequency(F32(100.0), F32(0.001));
    filter.reset();
    assert_eq!(F32(0.385_869_56), filter.update(F32(1.0)));
    assert_eq!(F32(1.008_713_4), filter.update(F32(2.0)));

    filter.set_to_passthrough();
    assert_eq!(F32(1.0), filter.update(F32(1.0)));
    assert_eq!(F32(2.0), filter.update(F32(2.0)));
}

#[test]
fn pt1_filter_f32_method_call() {
    let mut filter = Pt1Filterf32::with_k(F32(0.2));
    assert_eq!(F32(0.2), filter.update(F32(1.0)));
    assert_eq!(F32(0.2), filter.update(F32(0.2)));

    filter.reset();
    let value = F32(1.0);
    let value = value.filter_using(&mut filter);
    assert_eq!(F32(0.2), value);
    let value = value.filter_using(&mut filter);
    assert_eq!(F32(0.2), value);
}

#[test]
fn pt2_filter_f32() {
    let mut filter = Pt2Filterf32::with_k(F32(1.0));

    // test that filter with default settings performs no filtering
    assert_eq!(F32(1.0), filter.update(F32(1.0)));
    assert_eq!(F32(1.0), filter.update(F32(1.0)));
    assert_eq!(F32(-1.0), filter.update(F32(-1.0)));

    filter.reset();
    assert_eq!(F32(4.0), filter.update(F32(4.0)));

    filter.reset();
    filter.set_cutoff_frequency(F32(100.0), F32(0.001));
    assert_eq!(F32(0.244_031_07), filter.update(F32(1.0)));
    assert_eq!(F32(0.735_024_03), filter.update(F32(2.0)));

    filter.set_k(F32(1.0));
    assert_eq!(F32(1.0), filter.update(F32(1.0)));
    assert_eq!(F32(2.0), filter.update(F32(2.0)));

    filter.set_cutoff_frequency(F32(100.0), F32(0.001));
    filter.reset();
    assert_eq!(F32(0.244_031_07), filter.update(F32(1.0)));
    assert_eq!(F32(0.735_024_03), filter.update(F32(2.0)));

    filter.set_to_passthrough();
    assert_eq!(F32(1.0), filter.update(F32(1.0)));
    assert_eq!(F32(2.0), filter.update(F32(2.0)));
}

#[test]
fn pt2_filter_f32_method_call() {
    let mut filter = Pt2Filterf32::with_k(F32(0.2));
    assert_eq!(F32(0.040_000_003), filter.update(F32(1.0)));
    assert_eq!(F32(0.0656), filter.update(F32(0.040_000_003)));

    filter.reset();
    let value = F32(1.0);
    let value = value.filter_using(&mut filter);
    assert_eq!(F32(0.040_000_003), value);
    let value = value.filter_using(&mut filter);
    assert_eq!(F32(0.0656), value);
}

#[test]
fn pt3_filter_f32() {
    let mut filter = Pt3Filterf32::with_k(F32(1.0));

    let mut state = filter.state();
    assert_eq!([F32(0.0), F32(0.0), F32(0.0)], state);

    // test that filter with default settings performs no filtering
    let mut output = filter.update(F32(1.0));
    assert_eq!(F32(1.0), output);
    state = filter.state();
    assert_eq!([F32(1.0), F32(1.0), F32(1.0)], state);

    output = filter.update(F32(1.0));
    state = filter.state();
    assert_eq!([F32(1.0), F32(1.0), F32(1.0)], state);
    assert_eq!(F32(1.0), output);

    assert_eq!(F32(-1.0), filter.update(F32(-1.0)));

    filter.reset();
    assert_eq!(F32(4.0), filter.update(F32(4.0)));

    filter.reset();
    filter.set_cutoff_frequency(F32(100.0), F32(0.001));
    assert_eq!(F32(0.168_247_66), filter.update(F32(1.0)));
    assert_eq!(F32(0.562_591_97), filter.update(F32(2.0)));

    filter.set_k(F32(1.0));
    assert_eq!(F32(1.0), filter.update(F32(1.0)));
    assert_eq!(F32(2.0), filter.update(F32(2.0)));

    filter.set_cutoff_frequency(F32(100.0), F32(0.001));
    filter.reset();
    assert_eq!(F32(0.168_247_66), filter.update(F32(1.0)));
    assert_eq!(F32(0.562_591_97), filter.update(F32(2.0)));

    filter.set_to_passthrough();
    assert_eq!(F32(1.0), filter.update(F32(1.0)));
    assert_eq!(F32(2.0), filter.update(F32(2.0)));
}

#[test]
fn pt1_seamless_change_keeps_output() {
    let mut filter = Pt1Filterf32::with_k(F32(0.5));
    filter.update(F32(1.0));
    let last_input = F32(2.0);
    let mut before = filter;
    let expected = before.update(last_input);
    filter.set_cutoff_frequency_seamless(F32(100.0), F32(0.001), last_input);
    assert_eq!(F32(0.385_869_56), filter.k());
    let after = filter.update(last_input);
    assert!((after.0 - expected.0).abs() < 1.0e-6);
}

#[test]
fn pt_set_k_safe_clamps() {
    let mut filter = Pt1Filterf32::new();
    filter.set_k_safe(F32(-0.5));
    assert_eq!(F32(0.0), filter.k());
    filter.set_k_safe(F32(3.0));
    assert_eq!(F32(1.0), filter.k());
    filter.set_k_safe(F32(0.25));
    assert_eq!(F32(0.25), filter.k());
}

#[test]
fn pt_gain_from_delay() {
    assert_eq!(F32(1.0), Pt1Filterf32::gain_from_delay(F32(0.0), F32(0.001)));
    assert_eq!(F32(1.0), Pt1Filterf32::gain_from_delay(F32(-2.0), F32(0.001)));
    // omega = 0.001 / 0.003 = 1/3, gain = (1/3) / (4/3) = 0.25
    assert!((Pt1Filterf32::gain_from_delay(F32(0.003), F32(0.001)).0 - 0.25).abs() < 1.0e-6);
}

// ---- biquad ----

#[test]
fn biquad_filter_normal_types() {
    is_full::<BiquadFilter<F32, F32>>();
    is_full::<BiquadFilterf32>();
}

#[test]
fn biquad_filter_biquad_filter_f32() {
    let mut filter = BiquadFilterf32::default();

    // test that filter with default settings performs no filtering
    assert_eq!(F32(1.0), filter.update(F32(1.0)));
    assert_eq!(F32(1.0), filter.update(F32(1.0)));
    assert_eq!(F32(-1.0), filter.update(F32(-1.0)));

    filter.reset();
    assert_eq!(F32(4.0), filter.update(F32(4.0)));

    filter.set_coefficients_and_weight(
        BiquadFilterCoefficients { a1: F32(2.0), a2: F32(3.0), b0: F32(5.0), b1: F32(7.0), b2: F32(11.0) },
        F32(13.0),
    );
    filter.set_to_passthrough();
    assert_eq!(F32(1.0), filter.update(F32(1.0)));
    assert_eq!(F32(2.0), filter.update(F32(2.0)));
    assert_eq!(F32(1.0), filter.update_weighted(F32(1.0)));
    assert_eq!(F32(2.0), filter.update_weighted(F32(2.0)));
}

#[test]
fn biquad_low_pass_passes_dc() {
    let mut filter = BiquadFilterf32::new();
    filter.init_low_pass(F32(80.0), F32(0.001), F32(0.707));
    assert_eq!(F32(0.001), filter.loop_time_seconds());
    assert_eq!(F32(0.707), filter.q());
    let mut out = F32(0.0);
    for _ in 0..2000 {
        out = filter.update(F32(1.0));
    }
    assert!((out.0 - 1.0).abs() < 1.0e-3);
}

#[test]
fn biquad_notch_blocks_its_frequency() {
    let mut filter = BiquadFilterf32::new();
    filter.init_notch(F32(50.0), F32(0.001), F32(10.0));
    let mut peak: f32 = 0.0;
    for n in 0..4000 {
        let x = (2.0 * core::f32::consts::PI * 50.0 * 0.001 * n as f32).sin();
        let y = filter.update(F32(x));
        if n > 3000 {
            peak = peak.max(y.0.abs());
        }
    }
    assert!(peak < 0.05);
}

#[test]
fn pt_gain_from_frequency_lies_in_unit_range() {
    let mut previous = 0.0;
    for hz in [0.0, 1.0, 10.0, 100.0, 1000.0, 1.0e6] {
        let k = Pt1Filterf32::gain_from_frequency(F32(hz), F32(0.001)).0;
        assert!((0.0..1.0).contains(&k));
        assert!(previous <= k);
        previous = k;
    }
    assert_eq!(F32(0.0), Pt1Filterf32::gain_from_frequency(F32(0.0), F32(0.001)));
}

#[test]
fn biquad_low_pass_blocks_the_nyquist_frequency() {
    let mut filter = BiquadFilterf32::new();
    filter.init_low_pass(F32(80.0), F32(0.001), F32(0.707));
    let mut peak: f32 = 0.0;
    for n in 0..2000 {
        let x = if n % 2 == 0 { 1.0 } else { -1.0 };
        let y = filter.update(F32(x));
        if n > 1500 {
            peak = peak.max(y.0.abs());
        }
    }
    assert!(peak < 1.0e-3);
}

#[test]
fn pt2_seamless_change_uses_the_pt2_gain_and_keeps_stage_outputs() {
    let mut filter = Pt2Filterf32::with_k(F32(0.5));
    filter.update(F32(1.0));
    filter.update(F32(3.0));
    let x = 2.0;
    let [y, w] = filter.state().map(|v| v.0);
    let k = filter.k().0;
    filter.set_cutoff_frequency_seamless(F32(100.0), F32(0.001), F32(x));
    let g = filter.k().0;
    assert_eq!(Pt2Filterf32::gain_from_frequency(F32(100.0), F32(0.001)).0, g);
    assert_ne!(Pt1Filterf32::gain_from_frequency(F32(100.0), F32(0.001)).0, g);
    let [y2, w2] = filter.state().map(|v| v.0);
    // each stage gives, at the new gain, the output it gave at the old one
    assert!(((w2 + g * (x - w2)) - (w + k * (x - w))).abs() < 1.0e-5);
    assert!(((y2 + g * (w2 - y2)) - (y + k * (w - y))).abs() < 1.0e-5);
}

#[test]
fn constants_obey_their_laws() {
    // half doubled is one
    assert_eq!(F32(1.0), F32::half().scaled(F32(2.0)));
    // the cutoff corrections are at least one and ordered
    let c2 = F32::pt2_cutoff_correction().0;
    let c3 = F32::pt3_cutoff_correction().0;
    assert!(1.0 <= c2 && c2 < c3);
    // sin^2 + cos^2 == 1
    for a in [0.0, 0.3, 1.0, 2.5, -4.0] {
        let (s, c) = F32(a).sin_cos();
        assert!((s.0 * s.0 + c.0 * c.0 - 1.0).abs() < 1.0e-6);
    }
}

#[test]
fn pt_corrected_gains_are_ordered() {
    for hz in [0.0, 5.0, 50.0, 500.0] {
        let k1 = Pt1Filterf32::gain_from_frequency(F32(hz), F32(0.001)).0;
        let k2 = Pt2Filterf32::gain_from_frequency(F32(hz), F32(0.001)).0;
        let k3 = Pt3Filterf32::gain_from_frequency(F32(hz), F32(0.001)).0;
        assert!(k1 <= k2 && k2 <= k3);
    }
}

#[test]
fn pt_gain_grows_with_delta_t_and_vanishes_only_at_zero() {
    let mut previous = -1.0;
    for dt in [0.0, 0.0001, 0.001, 0.01, 0.1] {
        let k = Pt1Filterf32::gain_from_frequency(F32(50.0), F32(dt)).0;
        assert!(previous <= k);
        assert_eq!(dt == 0.0, k == 0.0);
        previous = k;
    }
}

#[test]
fn biquad_new_filter_has_consistent_caches() {
    // the cached 1 / (2 q) of a new filter is that of its q: setting the
    // same q again gives the same coefficients
    let mut fresh = BiquadFilterf32::new();
    fresh.set_loop_time(F32(0.001));
    let mut reset_q = fresh;
    reset_q.set_q(fresh.q());
    fresh.set_low_pass_frequency_weighted_assuming_q(F32(40.0), F32(1.0));
    reset_q.set_low_pass_frequency_weighted_assuming_q(F32(40.0), F32(1.0));
    for x in [1.0, -2.0, 0.5, 3.0] {
        assert_eq!(fresh.update(F32(x)), reset_q.update(F32(x)));
    }
}

#[test]
fn biquad_notch_setter_rejects_its_frequency() {
    let mut filter = BiquadFilterf32::new();
    filter.set_loop_time(F32(0.001));
    filter.set_q(F32(2.0));
    filter.set_notch_frequency_assuming_q(F32(100.0));
    let mut peak: f32 = 0.0;
    for n in 0..4000 {
        let x = (2.0 * core::f32::consts::PI * 100.0 * 0.001 * n as f32).sin();
        let y = filter.update(F32(x));
        if n > 3000 {
            peak = peak.max(y.0.abs());
        }
    }
    assert!(peak < 0.05);
}
