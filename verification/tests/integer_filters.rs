//! The filters over `i32`, whose arithmetic the library models exactly.

use signal_filters::{
    BiquadFilter, BiquadFilterCoefficients, LimitSlew, Mean, Median3FilterTF, MedianFilter,
    MovingAverageFilter, Pt1Filter, Pt2Filter, Pt3Filter, Scale, SignalFilter, SlewRateLimiter,
    UpdateFilter,
};

#[test]
fn integer_pt_filters_pass_through_with_gain_one() {
    let mut pt1 = Pt1Filter::<i32, i32>::new();
    let mut pt2 = Pt2Filter::<i32, i32>::new();
    let mut pt3 = Pt3Filter::<i32, i32>::new();
    for x in [5, -17, 1000, 0, 3] {
        assert_eq!(x, pt1.update(x));
        assert_eq!(x, pt2.update(x));
        assert_eq!(x, pt3.update(x));
    }
    assert_eq!(3, pt1.state());
    assert_eq!([3, 3], pt2.state());
    assert_eq!([3, 3, 3], pt3.state());
}

#[test]
fn integer_pt_filter_with_gain_zero_holds() {
    let mut filter = Pt1Filter::<i32, i32>::with_state_and_k(42, 0);
    assert_eq!(42, filter.update(7));
    assert_eq!(42, filter.update(-7));
    filter.reset();
    assert_eq!(0, filter.update(9));
    filter.reset_to_value(11);
    assert_eq!(11, filter.state());
}

#[test]
fn integer_pt_filter_gain_two_overshoots() {
    // state + 2 * (input - state)
    let mut filter = Pt1Filter::<i32, i32>::with_k(2);
    assert_eq!(10, filter.update(5));
    assert_eq!(0, filter.update(5));
}

#[test]
fn integer_set_k_safe_clamps_to_unit_interval() {
    let mut filter = Pt2Filter::<i32, i32>::new();
    filter.set_k_safe(-3);
    assert_eq!(0, filter.k());
    filter.set_k_safe(7);
    assert_eq!(1, filter.k());
    filter.set_k_safe(0);
    assert_eq!(0, filter.k());
}

#[test]
fn integer_pt3_reset_to_value_sets_every_stage() {
    let mut filter = Pt3Filter::<i32, i32>::with_state_and_k([1, 2, 3], 1);
    filter.reset_to_value(9);
    assert_eq!([9, 9, 9], filter.state());
    assert_eq!(1, filter.k());
    assert_eq!(9, filter.update(9));
    let mut slow = Pt3Filter::<i32, i32>::with_state_and_k([1, 2, 3], 0);
    slow.reset_to_value(-4);
    assert_eq!(-4, slow.update(100));
}

#[test]
fn integer_moving_average_rounds_towards_zero() {
    let mut filter = MovingAverageFilter::<i32, 3>::new();
    assert_eq!(1, filter.update(1));
    assert_eq!(1, filter.update(2)); // 3 / 2
    assert_eq!(2, filter.update(3));
    assert_eq!(3, filter.update(4)); // window 2, 3, 4
    assert_eq!(4, filter.update(5));
    filter.reset();
    assert_eq!(-1, filter.update(-1));
    assert_eq!(-1, filter.update(-2)); // -3 / 2 rounds towards zero
    assert_eq!(-2, filter.update(-3));
    assert_eq!(-3, filter.update(-4)); // window -2, -3, -4
}

#[test]
fn integer_mean_and_division_round_towards_zero() {
    assert_eq!(-3, <i32 as Mean>::mean(-7, 2));
    assert_eq!(3, <i32 as Mean>::mean(7, 2));
    assert_eq!(0, <i32 as Mean>::mean(i32::MIN, usize::MAX));
    assert_eq!(-3, 7.divided(-2));
    assert_eq!(-3, (-7).divided(2));
    assert_eq!(3, (-7).divided(-2));
    assert_eq!(-12, 5.mul_add(-3, 3));
}

#[test]
fn integer_median3_rejects_a_spike() {
    let mut filter = <Median3FilterTF<i32, i32>>::new();
    assert_eq!(10, filter.apply(10));
    assert_eq!(20, filter.apply(20));
    assert_eq!(20, filter.apply(30));
    assert_eq!(30, filter.apply(400));
    assert_eq!(30, filter.apply(25));
    assert_eq!(25, filter.apply(22));
}

#[test]
fn integer_median_filter_sorts_the_window() {
    let mut filter = MedianFilter::<i32, 4>::new();
    assert_eq!(0, filter.apply(5));
    assert_eq!(5, filter.apply(9));
    assert_eq!(5, filter.apply(1));
    // window [5, 9, 1, 7] sorted [1, 5, 7, 9]: element 2
    assert_eq!(7, filter.apply(7));
    // window [-4, 9, 1, 7] sorted [-4, 1, 7, 9]
    assert_eq!(7, filter.apply(-4));
}

#[test]
fn integer_slew_limits_each_step() {
    let mut limiter = SlewRateLimiter::<i32>::new(3, 5, 1);
    assert_eq!(3, limiter.update(10));
    assert_eq!(6, limiter.update(10));
    assert_eq!(1, limiter.update(0));
    assert_eq!(2, limiter.update(2));
    let mut value = -20;
    value.limit_slew_using(&mut limiter);
    assert_eq!(-3, value);
    limiter.reset();
    assert_eq!(3, limiter.update(100));
}

#[test]
fn integer_default_biquad_passes_through() {
    let mut filter = BiquadFilter::<i32, i32>::new();
    for x in [3, -8, 12, 0] {
        assert_eq!(x, filter.update(x));
    }
    let state = filter.state();
    assert_eq!(0, state.x1);
    assert_eq!(12, state.x2);
    assert_eq!(0, state.y1);
    assert_eq!(12, state.y2);
    filter.reset();
    let state = filter.state();
    assert_eq!((0, 0, 0, 0), (state.x1, state.x2, state.y1, state.y2));
}

#[test]
fn integer_biquad_difference_equation() {
    let coeffs = BiquadFilterCoefficients { a1: 2, a2: 3, b0: 5, b1: 7, b2: 11 };
    let mut filter = BiquadFilter::<i32, i32>::with_coefficients(coeffs);
    // y = 5 * 1
    assert_eq!(5, filter.update(1));
    // y = 5 * 2 + 7 * 1 - 2 * 5
    assert_eq!(7, filter.update(2));
    // y = 5 * 0 + 7 * 2 + 11 * 1 - 2 * 7 - 3 * 5
    assert_eq!(-4, filter.update(0));
    filter.set_weight(0);
    assert_eq!(0, filter.weight());
    // a weight of zero gives the input back
    assert_eq!(6, filter.update_weighted(6));
    filter.set_to_passthrough();
    assert_eq!(1, filter.weight());
    assert_eq!(9, filter.update_weighted(9));
}

#[test]
fn integer_biquad_notch_form_matches_general_form() {
    // notch coefficients: b0 == b2 and a1 == b1
    let coeffs = BiquadFilterCoefficients { a1: 1, a2: 0, b0: 1, b1: 1, b2: 1 };
    let mut general = BiquadFilter::<i32, i32>::with_coefficients(coeffs);
    assert_eq!(1, general.update(1));
    let mut notch = general;
    assert_eq!(0, general.update(0));
    assert_eq!(0, notch.update_notch(0));
    assert_eq!(general.state(), notch.state());
    let coeffs = BiquadFilterCoefficients { a1: -3, a2: 2, b0: 4, b1: -3, b2: 4 };
    let mut general = BiquadFilter::<i32, i32>::with_coefficients(coeffs);
    let mut notch = general;
    for x in [4, -2, 7, 0, 1] {
        assert_eq!(general.update(x), notch.update_notch(x));
    }
    assert_eq!(general.state(), notch.state());
}

#[test]
fn integer_biquad_reset_to_value_is_steady() {
    // gain at zero frequency: (2 + 2 + 2) / (1 + 1 + 1) == 2
    let coeffs = BiquadFilterCoefficients { a1: 1, a2: 1, b0: 2, b1: 2, b2: 2 };
    let mut filter = BiquadFilter::<i32, i32>::with_coefficients(coeffs);
    filter.set_weight(5);
    filter.reset_to_value(3);
    let s = filter.state();
    assert_eq!((3, 3, 6, 6), (s.x1, s.x2, s.y1, s.y2));
    assert_eq!(5, filter.weight());
    assert_eq!(6, filter.update(3));
    assert_eq!(6, filter.update(3));
    let s = filter.state();
    assert_eq!((3, 3, 6, 6), (s.x1, s.x2, s.y1, s.y2));
}

#[test]
fn integer_biquad_q_and_parameters() {
    let mut filter = BiquadFilter::<i32, i32>::new();
    assert_eq!(1, filter.q());
    filter.set_q(3);
    assert_eq!(3, filter.q());
    // q = 5 * 4 / (25 - 16)
    assert_eq!(2, BiquadFilter::<i32, i32>::calculate_q(5, 4));
    filter.set_q_from_frequencies(5, 4);
    assert_eq!(2, filter.q());
    let mut other = BiquadFilter::<i32, i32>::new();
    other.set_coefficients_and_weight(BiquadFilterCoefficients { a1: 0, a2: 0, b0: 2, b1: 0, b2: 0 }, 1);
    filter.set_parameters_from(&other);
    assert_eq!(6, filter.update(3));
    assert_eq!(0, filter.loop_time_seconds());
    assert_eq!(0, filter.calculate_omega(50));
}

#[test]
fn integer_filter_using_is_update() {
    let mut a = Pt1Filter::<i32, i32>::with_k(1);
    let mut b = Pt1Filter::<i32, i32>::with_k(1);
    assert_eq!(a.update(8), 8.filter_using(&mut b));
    assert_eq!(a, b);
}

#[test]
fn integer_median3_follows_the_last_three_inputs() {
    let inputs = [7, -3, 12, 12, -40, 5, 6, 6, 100];
    let mut filter = <Median3FilterTF<i32, i32>>::new();
    for (n, &x) in inputs.iter().enumerate() {
        let out = filter.apply(x);
        if n < 2 {
            assert_eq!(x, out);
        } else {
            let mut last = [inputs[n - 2], inputs[n - 1], inputs[n]];
            last.sort();
            assert_eq!(last[1], out);
        }
    }
    filter.reset();
    assert_eq!(-9, filter.apply(-9));
    assert_eq!(4, filter.apply(4));
    assert_eq!(4, filter.apply(50));
}

#[test]
fn integer_median_filter_is_middle_of_padded_recent_inputs() {
    let inputs = [1, 5, 3, -2, 8, 8, 0, 4];
    let mut filter = MedianFilter::<i32, 3>::new();
    for n in 0..inputs.len() {
        let out = filter.apply(inputs[n]);
        // the last min(n + 1, 3) inputs after zeros
        let seen = n + 1;
        let mut window = [0; 3];
        let m = seen.min(3);
        window[3 - m..].copy_from_slice(&inputs[seen - m..seen]);
        window.sort();
        assert_eq!(window[1], out);
    }
    let mut f = MedianFilter::<i32, 3>::new();
    assert_eq!(0, f.apply(1));
    assert_eq!(1, f.apply(5));
    assert_eq!(3, f.apply(3));
}

#[test]
fn integer_pt_step_stays_between_state_and_input() {
    for (state, input) in [(3, 10), (10, 3), (-5, -5), (-8, 4)] {
        for k in [0, 1] {
            let mut filter = Pt1Filter::<i32, i32>::with_state_and_k(state, k);
            let y = filter.update(input);
            assert!(state.min(input) <= y && y <= state.max(input));
        }
    }
}

#[test]
fn integer_pt3_gain_one_fills_every_stage() {
    let mut filter = Pt3Filter::<i32, i32>::with_state_and_k([4, -6, 9], 1);
    assert_eq!(-2, filter.update(-2));
    assert_eq!([-2, -2, -2], filter.state());
}

#[test]
fn integer_slew_stays_within_steps() {
    let mut limiter = SlewRateLimiter::<i32>::new(4, 1, 1);
    let mut last = 0;
    for input in [-30, -10, -1, 0, 2, 7, 9, 40, 41, 39, 38, 38] {
        let out = limiter.update(input);
        assert!(last - 1 <= out && out <= last + 4);
        if last - 1 <= input && input <= last + 4 {
            assert_eq!(input, out);
        }
        last = out;
    }
}

#[test]
fn integer_moving_average_sum_is_window_sum() {
    let inputs = [4, -7, 10, 3, 3, -20, 8];
    let mut filter = MovingAverageFilter::<i32, 3>::new();
    for n in 0..inputs.len() {
        let out = filter.update(inputs[n]);
        let m = (n + 1).min(3);
        let window = &inputs[n + 1 - m..=n];
        let sum: i32 = window.iter().sum();
        assert_eq!(sum / m as i32, out);
    }
}
