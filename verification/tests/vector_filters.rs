//! The filters over `vqm` vectors, in thin wrappers that give the library's
//! arithmetic traits the semantics of `vqm`'s operators.
#![allow(clippy::float_cmp)]

use num_traits::MulAdd;
use signal_filters::{
    Additive, BiquadFilter, BiquadFilterCoefficients, ConstHalf, MathConstants, Mean,
    MovingAverageFilter, One, Ordered, Pt1Filter, Scale, SignalFilter, TrigonometricMethods,
    UpdateFilter, Zero,
};
use vqm::Vector3;

#[derive(Clone, Copy, Debug, Default, PartialEq)]
struct F32(f32);

impl Zero for F32 {
    fn zero() -> F32 {
        F32(0.0)
    }
}

impl Additive for F32 {
    fn plus(self, rhs: F32) -> F32 {
        F32(self.0 + rhs.0)
    }
    fn minus(self, rhs: F32) -> F32 {
        F32(self.0 - rhs.0)
    }
    fn negated(self) -> F32 {
        F32(-self.0)
    }
}

impl Scale<F32> for F32 {
    fn scaled(self, k: F32) -> F32 {
        F32(self.0 * k.0)
    }
    fn mul_add(self, k: F32, b: F32) -> F32 {
        F32(self.0.mul_add(k.0, b.0))
    }
    fn divided(self, k: F32) -> F32 {
        F32(self.0 / k.0)
    }
}

impl Ordered for F32 {
    fn less_than(self, other: F32) -> bool {
        self.0 < other.0
    }
    fn at_most(self, other: F32) -> bool {
        self.0 <= other.0
    }
}

impl One for F32 {
    fn one() -> F32 {
        F32(1.0)
    }
}

impl ConstHalf for F32 {
    fn half() -> F32 {
        F32(0.5)
    }
}

impl MathConstants for F32 {
    fn pi() -> F32 {
        F32(core::f32::consts::PI)
    }
    fn pt2_cutoff_correction() -> F32 {
        F32(1.553_774)
    }
    fn pt3_cutoff_correction() -> F32 {
        F32(1.961_459_2)
    }
}

impl TrigonometricMethods for F32 {
    fn sin_cos(self) -> (F32, F32) {
        let (s, c) = self.0.sin_cos();
        (F32(s), F32(c))
    }
}

/// A `vqm` vector of `f32` values.
#[derive(Clone, Copy, Debug, Default, PartialEq)]
struct V3(Vector3<f32>);

fn v3(x: f32, y: f32, z: f32) -> V3 {
    V3(Vector3 { x, y, z })
}

impl Zero for V3 {
    fn zero() -> V3 {
        v3(0.0, 0.0, 0.0)
    }
}

impl Additive for V3 {
    fn plus(self, rhs: V3) -> V3 {
        V3(self.0 + rhs.0)
    }
    fn minus(self, rhs: V3) -> V3 {
        V3(self.0 - rhs.0)
    }
    fn negated(self) -> V3 {
        V3(-self.0)
    }
}

impl Scale<F32> for V3 {
    fn scaled(self, k: F32) -> V3 {
        V3(self.0 * k.0)
    }
    fn mul_add(self, k: F32, b: V3) -> V3 {
        V3(MulAdd::mul_add(self.0, k.0, b.0))
    }
    fn divided(self, k: F32) -> V3 {
        V3(self.0 / k.0)
    }
}

impl Mean for V3 {
    fn mean(sum: V3, count: usize) -> V3 {
        V3(sum.0 * (1.0 / count as f32))
    }
}

/// A vector of `i16` values with gains of type `i32`.
#[derive(Clone, Copy, Debug, Default, PartialEq)]
struct Vi16(Vector3<i16>);

impl Zero for Vi16 {
    fn zero() -> Vi16 {
        Vi16(Vector3 { x: 0, y: 0, z: 0 })
    }
}

impl Additive for Vi16 {
    fn plus(self, rhs: Vi16) -> Vi16 {
        Vi16(self.0 + rhs.0)
    }
    fn minus(self, rhs: Vi16) -> Vi16 {
        Vi16(self.0 - rhs.0)
    }
    fn negated(self) -> Vi16 {
        Vi16(-self.0)
    }
}

fn i16_mul_add(a: i16, k: i32, b: i16) -> i16 {
    (a as i32 * k + b as i32) as i16
}

impl Scale<i32> for Vi16 {
    fn scaled(self, k: i32) -> Vi16 {
        self.mul_add(k, Vi16::zero())
    }
    fn mul_add(self, k: i32, b: Vi16) -> Vi16 {
        let (a, b) = (self.0, b.0);
        Vi16(Vector3 { x: i16_mul_add(a.x, k, b.x), y: i16_mul_add(a.y, k, b.y), z: i16_mul_add(a.z, k, b.z) })
    }
    fn divided(self, k: i32) -> Vi16 {
        let a = self.0;
        Vi16(Vector3 { x: (a.x as i32 / k) as i16, y: (a.y as i32 / k) as i16, z: (a.z as i32 / k) as i16 })
    }
}

fn i16_mul_add_f32(a: i16, k: f32, b: i16) -> i16 {
    (a as f32 * k + b as f32) as i16
}

impl Scale<F32> for Vi16 {
    fn scaled(self, k: F32) -> Vi16 {
        Scale::<F32>::mul_add(self, k, Vi16::zero())
    }
    fn mul_add(self, k: F32, b: Vi16) -> Vi16 {
        let (a, b, k) = (self.0, b.0, k.0);
        Vi16(Vector3 {
            x: i16_mul_add_f32(a.x, k, b.x),
            y: i16_mul_add_f32(a.y, k, b.y),
            z: i16_mul_add_f32(a.z, k, b.z),
        })
    }
    fn divided(self, k: F32) -> Vi16 {
        let (a, k) = (self.0, k.0);
        Vi16(Vector3 { x: (a.x as f32 / k) as i16, y: (a.y as f32 / k) as i16, z: (a.z as f32 / k) as i16 })
    }
}

/// A `vqm` vector of `i32` values.
#[derive(Clone, Copy, Debug, Default, PartialEq)]
struct Vi32(Vector3<i32>);

impl Zero for Vi32 {
    fn zero() -> Vi32 {
        Vi32(Vector3 { x: 0, y: 0, z: 0 })
    }
}

impl Additive for Vi32 {
    fn plus(self, rhs: Vi32) -> Vi32 {
        Vi32(self.0 + rhs.0)
    }
    fn minus(self, rhs: Vi32) -> Vi32 {
        Vi32(self.0 - rhs.0)
    }
    fn negated(self) -> Vi32 {
        Vi32(-self.0)
    }
}

impl Scale<i32> for Vi32 {
    fn scaled(self, k: i32) -> Vi32 {
        Vi32(self.0 * k)
    }
    fn mul_add(self, k: i32, b: Vi32) -> Vi32 {
        let (a, b) = (self.0, b.0);
        Vi32(Vector3 { x: a.x * k + b.x, y: a.y * k + b.y, z: a.z * k + b.z })
    }
    fn divided(self, k: i32) -> Vi32 {
        let a = self.0;
        Vi32(Vector3 { x: a.x / k, y: a.y / k, z: a.z / k })
    }
}

type Pt1FilterVector3df32 = Pt1Filter<V3, F32>;
type BiquadFilterVector3df32 = BiquadFilter<V3, F32>;

#[test]
fn biquad_filter_vector3df32() {
    let mut filter = BiquadFilterVector3df32::default();

    // test that filter with default settings performs no filtering
    let output = filter.update(v3(2.0, 3.0, 5.0));
    assert_eq!(v3(2.0, 3.0, 5.0), output);
    let mut state = filter.state();
    assert_eq!(2.0, state.x1.0.x);
    assert_eq!(0.0, state.x2.0.x);
    assert_eq!(2.0, state.y1.0.x);
    assert_eq!(0.0, state.y2.0.x);

    filter.reset();
    state = filter.state();
    assert_eq!(0.0, state.x1.0.x);
    assert_eq!(0.0, state.x2.0.x);
    assert_eq!(0.0, state.y1.0.x);
    assert_eq!(0.0, state.y2.0.x);
    assert_eq!(4.0, filter.update(v3(4.0, 0.0, 0.0)).0.x);

    filter.set_coefficients_and_weight(
        BiquadFilterCoefficients { a1: F32(2.0), a2: F32(3.0), b0: F32(5.0), b1: F32(7.0), b2: F32(11.0) },
        F32(13.0),
    );
    filter.set_to_passthrough();
    assert_eq!(1.0, filter.update(v3(1.0, 0.0, 0.0)).0.x);
    assert_eq!(2.0, filter.update(v3(2.0, 0.0, 0.0)).0.x);
    assert_eq!(1.0, filter.update_weighted(v3(1.0, 0.0, 0.0)).0.x);
    assert_eq!(2.0, filter.update_weighted(v3(2.0, 0.0, 0.0)).0.x);
}

#[test]
fn moving_average_filter_vector3df32() {
    let mut filter = MovingAverageFilter::<V3, 4>::new();
    let mut m = filter.update(v3(1.0, 0.0, -3.0));
    assert_eq!(v3(1.0, 0.0, -3.0), m);

    m = filter.update(v3(2.0, 0.0, -3.0));
    assert_eq!(v3(1.5, 0.0, -3.0), m);

    m = filter.update(v3(3.0, 3.0, 0.0));
    assert_eq!(v3(2.0, 1.0, -2.0), m);

    m = filter.update(v3(4.0, 2.0, -3.0));
    assert_eq!(v3(2.5, 1.25, -2.25), m);

    m = filter.update(v3(5.0, 2.0, -3.0));
    assert_eq!(v3(3.5, 1.75, -2.25), m);

    m = filter.update(v3(6.0, 2.0, -3.0));
    assert_eq!(v3(4.5, 2.25, -2.25), m);

    m = filter.update(v3(10.0, 2.0, -3.0));
    assert_eq!(v3(6.25, 2.0, -3.0), m);

    filter.reset();
    m = filter.update(v3(4.0, 2.0, -3.0));
    assert_eq!(v3(4.0, 2.0, -3.0), m);

    m = filter.update(v3(20.0, 0.0, -3.0));
    assert_eq!(v3(12.0, 1.0, -3.0), m);

    m = filter.update(v3(-9.0, 0.0, -3.0));
    assert_eq!(v3(5.0, 2.0 / 3.0, -3.0), m);
}

#[test]
fn pt1_filter_vector3df32_method_call() {
    let mut filter = Pt1Filter::<F32, F32>::with_k(F32(0.25));
    assert_eq!(F32(0.05), filter.update(F32(0.2)));
    filter.reset();
    assert_eq!(F32(0.125), filter.update(F32(0.5)));
    filter.reset();
    assert_eq!(F32(0.375), filter.update(F32(1.5)));

    let mut filter = Pt1FilterVector3df32::with_k(F32(0.25));
    let value = v3(0.2, 0.5, 1.5);
    let output = filter.update(value);
    assert_eq!(v3(0.05, 0.125, 0.375), output);

    filter.reset();
    let value = v3(0.2, 0.5, 1.5);
    let value = value.filter_using(&mut filter);
    assert_eq!(v3(0.05, 0.125, 0.375), value);
}

#[test]
fn pt1_filter_vector3df32() {
    let mut filter = Pt1Filter::<V3, F32>::with_k(F32(1.0));

    // test that filter with default settings performs no filtering
    let output = filter.update(v3(2.0, 3.0, 5.0));
    assert_eq!(v3(2.0, 3.0, 5.0), output);
    let state = filter.state();
    assert_eq!(v3(2.0, 3.0, 5.0), state);

    filter.reset();
    let state = filter.state();
    assert_eq!(v3(0.0, 0.0, 0.0), state);

    filter.set_cutoff_frequency(F32(100.0), F32(0.001));
    assert_eq!(0.385_869_56, filter.update(v3(1.0, 0.0, 0.0)).0.x);
    assert_eq!(1.008_713_4, filter.update(v3(2.0, 0.0, 0.0)).0.x);

    filter.set_k(F32(1.0));
    assert_eq!(1.0, filter.update(v3(1.0, 0.0, 0.0)).0.x);
    assert_eq!(2.0, filter.update(v3(2.0, 0.0, 0.0)).0.x);

    filter.set_cutoff_frequency(F32(100.0), F32(0.001));
    filter.reset();
    assert_eq!(0.385_869_56, filter.update(v3(1.0, 0.0, 0.0)).0.x);
    assert_eq!(1.008_713_4, filter.update(v3(2.0, 0.0, 0.0)).0.x);

    filter.set_to_passthrough();
    assert_eq!(1.0, filter.update(v3(1.0, 0.0, 0.0)).0.x);
    assert_eq!(2.0, filter.update(v3(2.0, 0.0, 0.0)).0.x);
}

#[test]
fn pt1_filter_vector3di16_i32() {
    let mut filter = Pt1Filter::<Vi16, i32>::new();

    // test that filter with default settings performs no filtering
    let output = filter.update(Vi16(Vector3 { x: 2, y: 3, z: 5 }));
    assert_eq!(Vi16(Vector3 { x: 2, y: 3, z: 5 }), output);
    let state = filter.state();
    assert_eq!(Vi16(Vector3 { x: 2, y: 3, z: 5 }), state);
}

#[test]
fn pt1_filter_vector3di16_f32() {
    let mut filter = Pt1Filter::<Vi16, F32>::new();

    // test that filter with default settings performs no filtering
    let output = filter.update(Vi16(Vector3 { x: 2, y: 3, z: 5 }));
    assert_eq!(Vi16(Vector3 { x: 2, y: 3, z: 5 }), output);
    let state = filter.state();
    assert_eq!(Vi16(Vector3 { x: 2, y: 3, z: 5 }), state);
}

#[test]
fn filter_vector3di32_i32() {
    let mut filter = Pt1Filter::<Vi32, i32>::with_k(1);

    // test that filter with default settings performs no filtering
    let output = filter.update(Vi32(Vector3 { x: 2, y: 3, z: 5 }));
    assert_eq!(Vi32(Vector3 { x: 2, y: 3, z: 5 }), output);
}
