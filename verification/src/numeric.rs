//! The arithmetic that the filters are generic over.
//!
//! Each operation has a spec function that names its result, a spec
//! predicate that says when it is defined, and an executable method whose
//! contract ties the two together.  The implementations in this crate (for
//! `i32`) define all three exactly and are verified.  A type implemented
//! outside verified code, such as a wrapper of a floating-point type, cannot
//! define spec functions: it keeps the defaults (each operation always
//! defined, with a fixed unspecified result), so the contracts describe
//! nothing of it and its operations are not verified.
use vstd::prelude::*;

verus! {

/// A type with an additive identity.
pub trait Zero: Copy + Sized {
    /// The additive identity.
    closed spec fn spec_zero() -> Self {
        vstd::pervasive::arbitrary()
    }

    fn zero() -> (z: Self)
        ensures
            z == Self::spec_zero(),
    ;
}

/// Addition, subtraction and negation of signal values.
pub trait Additive: Zero {
    closed spec fn spec_plus(a: Self, b: Self) -> Self {
        vstd::pervasive::arbitrary()
    }

    closed spec fn spec_minus(a: Self, b: Self) -> Self {
        vstd::pervasive::arbitrary()
    }

    closed spec fn spec_negated(a: Self) -> Self {
        vstd::pervasive::arbitrary()
    }

    /// Whether `a + b` can be computed (for integers: does not overflow).
    closed spec fn add_ok(a: Self, b: Self) -> bool {
        true
    }

    /// Whether `a - b` can be computed.
    closed spec fn sub_ok(a: Self, b: Self) -> bool {
        true
    }

    /// Whether `-a` can be computed.
    closed spec fn neg_ok(a: Self) -> bool {
        true
    }

    fn plus(self, rhs: Self) -> (r: Self)
        requires
            Self::add_ok(self, rhs),
        ensures
            r == Self::spec_plus(self, rhs),
    ;

    fn minus(self, rhs: Self) -> (r: Self)
        requires
            Self::sub_ok(self, rhs),
        ensures
            r == Self::spec_minus(self, rhs),
    ;

    fn negated(self) -> (r: Self)
        requires
            Self::neg_ok(self),
        ensures
            r == Self::spec_negated(self),
    ;
}

/// Scaling of a signal value by a gain of type `R`.
pub trait Scale<R>: Additive {
    /// `a * k`
    closed spec fn spec_scaled(a: Self, k: R) -> Self {
        vstd::pervasive::arbitrary()
    }

    /// `a * k + b`, computed as one operation where the type supports it.
    closed spec fn spec_mul_add(a: Self, k: R, b: Self) -> Self {
        vstd::pervasive::arbitrary()
    }

    /// `a / k`
    closed spec fn spec_divided(a: Self, k: R) -> Self {
        vstd::pervasive::arbitrary()
    }

    closed spec fn scale_ok(a: Self, k: R) -> bool {
        true
    }

    closed spec fn mul_add_ok(a: Self, k: R, b: Self) -> bool {
        true
    }

    closed spec fn div_ok(a: Self, k: R) -> bool {
        true
    }

    fn scaled(self, k: R) -> (r: Self)
        requires
            Self::scale_ok(self, k),
        ensures
            r == Self::spec_scaled(self, k),
    ;

    fn mul_add(self, k: R, b: Self) -> (r: Self)
        requires
            Self::mul_add_ok(self, k, b),
        ensures
            r == Self::spec_mul_add(self, k, b),
    ;

    fn divided(self, k: R) -> (r: Self)
        requires
            Self::div_ok(self, k),
        ensures
            r == Self::spec_divided(self, k),
    ;
}

/// The comparisons `<` and `<=`.  They need not form a linear order
/// (floating point `NaN` does not); see `is_linear_order`.
pub trait Ordered: Copy + Sized {
    closed spec fn spec_less_than(a: Self, b: Self) -> bool {
        vstd::pervasive::arbitrary()
    }

    closed spec fn spec_at_most(a: Self, b: Self) -> bool {
        vstd::pervasive::arbitrary()
    }

    fn less_than(self, other: Self) -> (r: bool)
        ensures
            r == Self::spec_less_than(self, other),
    ;

    fn at_most(self, other: Self) -> (r: bool)
        ensures
            r == Self::spec_at_most(self, other),
    ;
}

/// A type with a multiplicative identity.
pub trait One: Copy + Sized {
    closed spec fn spec_one() -> Self {
        vstd::pervasive::arbitrary()
    }

    fn one() -> (r: Self)
        ensures
            r == Self::spec_one(),
    ;
}

/// The gain and coefficient type of the filters: scalable by itself,
/// ordered, with a multiplicative identity.
pub trait Scalar: Scale<Self> + Ordered + One {

}

impl<R: Scale<R> + Ordered + One> Scalar for R {

}

/// The constant one half.  Its law, `exact_half`, is that doubled it
/// gives one.
pub trait ConstHalf: Sized {
    closed spec fn spec_half() -> Self {
        vstd::pervasive::arbitrary()
    }

    fn half() -> (r: Self)
        ensures
            r == Self::spec_half(),
    ;
}

/// The constants that the frequency-based filter settings need.  The
/// cutoff corrections' law is `ordered_cutoff_corrections`.
pub trait MathConstants: Sized {
    /// The circle constant.
    closed spec fn spec_pi() -> Self {
        vstd::pervasive::arbitrary()
    }

    /// The factor that shifts a PT2 filter's cutoff so that the cascade has
    /// its -3dB point at the requested frequency: `1 / sqrt(2^(1/2) - 1)`.
    closed spec fn spec_pt2_cutoff_correction() -> Self {
        vstd::pervasive::arbitrary()
    }

    /// The same factor for a PT3 filter: `1 / sqrt(2^(1/3) - 1)`.
    closed spec fn spec_pt3_cutoff_correction() -> Self {
        vstd::pervasive::arbitrary()
    }

    fn pi() -> (r: Self)
        ensures
            r == Self::spec_pi(),
    ;

    fn pt2_cutoff_correction() -> (r: Self)
        ensures
            r == Self::spec_pt2_cutoff_correction(),
    ;

    fn pt3_cutoff_correction() -> (r: Self)
        ensures
            r == Self::spec_pt3_cutoff_correction(),
    ;
}

/// Sine and cosine.  Their law is `exact_trigonometry`:
/// `sin(a)^2 + cos(a)^2 == 1`.
pub trait TrigonometricMethods: Sized {
    closed spec fn spec_sin(a: Self) -> Self {
        vstd::pervasive::arbitrary()
    }

    closed spec fn spec_cos(a: Self) -> Self {
        vstd::pervasive::arbitrary()
    }

    fn sin_cos(self) -> (r: (Self, Self))
        ensures
            r.0 == Self::spec_sin(self),
            r.1 == Self::spec_cos(self),
    ;
}

/// The mean of `count` values given their sum.
pub trait Mean: Copy + Sized {
    closed spec fn spec_mean(sum: Self, count: nat) -> Self {
        vstd::pervasive::arbitrary()
    }

    fn mean(sum: Self, count: usize) -> (r: Self)
        requires
            count > 0,
        ensures
            r == Self::spec_mean(sum, count as nat),
    ;
}

/// Whether addition, subtraction and negation on `T` are exact, as on the
/// real numbers: those of a commutative group.
#[verifier::opaque]
pub open spec fn exact_additive<T: Additive>() -> bool {
    &&& forall|a: T, b: T, c: T| #[trigger]
        T::spec_plus(T::spec_plus(a, b), c) == T::spec_plus(a, T::spec_plus(b, c))
    &&& forall|a: T, b: T| #[trigger] T::spec_plus(a, b) == T::spec_plus(b, a)
    &&& forall|a: T| #[trigger] T::spec_plus(a, T::spec_zero()) == a
    &&& forall|a: T| #[trigger] T::spec_plus(a, T::spec_negated(a)) == T::spec_zero()
    &&& forall|a: T, b: T| #[trigger] T::spec_minus(a, b) == T::spec_plus(a, T::spec_negated(b))
}

/// Whether scaling `T` by `R` is exact, as for vectors over the real numbers.
#[verifier::opaque]
pub open spec fn exact_scaling<T: Scale<R>, R: Scalar>() -> bool {
    &&& forall|a: T, b: T, k: R| #[trigger]
        T::spec_scaled(T::spec_plus(a, b), k) == T::spec_plus(T::spec_scaled(a, k), T::spec_scaled(b, k))
    &&& forall|a: T, k: R, l: R| #[trigger]
        T::spec_scaled(a, R::spec_plus(k, l)) == T::spec_plus(T::spec_scaled(a, k), T::spec_scaled(a, l))
    &&& forall|a: T, k: R| #[trigger]
        T::spec_scaled(a, R::spec_negated(k)) == T::spec_negated(T::spec_scaled(a, k))
    &&& forall|a: T, k: R| #[trigger]
        T::spec_scaled(T::spec_negated(a), k) == T::spec_negated(T::spec_scaled(a, k))
    &&& forall|a: T, k: R, l: R| #[trigger]
        T::spec_scaled(T::spec_scaled(a, k), l) == T::spec_scaled(a, R::spec_scaled(k, l))
    &&& forall|a: T| #[trigger] T::spec_scaled(a, R::spec_one()) == a
    &&& forall|a: T| #[trigger] T::spec_scaled(a, R::spec_zero()) == T::spec_zero()
    &&& forall|a: T, k: R, b: T| #[trigger]
        T::spec_mul_add(a, k, b) == T::spec_plus(T::spec_scaled(a, k), b)
    &&& forall|a: T, m: R| m != R::spec_zero() ==> #[trigger]
        T::spec_scaled(T::spec_divided(a, m), m) == a
}

/// Whether the arithmetic of signals `T` with gains `R` is exact, as for
/// vectors over the real numbers: `R` is a field, `T` a vector space over it.
/// Integer division and floating point are not exact, so these identities
/// are hypotheses under which the laws that need them are stated.
#[verifier::opaque]
pub open spec fn exact_arithmetic<T: Scale<R>, R: Scalar>() -> bool {
    &&& exact_additive::<T>()
    &&& exact_additive::<R>()
    &&& exact_scaling::<T, R>()
    &&& exact_scaling::<R, R>()
    &&& forall|k: R, l: R| #[trigger] R::spec_scaled(k, l) == R::spec_scaled(l, k)
}

/// The fused multiply-add is the scaled value plus the addend.
pub proof fn lemma_mul_add_exact<T: Scale<R>, R: Scalar>(a: T, k: R, b: T)
    requires
        exact_arithmetic::<T, R>(),
    ensures
        T::spec_mul_add(a, k, b) == T::spec_plus(T::spec_scaled(a, k), b),
{
    reveal(exact_arithmetic);
    reveal(exact_scaling);
}

/// `(a / m) * m == a` for `m` not zero.
pub proof fn lemma_scaled_quotient<T: Scale<R>, R: Scalar>(a: T, m: R)
    requires
        exact_arithmetic::<T, R>(),
        m != R::spec_zero(),
    ensures
        T::spec_scaled(T::spec_divided(a, m), m) == a,
{
    reveal(exact_arithmetic);
    reveal(exact_scaling);
}

/// Exact arithmetic of signals with gains `R` makes the gains exact too,
/// as scalars of themselves.
pub proof fn lemma_gains_exact<T: Scale<R>, R: Scalar>()
    requires
        exact_arithmetic::<T, R>(),
    ensures
        exact_arithmetic::<R, R>(),
{
    reveal(exact_arithmetic);
}

/// The parts of exact arithmetic.
pub proof fn lemma_exact_parts<T: Scale<R>, R: Scalar>()
    requires
        exact_arithmetic::<T, R>(),
    ensures
        exact_additive::<T>(),
        exact_additive::<R>(),
        exact_scaling::<T, R>(),
        exact_scaling::<R, R>(),
{
    reveal(exact_arithmetic);
}

/// `((a + b) + c) - d == (a + c) + (b - d)`
pub proof fn lemma_regroup_sum<T: Additive>(a: T, b: T, c: T, d: T)
    requires
        exact_additive::<T>(),
    ensures
        T::spec_minus(T::spec_plus(T::spec_plus(a, b), c), d) == T::spec_plus(
            T::spec_plus(a, c),
            T::spec_minus(b, d),
        ),
{
    reveal(exact_additive);
    let nd = T::spec_negated(d);
    assert(T::spec_plus(T::spec_plus(a, b), c) == T::spec_plus(a, T::spec_plus(b, c)));
    assert(T::spec_plus(b, c) == T::spec_plus(c, b));
    assert(T::spec_plus(a, T::spec_plus(c, b)) == T::spec_plus(T::spec_plus(a, c), b));
    assert(T::spec_plus(T::spec_plus(T::spec_plus(a, c), b), nd) == T::spec_plus(
        T::spec_plus(a, c),
        T::spec_plus(b, nd),
    ));
}

/// Scaling distributes over a sum.
pub proof fn lemma_scaled_sum<T: Scale<R>, R: Scalar>(a: T, b: T, k: R)
    requires
        exact_arithmetic::<T, R>(),
    ensures
        T::spec_scaled(T::spec_plus(a, b), k) == T::spec_plus(T::spec_scaled(a, k), T::spec_scaled(b, k)),
{
    reveal(exact_arithmetic);
    reveal(exact_scaling);
}

/// Scaling by a sum of gains is the sum of the scaled values.
pub proof fn lemma_scaled_by_sum<T: Scale<R>, R: Scalar>(a: T, k: R, l: R)
    requires
        exact_arithmetic::<T, R>(),
    ensures
        T::spec_scaled(a, R::spec_plus(k, l)) == T::spec_plus(T::spec_scaled(a, k), T::spec_scaled(a, l)),
{
    reveal(exact_arithmetic);
    reveal(exact_scaling);
}

/// Scaling twice is scaling by the product; scaling by one changes nothing.
pub proof fn lemma_scaled_twice<T: Scale<R>, R: Scalar>(a: T, k: R, l: R)
    requires
        exact_arithmetic::<T, R>(),
    ensures
        T::spec_scaled(T::spec_scaled(a, k), l) == T::spec_scaled(a, R::spec_scaled(k, l)),
        T::spec_scaled(a, R::spec_one()) == a,
{
    reveal(exact_arithmetic);
    reveal(exact_scaling);
}

/// `((p + q) + r - q) - r == p`
pub proof fn lemma_cancel_two<T: Additive>(p: T, q: T, r: T)
    requires
        exact_additive::<T>(),
    ensures
        T::spec_minus(T::spec_minus(T::spec_plus(T::spec_plus(p, q), r), q), r) == p,
{
    reveal(exact_additive);
    let nq = T::spec_negated(q);
    let nr = T::spec_negated(r);
    let pq = T::spec_plus(p, q);
    assert(T::spec_plus(T::spec_plus(pq, r), nq) == T::spec_plus(pq, T::spec_plus(r, nq)));
    assert(T::spec_plus(r, nq) == T::spec_plus(nq, r));
    assert(T::spec_plus(pq, T::spec_plus(nq, r)) == T::spec_plus(T::spec_plus(pq, nq), r));
    assert(T::spec_plus(pq, nq) == T::spec_plus(p, T::spec_plus(q, nq)));
    assert(T::spec_plus(p, T::spec_zero()) == p);
    assert(T::spec_plus(T::spec_plus(p, r), nr) == T::spec_plus(p, T::spec_plus(r, nr)));
}

/// `a - b` scaled is the difference of the scaled values.
pub proof fn lemma_scaled_difference<T: Scale<R>, R: Scalar>(a: T, b: T, k: R)
    requires
        exact_arithmetic::<T, R>(),
    ensures
        T::spec_scaled(T::spec_minus(a, b), k) == T::spec_minus(T::spec_scaled(a, k), T::spec_scaled(b, k)),
{
    reveal(exact_arithmetic);
    reveal(exact_additive);
    reveal(exact_scaling);
    assert(T::spec_minus(a, b) == T::spec_plus(a, T::spec_negated(b)));
    assert(T::spec_scaled(T::spec_plus(a, T::spec_negated(b)), k) == T::spec_plus(
        T::spec_scaled(a, k),
        T::spec_scaled(T::spec_negated(b), k),
    ));
    assert(T::spec_scaled(T::spec_negated(b), k) == T::spec_negated(T::spec_scaled(b, k)));
}

/// `(p - q) + r == p + (r - q)`
pub proof fn lemma_difference_regroup<T: Additive>(p: T, q: T, r: T)
    requires
        exact_additive::<T>(),
    ensures
        T::spec_plus(T::spec_minus(p, q), r) == T::spec_plus(p, T::spec_minus(r, q)),
{
    reveal(exact_additive);
    let nq = T::spec_negated(q);
    assert(T::spec_plus(T::spec_plus(p, nq), r) == T::spec_plus(p, T::spec_plus(nq, r)));
    assert(T::spec_plus(nq, r) == T::spec_plus(r, nq));
}

/// `p + (y - p) == y`
pub proof fn lemma_add_difference<T: Additive>(p: T, y: T)
    requires
        exact_additive::<T>(),
    ensures
        T::spec_plus(p, T::spec_minus(y, p)) == y,
{
    reveal(exact_additive);
    let np = T::spec_negated(p);
    assert(T::spec_plus(p, T::spec_plus(y, np)) == T::spec_plus(T::spec_plus(p, y), np));
    assert(T::spec_plus(p, y) == T::spec_plus(y, p));
    assert(T::spec_plus(T::spec_plus(y, p), np) == T::spec_plus(y, T::spec_plus(p, np)));
}

/// `b * (1 - k) == b - b * k`
pub proof fn lemma_scaled_by_complement<T: Scale<R>, R: Scalar>(b: T, k: R)
    requires
        exact_arithmetic::<T, R>(),
    ensures
        T::spec_scaled(b, R::spec_minus(R::spec_one(), k)) == T::spec_minus(b, T::spec_scaled(b, k)),
{
    reveal(exact_arithmetic);
    reveal(exact_additive);
    reveal(exact_scaling);
    assert(R::spec_minus(R::spec_one(), k) == R::spec_plus(R::spec_one(), R::spec_negated(k)));
    assert(T::spec_scaled(b, R::spec_plus(R::spec_one(), R::spec_negated(k))) == T::spec_plus(
        T::spec_scaled(b, R::spec_one()),
        T::spec_scaled(b, R::spec_negated(k)),
    ));
    assert(T::spec_minus(b, T::spec_scaled(b, k)) == T::spec_plus(b, T::spec_negated(T::spec_scaled(b, k))));
}

/// Whether `<=` is a linear order on `T` and `<` is its strict part.
pub open spec fn is_linear_order<T: Ordered>() -> bool {
    &&& forall|a: T, b: T| #[trigger] T::spec_less_than(a, b) == !T::spec_at_most(b, a)
    &&& forall|a: T, b: T| #[trigger] T::spec_at_most(a, b) || T::spec_at_most(b, a)
    &&& forall|a: T, b: T, c: T|
        #[trigger] T::spec_at_most(a, b) && #[trigger] T::spec_at_most(b, c) ==> T::spec_at_most(a, c)
    &&& forall|a: T, b: T| #[trigger] T::spec_at_most(a, b) && T::spec_at_most(b, a) ==> a == b
}

/// Whether `<=` on `T` is a linear order that adding a value keeps, as on
/// the real numbers.
#[verifier::opaque]
pub open spec fn exact_order<T: Additive + Ordered>() -> bool {
    &&& is_linear_order::<T>()
    &&& forall|a: T, b: T, c: T|
        T::spec_at_most(a, b) ==> #[trigger] T::spec_at_most(T::spec_plus(a, c), T::spec_plus(b, c))
}

/// Whether a non-negative value scaled by a non-negative gain is
/// non-negative, as for the real numbers.
#[verifier::opaque]
pub open spec fn exact_sign_scaling<T: Scale<R> + Ordered, R: Scalar>() -> bool {
    forall|a: T, k: R|
        T::spec_at_most(T::spec_zero(), a) && R::spec_at_most(R::spec_zero(), k) ==> #[trigger] T::spec_at_most(
            T::spec_zero(),
            T::spec_scaled(a, k),
        )
}

/// An exact order is a linear order.
pub proof fn lemma_exact_order_is_linear<T: Additive + Ordered>()
    requires
        exact_order::<T>(),
    ensures
        is_linear_order::<T>(),
{
    reveal(exact_order);
}

/// Adding a value keeps `<=`.
pub proof fn lemma_at_most_translate<T: Additive + Ordered>(a: T, b: T, c: T)
    requires
        exact_order::<T>(),
        T::spec_at_most(a, b),
    ensures
        T::spec_at_most(T::spec_plus(a, c), T::spec_plus(b, c)),
{
    reveal(exact_order);
}

/// `a <= b` exactly when `0 <= b - a`.
pub proof fn lemma_at_most_iff_difference<T: Additive + Ordered>(a: T, b: T)
    requires
        exact_additive::<T>(),
        exact_order::<T>(),
    ensures
        T::spec_at_most(a, b) == T::spec_at_most(T::spec_zero(), T::spec_minus(b, a)),
{
    let na = T::spec_negated(a);
    let d = T::spec_minus(b, a);
    assert(T::spec_plus(a, na) == T::spec_zero() && d == T::spec_plus(b, na)) by {
        reveal(exact_additive);
    }
    assert(T::spec_plus(d, a) == b && T::spec_plus(T::spec_zero(), a) == a) by {
        reveal(exact_additive);
        assert(T::spec_plus(T::spec_zero(), a) == T::spec_plus(a, T::spec_zero()));
        assert(T::spec_plus(T::spec_plus(b, na), a) == T::spec_plus(b, T::spec_plus(na, a)));
        assert(T::spec_plus(na, a) == T::spec_plus(a, na));
    }
    if T::spec_at_most(a, b) {
        lemma_at_most_translate(a, b, na);
    }
    if T::spec_at_most(T::spec_zero(), d) {
        lemma_at_most_translate(T::spec_zero(), d, a);
    }
}

/// `a <= 0` exactly when `0 <= -a`.
pub proof fn lemma_at_most_zero_iff_negated<T: Additive + Ordered>(a: T)
    requires
        exact_additive::<T>(),
        exact_order::<T>(),
    ensures
        T::spec_at_most(a, T::spec_zero()) == T::spec_at_most(T::spec_zero(), T::spec_negated(a)),
{
    reveal(exact_additive);
    lemma_at_most_iff_difference(a, T::spec_zero());
    assert(T::spec_minus(T::spec_zero(), a) == T::spec_plus(T::spec_zero(), T::spec_negated(a)));
    assert(T::spec_plus(T::spec_zero(), T::spec_negated(a)) == T::spec_plus(T::spec_negated(a), T::spec_zero()));
}

/// A non-negative value scaled by a non-negative gain is non-negative.
pub proof fn lemma_scaled_keeps_sign<T: Scale<R> + Ordered, R: Scalar>(a: T, k: R)
    requires
        exact_sign_scaling::<T, R>(),
        T::spec_at_most(T::spec_zero(), a),
        R::spec_at_most(R::spec_zero(), k),
    ensures
        T::spec_at_most(T::spec_zero(), T::spec_scaled(a, k)),
{
    reveal(exact_sign_scaling);
}

/// `(p + s) - s == p`
pub proof fn lemma_add_then_subtract<T: Additive>(p: T, s: T)
    requires
        exact_additive::<T>(),
    ensures
        T::spec_minus(T::spec_plus(p, s), s) == p,
{
    reveal(exact_additive);
    let ns = T::spec_negated(s);
    assert(T::spec_plus(T::spec_plus(p, s), ns) == T::spec_plus(p, T::spec_plus(s, ns)));
    assert(T::spec_plus(p, T::spec_zero()) == p);
}

/// `(p + s) + e == s + (p + e)`
pub proof fn lemma_sum_regroup<T: Additive>(p: T, s: T, e: T)
    requires
        exact_additive::<T>(),
    ensures
        T::spec_plus(T::spec_plus(p, s), e) == T::spec_plus(s, T::spec_plus(p, e)),
{
    reveal(exact_additive);
    assert(T::spec_plus(p, s) == T::spec_plus(s, p));
    assert(T::spec_plus(T::spec_plus(s, p), e) == T::spec_plus(s, T::spec_plus(p, e)));
}


/// Adding a value that is at most zero gives at most the other summand;
/// adding one that is at least zero gives at least it.
pub proof fn lemma_sum_with_signed<T: Additive + Ordered>(a: T, c: T)
    requires
        exact_additive::<T>(),
        exact_order::<T>(),
    ensures
        T::spec_at_most(a, T::spec_zero()) ==> T::spec_at_most(T::spec_plus(a, c), c),
        T::spec_at_most(T::spec_zero(), a) ==> T::spec_at_most(c, T::spec_plus(a, c)),
{
    assert(T::spec_plus(T::spec_zero(), c) == c) by {
        reveal(exact_additive);
        assert(T::spec_plus(T::spec_zero(), c) == T::spec_plus(c, T::spec_zero()));
    }
    if T::spec_at_most(a, T::spec_zero()) {
        lemma_at_most_translate(a, T::spec_zero(), c);
    }
    if T::spec_at_most(T::spec_zero(), a) {
        lemma_at_most_translate(T::spec_zero(), a, c);
    }
}

/// `0 - x == -x`
pub proof fn lemma_zero_minus<T: Additive>(x: T)
    requires
        exact_additive::<T>(),
    ensures
        T::spec_minus(T::spec_zero(), x) == T::spec_negated(x),
{
    reveal(exact_additive);
    let nx = T::spec_negated(x);
    assert(T::spec_plus(T::spec_zero(), nx) == T::spec_plus(nx, T::spec_zero()));
}

/// `(p + r) - q == (p - q) + r`
pub proof fn lemma_difference_after_sum<T: Additive>(p: T, q: T, r: T)
    requires
        exact_additive::<T>(),
    ensures
        T::spec_minus(T::spec_plus(p, r), q) == T::spec_plus(T::spec_minus(p, q), r),
{
    lemma_difference_regroup(p, q, r);
    reveal(exact_additive);
    let nq = T::spec_negated(q);
    assert(T::spec_plus(T::spec_plus(p, r), nq) == T::spec_plus(p, T::spec_plus(r, nq)));
}

/// `((p + a) + n) + (q - a) == (p + q) + n`
pub proof fn lemma_cancel_in_sum<T: Additive>(p: T, q: T, a: T, n: T)
    requires
        exact_additive::<T>(),
    ensures
        T::spec_plus(T::spec_plus(T::spec_plus(p, a), n), T::spec_minus(q, a)) == T::spec_plus(
            T::spec_plus(p, q),
            n,
        ),
{
    let pa = T::spec_plus(p, a);
    let qa = T::spec_minus(q, a);
    lemma_sum_regroup(pa, n, qa);
    // (p + a) + (q - a) == p + q
    lemma_difference_regroup(pa, a, q);
    lemma_add_then_subtract(p, a);
    lemma_difference_regroup(p, a, q);
    assert(T::spec_plus(T::spec_minus(pa, a), q) == T::spec_plus(pa, qa));
    assert(T::spec_plus(pa, qa) == T::spec_plus(p, q));
    assert(T::spec_plus(n, T::spec_plus(p, q)) == T::spec_plus(T::spec_plus(p, q), n)) by {
        reveal(exact_additive);
    }
}

/// Products of gains commute.
pub proof fn lemma_gain_product_commutes<R: Scalar>(k: R, l: R)
    requires
        exact_arithmetic::<R, R>(),
    ensures
        R::spec_scaled(k, l) == R::spec_scaled(l, k),
{
    reveal(exact_arithmetic);
}

/// Scaling the negation is negating the scaled value.
pub proof fn lemma_scaled_negated<T: Scale<R>, R: Scalar>(a: T, k: R)
    requires
        exact_arithmetic::<T, R>(),
    ensures
        T::spec_scaled(T::spec_negated(a), k) == T::spec_negated(T::spec_scaled(a, k)),
{
    reveal(exact_arithmetic);
    reveal(exact_scaling);
}

/// The group laws of addition, for the given values.
pub proof fn lemma_minus_and_assoc<T: Additive>(a: T, b: T, c: T)
    requires
        exact_additive::<T>(),
    ensures
        T::spec_minus(a, b) == T::spec_plus(a, T::spec_negated(b)),
        T::spec_plus(T::spec_plus(a, b), c) == T::spec_plus(a, T::spec_plus(b, c)),
        T::spec_plus(a, b) == T::spec_plus(b, a),
        T::spec_plus(a, T::spec_zero()) == a,
        T::spec_plus(T::spec_zero(), a) == a,
        T::spec_plus(a, T::spec_negated(a)) == T::spec_zero(),
{
    reveal(exact_additive);
    assert(T::spec_plus(T::spec_zero(), a) == T::spec_plus(a, T::spec_zero()));
}

/// `-(c + s) == -c + -s`
pub proof fn lemma_negated_sum<T: Additive>(c: T, s: T)
    requires
        exact_additive::<T>(),
    ensures
        T::spec_negated(T::spec_plus(c, s)) == T::spec_plus(T::spec_negated(c), T::spec_negated(s)),
{
    let nc = T::spec_negated(c);
    let ns = T::spec_negated(s);
    lemma_minus_and_assoc(c, s, T::spec_plus(nc, ns));
    lemma_minus_and_assoc(nc, ns, T::spec_zero());
    lemma_minus_and_assoc(s, ns, nc);
    lemma_minus_and_assoc(nc, T::spec_zero(), T::spec_zero());
    lemma_minus_and_assoc(c, T::spec_zero(), T::spec_zero());
    assert(T::spec_plus(T::spec_plus(c, s), T::spec_plus(nc, ns)) == T::spec_zero());
    lemma_inverse_unique(T::spec_plus(c, s), T::spec_plus(nc, ns));
}

/// `(c + c) - (c + s) == c - s`
pub proof fn lemma_double_minus_sum<T: Additive>(c: T, s: T)
    requires
        exact_additive::<T>(),
    ensures
        T::spec_minus(T::spec_plus(c, c), T::spec_plus(c, s)) == T::spec_minus(c, s),
{
    let cc = T::spec_plus(c, c);
    let nc = T::spec_negated(c);
    let ns = T::spec_negated(s);
    lemma_negated_sum(c, s);
    lemma_minus_and_assoc(cc, T::spec_plus(c, s), T::spec_zero());
    lemma_minus_and_assoc(cc, nc, ns);
    lemma_minus_and_assoc(cc, c, T::spec_zero());
    lemma_add_then_subtract(c, c);
    lemma_minus_and_assoc(c, s, T::spec_zero());
}

/// `a - a == 0`, and `a - b == 0` only for `a == b`.
pub proof fn lemma_difference_zero<T: Additive>(a: T, b: T)
    requires
        exact_additive::<T>(),
    ensures
        T::spec_minus(a, a) == T::spec_zero(),
        T::spec_minus(a, b) == T::spec_zero() ==> a == b,
{
    lemma_minus_and_assoc(a, a, T::spec_zero());
    lemma_minus_and_assoc(b, b, T::spec_zero());
    lemma_difference_regroup(a, b, b);
    lemma_minus_and_assoc(a, T::spec_zero(), T::spec_zero());
    lemma_minus_and_assoc(b, T::spec_zero(), T::spec_zero());
}

/// `(x - b) - (x - a) == a - b`
pub proof fn lemma_difference_of_complements<T: Additive>(x: T, a: T, b: T)
    requires
        exact_additive::<T>(),
    ensures
        T::spec_minus(T::spec_minus(x, b), T::spec_minus(x, a)) == T::spec_minus(a, b),
{
    let zero = T::spec_zero();
    let na = T::spec_negated(a);
    let nb = T::spec_negated(b);
    let nx = T::spec_negated(x);
    // -(x - a) == a - x
    lemma_minus_and_assoc(x, a, zero);
    lemma_negated_sum(x, na);
    lemma_minus_and_assoc(na, a, zero);
    lemma_minus_and_assoc(a, zero, zero);
    lemma_inverse_unique(na, a);
    lemma_minus_and_assoc(nx, a, zero);
    lemma_minus_and_assoc(a, x, zero);
    // ((0 + x) - b) + (a - x) == (0 + a) - b
    lemma_minus_and_assoc(T::spec_minus(x, b), T::spec_minus(x, a), zero);
    lemma_minus_and_assoc(x, b, zero);
    lemma_minus_and_assoc(zero, x, zero);
    lemma_minus_and_assoc(zero, a, zero);
    lemma_cancel_in_sum(zero, a, x, nb);
    lemma_minus_and_assoc(a, b, zero);
}

/// `(x + c) - (y + c) == x - y`
pub proof fn lemma_difference_of_sums<T: Additive>(x: T, y: T, c: T)
    requires
        exact_additive::<T>(),
    ensures
        T::spec_minus(T::spec_plus(x, c), T::spec_plus(y, c)) == T::spec_minus(x, y),
{
    let zero = T::spec_zero();
    let ny = T::spec_negated(y);
    let nc = T::spec_negated(c);
    lemma_minus_and_assoc(T::spec_plus(x, c), T::spec_plus(y, c), zero);
    lemma_negated_sum(y, c);
    lemma_minus_and_assoc(ny, nc, zero);
    lemma_minus_and_assoc(T::spec_plus(x, c), nc, ny);
    lemma_add_then_subtract(x, c);
    lemma_minus_and_assoc(T::spec_plus(x, c), c, zero);
    lemma_minus_and_assoc(x, y, zero);
}

/// An element that adds to `a` to give zero is `-a`.
pub proof fn lemma_inverse_unique<T: Additive>(a: T, b: T)
    requires
        exact_additive::<T>(),
        T::spec_plus(a, b) == T::spec_zero(),
    ensures
        b == T::spec_negated(a),
{
    reveal(exact_additive);
    let na = T::spec_negated(a);
    assert(T::spec_plus(na, T::spec_plus(a, b)) == T::spec_plus(T::spec_plus(na, a), b));
    assert(T::spec_plus(na, a) == T::spec_plus(a, na));
    assert(T::spec_plus(T::spec_zero(), b) == T::spec_plus(b, T::spec_zero()));
}

/// A gain times a non-zero gain is zero only if the first is zero.
pub proof fn lemma_no_zero_divisors<R: Scalar>(z: R, p: R)
    requires
        exact_arithmetic::<R, R>(),
        p != R::spec_zero(),
        R::spec_scaled(z, p) == R::spec_zero(),
    ensures
        z == R::spec_zero(),
{
    lemma_exact_parts::<R, R>();
    let one = R::spec_one();
    let q = R::spec_divided(one, p);
    lemma_scaled_quotient::<R, R>(one, p);
    lemma_gain_product_commutes(q, p);
    lemma_scaled_twice::<R, R>(z, p, q);
    lemma_scaled_twice::<R, R>(z, one, one);
    lemma_gain_product_commutes(R::spec_zero(), q);
    assert(R::spec_scaled(q, R::spec_zero()) == R::spec_zero()) by {
        reveal(exact_scaling);
    }
}

/// Scaling by zero gives zero.
pub proof fn lemma_scaled_by_zero<T: Scale<R>, R: Scalar>(a: T)
    requires
        exact_arithmetic::<T, R>(),
    ensures
        T::spec_scaled(a, R::spec_zero()) == T::spec_zero(),
{
    reveal(exact_arithmetic);
    reveal(exact_scaling);
}

/// Whether the constant half doubled gives one, as for the real numbers.
pub open spec fn exact_half<R: Scalar + ConstHalf>() -> bool {
    R::spec_scaled(R::spec_half(), R::spec_plus(R::spec_one(), R::spec_one())) == R::spec_one()
}

/// A half that doubled gives one is `1 / (2 * 1)`, in exact arithmetic.
pub proof fn lemma_half_is_one_over_two<R: Scalar + ConstHalf>()
    requires
        exact_arithmetic::<R, R>(),
        exact_half::<R>(),
    ensures
        R::spec_half() == R::spec_divided(
            R::spec_one(),
            R::spec_scaled(R::spec_plus(R::spec_one(), R::spec_one()), R::spec_one()),
        ),
{
    lemma_exact_parts::<R, R>();
    let zero = R::spec_zero();
    let one = R::spec_one();
    let two = R::spec_plus(one, one);
    let h = R::spec_half();
    lemma_scaled_twice::<R, R>(two, one, one);
    let q = R::spec_divided(one, two);
    if two != zero {
        lemma_scaled_quotient::<R, R>(one, two);
        lemma_scaled_difference::<R, R>(h, q, two);
        lemma_difference_zero(one, one);
        lemma_no_zero_divisors(R::spec_minus(h, q), two);
        lemma_difference_zero(h, q);
    } else {
        // then one == h * 0 == 0, and every gain is zero
        lemma_scaled_by_zero::<R, R>(h);
        lemma_scaled_by_zero::<R, R>(q);
        lemma_scaled_twice::<R, R>(h, one, one);
        lemma_scaled_twice::<R, R>(q, one, one);
    }
}

/// Whether sine and cosine satisfy `sin(a)^2 + cos(a)^2 == 1`, as for the
/// real numbers.
pub open spec fn exact_trigonometry<R: Scalar + TrigonometricMethods>() -> bool {
    forall|a: R|
        #[trigger] R::spec_plus(
            R::spec_scaled(R::spec_sin(a), R::spec_sin(a)),
            R::spec_scaled(R::spec_cos(a), R::spec_cos(a)),
        ) == R::spec_one()
}

/// Whether the cutoff corrections are ordered as `1 / sqrt(2^(1/2) - 1)`
/// (about 1.554) and `1 / sqrt(2^(1/3) - 1)` (about 1.961) are: the PT2 one
/// at least one and the PT3 one greater than the PT2 one.
pub open spec fn ordered_cutoff_corrections<R: Scalar + MathConstants>() -> bool {
    &&& R::spec_at_most(R::spec_one(), R::spec_pt2_cutoff_correction())
    &&& R::spec_less_than(R::spec_pt2_cutoff_correction(), R::spec_pt3_cutoff_correction())
}

/// `i32` arithmetic is exact; an operation is defined where its exact result
/// fits in `i32` (elsewhere the plain Rust operator panics).
impl Zero for i32 {
    open spec fn spec_zero() -> i32 {
        0
    }

    fn zero() -> (z: i32) {
        0
    }
}

impl Additive for i32 {
    open spec fn spec_plus(a: i32, b: i32) -> i32 {
        (a + b) as i32
    }

    open spec fn spec_minus(a: i32, b: i32) -> i32 {
        (a - b) as i32
    }

    open spec fn spec_negated(a: i32) -> i32 {
        (-a) as i32
    }

    open spec fn add_ok(a: i32, b: i32) -> bool {
        i32::MIN <= a + b <= i32::MAX
    }

    open spec fn sub_ok(a: i32, b: i32) -> bool {
        i32::MIN <= a - b <= i32::MAX
    }

    open spec fn neg_ok(a: i32) -> bool {
        a != i32::MIN
    }

    fn plus(self, rhs: i32) -> (r: i32) {
        self + rhs
    }

    fn minus(self, rhs: i32) -> (r: i32) {
        self - rhs
    }

    fn negated(self) -> (r: i32) {
        -self
    }
}

/// The quotient of `a` by `k` rounded towards zero, as Rust's `/` computes it.
pub open spec fn i32_quotient(a: i32, k: i32) -> i32 {
    let x = a as int;
    let d = k as int;
    if d == 0 {
        0
    } else if x >= 0 && d > 0 {
        (x / d) as i32
    } else if x < 0 && d < 0 {
        ((-x) / (-d)) as i32
    } else if x < 0 {
        (-((-x) / d)) as i32
    } else {
        (-(x / (-d))) as i32
    }
}

/// The magnitude of a quotient rounded towards zero is at most that of the
/// dividend.
proof fn lemma_quotient_fits(x: int, d: int)
    requires
        d != 0,
    ensures
        x >= 0 && d > 0 ==> 0 <= x / d <= x,
        x < 0 && d < 0 ==> 0 <= (x * -1) / (d * -1) <= -x,
        x < 0 && d < -1 ==> (x * -1) / (d * -1) <= (x * -1) / 2,
        x < 0 && d > 0 ==> 0 <= (x * -1) / d <= -x,
        x >= 0 && d < 0 ==> 0 <= x / (d * -1) <= x,
{
    if x >= 0 && d > 0 {
        vstd::arithmetic::div_mod::lemma_div_pos_is_pos(x, d);
        vstd::arithmetic::div_mod::lemma_div_is_ordered_by_denominator(x, 1, d);
    } else if x < 0 && d < 0 {
        vstd::arithmetic::div_mod::lemma_div_pos_is_pos(x * -1, d * -1);
        vstd::arithmetic::div_mod::lemma_div_is_ordered_by_denominator(x * -1, 1, d * -1);
        if d < -1 {
            vstd::arithmetic::div_mod::lemma_div_is_ordered_by_denominator(x * -1, 2, d * -1);
        }
    } else if x < 0 {
        vstd::arithmetic::div_mod::lemma_div_pos_is_pos(x * -1, d);
        vstd::arithmetic::div_mod::lemma_div_is_ordered_by_denominator(x * -1, 1, d);
    } else {
        vstd::arithmetic::div_mod::lemma_div_pos_is_pos(x, d * -1);
        vstd::arithmetic::div_mod::lemma_div_is_ordered_by_denominator(x, 1, d * -1);
    }
}

impl Scale<i32> for i32 {
    open spec fn spec_scaled(a: i32, k: i32) -> i32 {
        (a * k) as i32
    }

    open spec fn spec_mul_add(a: i32, k: i32, b: i32) -> i32 {
        (a * k + b) as i32
    }

    open spec fn spec_divided(a: i32, k: i32) -> i32 {
        i32_quotient(a, k)
    }

    open spec fn scale_ok(a: i32, k: i32) -> bool {
        i32::MIN <= a * k <= i32::MAX
    }

    open spec fn mul_add_ok(a: i32, k: i32, b: i32) -> bool {
        &&& i32::MIN <= a * k <= i32::MAX
        &&& i32::MIN <= a * k + b <= i32::MAX
    }

    open spec fn div_ok(a: i32, k: i32) -> bool {
        k != 0 && !(a == i32::MIN && k == -1)
    }

    fn scaled(self, k: i32) -> (r: i32) {
        self * k
    }

    fn mul_add(self, k: i32, b: i32) -> (r: i32) {
        self * k + b
    }

    fn divided(self, k: i32) -> (r: i32) {
        proof {
            lemma_quotient_fits(self as int, k as int);
        }
        match self.checked_div(k) {
            Some(q) => q,
            None => 0,
        }
    }
}

impl Ordered for i32 {
    open spec fn spec_less_than(a: i32, b: i32) -> bool {
        a < b
    }

    open spec fn spec_at_most(a: i32, b: i32) -> bool {
        a <= b
    }

    fn less_than(self, other: i32) -> (r: bool) {
        self < other
    }

    fn at_most(self, other: i32) -> (r: bool) {
        self <= other
    }
}

impl One for i32 {
    open spec fn spec_one() -> i32 {
        1
    }

    fn one() -> (r: i32) {
        1
    }
}


/// For integers, one half is `1 / 2` in integer division, that is zero.
impl ConstHalf for i32 {
    open spec fn spec_half() -> i32 {
        0
    }

    fn half() -> (r: i32) {
        0
    }
}

/// The integer mean rounds towards zero, as Rust's `/` does.
impl Mean for i32 {
    open spec fn spec_mean(sum: i32, count: nat) -> i32 {
        if sum >= 0 {
            (sum as int / count as int) as i32
        } else {
            (-((-sum as int) / count as int)) as i32
        }
    }

    fn mean(sum: i32, count: usize) -> (r: i32) {
        if count > 2147483648 {
            proof {
                let a: int = if sum >= 0 { sum as int } else { -sum as int };
                vstd::arithmetic::div_mod::lemma_basic_div(a, count as int);
            }
            0
        } else {
            let c: i64 = count as i64;
            let s: i64 = sum as i64;
            if s >= 0 {
                proof {
                    vstd::arithmetic::div_mod::lemma_div_pos_is_pos(s as int, c as int);
                    vstd::arithmetic::div_mod::lemma_div_is_ordered_by_denominator(s as int, 1, c as int);
                }
                (s / c) as i32
            } else {
                proof {
                    vstd::arithmetic::div_mod::lemma_div_pos_is_pos(-s as int, c as int);
                    vstd::arithmetic::div_mod::lemma_div_is_ordered_by_denominator(-s as int, 1, c as int);
                }
                -((-s) / c) as i32
            }
        }
    }
}

/// `<=` on `i32` is a linear order.
pub proof fn lemma_i32_linear_order()
    ensures
        is_linear_order::<i32>(),
{
}

} // verus!
