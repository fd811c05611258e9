use vstd::prelude::*;

use crate::numeric::{
    exact_additive, lemma_add_then_subtract, lemma_minus_and_assoc, Additive, Mean, Zero,
};
use crate::rolling_buffer::next_window;

verus! {

/// The running sum after `input` enters: the input is added and, once the
/// window is full, the oldest sample is taken away.
pub open spec fn next_sum<T: Additive>(window: Seq<T>, sum: T, input: T, n: nat) -> T {
    if window.len() < n {
        T::spec_plus(sum, input)
    } else {
        T::spec_minus(T::spec_plus(sum, input), window[0])
    }
}

/// Whether `next_sum(window, sum, input, n)` can be computed.
pub open spec fn next_sum_ok<T: Additive>(window: Seq<T>, sum: T, input: T, n: nat) -> bool {
    &&& T::add_ok(sum, input)
    &&& window.len() >= n ==> T::sub_ok(T::spec_plus(sum, input), window[0])
}

/// Simple moving average filter: the mean of the last `N` inputs, or of all
/// inputs while fewer than `N` have been seen.
///
/// The sum of the window is kept up to date rather than recomputed.
#[derive(Clone, Copy, Debug, PartialEq)]
pub struct MovingAverageFilter<T, const N: usize> {
    count: usize,
    index: usize,
    sum: T,
    samples: [T; N],
}

impl<T, const N: usize> MovingAverageFilter<T, N> {
    /// The internal consistency of the ring of samples.
    pub closed spec fn wf(&self) -> bool {
        &&& self.count <= N
        &&& self.index <= N
        &&& self.count < N ==> self.index == self.count
        &&& self.count == N && N > 0 ==> self.index >= 1
    }

    /// The samples in the window, oldest first.
    pub closed spec fn window(&self) -> Seq<T> {
        if self.count < N {
            self.samples@.subrange(0, self.count as int)
        } else {
            self.samples@.subrange(self.index as int, N as int) + self.samples@.subrange(0, self.index as int)
        }
    }

    /// The running sum of the window.
    pub closed spec fn sum(&self) -> T {
        self.sum
    }
}

impl<T: Zero, const N: usize> Default for MovingAverageFilter<T, N> {
    fn default() -> (f: Self)
        ensures
            f.wf(),
            f.window() == Seq::<T>::empty(),
            f.sum() == T::spec_zero(),
    {
        Self::new()
    }
}

impl<T: Zero, const N: usize> MovingAverageFilter<T, N> {
    /// A filter with an empty window.
    pub fn new() -> (f: Self)
        ensures
            f.wf(),
            f.window() == Seq::<T>::empty(),
            f.sum() == T::spec_zero(),
    {
        let z = T::zero();
        let f = MovingAverageFilter { count: 0, index: 0, sum: z, samples: [z; N] };
        proof {
            assert(f.window() =~= Seq::<T>::empty());
        }
        f
    }
}

impl<T: Additive + Mean, const N: usize> MovingAverageFilter<T, N> {
    /// Empties the window.
    pub fn reset(&mut self)
        ensures
            final(self).wf(),
            final(self).window() == Seq::<T>::empty(),
            final(self).sum() == T::spec_zero(),
    {
        self.sum = T::zero();
        self.count = 0;
        self.index = 0;
        proof {
            assert(self.window() =~= Seq::<T>::empty());
        }
    }

    /// Adds `input` to the window and returns the mean of the window.
    pub fn update(&mut self, input: T) -> (out: T)
        requires
            old(self).wf(),
            N >= 1,
            next_sum_ok(old(self).window(), old(self).sum(), input, N as nat),
        ensures
            final(self).wf(),
            final(self).window() == next_window(old(self).window(), input, N as nat),
            final(self).sum() == next_sum(old(self).window(), old(self).sum(), input, N as nat),
            out == T::spec_mean(final(self).sum(), final(self).window().len()),
    {
        let ghost old_window = self.window();
        self.sum = self.sum.plus(input);
        if self.count < N {
            self.samples[self.index] = input;
            self.index += 1;
            self.count += 1;
            proof {
                assert(self.window() =~= old_window.push(input));
            }
            return T::mean(self.sum, self.count);
        }
        if self.index == N {
            self.index = 0;
        }
        proof {
            assert(old_window[0] == self.samples@[self.index as int]);
        }
        self.sum = self.sum.minus(self.samples[self.index]);
        self.samples[self.index] = input;
        self.index += 1;
        proof {
            assert(self.window() =~= old_window.push(input).drop_first());
        }
        T::mean(self.sum, N)
    }
}

/// The exact sum of a sequence of integers.
pub open spec fn sum_of(s: Seq<i32>) -> int
    decreases s.len(),
{
    if s.len() == 0 {
        0
    } else {
        sum_of(s.drop_last()) + s.last()
    }
}

proof fn lemma_sum_of_first(s: Seq<i32>)
    requires
        s.len() > 0,
    ensures
        sum_of(s) == s[0] + sum_of(s.drop_first()),
    decreases s.len(),
{
    if s.len() > 1 {
        lemma_sum_of_first(s.drop_last());
        assert(s.drop_last().drop_first() =~= s.drop_first().drop_last());
        assert(sum_of(s.drop_first()) == sum_of(s.drop_first().drop_last()) + s.drop_first().last());
    } else {
        assert(sum_of(s.drop_last()) == 0);
        assert(sum_of(s.drop_first()) == 0);
    }
}

/// For integers the running sum stays the exact sum of the window: adding
/// the input and taking away the sample that leaves gives the sum of the
/// next window.  So `update` returns the mean of the last `N` inputs (or of
/// all inputs while fewer than `N` have been seen), rounded towards zero.
pub proof fn lemma_running_sum_is_window_sum(window: Seq<i32>, sum: i32, input: i32, n: nat)
    requires
        n > 0,
        window.len() <= n,
        sum == sum_of(window),
        next_sum_ok(window, sum, input, n),
    ensures
        next_sum(window, sum, input, n) == sum_of(next_window(window, input, n)),
        next_window(window, input, n).len() == (if window.len() < n { window.len() + 1 } else { n }),
{
    assert(window.push(input).drop_last() =~= window);
    if window.len() >= n {
        lemma_sum_of_first(window.push(input));
        assert(window.push(input)[0] == window[0]);
    }
}

/// The sum of a sequence of signal values, added from the left.
pub open spec fn window_sum<T: Additive>(s: Seq<T>) -> T
    decreases s.len(),
{
    if s.len() == 0 {
        T::spec_zero()
    } else {
        T::spec_plus(window_sum(s.drop_last()), s.last())
    }
}

/// The sum of a non-empty sequence is its first value plus the sum of the
/// rest, in exact arithmetic.
proof fn lemma_window_sum_first<T: Additive>(s: Seq<T>)
    requires
        exact_additive::<T>(),
        s.len() > 0,
    ensures
        window_sum(s) == T::spec_plus(s[0], window_sum(s.drop_first())),
    decreases s.len(),
{
    let zero = T::spec_zero();
    if s.len() > 1 {
        let dl = s.drop_last();
        lemma_window_sum_first(dl);
        assert(dl.drop_first() =~= s.drop_first().drop_last());
        assert(s.drop_first().last() == s.last());
        assert(dl[0] == s[0]);
        assert(window_sum(s) == T::spec_plus(window_sum(dl), s.last()));
        assert(window_sum(s.drop_first()) == T::spec_plus(
            window_sum(s.drop_first().drop_last()),
            s.drop_first().last(),
        ));
        lemma_minus_and_assoc(s[0], window_sum(dl.drop_first()), s.last());
    } else {
        assert(s.drop_last() =~= Seq::<T>::empty());
        assert(s.drop_first() =~= Seq::<T>::empty());
        assert(window_sum(Seq::<T>::empty()) == zero);
        assert(s.last() == s[0]);
        lemma_minus_and_assoc(s[0], zero, zero);
        lemma_minus_and_assoc(zero, s[0], zero);
    }
}

/// The moving-average law: in exact arithmetic the running sum stays the
/// sum of the window, so `update` returns the mean of the last `N` inputs,
/// or of all inputs while fewer than `N` have been seen (`new` and `reset`
/// start with the empty window, whose sum is zero).
pub proof fn lemma_running_sum_is_window_sum_exact<T: Additive>(window: Seq<T>, sum: T, input: T, n: nat)
    requires
        exact_additive::<T>(),
        n > 0,
        window.len() <= n,
        sum == window_sum(window),
    ensures
        next_sum(window, sum, input, n) == window_sum(next_window(window, input, n)),
        window_sum(Seq::<T>::empty()) == T::spec_zero(),
{
    let w = window.push(input);
    assert(w.drop_last() =~= window);
    if window.len() >= n {
        lemma_window_sum_first(w);
        assert(w[0] == window[0]);
        let rest = window_sum(w.drop_first());
        lemma_minus_and_assoc(window[0], rest, T::spec_zero());
        lemma_add_then_subtract(rest, window[0]);
    }
}

} // verus!
