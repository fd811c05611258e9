use vstd::prelude::*;
use vstd::multiset::Multiset;
use vstd::relations::sorted_by;

use crate::numeric::{
    is_linear_order, Ordered, Zero,
};

verus! {

/// The order `<=` of `T` as a relation.
pub open spec fn le_relation<T: Ordered>() -> spec_fn(T, T) -> bool {
    |a: T, b: T| T::spec_at_most(a, b)
}

/// The middle element of a window sorted by `<=`.
pub open spec fn sorted_middle<T: Ordered>(window: Seq<T>) -> T {
    window.sort_by(le_relation::<T>())[window.len() as int / 2]
}

/// The result of the three-comparison sorting network on `a`, `b`, `c`:
/// order `a, b`, then `b, c`, then `a, b` again, and take the middle.
pub open spec fn median_of_three<T: Ordered>(a: T, b: T, c: T) -> T {
    let (a1, b1) = if T::spec_less_than(b, a) { (b, a) } else { (a, b) };
    let b2 = if T::spec_less_than(c, b1) { c } else { b1 };
    if T::spec_less_than(b2, a1) { a1 } else { b2 }
}

/// A median-of-3 window as plain values: the three cells, the cell the next
/// sample goes to, and the number of samples seen (at most three).
pub open spec fn median3_next<T>(w: (Seq<T>, int, int), input: T) -> (Seq<T>, int, int) {
    (w.0.update(w.1, input), (w.1 + 1) % 3, if w.2 < 3 { w.2 + 1 } else { 3 })
}

/// What a median-of-3 filter with window `w` returns for `input`: the input
/// while fewer than three samples have been seen, else the sorting network's
/// median of the cells.
pub open spec fn median3_output<T: Ordered>(w: (Seq<T>, int, int), input: T) -> T {
    let n = median3_next(w, input);
    if n.2 < 3 {
        input
    } else {
        median_of_three(n.0[0], n.0[1], n.0[2])
    }
}

/// The window of a median-of-3 filter after `inputs`, since it was made or
/// last reset.
pub open spec fn median3_window<T: Zero>(inputs: Seq<T>) -> (Seq<T>, int, int)
    decreases inputs.len(),
{
    if inputs.len() == 0 {
        (seq![T::spec_zero(), T::spec_zero(), T::spec_zero()], 0, 0)
    } else {
        median3_next(median3_window(inputs.drop_last()), inputs.last())
    }
}

/// A non-linear median-of-3 filter for spike rejection.
///
/// This filter maintains a window of the last three samples and returns the
/// median value.  It removes single-sample outliers without smearing the
/// error into subsequent samples like a linear low-pass filter would.
#[derive(Clone, Copy, Debug, PartialEq)]
pub struct Median3Filter<T> {
    buffer: [T; 3],
    index: usize,
    count: usize,
}

impl<T> View for Median3Filter<T> {
    /// The three sample cells, the cell the next sample goes to, and the
    /// number of samples seen (at most three).
    type V = ([T; 3], usize, usize);

    closed spec fn view(&self) -> ([T; 3], usize, usize) {
        (self.buffer, self.index, self.count)
    }
}

impl<T: Zero> Default for Median3Filter<T> {
    fn default() -> (f: Self)
        ensures
            f@.0@ == seq![T::spec_zero(), T::spec_zero(), T::spec_zero()],
            f@.1 == 0,
            f@.2 == 0,
    {
        Self::new()
    }
}

impl<T: Zero> Median3Filter<T> {
    pub fn new() -> (f: Self)
        ensures
            f@.0@ == seq![T::spec_zero(), T::spec_zero(), T::spec_zero()],
            f@.1 == 0,
            f@.2 == 0,
    {
        let z = T::zero();
        let f = Median3Filter { buffer: [z, z, z], index: 0, count: 0 };
        proof {
            assert(f.buffer@ =~= seq![z, z, z]);
        }
        f
    }
}

/// A median-of-3 filter over values of type `T`, for use beside filters with
/// gains of type `F`.
///
/// The output is the median of the last three inputs.  During the first two
/// samples after a reset, the filter returns the raw input.
pub struct Median3FilterTF<T, F> {
    buffer: [T; 3],
    index: usize,
    count: usize,
    dummy: F,
}

impl<T, F> View for Median3FilterTF<T, F> {
    /// The three sample cells, the cell the next sample goes to, and the
    /// number of samples seen (at most three).
    type V = ([T; 3], usize, usize);

    closed spec fn view(&self) -> ([T; 3], usize, usize) {
        (self.buffer, self.index, self.count)
    }
}

impl<T, F> Median3FilterTF<T, F> {
    /// The view as plain values.
    pub open spec fn window(&self) -> (Seq<T>, int, int) {
        (self@.0@, self@.1 as int, self@.2 as int)
    }
}

impl<T: Zero, F: Zero> Default for Median3FilterTF<T, F> {
    fn default() -> (f: Self)
        ensures
            f@.0@ == seq![T::spec_zero(), T::spec_zero(), T::spec_zero()],
            f@.1 == 0,
            f@.2 == 0,
            f.window() == median3_window(Seq::<T>::empty()),
    {
        Self::new()
    }
}

impl<T: Zero, F: Zero> Median3FilterTF<T, F> {
    pub fn new() -> (f: Self)
        ensures
            f@.0@ == seq![T::spec_zero(), T::spec_zero(), T::spec_zero()],
            f@.1 == 0,
            f@.2 == 0,
            f.window() == median3_window(Seq::<T>::empty()),
    {
        let z = T::zero();
        let f = Median3FilterTF { buffer: [z, z, z], index: 0, count: 0, dummy: F::zero() };
        proof {
            assert(f.buffer@ =~= seq![z, z, z]);
        }
        f
    }
}

impl<T: Zero + Ordered, F> Median3FilterTF<T, F> {
    /// Stores `input` and returns the median of the last three inputs, or
    /// `input` itself while fewer than three have been seen.
    pub fn apply(&mut self, input: T) -> (out: T)
        requires
            old(self)@.1 < 3,
            old(self)@.2 <= 3,
        ensures
            final(self)@.0@ == old(self)@.0@.update(old(self)@.1 as int, input),
            final(self)@.1 == (old(self)@.1 + 1) % 3,
            final(self)@.2 == if old(self)@.2 < 3 { old(self)@.2 + 1 } else { 3 },
            out == if final(self)@.2 < 3 {
                input
            } else {
                median_of_three(final(self)@.0[0], final(self)@.0[1], final(self)@.0[2])
            },
            final(self)@.2 == 3 && is_linear_order::<T>() ==> out == sorted_middle(final(self)@.0@),
            final(self).window() == median3_next(old(self).window(), input),
            out == median3_output(old(self).window(), input),
    {
        // store the new sample in the ring buffer
        self.buffer[self.index] = input;
        self.index = (self.index + 1) % 3;
        if self.count < 3 {
            self.count += 1;
        }
        // until the buffer is full, return the input
        if self.count < 3 {
            return input;
        }
        // sorting network for three values
        let mut a = self.buffer[0];
        let mut b = self.buffer[1];
        let mut c = self.buffer[2];
        if b.less_than(a) {
            let t = a;
            a = b;
            b = t;
        }
        if c.less_than(b) {
            let t = b;
            b = c;
            c = t;
        }
        if b.less_than(a) {
            let t = a;
            a = b;
            b = t;
        }
        proof {
            if is_linear_order::<T>() {
                lemma_median_of_three_is_sorted_middle(self.buffer[0], self.buffer[1], self.buffer[2]);
                assert(self.buffer@ =~= seq![self.buffer[0], self.buffer[1], self.buffer[2]]);
            }
        }
        // b is now the median
        b
    }

    /// Clears the window.
    pub fn reset(&mut self)
        ensures
            final(self)@.0@ == seq![T::spec_zero(), T::spec_zero(), T::spec_zero()],
            final(self)@.1 == 0,
            final(self)@.2 == 0,
            final(self).window() == median3_window(Seq::<T>::empty()),
    {
        let z = T::zero();
        self.buffer = [z, z, z];
        self.index = 0;
        self.count = 0;
        proof {
            assert(self.buffer@ =~= seq![z, z, z]);
        }
    }
}

/// A moving-median window of `n` cells as plain values: the cells and the
/// cell the next sample goes to.
pub open spec fn median_next<T>(w: (Seq<T>, int), input: T, n: nat) -> (Seq<T>, int) {
    (w.0.update(w.1, input), (w.1 + 1) % (n as int))
}

/// The window of a moving median of `n` cells after `inputs`, since it was
/// made or last reset.
pub open spec fn median_window<T: Zero>(inputs: Seq<T>, n: nat) -> (Seq<T>, int)
    decreases inputs.len(),
{
    if inputs.len() == 0 {
        (Seq::new(n, |i: int| T::spec_zero()), 0)
    } else {
        median_next(median_window(inputs.drop_last(), n), inputs.last(), n)
    }
}

/// The last `n` of `inputs`, or, while there are fewer, all of them after as
/// many zeros as make `n` values.
pub open spec fn padded_recent<T: Zero>(inputs: Seq<T>, n: nat) -> Seq<T> {
    if inputs.len() >= n {
        inputs.subrange(inputs.len() - n, inputs.len() as int)
    } else {
        Seq::new((n - inputs.len()) as nat, |i: int| T::spec_zero()) + inputs
    }
}

/// General-purpose moving median over a window of `N` samples.
///
/// A copy of the window is sorted on every update.
#[derive(Clone, Copy, Debug, PartialEq)]
pub struct MedianFilter<T, const N: usize> {
    buffer: [T; N],
    index: usize,
}

impl<T, const N: usize> View for MedianFilter<T, N> {
    /// The sample cells and the cell the next sample goes to.
    type V = ([T; N], usize);

    closed spec fn view(&self) -> ([T; N], usize) {
        (self.buffer, self.index)
    }
}

impl<T, const N: usize> MedianFilter<T, N> {
    /// The view as plain values.
    pub open spec fn window(&self) -> (Seq<T>, int) {
        (self@.0@, self@.1 as int)
    }
}

impl<T: Zero, const N: usize> Default for MedianFilter<T, N> {
    fn default() -> (f: Self)
        ensures
            forall|i: int| 0 <= i < N ==> f@.0[i] == T::spec_zero(),
            f@.1 == 0,
            f.window() == median_window(Seq::<T>::empty(), N as nat),
    {
        Self::new()
    }
}

impl<T: Zero, const N: usize> MedianFilter<T, N> {
    pub fn new() -> (f: Self)
        ensures
            forall|i: int| 0 <= i < N ==> f@.0[i] == T::spec_zero(),
            f@.1 == 0,
            f.window() == median_window(Seq::<T>::empty(), N as nat),
    {
        let f = MedianFilter { buffer: [T::zero(); N], index: 0 };
        proof {
            assert(f.buffer@ =~= Seq::new(N as nat, |i: int| T::spec_zero()));
        }
        f
    }
}

impl<T: Zero + Ordered, const N: usize> MedianFilter<T, N> {
    /// Stores `input` in place of the oldest sample and returns the middle
    /// element of the window sorted by `<=`.
    pub fn apply(&mut self, input: T) -> (out: T)
        requires
            N >= 1,
            old(self)@.1 < N,
        ensures
            final(self)@.0@ == old(self)@.0@.update(old(self)@.1 as int, input),
            final(self)@.1 == (old(self)@.1 + 1) % (N as int),
            final(self)@.0@.contains(out),
            is_linear_order::<T>() ==> out == sorted_middle(final(self)@.0@),
            final(self).window() == median_next(old(self).window(), input, N as nat),
    {
        self.buffer[self.index] = input;
        self.index = (self.index + 1) % N;

        // sort a copy, leaving the ring buffer order undisturbed
        let sorted = insertion_sorted(self.buffer);
        proof {
            broadcast use vstd::seq_lib::group_to_multiset_ensures;
            assert(sorted@.contains(sorted@[N as int / 2]));
            assert(self.buffer@.to_multiset().count(sorted@[N as int / 2]) > 0);
            if is_linear_order::<T>() {
                let leq = le_relation::<T>();
                self.buffer@.lemma_sort_by_ensures(leq);
                vstd::seq_lib::lemma_sorted_unique(sorted@, self.buffer@.sort_by(leq), leq);
            }
        }
        sorted[N / 2]
    }

    /// Sets every sample to zero.
    pub fn reset(&mut self)
        ensures
            forall|i: int| 0 <= i < N ==> final(self)@.0[i] == T::spec_zero(),
            final(self)@.1 == 0,
            final(self).window() == median_window(Seq::<T>::empty(), N as nat),
    {
        self.buffer = [T::zero(); N];
        self.index = 0;
        proof {
            assert(self.buffer@ =~= Seq::new(N as nat, |i: int| T::spec_zero()));
        }
    }
}

/// Whether the elements of `s` at indices `lo .. hi` are in `<=` order.
pub open spec fn le_between<T: Ordered>(s: Seq<T>, lo: int, hi: int) -> bool {
    forall|a: int, b: int| lo <= a < b < hi ==> T::spec_at_most(#[trigger] s[a], #[trigger] s[b])
}

/// `values` sorted by insertion, moving each element left past every
/// element that is greater than it.
fn insertion_sorted<T: Ordered, const N: usize>(values: [T; N]) -> (sorted: [T; N])
    ensures
        sorted@.to_multiset() == values@.to_multiset(),
        is_linear_order::<T>() ==> sorted_by(sorted@, le_relation::<T>()),
{
    let mut sorted = values;
    if N == 0 {
        return sorted;
    }
    let mut i: usize = 1;
    while i < N
        invariant
            1 <= i <= N,
            sorted@.len() == N,
            sorted@.to_multiset() == values@.to_multiset(),
            is_linear_order::<T>() ==> le_between(sorted@, 0, i as int),
        decreases N - i,
    {
        let mut j: usize = i;
        while j > 0 && sorted[j].less_than(sorted[j - 1])
            invariant
                0 <= j <= i < N,
                sorted@.len() == N,
                sorted@.to_multiset() == values@.to_multiset(),
                is_linear_order::<T>() ==> {
                    &&& le_between(sorted@, 0, j as int)
                    &&& le_between(sorted@, j as int + 1, i as int + 1)
                    &&& forall|a: int, b: int|
                        0 <= a < j < b <= i ==> T::spec_at_most(#[trigger] sorted@[a], #[trigger] sorted@[b])
                    &&& forall|b: int| j < b <= i ==> T::spec_at_most(sorted@[j as int], #[trigger] sorted@[b])
                },
            decreases j,
        {
            let ghost before = sorted@;
            let x = sorted[j];
            let y = sorted[j - 1];
            sorted[j] = y;
            sorted[j - 1] = x;
            proof {
                lemma_swap_to_multiset(before, j - 1, j as int);
                assert(sorted@ =~= before.update(j as int, y).update(j - 1, x));
                if is_linear_order::<T>() {
                    // x < y, so x <= y
                    assert(T::spec_less_than(x, y));
                    assert(T::spec_at_most(x, y));
                    let s = sorted@;
                    let jj = j - 1;
                    assert forall|a: int, b: int| jj + 1 <= a < b < i + 1 implies T::spec_at_most(
                        #[trigger] s[a],
                        #[trigger] s[b],
                    ) by {
                        if a == j {
                            assert(before[jj] == s[a]);
                            assert(before[b] == s[b]);
                        } else {
                            assert(before[a] == s[a]);
                        }
                    }
                    assert forall|a: int, b: int| 0 <= a < jj < b <= i implies T::spec_at_most(
                        #[trigger] s[a],
                        #[trigger] s[b],
                    ) by {
                        assert(before[a] == s[a]);
                        if b == j {
                            assert(before[jj] == s[b]);
                        } else {
                            assert(before[b] == s[b]);
                        }
                    }
                    assert forall|b: int| jj < b <= i implies T::spec_at_most(s[jj], #[trigger] s[b]) by {
                        if b > j {
                            assert(before[b] == s[b]);
                            assert(T::spec_at_most(before[j as int], before[b]));
                        }
                    }
                    assert forall|a: int, b: int| 0 <= a < b < jj implies T::spec_at_most(
                        #[trigger] s[a],
                        #[trigger] s[b],
                    ) by {
                        assert(before[a] == s[a]);
                        assert(before[b] == s[b]);
                    }
                }
            }
            j -= 1;
        }
        proof {
            if is_linear_order::<T>() {
                let s = sorted@;
                if j > 0 {
                    assert(!T::spec_less_than(s[j as int], s[j - 1]));
                    assert(T::spec_at_most(s[j - 1], s[j as int]));
                }
                assert forall|a: int, b: int| 0 <= a < b < i + 1 implies T::spec_at_most(
                    #[trigger] s[a],
                    #[trigger] s[b],
                ) by {
                    if b < j {
                    } else if b == j {
                        if a < j - 1 {
                            assert(T::spec_at_most(s[a], s[j - 1]));
                        }
                    } else if a < j {
                    } else if a == j {
                    } else {
                    }
                }
            }
        }
        i += 1;
    }
    proof {
        if is_linear_order::<T>() {
            assert forall|a: int, b: int| 0 <= a < b < sorted@.len() implies #[trigger] (
            le_relation::<T>())(sorted@[a], sorted@[b]) by {
                assert(T::spec_at_most(sorted@[a], sorted@[b]));
            }
        }
    }
    sorted
}

/// Exchanging two elements keeps the multiset of a sequence.
proof fn lemma_swap_to_multiset<T>(s: Seq<T>, i: int, j: int)
    requires
        0 <= i < s.len(),
        0 <= j < s.len(),
    ensures
        s.update(j, s[i]).update(i, s[j]).to_multiset() == s.to_multiset(),
{
    broadcast use vstd::seq_lib::group_to_multiset_ensures;
    broadcast use vstd::multiset::group_multiset_axioms;
    let t = s.update(j, s[i]);
    vstd::seq_lib::to_multiset_update(s, j, s[i]);
    vstd::seq_lib::to_multiset_update(t, i, s[j]);
    assert(t.to_multiset().insert(s[j]).remove(t[i]) =~= s.to_multiset());
}

/// For a linear order the sorting network finds the median: the middle of
/// the three values sorted.
pub proof fn lemma_median_of_three_is_sorted_middle<T: Ordered>(a: T, b: T, c: T)
    requires
        is_linear_order::<T>(),
    ensures
        median_of_three(a, b, c) == sorted_middle(seq![a, b, c]),
{
    broadcast use vstd::seq_lib::group_to_multiset_ensures;
    broadcast use vstd::multiset::group_multiset_axioms;
    let leq = le_relation::<T>();
    let (a1, b1) = if T::spec_less_than(b, a) { (b, a) } else { (a, b) };
    let (b2, c2) = if T::spec_less_than(c, b1) { (c, b1) } else { (b1, c) };
    let t = if T::spec_less_than(b2, a1) { seq![b2, a1, c2] } else { seq![a1, b2, c2] };
    // the network's three values, in order
    assert(T::spec_at_most(a1, b1));
    assert(T::spec_at_most(b2, c2));
    assert(T::spec_at_most(a1, c2));
    assert(T::spec_at_most(t[0], t[1]));
    assert(T::spec_at_most(t[1], t[2]));
    assert(T::spec_at_most(t[0], t[2]));
    assert(sorted_by(t, leq));
    // and a permutation of the inputs
    let w = seq![a, b, c];
    assert(w.to_multiset() =~= Multiset::empty().insert(a).insert(b).insert(c)) by {
        assert(w =~= seq![a].push(b).push(c));
        assert(seq![a] =~= Seq::<T>::empty().push(a));
    }
    assert(t.to_multiset() =~= Multiset::empty().insert(t[0]).insert(t[1]).insert(t[2])) by {
        assert(t =~= seq![t[0]].push(t[1]).push(t[2]));
        assert(seq![t[0]] =~= Seq::<T>::empty().push(t[0]));
    }
    assert(t.to_multiset() =~= w.to_multiset());
    w.lemma_sort_by_ensures(leq);
    vstd::seq_lib::lemma_sorted_unique(t, w.sort_by(leq), leq);
}

/// A single spike is rejected: when two of the three samples agree, the
/// median is their value, whatever the third.
pub proof fn lemma_single_spike_rejected<T: Ordered>(v: T, spike: T)
    requires
        is_linear_order::<T>(),
    ensures
        median_of_three(v, v, spike) == v,
        median_of_three(v, spike, v) == v,
        median_of_three(spike, v, v) == v,
{
}

/// After any inputs since the filter was made or reset, each of the last
/// three inputs sits in the cell of its position modulo three, the next
/// sample goes to the cell of the number of inputs modulo three, and the
/// count is the number of inputs, at most three.
pub proof fn lemma_median3_window_holds_last_three<T: Zero>(inputs: Seq<T>)
    ensures
        median3_window(inputs).0.len() == 3,
        median3_window(inputs).1 == inputs.len() % 3,
        median3_window(inputs).2 == if inputs.len() < 3 { inputs.len() as int } else { 3 },
        forall|i: int|
            0 <= i < inputs.len() && inputs.len() - 3 <= i ==> #[trigger] median3_window(inputs).0[i % 3]
                == inputs[i],
    decreases inputs.len(),
{
    if inputs.len() > 0 {
        let prefix = inputs.drop_last();
        lemma_median3_window_holds_last_three(prefix);
        let n = prefix.len() as int;
        let w = median3_window(prefix);
        assert forall|i: int|
            0 <= i < inputs.len() && inputs.len() - 3 <= i implies #[trigger] median3_window(inputs).0[i % 3]
            == inputs[i] by {
            if i < n {
                assert(i % 3 != n % 3);
                assert(w.0[i % 3] == prefix[i]);
            }
        }
    }
}

/// The median-of-3 law: fed `input` after `inputs` (since it was made or
/// reset), the filter returns `input` while it has seen fewer than three
/// samples, and otherwise, where `<=` is a linear order, the median of the
/// last three samples.
pub proof fn lemma_median3_is_median_of_last_three<T: Zero + Ordered>(inputs: Seq<T>, input: T)
    ensures
        inputs.len() < 2 ==> median3_output(median3_window(inputs), input) == input,
        inputs.len() >= 2 && is_linear_order::<T>() ==> median3_output(median3_window(inputs), input)
            == sorted_middle(seq![inputs[inputs.len() - 2], inputs[inputs.len() - 1], input]),
{
    let all = inputs.push(input);
    assert(all.drop_last() =~= inputs);
    lemma_median3_window_holds_last_three(all);
    lemma_median3_window_holds_last_three(inputs);
    if inputs.len() >= 2 && is_linear_order::<T>() {
        let n = all.len() as int;
        let cells = median3_window(all).0;
        let a = inputs[inputs.len() - 2];
        let b = inputs[inputs.len() - 1];
        assert(cells[(n - 3) % 3] == a);
        assert(cells[(n - 2) % 3] == b);
        assert(cells[(n - 1) % 3] == input);
        lemma_median_of_three_is_sorted_middle(cells[0], cells[1], cells[2]);
        lemma_same_three_same_middle(seq![cells[0], cells[1], cells[2]], seq![a, b, input]);
        assert(cells =~= seq![cells[0], cells[1], cells[2]]);
    }
}

/// Three values in any order have the same sorted middle.
proof fn lemma_same_three_same_middle<T: Ordered>(s: Seq<T>, t: Seq<T>)
    requires
        is_linear_order::<T>(),
        s.len() == 3,
        t.len() == 3,
        (s =~= t) || (s =~= seq![t[1], t[2], t[0]]) || (s =~= seq![t[2], t[0], t[1]]),
    ensures
        sorted_middle(s) == sorted_middle(t),
{
    broadcast use vstd::seq_lib::group_to_multiset_ensures;
    broadcast use vstd::multiset::group_multiset_axioms;
    let leq = le_relation::<T>();
    assert(s.to_multiset() =~= Multiset::empty().insert(s[0]).insert(s[1]).insert(s[2])) by {
        assert(s =~= seq![s[0]].push(s[1]).push(s[2]));
        assert(seq![s[0]] =~= Seq::<T>::empty().push(s[0]));
    }
    assert(t.to_multiset() =~= Multiset::empty().insert(t[0]).insert(t[1]).insert(t[2])) by {
        assert(t =~= seq![t[0]].push(t[1]).push(t[2]));
        assert(seq![t[0]] =~= Seq::<T>::empty().push(t[0]));
    }
    assert(s.to_multiset() =~= t.to_multiset());
    s.lemma_sort_by_ensures(leq);
    t.lemma_sort_by_ensures(leq);
    vstd::seq_lib::lemma_sorted_unique(s.sort_by(leq), t.sort_by(leq), leq);
}

/// After any inputs since the filter was made or reset, each of the last `n`
/// inputs sits in the cell of its position modulo `n`, the cells no input
/// has reached yet hold zero, and the next sample goes to the cell of the
/// number of inputs modulo `n`.
pub proof fn lemma_median_window_holds_recent<T: Zero>(inputs: Seq<T>, n: nat)
    requires
        n >= 1,
    ensures
        median_window(inputs, n).0.len() == n,
        median_window(inputs, n).1 == (inputs.len() as int) % (n as int),
        forall|i: int|
            0 <= i < inputs.len() && inputs.len() - n <= i ==> #[trigger] median_window(inputs, n).0[i
                % (n as int)] == inputs[i],
        forall|j: int| inputs.len() <= j < n ==> #[trigger] median_window(inputs, n).0[j] == T::spec_zero(),
    decreases inputs.len(),
{
    let nn = n as int;
    if inputs.len() > 0 {
        let prefix = inputs.drop_last();
        lemma_median_window_holds_recent(prefix, n);
        let m = prefix.len() as int;
        let w = median_window(prefix, n);
        vstd::arithmetic::div_mod::lemma_mod_pos_bound(m, nn);
        vstd::arithmetic::div_mod::lemma_add_mod_noop_right(1, m, nn);
        assert forall|i: int|
            0 <= i < inputs.len() && inputs.len() - n <= i implies #[trigger] median_window(inputs, n).0[i
            % nn] == inputs[i] by {
            vstd::arithmetic::div_mod::lemma_mod_pos_bound(i, nn);
            if i < m {
                vstd::arithmetic::div_mod::lemma_mod_equivalence(m, i, nn);
                vstd::arithmetic::div_mod::lemma_small_mod((m - i) as nat, n);
                assert(i % nn != m % nn);
                assert(w.0[i % nn] == prefix[i]);
            }
        }
        assert forall|j: int| inputs.len() <= j < n implies #[trigger] median_window(inputs, n).0[j]
            == T::spec_zero() by {
            vstd::arithmetic::div_mod::lemma_small_mod(m as nat, n);
        }
    }
}

/// Sequences with the same elements, counted with multiplicity, have the
/// same sorted middle where `<=` is a linear order.
proof fn lemma_same_elements_same_middle<T: Ordered>(s: Seq<T>, t: Seq<T>)
    requires
        is_linear_order::<T>(),
        s.to_multiset() == t.to_multiset(),
    ensures
        sorted_middle(s) == sorted_middle(t),
{
    broadcast use vstd::seq_lib::group_to_multiset_ensures;
    let leq = le_relation::<T>();
    s.lemma_sort_by_ensures(leq);
    t.lemma_sort_by_ensures(leq);
    vstd::seq_lib::lemma_sorted_unique(s.sort_by(leq), t.sort_by(leq), leq);
    assert(s.len() == s.to_multiset().len());
    assert(t.len() == t.to_multiset().len());
    assert(s.sort_by(leq) == t.sort_by(leq));
}

/// The moving-median law: after any inputs since the filter was made or
/// reset, where `<=` is a linear order, the sorted middle of the window is
/// that of the last `n` inputs, or of all of them padded with zeros while
/// there are fewer than `n`.  `apply` returns it for the window that
/// includes its input.
pub proof fn lemma_median_is_middle_of_recent<T: Zero + Ordered>(inputs: Seq<T>, n: nat)
    requires
        n >= 1,
        is_linear_order::<T>(),
    ensures
        sorted_middle(median_window(inputs, n).0) == sorted_middle(padded_recent(inputs, n)),
{
    broadcast use vstd::seq_lib::group_to_multiset_ensures;
    broadcast use vstd::multiset::group_multiset_axioms;
    lemma_median_window_holds_recent(inputs, n);
    let cells = median_window(inputs, n).0;
    let m = inputs.len() as int;
    let nn = n as int;
    if m >= nn {
        let last = inputs.subrange(m - nn, m);
        let r = m % nn;
        vstd::arithmetic::div_mod::lemma_mod_pos_bound(m, nn);
        vstd::arithmetic::div_mod::lemma_fundamental_div_mod(m, nn);
        let q = m / nn;
        let front = last.subrange(0, nn - r);
        let back = last.subrange(nn - r, nn);
        assert forall|j: int| 0 <= j < nn implies #[trigger] cells[j] == (back + front)[j] by {
            if j < r {
                let i = m - r + j;
                assert(i == nn * q + j);
                vstd::arithmetic::div_mod::lemma_mod_multiples_vanish(q, j, nn);
                vstd::arithmetic::div_mod::lemma_small_mod(j as nat, n);
                assert(i % nn == j);
                assert(cells[i % nn] == inputs[i]);
            } else {
                let i = m - r - nn + j;
                assert(nn * (q - 1) == nn * q - nn) by (nonlinear_arith);
                assert(i == nn * (q - 1) + j);
                vstd::arithmetic::div_mod::lemma_mod_multiples_vanish(q - 1, j, nn);
                vstd::arithmetic::div_mod::lemma_small_mod(j as nat, n);
                assert(i % nn == j);
                assert(cells[i % nn] == inputs[i]);
            }
        }
        assert(cells =~= back + front);
        assert(last =~= front + back);
        vstd::seq_lib::lemma_multiset_commutative(back, front);
        vstd::seq_lib::lemma_multiset_commutative(front, back);
        assert(cells.to_multiset() =~= last.to_multiset());
        lemma_same_elements_same_middle(cells, last);
    } else {
        let zeros = Seq::new((n - inputs.len()) as nat, |i: int| T::spec_zero());
        assert forall|j: int| 0 <= j < nn implies #[trigger] cells[j] == (inputs + zeros)[j] by {
            if j < m {
                vstd::arithmetic::div_mod::lemma_small_mod(j as nat, n);
                assert(cells[j % nn] == inputs[j]);
            }
        }
        assert(cells =~= inputs + zeros);
        vstd::seq_lib::lemma_multiset_commutative(inputs, zeros);
        vstd::seq_lib::lemma_multiset_commutative(zeros, inputs);
        assert(cells.to_multiset() =~= padded_recent(inputs, n).to_multiset());
        lemma_same_elements_same_middle(cells, padded_recent(inputs, n));
    }
}

} // verus!
