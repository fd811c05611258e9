use vstd::prelude::*;

use crate::circular_buffer::{
    lemma_distinct_positions, lemma_last_position, lemma_next_position, lemma_shift_position,
    lemma_wrapped_position, next_cell,
};

verus! {

/// The window after `input` enters a window that holds at most `n` items:
/// once full, the oldest item leaves.
pub open spec fn next_window<T>(window: Seq<T>, input: T, n: nat) -> Seq<T> {
    if window.len() < n {
        window.push(input)
    } else {
        window.push(input).drop_first()
    }
}

/// The window after each of `inputs` in turn entered an empty window of at
/// most `n` items.
pub open spec fn window_after<T>(inputs: Seq<T>, n: nat) -> Seq<T>
    decreases inputs.len(),
{
    if inputs.len() == 0 {
        Seq::empty()
    } else {
        next_window(window_after(inputs.drop_last(), n), inputs.last(), n)
    }
}

/// A window fed from empty holds exactly the newest `n` of its inputs, or
/// all of them while there are fewer than `n`.
pub proof fn lemma_window_holds_newest<T>(inputs: Seq<T>, n: nat)
    ensures
        window_after(inputs, n) == inputs.subrange(
            if inputs.len() > n { inputs.len() - n } else { 0 },
            inputs.len() as int,
        ),
    decreases inputs.len(),
{
    if inputs.len() > 0 {
        let prefix = inputs.drop_last();
        lemma_window_holds_newest(prefix, n);
        let start = if prefix.len() > n { prefix.len() - n } else { 0 };
        let w = prefix.subrange(start, prefix.len() as int);
        if w.len() < n {
            assert(w.push(inputs.last()) =~= inputs.subrange(
                if inputs.len() > n { inputs.len() - n } else { 0 },
                inputs.len() as int,
            ));
        } else {
            assert(w.push(inputs.last()).drop_first() =~= inputs.subrange(
                if inputs.len() > n { inputs.len() - n } else { 0 },
                inputs.len() as int,
            ));
        }
    } else {
        assert(inputs.subrange(0, 0) =~= Seq::<T>::empty());
    }
}

/// `N - 1` items of type `T`.
/// Once full, old items fall off the front when new items are pushed on the back.
#[derive(Clone, Copy, Debug, PartialEq)]
pub struct RollingBuffer<T, const N: usize> {
    /// The virtual beginning of the rolling buffer.
    begin: usize,
    /// The virtual end of the rolling buffer (one behind the last element).
    end: usize,
    /// The number of items in the rolling buffer.
    size: usize,
    buffer: [T; N],
}

impl<T: Copy + Default, const N: usize> Default for RollingBuffer<T, N> {
    /// Same as `new`: an empty buffer.
    fn default() -> (r: Self)
        ensures
            r.wf(),
            r@ == Seq::<T>::empty(),
    {
        Self::new()
    }
}

impl<T: Copy, const N: usize> RollingBuffer<T, N> {
    /// The internal consistency of the ring indices.  Items only start to
    /// fall off the front once the buffer has filled, so until then the
    /// items start at cell 0.
    pub closed spec fn wf(&self) -> bool {
        if N == 0 {
            self.begin == 0 && self.end == 0 && self.size == 0
        } else {
            &&& self.begin < N
            &&& self.end < N
            &&& self.size < N
            &&& self.end == (self.begin + self.size) % (N as int)
            &&& self.size < N - 1 ==> self.begin == 0
        }
    }

    /// The held items, oldest first.
    pub closed spec fn view(&self) -> Seq<T> {
        Seq::new(self.size as nat, |i: int| self.buffer@[(self.begin + i) % (N as int)])
    }

    /// The physical index of the oldest item.
    pub closed spec fn begin_index(&self) -> usize {
        self.begin
    }

    /// The physical index one behind the newest item.
    pub closed spec fn end_index(&self) -> usize {
        self.end
    }

    /// A buffer never holds more than its capacity, one less than its cells,
    /// and its end index lies as many cells behind its begin index, round the
    /// ring, as it holds items.
    pub proof fn lemma_size_within_capacity(&self)
        requires
            self.wf(),
            N >= 1,
        ensures
            self@.len() <= N - 1,
            self.begin_index() < N,
            self.end_index() < N,
            self.end_index() == (self.begin_index() + self@.len()) % (N as int),
            self@.len() < N - 1 ==> self.begin_index() == 0,
    {
    }

    /// An empty buffer.
    pub fn new() -> (rb: Self)
        where T: Default,
        ensures
            rb.wf(),
            rb@ == Seq::<T>::empty(),
            rb.begin_index() == 0,
            rb.end_index() == 0,
    {
        let z = T::default();
        proof {
            if N > 0 {
                vstd::arithmetic::div_mod::lemma_small_mod(0, N as nat);
            }
        }
        RollingBuffer { begin: 0, end: 0, size: 0, buffer: [z; N] }
    }

    /// The most items the buffer holds: one cell is kept spare.
    pub fn capacity(&self) -> (c: usize)
        requires
            N >= 1,
        ensures
            c == N - 1,
    {
        N - 1
    }

    /// The number of held items.
    pub fn size(&self) -> (s: usize)
        requires
            self.wf(),
        ensures
            s == self@.len(),
    {
        self.size
    }

    pub fn is_empty(&self) -> (b: bool)
        requires
            self.wf(),
        ensures
            b == (self@.len() == 0),
    {
        self.size == 0
    }

    pub fn is_full(&self) -> (b: bool)
        requires
            self.wf(),
            N >= 1,
        ensures
            b == (self@.len() == N - 1),
    {
        self.size == self.capacity()
    }

    /// The oldest item, if any.
    pub fn front(&self) -> (r: Option<T>)
        requires
            self.wf(),
        ensures
            r == (if self@.len() == 0 { None } else { Some(self@[0]) }),
    {
        if self.size == 0 {
            return None;
        }
        proof {
            lemma_wrapped_position(self.begin as int, 0, N as int);
        }
        Some(self.buffer[self.begin])
    }

    /// The newest item, if any.
    pub fn back(&self) -> (r: Option<T>)
        requires
            self.wf(),
        ensures
            r == (if self@.len() == 0 { None } else { Some(self@[self@.len() - 1]) }),
    {
        if self.size == 0 {
            return None;
        }
        proof {
            lemma_last_position(self.begin as int, self.size as int, N as int);
        }
        if self.end > 0 {
            Some(self.buffer[self.end - 1])
        } else {
            Some(self.buffer[N - 1])
        }
    }

    pub fn begin(&self) -> (b: usize)
        ensures
            b == self.begin_index(),
    {
        self.begin
    }

    pub fn end(&self) -> (e: usize)
        ensures
            e == self.end_index(),
    {
        self.end
    }

    /// The item `index` places behind the oldest one, if there is one.
    pub fn at(&self, index: usize) -> (r: Option<T>)
        requires
            self.wf(),
        ensures
            r == (if index < self@.len() { Some(self@[index as int]) } else { None }),
    {
        if index >= self.size {
            return None;
        }
        let cap = N - 1;
        let pos = if index > cap - self.begin {
            index - (cap - self.begin) - 1
        } else {
            self.begin + index
        };
        proof {
            lemma_wrapped_position(self.begin as int, index as int, N as int);
        }
        Some(self.buffer[pos])
    }

    /// Appends `value`; when the buffer is already full the oldest item
    /// falls off the front.
    pub fn push_back(&mut self, value: T)
        requires
            old(self).wf(),
            N >= 1,
        ensures
            final(self).wf(),
            final(self)@ == next_window(old(self)@, value, (N - 1) as nat),
            final(self).end_index() == next_cell(old(self).end_index() as int, N as int),
            final(self).begin_index() == if old(self)@.len() < N - 1 {
                old(self).begin_index() as int
            } else {
                next_cell(old(self).begin_index() as int, N as int)
            },
    {
        let ghost old_view = self@;
        proof {
            if self.size < N - 1 {
                lemma_wrapped_position(0, self.size as int, N as int);
            } else {
                lemma_wrapped_position(self.begin as int, self.size as int, N as int);
            }
        }
        self.buffer[self.end] = value;
        self.end += 1;
        if self.size >= N - 1 {
            // the buffer is full: drop the oldest item by advancing `begin`
            self.begin += 1;
            if self.begin > N - 1 {
                self.begin = 0;
            }
            if self.end > N - 1 {
                self.end = 0;
            }
            proof {
                lemma_rolled_end(old(self).begin as int, old(self).size as int, N as int);
                lemma_shift_position(old(self).begin as int, self.size as int, N as int);
                let new_view = old_view.push(value).drop_first();
                assert forall|i: int| 0 <= i < self@.len() implies #[trigger] self@[i] == new_view[i] by {
                    lemma_shift_position(old(self).begin as int, i, N as int);
                    if i + 1 < self.size {
                        lemma_distinct_positions(old(self).begin as int, i + 1, self.size as int, N as int);
                    }
                }
                assert(self@ =~= new_view);
            }
        } else {
            self.size += 1;
            proof {
                lemma_wrapped_position(0, self.size as int, N as int);
                let new_view = old_view.push(value);
                assert forall|i: int| 0 <= i < self@.len() implies #[trigger] self@[i] == new_view[i] by {
                    lemma_wrapped_position(0, i, N as int);
                }
                assert(self@ =~= new_view);
            }
        }
    }
}

/// When a full buffer rolls, the advanced end index is again the advanced
/// begin index plus the size.
proof fn lemma_rolled_end(begin: int, size: int, n: int)
    requires
        0 <= begin < n,
        size == n - 1,
    ensures
        ({
            let e = (begin + size) % n;
            let e1 = if e + 1 > n - 1 { 0 } else { e + 1 };
            let b1 = if begin + 1 > n - 1 { 0 } else { begin + 1 };
            e1 == (b1 + size) % n
        }),
{
    lemma_wrapped_position(begin, size, n);
    let b1 = if begin + 1 > n - 1 { 0 } else { begin + 1 };
    lemma_wrapped_position(b1, size, n);
}

} // verus!
