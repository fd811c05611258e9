use vstd::prelude::*;


verus! {

/// The cell after cell `i` of a ring of `n` cells.
pub open spec fn next_cell(i: int, n: int) -> int {
    if i + 1 > n - 1 {
        0
    } else {
        i + 1
    }
}

/// A fixed-size FIFO queue of at most `N - 1` items of type `T`.
///
/// One cell of the backing array is always kept free, so that `begin == end`
/// only when the buffer is empty.  Once full, `push_back` refuses new items.
#[derive(Debug)]
pub struct CircularBuffer<T, const N: usize> {
    /// The virtual beginning of the circular buffer.
    begin: usize,
    /// The virtual end of the circular buffer (one behind the last element).
    end: usize,
    /// The number of items in the circular buffer.
    size: usize,
    buffer: [T; N],
}

impl<T: Copy + Default, const N: usize> Default for CircularBuffer<T, N> {
    /// Same as `new`: an empty buffer.
    fn default() -> (r: Self)
        ensures
            r.wf(),
            r@ == Seq::<T>::empty(),
    {
        Self::new()
    }
}

impl<T: Copy, const N: usize> CircularBuffer<T, N> {
    /// The internal consistency of the ring indices.
    pub closed spec fn wf(&self) -> bool {
        if N == 0 {
            self.begin == 0 && self.end == 0 && self.size == 0
        } else {
            &&& self.begin < N
            &&& self.end < N
            &&& self.size < N
            &&& self.end == (self.begin + self.size) % (N as int)
        }
    }

    /// The queued items, oldest first.
    pub closed spec fn view(&self) -> Seq<T> {
        Seq::new(self.size as nat, |i: int| self.buffer@[(self.begin + i) % (N as int)])
    }

    /// The physical index of the oldest item.
    pub closed spec fn begin_index(&self) -> usize {
        self.begin
    }

    /// The physical index one behind the newest item.
    pub closed spec fn end_index(&self) -> usize {
        self.end
    }

    /// A buffer never holds more than its capacity, one less than its cells,
    /// and its end index lies as many cells behind its begin index, round the
    /// ring, as it holds items.
    pub proof fn lemma_size_within_capacity(&self)
        requires
            self.wf(),
            N >= 1,
        ensures
            self@.len() <= N - 1,
            self.begin_index() < N,
            self.end_index() < N,
            self.end_index() == (self.begin_index() + self@.len()) % (N as int),
    {
    }

    /// An empty buffer.
    pub fn new() -> (cb: Self)
        where T: Default,
        ensures
            cb.wf(),
            cb@ == Seq::<T>::empty(),
            cb.begin_index() == 0,
            cb.end_index() == 0,
    {
        let z = T::default();
        proof {
            if N > 0 {
                vstd::arithmetic::div_mod::lemma_small_mod(0, N as nat);
            }
        }
        CircularBuffer { begin: 0, end: 0, size: 0, buffer: [z; N] }
    }

    /// The most items the buffer can hold: one cell is kept spare.
    pub fn capacity(&self) -> (c: usize)
        requires
            N >= 1,
        ensures
            c == N - 1,
    {
        N - 1
    }

    /// The number of queued items.
    pub fn size(&self) -> (s: usize)
        requires
            self.wf(),
        ensures
            s == self@.len(),
    {
        self.size
    }

    pub fn is_empty(&self) -> (b: bool)
        requires
            self.wf(),
        ensures
            b == (self@.len() == 0),
    {
        self.size == 0
    }

    pub fn is_full(&self) -> (b: bool)
        requires
            self.wf(),
            N >= 1,
        ensures
            b == (self@.len() == N - 1),
    {
        self.size == self.capacity()
    }

    /// The oldest item, if any.
    pub fn front(&self) -> (r: Option<T>)
        requires
            self.wf(),
        ensures
            r == (if self@.len() == 0 { None } else { Some(self@[0]) }),
    {
        if self.size == 0 {
            return None;
        }
        proof {
            lemma_wrapped_position(self.begin as int, 0, N as int);
        }
        Some(self.buffer[self.begin])
    }

    /// The newest item, if any.
    pub fn back(&self) -> (r: Option<T>)
        requires
            self.wf(),
        ensures
            r == (if self@.len() == 0 { None } else { Some(self@[self@.len() - 1]) }),
    {
        if self.size == 0 {
            return None;
        }
        proof {
            lemma_last_position(self.begin as int, self.size as int, N as int);
        }
        if self.end > 0 {
            Some(self.buffer[self.end - 1])
        } else {
            Some(self.buffer[N - 1])
        }
    }

    pub fn begin(&self) -> (b: usize)
        ensures
            b == self.begin_index(),
    {
        self.begin
    }

    pub fn end(&self) -> (e: usize)
        ensures
            e == self.end_index(),
    {
        self.end
    }

    /// The item `index` places behind the oldest one, if there is one.
    pub fn at(&self, index: usize) -> (r: Option<T>)
        requires
            self.wf(),
        ensures
            r == (if index < self@.len() { Some(self@[index as int]) } else { None }),
    {
        if index >= self.size {
            return None;
        }
        let cap = N - 1;
        let pos = if index > cap - self.begin {
            index - (cap - self.begin) - 1
        } else {
            self.begin + index
        };
        proof {
            lemma_wrapped_position(self.begin as int, index as int, N as int);
        }
        Some(self.buffer[pos])
    }

    /// Appends `value` when there is room; a full buffer is left unchanged.
    /// Returns whether the value was stored.
    pub fn push_back(&mut self, value: T) -> (stored: bool)
        requires
            old(self).wf(),
            N >= 1,
        ensures
            final(self).wf(),
            stored == (old(self)@.len() < N - 1),
            stored ==> final(self)@ == old(self)@.push(value),
            stored ==> final(self).end_index() == next_cell(old(self).end_index() as int, N as int),
            stored ==> final(self).begin_index() == old(self).begin_index(),
            !stored ==> *final(self) == *old(self),
    {
        if self.is_full() {
            return false;
        }
        let ghost old_view = self@;
        self.size += 1;
        proof {
            assert(self.end as int == (self.begin + self.size - 1) % (N as int));
        }
        self.buffer[self.end] = value;
        self.end += 1;
        if self.end > N - 1 {
            self.end = 0;
        }
        proof {
            lemma_next_position(self.begin as int, self.size as int, N as int);
            let new_view = old_view.push(value);
            assert forall|i: int| 0 <= i < self@.len() implies #[trigger] self@[i] == new_view[i] by {
                if i < self.size - 1 {
                    lemma_distinct_positions(self.begin as int, i, self.size - 1, N as int);
                }
            }
            assert(self@ =~= new_view);
        }
        true
    }

    /// Removes and returns the oldest item, if any.
    pub fn pop_front(&mut self) -> (r: Option<T>)
        requires
            old(self).wf(),
        ensures
            final(self).wf(),
            old(self)@.len() == 0 ==> r == None::<T> && *final(self) == *old(self),
            old(self)@.len() > 0 ==> r == Some(old(self)@[0]) && final(self)@ == old(self)@.drop_first(),
            old(self)@.len() > 0 ==> final(self).begin_index() == next_cell(
                old(self).begin_index() as int,
                N as int,
            ),
            final(self).end_index() == old(self).end_index(),
    {
        if self.is_empty() {
            return None;
        }
        let ghost old_view = self@;
        proof {
            lemma_wrapped_position(self.begin as int, 0, N as int);
        }
        self.size -= 1;
        let value = self.buffer[self.begin];
        self.begin += 1;
        if self.begin > N - 1 {
            self.begin = 0;
        }
        proof {
            let new_view = old_view.drop_first();
            lemma_shift_position(old(self).begin as int, self.size as int, N as int);
            assert forall|i: int| 0 <= i < self@.len() implies #[trigger] self@[i] == new_view[i] by {
                lemma_shift_position(old(self).begin as int, i, N as int);
            }
            assert(self@ =~= new_view);
        }
        Some(value)
    }
}

/// Items leave a queue in the order they entered: pushing an item does not
/// change which item leaves next, and it leaves after those already queued.
pub proof fn lemma_first_in_first_out<T>(queue: Seq<T>, value: T)
    ensures
        queue.len() == 0 ==> queue.push(value)[0] == value && queue.push(value).drop_first()
            == queue,
        queue.len() > 0 ==> queue.push(value)[0] == queue[0] && queue.push(value).drop_first()
            == queue.drop_first().push(value),
{
    if queue.len() == 0 {
        assert(queue.push(value).drop_first() =~= queue);
    } else {
        assert(queue.push(value).drop_first() =~= queue.drop_first().push(value));
    }
}

/// Where the newest of `size` items starting at `begin` lies.
pub(crate) proof fn lemma_last_position(begin: int, size: int, n: int)
    requires
        0 <= begin < n,
        1 <= size < n,
    ensures
        (begin + size) % n > 0 ==> (begin + size - 1) % n == (begin + size) % n - 1,
        (begin + size) % n == 0 ==> (begin + size - 1) % n == n - 1,
{
    if begin + size < n {
        assert((begin + size) % n == begin + size) by (nonlinear_arith)
            requires
                0 <= begin + size < n,
        ;
        assert((begin + size - 1) % n == begin + size - 1) by (nonlinear_arith)
            requires
                0 <= begin + size - 1 < n,
        ;
    } else {
        assert((begin + size) % n == begin + size - n) by (nonlinear_arith)
            requires
                n <= begin + size < 2 * n,
        ;
        if begin + size == n {
            assert((begin + size - 1) % n == n - 1) by (nonlinear_arith)
                requires
                    begin + size - 1 == n - 1,
                    n >= 1,
            ;
        } else {
            assert((begin + size - 1) % n == begin + size - 1 - n) by (nonlinear_arith)
                requires
                    n <= begin + size - 1 < 2 * n,
            ;
        }
    }
}

/// The physical position of logical index `index` behind `begin`.
pub(crate) proof fn lemma_wrapped_position(begin: int, index: int, n: int)
    requires
        0 <= begin < n,
        0 <= index < n,
    ensures
        index > n - 1 - begin ==> (begin + index) % n == index - (n - 1 - begin) - 1,
        index <= n - 1 - begin ==> (begin + index) % n == begin + index,
{
    if index > n - 1 - begin {
        assert((begin + index) % n == begin + index - n) by (nonlinear_arith)
            requires
                n <= begin + index < 2 * n,
        ;
    } else {
        assert((begin + index) % n == begin + index) by (nonlinear_arith)
            requires
                0 <= begin + index < n,
        ;
    }
}

/// Advancing the end index by one wraps exactly as the code does.
pub(crate) proof fn lemma_next_position(begin: int, size: int, n: int)
    requires
        0 <= begin < n,
        1 <= size < n,
    ensures
        (begin + size - 1) % n + 1 > n - 1 ==> (begin + size) % n == 0,
        (begin + size - 1) % n + 1 <= n - 1 ==> (begin + size) % n == (begin + size - 1) % n + 1,
{
    if begin + size - 1 < n {
        assert((begin + size - 1) % n == begin + size - 1) by (nonlinear_arith)
            requires
                0 <= begin + size - 1 < n,
        ;
        if begin + size == n {
            assert((begin + size) % n == 0) by (nonlinear_arith)
                requires
                    begin + size == n,
                    n >= 1,
            ;
        } else {
            assert((begin + size) % n == begin + size) by (nonlinear_arith)
                requires
                    0 <= begin + size < n,
            ;
        }
    } else {
        assert((begin + size - 1) % n == begin + size - 1 - n) by (nonlinear_arith)
            requires
                n <= begin + size - 1 < 2 * n,
        ;
        assert((begin + size) % n == begin + size - n) by (nonlinear_arith)
            requires
                n <= begin + size < 2 * n,
        ;
    }
}

/// Two different logical indices below `n` never share a physical cell.
pub(crate) proof fn lemma_distinct_positions(begin: int, i: int, j: int, n: int)
    requires
        0 <= begin < n,
        0 <= i < j < n,
    ensures
        (begin + i) % n != (begin + j) % n,
{
    lemma_wrapped_position(begin, i, n);
    lemma_wrapped_position(begin, j, n);
}

/// Shifting the base to the next cell is the same as shifting the index.
pub(crate) proof fn lemma_shift_position(begin: int, i: int, n: int)
    requires
        0 <= begin < n,
        0 <= i,
    ensures
        (next_cell(begin, n) + i) % n == (begin + (i + 1)) % n,
{
    if begin + 1 > n - 1 {
        assert((i + n) % n == i % n) by (nonlinear_arith)
            requires
                n >= 1,
                i >= 0,
        ;
    }
}

} // verus!
