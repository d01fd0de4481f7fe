//! A row arena: one flat buffer cut into consecutive rows of fixed sizes.

use vstd::prelude::*;
use vstd::std_specs::ops::AddSpec;
use vstd::std_specs::ops::MulSpec;
use vstd::std_specs::ops::SubSpec;

verus! {

/// Sum of the first `n` entries of `sizes`: the offset at which row `n`
/// starts in an arena with these row sizes.
pub open spec fn prefix_sum(sizes: Seq<usize>, n: int) -> int
    decreases n,
{
    if n <= 0 {
        0
    } else {
        prefix_sum(sizes, n - 1) + sizes[n - 1]
    }
}

/// Sum of all entries of `sizes`: the length of an arena with these rows.
pub open spec fn total_size(sizes: Seq<usize>) -> int {
    prefix_sum(sizes, sizes.len() as int)
}

/// Offsets grow with the row index.
pub proof fn lemma_prefix_sum_monotonic(sizes: Seq<usize>, i: int, j: int)
    requires
        0 <= i <= j <= sizes.len(),
    ensures
        0 <= prefix_sum(sizes, i) <= prefix_sum(sizes, j),
    decreases j,
{
    if j > 0 {
        if i < j {
            lemma_prefix_sum_monotonic(sizes, i, j - 1);
        } else {
            lemma_prefix_sum_monotonic(sizes, i - 1, j - 1);
        }
    }
}

/// `flat` with the `size` elements from `offset` on replaced by `row`.
pub open spec fn splice<T>(flat: Seq<T>, offset: int, size: int, row: Seq<T>) -> Seq<T> {
    flat.subrange(0, offset) + row + flat.subrange(offset + size, flat.len() as int)
}

/// Elementwise sum of two sequences of equal length.
pub open spec fn zip_add<T: core::ops::Add<Output = T>>(a: Seq<T>, b: Seq<T>) -> Seq<T> {
    Seq::new(a.len(), |i: int| a[i].add_spec(b[i]))
}

/// Elementwise difference of two sequences of equal length.
pub open spec fn zip_sub<T: core::ops::Sub<Output = T>>(a: Seq<T>, b: Seq<T>) -> Seq<T> {
    Seq::new(a.len(), |i: int| a[i].sub_spec(b[i]))
}

/// `a[i] + b[i] * m` for every position `i`.
pub open spec fn zip_add_scaled<T: core::ops::Add<Output = T> + core::ops::Mul<Output = T>>(
    a: Seq<T>,
    b: Seq<T>,
    m: T,
) -> Seq<T> {
    Seq::new(a.len(), |i: int| a[i].add_spec(b[i].mul_spec(m)))
}

/// One contiguous buffer, logically cut into rows. Row `i` starts where row
/// `i - 1` ends, the rows cover the buffer exactly, and their number and
/// sizes never change after construction.
#[derive(Debug)]
pub struct RowBuffer<T> {
    buffer: Vec<T>,
    row_offsets_and_sizes: Vec<(usize, usize)>,
}

impl<T: Copy> Clone for RowBuffer<T> {
    /// A second arena with the same rows and the same contents.
    fn clone(&self) -> (copy: Self)
        ensures
            copy@ == self@,
            copy.layout() == self.layout(),
            self.wf() ==> copy.wf() && copy.row_sizes() == self.row_sizes(),
    {
        let mut buffer: Vec<T> = Vec::with_capacity(self.buffer.len());
        let mut k: usize = 0;
        while k < self.buffer.len()
            invariant
                k <= self.buffer@.len(),
                buffer@ == self.buffer@.subrange(0, k as int),
            decreases self.buffer@.len() - k,
        {
            buffer.push(self.buffer[k]);
            k += 1;
            assert(buffer@ =~= self.buffer@.subrange(0, k as int));
        }
        assert(buffer@ =~= self.buffer@);
        let mut row_offsets_and_sizes: Vec<(usize, usize)> = Vec::with_capacity(
            self.row_offsets_and_sizes.len(),
        );
        let mut k: usize = 0;
        while k < self.row_offsets_and_sizes.len()
            invariant
                k <= self.row_offsets_and_sizes@.len(),
                row_offsets_and_sizes@ == self.row_offsets_and_sizes@.subrange(0, k as int),
            decreases self.row_offsets_and_sizes@.len() - k,
        {
            row_offsets_and_sizes.push(self.row_offsets_and_sizes[k]);
            k += 1;
            assert(row_offsets_and_sizes@ =~= self.row_offsets_and_sizes@.subrange(0, k as int));
        }
        assert(row_offsets_and_sizes@ =~= self.row_offsets_and_sizes@);
        let copy = RowBuffer { buffer, row_offsets_and_sizes };
        proof {
            if self.wf() {
                self.lemma_same_layout(&copy);
            }
        }
        copy
    }
}

impl<T> View for RowBuffer<T> {
    type V = Seq<T>;

    /// The whole buffer, row after row.
    closed spec fn view(&self) -> Seq<T> {
        self.buffer@
    }
}

impl<T> RowBuffer<T> {
    /// The recorded (offset, size) pair of every row.
    pub closed spec fn layout(&self) -> Seq<(usize, usize)> {
        self.row_offsets_and_sizes@
    }

    /// The size of every row.
    pub open spec fn row_sizes(&self) -> Seq<usize> {
        Seq::new(self.layout().len(), |i: int| self.layout()[i].1)
    }

    /// Where row `row` starts in the buffer.
    pub open spec fn row_offset(&self, row: int) -> int {
        prefix_sum(self.row_sizes(), row)
    }

    /// The contents of row `row`.
    pub open spec fn row(&self, row: int) -> Seq<T> {
        self@.subrange(self.row_offset(row), self.row_offset(row) + self.row_sizes()[row])
    }

    /// The arena's invariant: at least one row, every recorded offset is the
    /// sum of the sizes before it, and the rows cover the buffer exactly.
    pub open spec fn wf(&self) -> bool {
        &&& self.layout().len() >= 1
        &&& forall|i: int|
            0 <= i < self.layout().len() ==> self.layout()[i].0 == #[trigger] self.row_offset(i)
        &&& self@.len() == total_size(self.row_sizes())
    }

    /// The buffer with row `row` replaced by `new_row`.
    pub open spec fn with_row(&self, row: int, new_row: Seq<T>) -> Seq<T> {
        splice(self@, self.row_offset(row), self.row_sizes()[row] as int, new_row)
    }

    /// The buffer with two different rows replaced.
    pub open spec fn with_rows(
        &self,
        first: int,
        new_first: Seq<T>,
        second: int,
        new_second: Seq<T>,
    ) -> Seq<T> {
        if first < second {
            self@.subrange(0, self.row_offset(first)) + new_first + self@.subrange(
                self.row_offset(first + 1),
                self.row_offset(second),
            ) + new_second + self@.subrange(self.row_offset(second + 1), self@.len() as int)
        } else {
            self@.subrange(0, self.row_offset(second)) + new_second + self@.subrange(
                self.row_offset(second + 1),
                self.row_offset(first),
            ) + new_first + self@.subrange(self.row_offset(first + 1), self@.len() as int)
        }
    }

    /// Every row lies inside the buffer and has its recorded size.
    pub proof fn lemma_row_in_bounds(&self, row: int)
        requires
            self.wf(),
            0 <= row < self.row_sizes().len(),
        ensures
            0 <= self.row_offset(row),
            self.row_offset(row) + self.row_sizes()[row] == self.row_offset(row + 1),
            self.row_offset(row + 1) <= self@.len(),
            self.row(row).len() == self.row_sizes()[row],
    {
        lemma_prefix_sum_monotonic(self.row_sizes(), 0, row);
        lemma_prefix_sum_monotonic(self.row_sizes(), row + 1, self.row_sizes().len() as int);
    }

    /// Rows do not overlap: an earlier row ends before a later one starts.
    pub proof fn lemma_rows_disjoint(&self, first: int, second: int)
        requires
            self.wf(),
            0 <= first < second < self.row_sizes().len(),
        ensures
            self.row_offset(first) + self.row_sizes()[first] <= self.row_offset(second),
    {
        lemma_prefix_sum_monotonic(self.row_sizes(), first + 1, second);
    }

    /// An arena with the layout and the length of a well-formed one is
    /// well-formed, with the same rows in the same places.
    pub proof fn lemma_same_layout(&self, other: &RowBuffer<T>)
        requires
            self.wf(),
            other.layout() == self.layout(),
            other@.len() == self@.len(),
        ensures
            other.wf(),
            other.row_sizes() == self.row_sizes(),
    {
        assert(other.row_sizes() =~= self.row_sizes());
        assert forall|i: int| 0 <= i < other.layout().len() implies other.layout()[i].0
            == #[trigger] other.row_offset(i) by {
            assert(other.row_offset(i) == self.row_offset(i));
        }
    }

    /// Replacing a row by one of the same size changes that row and no
    /// other.
    pub proof fn lemma_with_row(&self, after: &RowBuffer<T>, row: int, new_row: Seq<T>)
        requires
            self.wf(),
            0 <= row < self.row_sizes().len(),
            new_row.len() == self.row_sizes()[row],
            after.layout() == self.layout(),
            after@ == self.with_row(row, new_row),
        ensures
            after.wf(),
            after.row(row) == new_row,
            forall|other: int|
                0 <= other < self.row_sizes().len() && other != row ==> #[trigger] after.row(other)
                    == self.row(other),
    {
        self.lemma_row_in_bounds(row);
        assert(after.row_sizes() =~= self.row_sizes());
        assert forall|i: int| 0 <= i < after.layout().len() implies after.layout()[i].0
            == #[trigger] after.row_offset(i) by {
            assert(after.row_offset(i) == self.row_offset(i));
        }
        assert(after.row(row) =~= new_row);
        assert forall|other: int|
            0 <= other < self.row_sizes().len() && other != row implies #[trigger] after.row(other)
            == self.row(other) by {
            self.lemma_row_in_bounds(other);
            if other < row {
                self.lemma_rows_disjoint(other, row);
            } else {
                self.lemma_rows_disjoint(row, other);
            }
            assert(after.row(other) =~= self.row(other));
        }
    }

    /// Replacing two rows by rows of the same sizes changes those rows and
    /// no other.
    pub proof fn lemma_with_rows(
        &self,
        after: &RowBuffer<T>,
        first: int,
        new_first: Seq<T>,
        second: int,
        new_second: Seq<T>,
    )
        requires
            self.wf(),
            0 <= first < self.row_sizes().len(),
            0 <= second < self.row_sizes().len(),
            first != second,
            new_first.len() == self.row_sizes()[first],
            new_second.len() == self.row_sizes()[second],
            after.layout() == self.layout(),
            after@ == self.with_rows(first, new_first, second, new_second),
        ensures
            after.wf(),
            after.row(first) == new_first,
            after.row(second) == new_second,
            forall|other: int|
                0 <= other < self.row_sizes().len() && other != first && other != second
                    ==> #[trigger] after.row(other) == self.row(other),
    {
        self.lemma_row_in_bounds(first);
        self.lemma_row_in_bounds(second);
        if first < second {
            self.lemma_rows_disjoint(first, second);
        } else {
            self.lemma_rows_disjoint(second, first);
        }
        assert(after.row_sizes() =~= self.row_sizes());
        assert forall|i: int| 0 <= i < after.layout().len() implies after.layout()[i].0
            == #[trigger] after.row_offset(i) by {
            assert(after.row_offset(i) == self.row_offset(i));
        }
        assert(after.row(first) =~= new_first);
        assert(after.row(second) =~= new_second);
        assert forall|other: int|
            0 <= other < self.row_sizes().len() && other != first && other != second implies
            #[trigger] after.row(other) == self.row(other) by {
            self.lemma_row_in_bounds(other);
            if other < first {
                self.lemma_rows_disjoint(other, first);
            } else {
                self.lemma_rows_disjoint(first, other);
            }
            if other < second {
                self.lemma_rows_disjoint(other, second);
            } else {
                self.lemma_rows_disjoint(second, other);
            }
            assert(after.row(other) =~= self.row(other));
        }
    }

    /// Number of rows.
    pub fn num_rows(&self) -> (n: usize)
        ensures
            n == self.row_sizes().len(),
    {
        self.row_offsets_and_sizes.len()
    }

    /// Length of the whole buffer.
    pub fn buffer_len(&self) -> (n: usize)
        ensures
            n == self@.len(),
    {
        self.buffer.len()
    }

    /// The whole buffer, row after row.
    pub fn get_buffer(&self) -> (flat: &[T])
        ensures
            flat@ == self@,
    {
        self.buffer.as_slice()
    }

    /// The whole buffer for writing. The rows stay where they are.
    pub fn get_buffer_mut(&mut self) -> (flat: &mut [T])
        ensures
            flat@ == old(self)@,
            final(self)@ == final(flat)@,
            final(self).layout() == old(self).layout(),
    {
        self.buffer.as_mut_slice()
    }

    /// Row `row` for reading.
    pub fn get_row(&self, row: usize) -> (slice: &[T])
        requires
            self.wf(),
            row < self.row_sizes().len(),
        ensures
            slice@ == self.row(row as int),
            slice@.len() == self.row_sizes()[row as int],
    {
        proof {
            self.lemma_row_in_bounds(row as int);
        }
        let (offset, size) = self.row_offsets_and_sizes[row];
        let flat = self.buffer.as_slice();
        assert(offset + size <= flat.len());
        vstd::slice::slice_subrange(flat, offset, offset + size)
    }

    /// Row `row` for writing. Whatever is written to the returned slice is
    /// what the arena holds in that row afterwards; the rest is untouched.
    pub fn get_row_mut(&mut self, row: usize) -> (slice: &mut [T])
        requires
            old(self).wf(),
            row < old(self).row_sizes().len(),
        ensures
            slice@ == old(self).row(row as int),
            slice@.len() == old(self).row_sizes()[row as int],
            final(self).layout() == old(self).layout(),
            final(self)@ == old(self).with_row(row as int, final(slice)@),
    {
        proof {
            self.lemma_row_in_bounds(row as int);
        }
        let (offset, size) = self.row_offsets_and_sizes[row];
        let flat = self.buffer.as_mut_slice();
        let (_head, tail) = flat.split_at_mut(offset);
        let (slice, _rest) = tail.split_at_mut(size);
        slice
    }

    /// The first row for reading.
    pub fn get_first_row(&self) -> (slice: &[T])
        requires
            self.wf(),
        ensures
            slice@ == self.row(0),
            slice@.len() == self.row_sizes()[0],
    {
        self.get_row(0)
    }

    /// The first row for writing.
    pub fn get_first_row_mut(&mut self) -> (slice: &mut [T])
        requires
            old(self).wf(),
        ensures
            slice@ == old(self).row(0),
            slice@.len() == old(self).row_sizes()[0],
            final(self).layout() == old(self).layout(),
            final(self)@ == old(self).with_row(0, final(slice)@),
    {
        self.get_row_mut(0)
    }

    /// The last row for reading.
    pub fn get_last_row(&self) -> (slice: &[T])
        requires
            self.wf(),
        ensures
            slice@ == self.row(self.row_sizes().len() - 1),
            slice@.len() == self.row_sizes().last(),
    {
        self.get_row(self.row_offsets_and_sizes.len() - 1)
    }

    /// The last row for writing.
    pub fn get_last_row_mut(&mut self) -> (slice: &mut [T])
        requires
            old(self).wf(),
        ensures
            slice@ == old(self).row(old(self).row_sizes().len() - 1),
            slice@.len() == old(self).row_sizes().last(),
            final(self).layout() == old(self).layout(),
            final(self)@ == old(self).with_row(old(self).row_sizes().len() - 1, final(slice)@),
    {
        let last = self.row_offsets_and_sizes.len() - 1;
        self.get_row_mut(last)
    }

    /// Two different rows for writing at the same time. The rows are
    /// disjoint parts of the buffer, so each can be written without regard
    /// to the other; whatever is written to them is what the arena holds in
    /// those rows afterwards, and the rest is untouched.
    pub fn split_rows(&mut self, row_first: usize, row_second: usize) -> (rows: (
        &mut [T],
        &mut [T],
    ))
        requires
            old(self).wf(),
            row_first != row_second,
            row_first < old(self).row_sizes().len(),
            row_second < old(self).row_sizes().len(),
        ensures
            rows.0@ == old(self).row(row_first as int),
            rows.1@ == old(self).row(row_second as int),
            final(self).layout() == old(self).layout(),
            final(self)@ == old(self).with_rows(
                row_first as int,
                final(rows.0)@,
                row_second as int,
                final(rows.1)@,
            ),
    {
        proof {
            self.lemma_row_in_bounds(row_first as int);
            self.lemma_row_in_bounds(row_second as int);
            if row_first < row_second {
                self.lemma_rows_disjoint(row_first as int, row_second as int);
            } else {
                self.lemma_rows_disjoint(row_second as int, row_first as int);
            }
        }
        let (offset_first, size_first) = self.row_offsets_and_sizes[row_first];
        let (offset_second, size_second) = self.row_offsets_and_sizes[row_second];
        let flat = self.buffer.as_mut_slice();
        if row_first < row_second {
            let (low, high) = flat.split_at_mut(offset_second);
            let (_head, from_first) = low.split_at_mut(offset_first);
            let (first, _gap) = from_first.split_at_mut(size_first);
            let (second, _tail) = high.split_at_mut(size_second);
            (first, second)
        } else {
            let (low, high) = flat.split_at_mut(offset_first);
            let (_head, from_second) = low.split_at_mut(offset_second);
            let (second, _gap) = from_second.split_at_mut(size_second);
            let (first, _tail) = high.split_at_mut(size_first);
            (first, second)
        }
    }
}

impl<T: Copy> RowBuffer<T> {
    /// Builds an arena with one row per entry of `row_sizes`, every element
    /// set to `initial_value`.
    pub fn new_with_row_sizes(initial_value: T, row_sizes: &[usize]) -> (arena: Self)
        requires
            row_sizes@.len() > 0,
            total_size(row_sizes@) <= usize::MAX,
        ensures
            arena.wf(),
            arena.row_sizes() == row_sizes@,
            arena@ == Seq::new(total_size(row_sizes@) as nat, |i: int| initial_value),
    {
        let mut row_offsets_and_sizes: Vec<(usize, usize)> = Vec::with_capacity(row_sizes.len());
        let mut buffer: Vec<T> = Vec::new();
        let mut offset: usize = 0;
        let mut row: usize = 0;
        while row < row_sizes.len()
            invariant
                row <= row_sizes@.len(),
                total_size(row_sizes@) <= usize::MAX,
                offset == prefix_sum(row_sizes@, row as int),
                row_offsets_and_sizes@.len() == row,
                forall|i: int|
                    0 <= i < row ==> #[trigger] row_offsets_and_sizes@[i] == (
                        prefix_sum(row_sizes@, i) as usize,
                        row_sizes@[i],
                    ),
                buffer@ == Seq::new(offset as nat, |i: int| initial_value),
            decreases row_sizes@.len() - row,
        {
            let size = row_sizes[row];
            proof {
                lemma_prefix_sum_monotonic(row_sizes@, row + 1, row_sizes@.len() as int);
            }
            row_offsets_and_sizes.push((offset, size));
            let end = offset + size;
            let mut filled: usize = offset;
            while filled < end
                invariant
                    offset <= filled <= end,
                    buffer@ == Seq::new(filled as nat, |i: int| initial_value),
                decreases end - filled,
            {
                buffer.push(initial_value);
                filled += 1;
                assert(buffer@ =~= Seq::new(filled as nat, |i: int| initial_value));
            }
            offset = end;
            row += 1;
        }
        let arena = RowBuffer { buffer, row_offsets_and_sizes };
        proof {
            assert(arena.row_sizes() =~= row_sizes@);
            assert forall|i: int| 0 <= i < arena.layout().len() implies arena.layout()[i].0
                == #[trigger] arena.row_offset(i) by {
                lemma_prefix_sum_monotonic(row_sizes@, i, row_sizes@.len() as int);
            }
        }
        arena
    }

    /// Builds an arena like `new_with_row_sizes`, after making sure that it
    /// can be built: there is no arena without rows, and none whose rows
    /// together are longer than a buffer can be.
    pub fn try_new_with_row_sizes(initial_value: T, row_sizes: &[usize]) -> (built: Option<Self>)
        ensures
            built is Some <==> row_sizes@.len() > 0 && total_size(row_sizes@) <= usize::MAX,
            built matches Some(arena) ==> {
                &&& arena.wf()
                &&& arena.row_sizes() == row_sizes@
                &&& arena@ == Seq::new(total_size(row_sizes@) as nat, |i: int| initial_value)
            },
    {
        if row_sizes.len() == 0 {
            return None;
        }
        let mut total: usize = 0;
        let mut row: usize = 0;
        while row < row_sizes.len()
            invariant
                row <= row_sizes@.len(),
                total == prefix_sum(row_sizes@, row as int),
            decreases row_sizes@.len() - row,
        {
            match total.checked_add(row_sizes[row]) {
                Some(sum) => {
                    total = sum;
                },
                None => {
                    proof {
                        lemma_prefix_sum_monotonic(
                            row_sizes@,
                            row + 1,
                            row_sizes@.len() as int,
                        );
                    }
                    return None;
                },
            }
            row += 1;
        }
        Some(Self::new_with_row_sizes(initial_value, row_sizes))
    }

    /// Sets every element of the buffer to `value`.
    pub fn reset_to(&mut self, value: T)
        ensures
            final(self).layout() == old(self).layout(),
            final(self)@ == Seq::new(old(self)@.len(), |i: int| value),
            old(self).wf() ==> final(self).wf() && final(self).row_sizes() == old(self).row_sizes(),
    {
        let len = self.buffer.len();
        let mut k: usize = 0;
        while k < len
            invariant
                k <= len,
                self.buffer@.len() == len,
                self.row_offsets_and_sizes == old(self).row_offsets_and_sizes,
                forall|i: int| 0 <= i < k ==> self.buffer@[i] == value,
            decreases len - k,
        {
            self.buffer[k] = value;
            k += 1;
        }
        assert(self@ =~= Seq::new(old(self)@.len(), |i: int| value));
        proof {
            if old(self).wf() {
                old(self).lemma_same_layout(self);
            }
        }
    }

    /// Copies the whole buffer into `target`, which must be as long; the
    /// rows of `target` stay where they are.
    pub fn copy_into(&self, target: &mut RowBuffer<T>)
        requires
            self@.len() == old(target)@.len(),
        ensures
            final(target).layout() == old(target).layout(),
            final(target)@ == self@,
            old(target).wf() ==> final(target).wf() && final(target).row_sizes() == old(target).row_sizes(),
    {
        let len = self.buffer.len();
        let mut k: usize = 0;
        while k < len
            invariant
                k <= len,
                self.buffer@.len() == len,
                target.buffer@.len() == len,
                target.row_offsets_and_sizes == old(target).row_offsets_and_sizes,
                forall|i: int| 0 <= i < k ==> target.buffer@[i] == self.buffer@[i],
            decreases len - k,
        {
            target.buffer[k] = self.buffer[k];
            k += 1;
        }
        assert(target@ =~= self@);
        proof {
            if old(target).wf() {
                old(target).lemma_same_layout(target);
            }
        }
    }
}

impl<T: Copy + core::ops::Add<Output = T>> RowBuffer<T> {
    /// Adds `other` to this arena, element by element.
    pub fn add(&mut self, other: &RowBuffer<T>)
        requires
            old(self)@.len() == other@.len(),
            forall|i: int| 0 <= i < other@.len() ==> #[trigger] old(self)@[i].add_req(other@[i]),
        ensures
            final(self).layout() == old(self).layout(),
            final(self)@.len() == old(self)@.len(),
            old(self).wf() ==> final(self).wf() && final(self).row_sizes() == old(self).row_sizes(),
            T::obeys_add_spec() ==> final(self)@ == zip_add(old(self)@, other@),
    {
        let len = self.buffer.len();
        let mut k: usize = 0;
        while k < len
            invariant
                k <= len,
                self.buffer@.len() == len,
                other.buffer@.len() == len,
                old(self).buffer@.len() == len,
                self.row_offsets_and_sizes == old(self).row_offsets_and_sizes,
                forall|i: int| 0 <= i < len ==> #[trigger] old(self)@[i].add_req(other@[i]),
                forall|i: int| k <= i < len ==> self.buffer@[i] == old(self).buffer@[i],
                T::obeys_add_spec() ==> forall|i: int|
                    0 <= i < k ==> self.buffer@[i] == old(self).buffer@[i].add_spec(
                        other.buffer@[i],
                    ),
            decreases len - k,
        {
            assert(old(self)@[k as int].add_req(other@[k as int]));
            self.buffer[k] = self.buffer[k] + other.buffer[k];
            k += 1;
        }
        assert(T::obeys_add_spec() ==> self@ =~= zip_add(old(self)@, other@));
        proof {
            if old(self).wf() {
                old(self).lemma_same_layout(self);
            }
        }
    }
}

impl<T: Copy + core::ops::Sub<Output = T>> RowBuffer<T> {
    /// Subtracts `subtract` from this arena, element by element.
    pub fn subtract(&mut self, subtract: &RowBuffer<T>)
        requires
            old(self)@.len() == subtract@.len(),
            forall|i: int|
                0 <= i < subtract@.len() ==> #[trigger] old(self)@[i].sub_req(subtract@[i]),
        ensures
            final(self).layout() == old(self).layout(),
            final(self)@.len() == old(self)@.len(),
            old(self).wf() ==> final(self).wf() && final(self).row_sizes() == old(self).row_sizes(),
            T::obeys_sub_spec() ==> final(self)@ == zip_sub(old(self)@, subtract@),
    {
        let len = self.buffer.len();
        let mut k: usize = 0;
        while k < len
            invariant
                k <= len,
                self.buffer@.len() == len,
                subtract.buffer@.len() == len,
                old(self).buffer@.len() == len,
                self.row_offsets_and_sizes == old(self).row_offsets_and_sizes,
                forall|i: int| 0 <= i < len ==> #[trigger] old(self)@[i].sub_req(subtract@[i]),
                forall|i: int| k <= i < len ==> self.buffer@[i] == old(self).buffer@[i],
                T::obeys_sub_spec() ==> forall|i: int|
                    0 <= i < k ==> self.buffer@[i] == old(self).buffer@[i].sub_spec(
                        subtract.buffer@[i],
                    ),
            decreases len - k,
        {
            assert(old(self)@[k as int].sub_req(subtract@[k as int]));
            self.buffer[k] = self.buffer[k] - subtract.buffer[k];
            k += 1;
        }
        assert(T::obeys_sub_spec() ==> self@ =~= zip_sub(old(self)@, subtract@));
        proof {
            if old(self).wf() {
                old(self).lemma_same_layout(self);
            }
        }
    }
}

impl<T: Copy + core::ops::Add<Output = T> + core::ops::Mul<Output = T>> RowBuffer<T> {
    /// Whether `product` can be what `factor * multiplier` evaluates to:
    /// any value when nothing is known of the multiplication, the specified
    /// product otherwise.
    pub open spec fn may_be_product(factor: T, multiplier: T, product: T) -> bool {
        T::obeys_mul_spec() ==> product == factor.mul_spec(multiplier)
    }

    /// Adds `other`, scaled by `multiplier`, to this arena, element by
    /// element: every element `a` becomes `a + b * multiplier`.
    pub fn add_with_multiplier(&mut self, other: &RowBuffer<T>, multiplier: T)
        requires
            old(self)@.len() == other@.len(),
            forall|i: int| 0 <= i < other@.len() ==> #[trigger] other@[i].mul_req(multiplier),
            forall|i: int, product: T|
                0 <= i < other@.len() && Self::may_be_product(other@[i], multiplier, product)
                    ==> #[trigger] old(self)@[i].add_req(product),
        ensures
            final(self).layout() == old(self).layout(),
            final(self)@.len() == old(self)@.len(),
            old(self).wf() ==> final(self).wf() && final(self).row_sizes() == old(self).row_sizes(),
            T::obeys_add_spec() && T::obeys_mul_spec() ==> final(self)@ == zip_add_scaled(
                old(self)@,
                other@,
                multiplier,
            ),
    {
        let len = self.buffer.len();
        let mut k: usize = 0;
        while k < len
            invariant
                k <= len,
                self.buffer@.len() == len,
                other.buffer@.len() == len,
                old(self).buffer@.len() == len,
                self.row_offsets_and_sizes == old(self).row_offsets_and_sizes,
                forall|i: int| 0 <= i < len ==> #[trigger] other@[i].mul_req(multiplier),
                forall|i: int, product: T|
                    0 <= i < len && Self::may_be_product(other@[i], multiplier, product)
                        ==> #[trigger] old(self)@[i].add_req(product),
                forall|i: int| k <= i < len ==> self.buffer@[i] == old(self).buffer@[i],
                T::obeys_add_spec() && T::obeys_mul_spec() ==> forall|i: int|
                    0 <= i < k ==> self.buffer@[i] == old(self).buffer@[i].add_spec(
                        other.buffer@[i].mul_spec(multiplier),
                    ),
            decreases len - k,
        {
            assert(other@[k as int].mul_req(multiplier));
            let scaled = other.buffer[k] * multiplier;
            assert(Self::may_be_product(other@[k as int], multiplier, scaled));
            assert(old(self)@[k as int].add_req(scaled));
            self.buffer[k] = self.buffer[k] + scaled;
            k += 1;
        }
        assert(T::obeys_add_spec() && T::obeys_mul_spec() ==> self@ =~= zip_add_scaled(
            old(self)@,
            other@,
            multiplier,
        ));
        proof {
            if old(self).wf() {
                old(self).lemma_same_layout(self);
            }
        }
    }
}

/// Every row of a well-formed arena has the size it was built with.
pub proof fn lemma_rows_have_their_sizes<T>(arena: RowBuffer<T>)
    requires
        arena.wf(),
    ensures
        forall|i: int|
            0 <= i < arena.row_sizes().len() ==> (#[trigger] arena.row(i)).len()
                == arena.row_sizes()[i],
{
    assert forall|i: int| 0 <= i < arena.row_sizes().len() implies (#[trigger] arena.row(
        i,
    )).len() == arena.row_sizes()[i] by {
        arena.lemma_row_in_bounds(i);
    }
}

/// Adding a sequence and then subtracting it again gives back the sequence
/// one started from, wherever subtraction undoes addition on the elements
/// involved.
pub proof fn lemma_add_then_subtract_restores<
    T: core::ops::Add<Output = T> + core::ops::Sub<Output = T>,
>(a: Seq<T>, b: Seq<T>)
    requires
        a.len() == b.len(),
        forall|i: int| 0 <= i < a.len() ==> #[trigger] a[i].add_spec(b[i]).sub_spec(b[i]) == a[i],
    ensures
        zip_sub(zip_add(a, b), b) == a,
{
    assert(zip_sub(zip_add(a, b), b) =~= a);
}

/// Adding a sequence scaled by `m` and then subtracting the scaled sequence
/// gives back the sequence one started from, wherever subtraction undoes
/// addition on the elements involved.
pub proof fn lemma_add_scaled_then_subtract_restores<
    T: core::ops::Add<Output = T> + core::ops::Sub<Output = T> + core::ops::Mul<Output = T>,
>(a: Seq<T>, b: Seq<T>, m: T)
    requires
        a.len() == b.len(),
        forall|i: int|
            0 <= i < a.len() ==> #[trigger] a[i].add_spec(b[i].mul_spec(m)).sub_spec(
                b[i].mul_spec(m),
            ) == a[i],
    ensures
        zip_sub(zip_add_scaled(a, b, m), Seq::new(b.len(), |i: int| b[i].mul_spec(m))) == a,
{
    assert(zip_sub(zip_add_scaled(a, b, m), Seq::new(b.len(), |i: int| b[i].mul_spec(m)))
        =~= a);
}

} // verus!
