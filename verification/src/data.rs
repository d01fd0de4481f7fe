//! Data sets: rows of input columns followed by output columns, held in one
//! shared buffer and handed out row by row or cut into partitions.

use std::sync::Arc;
use vstd::prelude::*;
use vstd::slice::slice_subrange;
use vstd::string::to_string_from_display_ensures;
use vstd::string::StringExecFns;

verus! {

/// `Arc::clone` of the standard library: a second handle to the same
/// value.
#[verifier::external_body]
fn share<T>(data: &Arc<Vec<T>>) -> (shared: Arc<Vec<T>>)
    ensures
        shared == *data,
{
    Arc::clone(data)
}

/// A table of samples. Every row holds the values of the independent
/// columns (a network's input) and then those of the dependent columns (the
/// output expected for it). A data set is a range of rows of a shared
/// buffer, so that partitions share their storage with the whole.
pub struct PreparedDataSet<T> {
    data: Arc<Vec<T>>,
    offset: usize,
    end: usize,
    num_cols: usize,
    num_rows: usize,
    dependent_cols: usize,
    independent_cols: usize,
}

impl<T> Clone for PreparedDataSet<T> {
    /// A second handle to the same rows of the same storage.
    fn clone(&self) -> (copy: Self)
        ensures
            copy == *self,
    {
        PreparedDataSet {
            data: share(&self.data),
            offset: self.offset,
            end: self.end,
            num_cols: self.num_cols,
            num_rows: self.num_rows,
            dependent_cols: self.dependent_cols,
            independent_cols: self.independent_cols,
        }
    }
}

impl<T> PreparedDataSet<T> {
    /// The shared buffer.
    pub closed spec fn storage(&self) -> Seq<T> {
        self.data@
    }

    /// Where in the shared buffer the first row starts.
    pub closed spec fn spec_offset(&self) -> int {
        self.offset as int
    }

    /// Number of rows.
    pub closed spec fn spec_num_rows(&self) -> int {
        self.num_rows as int
    }

    /// Number of input values per row.
    pub closed spec fn spec_independent_cols(&self) -> int {
        self.independent_cols as int
    }

    /// Number of expected output values per row.
    pub closed spec fn spec_dependent_cols(&self) -> int {
        self.dependent_cols as int
    }

    /// What the fields cache: the end of the last row and the row length.
    pub closed spec fn cached(&self) -> bool {
        &&& self.num_cols == self.independent_cols + self.dependent_cols
        &&& self.end == self.offset + self.num_rows * self.num_cols
    }

    /// Number of values per row.
    pub open spec fn spec_num_cols(&self) -> int {
        self.spec_independent_cols() + self.spec_dependent_cols()
    }

    /// Where in the shared buffer row `row` starts.
    pub open spec fn row_start(&self, row: int) -> int {
        self.spec_offset() + row * self.spec_num_cols()
    }

    /// The input values of row `row`.
    pub open spec fn inputs(&self, row: int) -> Seq<T> {
        self.storage().subrange(
            self.row_start(row),
            self.row_start(row) + self.spec_independent_cols(),
        )
    }

    /// The expected output values of row `row`.
    pub open spec fn outputs(&self, row: int) -> Seq<T> {
        self.storage().subrange(
            self.row_start(row) + self.spec_independent_cols(),
            self.row_start(row + 1),
        )
    }

    /// The data set's invariant: its rows lie inside the shared buffer.
    pub open spec fn wf(&self) -> bool {
        &&& self.cached()
        &&& 0 <= self.spec_offset()
        &&& 0 <= self.spec_num_rows()
        &&& 0 <= self.spec_independent_cols()
        &&& 0 <= self.spec_dependent_cols()
        &&& self.row_start(self.spec_num_rows()) <= self.storage().len()
    }

    /// Every row of a well-formed data set lies inside the shared buffer.
    pub proof fn lemma_row_in_bounds(&self, row: int)
        requires
            self.wf(),
            0 <= row < self.spec_num_rows(),
        ensures
            0 <= self.row_start(row),
            self.row_start(row) + self.spec_num_cols() == self.row_start(row + 1),
            self.row_start(row + 1) <= self.row_start(self.spec_num_rows()),
            self.inputs(row).len() == self.spec_independent_cols(),
            self.outputs(row).len() == self.spec_dependent_cols(),
    {
        let cols = self.spec_num_cols();
        let rows = self.spec_num_rows();
        assert(0 <= row * cols) by (nonlinear_arith)
            requires
                0 <= row,
                0 <= cols,
        ;
        assert((row + 1) * cols == row * cols + cols) by (nonlinear_arith);
        assert((row + 1) * cols <= rows * cols) by (nonlinear_arith)
            requires
                row + 1 <= rows,
                0 <= cols,
        ;
    }

    /// A data set over `data`, which holds `num_rows` rows of
    /// `independent_cols` input values followed by `dependent_cols` output
    /// values each.
    pub fn from_vec(
        data: Vec<T>,
        independent_cols: usize,
        dependent_cols: usize,
        num_rows: usize,
    ) -> (data_set: Self)
        requires
            independent_cols + dependent_cols <= usize::MAX,
            data@.len() == num_rows * (independent_cols + dependent_cols),
        ensures
            data_set.wf(),
            data_set.storage() == data@,
            data_set.spec_offset() == 0,
            data_set.spec_num_rows() == num_rows,
            data_set.spec_independent_cols() == independent_cols,
            data_set.spec_dependent_cols() == dependent_cols,
    {
        let len = data.len();
        PreparedDataSet {
            data: Arc::new(data),
            offset: 0,
            end: len,
            num_cols: dependent_cols + independent_cols,
            num_rows,
            dependent_cols,
            independent_cols,
        }
    }

    /// Number of rows.
    pub fn num_rows(&self) -> (n: usize)
        ensures
            n == self.spec_num_rows(),
    {
        self.num_rows
    }

    /// Number of values per row.
    pub fn num_cols(&self) -> (n: usize)
        requires
            self.wf(),
        ensures
            n == self.spec_num_cols(),
    {
        self.num_cols
    }

    /// Number of input values per row.
    pub fn independent_cols(&self) -> (n: usize)
        ensures
            n == self.spec_independent_cols(),
    {
        self.independent_cols
    }

    /// Number of expected output values per row.
    pub fn dependent_cols(&self) -> (n: usize)
        ensures
            n == self.spec_dependent_cols(),
    {
        self.dependent_cols
    }
}

impl<T> PreparedDataSet<T> {
    /// Number of rows of every partition but the last, when the data set
    /// is cut into `n` partitions.
    pub open spec fn partition_rows(&self, n: int) -> int {
        self.spec_num_rows() / n
    }

    /// The row at which partition `k` of `n` starts. Partitions are cut
    /// from the end of the data set: the first one holds the last rows, and
    /// the last one starts at row 0.
    pub open spec fn partition_first_row(&self, n: int, k: int) -> int {
        if k == n - 1 {
            0
        } else {
            self.spec_num_rows() - (k + 1) * self.partition_rows(n)
        }
    }

    /// Number of rows of partition `k` of `n`: the last partition takes
    /// what the others leave, which is at least as much as any of them.
    pub open spec fn partition_num_rows(&self, n: int, k: int) -> int {
        if k == n - 1 {
            self.spec_num_rows() - (n - 1) * self.partition_rows(n)
        } else {
            self.partition_rows(n)
        }
    }

    /// Whether `part` is the range of `num_rows` rows of this data set that
    /// starts at row `first_row`.
    pub open spec fn has_part(&self, part: &PreparedDataSet<T>, first_row: int, num_rows: int) -> bool {
        &&& part.wf()
        &&& part.storage() == self.storage()
        &&& part.spec_offset() == self.row_start(first_row)
        &&& part.spec_num_rows() == num_rows
        &&& part.spec_independent_cols() == self.spec_independent_cols()
        &&& part.spec_dependent_cols() == self.spec_dependent_cols()
    }

    /// The partitions are consecutive: each one ends where the one before
    /// it starts, the first one ends at the last row, the last one starts
    /// at row 0, and none is larger than the last.
    pub proof fn lemma_partitions_cover(&self, n: int, k: int)
        requires
            0 <= self.spec_num_rows(),
            0 < n,
            0 <= k < n,
        ensures
            0 <= self.partition_first_row(n, k),
            0 <= self.partition_num_rows(n, k),
            self.partition_first_row(n, k) + self.partition_num_rows(n, k) == if k == 0 {
                self.spec_num_rows()
            } else {
                self.partition_first_row(n, k - 1)
            },
            self.partition_first_row(n, n - 1) == 0,
            self.partition_num_rows(n, k) <= self.partition_num_rows(n, n - 1),
    {
        let rows = self.spec_num_rows();
        let each = rows / n;
        assert(0 <= each && each * n <= rows) by (nonlinear_arith)
            requires
                each == rows / n,
                0 <= rows,
                0 < n,
        ;
        assert((k + 1) * each <= n * each) by (nonlinear_arith)
            requires
                0 <= k < n,
                0 <= each,
        ;
        assert((n - 1) * each == n * each - each) by (nonlinear_arith);
        assert((k + 1) * each == k * each + each) by (nonlinear_arith);
        assert(each * n == n * each) by (nonlinear_arith);
    }

    /// A single partition is the whole data set.
    pub proof fn lemma_single_partition(&self)
        requires
            0 <= self.spec_num_rows(),
        ensures
            self.partition_first_row(1, 0) == 0,
            self.partition_num_rows(1, 0) == self.spec_num_rows(),
    {
    }

    /// The range of `num_rows` rows that starts at row `row_offset`, as a
    /// data set of its own over the same storage.
    fn make_partition(&self, row_offset: usize, num_rows: usize) -> (part: PreparedDataSet<T>)
        requires
            self.wf(),
            row_offset + num_rows <= self.spec_num_rows(),
        ensures
            self.has_part(&part, row_offset as int, num_rows as int),
    {
        let ghost cols = self.num_cols as int;
        assert(row_offset * cols + num_rows * cols == (row_offset + num_rows) * cols)
            by (nonlinear_arith);
        assert((row_offset + num_rows) * cols <= self.num_rows * cols) by (nonlinear_arith)
            requires
                row_offset + num_rows <= self.num_rows,
                0 <= cols,
        ;
        assert(0 <= row_offset * cols && 0 <= num_rows * cols) by (nonlinear_arith)
            requires
                0 <= cols,
        ;
        let _len = self.data.len();
        let offset = self.offset + row_offset * self.num_cols;
        let end = offset + num_rows * self.num_cols;
        PreparedDataSet {
            data: share(&self.data),
            offset,
            end,
            num_cols: self.num_cols,
            num_rows,
            independent_cols: self.independent_cols,
            dependent_cols: self.dependent_cols,
        }
    }

    /// Cuts the data set into `n` partitions of consecutive rows. All but
    /// the last hold `num_rows / n` rows; the last holds the rest.
    pub fn partition(&self, n: usize) -> (parts: Vec<PreparedDataSet<T>>)
        requires
            self.wf(),
            0 < n < self.spec_num_rows(),
        ensures
            parts@.len() == n,
            forall|k: int|
                0 <= k < n ==> self.has_part(
                    #[trigger] &parts@[k],
                    self.partition_first_row(n as int, k),
                    self.partition_num_rows(n as int, k),
                ),
    {
        let target_rows = self.num_rows / n;
        let mut parts: Vec<PreparedDataSet<T>> = Vec::with_capacity(n);
        let mut end_row = self.num_rows;
        let mut k: usize = 0;
        while k < n - 1
            invariant
                k <= n - 1,
                self.wf(),
                0 < n < self.spec_num_rows(),
                target_rows == self.partition_rows(n as int),
                end_row == self.spec_num_rows() - k * target_rows,
                parts@.len() == k,
                forall|j: int|
                    0 <= j < k ==> self.has_part(
                        #[trigger] &parts@[j],
                        self.partition_first_row(n as int, j),
                        self.partition_num_rows(n as int, j),
                    ),
            decreases n - 1 - k,
        {
            proof {
                self.lemma_partitions_cover(n as int, k as int);
                assert((k + 1) * target_rows == k * target_rows + target_rows)
                    by (nonlinear_arith);
            }
            let row_offset = end_row - target_rows;
            parts.push(self.make_partition(row_offset, target_rows));
            end_row = row_offset;
            k += 1;
        }
        proof {
            self.lemma_partitions_cover(n as int, n - 1);
        }
        parts.push(self.make_partition(0, end_row));
        parts
    }

    /// An iterator over the rows, first to last.
    pub fn iter(&self) -> (rows: PreparedDataSetIterator<'_, T>)
        requires
            self.wf(),
        ensures
            rows.wf(),
            rows.tracks(self),
            rows.storage() == self.storage(),
            rows.position() == self.spec_offset(),
            rows.rows_left() == self.spec_num_rows(),
            rows.spec_independent_cols() == self.spec_independent_cols(),
            rows.spec_dependent_cols() == self.spec_dependent_cols(),
    {
        PreparedDataSetIterator {
            data: self.data.as_slice(),
            offset: self.offset,
            end: self.end,
            num_cols: self.num_cols,
            independent_cols: self.independent_cols,
            rows_left: Ghost(self.num_rows as int),
        }
    }
}

/// Walks the rows of a data set from first to last.
pub struct PreparedDataSetIterator<'a, T> {
    data: &'a [T],
    offset: usize,
    end: usize,
    num_cols: usize,
    independent_cols: usize,
    rows_left: Ghost<int>,
}

impl<'a, T> PreparedDataSetIterator<'a, T> {
    /// The buffer that holds the rows.
    pub closed spec fn storage(&self) -> Seq<T> {
        self.data@
    }

    /// Where in the buffer the next row starts.
    pub closed spec fn position(&self) -> int {
        self.offset as int
    }

    /// Number of rows not yet handed out.
    pub closed spec fn rows_left(&self) -> int {
        self.rows_left@
    }

    /// Number of input values per row.
    pub closed spec fn spec_independent_cols(&self) -> int {
        self.independent_cols as int
    }

    /// Number of expected output values per row.
    pub closed spec fn spec_dependent_cols(&self) -> int {
        self.num_cols - self.independent_cols
    }

    /// What the fields cache: the end of the last row.
    pub closed spec fn cached(&self) -> bool {
        &&& self.independent_cols <= self.num_cols
        &&& self.end == self.offset + self.rows_left@ * self.num_cols
    }

    /// The iterator's invariant: the rows left lie inside the buffer.
    pub open spec fn wf(&self) -> bool {
        &&& self.cached()
        &&& 0 <= self.rows_left()
        &&& 0 <= self.spec_dependent_cols()
        &&& self.position() + self.rows_left() * (self.spec_independent_cols()
            + self.spec_dependent_cols()) <= self.storage().len()
    }

    /// Whether the iterator walks `data_set` and has handed out its first
    /// rows: the rows left are the last rows of the data set.
    pub open spec fn tracks(&self, data_set: &PreparedDataSet<T>) -> bool {
        &&& self.storage() == data_set.storage()
        &&& self.spec_independent_cols() == data_set.spec_independent_cols()
        &&& self.spec_dependent_cols() == data_set.spec_dependent_cols()
        &&& self.rows_left() <= data_set.spec_num_rows()
        &&& self.position() == data_set.row_start(data_set.spec_num_rows() - self.rows_left())
    }

    /// Whether there is another row with values.
    pub open spec fn spec_has_next(&self) -> bool {
        self.rows_left() > 0 && self.spec_independent_cols() + self.spec_dependent_cols() > 0
    }

    /// Whether `next_unchecked` may be called.
    pub fn has_next(&self) -> (more: bool)
        requires
            self.wf(),
        ensures
            more == self.spec_has_next(),
    {
        proof {
            let left = self.rows_left@;
            let cols = self.num_cols as int;
            if left > 0 && cols > 0 {
                assert(left * cols > 0) by (nonlinear_arith)
                    requires
                        left > 0,
                        cols > 0,
                ;
            } else {
                assert(left * cols == 0) by (nonlinear_arith)
                    requires
                        left == 0 || cols == 0,
                ;
            }
        }
        self.offset != self.end
    }

    /// Hands out the next row, if there is one.
    pub fn next(&mut self) -> (row: Option<(&'a [T], &'a [T])>)
        requires
            old(self).wf(),
        ensures
            final(self).wf(),
            final(self).storage() == old(self).storage(),
            final(self).spec_independent_cols() == old(self).spec_independent_cols(),
            final(self).spec_dependent_cols() == old(self).spec_dependent_cols(),
            match row {
                Some(row) => {
                    &&& old(self).spec_has_next()
                    &&& final(self).rows_left() == old(self).rows_left() - 1
                    &&& final(self).position() == old(self).position() + old(self).spec_independent_cols() + old(self).spec_dependent_cols()
                    &&& row.0@ == old(self).storage().subrange(
                        old(self).position(),
                        old(self).position() + old(self).spec_independent_cols(),
                    )
                    &&& row.1@ == old(self).storage().subrange(
                        old(self).position() + old(self).spec_independent_cols(),
                        final(self).position(),
                    )
                },
                None => !old(self).spec_has_next() && *final(self) == *old(self),
            },
    {
        if self.has_next() {
            Some(self.next_unchecked())
        } else {
            None
        }
    }

    /// Hands out the next row: its input values and its expected output
    /// values.
    pub fn next_unchecked(&mut self) -> (row: (&'a [T], &'a [T]))
        requires
            old(self).wf(),
            old(self).spec_has_next(),
        ensures
            final(self).wf(),
            final(self).storage() == old(self).storage(),
            final(self).spec_independent_cols() == old(self).spec_independent_cols(),
            final(self).spec_dependent_cols() == old(self).spec_dependent_cols(),
            final(self).rows_left() == old(self).rows_left() - 1,
            final(self).position() == old(self).position() + old(self).spec_independent_cols()
                + old(self).spec_dependent_cols(),
            row.0@ == old(self).storage().subrange(
                old(self).position(),
                old(self).position() + old(self).spec_independent_cols(),
            ),
            row.1@ == old(self).storage().subrange(
                old(self).position() + old(self).spec_independent_cols(),
                final(self).position(),
            ),
    {
        proof {
            let left = self.rows_left@;
            let cols = self.num_cols as int;
            assert(left * cols == (left - 1) * cols + cols) by (nonlinear_arith);
            assert(0 <= (left - 1) * cols) by (nonlinear_arith)
                requires
                    left >= 1,
                    cols >= 0,
            ;
        }
        let data: &'a [T] = self.data;
        let _len = data.len();
        let offset = self.offset;
        let dependent_offset = offset + self.independent_cols;
        let row_end = offset + self.num_cols;
        self.offset = row_end;
        self.rows_left = Ghost(self.rows_left@ - 1);
        (slice_subrange(data, offset, dependent_offset), slice_subrange(data, dependent_offset, row_end))
    }
}

/// Why a table cannot be turned into a data set.
#[derive(Clone, Debug, PartialEq, Eq)]
pub enum CsvParseError {
    /// The table has no columns.
    ZeroColumns,
    /// No input column or no output column was asked for.
    ZeroColumnsSelected,
    /// A row has this many values, but the table has that many columns.
    ColumnCountMismatch(usize, usize),
    /// A column of this name was asked for, and the table has none.
    ColumnNotFound(String),
    /// The table has two columns of this name.
    DuplicateColumns(String),
    /// A column of this name was asked for twice.
    DuplicateColumnsSpecified(String),
}

/// An error as contracts see it, with names as sequences of characters.
pub enum CsvParseErrorView {
    ZeroColumns,
    ZeroColumnsSelected,
    ColumnCountMismatch(usize, usize),
    ColumnNotFound(Seq<char>),
    DuplicateColumns(Seq<char>),
    DuplicateColumnsSpecified(Seq<char>),
}

impl View for CsvParseError {
    type V = CsvParseErrorView;

    open spec fn view(&self) -> CsvParseErrorView {
        match *self {
            CsvParseError::ZeroColumns => CsvParseErrorView::ZeroColumns,
            CsvParseError::ZeroColumnsSelected => CsvParseErrorView::ZeroColumnsSelected,
            CsvParseError::ColumnCountMismatch(count, previous) => {
                CsvParseErrorView::ColumnCountMismatch(count, previous)
            },
            CsvParseError::ColumnNotFound(name) => CsvParseErrorView::ColumnNotFound(name@),
            CsvParseError::DuplicateColumns(name) => CsvParseErrorView::DuplicateColumns(name@),
            CsvParseError::DuplicateColumnsSpecified(name) => {
                CsvParseErrorView::DuplicateColumnsSpecified(name@)
            },
        }
    }
}

impl CsvParseError {
    /// Whether `message` can be this error in words.
    pub open spec fn describes(&self, message: Seq<char>) -> bool {
        match *self {
            CsvParseError::ZeroColumns => message == "Zero columns in dataset"@,
            CsvParseError::ZeroColumnsSelected => message == "Zero columns selected"@,
            CsvParseError::ColumnCountMismatch(count, previous) => exists|
                count_text: String,
                previous_text: String,
            |
                {
                    &&& #[trigger] to_string_from_display_ensures::<usize>(&count, count_text)
                    &&& #[trigger] to_string_from_display_ensures::<usize>(&previous, previous_text)
                    &&& message == "Invalid number of columns "@ + count_text@
                        + ", previous was "@ + previous_text@
                },
            CsvParseError::ColumnNotFound(name) => message == "Column with name "@ + name@
                + " not found"@,
            CsvParseError::DuplicateColumns(name) => message
                == "Duplicate columns found in file: "@ + name@,
            CsvParseError::DuplicateColumnsSpecified(name) => message
                == "Duplicate columns specified: "@ + name@,
        }
    }

    /// The error in words.
    pub fn message(&self) -> (message: String)
        ensures
            self.describes(message@),
    {
        match self {
            CsvParseError::ZeroColumns => String::from_str("Zero columns in dataset"),
            CsvParseError::ZeroColumnsSelected => String::from_str("Zero columns selected"),
            CsvParseError::ColumnCountMismatch(count, previous) => {
                let count_text = count.to_string();
                let previous_text = previous.to_string();
                let mut message = String::from_str("Invalid number of columns ");
                message.append(count_text.as_str());
                message.append(", previous was ");
                message.append(previous_text.as_str());
                message
            },
            CsvParseError::ColumnNotFound(name) => {
                let mut message = String::from_str("Column with name ");
                message.append(name.as_str());
                message.append(" not found");
                message
            },
            CsvParseError::DuplicateColumns(name) => {
                let mut message = String::from_str("Duplicate columns found in file: ");
                message.append(name.as_str());
                message
            },
            CsvParseError::DuplicateColumnsSpecified(name) => {
                let mut message = String::from_str("Duplicate columns specified: ");
                message.append(name.as_str());
                message
            },
        }
    }
}

/// Position of the first name equal to `target` among the first `n` names,
/// or `n` when there is none.
pub open spec fn position_of(names: Seq<Seq<char>>, target: Seq<char>, n: int) -> int
    decreases n,
{
    if n <= 0 {
        0
    } else if position_of(names, target, n - 1) < n - 1 {
        position_of(names, target, n - 1)
    } else if names[n - 1] == target {
        n - 1
    } else {
        n
    }
}

/// Position of the first of the first `n` names that equals a name before
/// it, or `n` when they all differ.
pub open spec fn first_repeat(names: Seq<Seq<char>>, n: int) -> int
    decreases n,
{
    if n <= 0 {
        0
    } else if first_repeat(names, n - 1) < n - 1 {
        first_repeat(names, n - 1)
    } else if position_of(names, names[n - 1], n - 1) < n - 1 {
        n - 1
    } else {
        n
    }
}

/// Position of the first of the first `n` wanted names that is not among
/// `names`, or `n` when all are.
pub open spec fn first_missing(names: Seq<Seq<char>>, wanted: Seq<Seq<char>>, n: int) -> int
    decreases n,
{
    if n <= 0 {
        0
    } else if first_missing(names, wanted, n - 1) < n - 1 {
        first_missing(names, wanted, n - 1)
    } else if position_of(names, wanted[n - 1], names.len() as int) == names.len() {
        n - 1
    } else {
        n
    }
}

/// Why the wanted columns cannot be selected from a table with these column
/// names, if they cannot. The checks come in this order: something was
/// asked for; the table has columns; the table's names differ; every wanted
/// input column and then every wanted output column exists; no column was
/// asked for twice.
pub open spec fn selection_error(
    names: Seq<Seq<char>>,
    independent: Seq<Seq<char>>,
    dependent: Seq<Seq<char>>,
) -> Option<CsvParseErrorView> {
    let wanted = independent + dependent;
    if independent.len() == 0 || dependent.len() == 0 {
        Some(CsvParseErrorView::ZeroColumnsSelected)
    } else if names.len() == 0 {
        Some(CsvParseErrorView::ZeroColumns)
    } else if first_repeat(names, names.len() as int) < names.len() {
        Some(CsvParseErrorView::DuplicateColumns(names[first_repeat(names, names.len() as int)]))
    } else if first_missing(names, independent, independent.len() as int) < independent.len() {
        Some(
            CsvParseErrorView::ColumnNotFound(
                independent[first_missing(names, independent, independent.len() as int)],
            ),
        )
    } else if first_missing(names, dependent, dependent.len() as int) < dependent.len() {
        Some(
            CsvParseErrorView::ColumnNotFound(
                dependent[first_missing(names, dependent, dependent.len() as int)],
            ),
        )
    } else if first_repeat(wanted, wanted.len() as int) < wanted.len() {
        Some(
            CsvParseErrorView::DuplicateColumnsSpecified(
                wanted[first_repeat(wanted, wanted.len() as int)],
            ),
        )
    } else {
        None
    }
}

/// The names as sequences of characters.
pub open spec fn names_of(names: Seq<String>) -> Seq<Seq<char>> {
    Seq::new(names.len(), |i: int| names[i]@)
}

/// The names behind the references, as sequences of characters.
pub open spec fn names_behind(names: Seq<&String>) -> Seq<Seq<char>> {
    Seq::new(names.len(), |i: int| names[i]@)
}

/// `itertools::chain`: an iterator over the items of the first argument and
/// then over those of the second. Collected, it gives references to the
/// names of `first` in order, followed by those of `second`.
#[verifier::external_body]
fn chain_names<'a>(first: &'a [String], second: &'a [String]) -> (chained: Vec<&'a String>)
    ensures
        names_behind(chained@) == names_of(first@) + names_of(second@),
{
    itertools::chain(first.iter(), second.iter()).collect()
}

/// Position of the first name equal to `target`, if there is one.
fn find_name(names: &[String], target: &String) -> (found: Option<usize>)
    ensures
        match found {
            Some(at) => at < names@.len() && at == position_of(
                names_of(names@),
                target@,
                names@.len() as int,
            ),
            None => position_of(names_of(names@), target@, names@.len() as int) == names@.len(),
        },
{
    let mut k: usize = 0;
    while k < names.len()
        invariant
            k <= names@.len(),
            position_of(names_of(names@), target@, k as int) == k,
        decreases names@.len() - k,
    {
        if names[k] == *target {
            proof {
                lemma_position_of_stays(names_of(names@), target@, k + 1, names@.len() as int);
            }
            return Some(k);
        }
        k += 1;
    }
    None
}

/// Once a name is found among the first `n` names, it is found at the same
/// position among more.
pub proof fn lemma_position_of_stays(names: Seq<Seq<char>>, target: Seq<char>, n: int, m: int)
    requires
        0 <= n <= m,
        position_of(names, target, n) < n,
    ensures
        position_of(names, target, m) == position_of(names, target, n),
    decreases m - n,
{
    if n < m {
        lemma_position_of_stays(names, target, n, m - 1);
    }
}

/// Position of the first name that equals a name before it, if there is
/// one.
fn find_repeat(names: &[&String]) -> (found: Option<usize>)
    ensures
        match found {
            Some(at) => at < names@.len() && at == first_repeat(
                names_behind(names@),
                names@.len() as int,
            ),
            None => first_repeat(names_behind(names@), names@.len() as int) == names@.len(),
        },
{
    let ghost all = names_behind(names@);
    let mut j: usize = 0;
    while j < names.len()
        invariant
            j <= names@.len(),
            all == names_behind(names@),
            first_repeat(all, j as int) == j,
        decreases names@.len() - j,
    {
        let mut i: usize = 0;
        while i < j
            invariant
                i <= j < names@.len(),
                all == names_behind(names@),
                first_repeat(all, j as int) == j,
                position_of(all, all[j as int], i as int) == i,
            decreases j - i,
        {
            if *names[i] == *names[j] {
                proof {
                    lemma_position_of_stays(all, all[j as int], i + 1, j as int);
                    lemma_first_repeat_stays(all, j + 1, names@.len() as int);
                }
                return Some(j);
            }
            i += 1;
        }
        j += 1;
    }
    None
}

/// Once a repeat is found among the first `n` names, it is the first
/// repeat among more.
pub proof fn lemma_first_repeat_stays(names: Seq<Seq<char>>, n: int, m: int)
    requires
        0 <= n <= m,
        first_repeat(names, n) < n,
    ensures
        first_repeat(names, m) == first_repeat(names, n),
    decreases m - n,
{
    if n < m {
        lemma_first_repeat_stays(names, n, m - 1);
    }
}

/// Which columns of a table make up the rows of a data set: the positions
/// of the input columns and of the output columns, each in the order asked
/// for.
#[derive(Clone, Debug)]
pub struct ColumnSelection {
    pub independent_indices: Vec<usize>,
    pub dependent_indices: Vec<usize>,
}

/// Looks up each wanted name among the table's names.
fn find_columns(names: &[String], wanted: &[String]) -> (found: Result<Vec<usize>, usize>)
    ensures
        match found {
            Ok(indices) => {
                &&& first_missing(names_of(names@), names_of(wanted@), wanted@.len() as int)
                    == wanted@.len()
                &&& indices@.len() == wanted@.len()
                &&& forall|k: int|
                    0 <= k < wanted@.len() ==> #[trigger] indices@[k] == position_of(
                        names_of(names@),
                        wanted@[k]@,
                        names@.len() as int,
                    ) && indices@[k] < names@.len()
            },
            Err(at) => at < wanted@.len() && at == first_missing(
                names_of(names@),
                names_of(wanted@),
                wanted@.len() as int,
            ),
        },
{
    let ghost all = names_of(names@);
    let ghost asked = names_of(wanted@);
    let mut indices: Vec<usize> = Vec::with_capacity(wanted.len());
    let mut k: usize = 0;
    while k < wanted.len()
        invariant
            k <= wanted@.len(),
            all == names_of(names@),
            asked == names_of(wanted@),
            first_missing(all, asked, k as int) == k,
            indices@.len() == k,
            forall|i: int|
                0 <= i < k ==> #[trigger] indices@[i] == position_of(
                    all,
                    wanted@[i]@,
                    names@.len() as int,
                ) && indices@[i] < names@.len(),
        decreases wanted@.len() - k,
    {
        match find_name(names, &wanted[k]) {
            None => {
                proof {
                    lemma_first_missing_stays(all, asked, k + 1, wanted@.len() as int);
                }
                return Err(k);
            },
            Some(at) => {
                indices.push(at);
            },
        }
        k += 1;
    }
    Ok(indices)
}

/// Once a missing name is found among the first `n` wanted names, it is
/// the first missing one among more.
pub proof fn lemma_first_missing_stays(
    names: Seq<Seq<char>>,
    wanted: Seq<Seq<char>>,
    n: int,
    m: int,
)
    requires
        0 <= n <= m,
        first_missing(names, wanted, n) < n,
    ensures
        first_missing(names, wanted, m) == first_missing(names, wanted, n),
    decreases m - n,
{
    if n < m {
        lemma_first_missing_stays(names, wanted, n, m - 1);
    }
}

/// Finds the wanted input and output columns among a table's column names.
/// Fails with the first reason that `selection_error` gives; succeeds with
/// the position of every wanted column otherwise.
pub fn select_columns(
    column_names: &[String],
    independent_cols: &[String],
    dependent_cols: &[String],
) -> (selected: Result<ColumnSelection, CsvParseError>)
    ensures
        match selected {
            Ok(selection) => {
                &&& selection_error(
                    names_of(column_names@),
                    names_of(independent_cols@),
                    names_of(dependent_cols@),
                ) is None
                &&& selection.independent_indices@.len() == independent_cols@.len()
                &&& selection.dependent_indices@.len() == dependent_cols@.len()
                &&& forall|k: int|
                    0 <= k < independent_cols@.len()
                        ==> #[trigger] selection.independent_indices@[k] == position_of(
                        names_of(column_names@),
                        independent_cols@[k]@,
                        column_names@.len() as int,
                    ) && selection.independent_indices@[k] < column_names@.len()
                &&& forall|k: int|
                    0 <= k < dependent_cols@.len()
                        ==> #[trigger] selection.dependent_indices@[k] == position_of(
                        names_of(column_names@),
                        dependent_cols@[k]@,
                        column_names@.len() as int,
                    ) && selection.dependent_indices@[k] < column_names@.len()
            },
            Err(error) => selection_error(
                names_of(column_names@),
                names_of(independent_cols@),
                names_of(dependent_cols@),
            ) == Some(error@),
        },
{
    let ghost names = names_of(column_names@);
    let ghost independent = names_of(independent_cols@);
    let ghost dependent = names_of(dependent_cols@);
    if independent_cols.len() == 0 || dependent_cols.len() == 0 {
        return Err(CsvParseError::ZeroColumnsSelected);
    }
    if column_names.len() == 0 {
        return Err(CsvParseError::ZeroColumns);
    }
    let no_names: Vec<String> = Vec::new();
    let all_names = chain_names(column_names, no_names.as_slice());
    assert(names_behind(all_names@) =~= names);
    if let Some(at) = find_repeat(all_names.as_slice()) {
        return Err(CsvParseError::DuplicateColumns(all_names[at].clone()));
    }
    let independent_indices = match find_columns(column_names, independent_cols) {
        Ok(indices) => indices,
        Err(at) => {
            return Err(CsvParseError::ColumnNotFound(independent_cols[at].clone()));
        },
    };
    let dependent_indices = match find_columns(column_names, dependent_cols) {
        Ok(indices) => indices,
        Err(at) => {
            return Err(CsvParseError::ColumnNotFound(dependent_cols[at].clone()));
        },
    };
    let wanted = chain_names(independent_cols, dependent_cols);
    if let Some(at) = find_repeat(wanted.as_slice()) {
        return Err(CsvParseError::DuplicateColumnsSpecified(wanted[at].clone()));
    }
    Ok(ColumnSelection { independent_indices, dependent_indices })
}

/// Appends one row of a table to the values of a data set: the values of
/// the selected input columns, then those of the selected output columns.
/// Fails, and appends nothing, when the row does not have one value per
/// column of the table.
pub fn append_row<T: Copy>(
    data: &mut Vec<T>,
    row_vals: &[T],
    selection: &ColumnSelection,
    num_columns: usize,
) -> (appended: Result<(), CsvParseError>)
    requires
        forall|k: int|
            0 <= k < selection.independent_indices@.len()
                ==> #[trigger] selection.independent_indices@[k] < num_columns,
        forall|k: int|
            0 <= k < selection.dependent_indices@.len()
                ==> #[trigger] selection.dependent_indices@[k] < num_columns,
    ensures
        match appended {
            Ok(()) => {
                &&& row_vals@.len() == num_columns
                &&& final(data)@ == old(data)@ + Seq::new(
                    selection.independent_indices@.len(),
                    |k: int| row_vals@[selection.independent_indices@[k] as int],
                ) + Seq::new(
                    selection.dependent_indices@.len(),
                    |k: int| row_vals@[selection.dependent_indices@[k] as int],
                )
            },
            Err(error) => {
                &&& row_vals@.len() != num_columns
                &&& error@ == CsvParseErrorView::ColumnCountMismatch(
                    row_vals@.len() as usize,
                    num_columns,
                )
                &&& final(data)@ == old(data)@
            },
        },
{
    if num_columns != row_vals.len() {
        return Err(CsvParseError::ColumnCountMismatch(row_vals.len(), num_columns));
    }
    let mut k: usize = 0;
    while k < selection.independent_indices.len()
        invariant
            k <= selection.independent_indices@.len(),
            row_vals@.len() == num_columns,
            forall|k: int|
                0 <= k < selection.independent_indices@.len()
                    ==> #[trigger] selection.independent_indices@[k] < num_columns,
            data@ == old(data)@ + Seq::new(
                k as nat,
                |k: int| row_vals@[selection.independent_indices@[k] as int],
            ),
        decreases selection.independent_indices@.len() - k,
    {
        data.push(row_vals[selection.independent_indices[k]]);
        k += 1;
        assert(data@ =~= old(data)@ + Seq::new(
            k as nat,
            |k: int| row_vals@[selection.independent_indices@[k] as int],
        ));
    }
    let ghost inputs = data@;
    let mut k: usize = 0;
    while k < selection.dependent_indices.len()
        invariant
            k <= selection.dependent_indices@.len(),
            row_vals@.len() == num_columns,
            forall|k: int|
                0 <= k < selection.dependent_indices@.len()
                    ==> #[trigger] selection.dependent_indices@[k] < num_columns,
            data@ == inputs + Seq::new(
                k as nat,
                |k: int| row_vals@[selection.dependent_indices@[k] as int],
            ),
        decreases selection.dependent_indices@.len() - k,
    {
        data.push(row_vals[selection.dependent_indices[k]]);
        k += 1;
        assert(data@ =~= inputs + Seq::new(
            k as nat,
            |k: int| row_vals@[selection.dependent_indices@[k] as int],
        ));
    }
    Ok(())
}

} // verus!
