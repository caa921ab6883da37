//! Runtime values: a scalar, or a matrix stored row by row.
//!
//! The entry type is a parameter.  What is verified here is everything that
//! moves entries without computing on them: shapes, indexing, identity
//! construction, transposition, joining and splitting of columns, and the
//! printed layout.

use vstd::prelude::*;
use vstd::string::*;

verus! {

/// A matrix of `rows` by `cols` entries, stored row by row.
#[derive(Clone)]
pub struct Matrix<T> {
    pub data: Vec<T>,
    pub rows: usize,
    pub cols: usize,
}

/// A single number.
#[derive(Clone)]
pub struct Scalar<T> {
    pub data: T,
}

/// The two kinds of value.
#[derive(Clone)]
#[allow(non_camel_case_types)]
pub enum ValueType<T> {
    SCALAR(Scalar<T>),
    MATRIX(Matrix<T>),
}

/// A value of the language.
#[derive(Clone)]
pub struct Value<T> {
    pub data: ValueType<T>,
}

/// The mathematical content of a [`Value`]: its entries by their views.
pub enum ValueView<V> {
    Scalar(V),
    Matrix { data: Seq<V>, rows: nat, cols: nat },
}

impl<T> Matrix<T> {
    /// The mathematical content of the matrix: its entries and its shape.
    pub open spec fn content(&self) -> ValueView<T> {
        ValueView::Matrix { data: self.data@, rows: self.rows as nat, cols: self.cols as nat }
    }
}

impl<T> Value<T> {
    /// The mathematical content of the value, its entries as they are.
    pub open spec fn content(&self) -> ValueView<T> {
        match self.data {
            ValueType::SCALAR(s) => ValueView::Scalar(s.data),
            ValueType::MATRIX(m) => m.content(),
        }
    }
}

impl<V> ValueView<V> {
    /// A matrix has as many entries as its shape says, and no side is
    /// empty.  A scalar always is well formed.
    pub open spec fn well_formed(self) -> bool {
        match self {
            ValueView::Scalar(_) => true,
            ValueView::Matrix { data, rows, cols } => rows >= 1 && cols >= 1 && data.len() == rows
                * cols,
        }
    }
}

/// The views of a sequence of entries, in order.
pub open spec fn entry_views<T: View>(data: Seq<T>) -> Seq<T::V> {
    data.map_values(|e: T| e@)
}

impl<T: View> View for Value<T> {
    type V = ValueView<T::V>;

    open spec fn view(&self) -> ValueView<T::V> {
        match self.data {
            ValueType::SCALAR(s) => ValueView::Scalar(s.data@),
            ValueType::MATRIX(m) => ValueView::Matrix {
                data: entry_views(m.data@),
                rows: m.rows as nat,
                cols: m.cols as nat,
            },
        }
    }
}

/// Position `k` of a row-by-row store of rows of `width` entries holds the
/// entry of row `k / width` and column `k % width`.
pub proof fn lemma_cell(i: int, j: int, width: int)
    requires
        0 <= i,
        0 <= j < width,
    ensures
        (i * width + j) / width == i,
        (i * width + j) % width == j,
{
    vstd::arithmetic::div_mod::lemma_fundamental_div_mod_converse(i * width + j, width, i, j);
}

/// The cell of row `i` and column `j` lies within a store of `height` rows.
pub proof fn lemma_cell_bound(i: int, j: int, height: int, width: int)
    requires
        0 <= i < height,
        0 <= j < width,
    ensures
        0 <= i * width <= i * width + j < height * width,
        (i + 1) * width == i * width + width,
        (i + 1) * width <= height * width,
{
    assert(0 <= i * width) by (nonlinear_arith)
        requires
            0 <= i,
            0 <= width,
    ;
    assert((i + 1) * width == i * width + width) by (nonlinear_arith);
    assert((i + 1) * width <= height * width) by (nonlinear_arith)
        requires
            i + 1 <= height,
            0 <= width,
    ;
}

/// Every position of a store of `height` rows of `width` entries is the
/// cell of one row and one column.
pub proof fn lemma_cell_of(k: int, height: int, width: int)
    requires
        0 <= k < height * width,
        0 < width,
    ensures
        0 <= k / width < height,
        0 <= k % width < width,
        k == (k / width) * width + k % width,
{
    vstd::arithmetic::div_mod::lemma_fundamental_div_mod(k, width);
    vstd::arithmetic::div_mod::lemma_mod_pos_bound(k, width);
    vstd::arithmetic::div_mod::lemma_div_pos_is_pos(k, width);
    let q = k / width;
    let r = k % width;
    assert(width * q == q * width) by (nonlinear_arith);
    if q >= height {
        assert(q * width >= height * width) by (nonlinear_arith)
            requires
                q >= height,
                width > 0,
        ;
    }
}

/// The entries of the `size` by `size` identity matrix, row by row: `one`
/// on the diagonal and `zero` elsewhere.
pub open spec fn identity_entries<T>(size: nat, zero: T, one: T) -> Seq<T> {
    Seq::new(
        size * size,
        |k: int|
            if k / (size as int) == k % (size as int) {
                one
            } else {
                zero
            },
    )
}

/// The entries of the transpose of a `rows` by `cols` matrix with entries
/// `data`: entry (i, j) of the result is entry (j, i) of the matrix.
pub open spec fn transposed_entries<T>(data: Seq<T>, rows: nat, cols: nat) -> Seq<T> {
    Seq::new(rows * cols, |k: int| data[(k % (rows as int)) * cols + k / (rows as int)])
}

/// The entries of a matrix of `rows` rows whose rows are those of `left`
/// (`left_cols` wide) each followed by the same row of `right`
/// (`right_cols` wide).
pub open spec fn joined_entries<T>(
    left: Seq<T>,
    right: Seq<T>,
    rows: nat,
    left_cols: nat,
    right_cols: nat,
) -> Seq<T> {
    let width = (left_cols + right_cols) as int;
    Seq::new(
        rows * (left_cols + right_cols),
        |k: int|
            if k % width < left_cols {
                left[(k / width) * left_cols + k % width]
            } else {
                right[(k / width) * right_cols + (k % width - left_cols)]
            },
    )
}

/// The entries of the matrix made of the columns of a `rows` by `cols`
/// matrix from column `from` on.
pub open spec fn trailing_entries<T>(data: Seq<T>, rows: nat, cols: nat, from: nat) -> Seq<T> {
    let width = (cols - from) as int;
    Seq::new((rows * (cols - from)) as nat, |k: int| data[(k / width) * cols + from + k % width])
}

/// Transposing twice gives the matrix back.
pub proof fn lemma_transpose_involution<T>(data: Seq<T>, rows: nat, cols: nat)
    requires
        data.len() == rows * cols,
    ensures
        transposed_entries(transposed_entries(data, rows, cols), cols, rows) == data,
{
    let once = transposed_entries(data, rows, cols);
    let twice = transposed_entries(once, cols, rows);
    assert(rows * cols == cols * rows) by (nonlinear_arith);
    assert forall|k: int| 0 <= k < data.len() implies twice[k] == data[k] by {
        assert(cols > 0 && rows > 0) by (nonlinear_arith)
            requires
                0 <= k < rows * cols,
        ;
        lemma_cell_of(k, rows as int, cols as int);
        let i = k / (cols as int);
        let j = k % (cols as int);
        let back = j * rows + i;
        lemma_cell(j, i, rows as int);
        lemma_cell_bound(j, i, cols as int, rows as int);
        assert(twice[k] == once[back]);
        assert(once[back] == data[i * cols + j]);
    }
    assert(twice =~= data);
}

impl<T> Matrix<T> {
    /// The matrix of the given entries and shape.
    pub fn new(data: Vec<T>, rows: usize, cols: usize) -> (m: Self)
        ensures
            m.data == data,
            m.rows == rows,
            m.cols == cols,
    {
        Matrix { data, rows, cols }
    }

    /// The shape and the number of entries agree, and no side is empty.
    pub open spec fn well_formed(&self) -> bool {
        &&& self.rows >= 1
        &&& self.cols >= 1
        &&& self.data.len() == self.rows * self.cols
    }

    /// The entry in row `i` and column `j`.
    pub open spec fn entry(&self, i: int, j: int) -> T {
        self.data@[i * self.cols + j]
    }

    /// Whether the shape and the number of entries agree and no side is
    /// empty.
    pub fn is_well_formed(&self) -> (ok: bool)
        ensures
            ok == self.well_formed(),
    {
        if self.rows < 1 || self.cols < 1 {
            return false;
        }
        match self.rows.checked_mul(self.cols) {
            Some(count) => count == self.data.len(),
            None => false,
        }
    }
}

impl<T: Copy> Matrix<T> {
    /// The `size` by `size` identity matrix over the given `zero` and `one`.
    pub fn new_identity(size: usize, zero: T, one: T) -> (m: Self)
        ensures
            m.rows == size,
            m.cols == size,
            m.data@ == identity_entries(size as nat, zero, one),
    {
        let mut entries: Vec<T> = Vec::new();
        let ghost target = identity_entries(size as nat, zero, one);
        let mut i: usize = 0;
        while i < size
            invariant
                i <= size,
                entries@.len() == i * size,
                target == identity_entries(size as nat, zero, one),
                forall|k: int| 0 <= k < entries@.len() ==> #[trigger] entries@[k] == target[k],
            decreases size - i,
        {
            let mut j: usize = 0;
            while j < size
                invariant
                    i < size,
                    j <= size,
                    entries@.len() == i * size + j,
                    target == identity_entries(size as nat, zero, one),
                    forall|k: int| 0 <= k < entries@.len() ==> #[trigger] entries@[k] == target[k],
                decreases size - j,
            {
                proof {
                    lemma_cell(i as int, j as int, size as int);
                    lemma_cell_bound(i as int, j as int, size as int, size as int);
                }
                if i == j {
                    entries.push(one);
                } else {
                    entries.push(zero);
                }
                j += 1;
            }
            proof {
                lemma_cell_bound(i as int, 0, size as int, size as int);
            }
            i += 1;
        }
        Matrix { data: entries, rows: size, cols: size }
    }

    /// Turns the matrix into its transpose: rows become columns.
    pub fn transpose(&mut self)
        requires
            old(self).well_formed(),
        ensures
            final(self).rows == old(self).cols,
            final(self).cols == old(self).rows,
            final(self).well_formed(),
            final(self).data@ == transposed_entries(
                old(self).data@,
                old(self).rows as nat,
                old(self).cols as nat,
            ),
    {
        let rows = self.rows;
        let cols = self.cols;
        let mut entries: Vec<T> = Vec::new();
        let ghost target = transposed_entries(self.data@, rows as nat, cols as nat);
        assert(rows * cols == cols * rows) by (nonlinear_arith);
        let mut i: usize = 0;
        while i < cols
            invariant
                i <= cols,
                rows == self.rows,
                cols == self.cols,
                self.well_formed(),
                entries@.len() == i * rows,
                target == transposed_entries(self.data@, rows as nat, cols as nat),
                forall|k: int| 0 <= k < entries@.len() ==> #[trigger] entries@[k] == target[k],
            decreases cols - i,
        {
            let mut j: usize = 0;
            while j < rows
                invariant
                    i < cols,
                    j <= rows,
                    rows == self.rows,
                    cols == self.cols,
                    self.well_formed(),
                    entries@.len() == i * rows + j,
                    target == transposed_entries(self.data@, rows as nat, cols as nat),
                    forall|k: int| 0 <= k < entries@.len() ==> #[trigger] entries@[k] == target[k],
                decreases rows - j,
            {
                proof {
                    lemma_cell(i as int, j as int, rows as int);
                    lemma_cell_bound(i as int, j as int, cols as int, rows as int);
                    lemma_cell_bound(j as int, i as int, rows as int, cols as int);
                    assert(rows * cols == cols * rows) by (nonlinear_arith);
                }
                entries.push(self.data[j * cols + i]);
                j += 1;
            }
            proof {
                lemma_cell_bound(i as int, 0, cols as int, rows as int);
            }
            i += 1;
        }
        self.data = entries;
        self.rows = cols;
        self.cols = rows;
    }

    /// The matrix whose rows are the rows of this one, each followed by the
    /// same row of `right`.
    pub fn joined(&self, right: &Matrix<T>) -> (m: Self)
        requires
            self.well_formed(),
            right.well_formed(),
            self.rows == right.rows,
        ensures
            m.rows == self.rows,
            m.cols == self.cols + right.cols,
            m.well_formed(),
            m.data@ == joined_entries(
                    self.data@,
                    right.data@,
                    self.rows as nat,
                    self.cols as nat,
                    right.cols as nat,
                ),
    {
        let rows = self.rows;
        let ghost width = self.cols + right.cols;
        let ghost target = joined_entries(
            self.data@,
            right.data@,
            rows as nat,
            self.cols as nat,
            right.cols as nat,
        );
        let mut entries: Vec<T> = Vec::new();
        let mut i: usize = 0;
        while i < rows
            invariant
                i <= rows,
                rows == self.rows,
                width == self.cols + right.cols,
                self.well_formed(),
                right.well_formed(),
                self.rows == right.rows,
                entries@.len() == i * width,
                target == joined_entries(
                    self.data@,
                    right.data@,
                    rows as nat,
                    self.cols as nat,
                    right.cols as nat,
                ),
                forall|k: int| 0 <= k < entries@.len() ==> #[trigger] entries@[k] == target[k],
            decreases rows - i,
        {
            let mut j: usize = 0;
            while j < self.cols
                invariant
                    i < rows,
                    j <= self.cols,
                    rows == self.rows,
                    width == self.cols + right.cols,
                    self.well_formed(),
                    right.well_formed(),
                    self.rows == right.rows,
                    entries@.len() == i * width + j,
                    target == joined_entries(
                        self.data@,
                        right.data@,
                        rows as nat,
                        self.cols as nat,
                        right.cols as nat,
                    ),
                    forall|k: int| 0 <= k < entries@.len() ==> #[trigger] entries@[k] == target[k],
                decreases self.cols - j,
            {
                proof {
                    lemma_cell(i as int, j as int, width);
                    lemma_cell_bound(i as int, j as int, rows as int, width);
                    lemma_cell_bound(i as int, j as int, rows as int, self.cols as int);
                }
                entries.push(self.data[i * self.cols + j]);
                j += 1;
            }
            let mut j: usize = 0;
            while j < right.cols
                invariant
                    i < rows,
                    j <= right.cols,
                    rows == self.rows,
                    width == self.cols + right.cols,
                    self.well_formed(),
                    right.well_formed(),
                    self.rows == right.rows,
                    entries@.len() == i * width + self.cols + j,
                    target == joined_entries(
                        self.data@,
                        right.data@,
                        rows as nat,
                        self.cols as nat,
                        right.cols as nat,
                    ),
                    forall|k: int| 0 <= k < entries@.len() ==> #[trigger] entries@[k] == target[k],
                decreases right.cols - j,
            {
                proof {
                    lemma_cell(i as int, self.cols + j, width);
                    lemma_cell_bound(i as int, self.cols + j, rows as int, width);
                    lemma_cell_bound(i as int, j as int, rows as int, right.cols as int);
                }
                entries.push(right.data[i * right.cols + j]);
                j += 1;
            }
            proof {
                lemma_cell_bound(i as int, 0, rows as int, width);
            }
            i += 1;
        }
        proof {
            assert(entries.len() == rows * width);
            assert(width <= rows * width) by (nonlinear_arith)
                requires
                    rows >= 1,
                    width >= 0,
            ;
        }
        let cols = self.cols + right.cols;
        Matrix { data: entries, rows, cols }
    }

    /// The matrix made of the columns of this one from column `from` on.
    pub fn trailing_columns(&self, from: usize) -> (m: Self)
        requires
            self.well_formed(),
            from < self.cols,
        ensures
            m.rows == self.rows,
            m.cols == self.cols - from,
            m.well_formed(),
            m.data@ == trailing_entries(self.data@, self.rows as nat, self.cols as nat, from as nat),
    {
        let rows = self.rows;
        let width = self.cols - from;
        let ghost target = trailing_entries(
            self.data@,
            rows as nat,
            self.cols as nat,
            from as nat,
        );
        let mut entries: Vec<T> = Vec::new();
        let mut i: usize = 0;
        while i < rows
            invariant
                i <= rows,
                rows == self.rows,
                width == self.cols - from,
                from < self.cols,
                self.well_formed(),
                entries@.len() == i * width,
                target == trailing_entries(
                    self.data@,
                    rows as nat,
                    self.cols as nat,
                    from as nat,
                ),
                forall|k: int| 0 <= k < entries@.len() ==> #[trigger] entries@[k] == target[k],
            decreases rows - i,
        {
            let mut j: usize = 0;
            while j < width
                invariant
                    i < rows,
                    j <= width,
                    rows == self.rows,
                    width == self.cols - from,
                    from < self.cols,
                    self.well_formed(),
                    entries@.len() == i * width + j,
                    target == trailing_entries(
                        self.data@,
                        rows as nat,
                        self.cols as nat,
                        from as nat,
                    ),
                    forall|k: int| 0 <= k < entries@.len() ==> #[trigger] entries@[k] == target[k],
                decreases width - j,
            {
                proof {
                    lemma_cell(i as int, j as int, width as int);
                    lemma_cell_bound(i as int, j as int, rows as int, width as int);
                    lemma_cell_bound(i as int, from + j, rows as int, self.cols as int);
                }
                entries.push(self.data[i * self.cols + from + j]);
                j += 1;
            }
            proof {
                lemma_cell_bound(i as int, 0, rows as int, width as int);
            }
            i += 1;
        }
        Matrix { data: entries, rows, cols: width }
    }
}

impl<T: Copy> Value<T> {
    /// A copy of the value.
    pub fn duplicate(&self) -> (value: Self)
        ensures
            value.content() == self.content(),
    {
        match &self.data {
            ValueType::SCALAR(s) => Value { data: ValueType::SCALAR(Scalar { data: s.data }) },
            ValueType::MATRIX(m) => {
                let mut entries: Vec<T> = Vec::new();
                let mut i: usize = 0;
                while i < m.data.len()
                    invariant
                        i <= m.data@.len(),
                        entries@ == m.data@.subrange(0, i as int),
                    decreases m.data@.len() - i,
                {
                    entries.push(m.data[i]);
                    proof {
                        assert(entries@ =~= m.data@.subrange(0, i + 1));
                    }
                    i += 1;
                }
                proof {
                    assert(entries@ =~= m.data@);
                }
                Value {
                    data: ValueType::MATRIX(Matrix { data: entries, rows: m.rows, cols: m.cols }),
                }
            },
        }
    }
}

impl<T> Value<T> {
    /// The scalar value `scalar`.
    pub fn new_scalar(scalar: T) -> (value: Self)
        ensures
            value.data == ValueType::SCALAR(Scalar { data: scalar }),
    {
        Value { data: ValueType::SCALAR(Scalar { data: scalar }) }
    }

    /// The matrix value of the given entries and shape.
    pub fn new_matrix(matrix: Vec<T>, rows: usize, cols: usize) -> (value: Self)
        ensures
            value.data == ValueType::MATRIX(Matrix { data: matrix, rows, cols }),
    {
        Value { data: ValueType::MATRIX(Matrix { data: matrix, rows, cols }) }
    }

    /// The matrix value that holds `matrix`.
    pub fn wrap_matrix(matrix: Matrix<T>) -> (value: Self)
        ensures
            value.data == ValueType::MATRIX(matrix),
    {
        Value { data: ValueType::MATRIX(matrix) }
    }
}

/// The entries `data[from]`, ..., `data[from + count - 1]`, each followed
/// by a space.
pub open spec fn entries_text(data: Seq<Seq<char>>, from: int, count: nat) -> Seq<char>
    decreases count,
{
    if count == 0 {
        Seq::empty()
    } else {
        entries_text(data, from, (count - 1) as nat) + data[from + count - 1] + " "@
    }
}

/// The printed line for row `i` of a matrix with rows of `cols` entries:
/// the entries between bars, each followed by a space.  A matrix without
/// columns prints empty lines.
pub open spec fn row_text(data: Seq<Seq<char>>, cols: nat, i: int) -> Seq<char> {
    if cols == 0 {
        "\n"@
    } else {
        "| "@ + entries_text(data, i * cols, cols) + "|"@ + "\n"@
    }
}

/// The printed lines for the first `count` rows.
pub open spec fn rows_text(data: Seq<Seq<char>>, cols: nat, count: nat) -> Seq<char>
    decreases count,
{
    if count == 0 {
        Seq::empty()
    } else {
        rows_text(data, cols, (count - 1) as nat) + row_text(data, cols, count - 1)
    }
}

/// What printing a value writes: a scalar on a line of its own; a matrix
/// row by row, one line each.
pub open spec fn printed(value: ValueView<Seq<char>>) -> Seq<char> {
    match value {
        ValueView::Scalar(text) => text + "\n"@,
        ValueView::Matrix { data, rows, cols } => rows_text(data, cols, rows),
    }
}

impl<T> Value<T> {
    /// A matrix has an entry for every place of its shape.  A scalar always
    /// has.
    pub open spec fn filled(&self) -> bool {
        match self.data {
            ValueType::SCALAR(_) => true,
            ValueType::MATRIX(m) => m.rows * m.cols <= m.data.len(),
        }
    }

    /// Whether a matrix has an entry for every place of its shape.
    pub fn is_filled(&self) -> (ok: bool)
        ensures
            ok == self.filled(),
    {
        match &self.data {
            ValueType::SCALAR(_) => true,
            ValueType::MATRIX(m) => match m.rows.checked_mul(m.cols) {
                Some(count) => count <= m.data.len(),
                None => false,
            },
        }
    }
}

impl Value<String> {
    /// The text that printing the value writes, its entries being the
    /// texts of its numbers.
    pub fn print(&self) -> (text: String)
        requires
            self.filled(),
        ensures
            text@ == printed(self@),
    {
        match &self.data {
            ValueType::SCALAR(s) => s.data.clone().concat("\n"),
            ValueType::MATRIX(m) => {
                let ghost data = entry_views(m.data@);
                let mut text = String::new();
                let mut i: usize = 0;
                while i < m.rows
                    invariant
                        i <= m.rows,
                        m.rows * m.cols <= m.data.len(),
                        data == entry_views(m.data@),
                        text@ == rows_text(data, m.cols as nat, i as nat),
                    decreases m.rows - i,
                {
                    proof {
                        if m.cols > 0 {
                            lemma_cell_bound(i as int, 0, m.rows as int, m.cols as int);
                        }
                    }
                    let ghost start = text@;
                    if m.cols > 0 {
                        text.append("| ");
                    }
                    let mut j: usize = 0;
                    while j < m.cols
                        invariant
                            i < m.rows,
                            j <= m.cols,
                            m.cols > 0 || j == 0,
                            m.rows * m.cols <= m.data.len(),
                            data == entry_views(m.data@),
                            m.cols > 0 ==> text@ == start + "| "@ + entries_text(
                                data,
                                i * m.cols,
                                j as nat,
                            ),
                            m.cols == 0 ==> text@ == start,
                        decreases m.cols - j,
                    {
                        proof {
                            lemma_cell_bound(i as int, j as int, m.rows as int, m.cols as int);
                        }
                        text.append(m.data[i * m.cols + j].as_str());
                        text.append(" ");
                        proof {
                            assert(text@ =~= start + "| "@ + entries_text(
                                data,
                                i * m.cols,
                                (j + 1) as nat,
                            ));
                        }
                        j += 1;
                    }
                    if m.cols > 0 {
                        text.append("|");
                    }
                    text.append("\n");
                    proof {
                        assert(text@ =~= start + row_text(data, m.cols as nat, i as int));
                    }
                    i += 1;
                }
                text
            },
        }
    }
}

} // verus!
