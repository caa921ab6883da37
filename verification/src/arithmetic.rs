//! The loops of matrix arithmetic, over an entry operation that the caller
//! supplies.  What each loop does is stated through what the operation
//! ensures of each call: the loops add no arithmetic of their own.

use vstd::prelude::*;
use crate::value::identity_entries;
use crate::value::lemma_cell;
use crate::value::lemma_cell_bound;
use crate::value::Matrix;

verus! {

/// `sums` are the partial sums of the product of row `i` of the left matrix
/// with column `j` of the right one: they start at `zero`, and each comes
/// from the one before by one `step` with the next entry of the row and of
/// the column.  A step relates a sum, two entries, and the next sum.
pub open spec fn dot_sums<T>(
    step: spec_fn(T, T, T, T) -> bool,
    zero: T,
    left: Seq<T>,
    right: Seq<T>,
    i: int,
    j: int,
    inner: int,
    width: int,
    sums: Seq<T>,
) -> bool {
    &&& sums.len() == inner + 1
    &&& sums[0] == zero
    &&& forall|k: int|
        0 <= k < inner ==> step(
            sums[k],
            left[i * inner + k],
            right[k * width + j],
            #[trigger] sums[k + 1],
        )
}

/// `value` is the entry of the product in row `i` and column `j`: the last
/// of the partial sums of that row and column.
pub open spec fn is_dot<T>(
    step: spec_fn(T, T, T, T) -> bool,
    zero: T,
    left: Seq<T>,
    right: Seq<T>,
    i: int,
    j: int,
    inner: int,
    width: int,
    value: T,
) -> bool {
    exists|sums: Seq<T>|
        dot_sums(step, zero, left, right, i, j, inner, width, sums) && sums[inner] == value
}

/// `result` holds the product of the `rows` by `inner` matrix `left` and
/// the `inner` by `width` matrix `right`: the entry at position `k`, which
/// stands in row `k / width` and column `k % width`, is the last partial
/// sum of that row and column.
pub open spec fn is_product<T>(
    step: spec_fn(T, T, T, T) -> bool,
    zero: T,
    left: Seq<T>,
    right: Seq<T>,
    rows: int,
    inner: int,
    width: int,
    result: Seq<T>,
) -> bool {
    &&& result.len() == rows * width
    &&& forall|k: int|
        0 <= k < rows * width ==> is_dot(
            step,
            zero,
            left,
            right,
            k / width,
            k % width,
            inner,
            width,
            #[trigger] result[k],
        )
}

/// `result` holds the `power`-th power of the `size` by `size` matrix
/// `base`: the base itself for the first power, and for each further one
/// the product of the power before with the base.
pub open spec fn is_power<T>(
    step: spec_fn(T, T, T, T) -> bool,
    zero: T,
    base: Seq<T>,
    size: int,
    power: nat,
    result: Seq<T>,
) -> bool
    decreases power,
{
    if power <= 1 {
        result == base
    } else {
        exists|before: Seq<T>|
            is_power(step, zero, base, size, (power - 1) as nat, before) && is_product(
                step,
                zero,
                before,
                base,
                size,
                size,
                size,
                result,
            )
    }
}

/// The step that one call of `multiply_add` makes: from a sum and two
/// entries to what the call ensures of its result.
pub open spec fn steps_of<T, F: Fn(T, T, T) -> T>(multiply_add: F) -> spec_fn(T, T, T, T) -> bool {
    |sum: T, a: T, b: T, next: T| multiply_add.ensures((sum, a, b), next)
}

/// A product by one kind of step is a product by every kind of step that
/// the first implies.
pub proof fn lemma_product_by_implied_steps<T>(
    step: spec_fn(T, T, T, T) -> bool,
    implied: spec_fn(T, T, T, T) -> bool,
    zero: T,
    left: Seq<T>,
    right: Seq<T>,
    rows: int,
    inner: int,
    width: int,
    result: Seq<T>,
)
    requires
        forall|sum: T, a: T, b: T, next: T| #[trigger]
            step(sum, a, b, next) ==> implied(sum, a, b, next),
        is_product(step, zero, left, right, rows, inner, width, result),
    ensures
        is_product(implied, zero, left, right, rows, inner, width, result),
{
    assert forall|k: int| 0 <= k < rows * width implies is_dot(
        implied,
        zero,
        left,
        right,
        k / width,
        k % width,
        inner,
        width,
        #[trigger] result[k],
    ) by {
        assert(is_dot(step, zero, left, right, k / width, k % width, inner, width, result[k]));
        let sums = choose|sums: Seq<T>|
            dot_sums(step, zero, left, right, k / width, k % width, inner, width, sums)
                && sums[inner] == result[k];
        assert(dot_sums(implied, zero, left, right, k / width, k % width, inner, width, sums));
    }
}

/// A power by one kind of step is a power by every kind of step that the
/// first implies.
pub proof fn lemma_power_by_implied_steps<T>(
    step: spec_fn(T, T, T, T) -> bool,
    implied: spec_fn(T, T, T, T) -> bool,
    zero: T,
    base: Seq<T>,
    size: int,
    power: nat,
    result: Seq<T>,
)
    requires
        forall|sum: T, a: T, b: T, next: T| #[trigger]
            step(sum, a, b, next) ==> implied(sum, a, b, next),
        is_power(step, zero, base, size, power, result),
    ensures
        is_power(implied, zero, base, size, power, result),
    decreases power,
{
    if power > 1 {
        let before = choose|before: Seq<T>|
            is_power(step, zero, base, size, (power - 1) as nat, before) && is_product(
                step,
                zero,
                before,
                base,
                size,
                size,
                size,
                result,
            );
        lemma_power_by_implied_steps(step, implied, zero, base, size, (power - 1) as nat, before);
        lemma_product_by_implied_steps(
            step,
            implied,
            zero,
            before,
            base,
            size,
            size,
            size,
            result,
        );
    }
}

/// What the identity law asks of a step, for the entries of one matrix:
/// `zero` that takes in `zero` times an entry stays `zero`, an entry that
/// takes in `zero` times an entry stays as it is, and `zero` that takes in
/// `one` times an entry becomes that entry.
pub open spec fn neutral<T>(step: spec_fn(T, T, T, T) -> bool, zero: T, one: T, matrix: Seq<T>)
    -> bool {
    &&& forall|n: int, next: T|
        0 <= n < matrix.len() && #[trigger] step(zero, zero, matrix[n], next) ==> next == zero
    &&& forall|m: int, n: int, next: T|
        0 <= m < matrix.len() && 0 <= n < matrix.len() && #[trigger] step(
            matrix[m],
            zero,
            matrix[n],
            next,
        ) ==> next == matrix[m]
    &&& forall|n: int, next: T|
        0 <= n < matrix.len() && #[trigger] step(zero, one, matrix[n], next) ==> next == matrix[n]
}

/// The partial sums of a row of the identity matrix with a column stay at
/// `zero` up to the diagonal and are the entry of the column from there
/// on.
proof fn lemma_identity_sums<T>(
    step: spec_fn(T, T, T, T) -> bool,
    zero: T,
    one: T,
    matrix: Seq<T>,
    size: int,
    width: int,
    i: int,
    j: int,
    sums: Seq<T>,
    n: int,
)
    requires
        0 <= i < size,
        0 <= j < width,
        0 <= n <= size,
        0 < width,
        matrix.len() == size * width,
        neutral(step, zero, one, matrix),
        dot_sums(
            step,
            zero,
            identity_entries(size as nat, zero, one),
            matrix,
            i,
            j,
            size,
            width,
            sums,
        ),
    ensures
        sums[n] == if n <= i {
            zero
        } else {
            matrix[i * width + j]
        },
    decreases n,
{
    if n > 0 {
        lemma_identity_sums(step, zero, one, matrix, size, width, i, j, sums, n - 1);
        let identity = identity_entries(size as nat, zero, one);
        lemma_cell(i, n - 1, size);
        lemma_cell_bound(i, n - 1, size, size);
        lemma_cell_bound(i, j, size, width);
        lemma_cell_bound(n - 1, j, size, width);
        assert(identity[i * size + (n - 1)] == if i == n - 1 {
            one
        } else {
            zero
        });
        assert(step(
            sums[n - 1],
            identity[i * size + (n - 1)],
            matrix[(n - 1) * width + j],
            sums[n - 1 + 1],
        ));
    }
}

/// The identity matrix times a matrix is the matrix, entry for entry, under
/// every step that is neutral on the entries of the matrix.
pub proof fn lemma_identity_product<T>(
    step: spec_fn(T, T, T, T) -> bool,
    zero: T,
    one: T,
    matrix: Seq<T>,
    size: int,
    width: int,
    result: Seq<T>,
)
    requires
        0 <= size,
        0 < width,
        matrix.len() == size * width,
        neutral(step, zero, one, matrix),
        is_product(
            step,
            zero,
            identity_entries(size as nat, zero, one),
            matrix,
            size,
            size,
            width,
            result,
        ),
    ensures
        result == matrix,
{
    let identity = identity_entries(size as nat, zero, one);
    assert forall|k: int| 0 <= k < result.len() implies result[k] == matrix[k] by {
        crate::value::lemma_cell_of(k, size, width);
        let i = k / width;
        let j = k % width;
        assert(is_dot(step, zero, identity, matrix, i, j, size, width, result[k]));
        let sums = choose|sums: Seq<T>|
            dot_sums(step, zero, identity, matrix, i, j, size, width, sums) && sums[size]
                == result[k];
        lemma_identity_sums(step, zero, one, matrix, size, width, i, j, sums, size);
    }
    assert(result =~= matrix);
}

/// The row that stands in place of row `i` once rows `first` and `second`
/// have changed places.
pub open spec fn exchanged(i: int, first: int, second: int) -> int {
    if i == first {
        second
    } else if i == second {
        first
    } else {
        i
    }
}

/// The entries of a matrix with rows of `cols` entries after its rows
/// `first` and `second` have changed places.
pub open spec fn rows_exchanged<T>(data: Seq<T>, cols: int, first: int, second: int) -> Seq<T> {
    Seq::new(data.len(), |k: int| data[exchanged(k / cols, first, second) * cols + k % cols])
}

impl<T: Copy> Matrix<T> {
    /// A copy of the matrix.
    pub fn duplicate(&self) -> (m: Self)
        ensures
            m.rows == self.rows,
            m.cols == self.cols,
            m.data@ == self.data@,
    {
        let mut entries: Vec<T> = Vec::new();
        let mut i: usize = 0;
        while i < self.data.len()
            invariant
                i <= self.data@.len(),
                entries@ == self.data@.subrange(0, i as int),
            decreases self.data@.len() - i,
        {
            entries.push(self.data[i]);
            proof {
                assert(entries@ =~= self.data@.subrange(0, i + 1));
            }
            i += 1;
        }
        proof {
            assert(entries@ =~= self.data@);
        }
        Matrix { data: entries, rows: self.rows, cols: self.cols }
    }

    /// Makes rows `first` and `second` change places.
    pub fn swap_rows(&mut self, first: usize, second: usize)
        requires
            old(self).well_formed(),
            first < old(self).rows,
            second < old(self).rows,
        ensures
            final(self).rows == old(self).rows,
            final(self).cols == old(self).cols,
            final(self).well_formed(),
            final(self).data@ == rows_exchanged(
                old(self).data@,
                old(self).cols as int,
                first as int,
                second as int,
            ),
    {
        let cols = self.cols;
        let ghost target = rows_exchanged(self.data@, cols as int, first as int, second as int);
        let mut k: usize = 0;
        while k < cols
            invariant
                k <= cols,
                cols == self.cols,
                self.rows == old(self).rows,
                self.cols == old(self).cols,
                self.well_formed(),
                first < self.rows,
                second < self.rows,
                target == rows_exchanged(
                    old(self).data@,
                    cols as int,
                    first as int,
                    second as int,
                ),
                forall|i: int, j: int|
                    0 <= i < self.rows && 0 <= j < cols ==> #[trigger] self.entry(i, j) == if j < k {
                        old(self).entry(exchanged(i, first as int, second as int), j)
                    } else {
                        old(self).entry(i, j)
                    },
            decreases cols - k,
        {
            proof {
                lemma_cell_bound(first as int, k as int, self.rows as int, cols as int);
                lemma_cell_bound(second as int, k as int, self.rows as int, cols as int);
            }
            let ghost earlier = *self;
            let upper = self.data[first * cols + k];
            let lower = self.data[second * cols + k];
            self.data.set(first * cols + k, lower);
            self.data.set(second * cols + k, upper);
            proof {
                assert forall|i: int, j: int|
                    0 <= i < self.rows && 0 <= j < cols implies #[trigger] self.entry(i, j)
                    == if j < k + 1 {
                    old(self).entry(exchanged(i, first as int, second as int), j)
                } else {
                    old(self).entry(i, j)
                } by {
                    lemma_cell_bound(i, j, self.rows as int, cols as int);
                    lemma_cell(i, j, cols as int);
                    lemma_cell(first as int, k as int, cols as int);
                    lemma_cell(second as int, k as int, cols as int);
                    assert(earlier.entry(i, j) == if j < k {
                        old(self).entry(exchanged(i, first as int, second as int), j)
                    } else {
                        old(self).entry(i, j)
                    });
                    let n = i * cols + j;
                    let upper_at = first * cols + k;
                    let lower_at = second * cols + k;
                    assert(n == upper_at <==> (i == first && j == k));
                    assert(n == lower_at <==> (i == second && j == k));
                    assert(self.data@ == earlier.data@.update(upper_at, lower).update(
                        lower_at,
                        upper,
                    ));
                    assert(upper == earlier.entry(first as int, k as int));
                    assert(lower == earlier.entry(second as int, k as int));
                    assert(earlier.entry(first as int, k as int) == old(self).entry(
                        first as int,
                        k as int,
                    ));
                    assert(earlier.entry(second as int, k as int) == old(self).entry(
                        second as int,
                        k as int,
                    ));
                    assert(self.entry(i, j) == self.data@[n]);
                }
            }
            k += 1;
        }
        proof {
            assert forall|n: int| 0 <= n < self.data@.len() implies self.data@[n] == target[n] by {
                crate::value::lemma_cell_of(n, self.rows as int, cols as int);
                let i = n / (cols as int);
                let j = n % (cols as int);
                assert(self.entry(i, j) == old(self).entry(
                    exchanged(i, first as int, second as int),
                    j,
                ));
            }
            assert(self.data@ =~= target);
        }
    }

    /// The `power`-th power of the square matrix, made by multiplying it
    /// with itself one time less than `power`.
    pub fn power<F: Fn(T, T, T) -> T>(&self, power: u32, zero: T, multiply_add: &F) -> (m: Self)
        requires
            self.well_formed(),
            self.rows == self.cols,
            power >= 1,
            forall|sum: T, a: T, b: T| multiply_add.requires((sum, a, b)),
        ensures
            m.rows == self.rows,
            m.cols == self.cols,
            m.well_formed(),
            is_power(
                steps_of(*multiply_add),
                zero,
                self.data@,
                self.rows as int,
                power as nat,
                m.data@,
            ),
    {
        let mut result = self.duplicate();
        let mut done: u32 = 1;
        while done < power
            invariant
                1 <= done <= power,
                self.well_formed(),
                self.rows == self.cols,
                result.rows == self.rows,
                result.cols == self.cols,
                result.well_formed(),
                forall|sum: T, a: T, b: T| multiply_add.requires((sum, a, b)),
                is_power(
                    steps_of(*multiply_add),
                    zero,
                    self.data@,
                    self.rows as int,
                    done as nat,
                    result.data@,
                ),
            decreases power - done,
        {
            let next = result.product(self, zero, multiply_add);
            proof {
                assert(is_power(
                    steps_of(*multiply_add),
                    zero,
                    self.data@,
                    self.rows as int,
                    (done + 1) as nat,
                    next.data@,
                ));
            }
            result = next;
            done += 1;
        }
        result
    }

    /// Replaces every entry by what `operation` makes of it.
    pub fn map_entries<F: Fn(T) -> T>(&mut self, operation: &F)
        requires
            forall|e: T| operation.requires((e,)),
        ensures
            final(self).rows == old(self).rows,
            final(self).cols == old(self).cols,
            final(self).data@.len() == old(self).data@.len(),
            forall|k: int|
                0 <= k < old(self).data@.len() ==> operation.ensures(
                    (old(self).data@[k],),
                    #[trigger] final(self).data@[k],
                ),
    {
        let mut i: usize = 0;
        while i < self.data.len()
            invariant
                i <= self.data@.len(),
                self.rows == old(self).rows,
                self.cols == old(self).cols,
                self.data@.len() == old(self).data@.len(),
                forall|e: T| operation.requires((e,)),
                forall|k: int|
                    0 <= k < i ==> operation.ensures(
                        (old(self).data@[k],),
                        #[trigger] self.data@[k],
                    ),
                forall|k: int| i <= k < self.data@.len() ==> self.data@[k] == old(self).data@[k],
            decreases self.data@.len() - i,
        {
            let entry = operation(self.data[i]);
            self.data.set(i, entry);
            i += 1;
        }
    }

    /// Replaces every entry `e` by what `operation` makes of `e` and
    /// `scalar`.
    pub fn scale<F: Fn(T, T) -> T>(&mut self, scalar: T, operation: &F)
        requires
            forall|e: T| operation.requires((e, scalar)),
        ensures
            final(self).rows == old(self).rows,
            final(self).cols == old(self).cols,
            final(self).data@.len() == old(self).data@.len(),
            forall|k: int|
                0 <= k < old(self).data@.len() ==> operation.ensures(
                    (old(self).data@[k], scalar),
                    #[trigger] final(self).data@[k],
                ),
    {
        let mut i: usize = 0;
        while i < self.data.len()
            invariant
                i <= self.data@.len(),
                self.rows == old(self).rows,
                self.cols == old(self).cols,
                self.data@.len() == old(self).data@.len(),
                forall|e: T| operation.requires((e, scalar)),
                forall|k: int|
                    0 <= k < i ==> operation.ensures(
                        (old(self).data@[k], scalar),
                        #[trigger] self.data@[k],
                    ),
                forall|k: int| i <= k < self.data@.len() ==> self.data@[k] == old(self).data@[k],
            decreases self.data@.len() - i,
        {
            let entry = operation(self.data[i], scalar);
            self.data.set(i, entry);
            i += 1;
        }
    }

    /// The matrix whose entries are what `operation` makes of the entries
    /// of this matrix and of `other` at the same place.
    pub fn combined<F: Fn(T, T) -> T>(&self, other: &Matrix<T>, operation: &F) -> (m: Self)
        requires
            self.well_formed(),
            other.well_formed(),
            self.rows == other.rows,
            self.cols == other.cols,
            forall|a: T, b: T| operation.requires((a, b)),
        ensures
            m.rows == self.rows,
            m.cols == self.cols,
            m.well_formed(),
            forall|k: int|
                0 <= k < self.data@.len() ==> operation.ensures(
                    (self.data@[k], other.data@[k]),
                    #[trigger] m.data@[k],
                ),
    {
        let count = self.data.len();
        let mut entries: Vec<T> = Vec::new();
        let mut i: usize = 0;
        while i < count
            invariant
                i <= count,
                count == self.data@.len(),
                count == other.data@.len(),
                entries@.len() == i,
                forall|a: T, b: T| operation.requires((a, b)),
                forall|k: int|
                    0 <= k < i ==> operation.ensures(
                        (self.data@[k], other.data@[k]),
                        #[trigger] entries@[k],
                    ),
            decreases count - i,
        {
            entries.push(operation(self.data[i], other.data[i]));
            i += 1;
        }
        Matrix { data: entries, rows: self.rows, cols: self.cols }
    }

    /// The matrix product of this matrix and `other`.  Each entry starts
    /// from `zero` and takes in, by one call of `multiply_add` each, the
    /// entries of its row of this matrix with those of its column of
    /// `other`.
    pub fn product<F: Fn(T, T, T) -> T>(&self, other: &Matrix<T>, zero: T, multiply_add: &F) -> (m:
        Self)
        requires
            self.well_formed(),
            other.well_formed(),
            self.cols == other.rows,
            forall|sum: T, a: T, b: T| multiply_add.requires((sum, a, b)),
        ensures
            m.rows == self.rows,
            m.cols == other.cols,
            m.well_formed(),
            is_product(
                steps_of(*multiply_add),
                zero,
                self.data@,
                other.data@,
                self.rows as int,
                self.cols as int,
                other.cols as int,
                m.data@,
            ),
    {
        let rows = self.rows;
        let inner = self.cols;
        let width = other.cols;
        let mut entries: Vec<T> = Vec::new();
        let mut i: usize = 0;
        while i < rows
            invariant
                i <= rows,
                rows == self.rows,
                inner == self.cols,
                inner == other.rows,
                width == other.cols,
                self.well_formed(),
                other.well_formed(),
                entries@.len() == i * width,
                forall|sum: T, a: T, b: T| multiply_add.requires((sum, a, b)),
                forall|n: int|
                    0 <= n < entries@.len() ==> is_dot(
                        steps_of(*multiply_add),
                        zero,
                        self.data@,
                        other.data@,
                        n / (width as int),
                        n % (width as int),
                        inner as int,
                        width as int,
                        #[trigger] entries@[n],
                    ),
            decreases rows - i,
        {
            let mut j: usize = 0;
            while j < width
                invariant
                    i < rows,
                    j <= width,
                    rows == self.rows,
                    inner == self.cols,
                    inner == other.rows,
                    width == other.cols,
                    self.well_formed(),
                    other.well_formed(),
                    entries@.len() == i * width + j,
                    forall|sum: T, a: T, b: T| multiply_add.requires((sum, a, b)),
                    forall|n: int|
                        0 <= n < entries@.len() ==> is_dot(
                            steps_of(*multiply_add),
                            zero,
                            self.data@,
                            other.data@,
                            n / (width as int),
                            n % (width as int),
                            inner as int,
                            width as int,
                            #[trigger] entries@[n],
                        ),
                decreases width - j,
            {
                let mut sum = zero;
                let ghost mut sums = seq![zero];
                let mut k: usize = 0;
                while k < inner
                    invariant
                        i < rows,
                        j < width,
                        k <= inner,
                        rows == self.rows,
                        inner == self.cols,
                        inner == other.rows,
                        width == other.cols,
                        self.well_formed(),
                        other.well_formed(),
                        forall|sum: T, a: T, b: T| multiply_add.requires((sum, a, b)),
                        sums.len() == k + 1,
                        sums[0] == zero,
                        sums[k as int] == sum,
                        forall|n: int|
                            0 <= n < k ==> multiply_add.ensures(
                                (
                                    sums[n],
                                    self.data@[i * inner + n],
                                    other.data@[n * width + j],
                                ),
                                #[trigger] sums[n + 1],
                            ),
                    decreases inner - k,
                {
                    proof {
                        lemma_cell_bound(i as int, k as int, rows as int, inner as int);
                        lemma_cell_bound(k as int, j as int, inner as int, width as int);
                    }
                    let ghost earlier = sums;
                    sum = multiply_add(sum, self.data[i * inner + k], other.data[k * width + j]);
                    proof {
                        sums = sums.push(sum);
                        assert forall|n: int| 0 <= n < k + 1 implies multiply_add.ensures(
                            (sums[n], self.data@[i * inner + n], other.data@[n * width + j]),
                            #[trigger] sums[n + 1],
                        ) by {
                            if n < k {
                                assert(sums[n] == earlier[n]);
                                assert(sums[n + 1] == earlier[n + 1]);
                            }
                        }
                    }
                    k += 1;
                }
                let ghost filled = entries@;
                entries.push(sum);
                proof {
                    assert(dot_sums(
                        steps_of(*multiply_add),
                        zero,
                        self.data@,
                        other.data@,
                        i as int,
                        j as int,
                        inner as int,
                        width as int,
                        sums,
                    ));
                    lemma_cell(i as int, j as int, width as int);
                    assert forall|n: int| 0 <= n < entries@.len() implies is_dot(
                        steps_of(*multiply_add),
                        zero,
                        self.data@,
                        other.data@,
                        n / (width as int),
                        n % (width as int),
                        inner as int,
                        width as int,
                        #[trigger] entries@[n],
                    ) by {
                        if n < filled.len() {
                            assert(entries@[n] == filled[n]);
                        }
                    }
                }
                j += 1;
            }
            proof {
                lemma_cell_bound(i as int, 0, rows as int, (width) as int);
                assert((i + 1) * width == i * width + width) by (nonlinear_arith);
            }
            i += 1;
        }
        Matrix { data: entries, rows, cols: width }
    }
}

} // verus!
