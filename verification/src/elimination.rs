//! Gaussian elimination: row echelon form by partial pivoting, reduced row
//! echelon form, and the cleanup behind an inversion.
//!
//! Every comparison and every piece of arithmetic is a call of the numbers
//! of the run.  What a reduction gives is said through what those calls
//! ensure: which row becomes the pivot row, which factor each row is
//! combined with, and what each entry becomes.
//!
//! The tolerances are fixed here.  An entry is negligible when the numbers
//! find its magnitude below one in [`PIVOT_TOLERANCE`] and significant when
//! they find it above; it is residue of rounding when they find it below
//! one in [`RESIDUE_TOLERANCE`].

use vstd::prelude::*;
use crate::arithmetic::rows_exchanged;
use crate::numbers::Numbers;
use crate::relations::chosen;
use crate::relations::entrywise;
use crate::value::identity_entries;
use crate::value::joined_entries;
use crate::value::lemma_cell;
use crate::value::lemma_cell_bound;
use crate::value::lemma_cell_of;
use crate::value::Matrix;
use crate::value::trailing_entries;

verus! {

/// The tolerance for pivots is one divided by this: an entry of smaller
/// magnitude is no pivot, and an entry of greater magnitude is a leading
/// entry to scale to one.
pub const PIVOT_TOLERANCE: u32 = 10_000_000;

/// The tolerance for what rounding leaves behind in an inverse is one
/// divided by this: an entry of smaller magnitude is cleared.
pub const RESIDUE_TOLERANCE: u32 = 1_000;

/// `pivot` is the row that the search for a pivot in column `j` ends with,
/// when it has come to row `k` and `best` is the best row so far: a row
/// takes the place of the best one if its entry outweighs the entry of the
/// best.
pub open spec fn pivot_search<T: Copy, N: Numbers<T>>(
    numbers: &N,
    data: Seq<T>,
    rows: int,
    cols: int,
    j: int,
    k: int,
    best: int,
    pivot: int,
) -> bool
    decreases rows - k,
{
    if k >= rows {
        pivot == best
    } else {
        exists|heavier: bool|
            {
                &&& #[trigger] chosen(heavier)
                &&& call_ensures(
                    N::outweighs,
                    (numbers, data[k * cols + j], data[best * cols + j]),
                    heavier,
                )
                &&& pivot_search(
                    numbers,
                    data,
                    rows,
                    cols,
                    j,
                    k + 1,
                    if heavier {
                        k
                    } else {
                        best
                    },
                    pivot,
                )
            }
    }
}

/// The search goes on from row `k` with the row that the comparison at
/// `k` leaves as the best.
pub proof fn lemma_pivot_search_step<T: Copy, N: Numbers<T>>(
    numbers: &N,
    data: Seq<T>,
    rows: int,
    cols: int,
    j: int,
    k: int,
    best: int,
    heavier: bool,
    pivot: int,
)
    requires
        k < rows,
        call_ensures(N::outweighs, (numbers, data[k * cols + j], data[best * cols + j]), heavier),
        pivot_search(
            numbers,
            data,
            rows,
            cols,
            j,
            k + 1,
            if heavier {
                k
            } else {
                best
            },
            pivot,
        ),
    ensures
        pivot_search(numbers, data, rows, cols, j, k, best, pivot),
{
    assert(chosen(heavier));
}

/// `factor` is what a row is combined with to clear its entry in the pivot
/// column: that entry, negated, divided by the pivot.
pub open spec fn is_factor<T: Copy, N: Numbers<T>>(numbers: &N, entry: T, pivot: T, factor: T)
    -> bool {
    exists|negated: T| #[trigger]
        call_ensures(N::negate, (numbers, entry), negated) && call_ensures(
            N::divide,
            (numbers, negated, pivot),
            factor,
        )
}

/// `value` is what elimination around the pivot in row `i` and column `j`
/// leaves at position `n`: the pivot row stays; in every other row the
/// entry in the pivot column becomes `zero`, and every other entry takes in
/// the factor of its row times the entry of the pivot row above or below
/// it.
pub open spec fn entry_eliminated<T: Copy, N: Numbers<T>>(
    numbers: &N,
    zero: T,
    before: Seq<T>,
    cols: int,
    i: int,
    j: int,
    factors: Seq<T>,
    n: int,
    value: T,
) -> bool {
    let k = n / cols;
    let l = n % cols;
    if k == i {
        value == before[n]
    } else if l == j {
        value == zero
    } else {
        call_ensures(
            N::multiply_add,
            (numbers, before[n], factors[k], before[i * cols + l]),
            value,
        )
    }
}

/// `after` is what elimination around the pivot in row `i` and column `j`
/// makes of `before`: there is a factor for every row but the pivot row,
/// and every entry is what elimination with these factors leaves.
pub open spec fn eliminated<T: Copy, N: Numbers<T>>(
    numbers: &N,
    zero: T,
    before: Seq<T>,
    after: Seq<T>,
    rows: int,
    cols: int,
    i: int,
    j: int,
) -> bool {
    &&& after.len() == before.len()
    &&& exists|factors: Seq<T>|
        {
            &&& #[trigger] chosen(factors)
            &&& factors.len() == rows
            &&& forall|k: int|
                0 <= k < rows && k != i ==> is_factor(
                    numbers,
                    before[k * cols + j],
                    before[i * cols + j],
                    #[trigger] factors[k],
                )
            &&& forall|n: int|
                0 <= n < before.len() ==> entry_eliminated(
                    numbers,
                    zero,
                    before,
                    cols,
                    i,
                    j,
                    factors,
                    n,
                    #[trigger] after[n],
                )
        }
}

/// `result` is what elimination makes of `data` from the round on in
/// which row `i` waits for its pivot and column `j` is searched for one.
/// The best row from `i` on is sought in the column.  If its entry is
/// negligible, the column has no pivot, and the next column is searched
/// for the same row.  Else that row changes places with row `i`, the column
/// is cleared in all other rows, and the next row and column follow.
pub open spec fn reduced_from<T: Copy, N: Numbers<T>>(
    numbers: &N,
    zero: T,
    data: Seq<T>,
    rows: int,
    cols: int,
    i: int,
    j: int,
    result: Seq<T>,
) -> bool
    decreases cols - j,
{
    if i >= rows || j >= cols {
        result == data
    } else {
        exists|pivot: int, skipped: bool, cleared: Seq<T>|
            {
                &&& #[trigger] chosen((pivot, skipped, cleared))
                &&& i <= pivot < rows
                &&& pivot_search(numbers, data, rows, cols, j, i + 1, i, pivot)
                &&& call_ensures(
                    N::below,
                    (numbers, data[pivot * cols + j], PIVOT_TOLERANCE),
                    skipped,
                )
                &&& if skipped {
                    reduced_from(numbers, zero, data, rows, cols, i, j + 1, result)
                } else {
                    &&& eliminated(
                        numbers,
                        zero,
                        rows_exchanged(data, cols, i, pivot),
                        cleared,
                        rows,
                        cols,
                        i,
                        j,
                    )
                    &&& reduced_from(numbers, zero, cleared, rows, cols, i + 1, j + 1, result)
                }
            }
    }
}

/// `result` is the row echelon form of `data`.  Pivots are not scaled to
/// one.
pub open spec fn is_row_echelon<T: Copy, N: Numbers<T>>(
    numbers: &N,
    data: Seq<T>,
    rows: int,
    cols: int,
    result: Seq<T>,
) -> bool {
    exists|zero: T| #[trigger]
        call_ensures(N::zero, (numbers,), zero) && reduced_from(
            numbers,
            zero,
            data,
            rows,
            cols,
            0,
            0,
            result,
        )
}

/// A round that finds no pivot in its column goes on with the next column.
pub proof fn lemma_round_skipped<T: Copy, N: Numbers<T>>(
    numbers: &N,
    zero: T,
    data: Seq<T>,
    rows: int,
    cols: int,
    i: int,
    j: int,
    pivot: int,
    result: Seq<T>,
)
    requires
        0 <= i <= pivot < rows,
        0 <= j < cols,
        pivot_search(numbers, data, rows, cols, j, i + 1, i, pivot),
        call_ensures(N::below, (numbers, data[pivot * cols + j], PIVOT_TOLERANCE), true),
        reduced_from(numbers, zero, data, rows, cols, i, j + 1, result),
    ensures
        reduced_from(numbers, zero, data, rows, cols, i, j, result),
{
    assert(chosen((pivot, true, data)));
}

/// A round that finds a pivot goes on, behind the exchange of rows and the
/// clearing of its column, with the next row and column.
pub proof fn lemma_round_cleared<T: Copy, N: Numbers<T>>(
    numbers: &N,
    zero: T,
    data: Seq<T>,
    rows: int,
    cols: int,
    i: int,
    j: int,
    pivot: int,
    cleared: Seq<T>,
    result: Seq<T>,
)
    requires
        0 <= i <= pivot < rows,
        0 <= j < cols,
        pivot_search(numbers, data, rows, cols, j, i + 1, i, pivot),
        call_ensures(N::below, (numbers, data[pivot * cols + j], PIVOT_TOLERANCE), false),
        eliminated(numbers, zero, rows_exchanged(data, cols, i, pivot), cleared, rows, cols, i, j),
        reduced_from(numbers, zero, cleared, rows, cols, i + 1, j + 1, result),
    ensures
        reduced_from(numbers, zero, data, rows, cols, i, j, result),
{
    assert(chosen((pivot, false, cleared)));
}

impl<T: Copy> Matrix<T> {
    /// Brings the matrix into row echelon form by elimination with partial
    /// pivoting.  Pivots are not scaled to one.
    pub fn ref_matrix<N: Numbers<T>>(&mut self, numbers: &N)
        requires
            old(self).well_formed(),
        ensures
            final(self).rows == old(self).rows,
            final(self).cols == old(self).cols,
            final(self).well_formed(),
            is_row_echelon(
                numbers,
                old(self).data@,
                old(self).rows as int,
                old(self).cols as int,
                final(self).data@,
            ),
    {
        let zero = numbers.zero();
        let rows = self.rows;
        let cols = self.cols;
        let ghost start = self.data@;
        let mut i: usize = 0;
        let mut j: usize = 0;
        while i < rows && j < cols
            invariant
                i <= rows,
                j <= cols,
                rows == self.rows,
                cols == self.cols,
                self.well_formed(),
                forall|result: Seq<T>| #[trigger]
                    reduced_from(
                        numbers,
                        zero,
                        self.data@,
                        rows as int,
                        cols as int,
                        i as int,
                        j as int,
                        result,
                    ) ==> reduced_from(numbers, zero, start, rows as int, cols as int, 0, 0, result),
            decreases cols - j,
        {
            let ghost data = self.data@;
            let pivot = self.pivot_row(numbers, i, j);
            proof {
                lemma_cell_bound(pivot as int, j as int, rows as int, cols as int);
            }
            let skipped = numbers.below(self.data[pivot * cols + j], PIVOT_TOLERANCE);
            if skipped {
                proof {
                    assert forall|result: Seq<T>| #[trigger]
                        reduced_from(
                            numbers,
                            zero,
                            data,
                            rows as int,
                            cols as int,
                            i as int,
                            j + 1,
                            result,
                        ) implies reduced_from(
                        numbers,
                        zero,
                        start,
                        rows as int,
                        cols as int,
                        0,
                        0,
                        result,
                    ) by {
                        lemma_round_skipped(
                            numbers,
                            zero,
                            data,
                            rows as int,
                            cols as int,
                            i as int,
                            j as int,
                            pivot as int,
                            result,
                        );
                    }
                }
            } else {
                self.swap_rows(i, pivot);
                self.eliminate(numbers, zero, i, j);
                proof {
                    let cleared = self.data@;
                    assert forall|result: Seq<T>| #[trigger]
                        reduced_from(
                            numbers,
                            zero,
                            cleared,
                            rows as int,
                            cols as int,
                            i + 1,
                            j + 1,
                            result,
                        ) implies reduced_from(
                        numbers,
                        zero,
                        start,
                        rows as int,
                        cols as int,
                        0,
                        0,
                        result,
                    ) by {
                        lemma_round_cleared(
                            numbers,
                            zero,
                            data,
                            rows as int,
                            cols as int,
                            i as int,
                            j as int,
                            pivot as int,
                            cleared,
                            result,
                        );
                    }
                }
                i += 1;
            }
            j += 1;
        }
        proof {
            assert(reduced_from(
                numbers,
                zero,
                self.data@,
                rows as int,
                cols as int,
                i as int,
                j as int,
                self.data@,
            ));
        }
    }

    /// Clears column `j` in every row but row `i`, by combining each row
    /// with row `i`.
    pub fn eliminate<N: Numbers<T>>(&mut self, numbers: &N, zero: T, i: usize, j: usize)
        requires
            old(self).well_formed(),
            i < old(self).rows,
            j < old(self).cols,
        ensures
            final(self).rows == old(self).rows,
            final(self).cols == old(self).cols,
            final(self).well_formed(),
            eliminated(
                numbers,
                zero,
                old(self).data@,
                final(self).data@,
                old(self).rows as int,
                old(self).cols as int,
                i as int,
                j as int,
            ),
    {
        let rows = self.rows;
        let cols = self.cols;
        let ghost before = self.data@;
        let ghost mut factors = Seq::<T>::empty();
        let mut k: usize = 0;
        while k < rows
            invariant
                k <= rows,
                rows == self.rows,
                cols == self.cols,
                i < rows,
                j < cols,
                self.well_formed(),
                self.data@.len() == before.len(),
                factors.len() == k,
                forall|r: int|
                    0 <= r < k && r != i ==> is_factor(
                        numbers,
                        before[r * cols + j],
                        before[i * cols + j],
                        #[trigger] factors[r],
                    ),
                forall|n: int|
                    0 <= n < k * cols ==> entry_eliminated(
                        numbers,
                        zero,
                        before,
                        cols as int,
                        i as int,
                        j as int,
                        factors,
                        n,
                        #[trigger] self.data@[n],
                    ),
                forall|n: int| k * cols <= n < before.len() ==> #[trigger] self.data@[n] == before[n],
                forall|n: int|
                    i * cols <= n < i * cols + cols ==> #[trigger] self.data@[n] == before[n],
            decreases rows - k,
        {
            proof {
                lemma_cell_bound(k as int, j as int, rows as int, cols as int);
                lemma_cell_bound(i as int, j as int, rows as int, cols as int);
                lemma_cell_bound(k as int, 0, rows as int, cols as int);
            }
            let ghost middle = self.data@;
            let ghost earlier = factors;
            if k != i {
                let negated = numbers.negate(self.data[k * cols + j]);
                let factor = numbers.divide(negated, self.data[i * cols + j]);
                proof {
                    factors = factors.push(factor);
                }
                let mut l: usize = 0;
                while l < cols
                    invariant
                        l <= cols,
                        k < rows,
                        k != i,
                        rows == self.rows,
                        cols == self.cols,
                        i < rows,
                        j < cols,
                        self.well_formed(),
                        self.data@.len() == before.len(),
                        middle.len() == before.len(),
                        factors == earlier.push(factor),
                        earlier.len() == k,
                        forall|n: int| 0 <= n < k * cols ==> #[trigger] self.data@[n] == middle[n],
                        forall|n: int|
                            k * cols <= n < k * cols + l ==> entry_eliminated(
                                numbers,
                                zero,
                                before,
                                cols as int,
                                i as int,
                                j as int,
                                factors,
                                n,
                                #[trigger] self.data@[n],
                            ),
                        forall|n: int|
                            k * cols + l <= n < before.len() ==> #[trigger] self.data@[n]
                                == before[n],
                        forall|n: int|
                            i * cols <= n < i * cols + cols ==> #[trigger] self.data@[n]
                                == before[n],
                    decreases cols - l,
                {
                    proof {
                        lemma_cell_bound(k as int, l as int, rows as int, cols as int);
                        lemma_cell_bound(i as int, l as int, rows as int, cols as int);
                        lemma_cell(k as int, l as int, cols as int);
                        if i < k {
                            lemma_cell_bound(i as int, l as int, k as int, cols as int);
                        } else {
                            lemma_cell_bound(k as int, l as int, i as int, cols as int);
                        }
                    }
                    if l == j {
                        self.data.set(k * cols + l, zero);
                    } else {
                        let combined = numbers.multiply_add(
                            self.data[k * cols + l],
                            factor,
                            self.data[i * cols + l],
                        );
                        self.data.set(k * cols + l, combined);
                    }
                    l += 1;
                }
            } else {
                proof {
                    factors = factors.push(zero);
                    assert forall|n: int| k * cols <= n < k * cols + cols implies entry_eliminated(
                        numbers,
                        zero,
                        before,
                        cols as int,
                        i as int,
                        j as int,
                        factors,
                        n,
                        #[trigger] self.data@[n],
                    ) by {
                        lemma_cell_of(n - k * cols, 1, cols as int);
                        lemma_cell(k as int, n - k * cols, cols as int);
                    }
                }
            }
            proof {
                assert forall|n: int| 0 <= n < (k + 1) * cols implies entry_eliminated(
                    numbers,
                    zero,
                    before,
                    cols as int,
                    i as int,
                    j as int,
                    factors,
                    n,
                    #[trigger] self.data@[n],
                ) by {
                    if n < k * cols {
                        lemma_cell_of(n, k as int, cols as int);
                        assert(factors[n / (cols as int)] == earlier[n / (cols as int)]);
                        assert(self.data@[n] == middle[n]);
                    }
                }
                assert forall|r: int| 0 <= r < k + 1 && r != i implies is_factor(
                    numbers,
                    before[r * cols + j],
                    before[i * cols + j],
                    #[trigger] factors[r],
                ) by {
                    if r < k {
                        assert(factors[r] == earlier[r]);
                    }
                }
            }
            k += 1;
        }
        proof {
            assert(chosen(factors));
        }
    }

    /// The row whose entry in column `j` is the best pivot among the rows
    /// from `i` on: the first row that no later row outweighs in turn.
    pub fn pivot_row<N: Numbers<T>>(&self, numbers: &N, i: usize, j: usize) -> (pivot: usize)
        requires
            self.well_formed(),
            i < self.rows,
            j < self.cols,
        ensures
            i <= pivot < self.rows,
            pivot_search(
                numbers,
                self.data@,
                self.rows as int,
                self.cols as int,
                j as int,
                i + 1,
                i as int,
                pivot as int,
            ),
    {
        let rows = self.rows;
        let cols = self.cols;
        let mut best = i;
        let mut k = i + 1;
        while k < rows
            invariant
                rows == self.rows,
                cols == self.cols,
                self.well_formed(),
                j < cols,
                i <= best < k <= rows,
                forall|pivot: int| #[trigger]
                    pivot_search(
                        numbers,
                        self.data@,
                        rows as int,
                        cols as int,
                        j as int,
                        k as int,
                        best as int,
                        pivot,
                    ) ==> pivot_search(
                        numbers,
                        self.data@,
                        rows as int,
                        cols as int,
                        j as int,
                        i + 1,
                        i as int,
                        pivot,
                    ),
            decreases rows - k,
        {
            proof {
                lemma_cell_bound(k as int, j as int, rows as int, cols as int);
                lemma_cell_bound(best as int, j as int, rows as int, cols as int);
            }
            let heavier = numbers.outweighs(self.data[k * cols + j], self.data[best * cols + j]);
            let ghost before = best;
            if heavier {
                best = k;
            }
            proof {
                assert forall|pivot: int| #[trigger]
                    pivot_search(
                        numbers,
                        self.data@,
                        rows as int,
                        cols as int,
                        j as int,
                        k + 1,
                        best as int,
                        pivot,
                    ) implies pivot_search(
                    numbers,
                    self.data@,
                    rows as int,
                    cols as int,
                    j as int,
                    i + 1,
                    i as int,
                    pivot,
                ) by {
                    lemma_pivot_search_step(
                        numbers,
                        self.data@,
                        rows as int,
                        cols as int,
                        j as int,
                        k as int,
                        before as int,
                        heavier,
                        pivot,
                    );
                }
            }
            k += 1;
        }
        proof {
            assert(pivot_search(
                numbers,
                self.data@,
                rows as int,
                cols as int,
                j as int,
                k as int,
                best as int,
                best as int,
            ));
        }
        best
    }
}

/// `lead` is where the search for the first significant entry of row `i`
/// ends, when it has come to column `l`: the column of that entry, or
/// nothing if the row has none from there on.
pub open spec fn leading_entry<T: Copy, N: Numbers<T>>(
    numbers: &N,
    data: Seq<T>,
    cols: int,
    i: int,
    l: int,
    lead: Option<int>,
) -> bool
    decreases cols - l,
{
    if l >= cols {
        lead is None
    } else {
        exists|weighty: bool|
            {
                &&& #[trigger] chosen(weighty)
                &&& call_ensures(N::above, (numbers, data[i * cols + l], PIVOT_TOLERANCE), weighty)
                &&& if weighty {
                    lead == Some(l)
                } else {
                    leading_entry(numbers, data, cols, i, l + 1, lead)
                }
            }
    }
}

/// The search goes on from column `l` behind an entry that is not
/// significant, and ends at one that is.
pub proof fn lemma_leading_entry_step<T: Copy, N: Numbers<T>>(
    numbers: &N,
    data: Seq<T>,
    cols: int,
    i: int,
    l: int,
    weighty: bool,
    lead: Option<int>,
)
    requires
        l < cols,
        call_ensures(N::above, (numbers, data[i * cols + l], PIVOT_TOLERANCE), weighty),
        if weighty {
            lead == Some(l)
        } else {
            leading_entry(numbers, data, cols, i, l + 1, lead)
        },
    ensures
        leading_entry(numbers, data, cols, i, l, lead),
{
    assert(chosen(weighty));
}

/// The search in a row reads that row only.
pub proof fn lemma_leading_entry_of_row<T: Copy, N: Numbers<T>>(
    numbers: &N,
    data: Seq<T>,
    other: Seq<T>,
    cols: int,
    i: int,
    l: int,
    lead: Option<int>,
)
    requires
        0 <= l,
        forall|n: int| i * cols <= n < i * cols + cols ==> #[trigger] data[n] == other[n],
        leading_entry(numbers, data, cols, i, l, lead),
    ensures
        leading_entry(numbers, other, cols, i, l, lead),
    decreases cols - l,
{
    if l < cols {
        let weighty = choose|weighty: bool|
            {
                &&& #[trigger] chosen(weighty)
                &&& call_ensures(N::above, (numbers, data[i * cols + l], PIVOT_TOLERANCE), weighty)
                &&& if weighty {
                    lead == Some(l)
                } else {
                    leading_entry(numbers, data, cols, i, l + 1, lead)
                }
            };
        assert(data[i * cols + l] == other[i * cols + l]);
        if !weighty {
            lemma_leading_entry_of_row(numbers, data, other, cols, i, l + 1, lead);
        }
        lemma_leading_entry_step(numbers, other, cols, i, l, weighty, lead);
    }
}

/// `value` is what scaling the pivots to one leaves at position `n`: an
/// entry of a row without a leading entry stays; the leading entry of a
/// row becomes `one`; every other entry is multiplied by the scale of its
/// row.
pub open spec fn entry_normalized<T: Copy, N: Numbers<T>>(
    numbers: &N,
    one: T,
    before: Seq<T>,
    cols: int,
    leads: Seq<Option<int>>,
    scales: Seq<T>,
    n: int,
    value: T,
) -> bool {
    let i = n / cols;
    match leads[i] {
        None => value == before[n],
        Some(f) => if n % cols == f {
            value == one
        } else {
            call_ensures(N::multiply, (numbers, before[n], scales[i]), value)
        },
    }
}

/// `after` is `before` with every row scaled so that its first significant
/// entry becomes `one`: the scale of a row is `one` divided by that entry,
/// the entry itself becomes `one` exactly, and a row without such an entry
/// stays as it is.
pub open spec fn normalized<T: Copy, N: Numbers<T>>(
    numbers: &N,
    one: T,
    before: Seq<T>,
    after: Seq<T>,
    rows: int,
    cols: int,
) -> bool {
    &&& after.len() == before.len()
    &&& exists|leads: Seq<Option<int>>, scales: Seq<T>|
        {
            &&& #[trigger] chosen((leads, scales))
            &&& leads.len() == rows
            &&& scales.len() == rows
            &&& forall|i: int|
                0 <= i < rows ==> leading_entry(numbers, before, cols, i, 0, #[trigger] leads[i])
            &&& forall|i: int|
                0 <= i < rows ==> (#[trigger] leads[i] matches Some(f) ==> 0 <= f < cols
                    && call_ensures(N::divide, (numbers, one, before[i * cols + f]), scales[i]))
            &&& forall|n: int|
                0 <= n < before.len() ==> entry_normalized(
                    numbers,
                    one,
                    before,
                    cols,
                    leads,
                    scales,
                    n,
                    #[trigger] after[n],
                )
        }
}

/// `result` is the reduced row echelon form of `data`: its row echelon
/// form with every pivot scaled to one.
pub open spec fn is_reduced_row_echelon<T: Copy, N: Numbers<T>>(
    numbers: &N,
    data: Seq<T>,
    rows: int,
    cols: int,
    result: Seq<T>,
) -> bool {
    exists|echelon: Seq<T>, one: T|
        {
            &&& #[trigger] chosen((echelon, one))
            &&& is_row_echelon(numbers, data, rows, cols, echelon)
            &&& call_ensures(N::one, (numbers,), one)
            &&& normalized(numbers, one, echelon, result, rows, cols)
        }
}

/// `cleared` is `entry` cleared of what rounding left: `zero` in place of a
/// residual entry, and the entry itself otherwise.
pub open spec fn entry_cleared<T: Copy, N: Numbers<T>>(numbers: &N, zero: T, entry: T, cleared: T)
    -> bool {
    exists|tiny: bool| #[trigger]
        call_ensures(N::below, (numbers, entry, RESIDUE_TOLERANCE), tiny) && cleared == if tiny {
            zero
        } else {
            entry
        }
}

/// `result` holds the inverse of the `size` by `size` matrix `data`: the
/// right half of the reduced row echelon form, cleared of residue, of the
/// matrix with the identity matrix joined to its right.
pub open spec fn is_inverse<T: Copy, N: Numbers<T>>(
    numbers: &N,
    data: Seq<T>,
    size: nat,
    result: Seq<T>,
) -> bool {
    exists|zero: T, one: T, reduced: Seq<T>, cleared: Seq<T>|
        {
            &&& #[trigger] chosen((zero, one, reduced, cleared))
            &&& call_ensures(N::zero, (numbers,), zero)
            &&& call_ensures(N::one, (numbers,), one)
            &&& is_reduced_row_echelon(
                numbers,
                joined_entries(data, identity_entries(size, zero, one), size, size, size),
                size as int,
                2 * size as int,
                reduced,
            )
            &&& entrywise(
                |entry: T, value: T| entry_cleared(numbers, zero, entry, value),
                reduced,
                cleared,
            )
            &&& result == trailing_entries(cleared, size, 2 * size, size)
        }
}

impl<T: Copy> Matrix<T> {
    /// The column of the first significant entry of row `i`, if the row
    /// has one.
    pub fn leading<N: Numbers<T>>(&self, numbers: &N, i: usize) -> (lead: Option<usize>)
        requires
            self.well_formed(),
            i < self.rows,
        ensures
            lead matches Some(f) ==> f < self.cols,
            leading_entry(numbers, self.data@, self.cols as int, i as int, 0, match lead {
                Some(f) => Some(f as int),
                None => None,
            }),
    {
        let cols = self.cols;
        let mut l: usize = 0;
        while l < cols
            invariant
                l <= cols,
                cols == self.cols,
                i < self.rows,
                self.well_formed(),
                forall|lead: Option<int>| #[trigger]
                    leading_entry(numbers, self.data@, cols as int, i as int, l as int, lead)
                        ==> leading_entry(numbers, self.data@, cols as int, i as int, 0, lead),
            decreases cols - l,
        {
            proof {
                lemma_cell_bound(i as int, l as int, self.rows as int, cols as int);
            }
            let weighty = numbers.above(self.data[i * cols + l], PIVOT_TOLERANCE);
            if weighty {
                proof {
                    lemma_leading_entry_step(
                        numbers,
                        self.data@,
                        cols as int,
                        i as int,
                        l as int,
                        true,
                        Some(l as int),
                    );
                }
                return Some(l);
            }
            proof {
                assert forall|lead: Option<int>| #[trigger]
                    leading_entry(
                        numbers,
                        self.data@,
                        cols as int,
                        i as int,
                        l + 1,
                        lead,
                    ) implies leading_entry(numbers, self.data@, cols as int, i as int, 0, lead) by {
                    lemma_leading_entry_step(
                        numbers,
                        self.data@,
                        cols as int,
                        i as int,
                        l as int,
                        false,
                        lead,
                    );
                }
            }
            l += 1;
        }
        proof {
            assert(leading_entry(
                numbers,
                self.data@,
                cols as int,
                i as int,
                l as int,
                None::<int>,
            ));
        }
        None
    }

    /// Scales every row so that its first significant entry becomes `one`:
    /// that entry is set to `one`, and the others of its row are multiplied
    /// by `one` divided by it.
    pub fn normalize<N: Numbers<T>>(&mut self, numbers: &N, one: T)
        requires
            old(self).well_formed(),
        ensures
            final(self).rows == old(self).rows,
            final(self).cols == old(self).cols,
            final(self).well_formed(),
            normalized(
                numbers,
                one,
                old(self).data@,
                final(self).data@,
                old(self).rows as int,
                old(self).cols as int,
            ),
    {
        let rows = self.rows;
        let cols = self.cols;
        let ghost before = self.data@;
        let ghost mut leads = Seq::<Option<int>>::empty();
        let ghost mut scales = Seq::<T>::empty();
        let mut i: usize = 0;
        while i < rows
            invariant
                i <= rows,
                rows == self.rows,
                cols == self.cols,
                self.well_formed(),
                self.data@.len() == before.len(),
                leads.len() == i,
                scales.len() == i,
                forall|r: int|
                    0 <= r < i ==> leading_entry(
                        numbers,
                        before,
                        cols as int,
                        r,
                        0,
                        #[trigger] leads[r],
                    ),
                forall|r: int|
                    0 <= r < i ==> (#[trigger] leads[r] matches Some(f) ==> 0 <= f < cols
                        && call_ensures(N::divide, (numbers, one, before[r * cols + f]), scales[r])),
                forall|n: int|
                    0 <= n < i * cols ==> entry_normalized(
                        numbers,
                        one,
                        before,
                        cols as int,
                        leads,
                        scales,
                        n,
                        #[trigger] self.data@[n],
                    ),
                forall|n: int| i * cols <= n < before.len() ==> #[trigger] self.data@[n] == before[n],
            decreases rows - i,
        {
            proof {
                lemma_cell_bound(i as int, 0, rows as int, cols as int);
            }
            let ghost middle = self.data@;
            let ghost earlier_leads = leads;
            let ghost earlier_scales = scales;
            let lead = self.leading(numbers, i);
            proof {
                lemma_leading_entry_of_row(
                    numbers,
                    middle,
                    before,
                    cols as int,
                    i as int,
                    0,
                    match lead {
                        Some(f) => Some(f as int),
                        None => None,
                    },
                );
            }
            match lead {
                Some(f) => {
                    proof {
                        lemma_cell_bound(i as int, f as int, rows as int, cols as int);
                    }
                    let scale = numbers.divide(one, self.data[i * cols + f]);
                    proof {
                        leads = leads.push(Some(f as int));
                        scales = scales.push(scale);
                    }
                    let mut k: usize = 0;
                    while k < cols
                        invariant
                            k <= cols,
                            i < rows,
                            rows == self.rows,
                            cols == self.cols,
                            self.well_formed(),
                            self.data@.len() == before.len(),
                            middle.len() == before.len(),
                            leads == earlier_leads.push(Some(f as int)),
                            scales == earlier_scales.push(scale),
                            earlier_leads.len() == i,
                            earlier_scales.len() == i,
                            forall|n: int| 0 <= n < i * cols ==> #[trigger] self.data@[n] == middle[n],
                            forall|n: int|
                                i * cols <= n < i * cols + k ==> entry_normalized(
                                    numbers,
                                    one,
                                    before,
                                    cols as int,
                                    leads,
                                    scales,
                                    n,
                                    #[trigger] self.data@[n],
                                ),
                            forall|n: int|
                                i * cols + k <= n < before.len() ==> #[trigger] self.data@[n]
                                    == before[n],
                        decreases cols - k,
                    {
                        proof {
                            lemma_cell_bound(i as int, k as int, rows as int, cols as int);
                            lemma_cell(i as int, k as int, cols as int);
                        }
                        if k == f {
                            self.data.set(i * cols + k, one);
                        } else {
                            let scaled = numbers.multiply(self.data[i * cols + k], scale);
                            self.data.set(i * cols + k, scaled);
                        }
                        k += 1;
                    }
                },
                None => {
                    proof {
                        leads = leads.push(None);
                        scales = scales.push(one);
                        assert forall|n: int| i * cols <= n < i * cols + cols implies entry_normalized(
                            numbers,
                            one,
                            before,
                            cols as int,
                            leads,
                            scales,
                            n,
                            #[trigger] self.data@[n],
                        ) by {
                            lemma_cell(i as int, n - i * cols, cols as int);
                        }
                    }
                },
            }
            proof {
                assert forall|n: int| 0 <= n < (i + 1) * cols implies entry_normalized(
                    numbers,
                    one,
                    before,
                    cols as int,
                    leads,
                    scales,
                    n,
                    #[trigger] self.data@[n],
                ) by {
                    if n < i * cols {
                        lemma_cell_of(n, i as int, cols as int);
                        assert(leads[n / (cols as int)] == earlier_leads[n / (cols as int)]);
                        assert(scales[n / (cols as int)] == earlier_scales[n / (cols as int)]);
                        assert(self.data@[n] == middle[n]);
                    }
                }
                assert forall|r: int| 0 <= r < i + 1 implies leading_entry(
                    numbers,
                    before,
                    cols as int,
                    r,
                    0,
                    #[trigger] leads[r],
                ) by {
                    if r < i {
                        assert(leads[r] == earlier_leads[r]);
                    }
                }
                assert forall|r: int| 0 <= r < i + 1 implies (#[trigger] leads[r] matches Some(f)
                    ==> 0 <= f < cols && call_ensures(
                    N::divide,
                    (numbers, one, before[r * cols + f]),
                    scales[r],
                )) by {
                    if r < i {
                        assert(leads[r] == earlier_leads[r]);
                        assert(scales[r] == earlier_scales[r]);
                    }
                }
            }
            i += 1;
        }
        proof {
            assert(chosen((leads, scales)));
        }
    }

    /// Puts `zero` in place of every entry that is residue of rounding.
    pub fn clear_residue<N: Numbers<T>>(&mut self, numbers: &N, zero: T)
        ensures
            final(self).rows == old(self).rows,
            final(self).cols == old(self).cols,
            entrywise(
                |entry: T, value: T| entry_cleared(numbers, zero, entry, value),
                old(self).data@,
                final(self).data@,
            ),
    {
        let clear = |entry: T| -> (value: T)
            ensures
                entry_cleared(numbers, zero, entry, value),
            {
                if numbers.below(entry, RESIDUE_TOLERANCE) {
                    zero
                } else {
                    entry
                }
            };
        self.map_entries(&clear);
    }

    /// Turns a square matrix into its inverse and answers `true`; leaves any
    /// other matrix as it is and answers `false`.  The inverse is the right
    /// half of the reduced row echelon form, cleared of residue, of the
    /// matrix with the identity matrix joined to its right.
    pub fn inverse<N: Numbers<T>>(&mut self, numbers: &N) -> (ok: bool)
        requires
            old(self).well_formed(),
        ensures
            ok == (old(self).rows == old(self).cols),
            !ok ==> *final(self) == *old(self),
            ok ==> {
                &&& final(self).rows == old(self).rows
                &&& final(self).cols == old(self).cols
                &&& final(self).well_formed()
                &&& is_inverse(
                    numbers,
                    old(self).data@,
                    old(self).rows as nat,
                    final(self).data@,
                )
            },
    {
        if self.rows != self.cols {
            return false;
        }
        let zero = numbers.zero();
        let one = numbers.one();
        let identity = Matrix::new_identity(self.rows, zero, one);
        let mut joined = self.joined(&identity);
        joined.rref_matrix(numbers);
        let ghost reduced = joined.data@;
        joined.clear_residue(numbers, zero);
        let ghost cleared = joined.data@;
        let half = joined.trailing_columns(self.cols);
        self.data = half.data;
        proof {
            assert(chosen((zero, one, reduced, cleared)));
        }
        true
    }

    /// Brings the matrix into reduced row echelon form: row echelon form
    /// with every pivot scaled to one.
    pub fn rref_matrix<N: Numbers<T>>(&mut self, numbers: &N)
        requires
            old(self).well_formed(),
        ensures
            final(self).rows == old(self).rows,
            final(self).cols == old(self).cols,
            final(self).well_formed(),
            is_reduced_row_echelon(
                numbers,
                old(self).data@,
                old(self).rows as int,
                old(self).cols as int,
                final(self).data@,
            ),
    {
        self.ref_matrix(numbers);
        let ghost echelon = self.data@;
        let one = numbers.one();
        self.normalize(numbers, one);
        proof {
            assert(chosen((echelon, one)));
        }
    }
}

} // verus!
