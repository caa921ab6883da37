//! Matrices that a reduction leaves as they are.
//!
//! A matrix whose pivots are exactly one, with exactly zero above and below
//! each pivot, and with nothing but negligible entries before each pivot
//! and in every row without one, is its own reduced row echelon form, over
//! numbers that treat zero and one as the law below asks.  Reducing twice is then reducing once wherever the first
//! reduction ends in such a matrix.  The identity matrix with itself joined
//! to its right is such a matrix, so the identity matrix is its own inverse.

use vstd::prelude::*;
use crate::arithmetic::rows_exchanged;
use crate::elimination::eliminated;
use crate::elimination::entry_cleared;
use crate::elimination::is_factor;
use crate::elimination::is_inverse;
use crate::elimination::is_reduced_row_echelon;
use crate::elimination::leading_entry;
use crate::elimination::normalized;
use crate::elimination::pivot_search;
use crate::elimination::reduced_from;
use crate::elimination::PIVOT_TOLERANCE;
use crate::elimination::RESIDUE_TOLERANCE;
use crate::numbers::Numbers;
use crate::relations::chosen;
use crate::value::identity_entries;
use crate::value::joined_entries;
use crate::value::lemma_cell;
use crate::value::lemma_cell_bound;
use crate::value::lemma_cell_of;
use crate::value::trailing_entries;

verus! {

/// The entry of row `k` and column `l`.
pub open spec fn cell<T>(data: Seq<T>, cols: int, k: int, l: int) -> T {
    data[k * cols + l]
}

/// The numbers find the entry below the tolerance for pivots, and not
/// above it.
pub open spec fn negligible<T: Copy, N: Numbers<T>>(numbers: &N, entry: T) -> bool {
    &&& forall|small: bool| #[trigger]
        call_ensures(N::below, (numbers, entry, PIVOT_TOLERANCE), small) ==> small
    &&& forall|weighty: bool| #[trigger]
        call_ensures(N::above, (numbers, entry, PIVOT_TOLERANCE), weighty) ==> !weighty
}

/// What the law of this module asks of the numbers, for the entries of
/// one matrix.  `zero` and `one` are the only zero and one.  Zero does not
/// outweigh one, and one lies above the tolerance for pivots and not below
/// it.  An entry that takes in the factor of a zero entry times another
/// entry stays as it is, and so does an entry multiplied by the scale of a
/// row whose leading entry is one.
pub open spec fn steady<T: Copy, N: Numbers<T>>(numbers: &N, zero: T, one: T, data: Seq<T>)
    -> bool {
    &&& forall|z: T| #[trigger] call_ensures(N::zero, (numbers,), z) ==> z == zero
    &&& forall|o: T| #[trigger] call_ensures(N::one, (numbers,), o) ==> o == one
    &&& forall|heavier: bool| #[trigger]
        call_ensures(N::outweighs, (numbers, zero, one), heavier) ==> !heavier
    &&& forall|small: bool| #[trigger]
        call_ensures(N::below, (numbers, one, PIVOT_TOLERANCE), small) ==> !small
    &&& forall|weighty: bool| #[trigger]
        call_ensures(N::above, (numbers, one, PIVOT_TOLERANCE), weighty) ==> weighty
    &&& forall|n: int, factor: T, m: int, next: T|
        0 <= n < data.len() && 0 <= m < data.len() && is_factor(numbers, zero, one, factor)
            && #[trigger] call_ensures(
            N::multiply_add,
            (numbers, data[n], factor, data[m]),
            next,
        ) ==> next == data[n]
    &&& forall|n: int, scale: T, scaled: T|
        0 <= n < data.len() && call_ensures(N::divide, (numbers, one, one), scale)
            && #[trigger] call_ensures(N::multiply, (numbers, data[n], scale), scaled) ==> scaled
            == data[n]
}

/// The matrix is in reduced row echelon form with its pivots in the
/// columns `leads`: row `a` has its pivot, `one`, in column `leads[a]`,
/// further right than the pivot of the row above; the column of a pivot
/// holds `zero` in every other row; left of its pivot a row holds
/// negligible entries only, and so do the rows behind those with pivots
/// throughout.
pub open spec fn is_reduced<T: Copy, N: Numbers<T>>(
    numbers: &N,
    zero: T,
    one: T,
    data: Seq<T>,
    rows: int,
    cols: int,
    leads: Seq<int>,
) -> bool {
    &&& leads.len() <= rows
    &&& forall|a: int| 0 <= a < leads.len() ==> 0 <= #[trigger] leads[a] < cols
    &&& forall|a: int, b: int|
        0 <= a < b < leads.len() ==> #[trigger] leads[a] < #[trigger] leads[b]
    &&& forall|a: int| 0 <= a < leads.len() ==> cell(data, cols, a, #[trigger] leads[a]) == one
    &&& forall|a: int, k: int|
        0 <= a < leads.len() && 0 <= k < rows && k != a ==> #[trigger] cell(
            data,
            cols,
            k,
            leads[a],
        ) == zero
    &&& forall|a: int, l: int|
        0 <= a < leads.len() && 0 <= l < leads[a] ==> negligible(
            numbers,
            #[trigger] cell(data, cols, a, l),
        )
    &&& forall|k: int, l: int|
        leads.len() <= k < rows && 0 <= l < cols ==> negligible(
            numbers,
            #[trigger] cell(data, cols, k, l),
        )
}

/// A search for a pivot that starts at one and meets only zero below it
/// ends with the row it started at.
proof fn lemma_search_stays<T: Copy, N: Numbers<T>>(
    numbers: &N,
    zero: T,
    one: T,
    data: Seq<T>,
    rows: int,
    cols: int,
    j: int,
    k: int,
    best: int,
    pivot: int,
)
    requires
        forall|heavier: bool| #[trigger]
            call_ensures(N::outweighs, (numbers, zero, one), heavier) ==> !heavier,
        cell(data, cols, best, j) == one,
        forall|m: int| k <= m < rows ==> #[trigger] cell(data, cols, m, j) == zero,
        pivot_search(numbers, data, rows, cols, j, k, best, pivot),
    ensures
        pivot == best,
    decreases rows - k,
{
    if k < rows {
        let heavier = choose|heavier: bool|
            {
                &&& #[trigger] chosen(heavier)
                &&& call_ensures(
                    N::outweighs,
                    (numbers, data[k * cols + j], data[best * cols + j]),
                    heavier,
                )
                &&& pivot_search(
                    numbers,
                    data,
                    rows,
                    cols,
                    j,
                    k + 1,
                    if heavier {
                        k
                    } else {
                        best
                    },
                    pivot,
                )
            };
        assert(cell(data, cols, k, j) == zero);
        lemma_search_stays(numbers, zero, one, data, rows, cols, j, k + 1, best, pivot);
    }
}

/// A row that changes places with itself leaves the matrix as it is.
proof fn lemma_exchange_with_itself<T>(data: Seq<T>, cols: int, i: int)
    requires
        0 < cols,
    ensures
        rows_exchanged(data, cols, i, i) == data,
{
    let exchanged = rows_exchanged(data, cols, i, i);
    assert forall|n: int| 0 <= n < data.len() implies exchanged[n] == data[n] by {
        vstd::arithmetic::div_mod::lemma_fundamental_div_mod(n, cols);
        assert(cols * (n / cols) == (n / cols) * cols) by (nonlinear_arith);
    }
    assert(exchanged =~= data);
}

/// Clearing the column of a pivot that is one, in a matrix that holds zero
/// in the rest of that column, changes nothing.
proof fn lemma_clearing_stays<T: Copy, N: Numbers<T>>(
    numbers: &N,
    zero: T,
    one: T,
    data: Seq<T>,
    rows: int,
    cols: int,
    leads: Seq<int>,
    i: int,
    cleared: Seq<T>,
)
    requires
        steady(numbers, zero, one, data),
        0 < rows,
        0 < cols,
        data.len() == rows * cols,
        is_reduced(numbers, zero, one, data, rows, cols, leads),
        0 <= i < leads.len(),
        eliminated(numbers, zero, data, cleared, rows, cols, i, leads[i]),
    ensures
        cleared == data,
{
    let j = leads[i];
    let factors = choose|factors: Seq<T>|
        {
            &&& #[trigger] chosen(factors)
            &&& factors.len() == rows
            &&& forall|k: int|
                0 <= k < rows && k != i ==> is_factor(
                    numbers,
                    data[k * cols + j],
                    data[i * cols + j],
                    #[trigger] factors[k],
                )
            &&& forall|n: int|
                0 <= n < data.len() ==> crate::elimination::entry_eliminated(
                    numbers,
                    zero,
                    data,
                    cols,
                    i,
                    j,
                    factors,
                    n,
                    #[trigger] cleared[n],
                )
        };
    assert(cell(data, cols, i, leads[i]) == one);
    assert forall|n: int| 0 <= n < data.len() implies cleared[n] == data[n] by {
        lemma_cell_of(n, rows, cols);
        let k = n / cols;
        let l = n % cols;
        assert(crate::elimination::entry_eliminated(
            numbers,
            zero,
            data,
            cols,
            i,
            j,
            factors,
            n,
            cleared[n],
        ));
        if k != i {
            lemma_cell_bound(i, l, rows, cols);
            assert(cell(data, cols, k, leads[i]) == zero);
            assert(is_factor(numbers, data[k * cols + j], data[i * cols + j], factors[k]));
        }
    }
    assert(cleared =~= data);
}

/// Elimination leaves a matrix in reduced row echelon form as it is, from
/// every round on that stands before the pivot of its row.
proof fn lemma_rounds_stay<T: Copy, N: Numbers<T>>(
    numbers: &N,
    zero: T,
    one: T,
    data: Seq<T>,
    rows: int,
    cols: int,
    leads: Seq<int>,
    i: int,
    j: int,
    result: Seq<T>,
)
    requires
        steady(numbers, zero, one, data),
        0 < rows,
        0 < cols,
        data.len() == rows * cols,
        is_reduced(numbers, zero, one, data, rows, cols, leads),
        0 <= i <= leads.len(),
        0 <= j,
        i < leads.len() ==> j <= leads[i],
        reduced_from(numbers, zero, data, rows, cols, i, j, result),
    ensures
        result == data,
    decreases cols - j,
{
    if i < rows && j < cols {
        let (pivot, skipped, cleared) = choose|pivot: int, skipped: bool, cleared: Seq<T>|
            {
                &&& #[trigger] chosen((pivot, skipped, cleared))
                &&& i <= pivot < rows
                &&& pivot_search(numbers, data, rows, cols, j, i + 1, i, pivot)
                &&& call_ensures(
                    N::below,
                    (numbers, data[pivot * cols + j], PIVOT_TOLERANCE),
                    skipped,
                )
                &&& if skipped {
                    reduced_from(numbers, zero, data, rows, cols, i, j + 1, result)
                } else {
                    &&& eliminated(
                        numbers,
                        zero,
                        rows_exchanged(data, cols, i, pivot),
                        cleared,
                        rows,
                        cols,
                        i,
                        j,
                    )
                    &&& reduced_from(numbers, zero, cleared, rows, cols, i + 1, j + 1, result)
                }
            };
        if i < leads.len() && j == leads[i] {
            assert(cell(data, cols, i, leads[i]) == one);
            assert forall|m: int| i + 1 <= m < rows implies #[trigger] cell(data, cols, m, j)
                == zero by {
                assert(cell(data, cols, m, leads[i]) == zero);
            }
            lemma_search_stays(numbers, zero, one, data, rows, cols, j, i + 1, i, pivot);
            lemma_exchange_with_itself(data, cols, i);
            lemma_clearing_stays(numbers, zero, one, data, rows, cols, leads, i, cleared);
            if i + 1 < leads.len() {
                assert(leads[i] < leads[i + 1]);
            }
            lemma_rounds_stay(numbers, zero, one, data, rows, cols, leads, i + 1, j + 1, result);
        } else {
            if i < pivot < leads.len() {
                assert(leads[i] < leads[pivot]);
            }
            assert(negligible(numbers, cell(data, cols, pivot, j)));
            lemma_rounds_stay(numbers, zero, one, data, rows, cols, leads, i, j + 1, result);
        }
    }
}

/// The search for the leading entry of a row with a pivot ends at the
/// pivot.
proof fn lemma_lead_is_pivot<T: Copy, N: Numbers<T>>(
    numbers: &N,
    zero: T,
    one: T,
    data: Seq<T>,
    rows: int,
    cols: int,
    leads: Seq<int>,
    i: int,
    l: int,
    lead: Option<int>,
)
    requires
        steady(numbers, zero, one, data),
        is_reduced(numbers, zero, one, data, rows, cols, leads),
        0 <= i < leads.len(),
        0 <= l <= leads[i],
        leading_entry(numbers, data, cols, i, l, lead),
    ensures
        lead == Some(leads[i]),
    decreases leads[i] - l,
{
    let weighty = choose|weighty: bool|
        {
            &&& #[trigger] chosen(weighty)
            &&& call_ensures(N::above, (numbers, data[i * cols + l], PIVOT_TOLERANCE), weighty)
            &&& if weighty {
                lead == Some(l)
            } else {
                leading_entry(numbers, data, cols, i, l + 1, lead)
            }
        };
    if l == leads[i] {
        assert(cell(data, cols, i, leads[i]) == one);
    } else {
        assert(negligible(numbers, cell(data, cols, i, l)));
        lemma_lead_is_pivot(numbers, zero, one, data, rows, cols, leads, i, l + 1, lead);
    }
}

/// A row of zeros has no leading entry.
proof fn lemma_no_lead<T: Copy, N: Numbers<T>>(
    numbers: &N,
    zero: T,
    one: T,
    data: Seq<T>,
    rows: int,
    cols: int,
    leads: Seq<int>,
    i: int,
    l: int,
    lead: Option<int>,
)
    requires
        steady(numbers, zero, one, data),
        is_reduced(numbers, zero, one, data, rows, cols, leads),
        leads.len() <= i < rows,
        0 <= l,
        leading_entry(numbers, data, cols, i, l, lead),
    ensures
        lead is None,
    decreases cols - l,
{
    if l < cols {
        let weighty = choose|weighty: bool|
            {
                &&& #[trigger] chosen(weighty)
                &&& call_ensures(
                    N::above,
                    (numbers, data[i * cols + l], PIVOT_TOLERANCE),
                    weighty,
                )
                &&& if weighty {
                    lead == Some(l)
                } else {
                    leading_entry(numbers, data, cols, i, l + 1, lead)
                }
            };
        assert(negligible(numbers, cell(data, cols, i, l)));
        lemma_no_lead(numbers, zero, one, data, rows, cols, leads, i, l + 1, lead);
    }
}

/// Scaling the pivots of a matrix in reduced row echelon form to one
/// changes nothing.
proof fn lemma_scaling_stays<T: Copy, N: Numbers<T>>(
    numbers: &N,
    zero: T,
    one: T,
    data: Seq<T>,
    rows: int,
    cols: int,
    leads: Seq<int>,
    result: Seq<T>,
)
    requires
        steady(numbers, zero, one, data),
        0 < rows,
        0 < cols,
        data.len() == rows * cols,
        is_reduced(numbers, zero, one, data, rows, cols, leads),
        normalized(numbers, one, data, result, rows, cols),
    ensures
        result == data,
{
    let (found, scales) = choose|found: Seq<Option<int>>, scales: Seq<T>|
        {
            &&& #[trigger] chosen((found, scales))
            &&& found.len() == rows
            &&& scales.len() == rows
            &&& forall|i: int|
                0 <= i < rows ==> leading_entry(numbers, data, cols, i, 0, #[trigger] found[i])
            &&& forall|i: int|
                0 <= i < rows ==> (#[trigger] found[i] matches Some(f) ==> 0 <= f < cols
                    && call_ensures(N::divide, (numbers, one, data[i * cols + f]), scales[i]))
            &&& forall|n: int|
                0 <= n < data.len() ==> crate::elimination::entry_normalized(
                    numbers,
                    one,
                    data,
                    cols,
                    found,
                    scales,
                    n,
                    #[trigger] result[n],
                )
        };
    assert forall|n: int| 0 <= n < data.len() implies result[n] == data[n] by {
        lemma_cell_of(n, rows, cols);
        let i = n / cols;
        assert(leading_entry(numbers, data, cols, i, 0, found[i]));
        assert(crate::elimination::entry_normalized(
            numbers,
            one,
            data,
            cols,
            found,
            scales,
            n,
            result[n],
        ));
        if i < leads.len() {
            lemma_lead_is_pivot(numbers, zero, one, data, rows, cols, leads, i, 0, found[i]);
            assert(cell(data, cols, i, leads[i]) == one);
        } else {
            lemma_no_lead(numbers, zero, one, data, rows, cols, leads, i, 0, found[i]);
        }
    }
    assert(result =~= data);
}

/// A matrix in reduced row echelon form is its own reduced row echelon
/// form, over numbers that are steady.
pub proof fn lemma_reduced_stays<T: Copy, N: Numbers<T>>(
    numbers: &N,
    zero: T,
    one: T,
    data: Seq<T>,
    rows: int,
    cols: int,
    leads: Seq<int>,
    result: Seq<T>,
)
    requires
        steady(numbers, zero, one, data),
        0 < rows,
        0 < cols,
        data.len() == rows * cols,
        is_reduced(numbers, zero, one, data, rows, cols, leads),
        is_reduced_row_echelon(numbers, data, rows, cols, result),
    ensures
        result == data,
{
    let (echelon, unit) = choose|echelon: Seq<T>, unit: T|
        {
            &&& #[trigger] chosen((echelon, unit))
            &&& crate::elimination::is_row_echelon(numbers, data, rows, cols, echelon)
            &&& call_ensures(N::one, (numbers,), unit)
            &&& normalized(numbers, unit, echelon, result, rows, cols)
        };
    let nothing = choose|nothing: T| #[trigger]
        call_ensures(N::zero, (numbers,), nothing) && reduced_from(
            numbers,
            nothing,
            data,
            rows,
            cols,
            0,
            0,
            echelon,
        );
    lemma_rounds_stay(numbers, zero, one, data, rows, cols, leads, 0, 0, echelon);
    lemma_scaling_stays(numbers, zero, one, data, rows, cols, leads, result);
}

/// Reducing twice is reducing once, wherever the first reduction ends in a
/// matrix in reduced row echelon form and the numbers are steady.
pub proof fn lemma_reducing_twice<T: Copy, N: Numbers<T>>(
    numbers: &N,
    zero: T,
    one: T,
    data: Seq<T>,
    rows: int,
    cols: int,
    once: Seq<T>,
    leads: Seq<int>,
    twice: Seq<T>,
)
    requires
        steady(numbers, zero, one, once),
        0 < rows,
        0 < cols,
        once.len() == rows * cols,
        is_reduced_row_echelon(numbers, data, rows, cols, once),
        is_reduced(numbers, zero, one, once, rows, cols, leads),
        is_reduced_row_echelon(numbers, once, rows, cols, twice),
    ensures
        twice == once,
{
    lemma_reduced_stays(numbers, zero, one, once, rows, cols, leads, twice);
}

/// The identity matrix with the identity matrix joined to its right.
pub open spec fn identity_pair<T>(size: nat, zero: T, one: T) -> Seq<T> {
    let identity = identity_entries(size, zero, one);
    joined_entries(identity, identity, size, size, size)
}

/// Row `k` of the joined pair holds in column `l` the entry of the left
/// identity matrix, and in column `size + l` that of the right one: `one`
/// where `k` is `l`, and `zero` elsewhere.
proof fn lemma_identity_pair_cell<T>(size: nat, zero: T, one: T, k: int, l: int)
    requires
        0 <= k < size,
        0 <= l < size,
    ensures
        identity_pair(size, zero, one).len() == size * (2 * size),
        0 <= k * (2 * size) + l < k * (2 * size) + size + l < size * (2 * size),
        cell(identity_pair(size, zero, one), 2 * size as int, k, l) == if k == l {
            one
        } else {
            zero
        },
        cell(identity_pair(size, zero, one), 2 * size as int, k, size + l) == if k == l {
            one
        } else {
            zero
        },
{
    let width = 2 * size as int;
    assert(size + size == width);
    lemma_cell(k, l, width);
    lemma_cell(k, size + l, width);
    lemma_cell_bound(k, size + l, size as int, width);
    lemma_cell(k, l, size as int);
    lemma_cell_bound(k, l, size as int, size as int);
}

/// The joined pair is in reduced row echelon form, with the pivot of every
/// row on the diagonal of the left half.
proof fn lemma_identity_pair_is_reduced<T: Copy, N: Numbers<T>>(
    numbers: &N,
    size: nat,
    zero: T,
    one: T,
)
    requires
        size >= 1,
        negligible(numbers, zero),
    ensures
        is_reduced(
            numbers,
            zero,
            one,
            identity_pair(size, zero, one),
            size as int,
            2 * size as int,
            Seq::new(size, |a: int| a),
        ),
{
    let pair = identity_pair(size, zero, one);
    let width = 2 * size as int;
    let leads = Seq::new(size, |a: int| a);
    assert forall|a: int| 0 <= a < leads.len() implies cell(pair, width, a, #[trigger] leads[a])
        == one by {
        lemma_identity_pair_cell(size, zero, one, a, a);
    }
    assert forall|a: int, l: int| 0 <= a < leads.len() && 0 <= l < leads[a] implies negligible(
        numbers,
        #[trigger] cell(pair, width, a, l),
    ) by {
        lemma_identity_pair_cell(size, zero, one, a, l);
    }
    assert forall|a: int, k: int|
        0 <= a < leads.len() && 0 <= k < size && k != a implies #[trigger] cell(
        pair,
        width,
        k,
        leads[a],
    ) == zero by {
        lemma_identity_pair_cell(size, zero, one, k, a);
    }
}

/// The inverse of the identity matrix is the identity matrix, over numbers
/// that are steady on it, for which zero is negligible and one is no
/// residue of rounding.
pub proof fn lemma_inverse_of_identity<T: Copy, N: Numbers<T>>(
    numbers: &N,
    zero: T,
    one: T,
    size: nat,
    result: Seq<T>,
)
    requires
        size >= 1,
        steady(numbers, zero, one, identity_pair(size, zero, one)),
        negligible(numbers, zero),
        forall|tiny: bool| #[trigger]
            call_ensures(N::below, (numbers, one, RESIDUE_TOLERANCE), tiny) ==> !tiny,
        is_inverse(numbers, identity_entries(size, zero, one), size, result),
    ensures
        result == identity_entries(size, zero, one),
{
    let identity = identity_entries(size, zero, one);
    let pair = identity_pair(size, zero, one);
    let (nothing, unit, reduced, cleared) = choose|
        nothing: T,
        unit: T,
        reduced: Seq<T>,
        cleared: Seq<T>,
    |
        {
            &&& #[trigger] chosen((nothing, unit, reduced, cleared))
            &&& call_ensures(N::zero, (numbers,), nothing)
            &&& call_ensures(N::one, (numbers,), unit)
            &&& is_reduced_row_echelon(
                numbers,
                joined_entries(identity, identity_entries(size, nothing, unit), size, size, size),
                size as int,
                2 * size as int,
                reduced,
            )
            &&& crate::relations::entrywise(
                |entry: T, value: T| entry_cleared(numbers, nothing, entry, value),
                reduced,
                cleared,
            )
            &&& result == trailing_entries(cleared, size, 2 * size, size)
        };
    lemma_identity_pair_cell(size, zero, one, 0, 0);
    lemma_identity_pair_is_reduced(numbers, size, zero, one);
    lemma_reduced_stays(
        numbers,
        zero,
        one,
        pair,
        size as int,
        2 * size as int,
        Seq::new(size, |a: int| a),
        reduced,
    );
    assert forall|n: int| 0 <= n < pair.len() implies cleared[n] == pair[n] by {
        lemma_cell_of(n, size as int, 2 * size as int);
        let k = n / (2 * size as int);
        let l = n % (2 * size as int);
        if l < size {
            lemma_identity_pair_cell(size, zero, one, k, l);
        } else {
            lemma_identity_pair_cell(size, zero, one, k, l - size);
        }
        assert(pair[n] == zero || pair[n] == one);
        assert(entry_cleared(numbers, zero, pair[n], cleared[n]));
    }
    assert(cleared =~= pair);
    assert(size * size == size * (2 * size - size)) by (nonlinear_arith);
    assert forall|n: int| 0 <= n < identity.len() implies result[n] == identity[n] by {
        lemma_cell_of(n, size as int, size as int);
        lemma_identity_pair_cell(size, zero, one, n / (size as int), n % (size as int));
    }
    assert(result =~= identity);
}

/// Inverting the identity matrix twice gives the identity matrix back,
/// over the same numbers.
pub proof fn lemma_identity_round_trip<T: Copy, N: Numbers<T>>(
    numbers: &N,
    zero: T,
    one: T,
    size: nat,
    once: Seq<T>,
    twice: Seq<T>,
)
    requires
        size >= 1,
        steady(numbers, zero, one, identity_pair(size, zero, one)),
        negligible(numbers, zero),
        forall|tiny: bool| #[trigger]
            call_ensures(N::below, (numbers, one, RESIDUE_TOLERANCE), tiny) ==> !tiny,
        is_inverse(numbers, identity_entries(size, zero, one), size, once),
        is_inverse(numbers, once, size, twice),
    ensures
        once == identity_entries(size, zero, one),
        twice == identity_entries(size, zero, one),
{
    lemma_inverse_of_identity(numbers, zero, one, size, once);
    lemma_inverse_of_identity(numbers, zero, one, size, twice);
}

} // verus!
