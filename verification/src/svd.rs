//! The decomposition itself: what is asked of the numeric kernel, and what is
//! made of its answer.
//!
//! A singular value decomposition of an `m × n` matrix `A` is a triple
//! `(U, S, Vᵗ)` with `U` of shape `m × k`, `S` of length `k` and `Vᵗ` of shape
//! `k × n`, where `k` is the smaller of `m` and `n`, such that
//! `A = U · diag(S) · Vᵗ`. The kernel (a bidiagonalisation followed by
//! implicitly shifted QR sweeps) works in binary64 arithmetic and is not part
//! of this library. The library prepares its run with [`prepare`] and turns
//! its answer into the result with [`decompose`] or [`perform_svd`].

use vstd::prelude::*;
use crate::binary64::{is_finite, is_negative, magnitude, negated, abs, sign_negative, ZERO};
use crate::binary64::{magnitude_properties, negated_properties, scaled_value};
use crate::binary64::magnitudes_order_as_numbers;
use crate::binary64::{FRACTION_MASK, HIDDEN_BIT, INFINITY, MAGNITUDE_MASK, SIGN_MASK};
use vstd::arithmetic::power2::{pow2, lemma_pow2_adds, lemma2_to64_rest};
use crate::matrix::{Matrix, max_cells};
use crate::vector::Vector;
use crate::order::{is_stable_descending_order, stable_descending_order_of, stable_descending_order};
use crate::order::{stable_descending_order_is_unique, stable_descending_order_sorts};
use crate::order::{place_in_permutation, stable_descending_order_is_permutation};

verus! {

/// Why no decomposition was produced.
#[derive(Debug, Clone, Copy, PartialEq, Eq, Structural)]
pub enum SvdError {
    /// The matrix has no rows or no columns, or one of its cells is an
    /// infinity or a NaN.
    InvalidInput,
    /// The kernel stopped at its iteration limit without an answer.
    NonConvergence,
    /// The kernel answered without `U` or without `Vᵗ`.
    MissingFactor,
    /// The factors do not have the shapes that belong to the matrix.
    DimensionMismatch,
    /// One of the factors holds an infinity or a NaN.
    NonFiniteResult,
}

/// What the kernel is given along with the matrix.
#[derive(Debug, Clone, Copy, PartialEq, Eq)]
pub struct Plan {
    /// The number of sweeps after which the kernel gives up.
    pub max_iterations: usize,
    /// The bit pattern of the relative size below which the kernel takes an
    /// off-diagonal entry for zero.
    pub tolerance: u64,
}

/// What the kernel hands back when it has converged.
pub struct Factors {
    /// The left singular vectors, as the columns of an `m × k` matrix.
    pub u: Option<Matrix>,
    /// The right singular vectors, as the rows of a `k × n` matrix.
    pub v_t: Option<Matrix>,
    /// The `k` singular values, in any order and with any sign.
    pub singular_values: Vector,
}

/// The sweeps the kernel is allowed for each singular value.
pub const SWEEPS_PER_VALUE: usize = 30;

/// The bit pattern of five times the binary64 machine epsilon, `5 · 2⁻⁵²`.
pub const TOLERANCE: u64 = 0x3cd4_0000_0000_0000;

/// The number of singular values of a matrix with the given shape.
pub open spec fn rank_bound(rows: nat, cols: nat) -> nat {
    if rows <= cols {
        rows
    } else {
        cols
    }
}

/// The iteration limit for `k` singular values: thirty sweeps for each,
/// or the largest `usize` where that product does not fit.
pub open spec fn iteration_cap(k: nat) -> nat {
    if SWEEPS_PER_VALUE * k <= usize::MAX {
        (SWEEPS_PER_VALUE * k) as nat
    } else {
        usize::MAX as nat
    }
}

/// Whether a matrix can be decomposed: it has at least one row and one
/// column, and every cell is a finite number.
pub open spec fn valid_input(matrix: Matrix) -> bool {
    &&& matrix.height() >= 1
    &&& matrix.width() >= 1
    &&& matrix.all_finite()
}

/// Whether the factors have the shapes that belong to a decomposition of
/// `matrix`.
pub open spec fn well_shaped(matrix: Matrix, u: Matrix, s: Vector, v_t: Matrix) -> bool {
    let k = rank_bound(matrix.height(), matrix.width());
    &&& u.height() == matrix.height()
    &&& u.width() == k
    &&& s@.len() == k
    &&& v_t.height() == k
    &&& v_t.width() == matrix.width()
}

/// Whether the three factors fit together, so that the product
/// `U · diag(S) · Vᵗ` is defined.
pub open spec fn conformable(u: Matrix, s: Vector, v_t: Matrix) -> bool {
    u.width() == s@.len() && v_t.height() == s@.len()
}

/// The reason for which `matrix` with the kernel's `outcome` yields no
/// decomposition, or `None` where it yields one. The reasons are tried in the
/// order in which `SvdError` lists them.
pub open spec fn failure(matrix: Matrix, outcome: Option<Factors>) -> Option<SvdError> {
    if !valid_input(matrix) {
        Some(SvdError::InvalidInput)
    } else {
        match outcome {
            None => Some(SvdError::NonConvergence),
            Some(factors) => match (factors.u, factors.v_t) {
                (Some(u), Some(v_t)) => if !well_shaped(matrix, u, factors.singular_values, v_t) {
                    Some(SvdError::DimensionMismatch)
                } else if !(u.all_finite() && factors.singular_values.all_finite()
                    && v_t.all_finite()) {
                    Some(SvdError::NonFiniteResult)
                } else {
                    None
                },
                _ => Some(SvdError::MissingFactor),
            },
        }
    }
}

/// The magnitudes of a sequence of bit patterns.
pub open spec fn magnitudes(s: Seq<u64>) -> Seq<u64> {
    Seq::new(s.len(), |i: int| magnitude(s[i]))
}

/// Whether no item is followed by a larger one.
pub open spec fn descending(s: Seq<u64>) -> bool {
    forall|i: int, j: int| 0 <= i <= j < s.len() ==> s[i] >= s[j]
}

/// Whether no item has its sign bit set.
pub open spec fn unsigned(s: Seq<u64>) -> bool {
    forall|i: int| 0 <= i < s.len() ==> !is_negative(#[trigger] s[i])
}

/// Whether `(nu, ns, nv_t)` is the normal form of `(u, s, v_t)`.
///
/// With `order` the stable descending order of the magnitudes of `s`:
/// singular value `i` of the normal form is the magnitude of the value at
/// `order[i]`; column `i` of `nu` is column `order[i]` of `u`, negated where
/// that value had its sign bit set; and row `i` of `nv_t` is row `order[i]` of
/// `v_t`. Negating a singular value together with its column of `U`, and
/// moving a value together with its column of `U` and its row of `Vᵗ`, leave
/// the product `U · diag(S) · Vᵗ` as it is; the module `exact` proves it.
pub open spec fn normalizes(
    u: Matrix,
    s: Vector,
    v_t: Matrix,
    nu: Matrix,
    ns: Vector,
    nv_t: Matrix,
) -> bool {
    let order = stable_descending_order_of(magnitudes(s@));
    &&& is_stable_descending_order(order, magnitudes(s@))
    &&& nu.height() == u.height()
    &&& nu.width() == u.width()
    &&& ns@.len() == s@.len()
    &&& nv_t.height() == v_t.height()
    &&& nv_t.width() == v_t.width()
    &&& forall|i: int| 0 <= i < s@.len() ==> #[trigger] ns@[i] == magnitude(s@[order[i] as int])
    &&& forall|a: int, b: int|
        u.has(a, b) ==> #[trigger] nu.at(a, b) == (if is_negative(s@[order[b] as int]) {
            negated(u.at(a, order[b] as int))
        } else {
            u.at(a, order[b] as int)
        })
    &&& forall|a: int, b: int|
        v_t.has(a, b) ==> #[trigger] nv_t.at(a, b) == v_t.at(order[a] as int, b)
}

/// Whether `d` is the decomposition that `matrix` and the kernel's `outcome`
/// yield: the normal form of the factors in `outcome`. Its shapes are those
/// that belong to the matrix, its singular values have no sign and stand in
/// descending order, and all its cells are finite.
pub open spec fn decomposes(
    matrix: Matrix,
    outcome: Option<Factors>,
    d: (Matrix, Vector, Matrix),
) -> bool {
    &&& outcome matches Some(factors)
    &&& factors.u matches Some(u)
    &&& factors.v_t matches Some(v_t)
    &&& normalizes(u, factors.singular_values, v_t, d.0, d.1, d.2)
    &&& well_shaped(matrix, d.0, d.1, d.2)
    &&& descending(d.1@)
    &&& unsigned(d.1@)
    &&& d.0.all_finite()
    &&& d.1.all_finite()
    &&& d.2.all_finite()
}

/// Checks a matrix before it goes to the kernel and says how the kernel is to
/// be run on it. A matrix without rows or columns, or with a cell that is not
/// finite, is rejected.
pub fn prepare(matrix: &Matrix) -> (r: Result<Plan, SvdError>)
    ensures
        r.is_ok() <==> valid_input(*matrix),
        r matches Err(e) ==> e == SvdError::InvalidInput,
        r matches Ok(plan) ==> plan.max_iterations == iteration_cap(
            rank_bound(matrix.height(), matrix.width()),
        ) && plan.tolerance == TOLERANCE,
{
    let (rows, cols) = matrix.shape();
    if rows == 0 || cols == 0 || !matrix.is_finite() {
        return Err(SvdError::InvalidInput);
    }
    let k = if rows <= cols {
        rows
    } else {
        cols
    };
    let max_iterations = if k <= usize::MAX / SWEEPS_PER_VALUE {
        SWEEPS_PER_VALUE * k
    } else {
        usize::MAX
    };
    Ok(Plan { max_iterations, tolerance: TOLERANCE })
}

/// Brings factors that fit together into normal form: singular values
/// without sign and in descending order, equal values in the order in which
/// they came, with the columns of `U` and the rows of `Vᵗ` moved and negated
/// along with them.
pub fn normalize(u: Matrix, s: Vector, v_t: Matrix) -> (out: (Matrix, Vector, Matrix))
    requires
        conformable(u, s, v_t),
    ensures
        normalizes(u, s, v_t, out.0, out.1, out.2),
        descending(out.1@),
        unsigned(out.1@),
{
    let ghost u0 = u;
    let mut u = u;
    let mut v_t = v_t;
    let k = s.len();
    let mut mags: Vec<u64> = Vec::new();
    let mut j: usize = 0;
    while j < k
        invariant
            k == s@.len(),
            j <= k,
            u.height() == u0.height(),
            u.width() == u0.width(),
            u.width() == k,
            mags@.len() == j,
            forall|b: int| 0 <= b < j ==> #[trigger] mags@[b] == magnitude(s@[b]),
            forall|a: int, b: int|
                u0.has(a, b) ==> #[trigger] u.at(a, b) == (if b < j && is_negative(s@[b]) {
                    negated(u0.at(a, b))
                } else {
                    u0.at(a, b)
                }),
        decreases k - j,
    {
        let value = s.raw_get(j);
        if sign_negative(value) {
            u.negate_column(j);
        }
        mags.push(abs(value));
        j += 1;
    }
    assert(mags@ =~= magnitudes(s@));
    let order = stable_descending_order(&mags);
    let ghost signed = u;
    u.reorder_columns(&order);
    v_t.reorder_rows(&order);
    let mut sorted: Vec<u64> = Vec::new();
    let mut i: usize = 0;
    while i < k
        invariant
            k == mags@.len(),
            i <= k,
            is_stable_descending_order(order@, mags@),
            sorted@.len() == i,
            forall|b: int| 0 <= b < i ==> #[trigger] sorted@[b] == mags@[order@[b] as int],
        decreases k - i,
    {
        sorted.push(mags[order[i]]);
        i += 1;
    }
    let values = Vector::from_vec(sorted);
    proof {
        assert forall|a: int, b: int| 0 <= a <= b < values@.len() implies values@[a]
            >= values@[b] by {
            stable_descending_order_sorts(mags@, order@, a, b);
        }
        assert forall|b: int| 0 <= b < values@.len() implies !is_negative(#[trigger] values@[b]) by {
            magnitude_properties(s@[order@[b] as int]);
        }
        assert forall|a: int, b: int| u0.has(a, b) implies #[trigger] u.at(a, b) == (if is_negative(
            s@[order@[b] as int],
        ) {
            negated(u0.at(a, order@[b] as int))
        } else {
            u0.at(a, order@[b] as int)
        }) by {
            assert(signed.has(a, b));
            assert(u0.has(a, order@[b] as int));
        }
    }
    (u, values, v_t)
}

/// Tells whether the three factors fit together, so that the product
/// `U · diag(S) · Vᵗ` is defined.
pub fn can_reconstruct(u: &Matrix, s: &Vector, v_t: &Matrix) -> (r: bool)
    ensures
        r == conformable(*u, *s, *v_t),
{
    let k = s.len();
    u.ncols() == k && v_t.nrows() == k
}

/// The square matrix `diag(S)`: the items of `s` along the diagonal and zero
/// everywhere else. `None` when a matrix cannot hold that many cells.
pub fn diagonal(s: &Vector) -> (d: Option<Matrix>)
    ensures
        d.is_some() <==> s@.len() * s@.len() <= max_cells(),
        d matches Some(m) ==> m.height() == s@.len() && m.width() == s@.len() && forall|
            a: int,
            b: int,
        | m.has(a, b) ==> #[trigger] m.at(a, b) == (if a == b {
            s@[a]
        } else {
            ZERO
        }),
{
    let k = s.len();
    match Matrix::zeros(k, k) {
        None => None,
        Some(zeros) => {
            let mut m = zeros;
            let mut i: usize = 0;
            while i < k
                invariant
                    k == s@.len(),
                    i <= k,
                    m.height() == k,
                    m.width() == k,
                    forall|a: int, b: int|
                        m.has(a, b) ==> #[trigger] m.at(a, b) == (if a == b && a < i {
                            s@[a]
                        } else {
                            ZERO
                        }),
                decreases k - i,
            {
                m.raw_set(i, i, s.raw_get(i));
                i += 1;
            }
            Some(m)
        },
    }
}

/// Makes the decomposition of `matrix` out of the kernel's `outcome` for it,
/// which is `None` where the kernel gave up and holds the factors where it
/// converged.
///
/// The result is the normal form of the factors. It is owed whenever the
/// matrix is valid, the kernel converged and returned both `U` and `Vᵗ`, the
/// three factors have the shapes that belong to the matrix, and all their
/// cells are finite; in every other case the error says which of these
/// failed first.
pub fn decompose(matrix: &Matrix, outcome: Option<Factors>) -> (r: Result<
    (Matrix, Vector, Matrix),
    SvdError,
>)
    ensures
        r matches Err(e) ==> failure(*matrix, outcome) == Some(e),
        r matches Ok(d) ==> failure(*matrix, outcome) is None && decomposes(*matrix, outcome, d),
{
    let (rows, cols) = matrix.shape();
    if rows == 0 || cols == 0 || !matrix.is_finite() {
        return Err(SvdError::InvalidInput);
    }
    let factors = match outcome {
        None => {
            return Err(SvdError::NonConvergence);
        },
        Some(factors) => factors,
    };
    let Factors { u, v_t, singular_values } = factors;
    let (u, v_t) = match (u, v_t) {
        (Some(u), Some(v_t)) => (u, v_t),
        _ => {
            return Err(SvdError::MissingFactor);
        },
    };
    let k = if rows <= cols {
        rows
    } else {
        cols
    };
    if u.nrows() != rows || u.ncols() != k || singular_values.len() != k || v_t.nrows() != k
        || v_t.ncols() != cols {
        return Err(SvdError::DimensionMismatch);
    }
    if !(u.is_finite() && singular_values.is_finite() && v_t.is_finite()) {
        return Err(SvdError::NonFiniteResult);
    }
    let ghost order = stable_descending_order_of(magnitudes(singular_values@));
    let out = normalize(u, singular_values, v_t);
    proof {
        assert forall|a: int, b: int| out.0.has(a, b) implies is_finite(#[trigger] out.0.at(a, b)) by {
            assert(u.has(a, b));
            assert(u.has(a, order[b] as int));
            negated_properties(u.at(a, order[b] as int));
        }
        assert forall|i: int| 0 <= i < out.1@.len() implies is_finite(#[trigger] out.1@[i]) by {
            magnitude_properties(singular_values@[order[i] as int]);
        }
        assert forall|a: int, b: int| out.2.has(a, b) implies is_finite(#[trigger] out.2.at(a, b)) by {
            assert(v_t.has(a, b));
            assert(v_t.has(order[a] as int, b));
        }
    }
    Ok(out)
}

/// Makes the decomposition `(U, S, Vᵗ)` of `matrix` out of what the kernel
/// returned for it, in normal form; `None` wherever `decompose` reports an
/// error.
pub fn perform_svd(matrix: &Matrix, outcome: Option<Factors>) -> (r: Option<
    (Matrix, Vector, Matrix),
>)
    ensures
        r.is_some() <==> failure(*matrix, outcome) is None,
        r matches Some(d) ==> decomposes(*matrix, outcome, d),
{
    match decompose(matrix, outcome) {
        Ok(d) => Some(d),
        Err(_) => None,
    }
}

/// Singular values without sign whose patterns stand in descending order
/// are in descending order as numbers, and none is below zero.
pub proof fn unsigned_descending_is_numeric(s: Seq<u64>, i: int, j: int)
    requires
        descending(s),
        unsigned(s),
        0 <= i <= j < s.len(),
    ensures
        scaled_value(s[i]) >= scaled_value(s[j]) >= 0,
{
    magnitude_properties(s[i]);
    magnitude_properties(s[j]);
    magnitudes_order_as_numbers(s[j], s[i]);
}

/// Factors whose singular values have no sign and stand in descending order
/// are their own normal form: normalising them moves and negates nothing.
pub proof fn normal_form_is_fixed(
    u: Matrix,
    s: Vector,
    v_t: Matrix,
    nu: Matrix,
    ns: Vector,
    nv_t: Matrix,
)
    requires
        conformable(u, s, v_t),
        descending(s@),
        unsigned(s@),
        normalizes(u, s, v_t, nu, ns, nv_t),
    ensures
        nu.same_as(&u),
        ns@ == s@,
        nv_t.same_as(&v_t),
{
    let mags = magnitudes(s@);
    assert forall|i: int| 0 <= i < s@.len() implies mags[i] == s@[i] by {
        magnitude_properties(s@[i]);
    }
    assert(mags =~= s@);
    let order = stable_descending_order_of(mags);
    let identity = Seq::new(s@.len(), |i: int| i as usize);
    assert forall|i: int| 0 <= i < s@.len() implies #[trigger] identity[i] == i by {
        stable_descending_order_is_permutation(mags, order);
        let m = place_in_permutation(order, i);
        assert(order[m] == i);
    }
    assert(is_stable_descending_order(identity, mags));
    stable_descending_order_is_unique(mags, identity, order);
    assert forall|i: int| 0 <= i < s@.len() implies ns@[i] == s@[i] by {
        assert(identity[i] == i);
    }
    assert(ns@ =~= s@);
    assert forall|a: int, b: int| nu.has(a, b) implies #[trigger] nu.at(a, b) == u.at(a, b) by {
        assert(u.has(a, b));
        assert(identity[b] == b);
    }
    assert forall|a: int, b: int| nv_t.has(a, b) implies #[trigger] nv_t.at(a, b) == v_t.at(a, b) by {
        assert(v_t.has(a, b));
        assert(identity[a] == a);
    }
}

/// The tolerance encodes five times the machine epsilon: in units of
/// `2⁻¹⁰⁷⁴` it is `5 · 2¹⁰²²`, which is `5 · 2⁻⁵²`.
pub proof fn tolerance_is_five_epsilons()
    ensures
        is_finite(TOLERANCE),
        scaled_value(TOLERANCE) == 5 * pow2(1022),
{
    assert((TOLERANCE >> 52) & 0x7ff == 973 && TOLERANCE & FRACTION_MASK == 0x4_0000_0000_0000
        && TOLERANCE & SIGN_MASK == 0 && (TOLERANCE & MAGNITUDE_MASK) < INFINITY) by (bit_vector);
    lemma2_to64_rest();
    lemma_pow2_adds(50, 972);
    let p = pow2(972) as int;
    assert((HIDDEN_BIT + 0x4_0000_0000_0000) * p == 5 * (0x4_0000_0000_0000 * p)) by (nonlinear_arith);
}

} // verus!
