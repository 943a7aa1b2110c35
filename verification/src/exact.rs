//! The products of the factors in exact arithmetic.
//!
//! The kernel works in binary64 arithmetic, which rounds. What it is judged by
//! are quantities of exact arithmetic: the entries of `U · diag(S) · Vᵗ`, and
//! the inner products of the columns of `U` and of the rows of `Vᵗ`. Since the
//! number that a finite pattern encodes is an integer in units of `2⁻¹⁰⁷⁴`,
//! these quantities are integers too, in units of a power of `2⁻¹⁰⁷⁴`, and can
//! be stated here. The laws of this module say that bringing factors into
//! normal form leaves them as the kernel made them.

use vstd::prelude::*;
use crate::binary64::{is_negative, scaled_value, magnitude_properties, negated_properties};
use crate::matrix::Matrix;
use crate::vector::Vector;
use crate::order::{is_permutation, place_in_permutation, stable_descending_order_of};
use crate::order::stable_descending_order_is_permutation;
use crate::svd::{conformable, magnitudes, normalizes};

verus! {

/// The sum of a sequence of integers.
pub open spec fn sum(xs: Seq<int>) -> int
    decreases xs.len(),
{
    if xs.len() == 0 {
        0
    } else {
        sum(xs.drop_last()) + xs.last()
    }
}

/// The share of singular value `t` in entry `(i, j)` of `U · diag(S) · Vᵗ`.
pub open spec fn product_term(u: Matrix, s: Vector, v_t: Matrix, i: int, j: int, t: int) -> int {
    scaled_value(u.at(i, t)) * scaled_value(s@[t]) * scaled_value(v_t.at(t, j))
}

/// Entry `(i, j)` of `U · diag(S) · Vᵗ`.
pub open spec fn product_entry(u: Matrix, s: Vector, v_t: Matrix, i: int, j: int) -> int {
    sum(Seq::new(s@.len(), |t: int| product_term(u, s, v_t, i, j, t)))
}

/// The inner product of columns `a` and `b` of a matrix: entry `(a, b)` of
/// `UᵗU`.
pub open spec fn column_product(u: Matrix, a: int, b: int) -> int {
    sum(Seq::new(u.height(), |r: int| scaled_value(u.at(r, a)) * scaled_value(u.at(r, b))))
}

/// The inner product of rows `a` and `b` of a matrix: entry `(a, b)` of
/// `Vᵗ V`.
pub open spec fn row_product(v_t: Matrix, a: int, b: int) -> int {
    sum(Seq::new(v_t.width(), |c: int| scaled_value(v_t.at(a, c)) * scaled_value(v_t.at(b, c))))
}

/// Taking one item out of a sequence takes it out of the sum.
proof fn sum_without(xs: Seq<int>, m: int)
    requires
        0 <= m < xs.len(),
    ensures
        sum(xs) == sum(xs.remove(m)) + xs[m],
    decreases xs.len(),
{
    if m == xs.len() - 1 {
        assert(xs.remove(m) =~= xs.drop_last());
    } else {
        sum_without(xs.drop_last(), m);
        assert(xs.remove(m).drop_last() =~= xs.drop_last().remove(m));
    }
}

/// Negating every item negates the sum.
proof fn sum_negated(xs: Seq<int>, ys: Seq<int>)
    requires
        xs.len() == ys.len(),
        forall|i: int| 0 <= i < xs.len() ==> ys[i] == -xs[i],
    ensures
        sum(ys) == -sum(xs),
    decreases xs.len(),
{
    if xs.len() > 0 {
        sum_negated(xs.drop_last(), ys.drop_last());
    }
}

/// A sum does not depend on the order of its terms: summing `f` over the
/// entries of a permutation is summing it over the positions.
pub proof fn sum_over_permutation(f: spec_fn(int) -> int, p: Seq<usize>)
    requires
        is_permutation(p),
    ensures
        sum(Seq::new(p.len(), |t: int| f(p[t] as int))) == sum(Seq::new(p.len(), |t: int| f(t))),
    decreases p.len(),
{
    if p.len() > 0 {
        let k = p.len();
        let last = k - 1;
        let m = place_in_permutation(p, last);
        let q = p.remove(m);
        assert forall|i: int| 0 <= i < q.len() implies (#[trigger] q[i]) < q.len() by {
            if i < m {
                assert(q[i] == p[i]);
                assert(p[i] != p[m]);
            } else {
                assert(q[i] == p[i + 1]);
                assert(p[m] != p[i + 1]);
            }
        }
        assert forall|i: int, j: int| 0 <= i < j < q.len() implies q[i] != q[j] by {
            let pi = if i < m {
                i
            } else {
                i + 1
            };
            let pj = if j < m {
                j
            } else {
                j + 1
            };
            assert(q[i] == p[pi] && q[j] == p[pj]);
            assert(p[pi] != p[pj]);
        }
        sum_over_permutation(f, q);
        let moved = Seq::new(k, |t: int| f(p[t] as int));
        let plain = Seq::new(k, |t: int| f(t));
        sum_without(moved, m);
        assert(moved.remove(m) =~= Seq::new(q.len(), |t: int| f(q[t] as int)));
        assert(plain.drop_last() =~= Seq::new(q.len(), |t: int| f(t)));
    }
}

/// Bringing factors into normal form leaves every entry of the product
/// `U · diag(S) · Vᵗ` as it was: a singular value is negated together with
/// its column of `U`, and moved together with its column of `U` and its row
/// of `Vᵗ`.
pub proof fn normal_form_keeps_product(
    u: Matrix,
    s: Vector,
    v_t: Matrix,
    nu: Matrix,
    ns: Vector,
    nv_t: Matrix,
    i: int,
    j: int,
)
    requires
        conformable(u, s, v_t),
        normalizes(u, s, v_t, nu, ns, nv_t),
        0 <= i < u.height(),
        0 <= j < v_t.width(),
    ensures
        product_entry(nu, ns, nv_t, i, j) == product_entry(u, s, v_t, i, j),
{
    let k = s@.len();
    let order = stable_descending_order_of(magnitudes(s@));
    stable_descending_order_is_permutation(magnitudes(s@), order);
    let f = |t: int| product_term(u, s, v_t, i, j, t);
    sum_over_permutation(f, order);
    let after = Seq::new(k, |t: int| product_term(nu, ns, nv_t, i, j, t));
    let moved = Seq::new(k, |t: int| f(order[t] as int));
    assert forall|t: int| 0 <= t < k implies after[t] == moved[t] by {
        let from = order[t] as int;
        assert(u.has(i, t) && v_t.has(t, j));
        assert(nu.at(i, t) == if is_negative(s@[from]) {
            crate::binary64::negated(u.at(i, from))
        } else {
            u.at(i, from)
        });
        assert(nv_t.at(t, j) == v_t.at(from, j));
        magnitude_properties(s@[from]);
        negated_properties(u.at(i, from));
        let a = scaled_value(u.at(i, from));
        let b = scaled_value(s@[from]);
        let c = scaled_value(v_t.at(from, j));
        assert((-a) * (-b) * c == a * b * c) by (nonlinear_arith);
    }
    assert(after =~= moved);
    assert(after =~= Seq::new(ns@.len(), |t: int| product_term(nu, ns, nv_t, i, j, t)));
    assert(moved =~= Seq::new(order.len(), |t: int| f(order[t] as int)));
    assert(Seq::new(order.len(), |t: int| f(t)) =~= Seq::new(
        s@.len(),
        |t: int| product_term(u, s, v_t, i, j, t),
    ));
}

/// Bringing factors into normal form leaves the inner products of the
/// columns of `U` as they were, up to the signs of the two columns: the
/// product of columns `a` and `b` afterwards is that of the columns they came
/// from, negated where exactly one of the two was negated. So columns of
/// length one keep their length, and columns at right angles stay so.
pub proof fn normal_form_keeps_column_products(
    u: Matrix,
    s: Vector,
    v_t: Matrix,
    nu: Matrix,
    ns: Vector,
    nv_t: Matrix,
    a: int,
    b: int,
)
    requires
        conformable(u, s, v_t),
        normalizes(u, s, v_t, nu, ns, nv_t),
        0 <= a < s@.len(),
        0 <= b < s@.len(),
    ensures
        ({
            let order = stable_descending_order_of(magnitudes(s@));
            let before = column_product(u, order[a] as int, order[b] as int);
            column_product(nu, a, b) == if is_negative(s@[order[a] as int]) != is_negative(
                s@[order[b] as int],
            ) {
                -before
            } else {
                before
            }
        }),
{
    let order = stable_descending_order_of(magnitudes(s@));
    let from_a = order[a] as int;
    let from_b = order[b] as int;
    let old_terms = Seq::new(
        u.height(),
        |r: int| scaled_value(u.at(r, from_a)) * scaled_value(u.at(r, from_b)),
    );
    let new_terms = Seq::new(
        nu.height(),
        |r: int| scaled_value(nu.at(r, a)) * scaled_value(nu.at(r, b)),
    );
    let flipped = is_negative(s@[from_a]) != is_negative(s@[from_b]);
    assert forall|r: int| 0 <= r < u.height() implies new_terms[r] == if flipped {
        -old_terms[r]
    } else {
        old_terms[r]
    } by {
        assert(u.has(r, a) && u.has(r, b));
        assert(nu.at(r, a) == if is_negative(s@[from_a]) {
            crate::binary64::negated(u.at(r, from_a))
        } else {
            u.at(r, from_a)
        });
        assert(nu.at(r, b) == if is_negative(s@[from_b]) {
            crate::binary64::negated(u.at(r, from_b))
        } else {
            u.at(r, from_b)
        });
        negated_properties(u.at(r, from_a));
        negated_properties(u.at(r, from_b));
        let x = scaled_value(u.at(r, from_a));
        let y = scaled_value(u.at(r, from_b));
        assert((-x) * (-y) == x * y && (-x) * y == -(x * y) && x * (-y) == -(x * y))
            by (nonlinear_arith);
    }
    if flipped {
        sum_negated(old_terms, new_terms);
    } else {
        assert(new_terms =~= old_terms);
    }
}

/// Bringing factors into normal form leaves the inner products of the rows
/// of `Vᵗ` as they were: the product of rows `a` and `b` afterwards is that
/// of the rows they came from.
pub proof fn normal_form_keeps_row_products(
    u: Matrix,
    s: Vector,
    v_t: Matrix,
    nu: Matrix,
    ns: Vector,
    nv_t: Matrix,
    a: int,
    b: int,
)
    requires
        conformable(u, s, v_t),
        normalizes(u, s, v_t, nu, ns, nv_t),
        0 <= a < s@.len(),
        0 <= b < s@.len(),
    ensures
        ({
            let order = stable_descending_order_of(magnitudes(s@));
            row_product(nv_t, a, b) == row_product(v_t, order[a] as int, order[b] as int)
        }),
{
    let order = stable_descending_order_of(magnitudes(s@));
    let from_a = order[a] as int;
    let from_b = order[b] as int;
    let old_terms = Seq::new(
        v_t.width(),
        |c: int| scaled_value(v_t.at(from_a, c)) * scaled_value(v_t.at(from_b, c)),
    );
    let new_terms = Seq::new(
        nv_t.width(),
        |c: int| scaled_value(nv_t.at(a, c)) * scaled_value(nv_t.at(b, c)),
    );
    assert forall|c: int| 0 <= c < v_t.width() implies new_terms[c] == old_terms[c] by {
        assert(v_t.has(a, c) && v_t.has(b, c));
        assert(nv_t.at(a, c) == v_t.at(from_a, c));
        assert(nv_t.at(b, c) == v_t.at(from_b, c));
    }
    assert(new_terms =~= old_terms);
}

} // verus!
