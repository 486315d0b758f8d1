//! Specification-level model of square matrices and the randomized
//! product check.
//!
//! Matrices are sequences of rows of integer representatives. The circuit
//! computes its sums in the field, reducing after every step; `dot_mod`
//! mirrors that computation exactly, while `dot_int` is the plain integer
//! sum that the algebraic lemmas reason about.

use vstd::prelude::*;
use vstd::arithmetic::div_mod::{
    lemma_add_mod_noop, lemma_mod_twice, lemma_mul_mod_noop_general,
};
use crate::field::{fadd, fmul, fq_modulus};

verus! {

/// An `n` by `n` grid of integer entries.
pub open spec fn is_square(m: Seq<Seq<int>>, n: int) -> bool {
    m.len() == n && (forall|i: int| 0 <= i < n ==> (#[trigger] m[i]).len() == n)
}

/// Field dot product of the first `j` entries of `row` and `v`, reduced
/// after every addition and multiplication, as the circuit computes it.
pub open spec fn dot_mod(row: Seq<int>, v: Seq<int>, j: int) -> int
    decreases j,
{
    if j <= 0 {
        0
    } else {
        fadd(dot_mod(row, v, j - 1), fmul(row[j - 1], v[j - 1]))
    }
}

/// Plain integer dot product of the first `j` entries of `row` and `v`.
pub open spec fn dot_int(row: Seq<int>, v: Seq<int>, j: int) -> int
    decreases j,
{
    if j <= 0 {
        0
    } else {
        dot_int(row, v, j - 1) + row[j - 1] * v[j - 1]
    }
}

/// The reduced dot product is the reduction of the integer dot product.
pub proof fn lemma_dot_mod_is_dot_int(row: Seq<int>, v: Seq<int>, j: int)
    ensures
        dot_mod(row, v, j) == dot_int(row, v, j) % fq_modulus(),
    decreases j,
{
    let p = fq_modulus();
    if j <= 0 {
        assert(0int % p == 0) by (nonlinear_arith)
            requires p > 0;
    } else {
        lemma_dot_mod_is_dot_int(row, v, j - 1);
        let t = row[j - 1] * v[j - 1];
        lemma_mod_twice(t, p);
        lemma_add_mod_noop(dot_int(row, v, j - 1), t, p);
    }
}

/// Replacing the vector by a congruent one keeps the dot product congruent.
pub proof fn lemma_dot_int_congruent_vec(row: Seq<int>, v1: Seq<int>, v2: Seq<int>, j: int)
    requires
        forall|l: int| 0 <= l < j ==> #[trigger] (v1[l] % fq_modulus()) == v2[l] % fq_modulus(),
    ensures
        dot_int(row, v1, j) % fq_modulus() == dot_int(row, v2, j) % fq_modulus(),
    decreases j,
{
    let p = fq_modulus();
    if j > 0 {
        lemma_dot_int_congruent_vec(row, v1, v2, j - 1);
        lemma_mul_mod_noop_general(row[j - 1], v1[j - 1], p);
        lemma_mul_mod_noop_general(row[j - 1], v2[j - 1], p);
        assert(row[j - 1] * v1[j - 1] % p == row[j - 1] * v2[j - 1] % p);
        lemma_add_mod_noop(dot_int(row, v1, j - 1), row[j - 1] * v1[j - 1], p);
        lemma_add_mod_noop(dot_int(row, v2, j - 1), row[j - 1] * v2[j - 1], p);
    }
}

/// Replacing the row by a congruent one keeps the dot product congruent.
pub proof fn lemma_dot_int_congruent_row(r1: Seq<int>, r2: Seq<int>, v: Seq<int>, j: int)
    requires
        forall|l: int| 0 <= l < j ==> #[trigger] (r1[l] % fq_modulus()) == r2[l] % fq_modulus(),
    ensures
        dot_int(r1, v, j) % fq_modulus() == dot_int(r2, v, j) % fq_modulus(),
    decreases j,
{
    let p = fq_modulus();
    if j > 0 {
        lemma_dot_int_congruent_row(r1, r2, v, j - 1);
        lemma_mul_mod_noop_general(r1[j - 1], v[j - 1], p);
        lemma_mul_mod_noop_general(r2[j - 1], v[j - 1], p);
        assert(r1[j - 1] * v[j - 1] % p == r2[j - 1] * v[j - 1] % p);
        lemma_add_mod_noop(dot_int(r1, v, j - 1), r1[j - 1] * v[j - 1], p);
        lemma_add_mod_noop(dot_int(r2, v, j - 1), r2[j - 1] * v[j - 1], p);
    }
}

/// A row of all zeros has a zero dot product.
pub proof fn lemma_dot_int_zero_row(row: Seq<int>, v: Seq<int>, j: int)
    requires
        forall|l: int| 0 <= l < j ==> #[trigger] row[l] == 0,
    ensures
        dot_int(row, v, j) == 0,
    decreases j,
{
    if j > 0 {
        lemma_dot_int_zero_row(row, v, j - 1);
        assert(row[j - 1] * v[j - 1] == 0) by (nonlinear_arith)
            requires row[j - 1] == 0;
    }
}

/// The dot product is additive in the row.
pub proof fn lemma_dot_int_add_row(r1: Seq<int>, r2: Seq<int>, r3: Seq<int>, v: Seq<int>, j: int)
    requires
        forall|l: int| 0 <= l < j ==> #[trigger] r3[l] == r1[l] + r2[l],
    ensures
        dot_int(r3, v, j) == dot_int(r1, v, j) + dot_int(r2, v, j),
    decreases j,
{
    if j > 0 {
        lemma_dot_int_add_row(r1, r2, r3, v, j - 1);
        assert(r3[j - 1] * v[j - 1] == r1[j - 1] * v[j - 1] + r2[j - 1] * v[j - 1])
            by (nonlinear_arith)
            requires r3[j - 1] == r1[j - 1] + r2[j - 1];
    }
}

/// Scaling the row scales the dot product.
pub proof fn lemma_dot_int_scale_row(s: Seq<int>, w: Seq<int>, c: int, v: Seq<int>, j: int)
    requires
        forall|l: int| 0 <= l < j ==> #[trigger] s[l] == c * w[l],
    ensures
        dot_int(s, v, j) == c * dot_int(w, v, j),
    decreases j,
{
    if j <= 0 {
        assert(c * 0 == 0) by (nonlinear_arith);
    } else {
        lemma_dot_int_scale_row(s, w, c, v, j - 1);
        assert(c * dot_int(w, v, j - 1) + (c * w[j - 1]) * v[j - 1]
            == c * (dot_int(w, v, j - 1) + w[j - 1] * v[j - 1])) by (nonlinear_arith);
    }
}

/// Entry `(i, l)` of the matrix product `a * b`, summing the first `j` terms.
pub open spec fn product_entry(a: Seq<Seq<int>>, b: Seq<Seq<int>>, i: int, l: int, j: int) -> int
    decreases j,
{
    if j <= 0 {
        0
    } else {
        product_entry(a, b, i, l, j - 1) + a[i][j - 1] * b[j - 1][l]
    }
}

/// Row `i` of the product of the first `j` rows of `b` with `a`.
pub open spec fn product_row(a: Seq<Seq<int>>, b: Seq<Seq<int>>, i: int, j: int, n: int) -> Seq<int> {
    Seq::new(n as nat, |l: int| product_entry(a, b, i, l, j))
}

/// The integer matrix-vector product of `b` and `v`.
pub open spec fn col_int(b: Seq<Seq<int>>, v: Seq<int>, n: int) -> Seq<int> {
    Seq::new(n as nat, |j: int| dot_int(b[j], v, n))
}

/// Interchange of summation: dotting row `i` of `a` with the vector
/// `b * v` equals dotting row `i` of the product `a * b` with `v`.
pub proof fn lemma_dot_int_swap(a: Seq<Seq<int>>, b: Seq<Seq<int>>, v: Seq<int>, i: int, j: int, n: int)
    requires
        0 <= j <= n,
    ensures
        dot_int(a[i], col_int(b, v, n), j) == dot_int(product_row(a, b, i, j, n), v, n),
    decreases j,
{
    if j <= 0 {
        lemma_dot_int_zero_row(product_row(a, b, i, j, n), v, n);
    } else {
        lemma_dot_int_swap(a, b, v, i, j - 1, n);
        // the j-th term of the left side: a[i][j-1] * (b[j-1] . v)
        let scaled = Seq::new(n as nat, |l: int| a[i][j - 1] * b[j - 1][l]);
        lemma_dot_int_scale_row(scaled, b[j - 1], a[i][j - 1], v, n);
        // row j of the partial product is row j-1 plus the scaled row of b
        lemma_dot_int_add_row(product_row(a, b, i, j - 1, n), scaled, product_row(a, b, i, j, n), v, n);
    }
}

} // verus!
