//! The challenge transcript and the per-round product check.
//!
//! Challenges are drawn from a sponge transcript: the history of every
//! value absorbed and every squeeze performed so far. `squeeze_value`
//! names the field element the Poseidon sponge yields for a given
//! history; the library states nothing about the element itself beyond
//! its determinism, which is exactly what the Fiat-Shamir transform
//! requires.

use vstd::prelude::*;
use crate::field::{fmul, fq_modulus, lemma_fadd_zero, lemma_field_ops_in_field};
use crate::matrix::{
    col_int, dot_int, dot_mod, lemma_dot_int_congruent_row,
    lemma_dot_int_congruent_vec, lemma_dot_int_swap, lemma_dot_mod_is_dot_int,
    product_entry, product_row,
};

verus! {

/// The field element the Poseidon sponge squeezes after a given
/// absorb/squeeze history. Left uninterpreted: the library relies only
/// on the value being a pure function of the history.
pub uninterp spec fn squeeze_value(history: Seq<int>) -> int;

/// The entry recorded in the history for a squeeze. Absorbed entries are
/// field representatives, so they are never negative and never collide
/// with the marker.
pub open spec fn squeeze_marker() -> int {
    -1
}

/// The history left by `q` squeezes in a row.
pub open spec fn markers(q: nat) -> Seq<int> {
    Seq::new(q, |x: int| squeeze_marker())
}

/// The challenge drawn by squeeze number `q` (counted from zero) after
/// the initial absorptions `init`.
pub open spec fn challenge(init: Seq<int>, q: nat) -> int {
    squeeze_value(init + markers(q))
}

/// The length-`n` challenge vector of round `t`.
pub open spec fn round_vector(init: Seq<int>, t: int, n: int) -> Seq<int> {
    Seq::new(n as nat, |j: int| challenge(init, (t * n + j) as nat))
}

/// The length-`n` block of challenges starting at squeeze number `q`.
pub open spec fn challenge_block(init: Seq<int>, q: nat, n: int) -> Seq<int> {
    Seq::new(n as nat, |j: int| challenge(init, (q + j) as nat))
}

/// The first `i` rows of a matrix, joined end to end in row order.
pub open spec fn rows_concat(m: Seq<Seq<int>>, i: int) -> Seq<int>
    decreases i,
{
    if i <= 0 {
        Seq::empty()
    } else {
        rows_concat(m, i - 1) + m[i - 1]
    }
}

/// The absorption history the builder leaves before the first squeeze:
/// every entry of `a`, then of `b`, then of `c`, each row-major.
pub open spec fn initial_transcript(
    a: Seq<Seq<int>>,
    b: Seq<Seq<int>>,
    c: Seq<Seq<int>>,
    n: int,
) -> Seq<int> {
    rows_concat(a, n) + rows_concat(b, n) + rows_concat(c, n)
}

/// The vector `b * r`, computed with a field reduction after every step,
/// as the circuit computes it.
pub open spec fn col_mod(b: Seq<Seq<int>>, r: Seq<int>, n: int) -> Seq<int> {
    Seq::new(n as nat, |i: int| dot_mod(b[i], r, n))
}

/// One round of the randomized check with challenge vector `r`:
/// `a * (b * r) == c * r` entry by entry, over the field.
pub open spec fn round_ok(
    a: Seq<Seq<int>>,
    b: Seq<Seq<int>>,
    c: Seq<Seq<int>>,
    r: Seq<int>,
    n: int,
) -> bool {
    forall|i: int| 0 <= i < n ==> dot_mod(#[trigger] a[i], col_mod(b, r, n), n) == dot_mod(c[i], r, n)
}

/// All `k` rounds of the check pass, with the challenge vectors that the
/// transcript `init` determines.
pub open spec fn freivalds_ok(
    a: Seq<Seq<int>>,
    b: Seq<Seq<int>>,
    c: Seq<Seq<int>>,
    init: Seq<int>,
    k: int,
    n: int,
) -> bool {
    forall|t: int| 0 <= t < k ==> round_ok(a, b, c, #[trigger] round_vector(init, t, n), n)
}

/// `c` and the product `a * b` agree as field matrices.
pub open spec fn product_matches(a: Seq<Seq<int>>, b: Seq<Seq<int>>, c: Seq<Seq<int>>, n: int) -> bool {
    forall|i: int, l: int| 0 <= i < n && 0 <= l < n ==>
        (#[trigger] c[i][l]) % fq_modulus() == product_entry(a, b, i, l, n) % fq_modulus()
}

/// Completeness of one round: when `c` is the product of `a` and `b`,
/// the randomized check passes whatever the challenge vector is.
pub proof fn lemma_round_complete(
    a: Seq<Seq<int>>,
    b: Seq<Seq<int>>,
    c: Seq<Seq<int>>,
    r: Seq<int>,
    n: int,
)
    requires
        n >= 0,
        product_matches(a, b, c, n),
    ensures
        round_ok(a, b, c, r, n),
{
    let p = fq_modulus();
    assert forall|i: int| 0 <= i < n implies
        dot_mod(#[trigger] a[i], col_mod(b, r, n), n) == dot_mod(c[i], r, n) by {
        let brm = col_mod(b, r, n);
        let bri = col_int(b, r, n);
        lemma_dot_mod_is_dot_int(a[i], brm, n);
        // the reduced vector b * r is congruent to the integer one
        assert forall|l: int| 0 <= l < n implies
            #[trigger] (brm[l] % p) == bri[l] % p by {
            lemma_dot_mod_is_dot_int(b[l], r, n);
            vstd::arithmetic::div_mod::lemma_mod_twice(dot_int(b[l], r, n), p);
        }
        lemma_dot_int_congruent_vec(a[i], brm, bri, n);
        lemma_dot_int_swap(a, b, r, i, n, n);
        // row i of the product is congruent to row i of c
        let abrow = product_row(a, b, i, n, n);
        assert forall|l: int| 0 <= l < n implies
            #[trigger] (abrow[l] % p) == c[i][l] % p by {
            assert(c[i][l] % p == product_entry(a, b, i, l, n) % p);
        }
        lemma_dot_int_congruent_row(abrow, c[i], r, n);
        lemma_dot_mod_is_dot_int(c[i], r, n);
    }
}

/// Completeness: when `c` is the product of `a` and `b` over the field,
/// every round of the built check passes, for any round count and any
/// transcript, so the constraint system is satisfied.
pub proof fn lemma_freivalds_complete(
    a: Seq<Seq<int>>,
    b: Seq<Seq<int>>,
    c: Seq<Seq<int>>,
    init: Seq<int>,
    k: int,
    n: int,
)
    requires
        n >= 0,
        product_matches(a, b, c, n),
    ensures
        freivalds_ok(a, b, c, init, k, n),
{
    assert forall|t: int| 0 <= t < k implies
        round_ok(a, b, c, #[trigger] round_vector(init, t, n), n) by {
        lemma_round_complete(a, b, c, round_vector(init, t, n), n);
    }
}

/// Raising the round count only adds checks: a system satisfied with
/// `k2` rounds is satisfied with any smaller round count, and a system
/// unsatisfied with `k1` rounds stays unsatisfied with any larger one.
pub proof fn lemma_round_count_monotonic(
    a: Seq<Seq<int>>,
    b: Seq<Seq<int>>,
    c: Seq<Seq<int>>,
    init: Seq<int>,
    k1: int,
    k2: int,
    n: int,
)
    requires
        0 <= k1 <= k2,
    ensures
        freivalds_ok(a, b, c, init, k2, n) ==> freivalds_ok(a, b, c, init, k1, n),
        !freivalds_ok(a, b, c, init, k1, n) ==> !freivalds_ok(a, b, c, init, k2, n),
{
}

/// Every entry of the matrix is zero.
pub open spec fn all_zero(m: Seq<Seq<int>>, n: int) -> bool {
    forall|i: int, l: int| 0 <= i < n && 0 <= l < n ==> #[trigger] m[i][l] == 0
}

/// The matrix is the identity: ones on the diagonal, zeros elsewhere.
pub open spec fn is_identity(m: Seq<Seq<int>>, n: int) -> bool {
    forall|i: int, l: int|
        0 <= i < n && 0 <= l < n ==> #[trigger] m[i][l] == if i == l {
            1int
        } else {
            0int
        }
}

/// A product with an all-zero right factor is zero entrywise.
proof fn lemma_product_entry_zero(a: Seq<Seq<int>>, b: Seq<Seq<int>>, i: int, l: int, j: int, n: int)
    requires
        all_zero(b, n),
        0 <= l < n,
        0 <= j <= n,
    ensures
        product_entry(a, b, i, l, j) == 0,
    decreases j,
{
    if j > 0 {
        lemma_product_entry_zero(a, b, i, l, j - 1, n);
        assert(a[i][j - 1] * b[j - 1][l] == 0) by (nonlinear_arith)
            requires b[j - 1][l] == 0;
    }
}

/// A product with the identity as right factor reproduces the left
/// factor: the partial sum picks up `a[i][l]` exactly when it passes
/// column `l`.
proof fn lemma_product_entry_identity(
    a: Seq<Seq<int>>,
    b: Seq<Seq<int>>,
    i: int,
    l: int,
    j: int,
    n: int,
)
    requires
        is_identity(b, n),
        0 <= l < n,
        0 <= j <= n,
    ensures
        product_entry(a, b, i, l, j) == if j > l {
            a[i][l]
        } else {
            0int
        },
    decreases j,
{
    if j > 0 {
        lemma_product_entry_identity(a, b, i, l, j - 1, n);
        if j - 1 == l {
            assert(a[i][j - 1] * b[j - 1][l] == a[i][l]) by (nonlinear_arith)
                requires b[j - 1][l] == 1, j - 1 == l;
        } else {
            assert(a[i][j - 1] * b[j - 1][l] == 0) by (nonlinear_arith)
                requires b[j - 1][l] == 0;
        }
    }
}

/// An all-zero `b` with an all-zero `c` passes every round of the check,
/// whatever `a` holds: `a * 0 == 0`.
pub proof fn lemma_zero_product_ok(
    a: Seq<Seq<int>>,
    b: Seq<Seq<int>>,
    c: Seq<Seq<int>>,
    init: Seq<int>,
    k: int,
    n: int,
)
    requires
        n >= 0,
        all_zero(b, n),
        all_zero(c, n),
    ensures
        freivalds_ok(a, b, c, init, k, n),
{
    assert forall|i: int, l: int|
        0 <= i < n && 0 <= l < n implies (#[trigger] c[i][l]) % fq_modulus() == product_entry(
        a,
        b,
        i,
        l,
        n,
    ) % fq_modulus() by {
        lemma_product_entry_zero(a, b, i, l, n, n);
    }
    lemma_freivalds_complete(a, b, c, init, k, n);
}

/// An identity `b` with `c` equal to `a` passes every round of the
/// check: `a * 1 == a`.
pub proof fn lemma_identity_product_ok(
    a: Seq<Seq<int>>,
    b: Seq<Seq<int>>,
    c: Seq<Seq<int>>,
    init: Seq<int>,
    k: int,
    n: int,
)
    requires
        n >= 0,
        is_identity(b, n),
        forall|i: int, l: int| 0 <= i < n && 0 <= l < n ==> #[trigger] c[i][l] == a[i][l],
    ensures
        freivalds_ok(a, b, c, init, k, n),
{
    assert forall|i: int, l: int|
        0 <= i < n && 0 <= l < n implies (#[trigger] c[i][l]) % fq_modulus() == product_entry(
        a,
        b,
        i,
        l,
        n,
    ) % fq_modulus() by {
        lemma_product_entry_identity(a, b, i, l, n, n);
    }
    lemma_freivalds_complete(a, b, c, init, k, n);
}

/// With dimension one the round check degenerates, with no special
/// casing, to the scalar product check `a * (b * r) == c * r`.
pub proof fn lemma_scalar_dimension(a: Seq<Seq<int>>, b: Seq<Seq<int>>, c: Seq<Seq<int>>, r: Seq<int>)
    requires
        a.len() >= 1,
        b.len() >= 1,
        c.len() >= 1,
        r.len() >= 1,
    ensures
        round_ok(a, b, c, r, 1) <==> fmul(a[0][0], fmul(b[0][0], r[0])) == fmul(c[0][0], r[0]),
{
    reveal_with_fuel(dot_mod, 3);
    let brm = col_mod(b, r, 1);
    lemma_field_ops_in_field(b[0][0], r[0]);
    lemma_fadd_zero(fmul(b[0][0], r[0]));
    assert(brm[0] == fmul(b[0][0], r[0]));
    lemma_field_ops_in_field(a[0][0], brm[0]);
    lemma_fadd_zero(fmul(a[0][0], brm[0]));
    lemma_field_ops_in_field(c[0][0], r[0]);
    lemma_fadd_zero(fmul(c[0][0], r[0]));
    assert(dot_mod(a[0], brm, 1) == fmul(a[0][0], fmul(b[0][0], r[0])));
    assert(dot_mod(c[0], r, 1) == fmul(c[0][0], r[0]));
    if dot_mod(a[0], brm, 1) == dot_mod(c[0], r, 1) {
        assert forall|i: int| 0 <= i < 1 implies dot_mod(#[trigger] a[i], col_mod(b, r, 1), 1)
            == dot_mod(c[i], r, 1) by {
            assert(i == 0);
        }
    }
}

} // verus!
