//! The circuit builder: allocation, absorption, the round engine, and
//! the public entry point.

use vstd::prelude::*;
use crate::circuit::{circuit_sat, circuit_transcript, circuit_vals, CircuitError, FreivaldsCircuit};
use crate::field::{fadd, fmul};
use crate::matrix::{dot_mod, is_square};
use crate::rounds::{
    challenge, challenge_block, col_mod, freivalds_ok, initial_transcript, markers,
    round_ok, round_vector, rows_concat, squeeze_marker, squeeze_value,
};

verus! {

/// An input grid as a matrix of integer entries.
pub open spec fn mat_view(m: Seq<Vec<u32>>) -> Seq<Seq<int>> {
    m.map_values(|row: Vec<u32>| row@.map_values(|x: u32| x as int))
}

/// The grid has `n` rows of `n` entries each.
pub open spec fn is_square_grid(m: Seq<Vec<u32>>, n: int) -> bool {
    m.len() == n && (forall|i: int| 0 <= i < n ==> (#[trigger] m[i])@.len() == n)
}

/// A square grid views as a square matrix.
proof fn lemma_mat_view_square(m: Seq<Vec<u32>>, n: int)
    requires
        is_square_grid(m, n),
    ensures
        is_square(mat_view(m), n),
{
    assert forall|i: int| 0 <= i < n implies (#[trigger] mat_view(m)[i]).len() == n by {
        assert(mat_view(m)[i] == m[i]@.map_values(|x: u32| x as int));
    }
}

/// The entries of matrix `m` are bound to the circuit variables whose
/// indices `idx` records, position by position.
pub open spec fn mat_bound(vals: Seq<int>, idx: Seq<Vec<usize>>, m: Seq<Seq<int>>, n: int) -> bool {
    &&& idx.len() == n
    &&& forall|i: int| 0 <= i < n ==> (#[trigger] idx[i])@.len() == n
    &&& forall|i: int, j: int|
        0 <= i < n && 0 <= j < n ==> (#[trigger] idx[i]@[j]) < vals.len()
            && vals[idx[i]@[j] as int] == m[i][j]
}

/// A prefix of a sequence is a prefix of any extension of it.
proof fn lemma_prefix_push(v1: Seq<int>, v2: Seq<int>, x: int)
    requires
        v1.is_prefix_of(v2),
    ensures
        v1.is_prefix_of(v2.push(x)),
{
    assert(v2.push(x).subrange(0, v1.len() as int) =~= v1);
}

/// A binding survives any extension of the variable list.
proof fn lemma_mat_bound_grows(
    v1: Seq<int>,
    v2: Seq<int>,
    idx: Seq<Vec<usize>>,
    m: Seq<Seq<int>>,
    n: int,
)
    requires
        mat_bound(v1, idx, m, n),
        v1.is_prefix_of(v2),
    ensures
        mat_bound(v2, idx, m, n),
{
    assert forall|i: int, j: int|
        0 <= i < n && 0 <= j < n implies (#[trigger] idx[i]@[j]) < v2.len()
            && v2[idx[i]@[j] as int] == m[i][j] by {
        assert(v1[idx[i]@[j] as int] == v2[idx[i]@[j] as int]);
    }
}

/// Allocates every entry of `m` as a fresh circuit variable, row-major,
/// as a public input when `public_input` is set and as a private witness
/// otherwise, and returns the variable index of each entry.
fn alloc_matrix(
    circ: &mut FreivaldsCircuit,
    m: &Vec<Vec<u32>>,
    n: usize,
    public_input: bool,
) -> (r: Result<Vec<Vec<usize>>, CircuitError>)
    requires
        is_square_grid(m@, n as int),
    ensures
        r is Ok,
        circuit_vals(*old(circ)).is_prefix_of(circuit_vals(*final(circ))),
        circuit_transcript(*final(circ)) == circuit_transcript(*old(circ)),
        circuit_sat(*final(circ)) == circuit_sat(*old(circ)),
        r matches Ok(idx) ==> mat_bound(
            circuit_vals(*final(circ)),
            idx@,
            mat_view(m@),
            n as int,
        ),
{
    let ghost mv = mat_view(m@);
    let mut idx: Vec<Vec<usize>> = Vec::new();
    let mut i: usize = 0;
    while i < n
        invariant
            is_square_grid(m@, n as int),
            mv == mat_view(m@),
            i <= n,
            idx@.len() == i,
            circuit_vals(*old(circ)).is_prefix_of(circuit_vals(*circ)),
            circuit_transcript(*circ) == circuit_transcript(*old(circ)),
            circuit_sat(*circ) == circuit_sat(*old(circ)),
            forall|ii: int| 0 <= ii < i ==> (#[trigger] idx@[ii])@.len() == n,
            forall|ii: int, jj: int|
                0 <= ii < i && 0 <= jj < n ==> (#[trigger] idx@[ii]@[jj])
                    < circuit_vals(*circ).len()
                    && circuit_vals(*circ)[idx@[ii]@[jj] as int] == mv[ii][jj],
        decreases n - i,
    {
        let row = &m[i];
        let mut row_idx: Vec<usize> = Vec::new();
        let mut j: usize = 0;
        while j < n
            invariant
                is_square_grid(m@, n as int),
                mv == mat_view(m@),
                i < n,
                j <= n,
                row == &m@[i as int],
                row_idx@.len() == j,
                circuit_vals(*old(circ)).is_prefix_of(circuit_vals(*circ)),
                circuit_transcript(*circ) == circuit_transcript(*old(circ)),
                circuit_sat(*circ) == circuit_sat(*old(circ)),
                forall|ii: int| 0 <= ii < i ==> (#[trigger] idx@[ii])@.len() == n,
                forall|ii: int, jj: int|
                    0 <= ii < i && 0 <= jj < n ==> (#[trigger] idx@[ii]@[jj])
                        < circuit_vals(*circ).len()
                        && circuit_vals(*circ)[idx@[ii]@[jj] as int] == mv[ii][jj],
                idx@.len() == i,
                forall|jj: int|
                    0 <= jj < j ==> (#[trigger] row_idx@[jj]) < circuit_vals(*circ).len()
                        && circuit_vals(*circ)[row_idx@[jj] as int] == mv[i as int][jj],
            decreases n - j,
        {
            let value = row[j];
            assert(mv[i as int][j as int] == value as int) by {
                assert(mv[i as int] == m@[i as int]@.map_values(|x: u32| x as int));
            }
            let ghost vals_before = circuit_vals(*circ);
            let var = if public_input {
                match circ.alloc_input(value) {
                    Ok(v) => v,
                    Err(e) => {
                        return Err(CircuitError::Synthesis(e));
                    },
                }
            } else {
                match circ.alloc_witness(value) {
                    Ok(v) => v,
                    Err(e) => {
                        return Err(CircuitError::Synthesis(e));
                    },
                }
            };
            row_idx.push(var);
            proof {
                lemma_prefix_push(circuit_vals(*old(circ)), vals_before, value as int);
            }
            j = j + 1;
        }
        idx.push(row_idx);
        i = i + 1;
    }
    Ok(idx)
}

/// Absorbs every bound entry of a matrix into the sponge, row-major.
fn absorb_matrix(
    circ: &mut FreivaldsCircuit,
    idx: &Vec<Vec<usize>>,
    n: usize,
    Ghost(mv): Ghost<Seq<Seq<int>>>,
) -> (r: Result<(), CircuitError>)
    requires
        is_square(mv, n as int),
        mat_bound(circuit_vals(*old(circ)), idx@, mv, n as int),
    ensures
        r is Ok,
        circuit_vals(*final(circ)) == circuit_vals(*old(circ)),
        circuit_sat(*final(circ)) == circuit_sat(*old(circ)),
        circuit_transcript(*final(circ)) == circuit_transcript(*old(circ)) + rows_concat(
            mv,
            n as int,
        ),
{
    let ghost t_start = circuit_transcript(*old(circ));
    let mut i: usize = 0;
    while i < n
        invariant
            is_square(mv, n as int),
            mat_bound(circuit_vals(*circ), idx@, mv, n as int),
            i <= n,
            circuit_vals(*circ) == circuit_vals(*old(circ)),
            circuit_sat(*circ) == circuit_sat(*old(circ)),
            circuit_transcript(*circ) == t_start + rows_concat(mv, i as int),
        decreases n - i,
    {
        let row = &idx[i];
        let mut j: usize = 0;
        while j < n
            invariant
                is_square(mv, n as int),
                mat_bound(circuit_vals(*circ), idx@, mv, n as int),
                i < n,
                j <= n,
                row == &idx@[i as int],
                circuit_vals(*circ) == circuit_vals(*old(circ)),
                circuit_sat(*circ) == circuit_sat(*old(circ)),
                circuit_transcript(*circ) == t_start + rows_concat(mv, i as int) + mv[
                    i as int
                ].take(j as int),
            decreases n - j,
        {
            let ghost t_before = circuit_transcript(*circ);
            let res = circ.absorb_at(row[j]);
            match res {
                Ok(u) => u,
                Err(e) => {
                    return Err(CircuitError::Synthesis(e));
                },
            };
            assert(circuit_transcript(*circ) =~= t_start + rows_concat(mv, i as int) + mv[
                i as int
            ].take(j + 1)) by {
                assert(circuit_transcript(*circ) == t_before.push(mv[i as int][j as int]));
            }
            j = j + 1;
        }
        assert(mv[i as int].take(n as int) =~= mv[i as int]);
        assert(rows_concat(mv, i + 1) == rows_concat(mv, i as int) + mv[i as int]);
        assert(t_start + rows_concat(mv, i + 1) =~= t_start + rows_concat(mv, i as int) + mv[
            i as int
        ]);
        i = i + 1;
    }
    assert(circuit_transcript(*circ) == t_start + rows_concat(mv, n as int));
    Ok(())
}

/// Prefixes compose.
proof fn lemma_prefix_trans(v1: Seq<int>, v2: Seq<int>, v3: Seq<int>)
    requires
        v1.is_prefix_of(v2),
        v2.is_prefix_of(v3),
    ensures
        v1.is_prefix_of(v3),
{
    assert forall|k: int| 0 <= k < v1.len() implies v3.subrange(0, v1.len() as int)[k] == v1[k] by {
        assert(v1[k] == v2.subrange(0, v1.len() as int)[k]);
        assert(v2[k] == v3.subrange(0, v2.len() as int)[k]);
    }
    assert(v3.subrange(0, v1.len() as int) =~= v1);
}

/// A vector binding survives any extension of the variable list.
proof fn lemma_vec_bound_grows(v1: Seq<int>, v2: Seq<int>, idx: Seq<usize>, w: Seq<int>, n: int)
    requires
        forall|jj: int|
            0 <= jj < n ==> (#[trigger] idx[jj]) < v1.len() && v1[idx[jj] as int] == w[jj],
        v1.is_prefix_of(v2),
    ensures
        forall|jj: int|
            0 <= jj < n ==> (#[trigger] idx[jj]) < v2.len() && v2[idx[jj] as int] == w[jj],
{
    assert forall|jj: int|
        0 <= jj < n implies (#[trigger] idx[jj]) < v2.len() && v2[idx[jj] as int] == w[jj] by {
        assert(v1[idx[jj] as int] == v2.subrange(0, v1.len() as int)[idx[jj] as int]);
    }
}

/// Computes the matrix-vector product of the bound matrix and the bound
/// vector inside the field, one reduced multiply-add per entry, and
/// returns the variable index of each product entry.
fn mat_vec_at(
    circ: &mut FreivaldsCircuit,
    m_idx: &Vec<Vec<usize>>,
    v_idx: &Vec<usize>,
    n: usize,
    Ghost(mm): Ghost<Seq<Seq<int>>>,
    Ghost(vv): Ghost<Seq<int>>,
) -> (r: Vec<usize>)
    requires
        is_square(mm, n as int),
        mat_bound(circuit_vals(*old(circ)), m_idx@, mm, n as int),
        v_idx@.len() == n,
        forall|jj: int|
            0 <= jj < n ==> (#[trigger] v_idx@[jj]) < circuit_vals(*old(circ)).len()
                && circuit_vals(*old(circ))[v_idx@[jj] as int] == vv[jj],
    ensures
        circuit_vals(*old(circ)).is_prefix_of(circuit_vals(*final(circ))),
        circuit_transcript(*final(circ)) == circuit_transcript(*old(circ)),
        circuit_sat(*final(circ)) == circuit_sat(*old(circ)),
        r@.len() == n,
        forall|i: int|
            0 <= i < n ==> (#[trigger] r@[i]) < circuit_vals(*final(circ)).len()
                && circuit_vals(*final(circ))[r@[i] as int] == dot_mod(mm[i], vv, n as int),
{
    let mut out: Vec<usize> = Vec::new();
    let mut i: usize = 0;
    while i < n
        invariant
            is_square(mm, n as int),
            i <= n,
            out@.len() == i,
            v_idx@.len() == n,
            circuit_vals(*old(circ)).is_prefix_of(circuit_vals(*circ)),
            circuit_transcript(*circ) == circuit_transcript(*old(circ)),
            circuit_sat(*circ) == circuit_sat(*old(circ)),
            mat_bound(circuit_vals(*circ), m_idx@, mm, n as int),
            forall|jj: int|
                0 <= jj < n ==> (#[trigger] v_idx@[jj]) < circuit_vals(*circ).len()
                    && circuit_vals(*circ)[v_idx@[jj] as int] == vv[jj],
            forall|ii: int|
                0 <= ii < i ==> (#[trigger] out@[ii]) < circuit_vals(*circ).len()
                    && circuit_vals(*circ)[out@[ii] as int] == dot_mod(mm[ii], vv, n as int),
        decreases n - i,
    {
        let row = &m_idx[i];
        let ghost vals_acc0 = circuit_vals(*circ);
        let mut acc = circ.alloc_zero();
        proof {
            lemma_prefix_push(circuit_vals(*old(circ)), vals_acc0, 0int);
            lemma_mat_bound_grows(vals_acc0, circuit_vals(*circ), m_idx@, mm, n as int);
            lemma_vec_bound_grows(vals_acc0, circuit_vals(*circ), v_idx@, vv, n as int);
            lemma_vec_bound_grows(
                vals_acc0,
                circuit_vals(*circ),
                out@,
                Seq::new(i as nat, |ii: int| dot_mod(mm[ii], vv, n as int)),
                i as int,
            );
        }
        let mut j: usize = 0;
        while j < n
            invariant
                is_square(mm, n as int),
                i < n,
                j <= n,
                out@.len() == i,
                v_idx@.len() == n,
                row == &m_idx@[i as int],
                circuit_vals(*old(circ)).is_prefix_of(circuit_vals(*circ)),
                circuit_transcript(*circ) == circuit_transcript(*old(circ)),
                circuit_sat(*circ) == circuit_sat(*old(circ)),
                mat_bound(circuit_vals(*circ), m_idx@, mm, n as int),
                forall|jj: int|
                    0 <= jj < n ==> (#[trigger] v_idx@[jj]) < circuit_vals(*circ).len()
                        && circuit_vals(*circ)[v_idx@[jj] as int] == vv[jj],
                forall|ii: int|
                    0 <= ii < i ==> (#[trigger] out@[ii]) < circuit_vals(*circ).len()
                        && circuit_vals(*circ)[out@[ii] as int] == dot_mod(mm[ii], vv, n as int),
                acc < circuit_vals(*circ).len(),
                circuit_vals(*circ)[acc as int] == dot_mod(mm[i as int], vv, j as int),
            decreases n - j,
        {
            let ghost vals_mul0 = circuit_vals(*circ);
            let pterm = circ.mul_at(row[j], v_idx[j]);
            proof {
                lemma_prefix_push(
                    circuit_vals(*old(circ)),
                    vals_mul0,
                    fmul(mm[i as int][j as int], vv[j as int]),
                );
            }
            let ghost vals_add0 = circuit_vals(*circ);
            let acc2 = circ.add_at(acc, pterm);
            proof {
                lemma_prefix_push(
                    circuit_vals(*old(circ)),
                    vals_add0,
                    fadd(dot_mod(mm[i as int], vv, j as int), fmul(mm[i as int][j as int], vv[j as int])),
                );
            }
            assert(circuit_vals(*circ)[acc2 as int] == dot_mod(mm[i as int], vv, j + 1));
            acc = acc2;
            j = j + 1;
        }
        out.push(acc);
        i = i + 1;
    }
    out
}

/// One round of the randomized check: squeezes a fresh length-`n`
/// challenge vector from the transcript, computes `b * r`, `a * (b * r)`
/// and `c * r` inside the circuit, and enforces the entrywise equality
/// of the last two. `q` is the number of squeezes performed before this
/// round.
fn freivalds_round(
    circ: &mut FreivaldsCircuit,
    a_idx: &Vec<Vec<usize>>,
    b_idx: &Vec<Vec<usize>>,
    c_idx: &Vec<Vec<usize>>,
    n: usize,
    Ghost(am): Ghost<Seq<Seq<int>>>,
    Ghost(bm): Ghost<Seq<Seq<int>>>,
    Ghost(cm): Ghost<Seq<Seq<int>>>,
    Ghost(t0): Ghost<Seq<int>>,
    Ghost(q): Ghost<nat>,
) -> (r: Result<(), CircuitError>)
    requires
        is_square(am, n as int),
        is_square(bm, n as int),
        is_square(cm, n as int),
        mat_bound(circuit_vals(*old(circ)), a_idx@, am, n as int),
        mat_bound(circuit_vals(*old(circ)), b_idx@, bm, n as int),
        mat_bound(circuit_vals(*old(circ)), c_idx@, cm, n as int),
        circuit_transcript(*old(circ)) == t0 + markers(q),
    ensures
        r is Ok,
        circuit_vals(*old(circ)).is_prefix_of(circuit_vals(*final(circ))),
        circuit_transcript(*final(circ)) == t0 + markers((q + n) as nat),
        circuit_sat(*final(circ)) == (circuit_sat(*old(circ)) && round_ok(
            am,
            bm,
            cm,
            challenge_block(t0, q, n as int),
            n as int,
        )),
{
    let ghost rvec = challenge_block(t0, q, n as int);

    // Draw the round's challenge vector, one squeeze per entry.
    let mut r_idx: Vec<usize> = Vec::new();
    let mut j: usize = 0;
    while j < n
        invariant
            j <= n,
            r_idx@.len() == j,
            rvec == challenge_block(t0, q, n as int),
            circuit_vals(*old(circ)).is_prefix_of(circuit_vals(*circ)),
            circuit_transcript(*circ) == t0 + markers((q + j) as nat),
            circuit_sat(*circ) == circuit_sat(*old(circ)),
            forall|jj: int|
                0 <= jj < j ==> (#[trigger] r_idx@[jj]) < circuit_vals(*circ).len()
                    && circuit_vals(*circ)[r_idx@[jj] as int] == rvec[jj],
        decreases n - j,
    {
        let ghost t_before = circuit_transcript(*circ);
        let ghost vals_before = circuit_vals(*circ);
        let var = match circ.squeeze_challenge() {
            Ok(v) => v,
            Err(e) => {
                return Err(CircuitError::Synthesis(e));
            },
        };
        proof {
            lemma_prefix_push(circuit_vals(*old(circ)), vals_before, squeeze_value(t_before));
            assert(circuit_vals(*circ)[var as int] == rvec[j as int]) by {
                assert(rvec[j as int] == challenge(t0, (q + j) as nat));
            }
            assert(circuit_transcript(*circ) =~= t0 + markers((q + j + 1) as nat)) by {
                assert(circuit_transcript(*circ) == (t0 + markers((q + j) as nat)).push(
                    squeeze_marker(),
                ));
            }
        }
        r_idx.push(var);
        j = j + 1;
    }

    // Rebind the matrices against the grown variable list.
    proof {
        lemma_mat_bound_grows(
            circuit_vals(*old(circ)),
            circuit_vals(*circ),
            a_idx@,
            am,
            n as int,
        );
        lemma_mat_bound_grows(
            circuit_vals(*old(circ)),
            circuit_vals(*circ),
            b_idx@,
            bm,
            n as int,
        );
        lemma_mat_bound_grows(
            circuit_vals(*old(circ)),
            circuit_vals(*circ),
            c_idx@,
            cm,
            n as int,
        );
    }
    let ghost vals_after_squeeze = circuit_vals(*circ);

    // b * r, then a * (b * r), then c * r.
    let ghost brm = col_mod(bm, rvec, n as int);
    let br = mat_vec_at(circ, b_idx, &r_idx, n, Ghost(bm), Ghost(rvec));
    proof {
        lemma_prefix_trans(
            circuit_vals(*old(circ)),
            vals_after_squeeze,
            circuit_vals(*circ),
        );
        lemma_mat_bound_grows(vals_after_squeeze, circuit_vals(*circ), a_idx@, am, n as int);
        lemma_mat_bound_grows(vals_after_squeeze, circuit_vals(*circ), c_idx@, cm, n as int);
        lemma_vec_bound_grows(vals_after_squeeze, circuit_vals(*circ), r_idx@, rvec, n as int);
        assert forall|ii: int| 0 <= ii < n implies #[trigger] brm[ii] == dot_mod(
            bm[ii],
            rvec,
            n as int,
        ) by {}
    }
    let ghost vals_after_br = circuit_vals(*circ);

    let abr = mat_vec_at(circ, a_idx, &br, n, Ghost(am), Ghost(brm));
    proof {
        lemma_prefix_trans(circuit_vals(*old(circ)), vals_after_br, circuit_vals(*circ));
        lemma_mat_bound_grows(vals_after_br, circuit_vals(*circ), c_idx@, cm, n as int);
        lemma_vec_bound_grows(vals_after_br, circuit_vals(*circ), r_idx@, rvec, n as int);
    }
    let ghost vals_after_abr = circuit_vals(*circ);
    let ghost abr_vals = Seq::new(n as nat, |ii: int| dot_mod(am[ii], brm, n as int));
    proof {
        assert forall|ii: int|
            0 <= ii < n implies (#[trigger] abr@[ii]) < vals_after_abr.len()
                && vals_after_abr[abr@[ii] as int] == abr_vals[ii] by {}
    }

    let cr = mat_vec_at(circ, c_idx, &r_idx, n, Ghost(cm), Ghost(rvec));
    proof {
        lemma_prefix_trans(circuit_vals(*old(circ)), vals_after_abr, circuit_vals(*circ));
        lemma_vec_bound_grows(vals_after_abr, circuit_vals(*circ), abr@, abr_vals, n as int);
        assert forall|ii: int|
            0 <= ii < n implies (#[trigger] abr@[ii]) < circuit_vals(*circ).len()
                && circuit_vals(*circ)[abr@[ii] as int] == dot_mod(am[ii], brm, n as int) by {
            assert(abr_vals[ii] == dot_mod(am[ii], brm, n as int));
        }
    }

    // Enforce a * (b * r) == c * r entry by entry.
    let ghost sat0 = circuit_sat(*old(circ));
    let ghost vals_enforce = circuit_vals(*circ);
    let ghost t_enforce = circuit_transcript(*circ);
    let mut i: usize = 0;
    while i < n
        invariant
            i <= n,
            n == abr@.len(),
            n == cr@.len(),
            rvec == challenge_block(t0, q, n as int),
            brm == col_mod(bm, rvec, n as int),
            circuit_vals(*circ) == vals_enforce,
            circuit_transcript(*circ) == t_enforce,
            forall|ii: int|
                0 <= ii < n ==> (#[trigger] abr@[ii]) < vals_enforce.len()
                    && vals_enforce[abr@[ii] as int] == dot_mod(am[ii], brm, n as int),
            forall|ii: int|
                0 <= ii < n ==> (#[trigger] cr@[ii]) < vals_enforce.len()
                    && vals_enforce[cr@[ii] as int] == dot_mod(cm[ii], rvec, n as int),
            circuit_sat(*circ) == (sat0 && (forall|ii: int|
                0 <= ii < i ==> dot_mod(#[trigger] am[ii], brm, n as int) == dot_mod(
                    cm[ii],
                    rvec,
                    n as int,
                ))),
        decreases n - i,
    {
        let ghost sat_before = circuit_sat(*circ);
        match circ.enforce_equal_at(abr[i], cr[i]) {
            Ok(u) => u,
            Err(e) => {
                return Err(CircuitError::Synthesis(e));
            },
        };
        proof {
            assert(circuit_sat(*circ) == (sat_before && dot_mod(am[i as int], brm, n as int)
                == dot_mod(cm[i as int], rvec, n as int)));
            if circuit_sat(*circ) {
                assert forall|ii: int|
                    0 <= ii < i + 1 implies dot_mod(#[trigger] am[ii], brm, n as int) == dot_mod(
                    cm[ii],
                    rvec,
                    n as int,
                ) by {}
            }
        }
        i = i + 1;
    }
    proof {
        assert(round_ok(am, bm, cm, rvec, n as int) == (forall|ii: int|
            0 <= ii < n ==> dot_mod(#[trigger] am[ii], brm, n as int) == dot_mod(
                cm[ii],
                rvec,
                n as int,
            )));
        lemma_prefix_trans(circuit_vals(*old(circ)), vals_after_abr, circuit_vals(*circ));
    }
    Ok(())
}

/// Builds the constraint system that checks `a * b == c` by `k` rounds
/// of Freivalds' algorithm with sponge-derived challenges.
///
/// `a` and `b` enter as private witnesses and `c` as a public input; all
/// entries of all three are absorbed into the transcript, row-major, in
/// that order, before the first challenge is drawn. The returned system
/// is satisfied exactly when every round's randomized check holds for
/// the challenges that the transcript of these inputs determines.
pub fn builder(k: u32, a: &Vec<Vec<u32>>, b: &Vec<Vec<u32>>, c: &Vec<Vec<u32>>) -> (r: Result<
    FreivaldsCircuit,
    CircuitError,
>)
    requires
        k >= 1,
        is_square_grid(a@, a@.len() as int),
        is_square_grid(b@, a@.len() as int),
        is_square_grid(c@, a@.len() as int),
    ensures
        r is Ok,
        r matches Ok(circ) ==> circuit_sat(circ) == freivalds_ok(
            mat_view(a@),
            mat_view(b@),
            mat_view(c@),
            initial_transcript(mat_view(a@), mat_view(b@), mat_view(c@), a@.len() as int),
            k as int,
            a@.len() as int,
        ),
{
    let n = a.len();
    let ghost am = mat_view(a@);
    let ghost bm = mat_view(b@);
    let ghost cm = mat_view(c@);
    proof {
        lemma_mat_view_square(a@, n as int);
        lemma_mat_view_square(b@, n as int);
        lemma_mat_view_square(c@, n as int);
    }

    let mut circ = FreivaldsCircuit::new();

    // Allocate the private witnesses and the public input.
    let a_idx = match alloc_matrix(&mut circ, a, n, false) {
        Ok(v) => v,
        Err(e) => {
            return Err(e);
        },
    };
    let ghost vals_a = circuit_vals(circ);
    let b_idx = match alloc_matrix(&mut circ, b, n, false) {
        Ok(v) => v,
        Err(e) => {
            return Err(e);
        },
    };
    proof {
        lemma_mat_bound_grows(vals_a, circuit_vals(circ), a_idx@, am, n as int);
    }
    let ghost vals_b = circuit_vals(circ);
    let c_idx = match alloc_matrix(&mut circ, c, n, true) {
        Ok(v) => v,
        Err(e) => {
            return Err(e);
        },
    };
    proof {
        lemma_prefix_trans(vals_a, vals_b, circuit_vals(circ));
        lemma_mat_bound_grows(vals_a, circuit_vals(circ), a_idx@, am, n as int);
        lemma_mat_bound_grows(vals_b, circuit_vals(circ), b_idx@, bm, n as int);
    }

    // Absorb all three matrices into the transcript, row-major.
    match absorb_matrix(&mut circ, &a_idx, n, Ghost(am)) {
        Ok(u) => u,
        Err(e) => {
            return Err(e);
        },
    };
    match absorb_matrix(&mut circ, &b_idx, n, Ghost(bm)) {
        Ok(u) => u,
        Err(e) => {
            return Err(e);
        },
    };
    match absorb_matrix(&mut circ, &c_idx, n, Ghost(cm)) {
        Ok(u) => u,
        Err(e) => {
            return Err(e);
        },
    };
    let ghost t0 = initial_transcript(am, bm, cm, n as int);
    proof {
        assert(circuit_transcript(circ) =~= t0);
        assert(circuit_transcript(circ) =~= t0 + markers(0));
    }

    // Run the k rounds of the randomized check.
    let mut t: u32 = 0;
    let ghost mut q: nat = 0nat;
    while t < k
        invariant
            t <= k,
            is_square(am, n as int),
            is_square(bm, n as int),
            is_square(cm, n as int),
            mat_bound(circuit_vals(circ), a_idx@, am, n as int),
            mat_bound(circuit_vals(circ), b_idx@, bm, n as int),
            mat_bound(circuit_vals(circ), c_idx@, cm, n as int),
            q == t * n,
            circuit_transcript(circ) == t0 + markers(q),
            circuit_sat(circ) == freivalds_ok(am, bm, cm, t0, t as int, n as int),
        decreases k - t,
    {
        let ghost vals_round0 = circuit_vals(circ);
        let ghost sat_round0 = circuit_sat(circ);
        match freivalds_round(
            &mut circ,
            &a_idx,
            &b_idx,
            &c_idx,
            n,
            Ghost(am),
            Ghost(bm),
            Ghost(cm),
            Ghost(t0),
            Ghost(q),
        ) {
            Ok(u) => u,
            Err(e) => {
                return Err(e);
            },
        };
        proof {
            lemma_mat_bound_grows(vals_round0, circuit_vals(circ), a_idx@, am, n as int);
            lemma_mat_bound_grows(vals_round0, circuit_vals(circ), b_idx@, bm, n as int);
            lemma_mat_bound_grows(vals_round0, circuit_vals(circ), c_idx@, cm, n as int);
            // this round's challenge block is round t's challenge vector
            assert(challenge_block(t0, q, n as int) =~= round_vector(t0, t as int, n as int));
            // one more round extends the conjunction by one check
            assert(freivalds_ok(am, bm, cm, t0, t as int + 1, n as int) == (freivalds_ok(
                am,
                bm,
                cm,
                t0,
                t as int,
                n as int,
            ) && round_ok(am, bm, cm, round_vector(t0, t as int, n as int), n as int))) by {
                if freivalds_ok(am, bm, cm, t0, t as int, n as int) && round_ok(
                    am,
                    bm,
                    cm,
                    round_vector(t0, t as int, n as int),
                    n as int,
                ) {
                    assert forall|tt: int| 0 <= tt < t as int + 1 implies round_ok(
                        am,
                        bm,
                        cm,
                        #[trigger] round_vector(t0, tt, n as int),
                        n as int,
                    ) by {
                        if tt == t as int {
                        } else {
                            assert(0 <= tt < t as int);
                        }
                    }
                }
            }
            q = (q + n) as nat;
            assert(q == (t + 1) * n) by (nonlinear_arith)
                requires q == t * n + n;
        }
        t = t + 1;
    }

    circ.finalize_system();
    Ok(circ)
}

} // verus!
