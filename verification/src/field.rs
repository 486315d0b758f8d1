//! Specification-level model of arithmetic in the BN254 base field.
//!
//! Matrix entries, sponge challenges and all intermediate circuit values
//! are elements of the prime field of this modulus; the circuit's
//! additions and multiplications act on representatives in `[0, fq_modulus())`.

use vstd::prelude::*;
use vstd::arithmetic::div_mod::{lemma_mod_bound, lemma_small_mod};

verus! {

/// The order of the BN254 base field: a 254-bit prime.
pub open spec fn fq_modulus() -> int {
    21888242871839275222246405745257275088696311157297823662689037894645226208583int
}

/// A field element is represented by an integer in `[0, fq_modulus())`.
pub open spec fn in_field(x: int) -> bool {
    0 <= x < fq_modulus()
}

/// Field addition on integer representatives.
pub open spec fn fadd(x: int, y: int) -> int {
    (x + y) % fq_modulus()
}

/// Field multiplication on integer representatives.
pub open spec fn fmul(x: int, y: int) -> int {
    (x * y) % fq_modulus()
}

/// Field operations always land on a reduced representative.
pub proof fn lemma_field_ops_in_field(x: int, y: int)
    ensures
        in_field(fadd(x, y)),
        in_field(fmul(x, y)),
{
    lemma_mod_bound(x + y, fq_modulus());
    lemma_mod_bound(x * y, fq_modulus());
}

/// Adding the zero element leaves a reduced representative unchanged.
pub proof fn lemma_fadd_zero(x: int)
    requires
        in_field(x),
    ensures
        fadd(0, x) == x,
{
    lemma_small_mod(x as nat, fq_modulus() as nat);
}

} // verus!
