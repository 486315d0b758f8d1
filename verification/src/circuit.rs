//! The constraint system under construction, behind a trusted boundary.
//!
//! A `FreivaldsCircuit` owns an arkworks rank-1 constraint system in
//! proving mode, the Poseidon sponge gadget attached to it, and every
//! field variable allocated so far. Verified code addresses variables by
//! the index they were allocated at; three named spec functions describe
//! the hidden state:
//!
//! - `circuit_vals`: the integer representative of each variable's value,
//!   in allocation order;
//! - `circuit_transcript`: the sponge history, one entry per absorbed
//!   value and one `squeeze_marker()` per squeeze;
//! - `circuit_sat`: whether the values assigned so far satisfy every
//!   constraint added so far.
//!
//! Every constraint the sponge gadget and the arithmetic gadgets add is
//! satisfied by construction (the gadgets assign each new variable the
//! value that satisfies it), so only `enforce_equal_at` can change
//! `circuit_sat`. The system is built in proving mode with every
//! assignment supplied, in which mode none of the wrapped arkworks calls
//! has an error path, so the wrappers promise success.

use vstd::prelude::*;
use ark_bn254::Fq;
use ark_crypto_primitives::sponge::constraints::CryptographicSpongeVar;
use ark_crypto_primitives::sponge::poseidon::constraints::PoseidonSpongeVar;
use ark_crypto_primitives::sponge::poseidon::{find_poseidon_ark_and_mds, PoseidonConfig};
use ark_ff::PrimeField;
use ark_r1cs_std::alloc::AllocVar;
use ark_r1cs_std::eq::EqGadget;
use ark_r1cs_std::fields::fp::FpVar;
use ark_r1cs_std::fields::FieldVar;
use ark_relations::r1cs::{ConstraintSystem, ConstraintSystemRef, SynthesisError, SynthesisMode};
use crate::field::{fadd, fmul};
use crate::rounds::{squeeze_marker, squeeze_value};

verus! {

/// The arkworks error type, declared so that the trusted wrappers can
/// return it; the library wraps it in `CircuitError` at its boundary.
#[verifier::external_type_specification]
#[verifier::external_body]
pub struct ExSynthesisError(SynthesisError);

/// An error surfaced while building or querying the constraint system.
#[derive(Debug)]
pub enum CircuitError {
    /// The underlying constraint-system backend reported a failure.
    Synthesis(SynthesisError),
}

/// A rank-1 constraint system under construction, with its sponge and
/// its allocated variables. Opaque to verification; described by
/// `circuit_vals`, `circuit_transcript` and `circuit_sat`.
#[verifier::external_body]
pub struct FreivaldsCircuit {
    cs: ConstraintSystemRef<Fq>,
    sponge: PoseidonSpongeVar<Fq>,
    vars: Vec<FpVar<Fq>>,
}

/// The value of each allocated variable, as an integer representative in
/// allocation order.
pub uninterp spec fn circuit_vals(c: FreivaldsCircuit) -> Seq<int>;

/// The sponge history: each absorbed value in order, with a
/// `squeeze_marker()` entry recording each squeeze.
pub uninterp spec fn circuit_transcript(c: FreivaldsCircuit) -> Seq<int>;

/// Whether the assignment made so far satisfies every constraint added
/// so far.
pub uninterp spec fn circuit_sat(c: FreivaldsCircuit) -> bool;

impl FreivaldsCircuit {
    /// Relies on `ConstraintSystem::new_ref` and `set_mode` (an empty
    /// system in proving mode, trivially satisfied), on
    /// `find_poseidon_ark_and_mds` (a deterministic derivation of the
    /// Poseidon constants for the fixed parameters: 8 full rounds, 57
    /// partial rounds, S-box exponent 5, rate 2, capacity 1), and on
    /// `PoseidonSpongeVar::new`, which starts from a constant state and
    /// adds no constraints.
    #[verifier::external_body]
    pub(crate) fn new() -> (r: FreivaldsCircuit)
        ensures
            circuit_vals(r) == Seq::<int>::empty(),
            circuit_transcript(r) == Seq::<int>::empty(),
            circuit_sat(r),
    {
        let cs = ConstraintSystem::<Fq>::new_ref();
        cs.set_mode(SynthesisMode::Prove { construct_matrices: true });
        let (ark, mds) =
            find_poseidon_ark_and_mds::<Fq>(Fq::MODULUS_BIT_SIZE as u64, 2, 8, 57, 0);
        let config = PoseidonConfig {
            full_rounds: 8,
            partial_rounds: 57,
            alpha: 5,
            ark,
            mds,
            rate: 2,
            capacity: 1,
        };
        let sponge = PoseidonSpongeVar::new(cs.clone(), &config);
        FreivaldsCircuit { cs, sponge, vars: Vec::new() }
    }

    /// Relies on `FpVar::new_witness`: in proving mode with a value
    /// supplied it always succeeds, stores the value, and adds no
    /// constraint. `Fq::from` embeds a 32-bit integer exactly, since the
    /// modulus exceeds `u32::MAX`.
    #[verifier::external_body]
    pub(crate) fn alloc_witness(&mut self, value: u32) -> (r: Result<usize, SynthesisError>)
        ensures
            r is Ok,
            r->Ok_0 == circuit_vals(*old(self)).len(),
            circuit_vals(*final(self)) == circuit_vals(*old(self)).push(value as int),
            circuit_transcript(*final(self)) == circuit_transcript(*old(self)),
            circuit_sat(*final(self)) == circuit_sat(*old(self)),
    {
        let v = FpVar::new_witness(self.cs.clone(), || Ok(Fq::from(value)))?;
        self.vars.push(v);
        Ok(self.vars.len() - 1)
    }

    /// Relies on `FpVar::new_input`, as `alloc_witness` does; the entry
    /// becomes part of the public instance instead of the witness.
    #[verifier::external_body]
    pub(crate) fn alloc_input(&mut self, value: u32) -> (r: Result<usize, SynthesisError>)
        ensures
            r is Ok,
            r->Ok_0 == circuit_vals(*old(self)).len(),
            circuit_vals(*final(self)) == circuit_vals(*old(self)).push(value as int),
            circuit_transcript(*final(self)) == circuit_transcript(*old(self)),
            circuit_sat(*final(self)) == circuit_sat(*old(self)),
    {
        let v = FpVar::new_input(self.cs.clone(), || Ok(Fq::from(value)))?;
        self.vars.push(v);
        Ok(self.vars.len() - 1)
    }

    /// Relies on `FpVar::zero`: a constant with value zero, adding no
    /// variable or constraint to the underlying system.
    #[verifier::external_body]
    pub(crate) fn alloc_zero(&mut self) -> (r: usize)
        ensures
            r == circuit_vals(*old(self)).len(),
            circuit_vals(*final(self)) == circuit_vals(*old(self)).push(0int),
            circuit_transcript(*final(self)) == circuit_transcript(*old(self)),
            circuit_sat(*final(self)) == circuit_sat(*old(self)),
    {
        self.vars.push(FpVar::zero());
        self.vars.len() - 1
    }

    /// Relies on `PoseidonSpongeVar::absorb`: it feeds the variable's
    /// value into the sponge state through field-variable arithmetic,
    /// whose constraints its own assignments satisfy, and cannot fail on
    /// value-carrying variables.
    #[verifier::external_body]
    pub(crate) fn absorb_at(&mut self, i: usize) -> (r: Result<(), SynthesisError>)
        requires
            i < circuit_vals(*old(self)).len(),
        ensures
            r is Ok,
            circuit_vals(*final(self)) == circuit_vals(*old(self)),
            circuit_transcript(*final(self)) == circuit_transcript(*old(self)).push(
                circuit_vals(*old(self))[i as int],
            ),
            circuit_sat(*final(self)) == circuit_sat(*old(self)),
    {
        self.sponge.absorb(&self.vars[i])?;
        Ok(())
    }

    /// Relies on `PoseidonSpongeVar::squeeze_field_elements`: the
    /// squeezed element is a deterministic function of the absorb and
    /// squeeze history alone (the fixed Poseidon permutation applied to
    /// the running state), named `squeeze_value`; the constraints it adds
    /// are satisfied by its own assignments, and it cannot fail on
    /// value-carrying variables.
    #[verifier::external_body]
    pub(crate) fn squeeze_challenge(&mut self) -> (r: Result<usize, SynthesisError>)
        ensures
            r is Ok,
            r->Ok_0 == circuit_vals(*old(self)).len(),
            circuit_vals(*final(self)) == circuit_vals(*old(self)).push(
                squeeze_value(circuit_transcript(*old(self))),
            ),
            circuit_transcript(*final(self)) == circuit_transcript(*old(self)).push(squeeze_marker()),
            circuit_sat(*final(self)) == circuit_sat(*old(self)),
    {
        let mut out = self.sponge.squeeze_field_elements(1)?;
        let v = out.pop().ok_or(SynthesisError::AssignmentMissing)?;
        self.vars.push(v);
        Ok(self.vars.len() - 1)
    }

    /// Relies on the `Add` of `FpVar`: the result's value is the field
    /// sum of the operands' values, recorded as a linear combination with
    /// no constraint added.
    #[verifier::external_body]
    pub(crate) fn add_at(&mut self, i: usize, j: usize) -> (r: usize)
        requires
            i < circuit_vals(*old(self)).len(),
            j < circuit_vals(*old(self)).len(),
        ensures
            r == circuit_vals(*old(self)).len(),
            circuit_vals(*final(self)) == circuit_vals(*old(self)).push(
                fadd(circuit_vals(*old(self))[i as int], circuit_vals(*old(self))[j as int]),
            ),
            circuit_transcript(*final(self)) == circuit_transcript(*old(self)),
            circuit_sat(*final(self)) == circuit_sat(*old(self)),
    {
        let v = &self.vars[i] + &self.vars[j];
        self.vars.push(v);
        self.vars.len() - 1
    }

    /// Relies on the `Mul` of `FpVar`: the result is a new witness whose
    /// value is the field product of the operands' values, constrained to
    /// equal that product, so the added constraint is satisfied.
    #[verifier::external_body]
    pub(crate) fn mul_at(&mut self, i: usize, j: usize) -> (r: usize)
        requires
            i < circuit_vals(*old(self)).len(),
            j < circuit_vals(*old(self)).len(),
        ensures
            r == circuit_vals(*old(self)).len(),
            circuit_vals(*final(self)) == circuit_vals(*old(self)).push(
                fmul(circuit_vals(*old(self))[i as int], circuit_vals(*old(self))[j as int]),
            ),
            circuit_transcript(*final(self)) == circuit_transcript(*old(self)),
            circuit_sat(*final(self)) == circuit_sat(*old(self)),
    {
        let v = &self.vars[i] * &self.vars[j];
        self.vars.push(v);
        self.vars.len() - 1
    }

    /// Relies on `FpVar::enforce_equal`: it adds the constraint that the
    /// two values are equal (for two equal constants it adds nothing,
    /// which enforces the same), so the system stays satisfied exactly
    /// when it was satisfied and the values agree. The only constant
    /// variables this builder allocates are zeros, so no pair of unequal
    /// constants can reach the constant-constant case.
    #[verifier::external_body]
    pub(crate) fn enforce_equal_at(&mut self, i: usize, j: usize) -> (r: Result<
        (),
        SynthesisError,
    >)
        requires
            i < circuit_vals(*old(self)).len(),
            j < circuit_vals(*old(self)).len(),
        ensures
            r is Ok,
            circuit_vals(*final(self)) == circuit_vals(*old(self)),
            circuit_transcript(*final(self)) == circuit_transcript(*old(self)),
            circuit_sat(*final(self)) == (circuit_sat(*old(self))
                && circuit_vals(*old(self))[i as int] == circuit_vals(*old(self))[j as int]),
    {
        self.vars[i].enforce_equal(&self.vars[j])
    }

    /// Relies on `ConstraintSystemRef::finalize`: it inlines the stored
    /// linear combinations without changing the assignment or which
    /// constraints hold.
    #[verifier::external_body]
    pub(crate) fn finalize_system(&mut self)
        ensures
            circuit_vals(*final(self)) == circuit_vals(*old(self)),
            circuit_transcript(*final(self)) == circuit_transcript(*old(self)),
            circuit_sat(*final(self)) == circuit_sat(*old(self)),
    {
        self.cs.finalize();
    }

    /// Relies on `ConstraintSystemRef::is_satisfied`: it evaluates every
    /// stored constraint against the stored assignment, failing only in
    /// setup mode or on a missing assignment, neither of which this
    /// builder's proving-mode construction can produce.
    #[verifier::external_body]
    fn check_satisfied(&self) -> (r: Result<bool, SynthesisError>)
        ensures
            r is Ok,
            r->Ok_0 == circuit_sat(*self),
    {
        self.cs.is_satisfied()
    }

    /// Whether the values bound into the circuit satisfy every
    /// constraint: true exactly when every enforced equality held.
    pub fn is_satisfied(&self) -> (r: Result<bool, CircuitError>)
        ensures
            r is Ok,
            r->Ok_0 == circuit_sat(*self),
    {
        match self.check_satisfied() {
            Ok(b) => Ok(b),
            Err(e) => Err(CircuitError::Synthesis(e)),
        }
    }
}

} // verus!
