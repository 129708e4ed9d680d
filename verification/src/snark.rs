//! Cryptographic verification of Groth16 proofs over BN254.
//!
//! This is the step that actually confirms the prover knew a witness
//! satisfying the identity circuit for the disclosed public values; it
//! must precede any trust in predicate evaluation. The pairing
//! computations live in the arkworks crates, behind trusted wrappers;
//! what this module proves is that the right public inputs — the four
//! disclosed values, in circuit order — are handed to the verifier, and
//! that a key whose shape does not match the circuit (the wrong number
//! of public-input slots) is rejected before the pairing code can touch
//! it: arkworks' `prepare_inputs` indexes the key's `gamma_abc_g1`
//! vector unguarded and silently truncates a too-long input list, so
//! the slot count is checked here, in verified code.

use vstd::prelude::*;
use crate::field::{le_int, fr_modulus, FieldElement};
use crate::keys::SetupKeys;
use crate::zkproof::ZKProof;

verus! {

/// Whether the bytes are the canonical compressed encoding of a Groth16
/// verifying key over BN254 (parsing is a pure function of the bytes).
pub uninterp spec fn vk_parses(bytes: Seq<u8>) -> bool;

/// The length of the `gamma_abc_g1` vector of the key the bytes encode:
/// one more than the public-input count of the circuit the key was made
/// for. Meaningful only when the bytes parse.
pub uninterp spec fn vk_slots_of(bytes: Seq<u8>) -> nat;

/// Whether the bytes are the canonical compressed encoding of a Groth16
/// proof over BN254.
pub uninterp spec fn proof_parses(bytes: Seq<u8>) -> bool;

/// The verdict of the Groth16 pairing equation for a verifying key and
/// a proof (each as canonical bytes) and a list of public inputs (as
/// scalar values below the field order). A pure function of these
/// arguments alone.
pub uninterp spec fn groth16_verdict(vk_bytes: Seq<u8>, proof_bytes: Seq<u8>, inputs: Seq<int>) -> bool;

/// The scalar a byte string stands for: its little-endian value, reduced
/// modulo the field order (the value itself for a canonical element).
pub open spec fn fr_value_of(bytes: Seq<u8>) -> int {
    le_int(bytes) % fr_modulus()
}

/// The four disclosed values of a proof as the scalars handed to the
/// verifier, in the circuit's input order: name, birth year, gender,
/// location.
pub open spec fn public_inputs_of(p: ZKProof) -> Seq<int> {
    seq![
        fr_value_of(p.name_hash.bytes@),
        (p.dob_year as int) % fr_modulus(),
        fr_value_of(p.gender_hash.bytes@),
        fr_value_of(p.location_hash.bytes@),
    ]
}

/// Why cryptographic verification could not be carried out at all (as
/// opposed to the proof merely being invalid).
#[derive(Clone, Copy, PartialEq, Eq, Structural, Debug)]
pub enum VerifyError {
    /// The verifying key bytes could not be parsed, or the parsed key
    /// belongs to a circuit shape with a different public-input count.
    KeyDeserializationFailure,
    /// The proof bytes could not be parsed as a Groth16 proof.
    ProofDeserializationFailure,
}

/// Relies on ark_serialize::CanonicalDeserialize::deserialize_compressed
/// for ark_groth16::VerifyingKey: whether the canonical compressed form
/// parses (with point validation) is a pure function of the bytes, and
/// on success the parsed key's `gamma_abc_g1` length is likewise a
/// function of the bytes alone.
#[verifier::external_body]
fn vk_check(bytes: &Vec<u8>) -> (r: Option<usize>)
    ensures
        (r is Some) == vk_parses(bytes@),
        r matches Some(n) ==> n as nat == vk_slots_of(bytes@),
{
    <ark_groth16::VerifyingKey<ark_bn254::Bn254> as ark_serialize::CanonicalDeserialize>::deserialize_compressed(
        &bytes[..],
    )
        .ok()
        .map(|vk| vk.gamma_abc_g1.len())
}

/// Relies on ark_serialize::CanonicalDeserialize::deserialize_compressed
/// for ark_groth16::Proof: whether the canonical compressed form parses
/// (with point validation) is a pure function of the bytes.
#[verifier::external_body]
fn proof_check(bytes: &Vec<u8>) -> (r: bool)
    ensures
        r == proof_parses(bytes@),
{
    <ark_groth16::Proof<ark_bn254::Bn254> as ark_serialize::CanonicalDeserialize>::deserialize_compressed(
        &bytes[..],
    )
        .is_ok()
}

/// Relies on ark_groth16 (prepare_verifying_key, Groth16::verify_proof)
/// together with the two deserializers and ark_ff's
/// from_le_bytes_mod_order: parses the key and the proof — the requires
/// guarantee both succeed — maps each public input to the scalar its
/// bytes stand for, and runs the pairing equation, whose verdict is a
/// pure function of these arguments. The slot-count requires keeps
/// prepare_inputs from indexing past `gamma_abc_g1` (it reads entry 0
/// unguarded) and keeps its zip from silently dropping inputs; the
/// final-exponentiation unwrap inside verify_proof cannot fire, since a
/// Miller loop over validated curve points never yields zero.
#[verifier::external_body]
fn groth16_verify_bytes(
    vk_bytes: &Vec<u8>,
    proof_bytes: &Vec<u8>,
    public_inputs: &Vec<FieldElement>,
) -> (r: bool)
    requires
        vk_parses(vk_bytes@),
        vk_slots_of(vk_bytes@) == public_inputs@.len() + 1,
        proof_parses(proof_bytes@),
    ensures
        r == groth16_verdict(
            vk_bytes@,
            proof_bytes@,
            public_inputs@.map_values(|e: FieldElement| fr_value_of(e.bytes@)),
        ),
{
    let vk = <ark_groth16::VerifyingKey<ark_bn254::Bn254> as ark_serialize::CanonicalDeserialize>::deserialize_compressed(
        &vk_bytes[..],
    ).unwrap();
    let proof = <ark_groth16::Proof<ark_bn254::Bn254> as ark_serialize::CanonicalDeserialize>::deserialize_compressed(
        &proof_bytes[..],
    ).unwrap();
    let pvk = ark_groth16::prepare_verifying_key(&vk);
    let inputs: std::vec::Vec<ark_bn254::Fr> = public_inputs
        .iter()
        .map(|e| <ark_bn254::Fr as ark_ff::PrimeField>::from_le_bytes_mod_order(&e.bytes))
        .collect();
    ark_groth16::Groth16::<ark_bn254::Bn254>::verify_proof(&pvk, &proof, &inputs[..]).unwrap()
}

/// Cryptographically verify a proof against a verifying key. The key
/// must parse and carry exactly the identity circuit's five input slots
/// (four public inputs plus the constant), else
/// `KeyDeserializationFailure`; the proof bytes must parse, else
/// `ProofDeserializationFailure`; otherwise the result is the pairing
/// verdict for the four disclosed values in circuit order. `Ok(true)`
/// means the equation held; `Ok(false)` means the proof does not attest
/// to these public values under this key.
pub fn verify_cryptographic(keys: &SetupKeys, proof: &ZKProof) -> (r: Result<bool, VerifyError>)
    ensures
        (r == Err::<bool, VerifyError>(VerifyError::KeyDeserializationFailure))
            == (!vk_parses(keys.verifying_key@) || vk_slots_of(keys.verifying_key@) != 5),
        (r == Err::<bool, VerifyError>(VerifyError::ProofDeserializationFailure))
            == (vk_parses(keys.verifying_key@) && vk_slots_of(keys.verifying_key@) == 5
                && !proof_parses(proof.proof_bytes@)),
        vk_parses(keys.verifying_key@) && vk_slots_of(keys.verifying_key@) == 5
            && proof_parses(proof.proof_bytes@)
            ==> r == Ok::<bool, VerifyError>(groth16_verdict(
                keys.verifying_key@,
                proof.proof_bytes@,
                public_inputs_of(*proof),
            )),
{
    let slots = match vk_check(&keys.verifying_key) {
        Some(n) => n,
        None => {
            return Err(VerifyError::KeyDeserializationFailure);
        },
    };
    if slots != 5 {
        return Err(VerifyError::KeyDeserializationFailure);
    }
    if !proof_check(&proof.proof_bytes) {
        return Err(VerifyError::ProofDeserializationFailure);
    }
    let mut public_inputs: Vec<FieldElement> = Vec::new();
    public_inputs.push(proof.name_hash.clone_element());
    public_inputs.push(FieldElement::from_u64(proof.dob_year));
    public_inputs.push(proof.gender_hash.clone_element());
    public_inputs.push(proof.location_hash.clone_element());
    proof {
        let m = public_inputs@.map_values(|e: FieldElement| fr_value_of(e.bytes@));
        assert(public_inputs@.len() == 4);
        assert(m[0] == fr_value_of(proof.name_hash.bytes@));
        assert(le_int(public_inputs@[1].bytes@) == proof.dob_year as int);
        assert(m[1] == (proof.dob_year as int) % fr_modulus());
        assert(m[2] == fr_value_of(proof.gender_hash.bytes@));
        assert(m[3] == fr_value_of(proof.location_hash.bytes@));
        assert(m =~= public_inputs_of(*proof));
    }
    Ok(groth16_verify_bytes(&keys.verifying_key, &proof.proof_bytes, &public_inputs))
}

} // verus!
