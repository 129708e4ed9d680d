use ark_bn254::{Bn254, Fr};
use ark_ff::PrimeField;
use ark_groth16::{Groth16, Proof, ProvingKey, VerifyingKey};
use ark_relations::gr1cs::{
    ConstraintSynthesizer, ConstraintSystemRef, LinearCombination, SynthesisError, Variable,
};
use ark_serialize::{CanonicalDeserialize, CanonicalSerialize};
use ark_snark::SNARK;
use ark_std::rand::rngs::StdRng;
use ark_std::rand::SeedableRng;

use zk_identity::circuit::{build_instance, CircuitInstance, IdentityCircuit};
use zk_identity::encoder::hash_to_field;
use zk_identity::field::FieldElement;
use zk_identity::info::PersonalInfo;
use zk_identity::keys::SetupKeys;
use zk_identity::snark::{verify_cryptographic, VerifyError};
use zk_identity::zkproof::ZKProof;

fn fr_of(e: &FieldElement) -> Fr {
    Fr::from_le_bytes_mod_order(&e.bytes)
}

struct TestIdentityCircuit {
    instance: Option<CircuitInstance>,
}

impl ConstraintSynthesizer<Fr> for TestIdentityCircuit {
    fn generate_constraints(self, cs: ConstraintSystemRef<Fr>) -> Result<(), SynthesisError> {
        let get = |v: Option<Fr>| move || v.ok_or(SynthesisError::AssignmentMissing);
        let w = |i: usize| self.instance.as_ref().map(|inst| fr_of(wire(inst, i)));
        let name_var = cs.new_witness_variable(get(w(0)))?;
        let birth_year_var = cs.new_witness_variable(get(w(1)))?;
        let gender_var = cs.new_witness_variable(get(w(2)))?;
        let city_var = cs.new_witness_variable(get(w(3)))?;
        let state_var = cs.new_witness_variable(get(w(4)))?;
        let name_hash_var = cs.new_input_variable(get(w(5)))?;
        let birth_year_public_var = cs.new_input_variable(get(w(6)))?;
        let gender_hash_var = cs.new_input_variable(get(w(7)))?;
        let location_hash_var = cs.new_input_variable(get(w(8)))?;
        let one: LinearCombination<Fr> = Variable::One.into();
        cs.enforce_r1cs_constraint(|| name_var.into(), || one.clone(), || name_hash_var.into())?;
        let one2 = one.clone();
        cs.enforce_r1cs_constraint(
            || birth_year_var.into(),
            || one2,
            || birth_year_public_var.into(),
        )?;
        let one3 = one.clone();
        cs.enforce_r1cs_constraint(|| gender_var.into(), || one3, || gender_hash_var.into())?;
        let sum = LinearCombination::<Fr>(vec![
            (Fr::from(1u64), city_var),
            (Fr::from(1u64), state_var),
        ]);
        cs.enforce_r1cs_constraint(|| sum, || one, || location_hash_var.into())?;
        Ok(())
    }
}

fn wire(inst: &CircuitInstance, i: usize) -> &FieldElement {
    match i {
        0 => &inst.name,
        1 => &inst.birth_year,
        2 => &inst.gender,
        3 => &inst.city,
        4 => &inst.state,
        5 => &inst.name_hash,
        6 => &inst.birth_year_public,
        7 => &inst.gender_hash,
        _ => &inst.location_hash,
    }
}

fn setup() -> SetupKeys {
    let mut rng = StdRng::seed_from_u64(0u64);
    let circuit = TestIdentityCircuit { instance: None };
    let (pk, vk) = Groth16::<Bn254>::circuit_specific_setup(circuit, &mut rng)
        .expect("witness-free setup must succeed");
    let mut pk_bytes = Vec::new();
    pk.serialize_compressed(&mut pk_bytes).expect("pk serializes");
    let mut vk_bytes = Vec::new();
    vk.serialize_compressed(&mut vk_bytes).expect("vk serializes");
    SetupKeys::new(pk_bytes, vk_bytes)
}

fn prove(info: &PersonalInfo, keys: &SetupKeys) -> ZKProof {
    let mut rng = StdRng::seed_from_u64(0u64);
    let pk = ProvingKey::<Bn254>::deserialize_compressed(&keys.proving_key[..])
        .expect("pk deserializes");
    let instance = build_instance(info);
    let circuit = TestIdentityCircuit { instance: Some(instance) };
    let proof = Groth16::<Bn254>::prove(&pk, circuit, &mut rng).expect("proving must succeed");
    let mut proof_bytes = Vec::new();
    proof.serialize_compressed(&mut proof_bytes).expect("proof serializes");
    let instance = build_instance(info);
    ZKProof::from_instance(&instance, info.dob_year, proof_bytes)
}

fn sample_info() -> PersonalInfo {
    PersonalInfo::new("alice example", 1995, "springfield", "illinois", "Female")
}

#[test]
fn proof_verifies_under_matching_keys() {
    let keys = setup();
    let proof = prove(&sample_info(), &keys);
    assert_eq!(verify_cryptographic(&keys, &proof), Ok(true));
}

#[test]
fn disclosed_values_match_the_attributes() {
    let keys = setup();
    let info = sample_info();
    let proof = prove(&info, &keys);
    assert_eq!(proof.get_birth_year(), 1995);
    let name_again = FieldElement::from_hex(&proof.name_hash.to_hex()).expect("hex parses");
    assert!(name_again.equals(&hash_to_field("alice example")));
    assert!(proof.gender_hash.equals(&hash_to_field("female")));
}

#[test]
fn bit_flipped_proof_fails_verification() {
    let keys = setup();
    let mut proof = prove(&sample_info(), &keys);
    let last = proof.proof_bytes.len() - 1;
    proof.proof_bytes[last] ^= 1;
    assert_ne!(verify_cryptographic(&keys, &proof), Ok(true));
}

#[test]
fn changed_public_value_fails_verification() {
    let keys = setup();
    let mut proof = prove(&sample_info(), &keys);
    proof.dob_year = 2007;
    assert_eq!(verify_cryptographic(&keys, &proof), Ok(false));
}

struct OtherCircuit {
    a: Option<Fr>,
}

impl ConstraintSynthesizer<Fr> for OtherCircuit {
    fn generate_constraints(self, cs: ConstraintSystemRef<Fr>) -> Result<(), SynthesisError> {
        let a_var = cs.new_witness_variable(|| self.a.ok_or(SynthesisError::AssignmentMissing))?;
        let b_var = cs.new_input_variable(|| self.a.ok_or(SynthesisError::AssignmentMissing))?;
        cs.enforce_r1cs_constraint(|| a_var.into(), || Variable::One.into(), || b_var.into())?;
        Ok(())
    }
}

#[test]
fn keys_for_another_topology_are_rejected() {
    let keys = setup();
    let proof = prove(&sample_info(), &keys);

    let mut rng = StdRng::seed_from_u64(1u64);
    let (_, other_vk) =
        Groth16::<Bn254>::circuit_specific_setup(OtherCircuit { a: None }, &mut rng)
            .expect("setup of the small circuit must succeed");
    let mut other_vk_bytes = Vec::new();
    other_vk.serialize_compressed(&mut other_vk_bytes).expect("vk serializes");
    let pk_copy = keys.proving_key.clone();
    let mismatched = SetupKeys::new(pk_copy, other_vk_bytes);
    assert_eq!(
        verify_cryptographic(&mismatched, &proof),
        Err(VerifyError::KeyDeserializationFailure)
    );
}

#[test]
fn proof_round_trips_through_json_after_proving() {
    let keys = setup();
    let proof = prove(&sample_info(), &keys);
    let json = proof.to_json();
    let back = ZKProof::from_json(&json).expect("canonical json parses");
    assert_eq!(verify_cryptographic(&keys, &back), Ok(true));
}

#[test]
fn keys_round_trip_through_base64_and_still_verify() {
    let keys = setup();
    let encoded = keys.to_base64();
    let back = SetupKeys::from_base64(&encoded).expect("own base64 parses");
    let proof = prove(&sample_info(), &back);
    assert_eq!(verify_cryptographic(&back, &proof), Ok(true));
}

#[test]
fn malformed_key_and_proof_bytes_give_distinct_errors() {
    let keys = setup();
    let proof = prove(&sample_info(), &keys);

    let bad_keys = SetupKeys::new(keys.proving_key.clone(), vec![0u8, 1, 2]);
    assert_eq!(
        verify_cryptographic(&bad_keys, &proof),
        Err(VerifyError::KeyDeserializationFailure)
    );

    let truncated = ZKProof::from_instance(
        &build_instance(&sample_info()),
        1995,
        vec![0u8, 1, 2],
    );
    assert_eq!(
        verify_cryptographic(&keys, &truncated),
        Err(VerifyError::ProofDeserializationFailure)
    );
}

#[test]
fn binary_forms_round_trip() {
    let keys = setup();
    let proof = prove(&sample_info(), &keys);

    let parsed = Proof::<Bn254>::deserialize_compressed(&proof.proof_bytes[..])
        .expect("proof bytes deserialize");
    let mut again = Vec::new();
    parsed.serialize_compressed(&mut again).expect("proof reserializes");
    assert_eq!(again, proof.proof_bytes);

    let vk = VerifyingKey::<Bn254>::deserialize_compressed(&keys.verifying_key[..])
        .expect("vk bytes deserialize");
    let mut vk_again = Vec::new();
    vk.serialize_compressed(&mut vk_again).expect("vk reserializes");
    assert_eq!(vk_again, keys.verifying_key);
}
