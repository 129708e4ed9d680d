use zk_identity::encoder::hash_to_field;
use zk_identity::field::{field_add, FieldElement};
use zk_identity::circuit::{build_instance, CircuitError, IdentityCircuit};
use zk_identity::info::PersonalInfo;
use zk_identity::zkproof::{PredicateOutcome, VerificationType, ZKProof};

fn sample_proof(dob_year: u64, gender: &str) -> ZKProof {
    let name_hash = hash_to_field("alice example");
    let gender_hash = hash_to_field(gender);
    let location_hash = field_add(&hash_to_field("springfield"), &hash_to_field("illinois"));
    ZKProof::new(vec![1u8, 2, 3], name_hash, dob_year, gender_hash, location_hash)
}

#[test]
fn adult_minor_boundary_at_eighteen() {
    let adult = sample_proof(2007, "female");
    assert!(adult.verify(VerificationType::IsAdult, "", "", 2025));
    assert!(!adult.verify(VerificationType::IsMinor, "", "", 2025));

    let minor = sample_proof(2008, "female");
    assert!(!minor.verify(VerificationType::IsAdult, "", "", 2025));
    assert!(minor.verify(VerificationType::IsMinor, "", "", 2025));
}

#[test]
fn adult_fails_closed_when_birth_year_in_future() {
    let p = sample_proof(2030, "female");
    assert!(!p.verify(VerificationType::IsAdult, "", "", 2025));
    assert!(p.verify(VerificationType::IsMinor, "", "", 2025));
}

#[test]
fn age_range_inside_and_outside() {
    let p = sample_proof(1995, "male");
    assert!(p.verify(VerificationType::IsInAgeRange, "25", "35", 2025));

    let older = sample_proof(1980, "male");
    assert!(!older.verify(VerificationType::IsInAgeRange, "25", "35", 2025));
}

#[test]
fn age_range_fails_closed_on_non_numeric_bounds() {
    let p = sample_proof(1995, "male");
    assert!(!p.verify(VerificationType::IsInAgeRange, "abc", "35", 2025));
    assert!(!p.verify(VerificationType::IsInAgeRange, "25", "", 2025));
    assert!(!p.verify(VerificationType::IsInAgeRange, "-1", "35", 2025));
}

#[test]
fn gender_predicates_use_normalized_hash() {
    let info = PersonalInfo::new("bob", 1990, "austin", "texas", "MALE");
    assert_eq!(info.gender, "male");
    let from_upper = hash_to_field(&info.gender);
    let from_lower = hash_to_field("male");
    assert!(from_upper.equals(&from_lower));

    let p = sample_proof(1990, "female");
    assert!(!p.verify(VerificationType::IsMale, "", "", 2025));
    assert!(p.verify(VerificationType::IsFemale, "", "", 2025));
}

#[test]
fn location_predicates_are_unsupported() {
    let p = sample_proof(1990, "male");
    assert_eq!(
        p.evaluate(VerificationType::IsFromCity, "springfield", "", 2025),
        PredicateOutcome::Unsupported
    );
    assert_eq!(
        p.evaluate(VerificationType::IsFromState, "illinois", "", 2025),
        PredicateOutcome::Unsupported
    );
    assert!(!p.verify(VerificationType::IsFromCity, "springfield", "", 2025));
    assert!(!p.verify(VerificationType::IsFromState, "illinois", "", 2025));
}

#[test]
fn encoder_is_deterministic_and_spreads() {
    let a1 = hash_to_field("same input");
    let a2 = hash_to_field("same input");
    assert!(a1.equals(&a2));
    assert_eq!(a1.to_hex(), a2.to_hex());

    let b = hash_to_field("other input");
    assert!(!a1.equals(&b));
    let c = hash_to_field("");
    assert!(!a1.equals(&c));
    assert!(!b.equals(&c));
}

#[test]
fn encoded_elements_are_canonical() {
    assert!(hash_to_field("anything").is_canonical());
    assert!(FieldElement::from_u64(u64::MAX).is_canonical());
    let sum = field_add(&hash_to_field("x"), &hash_to_field("y"));
    assert!(sum.is_canonical());
}

#[test]
fn field_add_matches_known_small_values() {
    let two = field_add(&FieldElement::from_u64(1), &FieldElement::from_u64(1));
    assert!(two.equals(&FieldElement::from_u64(2)));
    let big = field_add(&FieldElement::from_u64(u64::MAX), &FieldElement::from_u64(1));
    assert!(!big.equals(&FieldElement::from_u64(0)));
}

#[test]
fn proof_accessors_expose_disclosed_values() {
    let p = sample_proof(1999, "male");
    assert_eq!(p.get_birth_year(), 1999);
    assert_eq!(p.proof_size_bytes(), 3);
}

#[test]
fn circuit_instance_extraction_needs_all_witnesses() {
    let empty = IdentityCircuit::for_setup();
    assert_eq!(empty.instance().err(), Some(CircuitError::MissingWitness));

    let info = PersonalInfo::new("carol", 1970, "reno", "nevada", "female");
    let inst = build_instance(&info);
    assert!(inst.name.equals(&inst.name_hash));
    assert!(inst.birth_year.equals(&inst.birth_year_public));
    assert!(inst.gender.equals(&inst.gender_hash));
    let sum = field_add(&inst.city, &inst.state);
    assert!(sum.equals(&inst.location_hash));
    assert!(inst.location_hash.equals(&field_add(
        &hash_to_field("reno"),
        &hash_to_field("nevada")
    )));
}
