//! The proof object and predicate evaluation over its disclosed values.
//!
//! A `ZKProof` carries the opaque succinct proof bytes together with the
//! four public values it attests to, in cleartext. Predicate evaluation
//! reads only those disclosed values; cryptographic verification of the
//! proof bytes themselves is a separate, mandatory step (see the snark
//! module).

use vstd::prelude::*;
use vstd::utf8::encode_utf8;
use crate::field::FieldElement;
use crate::encoder::{field_encode, hash_to_field};
use crate::codec::{parse_u64, spec_parse_u64};

verus! {

/// A succinct proof plus the public values it attests to.
pub struct ZKProof {
    pub proof_bytes: Vec<u8>,
    pub name_hash: FieldElement,
    pub dob_year: u64,
    pub gender_hash: FieldElement,
    pub location_hash: FieldElement,
}

/// The predicates a verifier can evaluate over the disclosed values.
#[derive(Clone, Copy)]
pub enum VerificationType {
    IsAdult,
    IsMinor,
    IsMale,
    IsFemale,
    IsInAgeRange,
    IsFromCity,
    IsFromState,
}

/// The result of evaluating a predicate. The location predicates are
/// unsupported: the location commitment is a field sum of the city and
/// state hashes, which is neither invertible nor selectively openable,
/// so neither component can be confirmed without a circuit redesign.
/// They report `Unsupported` rather than a silent answer.
#[derive(Clone, Copy, PartialEq, Eq, Structural, Debug)]
pub enum PredicateOutcome {
    Holds,
    DoesNotHold,
    Unsupported,
}

impl ZKProof {
    /// The three commitments are canonical field elements.
    pub open spec fn wf(&self) -> bool {
        &&& self.name_hash.wf()
        &&& self.gender_hash.wf()
        &&& self.location_hash.wf()
    }

    pub fn new(
        proof_bytes: Vec<u8>,
        name_hash: FieldElement,
        dob_year: u64,
        gender_hash: FieldElement,
        location_hash: FieldElement,
    ) -> (r: ZKProof)
        ensures
            r.proof_bytes@ == proof_bytes@,
            r.name_hash == name_hash,
            r.dob_year == dob_year,
            r.gender_hash == gender_hash,
            r.location_hash == location_hash,
    {
        ZKProof { proof_bytes, name_hash, dob_year, gender_hash, location_hash }
    }

    /// Package the succinct proof bytes with the public values of the
    /// instance they attest to; the cleartext metadata of the proof is
    /// exactly the instance's public side.
    pub fn from_instance(
        inst: &crate::circuit::CircuitInstance,
        dob_year: u64,
        proof_bytes: Vec<u8>,
    ) -> (r: ZKProof)
        ensures
            r.proof_bytes@ == proof_bytes@,
            r.name_hash.bytes@ == inst.name_hash.bytes@,
            r.dob_year == dob_year,
            r.gender_hash.bytes@ == inst.gender_hash.bytes@,
            r.location_hash.bytes@ == inst.location_hash.bytes@,
            inst.wf() ==> r.wf(),
    {
        ZKProof {
            proof_bytes,
            name_hash: inst.name_hash.clone_element(),
            dob_year,
            gender_hash: inst.gender_hash.clone_element(),
            location_hash: inst.location_hash.clone_element(),
        }
    }

    /// Executable form of `wf`.
    pub fn check_wf(&self) -> (r: bool)
        ensures
            r == self.wf(),
    {
        self.name_hash.is_canonical() && self.gender_hash.is_canonical()
            && self.location_hash.is_canonical()
    }

    pub fn get_birth_year(&self) -> (r: u64)
        ensures
            r == self.dob_year,
    {
        self.dob_year
    }

    pub fn proof_size_bytes(&self) -> (r: usize)
        ensures
            r == self.proof_bytes@.len(),
    {
        self.proof_bytes.len()
    }

    /// What each predicate means over the disclosed public values.
    /// Ages are reckoned in whole calendar years against the reference
    /// year handed in by the caller.
    pub open spec fn spec_outcome(
        &self,
        verify_type: VerificationType,
        value1: Seq<char>,
        value2: Seq<char>,
        reference_year: u64,
    ) -> PredicateOutcome {
        match verify_type {
            VerificationType::IsAdult => {
                if reference_year - self.dob_year >= 18 {
                    PredicateOutcome::Holds
                } else {
                    PredicateOutcome::DoesNotHold
                }
            },
            VerificationType::IsMinor => {
                if reference_year - self.dob_year < 18 {
                    PredicateOutcome::Holds
                } else {
                    PredicateOutcome::DoesNotHold
                }
            },
            VerificationType::IsMale => {
                if self.gender_hash.value() == field_encode(encode_utf8("male"@)) {
                    PredicateOutcome::Holds
                } else {
                    PredicateOutcome::DoesNotHold
                }
            },
            VerificationType::IsFemale => {
                if self.gender_hash.value() == field_encode(encode_utf8("female"@)) {
                    PredicateOutcome::Holds
                } else {
                    PredicateOutcome::DoesNotHold
                }
            },
            VerificationType::IsInAgeRange => {
                match (spec_parse_u64(value1), spec_parse_u64(value2)) {
                    (Some(min_age), Some(max_age)) => {
                        if min_age <= reference_year - self.dob_year
                            && reference_year - self.dob_year <= max_age {
                            PredicateOutcome::Holds
                        } else {
                            PredicateOutcome::DoesNotHold
                        }
                    },
                    _ => PredicateOutcome::DoesNotHold,
                }
            },
            VerificationType::IsFromCity => PredicateOutcome::Unsupported,
            VerificationType::IsFromState => PredicateOutcome::Unsupported,
        }
    }

    /// Evaluate one predicate over the disclosed values. Malformed
    /// arguments (a non-numeric age bound) never abort: the age-range
    /// predicate fails closed.
    pub fn evaluate(
        &self,
        verify_type: VerificationType,
        value1: &str,
        value2: &str,
        reference_year: u64,
    ) -> (r: PredicateOutcome)
        requires
            self.wf(),
        ensures
            r == self.spec_outcome(verify_type, value1@, value2@, reference_year),
    {
        match verify_type {
            VerificationType::IsAdult => {
                if self.dob_year <= reference_year && reference_year - self.dob_year >= 18 {
                    PredicateOutcome::Holds
                } else {
                    PredicateOutcome::DoesNotHold
                }
            },
            VerificationType::IsMinor => {
                if self.dob_year > reference_year || reference_year - self.dob_year < 18 {
                    PredicateOutcome::Holds
                } else {
                    PredicateOutcome::DoesNotHold
                }
            },
            VerificationType::IsMale => {
                let expected = hash_to_field("male");
                if self.gender_hash.equals(&expected) {
                    PredicateOutcome::Holds
                } else {
                    PredicateOutcome::DoesNotHold
                }
            },
            VerificationType::IsFemale => {
                let expected = hash_to_field("female");
                if self.gender_hash.equals(&expected) {
                    PredicateOutcome::Holds
                } else {
                    PredicateOutcome::DoesNotHold
                }
            },
            VerificationType::IsInAgeRange => {
                let min_parsed = parse_u64(value1);
                let max_parsed = parse_u64(value2);
                match (min_parsed, max_parsed) {
                    (Some(min_age), Some(max_age)) => {
                        if self.dob_year <= reference_year {
                            let age = reference_year - self.dob_year;
                            if min_age <= age && age <= max_age {
                                PredicateOutcome::Holds
                            } else {
                                PredicateOutcome::DoesNotHold
                            }
                        } else {
                            PredicateOutcome::DoesNotHold
                        }
                    },
                    _ => PredicateOutcome::DoesNotHold,
                }
            },
            VerificationType::IsFromCity => PredicateOutcome::Unsupported,
            VerificationType::IsFromState => PredicateOutcome::Unsupported,
        }
    }

    /// Boolean form of predicate evaluation: true exactly when the
    /// predicate holds. An unsupported predicate fails closed.
    pub fn verify(
        &self,
        verify_type: VerificationType,
        value1: &str,
        value2: &str,
        reference_year: u64,
    ) -> (r: bool)
        requires
            self.wf(),
        ensures
            r == (self.spec_outcome(verify_type, value1@, value2@, reference_year)
                == PredicateOutcome::Holds),
    {
        let outcome = self.evaluate(verify_type, value1, value2, reference_year);
        match outcome {
            PredicateOutcome::Holds => true,
            PredicateOutcome::DoesNotHold => false,
            PredicateOutcome::Unsupported => false,
        }
    }
}

} // verus!
