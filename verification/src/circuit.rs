//! The identity circuit: the constraint topology binding five private
//! witnesses to four public values.
//!
//! Each constraint is a rank-1 equality `a * 1 = c` over linear
//! combinations:
//! - witness name            = public name commitment
//! - witness birth year      = public birth year (disclosed in full)
//! - witness gender          = public gender commitment
//! - witness city + state    = public location commitment (a field sum,
//!   not a hash of the concatenation; see the location predicates for
//!   the selective-disclosure limitation this implies)

use vstd::prelude::*;
use vstd::utf8::encode_utf8;
use crate::field::{FieldElement, fr_modulus, field_add};
use crate::encoder::{field_encode, hash_to_field};
use crate::info::PersonalInfo;

verus! {

/// Failure of constraint generation: a witness was absent although the
/// circuit was being generated for proving.
#[derive(Clone, Copy, PartialEq, Eq, Structural, Debug)]
pub enum CircuitError {
    MissingWitness,
}

/// A fully assigned circuit: the five private witnesses and the four
/// public values a satisfying assignment must relate them to.
pub struct CircuitInstance {
    pub name: FieldElement,
    pub birth_year: FieldElement,
    pub gender: FieldElement,
    pub city: FieldElement,
    pub state: FieldElement,
    pub name_hash: FieldElement,
    pub birth_year_public: FieldElement,
    pub gender_hash: FieldElement,
    pub location_hash: FieldElement,
}

impl CircuitInstance {
    pub open spec fn wf(&self) -> bool {
        &&& self.name.wf()
        &&& self.birth_year.wf()
        &&& self.gender.wf()
        &&& self.city.wf()
        &&& self.state.wf()
        &&& self.name_hash.wf()
        &&& self.birth_year_public.wf()
        &&& self.gender_hash.wf()
        &&& self.location_hash.wf()
    }

    /// The four rank-1 constraints of the identity circuit, as equations
    /// over field values.
    pub open spec fn satisfies_constraints(&self) -> bool {
        &&& self.name.value() == self.name_hash.value()
        &&& self.birth_year.value() == self.birth_year_public.value()
        &&& self.gender.value() == self.gender_hash.value()
        &&& (self.city.value() + self.state.value()) % fr_modulus() == self.location_hash.value()
    }
}

/// The circuit with optional assignments: all absent for the one-time
/// witness-free setup invocation, all present for proving.
pub struct IdentityCircuit {
    pub name: Option<FieldElement>,
    pub birth_year: Option<FieldElement>,
    pub gender: Option<FieldElement>,
    pub city: Option<FieldElement>,
    pub state: Option<FieldElement>,
    pub name_hash: Option<FieldElement>,
    pub birth_year_public: Option<FieldElement>,
    pub gender_hash: Option<FieldElement>,
    pub location_hash: Option<FieldElement>,
}

impl IdentityCircuit {
    /// The witness-free shape used for setup: structural generation only.
    pub fn for_setup() -> (r: IdentityCircuit)
        ensures
            !r.fully_assigned(),
            r.name is None && r.birth_year is None && r.gender is None && r.city is None
                && r.state is None && r.name_hash is None && r.birth_year_public is None
                && r.gender_hash is None && r.location_hash is None,
    {
        IdentityCircuit {
            name: None,
            birth_year: None,
            gender: None,
            city: None,
            state: None,
            name_hash: None,
            birth_year_public: None,
            gender_hash: None,
            location_hash: None,
        }
    }

    pub open spec fn fully_assigned(&self) -> bool {
        &&& self.name is Some
        &&& self.birth_year is Some
        &&& self.gender is Some
        &&& self.city is Some
        &&& self.state is Some
        &&& self.name_hash is Some
        &&& self.birth_year_public is Some
        &&& self.gender_hash is Some
        &&& self.location_hash is Some
    }

    /// Extract the concrete assignment, exactly when every value is
    /// present; generation for proving fails on any absent witness.
    pub fn instance(self) -> (r: Result<CircuitInstance, CircuitError>)
        ensures
            (r is Ok) == self.fully_assigned(),
            r matches Err(e) ==> e == CircuitError::MissingWitness,
            r matches Ok(inst) ==> {
                &&& self.name matches Some(v) && inst.name == v
                &&& self.birth_year matches Some(v) && inst.birth_year == v
                &&& self.gender matches Some(v) && inst.gender == v
                &&& self.city matches Some(v) && inst.city == v
                &&& self.state matches Some(v) && inst.state == v
                &&& self.name_hash matches Some(v) && inst.name_hash == v
                &&& self.birth_year_public matches Some(v) && inst.birth_year_public == v
                &&& self.gender_hash matches Some(v) && inst.gender_hash == v
                &&& self.location_hash matches Some(v) && inst.location_hash == v
            },
    {
        let IdentityCircuit {
            name,
            birth_year,
            gender,
            city,
            state,
            name_hash,
            birth_year_public,
            gender_hash,
            location_hash,
        } = self;
        let name = match name {
            Some(v) => v,
            None => {
                return Err(CircuitError::MissingWitness);
            },
        };
        let birth_year = match birth_year {
            Some(v) => v,
            None => {
                return Err(CircuitError::MissingWitness);
            },
        };
        let gender = match gender {
            Some(v) => v,
            None => {
                return Err(CircuitError::MissingWitness);
            },
        };
        let city = match city {
            Some(v) => v,
            None => {
                return Err(CircuitError::MissingWitness);
            },
        };
        let state = match state {
            Some(v) => v,
            None => {
                return Err(CircuitError::MissingWitness);
            },
        };
        let name_hash = match name_hash {
            Some(v) => v,
            None => {
                return Err(CircuitError::MissingWitness);
            },
        };
        let birth_year_public = match birth_year_public {
            Some(v) => v,
            None => {
                return Err(CircuitError::MissingWitness);
            },
        };
        let gender_hash = match gender_hash {
            Some(v) => v,
            None => {
                return Err(CircuitError::MissingWitness);
            },
        };
        let location_hash = match location_hash {
            Some(v) => v,
            None => {
                return Err(CircuitError::MissingWitness);
            },
        };
        Ok(CircuitInstance {
            name,
            birth_year,
            gender,
            city,
            state,
            name_hash,
            birth_year_public,
            gender_hash,
            location_hash,
        })
    }
}

/// Encode the attributes of `info` and assemble the fully assigned,
/// mutually consistent circuit instance the proving protocol uses: every
/// public value is derived from the matching witness, so the instance
/// satisfies all four constraints.
pub fn build_instance(info: &PersonalInfo) -> (inst: CircuitInstance)
    ensures
        inst.wf(),
        inst.satisfies_constraints(),
        inst.name_hash.value() == field_encode(encode_utf8(info.name@)),
        inst.birth_year_public.value() == info.dob_year as int,
        inst.gender_hash.value() == field_encode(encode_utf8(info.gender@)),
        inst.location_hash.value() == (field_encode(encode_utf8(info.city@))
            + field_encode(encode_utf8(info.state@))) % fr_modulus(),
{
    let name = hash_to_field(info.name.as_str());
    let birth_year = FieldElement::from_u64(info.dob_year);
    let gender = hash_to_field(info.gender.as_str());
    let city = hash_to_field(info.city.as_str());
    let state = hash_to_field(info.state.as_str());
    let location_hash = field_add(&city, &state);
    CircuitInstance {
        name_hash: name.clone_element(),
        birth_year_public: birth_year.clone_element(),
        gender_hash: gender.clone_element(),
        location_hash,
        name,
        birth_year,
        gender,
        city,
        state,
    }
}

} // verus!
