//! The holder's private attribute set.

use vstd::prelude::*;
use crate::encoder::{lowercase, lower_of};

verus! {

/// The attributes a holder commits to. Immutable once constructed; the
/// gender string is case-normalized at construction.
pub struct PersonalInfo {
    pub name: String,
    pub dob_year: u64,
    pub city: String,
    pub state: String,
    pub gender: String,
}

impl PersonalInfo {
    pub fn new(name: &str, dob_year: u64, city: &str, state: &str, gender: &str) -> (r: PersonalInfo)
        ensures
            r.name@ == name@,
            r.dob_year == dob_year,
            r.city@ == city@,
            r.state@ == state@,
            r.gender@ == lower_of(gender@),
    {
        PersonalInfo {
            name: name.to_owned(),
            dob_year,
            city: city.to_owned(),
            state: state.to_owned(),
            gender: lowercase(gender),
        }
    }
}

} // verus!
