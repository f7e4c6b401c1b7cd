//! Small field checks shared by the sign-in and sign-up forms, and the
//! emptiness test they rest on.

use vstd::prelude::*;

use crate::errors::CustomError;

verus! {

/// A value that can report itself empty.
pub trait IsEmpty {
    spec fn spec_is_empty(&self) -> bool;

    fn is_empty(&self) -> (r: bool)
        ensures
            r == self.spec_is_empty(),
    ;
}

impl IsEmpty for String {
    open spec fn spec_is_empty(&self) -> bool {
        self@.len() == 0
    }

    fn is_empty(&self) -> (r: bool) {
        self.as_str().is_empty()
    }
}

impl IsEmpty for Vec<String> {
    open spec fn spec_is_empty(&self) -> bool {
        self@.len() == 0
    }

    fn is_empty(&self) -> (r: bool) {
        self.len() == 0
    }
}

/// Fails with `required` exactly when the value is empty.
pub fn required<T: IsEmpty>(value: &T) -> (r: Result<(), CustomError>)
    ensures
        r is Err <==> value.spec_is_empty(),
        r matches Err(e) ==> e.details@ == "required"@,
{
    if IsEmpty::is_empty(value) {
        Err(CustomError::new("required"))
    } else {
        Ok(())
    }
}

/// Fails with `must_accept` exactly when the flag is not set.
pub fn must_accept(terms: &bool) -> (r: Result<(), CustomError>)
    ensures
        r is Err <==> !*terms,
        r matches Err(e) ==> e.details@ == "must_accept"@,
{
    if !*terms {
        Err(CustomError::new("must_accept"))
    } else {
        Ok(())
    }
}

/// The label names one of the offered specialities.
pub open spec fn is_speciality(s: Seq<char>) -> bool {
    ||| s == "Pilates"@
    ||| s == "Psychology"@
    ||| s == "Osteopathy"@
    ||| s == "physiotherapy"@
}

/// Fails with `not_a_spe` exactly when some entry is not an offered
/// speciality.
pub fn not_a_spe(spe: &Vec<String>) -> (r: Result<(), CustomError>)
    ensures
        r is Ok <==> (forall|i: int| 0 <= i < spe@.len() ==> is_speciality(#[trigger] spe@[i]@)),
        r matches Err(e) ==> e.details@ == "not_a_spe"@,
{
    let pilates = "Pilates".to_owned();
    let psychology = "Psychology".to_owned();
    let osteopathy = "Osteopathy".to_owned();
    let physiotherapy = "physiotherapy".to_owned();
    let mut k: usize = 0;
    while k < spe.len()
        invariant
            k <= spe@.len(),
            pilates@ == "Pilates"@,
            psychology@ == "Psychology"@,
            osteopathy@ == "Osteopathy"@,
            physiotherapy@ == "physiotherapy"@,
            forall|i: int| 0 <= i < k ==> is_speciality(#[trigger] spe@[i]@),
        decreases spe@.len() - k,
    {
        let s = &spe[k];
        let known = s.eq(&pilates) || s.eq(&psychology) || s.eq(&osteopathy) || s.eq(
            &physiotherapy,
        );
        if !known {
            return Err(CustomError::new("not_a_spe"));
        }
        k = k + 1;
    }
    Ok(())
}

/// Whether any of the messages is non-empty.
pub fn has_errors(vector: Vec<&String>) -> (r: bool)
    ensures
        r == exists|i: int| 0 <= i < vector@.len() && #[trigger] vector@[i]@.len() > 0,
{
    let mut k: usize = 0;
    while k < vector.len()
        invariant
            k <= vector@.len(),
            forall|i: int| 0 <= i < k ==> #[trigger] vector@[i]@.len() == 0,
        decreases vector@.len() - k,
    {
        if !vector[k].as_str().is_empty() {
            return true;
        }
        k = k + 1;
    }
    false
}

} // verus!
