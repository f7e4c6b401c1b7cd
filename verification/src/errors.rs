//! Error and form-check types: the generic error response shape, the
//! sign-in and sign-up form error carriers, and a plain-text error.

use vstd::prelude::*;

verus! {

/// A plain error carrying its description.
#[derive(Debug)]
pub struct CustomError {
    pub details: String,
}

impl CustomError {
    pub fn new(msg: &str) -> (r: CustomError)
        ensures
            r.details@ == msg@,
    {
        CustomError { details: msg.to_owned() }
    }

    pub fn new_boxed(msg: &str) -> (r: Box<CustomError>)
        ensures
            r.details@ == msg@,
    {
        Box::new(CustomError::new(msg))
    }
}

/// The error shape every failing response carries: a kind, a reason, and
/// optional structured detail.
#[derive(Debug)]
pub struct RespErrors<T> {
    pub kind: String,
    pub reason: String,
    pub errors: Option<T>,
}

impl<T> RespErrors<T> {
    pub fn new(kind: &str, reason: &str, errors: Option<T>) -> (r: Self)
        ensures
            r.kind@ == kind@,
            r.reason@ == reason@,
            r.errors == errors,
    {
        RespErrors { kind: kind.to_owned(), reason: reason.to_owned(), errors }
    }
}

/// Field errors of the sign-in form.
#[derive(Debug)]
pub struct SignInDataErrors {
    pub email: String,
}

impl SignInDataErrors {
    pub fn new(error: &str) -> (r: Self)
        ensures
            r.email@ == error@,
    {
        SignInDataErrors { email: error.to_owned() }
    }
}

/// Field errors of the sign-up form, one message per field; an empty
/// message means the field passed.
#[allow(non_snake_case)]
#[derive(Debug)]
pub struct SignUpDataErrors {
    pub firstName: String,
    pub lastName: String,
    pub email: String,
    pub phone: String,
    pub spe: String,
    pub siren: String,
    pub terms: String,
    pub privacy: String,
}

impl SignUpDataErrors {
    pub fn new() -> (r: Self)
        ensures
            r.firstName@.len() == 0,
            r.lastName@.len() == 0,
            r.email@.len() == 0,
            r.phone@.len() == 0,
            r.spe@.len() == 0,
            r.siren@.len() == 0,
            r.terms@.len() == 0,
            r.privacy@.len() == 0,
    {
        SignUpDataErrors {
            firstName: String::new(),
            lastName: String::new(),
            email: String::new(),
            phone: String::new(),
            spe: String::new(),
            siren: String::new(),
            terms: String::new(),
            privacy: String::new(),
        }
    }
}

/// The sign-in form data under validation.
#[derive(Debug)]
pub struct SignInDataCheck {
    pub email: String,
}

impl SignInDataCheck {
    pub fn new(email: String) -> (r: Self)
        ensures
            r.email == email,
    {
        Self { email }
    }
}

/// The sign-up form data under validation.
#[allow(non_snake_case)]
#[derive(Debug)]
pub struct SignUpDataCheck {
    pub firstName: String,
    pub lastName: String,
    pub email: String,
    pub phone: String,
    pub siren: String,
    pub terms: bool,
    pub privacy: bool,
}

} // verus!
