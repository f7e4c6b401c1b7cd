//! Plain request, delivery and form data shapes that the flows around the
//! core exchange.

use vstd::prelude::*;

verus! {

/// Body of a code-check request.
#[derive(Debug)]
pub struct CheckCodeRequest {
    pub code: String,
}

/// Body of an email-check request: the cross-channel token, if any came.
#[derive(Debug)]
pub struct CheckEmailDataRequest {
    pub token: Option<String>,
}

/// What the two-factor email carries.
#[derive(Debug)]
pub struct TwoFactorAuthEmailData {
    pub email_to: String,
    pub first_name: String,
    pub token: String,
}

/// What an appointment-confirmation email with a form carries.
#[derive(Debug)]
pub struct RdvConfirmWithFormEmailData {
    pub email_to: String,
    pub first_name: String,
    pub date: String,
    pub token: String,
}

/// What an appointment-confirmation email carries.
#[derive(Debug)]
pub struct RdvConfirmEmailData {
    pub email_to: String,
    pub first_name: String,
    pub date: String,
    pub times: String,
    pub token: String,
}

/// What the code-delivery text message carries.
#[derive(Debug)]
pub struct AuthCodeSmsData {
    pub phone: String,
    pub first_name: String,
    pub code: String,
}

/// What the appointment-reminder text message carries.
#[derive(Debug)]
pub struct RdvReminderSmsData {
    pub date: String,
    pub timeslot: String,
    pub pro_full_name: String,
    pub user_phone: String,
    pub shorten_url: String,
}

/// The sign-up form as submitted.
#[allow(non_snake_case)]
#[derive(Debug)]
pub struct SignUpDataResult {
    pub firstName: String,
    pub lastName: String,
    pub email: String,
    pub phone: String,
    pub address: Option<String>,
    pub postal: Option<String>,
    pub city: Option<String>,
    pub denomination: Option<String>,
    pub sameIdentity: bool,
    pub checkSiren: bool,
    pub siren: String,
    pub terms: bool,
    pub privacy: bool,
}

/// A fixed-window rate limiter's configuration and per-client counters.
#[derive(Debug)]
pub struct RateLimitMiddleware {
    pub max_requests: usize,
    pub duration_ms: u64,
    pub requests: Vec<(String, usize, u64)>,
}

impl RateLimitMiddleware {
    pub fn new(max_requests: usize, duration_ms: u64) -> (r: Self)
        ensures
            r.max_requests == max_requests,
            r.duration_ms == duration_ms,
            r.requests@.len() == 0,
    {
        RateLimitMiddleware { max_requests, duration_ms, requests: Vec::new() }
    }
}

} // verus!
