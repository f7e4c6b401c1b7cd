use focus_auth::errors::{CustomError, RespErrors, SignInDataErrors, SignUpDataErrors};
use focus_auth::types::RateLimitMiddleware;
use focus_auth::validate::{has_errors, must_accept, not_a_spe, required};

#[test]
fn required_rejects_empty_values() {
    assert!(required(&String::new()).is_err());
    assert!(required(&String::from("x")).is_ok());
    assert!(required(&Vec::<String>::new()).is_err());
    assert!(required(&vec![String::from("a")]).is_ok());
    assert_eq!(required(&String::new()).unwrap_err().details, "required");
}

#[test]
fn must_accept_requires_true() {
    assert!(must_accept(&true).is_ok());
    let err = must_accept(&false).unwrap_err();
    assert_eq!(err.details, "must_accept");
}

#[test]
fn not_a_spe_accepts_known_specialities() {
    let known = vec![String::from("Pilates"), String::from("Osteopathy")];
    assert!(not_a_spe(&known).is_ok());
    assert!(not_a_spe(&Vec::new()).is_ok());
    let unknown = vec![String::from("Pilates"), String::from("Alchemy")];
    let err = not_a_spe(&unknown).unwrap_err();
    assert_eq!(err.details, "not_a_spe");
}

#[test]
fn has_errors_finds_any_message() {
    let empty1 = String::new();
    let empty2 = String::new();
    let msg = String::from("bad");
    assert!(!has_errors(vec![&empty1, &empty2]));
    assert!(has_errors(vec![&empty1, &msg]));
    assert!(!has_errors(Vec::new()));
}

#[test]
fn resp_errors_keeps_its_parts() {
    let e: RespErrors<String> = RespErrors::new("Auth", "TimeLeft", Some(String::from("5000")));
    assert_eq!(e.kind, "Auth");
    assert_eq!(e.reason, "TimeLeft");
    assert_eq!(e.errors, Some(String::from("5000")));
}

#[test]
fn custom_error_keeps_details() {
    let e = CustomError::new("Cannot delete user.");
    assert_eq!(e.details, "Cannot delete user.");
    let b = CustomError::new_boxed("boxed");
    assert_eq!(b.details, "boxed");
}

#[test]
fn signup_errors_start_empty() {
    let e = SignUpDataErrors::new();
    assert!(e.firstName.is_empty());
    assert!(e.lastName.is_empty());
    assert!(e.email.is_empty());
    assert!(e.phone.is_empty());
    assert!(e.spe.is_empty());
    assert!(e.siren.is_empty());
    assert!(e.terms.is_empty());
    assert!(e.privacy.is_empty());
}

#[test]
fn signin_errors_carry_the_code() {
    let e = SignInDataErrors::new("not_found");
    assert_eq!(e.email, "not_found");
}

#[test]
fn rate_limiter_starts_empty() {
    let r = RateLimitMiddleware::new(100, 60_000);
    assert_eq!(r.max_requests, 100);
    assert_eq!(r.duration_ms, 60_000);
    assert!(r.requests.is_empty());
}
