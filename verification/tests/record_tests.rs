use focus_auth::record::{CodeCheckOutcome, SendingState, TwoFaRecord};

fn fresh() -> TwoFaRecord {
    TwoFaRecord::fresh()
}

#[test]
fn fresh_record_state() {
    let r = fresh();
    assert_eq!(r.get_tries(), 3);
    assert_eq!(r.get_number_of_sending(), 0);
    assert_eq!(r.get_exponent(), 0);
    assert_eq!(r.get_deadline(), None);
    assert!(!r.email_verified);
    assert!(!r.phone_verified);
    assert!(r.current_code.is_none());
}

#[test]
fn check_code_absent_code_is_invalid() {
    let r = fresh();
    assert!(!r.check_code(&String::from("1234567")).valid);
}

#[test]
fn check_code_matches_current() {
    let mut r = fresh();
    r.current_code = Some(String::from("0012345"));
    assert!(r.check_code(&String::from("0012345")).valid);
    assert!(!r.check_code(&String::from("0012346")).valid);
}

#[test]
fn check_deadline_without_deadline() {
    let r = fresh();
    let resp = r.check_deadline(1_000_000);
    assert!(!resp.still_time);
    assert_eq!(resp.time_left, 0);
}

#[test]
fn check_deadline_five_seconds_left() {
    let now: i64 = 1_000_000;
    let mut r = fresh();
    r.lockout_deadline = Some(now + 5_000);
    let resp = r.check_deadline(now);
    assert!(resp.still_time);
    assert_eq!(resp.time_left, 5_000);
    let later = r.check_deadline(now + 6_000);
    assert!(!later.still_time);
    assert_eq!(later.time_left, -1_000);
}

#[test]
fn reset_tries_is_noop_with_budget_left() {
    let mut r = fresh();
    r.send_count = 0;
    r.tries_remaining = 2;
    r.reset_tries();
    assert_eq!(r.tries_remaining, 2);
    assert_eq!(r.send_count, 0);
}

#[test]
fn reset_tries_restores_spent_budget() {
    let mut r = fresh();
    r.send_count = 2;
    r.tries_remaining = 2;
    r.reset_tries();
    assert_eq!(r.tries_remaining, 3);
    assert_eq!(r.send_count, 0);
}

#[test]
fn reset_tries_restores_after_exhausted_tries() {
    let mut r = fresh();
    r.send_count = 1;
    r.tries_remaining = 0;
    r.reset_tries();
    assert_eq!(r.tries_remaining, 3);
    assert_eq!(r.send_count, 0);
}

#[test]
fn reset_validation_system_clears_everything() {
    let mut r = fresh();
    r.email_verified = true;
    r.phone_verified = true;
    r.tries_remaining = 1;
    r.send_count = 2;
    r.current_code = Some(String::from("1111111"));
    r.lockout_deadline = Some(99);
    r.lockout_exponent = 3;
    r.reset_validation_system();
    assert!(!r.email_verified);
    assert!(!r.phone_verified);
    assert_eq!(r.tries_remaining, 3);
    assert_eq!(r.send_count, 0);
    assert!(r.current_code.is_none());
    assert!(r.lockout_deadline.is_none());
    assert_eq!(r.lockout_exponent, 0);
}

#[test]
fn wrong_code_consumes_a_try() {
    let now: i64 = 50_000;
    let mut r = fresh();
    r.current_code = Some(String::from("7654321"));
    let outcome = r.process_code_attempt(&String::from("0000000"), now);
    assert_eq!(outcome, CodeCheckOutcome::Invalid { tries: 2 });
    assert_eq!(r.tries_remaining, 2);
    assert_eq!(r.lockout_exponent, 0);
    assert!(r.lockout_deadline.is_none());
}

#[test]
fn last_try_triggers_lockout() {
    let now: i64 = 50_000;
    let mut r = fresh();
    r.current_code = Some(String::from("7654321"));
    r.tries_remaining = 1;
    let outcome = r.process_code_attempt(&String::from("0000000"), now);
    assert_eq!(outcome, CodeCheckOutcome::Blocked { time_left: 300_000 });
    assert_eq!(r.tries_remaining, 0);
    assert_eq!(r.lockout_exponent, 1);
    assert_eq!(r.lockout_deadline, Some(now + 300_000));
}

#[test]
fn right_code_leaves_record_unchanged() {
    let now: i64 = 50_000;
    let mut r = fresh();
    r.current_code = Some(String::from("7654321"));
    let outcome = r.process_code_attempt(&String::from("7654321"), now);
    assert_eq!(outcome, CodeCheckOutcome::Valid);
    assert_eq!(r.tries_remaining, 3);
    assert_eq!(r.lockout_exponent, 0);
}

#[test]
fn block_account_escalates() {
    let now: i64 = 1_000;
    let mut r = fresh();
    let left1 = r.block_account(now);
    assert_eq!(left1, 300_000);
    assert_eq!(r.lockout_exponent, 1);
    assert_eq!(r.lockout_deadline, Some(now + 300_000));
    let left2 = r.block_account(now);
    assert_eq!(left2, 1_500_000);
    assert_eq!(r.lockout_exponent, 2);
}

#[test]
fn send_cap_is_two() {
    let mut r = fresh();
    let s1 = r.issue_and_send(String::from("1111111"), true);
    assert_eq!(s1, SendingState::Sent);
    assert_eq!(r.send_count, 1);
    let s2 = r.issue_and_send(String::from("2222222"), true);
    assert_eq!(s2, SendingState::Sent);
    assert_eq!(r.send_count, 2);
    let s3 = r.issue_and_send(String::from("3333333"), true);
    assert_eq!(s3, SendingState::AlreadySent);
    assert_eq!(r.send_count, 2);
    assert_eq!(r.current_code, Some(String::from("2222222")));
}

#[test]
fn failed_delivery_keeps_send_slot() {
    let mut r = fresh();
    let s = r.issue_and_send(String::from("9999999"), false);
    assert_eq!(s, SendingState::NotSent);
    assert_eq!(r.send_count, 0);
    assert_eq!(r.current_code, Some(String::from("9999999")));
}

#[test]
fn generate_code_is_seven_digits() {
    for _ in 0..50 {
        let code = focus_auth::record::generate_code();
        assert_eq!(code.len(), 7);
        assert!(code.chars().all(|c| c.is_ascii_digit()));
    }
}

#[test]
fn remove_one_try_counts_down() {
    let mut r = fresh();
    assert_eq!(r.remove_one_try(), 2);
    assert_eq!(r.remove_one_try(), 1);
    assert_eq!(r.remove_one_try(), 0);
    assert_eq!(r.tries_remaining, 0);
}
