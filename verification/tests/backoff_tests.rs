use focus_auth::backoff::{create_extra_time, new_deadline};

#[test]
fn extra_time_zero_exponent() {
    assert_eq!(create_extra_time(0), 0);
    assert_eq!(create_extra_time(-1), 0);
}

#[test]
fn extra_time_first_lockout_is_five_minutes() {
    assert_eq!(create_extra_time(1), 300_000);
}

#[test]
fn extra_time_second_lockout_is_twenty_five_minutes() {
    assert_eq!(create_extra_time(2), 1_500_000);
}

#[test]
fn extra_time_keeps_growing_by_five() {
    assert_eq!(create_extra_time(3), 7_500_000);
    assert_eq!(create_extra_time(4), 37_500_000);
}

#[test]
fn extra_time_saturates_far_out() {
    assert_eq!(create_extra_time(21), i64::MAX);
    assert_eq!(create_extra_time(i32::MAX), i64::MAX);
}

#[test]
fn new_deadline_adds_extra_time() {
    assert_eq!(new_deadline(1_000, 1), 301_000);
    assert_eq!(new_deadline(0, 0), 0);
    assert_eq!(new_deadline(i64::MAX - 10, 1), i64::MAX);
}
