//! Backoff calculator: derives the lockout duration from the lockout
//! exponent. The duration is zero for exponent zero and otherwise grows
//! exponentially, `5^exponent` whole minutes, saturating at `i64::MAX`
//! milliseconds.

use vstd::prelude::*;

verus! {

/// `5^e` as a mathematical integer.
pub open spec fn pow5(e: nat) -> nat
    decreases e,
{
    if e == 0 {
        1
    } else {
        5 * pow5((e - 1) as nat)
    }
}

pub proof fn lemma_pow5_increases(a: nat, b: nat)
    requires
        a <= b,
    ensures
        pow5(a) <= pow5(b),
    decreases b,
{
    if a < b {
        lemma_pow5_increases(a, (b - 1) as nat);
    }
}

/// Lockout duration in milliseconds for a given lockout exponent: zero when
/// the exponent is zero or negative, otherwise `5^exponent` minutes,
/// saturating at `i64::MAX`.
pub open spec fn extra_time_millis(e: int) -> int {
    if e <= 0 {
        0
    } else if pow5(e as nat) * 60_000 > i64::MAX as int {
        i64::MAX as int
    } else {
        pow5(e as nat) * 60_000 as int
    }
}

/// The deadline that a lockout starting at `now_ms` with the given exponent
/// runs until, saturating at `i64::MAX`.
pub open spec fn next_deadline_millis(now_ms: int, e: int) -> int {
    if now_ms + extra_time_millis(e) > i64::MAX as int {
        i64::MAX as int
    } else {
        now_ms + extra_time_millis(e)
    }
}

/// Computes the lockout duration in milliseconds for `exponent`.
pub fn create_extra_time(exponent: i32) -> (r: i64)
    ensures
        r == extra_time_millis(exponent as int),
{
    if exponent <= 0 {
        return 0;
    }
    if exponent > 20 {
        proof {
            reveal_with_fuel(pow5, 22);
            assert(pow5(21) == 476837158203125);
            lemma_pow5_increases(21, exponent as nat);
        }
        return i64::MAX;
    }
    let mut acc: i64 = 1;
    let mut i: i32 = 0;
    proof {
        reveal_with_fuel(pow5, 21);
        assert(pow5(20) == 95367431640625);
    }
    while i < exponent
        invariant
            0 <= i <= exponent <= 20,
            acc == pow5(i as nat),
            pow5(20) == 95367431640625,
        decreases exponent - i,
    {
        proof {
            lemma_pow5_increases((i + 1) as nat, 20);
        }
        acc = acc * 5;
        i = i + 1;
    }
    proof {
        lemma_pow5_increases(exponent as nat, 20);
    }
    acc * 60_000
}

/// Computes the deadline that a lockout starting at `now_ms` with the given
/// exponent runs until.
pub fn new_deadline(now_ms: i64, new_exponent: i32) -> (r: i64)
    requires
        now_ms >= 0,
    ensures
        r == next_deadline_millis(now_ms as int, new_exponent as int),
        r >= now_ms,
{
    let extra = create_extra_time(new_exponent);
    if extra > i64::MAX - now_ms {
        i64::MAX
    } else {
        now_ms + extra
    }
}

} // verus!
