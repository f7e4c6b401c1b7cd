//! The verification record and its state machine: code checking with
//! try-decrement, lockout triggering with exponential backoff, the delivery
//! gate capping code sends, and the resets.
//!
//! Every operation here is pure with respect to the outside world: the clock
//! is passed in as epoch milliseconds and persistence is left to the caller,
//! which saves the mutated record through its own store.

use vstd::prelude::*;

use crate::backoff::{create_extra_time, extra_time_millis, new_deadline, next_deadline_millis};
use crate::rng::random_digit;

verus! {

/// Result of comparing a candidate code against the record's current code.
#[derive(Debug, PartialEq, Eq, Structural)]
pub struct RespCheckCode {
    pub valid: bool,
}

/// Result of comparing the lockout deadline against the clock.
#[derive(Debug, PartialEq, Eq, Structural)]
pub struct RespCheckDeadLine {
    pub still_time: bool,
    pub time_left: i64,
}

/// The number of codes sent in the current window, as reported to a caller.
#[derive(Debug, PartialEq, Eq, Structural)]
pub struct NumOfSending {
    pub sent: i32,
}

/// Outcome of a request to deliver a fresh code.
#[derive(Clone, Copy, Debug, PartialEq, Eq, Structural)]
pub enum SendingState {
    Sent,
    NotSent,
    AlreadySent,
}

/// Outcome of checking a candidate code against a record.
#[derive(Clone, Copy, Debug, PartialEq, Eq, Structural)]
pub enum CodeCheckOutcome {
    /// The candidate matched the record's current code.
    Valid,
    /// The candidate was wrong; this many tries remain.
    Invalid { tries: i32 },
    /// The candidate was wrong, no try remains, and the account is now
    /// locked for this many milliseconds.
    Blocked { time_left: i64 },
}

/// Per-user verification state: success flags, the try and send budgets,
/// the outstanding code, and the lockout state.
#[derive(Clone, Debug)]
pub struct TwoFaRecord {
    pub email_verified: bool,
    pub tries_remaining: i32,
    pub send_count: i32,
    pub current_code: Option<String>,
    pub lockout_deadline: Option<i64>,
    pub lockout_exponent: i32,
    pub phone_verified: bool,
}

impl TwoFaRecord {
    /// Well-formedness: budgets within their ranges, an outstanding code is
    /// never the empty string, and the deadline is a real timestamp.
    pub open spec fn wf(self) -> bool {
        &&& 0 <= self.tries_remaining <= 3
        &&& 0 <= self.send_count <= 2
        &&& 0 <= self.lockout_exponent
        &&& (self.current_code matches Some(c) ==> c@.len() > 0)
        &&& (self.lockout_deadline matches Some(d) ==> d >= 0)
    }

    /// The record is locked out at `now_ms`: a deadline is set and lies in
    /// the future.
    pub open spec fn locked(self, now_ms: int) -> bool {
        self.lockout_deadline matches Some(d) && d > now_ms
    }

    /// The candidate code is the record's current one; an absent current
    /// code matches nothing.
    pub open spec fn code_matches(self, candidate: Seq<char>) -> bool {
        self.current_code matches Some(c) && c@ == candidate
    }

    /// A record in the state a brand-new verification cycle starts from.
    pub fn fresh() -> (r: TwoFaRecord)
        ensures
            r == TwoFaRecord::fresh_spec(),
    {
        TwoFaRecord {
            email_verified: false,
            tries_remaining: 3,
            send_count: 0,
            current_code: None,
            lockout_deadline: None,
            lockout_exponent: 0,
            phone_verified: false,
        }
    }

    /// The reset state: flags cleared, three tries, no sends, no code, no
    /// lockout, exponent zero.
    pub open spec fn fresh_spec() -> TwoFaRecord {
        TwoFaRecord {
            email_verified: false,
            tries_remaining: 3,
            send_count: 0,
            current_code: None,
            lockout_deadline: None,
            lockout_exponent: 0,
            phone_verified: false,
        }
    }

    pub fn get_number_of_sending(&self) -> (r: i32)
        ensures
            r == self.send_count,
    {
        self.send_count
    }

    pub fn get_tries(&self) -> (r: i32)
        ensures
            r == self.tries_remaining,
    {
        self.tries_remaining
    }

    pub fn get_exponent(&self) -> (r: i32)
        ensures
            r == self.lockout_exponent,
    {
        self.lockout_exponent
    }

    pub fn get_deadline(&self) -> (r: Option<i64>)
        ensures
            r == self.lockout_deadline,
    {
        self.lockout_deadline
    }

    /// Compares a candidate code with the record's current code. An absent
    /// current code is invalid, never a crash.
    pub fn check_code(&self, code: &String) -> (r: RespCheckCode)
        ensures
            r.valid == self.code_matches(code@),
    {
        match &self.current_code {
            Some(c) => RespCheckCode { valid: c.eq(code) },
            None => RespCheckCode { valid: false },
        }
    }

    /// Reports whether the lockout deadline still lies ahead of `now_ms`
    /// and how far. With no deadline set the record is not locked.
    pub fn check_deadline(&self, now_ms: i64) -> (r: RespCheckDeadLine)
        requires
            now_ms >= 0,
            self.wf(),
        ensures
            self.lockout_deadline is None ==> r == (RespCheckDeadLine {
                still_time: false,
                time_left: 0,
            }),
            self.lockout_deadline matches Some(d) ==> r == (RespCheckDeadLine {
                still_time: d > now_ms,
                time_left: (d - now_ms) as i64,
            }),
            r.still_time == self.locked(now_ms as int),
    {
        match self.lockout_deadline {
            None => RespCheckDeadLine { still_time: false, time_left: 0 },
            Some(d) => RespCheckDeadLine { still_time: d > now_ms, time_left: d - now_ms },
        }
    }

    /// Relates a record before and after `reset_tries`: a no-op while the
    /// user still has unused budget, otherwise a restored full budget.
    pub open spec fn reset_tries_rel(pre: TwoFaRecord, post: TwoFaRecord) -> bool {
        if pre.send_count < 2 && pre.tries_remaining > 0 {
            post == pre
        } else {
            post == TwoFaRecord { tries_remaining: 3, send_count: 0, ..pre }
        }
    }

    /// Restores the full try and send budget, unless some of it is still
    /// unused, in which case nothing changes.
    pub fn reset_tries(&mut self)
        requires
            old(self).wf(),
        ensures
            TwoFaRecord::reset_tries_rel(*old(self), *final(self)),
            final(self).wf(),
    {
        if self.send_count < 2 && self.tries_remaining > 0 {
        } else {
            self.tries_remaining = 3;
            self.send_count = 0;
        }
    }

    /// Starts a brand-new verification cycle: all counters and flags reset.
    pub fn reset_validation_system(&mut self)
        ensures
            *final(self) == TwoFaRecord::fresh_spec(),
            final(self).wf(),
    {
        self.email_verified = false;
        self.tries_remaining = 3;
        self.send_count = 0;
        self.current_code = None;
        self.lockout_deadline = None;
        self.lockout_exponent = 0;
        self.phone_verified = false;
    }

    /// Consumes one try and returns how many remain.
    pub fn remove_one_try(&mut self) -> (tries: i32)
        requires
            old(self).wf(),
            old(self).tries_remaining > 0,
        ensures
            tries == old(self).tries_remaining - 1,
            *final(self) == (TwoFaRecord { tries_remaining: tries, ..*old(self) }),
            final(self).wf(),
    {
        self.tries_remaining = self.tries_remaining - 1;
        self.tries_remaining
    }

    /// Relates a record before and after `block_account` at `now_ms`.
    pub open spec fn block_rel(pre: TwoFaRecord, now_ms: int, post: TwoFaRecord) -> bool {
        post == TwoFaRecord {
            lockout_exponent: (pre.lockout_exponent + 1) as i32,
            lockout_deadline: Some(next_deadline_millis(now_ms, pre.lockout_exponent + 1) as i64),
            ..pre
        }
    }

    /// Triggers a lockout: raises the exponent and sets the deadline that
    /// the backoff calculator derives from it. Returns the lockout duration
    /// left, in milliseconds.
    pub fn block_account(&mut self, now_ms: i64) -> (time_left: i64)
        requires
            old(self).wf(),
            now_ms >= 0,
            old(self).lockout_exponent < i32::MAX,
        ensures
            TwoFaRecord::block_rel(*old(self), now_ms as int, *final(self)),
            final(self).wf(),
            time_left == next_deadline_millis(
                now_ms as int,
                old(self).lockout_exponent + 1,
            ) - now_ms,
            time_left >= 0,
    {
        let new_exponent = self.lockout_exponent + 1;
        let deadline = new_deadline(now_ms, new_exponent);
        self.lockout_exponent = new_exponent;
        self.lockout_deadline = Some(deadline);
        deadline - now_ms
    }

    /// Relates a record, a candidate code and the clock to the record and
    /// outcome after one code check: a match leaves the record unchanged; a
    /// mismatch consumes a try, and when none is left the account is locked
    /// with a raised exponent.
    pub open spec fn code_attempt_rel(
        pre: TwoFaRecord,
        candidate: Seq<char>,
        now_ms: int,
        post: TwoFaRecord,
        outcome: CodeCheckOutcome,
    ) -> bool {
        if pre.code_matches(candidate) {
            post == pre && outcome == CodeCheckOutcome::Valid
        } else {
            let tries = if pre.tries_remaining > 0 { pre.tries_remaining - 1 } else { 0 };
            if tries == 0 {
                post == TwoFaRecord {
                    tries_remaining: 0 as i32,
                    lockout_exponent: (pre.lockout_exponent + 1) as i32,
                    lockout_deadline: Some(
                        next_deadline_millis(now_ms, pre.lockout_exponent + 1) as i64,
                    ),
                    ..pre
                } && outcome == (CodeCheckOutcome::Blocked {
                    time_left: (next_deadline_millis(now_ms, pre.lockout_exponent + 1)
                        - now_ms) as i64,
                })
            } else {
                post == TwoFaRecord { tries_remaining: tries as i32, ..pre }
                    && outcome == (CodeCheckOutcome::Invalid { tries: tries as i32 })
            }
        }
    }

    /// Checks a candidate code: on a match the record is untouched; on a
    /// mismatch one try is consumed, and when the budget is exhausted the
    /// account is locked out.
    pub fn process_code_attempt(&mut self, candidate: &String, now_ms: i64) -> (outcome:
        CodeCheckOutcome)
        requires
            old(self).wf(),
            now_ms >= 0,
            old(self).lockout_exponent < i32::MAX,
            !old(self).locked(now_ms as int),
        ensures
            TwoFaRecord::code_attempt_rel(
                *old(self),
                candidate@,
                now_ms as int,
                *final(self),
                outcome,
            ),
            final(self).wf(),
    {
        if self.check_code(candidate).valid {
            CodeCheckOutcome::Valid
        } else {
            let tries = if self.tries_remaining > 0 { self.tries_remaining - 1 } else { 0 };
            self.tries_remaining = tries;
            if tries == 0 {
                let time_left = self.block_account(now_ms);
                CodeCheckOutcome::Blocked { time_left }
            } else {
                CodeCheckOutcome::Invalid { tries }
            }
        }
    }

    /// Relates a record, a freshly issued code and the delivery outcome to
    /// the record and state after one send request: past the cap of two the
    /// gate refuses and nothing changes; otherwise the code is stored, and
    /// only a confirmed delivery consumes a send slot.
    pub open spec fn issue_and_send_rel(
        pre: TwoFaRecord,
        code: Seq<char>,
        delivered: bool,
        post: TwoFaRecord,
        s: SendingState,
    ) -> bool {
        if pre.send_count >= 2 {
            post == pre && s == SendingState::AlreadySent
        } else {
            &&& post.current_code matches Some(c) && c@ == code
            &&& post == TwoFaRecord {
                current_code: post.current_code,
                send_count: post.send_count,
                ..pre
            }
            &&& if delivered {
                post.send_count == pre.send_count + 1 && s == SendingState::Sent
            } else {
                post.send_count == pre.send_count && s == SendingState::NotSent
            }
        }
    }

    /// Requests delivery of a fresh code, with the send cap enforced and
    /// the delivery outcome `delivered` applied to the record.
    pub fn issue_and_send(&mut self, code: String, delivered: bool) -> (s: SendingState)
        requires
            old(self).wf(),
            code@.len() > 0,
        ensures
            TwoFaRecord::issue_and_send_rel(*old(self), code@, delivered, *final(self), s),
            final(self).wf(),
    {
        if self.send_count >= 2 {
            SendingState::AlreadySent
        } else {
            self.current_code = Some(code);
            if delivered {
                self.send_count = self.send_count + 1;
                SendingState::Sent
            } else {
                SendingState::NotSent
            }
        }
    }
}

/// Law: the delivery gate admits at most two confirmed sends. From a record
/// with no send used, two delivered sends fill the budget, and any third
/// request is refused with `AlreadySent` and leaves the record unchanged.
pub proof fn lemma_send_cap(
    r0: TwoFaRecord,
    c1: Seq<char>,
    r1: TwoFaRecord,
    s1: SendingState,
    c2: Seq<char>,
    r2: TwoFaRecord,
    s2: SendingState,
    c3: Seq<char>,
    r3: TwoFaRecord,
    s3: SendingState,
    delivered3: bool,
)
    requires
        r0.wf(),
        r0.send_count == 0,
        TwoFaRecord::issue_and_send_rel(r0, c1, true, r1, s1),
        TwoFaRecord::issue_and_send_rel(r1, c2, true, r2, s2),
        TwoFaRecord::issue_and_send_rel(r2, c3, delivered3, r3, s3),
    ensures
        s1 == SendingState::Sent,
        s2 == SendingState::Sent,
        r2.send_count == 2,
        s3 == SendingState::AlreadySent,
        r3 == r2,
{
}

/// Law: a wrong code against a record with a single try left exhausts the
/// budget and triggers the lockout, with the exponent raised by one and the
/// deadline derived from it.
pub proof fn lemma_last_try_locks(
    pre: TwoFaRecord,
    candidate: Seq<char>,
    now_ms: int,
    post: TwoFaRecord,
    outcome: CodeCheckOutcome,
)
    requires
        pre.wf(),
        pre.lockout_exponent < i32::MAX,
        0 <= now_ms <= i64::MAX,
        pre.tries_remaining == 1,
        !pre.code_matches(candidate),
        TwoFaRecord::code_attempt_rel(pre, candidate, now_ms, post, outcome),
    ensures
        post.tries_remaining == 0,
        post.lockout_exponent == pre.lockout_exponent + 1,
        post.lockout_deadline == Some(
            next_deadline_millis(now_ms, pre.lockout_exponent + 1) as i64,
        ),
        outcome is Blocked,
{
}

/// Generates a fresh verification code: seven characters, each a decimal
/// digit. Leading zeros are possible; the code is a string, not a number.
pub fn generate_code() -> (code: String)
    ensures
        code@.len() == 7,
        forall|i: int| 0 <= i < code@.len() ==> '0' <= #[trigger] code@[i] <= '9',
{
    let mut code = String::new();
    let mut k: usize = 0;
    while k < 7
        invariant
            k <= 7,
            code@.len() == k,
            forall|i: int| 0 <= i < code@.len() ==> '0' <= #[trigger] code@[i] <= '9',
        decreases 7 - k,
    {
        let d = random_digit();
        code.append(digit_str(d));
        k = k + 1;
    }
    code
}

/// The one-character decimal string for a digit.
fn digit_str(d: u8) -> (s: &'static str)
    requires
        d < 10,
    ensures
        s@.len() == 1,
        '0' <= s@[0] <= '9',
{
    proof {
        reveal_strlit("0");
        reveal_strlit("1");
        reveal_strlit("2");
        reveal_strlit("3");
        reveal_strlit("4");
        reveal_strlit("5");
        reveal_strlit("6");
        reveal_strlit("7");
        reveal_strlit("8");
        reveal_strlit("9");
    }
    match d {
        0 => "0",
        1 => "1",
        2 => "2",
        3 => "3",
        4 => "4",
        5 => "5",
        6 => "6",
        7 => "7",
        8 => "8",
        _ => "9",
    }
}

} // verus!
