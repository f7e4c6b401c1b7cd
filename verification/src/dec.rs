//! Decimal text for unsigned numbers: the canonical digit string of a
//! number, a strict parser for it, and the proof that the parser reads the
//! writer's output back.

use vstd::prelude::*;

verus! {

/// The byte is an ASCII decimal digit.
pub open spec fn is_digit(b: u8) -> bool {
    48 <= b <= 57
}

/// The decimal ASCII digits of `n`, most significant first, without leading
/// zeros.
pub open spec fn dec_bytes(n: nat) -> Seq<u8>
    decreases n,
{
    if n < 10 {
        seq![(48 + n) as u8]
    } else {
        dec_bytes(n / 10).push((48 + n % 10) as u8)
    }
}

pub proof fn lemma_dec_bytes_digits(n: nat)
    ensures
        dec_bytes(n).len() >= 1,
        forall|i: int| 0 <= i < dec_bytes(n).len() ==> is_digit(#[trigger] dec_bytes(n)[i]),
    decreases n,
{
    if n >= 10 {
        lemma_dec_bytes_digits(n / 10);
    }
}

/// 10^k.
pub open spec fn pow10(k: nat) -> nat
    decreases k,
{
    if k == 0 {
        1
    } else {
        10 * pow10((k - 1) as nat)
    }
}

/// Reads a run of decimal digits starting at `i`, accumulating their value
/// onto `acc`; stops at the first non-digit or the end of the input, and
/// fails if the value would exceed `u64::MAX`.
pub open spec fn parse_dec_loop(s: Seq<u8>, i: int, acc: u64) -> Option<(u64, int)>
    decreases s.len() - i,
{
    if 0 <= i < s.len() && is_digit(s[i]) {
        let d = (s[i] - 48) as u64;
        if acc <= (u64::MAX - d) / 10 {
            parse_dec_loop(s, i + 1, (acc * 10 + d) as u64)
        } else {
            None
        }
    } else {
        Some((acc, i))
    }
}

/// Reads a decimal number at `i`: at least one digit, value within `u64`.
pub open spec fn parse_dec(s: Seq<u8>, i: int) -> Option<(u64, int)> {
    if 0 <= i < s.len() && is_digit(s[i]) {
        parse_dec_loop(s, i, 0)
    } else {
        None
    }
}

proof fn lemma_parse_dec_loop_writer(s: Seq<u8>, i: int, acc: u64, n: u64)
    requires
        0 <= i,
        i + dec_bytes(n as nat).len() <= s.len(),
        s.subrange(i, i + dec_bytes(n as nat).len() as int) == dec_bytes(n as nat),
        acc * pow10(dec_bytes(n as nat).len() as nat) + n <= u64::MAX,
    ensures
        parse_dec_loop(s, i, acc) == parse_dec_loop(
            s,
            i + dec_bytes(n as nat).len() as int,
            (acc * pow10(dec_bytes(n as nat).len() as nat) + n) as u64,
        ),
    decreases n,
{
    let len = dec_bytes(n as nat).len() as int;
    if n < 10 {
        assert(dec_bytes(n as nat) == seq![(48 + n) as u8]);
        assert(s[i] == dec_bytes(n as nat)[0]);
        assert(pow10(1) == 10 * pow10(0));
        assert(acc * 10 + n <= u64::MAX);
        assert(is_digit(s[i]));
        let d = (s[i] - 48) as u64;
        assert(d == n);
        assert(acc <= (u64::MAX - d) / 10);
    } else {
        let m = (n / 10) as u64;
        let lm = dec_bytes(m as nat).len() as int;
        assert(dec_bytes(n as nat) == dec_bytes(m as nat).push((48 + n % 10) as u8));
        assert(len == lm + 1);
        let p = pow10(lm as nat);
        assert(pow10(len as nat) == 10 * p);
        assert(s.subrange(i, i + lm) =~= dec_bytes(m as nat)) by {
            assert(forall|k: int|
                0 <= k < lm ==> s.subrange(i, i + len)[k] == #[trigger] s.subrange(i, i + lm)[k]);
        }
        assert(acc * (10 * p) == (acc * p) * 10) by (nonlinear_arith);
        assert((acc * p) * 10 + 10 * m <= acc * (10 * p) + n) by {
            assert(10 * m <= n);
        }
        assert(acc * p + m <= u64::MAX);
        lemma_parse_dec_loop_writer(s, i, acc, m);
        let acc2 = (acc * p + m) as u64;
        assert(parse_dec_loop(s, i, acc) == parse_dec_loop(s, i + lm, acc2));
        let d = (n % 10) as u64;
        assert(s.subrange(i, i + len)[lm] == s[i + lm]);
        assert(dec_bytes(n as nat)[lm] == (48 + n % 10) as u8);
        assert(s[i + lm] == (48 + n % 10) as u8);
        assert(is_digit(s[i + lm]));
        assert(acc2 * 10 + d == acc * pow10(len as nat) + n) by {
            assert((acc * p + m) * 10 == (acc * p) * 10 + m * 10) by (nonlinear_arith);
            assert(m * 10 + d == n);
        }
        assert(acc2 <= (u64::MAX - d) / 10);
        assert(parse_dec_loop(s, i + lm, acc2) == parse_dec_loop(
            s,
            i + len,
            (acc2 * 10 + d) as u64,
        ));
    }
}

/// Law: the strict decimal parser reads the canonical digit string of `n`
/// back as `n`, stopping right after it, whenever the string is followed by
/// a non-digit or the end of the input.
pub proof fn lemma_parse_dec_writer(s: Seq<u8>, i: int, n: u64)
    requires
        0 <= i,
        i + dec_bytes(n as nat).len() <= s.len(),
        s.subrange(i, i + dec_bytes(n as nat).len() as int) == dec_bytes(n as nat),
        i + dec_bytes(n as nat).len() == s.len() || !is_digit(
            s[i + dec_bytes(n as nat).len() as int],
        ),
    ensures
        parse_dec(s, i) == Some((n, i + dec_bytes(n as nat).len() as int)),
{
    let len = dec_bytes(n as nat).len() as int;
    lemma_dec_bytes_digits(n as nat);
    assert(s[i] == dec_bytes(n as nat)[0]);
    assert(is_digit(s[i]));
    assert(0 * pow10(dec_bytes(n as nat).len() as nat) == 0) by (nonlinear_arith);
    lemma_parse_dec_loop_writer(s, i, 0, n);
}

/// Writes `n` in decimal onto `out`.
pub fn write_u64_dec(out: &mut Vec<u8>, n: u64)
    ensures
        final(out)@ == old(out)@ + dec_bytes(n as nat),
{
    let ghost base = out@;
    let mut rev: Vec<u8> = Vec::new();
    let mut m: u64 = n;
    rev.push((m % 10) as u8 + 48);
    m = m / 10;
    while m > 0
        invariant
            dec_bytes(n as nat) == (if m > 0 {
                dec_bytes(m as nat)
            } else {
                Seq::<u8>::empty()
            }) + rev@.reverse(),
            rev@.len() >= 1,
        decreases m,
    {
        let ghost prev_rev = rev@;
        let ghost prev_m = m;
        rev.push((m % 10) as u8 + 48);
        m = m / 10;
        proof {
            assert(rev@.reverse() =~= seq![(48 + prev_m % 10) as u8] + prev_rev.reverse());
            if m > 0 {
                assert(dec_bytes(prev_m as nat) == dec_bytes(m as nat).push(
                    (48 + prev_m % 10) as u8,
                ));
                assert(dec_bytes(m as nat) + rev@.reverse() =~= dec_bytes(prev_m as nat)
                    + prev_rev.reverse());
            } else {
                assert(dec_bytes(prev_m as nat) == seq![(48 + prev_m) as u8]);
                assert(Seq::<u8>::empty() + rev@.reverse() =~= dec_bytes(prev_m as nat)
                    + prev_rev.reverse());
            }
        }
    }
    proof {
        assert(dec_bytes(n as nat) =~= rev@.reverse());
    }
    let mut k: usize = rev.len();
    while k > 0
        invariant
            k <= rev@.len(),
            out@.len() == base.len() + rev@.len() - k,
            out@.subrange(0, base.len() as int) =~= base,
            forall|j: int|
                base.len() <= j < out@.len() ==> out@[j] == rev@[rev@.len() - 1 - (j
                    - base.len())],
        decreases k,
    {
        k = k - 1;
        out.push(rev[k]);
    }
    proof {
        assert(out@ =~= base + rev@.reverse());
    }
}

/// Parses a decimal number in `s` starting at `pos`, returning its value
/// and the index just past its digits.
pub fn parse_u64_at(s: &[u8], pos: usize) -> (r: Option<(u64, usize)>)
    ensures
        r matches Some(p) ==> parse_dec(s@, pos as int) == Some((p.0, p.1 as int)) && pos < p.1
            <= s@.len(),
        r is None ==> parse_dec(s@, pos as int) is None,
{
    if pos >= s.len() || !(48 <= s[pos] && s[pos] <= 57) {
        return None;
    }
    let mut i: usize = pos;
    let mut acc: u64 = 0;
    while i < s.len() && 48 <= s[i] && s[i] <= 57
        invariant
            pos <= i <= s@.len(),
            pos < s@.len(),
            is_digit(s@[pos as int]),
            parse_dec_loop(s@, pos as int, 0) == parse_dec_loop(s@, i as int, acc),
        decreases s@.len() - i,
    {
        let d = (s[i] - 48) as u64;
        if acc > (u64::MAX - d) / 10 {
            return None;
        }
        acc = acc * 10 + d;
        i = i + 1;
    }
    Some((acc, i))
}

} // verus!
