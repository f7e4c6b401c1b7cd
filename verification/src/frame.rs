//! Canonical JSON framing for the two transport shapes: the cookie value
//! `{"order":[...],"content":[...]}` and the envelope claims
//! `{"order":[...],"content":[...],"iat":N,"exp":N}`. The writer emits one
//! canonical text per value; the strict parser accepts exactly that text.

use vstd::prelude::*;

use crate::dec::{dec_bytes, is_digit, lemma_dec_bytes_digits, lemma_parse_dec_writer, parse_dec};
use crate::wire::{json_u8_list, lemma_parse_u8_list_writer, parse_u8_list};

verus! {

/// The bytes of `{"order":`.
pub open spec fn lit_order() -> Seq<u8> {
    seq![123u8, 34u8, 111u8, 114u8, 100u8, 101u8, 114u8, 34u8, 58u8]
}

/// The bytes of `,"content":`.
pub open spec fn lit_content() -> Seq<u8> {
    seq![44u8, 34u8, 99u8, 111u8, 110u8, 116u8, 101u8, 110u8, 116u8, 34u8, 58u8]
}

/// The bytes of `,"iat":`.
pub open spec fn lit_iat() -> Seq<u8> {
    seq![44u8, 34u8, 105u8, 97u8, 116u8, 34u8, 58u8]
}

/// The bytes of `,"exp":`.
pub open spec fn lit_exp() -> Seq<u8> {
    seq![44u8, 34u8, 101u8, 120u8, 112u8, 34u8, 58u8]
}

/// The bytes of `t` stand in `s` at offset `i`.
pub open spec fn match_at(s: Seq<u8>, i: int, t: Seq<u8>) -> bool {
    0 <= i && i + t.len() <= s.len() && s.subrange(i, i + t.len() as int) == t
}

pub proof fn lemma_match_concat(pre: Seq<u8>, mid: Seq<u8>, post: Seq<u8>)
    ensures
        match_at(pre + mid + post, pre.len() as int, mid),
{
    let s = pre + mid + post;
    let i = pre.len() as int;
    assert forall|k: int| 0 <= k < mid.len() implies s.subrange(i, i + mid.len() as int)[k]
        == mid[k] by {
        assert(s.subrange(i, i + mid.len() as int)[k] == s[i + k]);
    }
    assert(s.subrange(i, i + mid.len() as int) =~= mid);
}

/// The canonical cookie value for an encrypted blob.
pub open spec fn cookie_json(order: Seq<u8>, content: Seq<u8>) -> Seq<u8> {
    lit_order() + json_u8_list(order) + lit_content() + json_u8_list(content) + seq![125u8]
}

/// Reads a canonical cookie value: exactly the two fields, nothing after
/// the closing brace.
pub open spec fn parse_cookie_json(s: Seq<u8>) -> Option<(Seq<u8>, Seq<u8>)> {
    if match_at(s, 0, lit_order()) {
        match parse_u8_list(s, lit_order().len() as int) {
            None => None,
            Some((o, j)) => if match_at(s, j, lit_content()) {
                match parse_u8_list(s, j + lit_content().len() as int) {
                    None => None,
                    Some((c, k)) => if k + 1 == s.len() && s[k] == 125 {
                        Some((o, c))
                    } else {
                        None
                    },
                }
            } else {
                None
            },
        }
    } else {
        None
    }
}

/// The canonical claims text for a signed envelope: the encrypted blob plus
/// plaintext issued-at and expiry copies.
pub open spec fn claims_json(order: Seq<u8>, content: Seq<u8>, iat: u64, exp: u64) -> Seq<u8> {
    lit_order() + json_u8_list(order) + lit_content() + json_u8_list(content) + lit_iat()
        + dec_bytes(iat as nat) + lit_exp() + dec_bytes(exp as nat) + seq![125u8]
}

/// Reads a canonical claims text: exactly the four fields, nothing after
/// the closing brace.
pub open spec fn parse_claims_json(s: Seq<u8>) -> Option<(Seq<u8>, Seq<u8>, u64, u64)> {
    if match_at(s, 0, lit_order()) {
        match parse_u8_list(s, lit_order().len() as int) {
            None => None,
            Some((o, j)) => if match_at(s, j, lit_content()) {
                match parse_u8_list(s, j + lit_content().len() as int) {
                    None => None,
                    Some((c, j2)) => if match_at(s, j2, lit_iat()) {
                        match parse_dec(s, j2 + lit_iat().len() as int) {
                            None => None,
                            Some((iat, j3)) => if match_at(s, j3, lit_exp()) {
                                match parse_dec(s, j3 + lit_exp().len() as int) {
                                    None => None,
                                    Some((exp, j4)) => if j4 + 1 == s.len() && 0 <= j4 < s.len()
                                        && s[j4] == 125 {
                                        Some((o, c, iat, exp))
                                    } else {
                                        None
                                    },
                                }
                            } else {
                                None
                            },
                        }
                    } else {
                        None
                    },
                }
            } else {
                None
            },
        }
    } else {
        None
    }
}

/// Law: the strict cookie parser reads the canonical cookie text of any
/// blob back unchanged.
pub proof fn lemma_parse_cookie_json_writer(order: Seq<u8>, content: Seq<u8>)
    ensures
        parse_cookie_json(cookie_json(order, content)) == Some((order, content)),
{
    let s = cookie_json(order, content);
    let lo = json_u8_list(order);
    let lc = json_u8_list(content);
    let i1 = lit_order().len() as int;
    let j = i1 + lo.len() as int;
    let j2 = j + lit_content().len() as int;
    let k = j2 + lc.len() as int;
    assert(s =~= Seq::<u8>::empty() + lit_order() + (lo + lit_content() + lc + seq![125u8]));
    lemma_match_concat(Seq::<u8>::empty(), lit_order(), lo + lit_content() + lc + seq![125u8]);
    assert(match_at(s, 0, lit_order()));
    assert(s =~= (lit_order() + lo) + (lit_content() + lc + seq![125u8]));
    assert(s.subrange(i1, j) =~= lo) by {
        lemma_match_concat(lit_order(), lo, lit_content() + lc + seq![125u8]);
        assert(match_at(lit_order() + lo + (lit_content() + lc + seq![125u8]), i1, lo));
        assert(s =~= lit_order() + lo + (lit_content() + lc + seq![125u8]));
    }
    lemma_parse_u8_list_writer(s, i1, order);
    assert(match_at(s, j, lit_content())) by {
        lemma_match_concat(lit_order() + lo, lit_content(), lc + seq![125u8]);
        assert(s =~= (lit_order() + lo) + lit_content() + (lc + seq![125u8]));
    }
    assert(s.subrange(j2, k) =~= lc) by {
        lemma_match_concat(lit_order() + lo + lit_content(), lc, seq![125u8]);
        assert(s =~= (lit_order() + lo + lit_content()) + lc + seq![125u8]);
    }
    lemma_parse_u8_list_writer(s, j2, content);
    assert(s[k] == 125);
    assert(k + 1 == s.len());
}

/// Law: the strict claims parser reads the canonical claims text of any
/// blob and timestamps back unchanged.
#[verifier::rlimit(100)]
#[verifier::spinoff_prover]
pub proof fn lemma_parse_claims_json_writer(order: Seq<u8>, content: Seq<u8>, iat: u64, exp: u64)
    ensures
        parse_claims_json(claims_json(order, content, iat, exp)) == Some((
            order,
            content,
            iat,
            exp,
        )),
{
    let s = claims_json(order, content, iat, exp);
    let lo = json_u8_list(order);
    let lc = json_u8_list(content);
    let di = dec_bytes(iat as nat);
    let de = dec_bytes(exp as nat);
    let i1 = lit_order().len() as int;
    let j = i1 + lo.len() as int;
    let j2 = j + lit_content().len() as int;
    let j2e = j2 + lc.len() as int;
    let j3s = j2e + lit_iat().len() as int;
    let j3 = j3s + di.len() as int;
    let j4s = j3 + lit_exp().len() as int;
    let j4 = j4s + de.len() as int;
    lemma_dec_bytes_digits(iat as nat);
    lemma_dec_bytes_digits(exp as nat);
    assert(match_at(s, 0, lit_order())) by {
        lemma_match_concat(
            Seq::<u8>::empty(),
            lit_order(),
            lo + lit_content() + lc + lit_iat() + di + lit_exp() + de + seq![125u8],
        );
        assert(s =~= Seq::<u8>::empty() + lit_order() + (lo + lit_content() + lc + lit_iat() + di
            + lit_exp() + de + seq![125u8]));
    }
    assert(s.subrange(i1, j) =~= lo) by {
        lemma_match_concat(
            lit_order(),
            lo,
            lit_content() + lc + lit_iat() + di + lit_exp() + de + seq![125u8],
        );
        assert(s =~= lit_order() + lo + (lit_content() + lc + lit_iat() + di + lit_exp() + de
            + seq![125u8]));
    }
    lemma_parse_u8_list_writer(s, i1, order);
    assert(match_at(s, j, lit_content())) by {
        lemma_match_concat(
            lit_order() + lo,
            lit_content(),
            lc + lit_iat() + di + lit_exp() + de + seq![125u8],
        );
        assert(s =~= (lit_order() + lo) + lit_content() + (lc + lit_iat() + di + lit_exp() + de
            + seq![125u8]));
    }
    assert(s.subrange(j2, j2e) =~= lc) by {
        lemma_match_concat(
            lit_order() + lo + lit_content(),
            lc,
            lit_iat() + di + lit_exp() + de + seq![125u8],
        );
        assert(s =~= (lit_order() + lo + lit_content()) + lc + (lit_iat() + di + lit_exp() + de
            + seq![125u8]));
    }
    lemma_parse_u8_list_writer(s, j2, content);
    assert(match_at(s, j2e, lit_iat())) by {
        lemma_match_concat(
            lit_order() + lo + lit_content() + lc,
            lit_iat(),
            di + lit_exp() + de + seq![125u8],
        );
        assert(s =~= (lit_order() + lo + lit_content() + lc) + lit_iat() + (di + lit_exp() + de
            + seq![125u8]));
    }
    assert(s.subrange(j3s, j3) =~= di) by {
        lemma_match_concat(
            lit_order() + lo + lit_content() + lc + lit_iat(),
            di,
            lit_exp() + de + seq![125u8],
        );
        assert(s =~= (lit_order() + lo + lit_content() + lc + lit_iat()) + di + (lit_exp() + de
            + seq![125u8]));
    }
    assert(s[j3] == 44);
    assert(!is_digit(s[j3]));
    lemma_parse_dec_writer(s, j3s, iat);
    assert(match_at(s, j3, lit_exp())) by {
        lemma_match_concat(
            lit_order() + lo + lit_content() + lc + lit_iat() + di,
            lit_exp(),
            de + seq![125u8],
        );
        assert(s =~= (lit_order() + lo + lit_content() + lc + lit_iat() + di) + lit_exp() + (de
            + seq![125u8]));
    }
    assert(s.subrange(j4s, j4) =~= de) by {
        lemma_match_concat(
            lit_order() + lo + lit_content() + lc + lit_iat() + di + lit_exp(),
            de,
            seq![125u8],
        );
        assert(s =~= (lit_order() + lo + lit_content() + lc + lit_iat() + di + lit_exp()) + de
            + seq![125u8]);
    }
    assert(s[j4] == 125);
    assert(!is_digit(s[j4]));
    lemma_parse_dec_writer(s, j4s, exp);
    assert(j4 + 1 == s.len());
}

/// Appends the bytes of `lit` onto `out`.
pub fn push_bytes(out: &mut Vec<u8>, lit: &[u8])
    ensures
        final(out)@ == old(out)@ + lit@,
{
    let mut k: usize = 0;
    while k < lit.len()
        invariant
            k <= lit@.len(),
            out@ == old(out)@ + lit@.subrange(0, k as int),
        decreases lit@.len() - k,
    {
        let ghost prev = out@;
        out.push(lit[k]);
        proof {
            assert(prev.push(lit@[k as int]) =~= old(out)@ + lit@.subrange(0, k + 1));
        }
        k = k + 1;
    }
    proof {
        assert(lit@.subrange(0, lit@.len() as int) =~= lit@);
    }
}

/// Tests whether the bytes of `lit` stand in `s` at offset `pos`.
pub fn bytes_match_at(s: &[u8], pos: usize, lit: &[u8]) -> (r: bool)
    ensures
        r == match_at(s@, pos as int, lit@),
{
    if s.len() < lit.len() || pos > s.len() - lit.len() {
        return false;
    }
    let mut k: usize = 0;
    while k < lit.len()
        invariant
            pos + lit@.len() <= s@.len(),
            s@.len() <= usize::MAX,
            k <= lit@.len(),
            forall|t: int| 0 <= t < k ==> s@[pos + t] == lit@[t],
        decreases lit@.len() - k,
    {
        if s[pos + k] != lit[k] {
            proof {
                if match_at(s@, pos as int, lit@) {
                    assert(s@.subrange(pos as int, pos as int + lit@.len() as int)[k as int]
                        == lit@[k as int]);
                }
            }
            return false;
        }
        k = k + 1;
    }
    proof {
        assert(s@.subrange(pos as int, pos as int + lit@.len() as int) =~= lit@);
    }
    true
}

} // verus!
