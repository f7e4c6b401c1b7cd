//! The bearer claims and their two transports. A claim is encrypted by the
//! secure payload codec; the result either goes straight into a cookie
//! value as canonical JSON (the cookie-direct transport), or is wrapped in
//! a signed three-part envelope for cross-channel links.

use vstd::prelude::*;
use vstd::bytes::{
    lemma_auto_spec_u128_to_from_le_bytes, lemma_auto_spec_u64_to_from_le_bytes,
    spec_u128_from_le_bytes, spec_u128_to_le_bytes, spec_u64_from_le_bytes, spec_u64_to_le_bytes,
    u128_from_le_bytes, u128_to_le_bytes, u64_from_le_bytes, u64_to_le_bytes,
};

use crate::codec::{decode_blob_spec, decrypt_payload, encrypt_payload, EncryptedPayload};
use crate::b64::{
    b64_decode, b64_decode_bytes, b64_encode, b64_encode_bytes, is_b64_alphabet,
    lemma_b64_encode_alphabet, lemma_b64_round_trip,
};
use crate::errors::RespErrors;
use crate::frame::{
    bytes_match_at, claims_json, cookie_json, lemma_parse_claims_json_writer,
    lemma_parse_cookie_json_writer, lit_content, lit_exp, lit_iat, lit_order,
    parse_claims_json, parse_cookie_json, push_bytes,
};
use crate::dec::{dec_bytes, parse_u64_at, write_u64_dec};
use crate::text::{
    all_ascii, ascii_string, bytes_of_chars, chars_of_bytes, lemma_all_ascii_concat,
    lemma_bytes_chars_round, lemma_chars_bytes_round, lemma_dec_bytes_ascii,
    lemma_json_u8_list_ascii, str_bytes,
};
use crate::wire::{json_u8_list, parse_u8_list_at, write_u8_list};

verus! {

/// The claim carried by the cookie-direct transport: who, and until when
/// (epoch seconds).
#[derive(PartialEq, Eq, Structural, Clone, Copy, Debug)]
pub struct CookiePayload {
    pub exp_at: i64,
    pub id: u128,
}

/// The canonical plaintext of a cookie claim: expiry then identity, both
/// little endian.
pub open spec fn cookie_claim_bytes(p: CookiePayload) -> Seq<u8> {
    spec_u64_to_le_bytes(p.exp_at as u64) + spec_u128_to_le_bytes(p.id)
}

/// Reads a cookie claim back from its plaintext; the expiry must be a
/// non-negative timestamp.
pub open spec fn parse_cookie_claim(b: Seq<u8>) -> Option<CookiePayload> {
    if b.len() == 24 {
        let e = spec_u64_from_le_bytes(b.subrange(0, 8));
        let id = spec_u128_from_le_bytes(b.subrange(8, 24));
        if e <= i64::MAX as u64 {
            Some(CookiePayload { exp_at: e as i64, id })
        } else {
            None
        }
    } else {
        None
    }
}

pub proof fn lemma_cookie_claim_round(p: CookiePayload)
    requires
        p.exp_at >= 0,
    ensures
        parse_cookie_claim(cookie_claim_bytes(p)) == Some(p),
{
    lemma_auto_spec_u64_to_from_le_bytes();
    lemma_auto_spec_u128_to_from_le_bytes();
    let b = cookie_claim_bytes(p);
    assert(b.subrange(0, 8) =~= spec_u64_to_le_bytes(p.exp_at as u64));
    assert(b.subrange(8, 24) =~= spec_u128_to_le_bytes(p.id));
}

/// Writes the canonical plaintext of a cookie claim.
pub fn write_cookie_claim(p: &CookiePayload) -> (out: Vec<u8>)
    requires
        p.exp_at >= 0,
    ensures
        out@ == cookie_claim_bytes(*p),
{
    let mut out = u64_to_le_bytes(p.exp_at as u64);
    let mut id_bytes = u128_to_le_bytes(p.id);
    out.append(&mut id_bytes);
    proof {
        assert(out@ =~= cookie_claim_bytes(*p));
    }
    out
}

/// Reads a cookie claim back from its plaintext.
pub fn read_cookie_claim(b: &[u8]) -> (r: Option<CookiePayload>)
    ensures
        r == parse_cookie_claim(b@),
{
    if b.len() != 24 {
        return None;
    }
    let e = u64_from_le_bytes(slice_part(b, 0, 8));
    let id = u128_from_le_bytes(slice_part(b, 8, 24));
    if e > i64::MAX as u64 {
        return None;
    }
    Some(CookiePayload { exp_at: e as i64, id })
}

fn slice_part<'a>(b: &'a [u8], i: usize, j: usize) -> (out: &'a [u8])
    requires
        0 <= i <= j <= b@.len(),
    ensures
        out@ == b@.subrange(i as int, j as int),
{
    vstd::slice::slice_subrange(b, i, j)
}

/// What reading a cookie value's bytes yields: parse the canonical JSON,
/// decrypt the blob, read the claim.
pub open spec fn open_cookie_bytes(key: Seq<u8>, b: Seq<u8>) -> Option<CookiePayload> {
    match parse_cookie_json(b) {
        None => None,
        Some((o, c)) => match decode_blob_spec(key, o, c) {
            None => None,
            Some(pt) => parse_cookie_claim(pt),
        },
    }
}

/// What reading a cookie value yields: only plain ASCII text can be a
/// cookie value, one byte per character.
pub open spec fn open_cookie_value(key: Seq<u8>, s: Seq<char>) -> Option<CookiePayload> {
    if vstd::utf8::is_ascii_chars(s) {
        open_cookie_bytes(key, bytes_of_chars(s))
    } else {
        None
    }
}

/// Writes the canonical cookie JSON of an encrypted blob.
pub fn write_cookie_json(ep: &EncryptedPayload) -> (out: Vec<u8>)
    ensures
        out@ == cookie_json(ep.order@, ep.content@),
        all_ascii(out@),
{
    let mut out: Vec<u8> = Vec::new();
    let l1: [u8; 9] = [123, 34, 111, 114, 100, 101, 114, 34, 58];
    let l2: [u8; 11] = [44, 34, 99, 111, 110, 116, 101, 110, 116, 34, 58];
    proof {
        assert(l1@ =~= lit_order());
        assert(l2@ =~= lit_content());
    }
    push_bytes(&mut out, l1.as_slice());
    write_u8_list(&mut out, ep.order.as_slice());
    push_bytes(&mut out, l2.as_slice());
    write_u8_list(&mut out, ep.content.as_slice());
    out.push(125);
    proof {
        assert(out@ =~= cookie_json(ep.order@, ep.content@));
        lemma_json_u8_list_ascii(ep.order@);
        lemma_json_u8_list_ascii(ep.content@);
        lemma_all_ascii_concat(lit_order(), json_u8_list(ep.order@));
        lemma_all_ascii_concat(lit_order() + json_u8_list(ep.order@), lit_content());
        lemma_all_ascii_concat(
            lit_order() + json_u8_list(ep.order@) + lit_content(),
            json_u8_list(ep.content@),
        );
        lemma_all_ascii_concat(
            lit_order() + json_u8_list(ep.order@) + lit_content() + json_u8_list(ep.content@),
            seq![125u8],
        );
    }
    out
}

/// Reads a canonical cookie JSON text back into its two fields.
pub fn read_cookie_json(b: &[u8]) -> (r: Option<(Vec<u8>, Vec<u8>)>)
    ensures
        r matches Some(p) ==> parse_cookie_json(b@) == Some((p.0@, p.1@)),
        r is None ==> parse_cookie_json(b@) is None,
{
    let n = b.len();
    proof {
        assert(n == b@.len());
    }
    let l1: [u8; 9] = [123, 34, 111, 114, 100, 101, 114, 34, 58];
    let l2: [u8; 11] = [44, 34, 99, 111, 110, 116, 101, 110, 116, 34, 58];
    proof {
        assert(l1@ =~= lit_order());
        assert(l2@ =~= lit_content());
    }
    if !bytes_match_at(b, 0, l1.as_slice()) {
        return None;
    }
    let (order, j) = match parse_u8_list_at(b, 9) {
        Some(p) => p,
        None => {
            return None;
        },
    };
    if !bytes_match_at(b, j, l2.as_slice()) {
        return None;
    }
    let (content, k) = match parse_u8_list_at(b, j + 11) {
        Some(p) => p,
        None => {
            return None;
        },
    };
    if k < b.len() && b[k] == 125 && k + 1 == b.len() {
        Some((order, content))
    } else {
        None
    }
}

/// Builds a cookie value carrying the claim, encrypted under `key`. Every
/// claim with a non-negative expiry yields a value.
///
/// Law (round trip): reading the value this returns, under the same key,
/// gives the claim back.
pub fn create_cookie_value(key: &Vec<u8>, payload: &CookiePayload) -> (r: Result<String, ()>)
    requires
        key@.len() == 32,
        payload.exp_at >= 0,
    ensures
        r is Ok,
        r matches Ok(v) ==> open_cookie_value(key@, v@) == Some(*payload),
{
    let claim = write_cookie_claim(payload);
    proof {
        lemma_auto_spec_u64_to_from_le_bytes();
        lemma_auto_spec_u128_to_from_le_bytes();
        assert(claim@.len() == 24);
    }
    let ep = match encrypt_payload(key, &claim) {
        Ok(ep) => ep,
        Err(_) => {
            return Err(());
        },
    };
    let json = write_cookie_json(&ep);
    let ghost json_view = json@;
    let value = ascii_string(json);
    proof {
        lemma_bytes_chars_round(json_view);
        lemma_parse_cookie_json_writer(ep.order@, ep.content@);
        lemma_cookie_claim_round(*payload);
    }
    Ok(value)
}

/// Reads a cookie value: parses the canonical JSON, decrypts the blob
/// under `key`, and reads the claim. Fails on any malformed or tampered
/// value, without saying why.
pub fn read_cookie_value(key: &Vec<u8>, value: &str) -> (r: Result<CookiePayload, ()>)
    requires
        key@.len() == 32,
    ensures
        open_cookie_value(key@, value@) == (match r {
            Ok(p) => Some(p),
            Err(_) => None,
        }),
{
    if !value.is_ascii() {
        return Err(());
    }
    let bytes = str_bytes(value);
    let (order, content) = match read_cookie_json(bytes.as_slice()) {
        Some(p) => p,
        None => {
            return Err(());
        },
    };
    let pt = match decrypt_payload(key, order.as_slice(), content.as_slice()) {
        Ok(pt) => pt,
        Err(_) => {
            return Err(());
        },
    };
    match read_cookie_claim(pt.as_slice()) {
        Some(p) => Ok(p),
        None => Err(()),
    }
}

/// Checks a carried cookie value against the clock: the claim must decode
/// under `key` and must not have expired. Equivalent failures are not told
/// apart.
pub fn chekout_valid_cookie(key: &Vec<u8>, value: &str, now_s: i64) -> (r: Result<
    CookiePayload,
    (),
>)
    requires
        key@.len() == 32,
    ensures
        r matches Ok(p) ==> open_cookie_value(key@, value@) == Some(p) && p.exp_at >= now_s,
        r is Err ==> (match open_cookie_value(key@, value@) {
            Some(p) => p.exp_at < now_s,
            None => true,
        }),
{
    let p = match read_cookie_value(key, value) {
        Ok(p) => p,
        Err(_) => {
            return Err(());
        },
    };
    if p.exp_at < now_s {
        return Err(());
    }
    Ok(p)
}

/// The claim carried inside a signed envelope: who, when issued, and until
/// when (epoch seconds).
#[derive(PartialEq, Eq, Structural, Clone, Copy, Debug)]
pub struct ClaimsToken {
    pub payload: u128,
    pub iat: i64,
    pub exp: i64,
}

/// An encrypted claim with its plaintext timestamp copies, as placed into
/// the signed envelope.
#[derive(Clone, Debug)]
pub struct EncryptedToken {
    pub order: [u8; 16],
    pub content: Vec<u8>,
    pub iat: i64,
    pub exp: i64,
}

/// The canonical plaintext of an envelope claim: identity, issued-at,
/// expiry, all little endian.
pub open spec fn claims_claim_bytes(c: ClaimsToken) -> Seq<u8> {
    spec_u128_to_le_bytes(c.payload) + spec_u64_to_le_bytes(c.iat as u64) + spec_u64_to_le_bytes(
        c.exp as u64,
    )
}

/// Reads an envelope claim back from its plaintext; both timestamps must
/// be non-negative.
pub open spec fn parse_claims_claim(b: Seq<u8>) -> Option<ClaimsToken> {
    if b.len() == 32 {
        let p = spec_u128_from_le_bytes(b.subrange(0, 16));
        let iat = spec_u64_from_le_bytes(b.subrange(16, 24));
        let exp = spec_u64_from_le_bytes(b.subrange(24, 32));
        if iat <= i64::MAX as u64 && exp <= i64::MAX as u64 {
            Some(ClaimsToken { payload: p, iat: iat as i64, exp: exp as i64 })
        } else {
            None
        }
    } else {
        None
    }
}

pub proof fn lemma_claims_claim_round(c: ClaimsToken)
    requires
        c.iat >= 0,
        c.exp >= 0,
    ensures
        parse_claims_claim(claims_claim_bytes(c)) == Some(c),
{
    lemma_auto_spec_u64_to_from_le_bytes();
    lemma_auto_spec_u128_to_from_le_bytes();
    let b = claims_claim_bytes(c);
    assert(b.subrange(0, 16) =~= spec_u128_to_le_bytes(c.payload));
    assert(b.subrange(16, 24) =~= spec_u64_to_le_bytes(c.iat as u64));
    assert(b.subrange(24, 32) =~= spec_u64_to_le_bytes(c.exp as u64));
}

/// Writes the canonical plaintext of an envelope claim.
pub fn write_claims_claim(c: &ClaimsToken) -> (out: Vec<u8>)
    requires
        c.iat >= 0,
        c.exp >= 0,
    ensures
        out@ == claims_claim_bytes(*c),
{
    let mut out = u128_to_le_bytes(c.payload);
    let mut iat_bytes = u64_to_le_bytes(c.iat as u64);
    let mut exp_bytes = u64_to_le_bytes(c.exp as u64);
    out.append(&mut iat_bytes);
    out.append(&mut exp_bytes);
    proof {
        assert(out@ =~= claims_claim_bytes(*c));
    }
    out
}

/// Reads an envelope claim back from its plaintext.
pub fn read_claims_claim(b: &[u8]) -> (r: Option<ClaimsToken>)
    ensures
        r == parse_claims_claim(b@),
{
    if b.len() != 32 {
        return None;
    }
    let p = u128_from_le_bytes(slice_part(b, 0, 16));
    let iat = u64_from_le_bytes(slice_part(b, 16, 24));
    let exp = u64_from_le_bytes(slice_part(b, 24, 32));
    if iat > i64::MAX as u64 || exp > i64::MAX as u64 {
        return None;
    }
    Some(ClaimsToken { payload: p, iat: iat as i64, exp: exp as i64 })
}

/// The constant envelope header naming the token type and the signing
/// algorithm.
pub open spec fn header_bytes() -> Seq<u8> {
    seq![
        123u8, 34u8, 116u8, 121u8, 112u8, 34u8, 58u8, 34u8, 74u8, 87u8, 84u8, 34u8, 44u8, 34u8,
        97u8, 108u8, 103u8, 34u8, 58u8, 34u8, 72u8, 83u8, 50u8, 53u8, 54u8, 34u8, 125u8,
    ]
}

/// The signature string that HMAC-SHA-256 signing yields for this key and
/// message.
pub uninterp spec fn hs256_sig(key: Seq<u8>, message: Seq<u8>) -> Seq<char>;

/// Relies on jsonwebtoken's `crypto::sign` with `HS256`: the signature is
/// the HMAC-SHA-256 of the message under the key, base64url encoded, a
/// deterministic function of the two; its text is of the base64url
/// alphabet, so plain ASCII without dots; and signing with `HS256` never
/// fails.
#[verifier::external_body]
fn sign_hs256(secret: &[u8], message: &[u8]) -> (r: Result<String, ()>)
    ensures
        r matches Ok(sig) ==> sig@ == hs256_sig(secret@, message@),
        r matches Ok(sig) ==> (forall|i: int|
            0 <= i < sig@.len() ==> '\0' <= #[trigger] sig@[i] <= '\u{7f}' && sig@[i] != '.'),
        r is Ok,
{
    let k = jsonwebtoken::EncodingKey::from_secret(secret);
    match jsonwebtoken::crypto::sign(message, &k, jsonwebtoken::Algorithm::HS256) {
        Ok(s) => Ok(s),
        Err(_) => Err(()),
    }
}

/// Relies on jsonwebtoken's `crypto::verify` with `HS256`: it re-signs the
/// message under the key and compares with the given signature in constant
/// time, never failing for `HS256`.
#[verifier::external_body]
fn verify_hs256(secret: &[u8], signature: &str, message: &[u8]) -> (r: bool)
    ensures
        r == (signature@ == hs256_sig(secret@, message@)),
{
    let k = jsonwebtoken::DecodingKey::from_secret(secret);
    match jsonwebtoken::crypto::verify(signature, message, &k, jsonwebtoken::Algorithm::HS256) {
        Ok(b) => b,
        Err(_) => false,
    }
}

/// The position of the last dot, if any.
pub open spec fn last_dot(b: Seq<u8>) -> Option<int>
    decreases b.len(),
{
    if b.len() == 0 {
        None
    } else if b[b.len() - 1] == 46 {
        Some(b.len() - 1)
    } else {
        last_dot(b.take(b.len() - 1))
    }
}

/// The position of the first dot at or after `i`, if any.
pub open spec fn first_dot_from(b: Seq<u8>, i: int) -> Option<int>
    decreases b.len() - i,
{
    if i < 0 || i >= b.len() {
        None
    } else if b[i] == 46 {
        Some(i)
    } else {
        first_dot_from(b, i + 1)
    }
}

pub proof fn lemma_last_dot_concat(m: Seq<u8>, s: Seq<u8>)
    requires
        forall|i: int| 0 <= i < s.len() ==> #[trigger] s[i] != 46,
    ensures
        last_dot(m + seq![46u8] + s) == Some(m.len() as int),
    decreases s.len(),
{
    let b = m + seq![46u8] + s;
    if s.len() == 0 {
        assert(b[b.len() - 1] == 46);
    } else {
        assert(b[b.len() - 1] == s[s.len() - 1]);
        assert(b.take(b.len() - 1) =~= m + seq![46u8] + s.take(s.len() - 1));
        lemma_last_dot_concat(m, s.take(s.len() - 1));
    }
}

proof fn lemma_first_dot_reach(b: Seq<u8>, i: int, k: int)
    requires
        0 <= i <= k < b.len(),
        b[k] == 46,
        forall|j: int| i <= j < k ==> #[trigger] b[j] != 46,
    ensures
        first_dot_from(b, i) == Some(k),
    decreases k - i,
{
    if i < k {
        lemma_first_dot_reach(b, i + 1, k);
    }
}

pub proof fn lemma_first_dot_concat(m: Seq<u8>, s: Seq<u8>)
    requires
        forall|i: int| 0 <= i < m.len() ==> #[trigger] m[i] != 46,
    ensures
        first_dot_from(m + seq![46u8] + s, 0) == Some(m.len() as int),
{
    let b = m + seq![46u8] + s;
    assert(b[m.len() as int] == 46);
    assert forall|j: int| 0 <= j < m.len() implies #[trigger] b[j] != 46 by {
        assert(b[j] == m[j]);
    }
    lemma_first_dot_reach(b, 0, m.len() as int);
}

/// Finds the last dot in `b`.
pub fn find_last_dot(b: &[u8]) -> (r: Option<usize>)
    ensures
        r matches Some(k) ==> last_dot(b@) == Some(k as int) && k < b@.len(),
        r is None ==> last_dot(b@) is None,
{
    let mut i: usize = b.len();
    proof {
        assert(b@.take(i as int) =~= b@);
    }
    while i > 0
        invariant
            i <= b@.len(),
            last_dot(b@) == last_dot(b@.take(i as int)),
        decreases i,
    {
        if b[i - 1] == 46 {
            proof {
                assert(b@.take(i as int)[i - 1] == 46);
            }
            return Some(i - 1);
        }
        proof {
            assert(b@.take(i as int).take(i - 1) =~= b@.take(i - 1));
            assert(b@.take(i as int)[i - 1] != 46);
        }
        i = i - 1;
    }
    proof {
        assert(b@.take(0).len() == 0);
    }
    None
}

/// Finds the first dot in `b`.
pub fn find_first_dot(b: &[u8]) -> (r: Option<usize>)
    ensures
        r matches Some(k) ==> first_dot_from(b@, 0) == Some(k as int) && k < b@.len(),
        r is None ==> first_dot_from(b@, 0) is None,
{
    let n = b.len();
    let mut i: usize = 0;
    while i < n
        invariant
            n == b@.len(),
            i <= n,
            first_dot_from(b@, 0) == first_dot_from(b@, i as int),
        decreases n - i,
    {
        if b[i] == 46 {
            return Some(i);
        }
        i = i + 1;
    }
    None
}

/// Writes the canonical claims JSON of an encrypted blob and its plaintext
/// timestamp copies.
pub fn write_claims_json(ep: &EncryptedPayload, iat: u64, exp: u64) -> (out: Vec<u8>)
    ensures
        out@ == claims_json(ep.order@, ep.content@, iat, exp),
        all_ascii(out@),
{
    let mut out: Vec<u8> = Vec::new();
    let l1: [u8; 9] = [123, 34, 111, 114, 100, 101, 114, 34, 58];
    let l2: [u8; 11] = [44, 34, 99, 111, 110, 116, 101, 110, 116, 34, 58];
    let l3: [u8; 7] = [44, 34, 105, 97, 116, 34, 58];
    let l4: [u8; 7] = [44, 34, 101, 120, 112, 34, 58];
    proof {
        assert(l1@ =~= lit_order());
        assert(l2@ =~= lit_content());
        assert(l3@ =~= lit_iat());
        assert(l4@ =~= lit_exp());
    }
    push_bytes(&mut out, l1.as_slice());
    write_u8_list(&mut out, ep.order.as_slice());
    push_bytes(&mut out, l2.as_slice());
    write_u8_list(&mut out, ep.content.as_slice());
    push_bytes(&mut out, l3.as_slice());
    write_u64_dec(&mut out, iat);
    push_bytes(&mut out, l4.as_slice());
    write_u64_dec(&mut out, exp);
    out.push(125);
    proof {
        assert(out@ =~= claims_json(ep.order@, ep.content@, iat, exp));
        lemma_json_u8_list_ascii(ep.order@);
        lemma_json_u8_list_ascii(ep.content@);
        lemma_dec_bytes_ascii(iat as nat);
        lemma_dec_bytes_ascii(exp as nat);
        let p1 = lit_order() + json_u8_list(ep.order@);
        let p2 = p1 + lit_content();
        let p3 = p2 + json_u8_list(ep.content@);
        let p4 = p3 + lit_iat();
        let p5 = p4 + dec_bytes(iat as nat);
        let p6 = p5 + lit_exp();
        let p7 = p6 + dec_bytes(exp as nat);
        lemma_all_ascii_concat(lit_order(), json_u8_list(ep.order@));
        lemma_all_ascii_concat(p1, lit_content());
        lemma_all_ascii_concat(p2, json_u8_list(ep.content@));
        lemma_all_ascii_concat(p3, lit_iat());
        lemma_all_ascii_concat(p4, dec_bytes(iat as nat));
        lemma_all_ascii_concat(p5, lit_exp());
        lemma_all_ascii_concat(p6, dec_bytes(exp as nat));
        lemma_all_ascii_concat(p7, seq![125u8]);
    }
    out
}

/// Reads a canonical claims JSON text back into its four fields.
pub fn read_claims_json(b: &[u8]) -> (r: Option<(Vec<u8>, Vec<u8>, u64, u64)>)
    ensures
        r matches Some(p) ==> parse_claims_json(b@) == Some((p.0@, p.1@, p.2, p.3)),
        r is None ==> parse_claims_json(b@) is None,
{
    let n = b.len();
    proof {
        assert(n == b@.len());
    }
    let l1: [u8; 9] = [123, 34, 111, 114, 100, 101, 114, 34, 58];
    let l2: [u8; 11] = [44, 34, 99, 111, 110, 116, 101, 110, 116, 34, 58];
    let l3: [u8; 7] = [44, 34, 105, 97, 116, 34, 58];
    let l4: [u8; 7] = [44, 34, 101, 120, 112, 34, 58];
    proof {
        assert(l1@ =~= lit_order());
        assert(l2@ =~= lit_content());
        assert(l3@ =~= lit_iat());
        assert(l4@ =~= lit_exp());
    }
    if !bytes_match_at(b, 0, l1.as_slice()) {
        return None;
    }
    let (order, j) = match parse_u8_list_at(b, 9) {
        Some(p) => p,
        None => {
            return None;
        },
    };
    if !bytes_match_at(b, j, l2.as_slice()) {
        return None;
    }
    let (content, j2) = match parse_u8_list_at(b, j + 11) {
        Some(p) => p,
        None => {
            return None;
        },
    };
    if !bytes_match_at(b, j2, l3.as_slice()) {
        return None;
    }
    let (iat, j3) = match parse_u64_at(b, j2 + 7) {
        Some(p) => p,
        None => {
            return None;
        },
    };
    if !bytes_match_at(b, j3, l4.as_slice()) {
        return None;
    }
    let (exp, j4) = match parse_u64_at(b, j3 + 7) {
        Some(p) => p,
        None => {
            return None;
        },
    };
    if j4 < b.len() && b[j4] == 125 && j4 + 1 == b.len() {
        Some((order, content, iat, exp))
    } else {
        None
    }
}

/// What reading a token's bytes yields: split at the last dot, check the
/// signature over everything before it, check the constant header, decode
/// the claims text, decrypt the blob, read the claim, and hold the
/// plaintext issued-at and expiry copies to the encrypted claim's values.
pub open spec fn open_token_bytes(secret: Seq<u8>, key: Seq<u8>, b: Seq<u8>) -> Option<
    ClaimsToken,
> {
    match last_dot(b) {
        None => None,
        Some(k) => {
            let msg = b.subrange(0, k);
            let sig = b.subrange(k + 1, b.len() as int);
            if chars_of_bytes(sig) == hs256_sig(secret, msg) {
                match first_dot_from(msg, 0) {
                    None => None,
                    Some(d) => {
                        if msg.subrange(0, d) == b64_encode(header_bytes()) {
                            match b64_decode(msg.subrange(d + 1, msg.len() as int)) {
                                None => None,
                                Some(cl) => match parse_claims_json(cl) {
                                    None => None,
                                    Some((o, c, iat, exp)) => match decode_blob_spec(
                                        key,
                                        o,
                                        c,
                                    ) {
                                        None => None,
                                        Some(pt) => match parse_claims_claim(pt) {
                                            None => None,
                                            Some(claim) => if claim.iat as u64 == iat
                                                && claim.exp as u64 == exp {
                                                Some(claim)
                                            } else {
                                                None
                                            },
                                        },
                                    },
                                },
                            }
                        } else {
                            None
                        }
                    },
                }
            } else {
                None
            }
        },
    }
}

/// What reading a token yields: only plain ASCII text can be a token, one
/// byte per character.
pub open spec fn open_token_chars(secret: Seq<u8>, key: Seq<u8>, s: Seq<char>) -> Option<
    ClaimsToken,
> {
    if vstd::utf8::is_ascii_chars(s) {
        open_token_bytes(secret, key, bytes_of_chars(s))
    } else {
        None
    }
}

fn expired_error() -> (e: RespErrors<String>)
    ensures
        e.kind@ == "Token"@,
        e.reason@ == "Expired"@,
        e.errors is None,
{
    RespErrors::new("Token", "Expired", None)
}

/// Builds a signed envelope token carrying the claim, encrypted under
/// `key` and signed under `secret`. Every claim with non-negative
/// timestamps yields a token.
///
/// Law (round trip): every token this returns decodes, under the same
/// secret and key, back to the claim it was built from.
pub fn create_token(secret: &Vec<u8>, key: &Vec<u8>, payload: u128, now_s: i64, exp_at: i64) -> (r:
    String)
    requires
        key@.len() == 32,
        0 <= now_s,
        0 <= exp_at,
    ensures
        r@.len() > 0,
        open_token_chars(secret@, key@, r@) == (Some(ClaimsToken {
            payload,
            iat: now_s,
            exp: exp_at,
        })),
{
    let claims = ClaimsToken { payload, iat: now_s, exp: exp_at };
    let pt = write_claims_claim(&claims);
    proof {
        lemma_auto_spec_u64_to_from_le_bytes();
        lemma_auto_spec_u128_to_from_le_bytes();
        assert(pt@.len() == 32);
    }
    let ep = match encrypt_payload(key, &pt) {
        Ok(ep) => ep,
        Err(_) => {
            return String::new();
        },
    };
    let cj = write_claims_json(&ep, now_s as u64, exp_at as u64);
    let h: [u8; 27] = [
        123, 34, 116, 121, 112, 34, 58, 34, 74, 87, 84, 34, 44, 34, 97, 108, 103, 34, 58, 34, 72,
        83, 50, 53, 54, 34, 125,
    ];
    proof {
        assert(h@ =~= header_bytes());
    }
    let hb64 = b64_encode_bytes(h.as_slice());
    let cb64 = b64_encode_bytes(cj.as_slice());
    let mut msg: Vec<u8> = Vec::new();
    push_bytes(&mut msg, hb64.as_slice());
    msg.push(46);
    push_bytes(&mut msg, cb64.as_slice());
    let sig = match sign_hs256(secret.as_slice(), msg.as_slice()) {
        Ok(s) => s,
        Err(_) => {
            return String::new();
        },
    };
    let mut tb: Vec<u8> = Vec::new();
    push_bytes(&mut tb, msg.as_slice());
    tb.push(46);
    proof {
        lemma_b64_encode_alphabet(h@);
        lemma_b64_encode_alphabet(cj@);
        assert forall|i: int| 0 <= i < tb@.len() implies #[trigger] tb@[i] < 128 by {
            assert(tb@ == hb64@ + seq![46u8] + cb64@ + seq![46u8]);
            if i < hb64@.len() {
                assert(is_b64_alphabet(hb64@[i]));
            } else if i == hb64@.len() {
            } else if i < hb64@.len() + 1 + cb64@.len() {
                assert(is_b64_alphabet(cb64@[i - hb64@.len() - 1]));
            }
        }
    }
    let ghost tbv = tb@;
    let prefix = ascii_string(tb);
    let token = prefix.concat(sig.as_str());
    proof {
        let sigb = bytes_of_chars(sig@);
        assert(vstd::utf8::is_ascii_chars(sig@)) by {
            assert forall|i: int| 0 <= i < sig@.len() implies '\0' <= #[trigger] sig@[i]
                <= '\u{7f}' by {}
        }
        lemma_chars_bytes_round(sig@);
        assert(vstd::utf8::is_ascii_chars(token@)) by {
            assert forall|i: int| 0 <= i < token@.len() implies '\0' <= #[trigger] token@[i]
                <= '\u{7f}' by {
                if i < tbv.len() {
                    assert(token@[i] == chars_of_bytes(tbv)[i]);
                    assert(tbv[i] < 128);
                } else {
                    assert(token@[i] == sig@[i - tbv.len()]);
                }
            }
        }
        let b = bytes_of_chars(token@);
        assert(b =~= tbv + sigb) by {
            assert forall|i: int| 0 <= i < token@.len() implies #[trigger] b[i] == (tbv
                + sigb)[i] by {
                if i < tbv.len() {
                    assert(token@[i] == chars_of_bytes(tbv)[i]);
                    assert(tbv[i] < 128);
                } else {
                    assert(token@[i] == sig@[i - tbv.len()]);
                }
            }
        }
        assert forall|i: int| 0 <= i < sigb.len() implies #[trigger] sigb[i] != 46 by {
            assert(sig@[i] != '.');
            assert('\0' <= sig@[i] <= '\u{7f}');
        }
        assert(b =~= msg@ + seq![46u8] + sigb);
        lemma_last_dot_concat(msg@, sigb);
        let kk = msg@.len() as int;
        assert(b.subrange(0, kk) =~= msg@);
        assert(b.subrange(kk + 1, b.len() as int) =~= sigb);
        assert(chars_of_bytes(sigb) == sig@);
        assert forall|i: int| 0 <= i < hb64@.len() implies #[trigger] hb64@[i] != 46 by {
            assert(is_b64_alphabet(hb64@[i]));
        }
        assert(msg@ =~= hb64@ + seq![46u8] + cb64@);
        lemma_first_dot_concat(hb64@, cb64@);
        let d = hb64@.len() as int;
        assert(msg@.subrange(0, d) =~= hb64@);
        assert(msg@.subrange(d + 1, msg@.len() as int) =~= cb64@);
        lemma_b64_round_trip(cj@);
        lemma_parse_claims_json_writer(ep.order@, ep.content@, now_s as u64, exp_at as u64);
        lemma_claims_claim_round(claims);
        assert(open_token_bytes(secret@, key@, b) == Some(claims));
    }
    token
}

/// Opens a signed envelope token: checks the signature, the structure,
/// the encrypted claim and its plaintext timestamp copies, then compares
/// the claim's expiry with the clock. A forged, a malformed and an
/// expired token all fail the same way.
pub fn decode_token(secret: &Vec<u8>, key: &Vec<u8>, token: &str, now_s: i64) -> (r: Result<
    ClaimsToken,
    RespErrors<String>,
>)
    requires
        key@.len() == 32,
    ensures
        r matches Ok(c) ==> open_token_chars(secret@, key@, token@) == Some(c) && c.exp >= now_s,
        r matches Err(e) ==> e.kind@ == "Token"@ && e.reason@ == "Expired"@ && e.errors is None,
        r is Err ==> (match open_token_chars(secret@, key@, token@) {
            Some(c) => c.exp < now_s,
            None => true,
        }),
{
    if !token.is_ascii() {
        return Err(expired_error());
    }
    let bytes = str_bytes(token);
    proof {
        lemma_chars_bytes_round(token@);
    }
    let k = match find_last_dot(bytes.as_slice()) {
        Some(k) => k,
        None => {
            return Err(expired_error());
        },
    };
    let nb = bytes.len();
    let msg = slice_part(bytes.as_slice(), 0, k);
    let sig_str = token.substring_ascii(k + 1, nb);
    proof {
        assert(chars_of_bytes(bytes@.subrange(k as int + 1, bytes@.len() as int))
            =~= sig_str@) by {
            assert forall|i: int|
                0 <= i < bytes@.len() - k - 1 implies #[trigger] chars_of_bytes(
                bytes@.subrange(k as int + 1, bytes@.len() as int),
            )[i] == sig_str@[i] by {
                assert(bytes@[k + 1 + i] == token@[k + 1 + i] as u8);
                assert('\0' <= token@[k + 1 + i] <= '\u{7f}');
            }
        }
    }
    let ok = verify_hs256(secret.as_slice(), sig_str, msg);
    if !ok {
        return Err(expired_error());
    }
    let d = match find_first_dot(msg) {
        Some(d) => d,
        None => {
            return Err(expired_error());
        },
    };
    let h: [u8; 27] = [
        123, 34, 116, 121, 112, 34, 58, 34, 74, 87, 84, 34, 44, 34, 97, 108, 103, 34, 58, 34, 72,
        83, 50, 53, 54, 34, 125,
    ];
    proof {
        assert(h@ =~= header_bytes());
    }
    let hb64 = b64_encode_bytes(h.as_slice());
    if d != hb64.len() {
        proof {
            assert(msg@.subrange(0, d as int).len() == d as int);
        }
        return Err(expired_error());
    }
    if !bytes_match_at(msg, 0, hb64.as_slice()) {
        return Err(expired_error());
    }
    let cseg = slice_part(msg, d + 1, k);
    let cl = match b64_decode_bytes(cseg) {
        Some(v) => v,
        None => {
            return Err(expired_error());
        },
    };
    let parsed = match read_claims_json(cl.as_slice()) {
        Some(t) => t,
        None => {
            return Err(expired_error());
        },
    };
    let (order, content, iat, exp) = parsed;
    let pt = match decrypt_payload(key, order.as_slice(), content.as_slice()) {
        Ok(p) => p,
        Err(_) => {
            return Err(expired_error());
        },
    };
    let c = match read_claims_claim(pt.as_slice()) {
        Some(c) => c,
        None => {
            return Err(expired_error());
        },
    };
    if c.iat as u64 != iat || c.exp as u64 != exp {
        return Err(expired_error());
    }
    if c.exp < now_s {
        return Err(expired_error());
    }
    Ok(c)
}

} // verus!