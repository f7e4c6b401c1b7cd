//! Secure payload codec: authenticated encryption of byte payloads with a
//! nonce-obfuscation transform. The 12-byte true nonce is diluted among 4
//! decoy bytes at the fixed positions {2, 5, 8, 10} of a 16-byte "order"
//! field; the order field is obscurity only, the confidentiality and
//! integrity guarantee comes from the AEAD cipher alone.

use vstd::prelude::*;

verus! {

/// An authenticated-encrypted payload: the 16 "order" bytes hiding the true
/// nonce among decoys, and the ciphertext with its tag.
#[derive(Clone, Debug)]
pub struct EncryptedPayload {
    pub order: [u8; 16],
    pub content: Vec<u8>,
}

/// The 16-byte order field built from a 12-byte nonce and 4 decoy bytes:
/// decoys sit at positions 2, 5, 8 and 10, the nonce fills the rest in
/// order.
pub open spec fn interleave(nonce: Seq<u8>, decoy: Seq<u8>) -> Seq<u8>
    recommends
        nonce.len() == 12,
        decoy.len() == 4,
{
    seq![
        nonce[0],
        nonce[1],
        decoy[0],
        nonce[2],
        nonce[3],
        decoy[1],
        nonce[4],
        nonce[5],
        decoy[2],
        nonce[6],
        decoy[3],
        nonce[7],
        nonce[8],
        nonce[9],
        nonce[10],
        nonce[11],
    ]
}

/// The 12-byte true nonce read back from an order field: the bytes at all
/// positions but 2, 5, 8 and 10, in order.
pub open spec fn extract_nonce(order: Seq<u8>) -> Seq<u8>
    recommends
        order.len() == 16,
{
    seq![
        order[0],
        order[1],
        order[3],
        order[4],
        order[6],
        order[7],
        order[9],
        order[11],
        order[12],
        order[13],
        order[14],
        order[15],
    ]
}

/// Law: reading the non-decoy positions of an interleaved order field gives
/// back the true nonce.
pub proof fn lemma_extract_interleave(nonce: Seq<u8>, decoy: Seq<u8>)
    requires
        nonce.len() == 12,
        decoy.len() == 4,
    ensures
        extract_nonce(interleave(nonce, decoy)) == nonce,
{
    assert(extract_nonce(interleave(nonce, decoy)) =~= nonce);
}

/// Law: the nonce read back from an order field depends on exactly the
/// non-decoy positions. Two order fields that agree everywhere outside
/// positions 2, 5, 8 and 10 yield the same nonce, and two that differ at
/// any other position yield different nonces.
pub proof fn lemma_order_positions(o1: Seq<u8>, o2: Seq<u8>)
    requires
        o1.len() == 16,
        o2.len() == 16,
    ensures
        (forall|j: int| 0 <= j < 16 && j != 2 && j != 5 && j != 8 && j != 10 ==> o1[j] == o2[j])
            ==> extract_nonce(o1) == extract_nonce(o2),
        extract_nonce(o1) == extract_nonce(o2) ==> (forall|j: int|
            0 <= j < 16 && j != 2 && j != 5 && j != 8 && j != 10 ==> o1[j] == o2[j]),
{
    if forall|j: int| 0 <= j < 16 && j != 2 && j != 5 && j != 8 && j != 10 ==> o1[j] == o2[j] {
        assert(extract_nonce(o1) =~= extract_nonce(o2));
    }
    if extract_nonce(o1) == extract_nonce(o2) {
        assert forall|j: int|
            0 <= j < 16 && j != 2 && j != 5 && j != 8 && j != 10 implies o1[j] == o2[j] by {
            let e1 = extract_nonce(o1);
            let e2 = extract_nonce(o2);
            if j == 0 {
                assert(o1[j] == e1[0] && o2[j] == e2[0]);
            } else if j == 1 {
                assert(o1[j] == e1[1] && o2[j] == e2[1]);
            } else if j == 3 {
                assert(o1[j] == e1[2] && o2[j] == e2[2]);
            } else if j == 4 {
                assert(o1[j] == e1[3] && o2[j] == e2[3]);
            } else if j == 6 {
                assert(o1[j] == e1[4] && o2[j] == e2[4]);
            } else if j == 7 {
                assert(o1[j] == e1[5] && o2[j] == e2[5]);
            } else if j == 9 {
                assert(o1[j] == e1[6] && o2[j] == e2[6]);
            } else if j == 11 {
                assert(o1[j] == e1[7] && o2[j] == e2[7]);
            } else if j == 12 {
                assert(o1[j] == e1[8] && o2[j] == e2[8]);
            } else if j == 13 {
                assert(o1[j] == e1[9] && o2[j] == e2[9]);
            } else if j == 14 {
                assert(o1[j] == e1[10] && o2[j] == e2[10]);
            } else {
                assert(o1[j] == e1[11] && o2[j] == e2[11]);
            }
        }
    }
}

/// The ciphertext-and-tag that AES-256-GCM produces for this key, nonce and
/// plaintext.
pub uninterp spec fn gcm_seal(key: Seq<u8>, nonce: Seq<u8>, plaintext: Seq<u8>) -> Seq<u8>;

/// The plaintext that AES-256-GCM decryption returns for this key, nonce
/// and ciphertext, or nothing when the tag does not verify.
pub uninterp spec fn gcm_open(key: Seq<u8>, nonce: Seq<u8>, ciphertext: Seq<u8>) -> Option<
    Seq<u8>,
>;

/// Relies on aes_gcm's `Aes256Gcm` through `Aead::encrypt`: AES-256-GCM is
/// a deterministic function of key, nonce and plaintext, and decrypting its
/// output under the same key and nonce gives the plaintext back. With a
/// 32-byte key and a plaintext within the cipher's `P_MAX` of 2^36 bytes,
/// encryption succeeds.
#[verifier::external_body]
fn aead_seal(key: &[u8], nonce: &[u8], plaintext: &[u8]) -> (r: Result<Vec<u8>, ()>)
    requires
        key@.len() == 32,
        nonce@.len() == 12,
        plaintext@.len() <= 0x10_0000_0000,
    ensures
        r is Ok,
        r matches Ok(ct) ==> ct@ == gcm_seal(key@, nonce@, plaintext@),
        r matches Ok(ct) ==> gcm_open(key@, nonce@, ct@) == Some(plaintext@),
{
    let cipher = match aes_gcm::aead::KeyInit::new_from_slice(key) {
        Ok(c) => c,
        Err(_) => {
            return Err(());
        },
    };
    let c: aes_gcm::Aes256Gcm = cipher;
    let n = aes_gcm::Nonce::from_slice(nonce);
    match aes_gcm::aead::Aead::encrypt(&c, n, plaintext) {
        Ok(ct) => Ok(ct),
        Err(_) => Err(()),
    }
}

/// Relies on aes_gcm's `Aes256Gcm` through `Aead::decrypt`: decryption is a
/// deterministic function of key, nonce and ciphertext, returning the
/// plaintext exactly when the authentication tag verifies.
#[verifier::external_body]
fn aead_open(key: &[u8], nonce: &[u8], ciphertext: &[u8]) -> (r: Result<Vec<u8>, ()>)
    requires
        key@.len() == 32,
        nonce@.len() == 12,
    ensures
        gcm_open(key@, nonce@, ciphertext@) == (match r {
            Ok(pt) => Some(pt@),
            Err(_) => None,
        }),
{
    let cipher = match aes_gcm::aead::KeyInit::new_from_slice(key) {
        Ok(c) => c,
        Err(_) => {
            return Err(());
        },
    };
    let c: aes_gcm::Aes256Gcm = cipher;
    let n = aes_gcm::Nonce::from_slice(nonce);
    match aes_gcm::aead::Aead::decrypt(&c, n, ciphertext) {
        Ok(pt) => Ok(pt),
        Err(_) => Err(()),
    }
}

/// What decoding makes of a key and a blob: the true nonce is read back
/// from the order field and the content is AEAD-decrypted under it. Any
/// malformed order field fails.
pub open spec fn decode_blob_spec(key: Seq<u8>, order: Seq<u8>, content: Seq<u8>) -> Option<
    Seq<u8>,
> {
    if order.len() == 16 {
        gcm_open(key, extract_nonce(order), content)
    } else {
        None
    }
}

/// Encrypts a byte payload under a fresh random nonce, hiding the nonce
/// among fresh decoy bytes in the order field. Every payload within the
/// cipher's size bound is encrypted successfully.
///
/// Law (round trip): decoding the blob this returns, under the same key,
/// gives the payload back.
pub fn encrypt_payload(key: &Vec<u8>, plaintext: &Vec<u8>) -> (r: Result<EncryptedPayload, ()>)
    requires
        key@.len() == 32,
        plaintext@.len() <= 0x10_0000_0000,
    ensures
        r is Ok,
        r matches Ok(ep) ==> decode_blob_spec(key@, ep.order@, ep.content@) == Some(plaintext@),
{
    let nonce: [u8; 12] = rand::random();
    let decoy: [u8; 4] = rand::random();
    let order: [u8; 16] = [
        nonce[0],
        nonce[1],
        decoy[0],
        nonce[2],
        nonce[3],
        decoy[1],
        nonce[4],
        nonce[5],
        decoy[2],
        nonce[6],
        decoy[3],
        nonce[7],
        nonce[8],
        nonce[9],
        nonce[10],
        nonce[11],
    ];
    proof {
        assert(order@ =~= interleave(nonce@, decoy@));
        lemma_extract_interleave(nonce@, decoy@);
    }
    let content = match aead_seal(key.as_slice(), nonce.as_slice(), plaintext.as_slice()) {
        Ok(ct) => ct,
        Err(_) => {
            return Err(());
        },
    };
    Ok(EncryptedPayload { order, content })
}

/// Decrypts a blob: reads the true nonce back from the order field and
/// AEAD-decrypts the content under it. Fails on a malformed order field or
/// a bad tag, without saying which.
pub fn decrypt_payload(key: &Vec<u8>, iv: &[u8], cipher_text: &[u8]) -> (r: Result<Vec<u8>, ()>)
    requires
        key@.len() == 32,
    ensures
        decode_blob_spec(key@, iv@, cipher_text@) == (match r {
            Ok(pt) => Some(pt@),
            Err(_) => None,
        }),
{
    if iv.len() != 16 {
        return Err(());
    }
    let mut nonce: Vec<u8> = Vec::new();
    nonce.push(iv[0]);
    nonce.push(iv[1]);
    nonce.push(iv[3]);
    nonce.push(iv[4]);
    nonce.push(iv[6]);
    nonce.push(iv[7]);
    nonce.push(iv[9]);
    nonce.push(iv[11]);
    nonce.push(iv[12]);
    nonce.push(iv[13]);
    nonce.push(iv[14]);
    nonce.push(iv[15]);
    proof {
        assert(nonce@ =~= extract_nonce(iv@));
    }
    aead_open(key.as_slice(), nonce.as_slice(), cipher_text)
}

} // verus!
