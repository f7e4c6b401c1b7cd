use focus_auth::token::{
    chekout_valid_cookie, create_cookie_value, create_token, decode_token, read_cookie_value,
    CookiePayload,
};

fn enc_key() -> Vec<u8> {
    b"0123456789abcdef0123456789abcdef".to_vec()
}

fn secret() -> Vec<u8> {
    b"SECRET-REDACTED".to_vec()
}

#[test]
fn cookie_value_round_trip() {
    let key = enc_key();
    let payload = CookiePayload { exp_at: 1_700_000_000, id: 42u128 };
    let value = create_cookie_value(&key, &payload).unwrap();
    let back = read_cookie_value(&key, &value).unwrap();
    assert_eq!(back, payload);
}

#[test]
fn cookie_value_rejects_tampering() {
    let key = enc_key();
    let payload = CookiePayload { exp_at: 1_700_000_000, id: 7u128 };
    let value = create_cookie_value(&key, &payload).unwrap();
    assert!(read_cookie_value(&key, "not a cookie").is_err());
    let truncated = &value[..value.len() - 1];
    assert!(read_cookie_value(&key, truncated).is_err());
}

#[test]
fn checkout_cookie_honors_expiry() {
    let key = enc_key();
    let payload = CookiePayload { exp_at: 1_000_000, id: 9u128 };
    let value = create_cookie_value(&key, &payload).unwrap();
    let ok = chekout_valid_cookie(&key, &value, 999_999).unwrap();
    assert_eq!(ok.id, 9u128);
    assert!(chekout_valid_cookie(&key, &value, 1_000_001).is_err());
    assert!(chekout_valid_cookie(&key, "garbage", 0).is_err());
}

#[test]
fn token_round_trip() {
    let key = enc_key();
    let s = secret();
    let token = create_token(&s, &key, 123456789u128, 1_000, 2_000);
    assert!(!token.is_empty());
    let claims = decode_token(&s, &key, &token, 1_500).unwrap();
    assert_eq!(claims.payload, 123456789u128);
    assert_eq!(claims.iat, 1_000);
    assert_eq!(claims.exp, 2_000);
}

#[test]
fn token_shape_is_three_parts() {
    let key = enc_key();
    let s = secret();
    let token = create_token(&s, &key, 1u128, 10, 20);
    assert_eq!(token.matches('.').count(), 2);
    assert!(token.is_ascii());
}

#[test]
fn expired_token_is_refused() {
    let key = enc_key();
    let s = secret();
    let token = create_token(&s, &key, 5u128, 1_000, 2_000);
    let err = decode_token(&s, &key, &token, 2_001).unwrap_err();
    assert_eq!(err.kind, "Token");
    assert_eq!(err.reason, "Expired");
    assert!(err.errors.is_none());
}

#[test]
fn forged_token_is_refused() {
    let key = enc_key();
    let s = secret();
    let token = create_token(&s, &key, 5u128, 1_000, 2_000);
    // Flip one character somewhere in each of the three parts.
    let bytes = token.as_bytes();
    for pos in [1usize, token.find('.').unwrap() + 2, token.rfind('.').unwrap() + 2] {
        let mut t = bytes.to_vec();
        t[pos] = if t[pos] == b'A' { b'B' } else { b'A' };
        let tampered = String::from_utf8(t).unwrap();
        assert!(decode_token(&s, &key, &tampered, 1_500).is_err());
    }
}

#[test]
fn wrong_secret_is_refused() {
    let key = enc_key();
    let s = secret();
    let other: Vec<u8> = b"another-signing-secret".to_vec();
    let token = create_token(&s, &key, 5u128, 1_000, 2_000);
    assert!(decode_token(&other, &key, &token, 1_500).is_err());
}

#[test]
fn non_ascii_input_is_refused() {
    let key = enc_key();
    let s = secret();
    assert!(read_cookie_value(&key, "caf\u{e9}").is_err());
    assert!(decode_token(&s, &key, "caf\u{e9}.caf\u{e9}.caf\u{e9}", 0).is_err());
}

#[test]
fn garbage_token_is_refused() {
    let key = enc_key();
    let s = secret();
    assert!(decode_token(&s, &key, "", 0).is_err());
    assert!(decode_token(&s, &key, "a.b.c", 0).is_err());
    assert!(decode_token(&s, &key, "no dots here", 0).is_err());
}
