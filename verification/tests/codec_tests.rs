use focus_auth::codec::{decrypt_payload, encrypt_payload};

fn test_key() -> Vec<u8> {
    b"0123456789abcdef0123456789abcdef".to_vec()
}

#[test]
fn it_should_encrypt_and_decrypt_data() {
    let key = test_key();
    let payload: Vec<u8> = b"Hello World!".to_vec();
    let encrypted_payload = encrypt_payload(&key, &payload).unwrap();
    let decrypted_payload =
        decrypt_payload(&key, &encrypted_payload.order, &encrypted_payload.content).unwrap();
    assert_eq!(&payload, &decrypted_payload);
}

#[test]
fn round_trip_empty_payload() {
    let key = test_key();
    let payload: Vec<u8> = Vec::new();
    let ep = encrypt_payload(&key, &payload).unwrap();
    let pt = decrypt_payload(&key, &ep.order, &ep.content).unwrap();
    assert_eq!(pt, payload);
}

#[test]
fn round_trip_large_payload() {
    let key = test_key();
    let payload: Vec<u8> = (0..4096u32).map(|i| (i % 251) as u8).collect();
    let ep = encrypt_payload(&key, &payload).unwrap();
    let pt = decrypt_payload(&key, &ep.order, &ep.content).unwrap();
    assert_eq!(pt, payload);
}

#[test]
fn tampering_content_fails_decryption() {
    let key = test_key();
    let payload: Vec<u8> = b"attack at dawn".to_vec();
    let ep = encrypt_payload(&key, &payload).unwrap();
    for i in 0..ep.content.len() {
        let mut content = ep.content.clone();
        content[i] ^= 0x01;
        assert!(decrypt_payload(&key, &ep.order, &content).is_err());
    }
}

#[test]
fn tampering_order_fails_decryption() {
    let key = test_key();
    let payload: Vec<u8> = b"attack at dawn".to_vec();
    let ep = encrypt_payload(&key, &payload).unwrap();
    // Positions 2, 5, 8 and 10 hold decoy bytes that decryption never
    // reads; tampering any real nonce byte must fail.
    for i in 0..16 {
        if i == 2 || i == 5 || i == 8 || i == 10 {
            continue;
        }
        let mut order = ep.order;
        order[i] ^= 0x01;
        assert!(decrypt_payload(&key, &order, &ep.content).is_err());
    }
}

#[test]
fn decoy_bytes_do_not_matter() {
    let key = test_key();
    let payload: Vec<u8> = b"decoys are noise".to_vec();
    let ep = encrypt_payload(&key, &payload).unwrap();
    let mut order = ep.order;
    order[2] ^= 0xff;
    order[5] ^= 0xff;
    order[8] ^= 0xff;
    order[10] ^= 0xff;
    let pt = decrypt_payload(&key, &order, &ep.content).unwrap();
    assert_eq!(pt, payload);
}

#[test]
fn wrong_key_fails_decryption() {
    let key = test_key();
    let other: Vec<u8> = b"ffffffffffffffffffffffffffffffff".to_vec();
    let payload: Vec<u8> = b"secret".to_vec();
    let ep = encrypt_payload(&key, &payload).unwrap();
    assert!(decrypt_payload(&other, &ep.order, &ep.content).is_err());
}

#[test]
fn malformed_order_fails_decryption() {
    let key = test_key();
    let payload: Vec<u8> = b"short order".to_vec();
    let ep = encrypt_payload(&key, &payload).unwrap();
    assert!(decrypt_payload(&key, &ep.order[0..15], &ep.content).is_err());
}
