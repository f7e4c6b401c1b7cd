use focus_auth::b64::{b64_decode_bytes, b64_encode_bytes};
use focus_auth::datefmt::{
    format_timestamp_into_slash_date, format_timestamp_into_string_date,
    format_timestamp_into_string_times,
};
use focus_auth::dec::{parse_u64_at, write_u64_dec};
use focus_auth::strings::{format_custom_dberr, signup_duplicate_errors};

#[test]
fn decimal_writer_emits_canonical_digits() {
    let mut out: Vec<u8> = Vec::new();
    write_u64_dec(&mut out, 1234);
    assert_eq!(out, b"1234".to_vec());
    let mut zero: Vec<u8> = Vec::new();
    write_u64_dec(&mut zero, 0);
    assert_eq!(zero, b"0".to_vec());
}

#[test]
fn decimal_parser_reads_back() {
    let text = b"9876543210,rest";
    let (value, end) = parse_u64_at(text, 0).unwrap();
    assert_eq!(value, 9_876_543_210);
    assert_eq!(end, 10);
    assert!(parse_u64_at(b"x12", 0).is_none());
    assert!(parse_u64_at(b"99999999999999999999999", 0).is_none());
}

#[test]
fn base64url_encodes_known_values() {
    assert_eq!(b64_encode_bytes(b"Man"), b"TWFu".to_vec());
    assert_eq!(b64_encode_bytes(b"Ma"), b"TWE".to_vec());
    assert_eq!(b64_encode_bytes(b"M"), b"TQ".to_vec());
    assert_eq!(b64_encode_bytes(b""), Vec::<u8>::new());
    assert_eq!(b64_encode_bytes(&[0xfb, 0xff]), b"-_8".to_vec());
}

#[test]
fn base64url_round_trips() {
    let data: Vec<u8> = (0u16..=255).map(|b| b as u8).collect();
    for len in [0usize, 1, 2, 3, 4, 5, 255, 256] {
        let slice = &data[..len];
        let encoded = b64_encode_bytes(slice);
        let decoded = b64_decode_bytes(&encoded).unwrap();
        assert_eq!(decoded, slice.to_vec());
    }
}

#[test]
fn base64url_rejects_bad_text() {
    assert!(b64_decode_bytes(b"a").is_none());
    assert!(b64_decode_bytes(b"ab=").is_none());
    assert!(b64_decode_bytes(b"a+b/").is_none());
    // Non-zero trailing bits are not canonical.
    assert!(b64_decode_bytes(b"TX").is_none());
}

#[test]
fn it_format_timestamp_into_string_date() {
    let expected: String = String::from("jeudi 21 d\u{e9}cembre 2023");
    let payload_in_sec = 1_703_113_200;
    let formatted = format_timestamp_into_string_date(payload_in_sec);
    assert_eq!(expected, formatted);
}

#[test]
fn it_format_timestamp_into_slash_date() {
    let expected: String = String::from("jeu 21/12");
    let payload_in_sec = 1_703_113_200;
    let formatted = format_timestamp_into_slash_date(payload_in_sec);
    assert_eq!(&expected, &formatted);
}

#[test]
fn it_format_timestamp_into_string_times() {
    let expected: String = String::from("9h00");
    let payload_in_sec = 32_400;
    let formatted = format_timestamp_into_string_times(payload_in_sec);
    assert_eq!(&expected, &formatted);
}

#[test]
fn first_of_month_takes_er() {
    // 2024-01-01 00:30 UTC; the one-hour shift keeps it on January 1st.
    let formatted = format_timestamp_into_string_date(1_704_069_000);
    assert_eq!(formatted, "lundi 1er janvier 2024");
}

#[test]
fn times_pads_minutes_not_hours() {
    assert_eq!(format_timestamp_into_string_times(0), "0h00");
    assert_eq!(format_timestamp_into_string_times(61_200 + 300), "17h05");
}

#[test]
fn dberr_segment_is_cut_and_rewritten() {
    let input = String::from("before Object x String(\"dup\") y");
    let out = format_custom_dberr(input);
    assert_eq!(out, " x \"dup\" y");
}

#[test]
fn dberr_stops_at_second_marker() {
    let input = String::from("Object String(\"a\") tail Object ignored");
    let out = format_custom_dberr(input);
    assert_eq!(out, " \"a\" tail ");
}

#[test]
fn duplicate_key_classification() {
    let email = String::from("duplicate key: users_e_key");
    let e = signup_duplicate_errors(&email).unwrap();
    assert_eq!(e.email, "already_exists");
    assert_eq!(e.phone, "");

    let phone = String::from("duplicate key: users_ph_key");
    let p = signup_duplicate_errors(&phone).unwrap();
    assert_eq!(p.email, "");
    assert_eq!(p.phone, "already_exists");

    let other = String::from("some other failure");
    assert!(signup_duplicate_errors(&other).is_none());

    let bare = String::from("duplicate key: users_x_key");
    let b = signup_duplicate_errors(&bare).unwrap();
    assert_eq!(b.email, "");
    assert_eq!(b.phone, "");
}
