//! The bridge between byte-level wire text and Rust strings, for text that
//! is plain ASCII: one byte per character, both ways.

use vstd::prelude::*;

use crate::dec::{dec_bytes, lemma_dec_bytes_digits};
use crate::wire::{json_u8_items, json_u8_list};

verus! {

/// Each byte read as one character.
pub open spec fn chars_of_bytes(b: Seq<u8>) -> Seq<char> {
    Seq::new(b.len(), |i: int| b[i] as char)
}

/// Each character written as one byte.
pub open spec fn bytes_of_chars(s: Seq<char>) -> Seq<u8> {
    Seq::new(s.len(), |i: int| s[i] as u8)
}

/// Every byte is below 128.
pub open spec fn all_ascii(b: Seq<u8>) -> bool {
    forall|i: int| 0 <= i < b.len() ==> #[trigger] b[i] < 128
}

pub proof fn lemma_bytes_chars_round(b: Seq<u8>)
    requires
        all_ascii(b),
    ensures
        bytes_of_chars(chars_of_bytes(b)) == b,
        vstd::utf8::is_ascii_chars(chars_of_bytes(b)),
{
    assert(bytes_of_chars(chars_of_bytes(b)) =~= b);
    assert forall|i: int| 0 <= i < chars_of_bytes(b).len() implies '\0' <= #[trigger] chars_of_bytes(
        b,
    )[i] <= '\u{7f}' by {
        assert(b[i] < 128);
    }
}

pub proof fn lemma_chars_bytes_round(s: Seq<char>)
    requires
        vstd::utf8::is_ascii_chars(s),
    ensures
        chars_of_bytes(bytes_of_chars(s)) == s,
        all_ascii(bytes_of_chars(s)),
{
    assert forall|i: int| 0 <= i < s.len() implies #[trigger] bytes_of_chars(s)[i] < 128 by {
        assert('\0' <= s[i] <= '\u{7f}');
    }
    assert(chars_of_bytes(bytes_of_chars(s)) =~= s);
}

/// Relies on `String::from_utf8`: bytes below 128 are valid UTF-8 and
/// decode to one character each, in order.
#[verifier::external_body]
pub fn ascii_string(bytes: Vec<u8>) -> (r: String)
    requires
        all_ascii(bytes@),
    ensures
        r@ == chars_of_bytes(bytes@),
{
    match String::from_utf8(bytes) {
        Ok(s) => s,
        Err(_) => String::new(),
    }
}

/// The characters of an ASCII string, one byte each.
pub fn str_bytes(s: &str) -> (r: Vec<u8>)
    requires
        s.is_ascii(),
    ensures
        r@ == bytes_of_chars(s@),
        all_ascii(r@),
{
    broadcast use vstd::string::is_ascii_spec_bytes;

    let v = s.as_bytes_vec();
    proof {
        assert(v@ =~= bytes_of_chars(s@));
        assert forall|i: int| 0 <= i < v@.len() implies #[trigger] v@[i] < 128 by {
            assert('\0' <= s@[i] <= '\u{7f}');
        }
    }
    v
}

pub proof fn lemma_all_ascii_concat(a: Seq<u8>, b: Seq<u8>)
    requires
        all_ascii(a),
        all_ascii(b),
    ensures
        all_ascii(a + b),
{
    assert forall|i: int| 0 <= i < (a + b).len() implies #[trigger] (a + b)[i] < 128 by {
        if i < a.len() {
            assert(a[i] < 128);
        } else {
            assert(b[i - a.len()] < 128);
        }
    }
}

pub proof fn lemma_dec_bytes_ascii(n: nat)
    ensures
        all_ascii(dec_bytes(n)),
{
    lemma_dec_bytes_digits(n);
}

pub proof fn lemma_json_u8_items_ascii(v: Seq<u8>)
    ensures
        all_ascii(json_u8_items(v)),
    decreases v.len(),
{
    if v.len() == 0 {
    } else if v.len() == 1 {
        lemma_dec_bytes_ascii(v[0] as nat);
    } else {
        lemma_dec_bytes_ascii(v[0] as nat);
        lemma_json_u8_items_ascii(v.skip(1));
        lemma_all_ascii_concat(dec_bytes(v[0] as nat), seq![44u8]);
        lemma_all_ascii_concat(dec_bytes(v[0] as nat) + seq![44u8], json_u8_items(v.skip(1)));
    }
}

pub proof fn lemma_json_u8_list_ascii(v: Seq<u8>)
    ensures
        all_ascii(json_u8_list(v)),
{
    lemma_json_u8_items_ascii(v);
    lemma_all_ascii_concat(seq![91u8], json_u8_items(v));
    lemma_all_ascii_concat(seq![91u8] + json_u8_items(v), seq![93u8]);
}

} // verus!
