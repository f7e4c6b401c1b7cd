//! Unpadded base64url text: encoder, strict decoder, and the round-trip
//! law. The strict decoder insists that unused trailing bits are zero, so
//! every accepted text is the canonical encoding of its bytes.

use vstd::prelude::*;

verus! {

/// The base64url alphabet character for a 6-bit value.
pub open spec fn b64_char(v: u8) -> u8
    recommends
        v < 64,
{
    if v < 26 {
        (65 + v) as u8
    } else if v < 52 {
        (97 + v - 26) as u8
    } else if v < 62 {
        (48 + v - 52) as u8
    } else if v == 62 {
        45
    } else {
        95
    }
}

/// The 6-bit value of a base64url alphabet character, if it is one.
pub open spec fn b64_val(c: u8) -> Option<u8> {
    if 65 <= c <= 90 {
        Some((c - 65) as u8)
    } else if 97 <= c <= 122 {
        Some((c - 97 + 26) as u8)
    } else if 48 <= c <= 57 {
        Some((c - 48 + 52) as u8)
    } else if c == 45 {
        Some(62)
    } else if c == 95 {
        Some(63)
    } else {
        None
    }
}

pub proof fn lemma_b64_char_val(v: u8)
    requires
        v < 64,
    ensures
        b64_val(b64_char(v)) == Some(v),
{
}

/// The unpadded base64url text of a byte sequence.
pub open spec fn b64_encode(s: Seq<u8>) -> Seq<u8>
    decreases s.len(),
{
    if s.len() == 0 {
        Seq::empty()
    } else if s.len() == 1 {
        seq![b64_char(s[0] >> 2), b64_char((s[0] & 3) << 4)]
    } else if s.len() == 2 {
        seq![
            b64_char(s[0] >> 2),
            b64_char(((s[0] & 3) << 4) | (s[1] >> 4)),
            b64_char((s[1] & 15) << 2),
        ]
    } else {
        seq![
            b64_char(s[0] >> 2),
            b64_char(((s[0] & 3) << 4) | (s[1] >> 4)),
            b64_char(((s[1] & 15) << 2) | (s[2] >> 6)),
            b64_char(s[2] & 63),
        ] + b64_encode(s.skip(3))
    }
}

/// The bytes a strict unpadded base64url text stands for: every character
/// must be of the alphabet, the length must not be 1 mod 4, and unused
/// trailing bits must be zero.
pub open spec fn b64_decode(s: Seq<u8>) -> Option<Seq<u8>>
    decreases s.len(),
{
    if s.len() == 0 {
        Some(Seq::empty())
    } else if s.len() == 1 {
        None
    } else if s.len() == 2 {
        match (b64_val(s[0]), b64_val(s[1])) {
            (Some(v0), Some(v1)) => if v1 & 15 == 0 {
                Some(seq![(v0 << 2) | (v1 >> 4)])
            } else {
                None
            },
            _ => None,
        }
    } else if s.len() == 3 {
        match (b64_val(s[0]), b64_val(s[1]), b64_val(s[2])) {
            (Some(v0), Some(v1), Some(v2)) => if v2 & 3 == 0 {
                Some(seq![(v0 << 2) | (v1 >> 4), ((v1 & 15) << 4) | (v2 >> 2)])
            } else {
                None
            },
            _ => None,
        }
    } else {
        match (b64_val(s[0]), b64_val(s[1]), b64_val(s[2]), b64_val(s[3])) {
            (Some(v0), Some(v1), Some(v2), Some(v3)) => match b64_decode(s.skip(4)) {
                Some(rest) => Some(
                    seq![
                        (v0 << 2) | (v1 >> 4),
                        ((v1 & 15) << 4) | (v2 >> 2),
                        ((v2 & 3) << 6) | v3,
                    ] + rest,
                ),
                None => None,
            },
            _ => None,
        }
    }
}

/// Law: strict decoding reads the encoding of any byte sequence back
/// unchanged.
pub proof fn lemma_b64_round_trip(s: Seq<u8>)
    ensures
        b64_decode(b64_encode(s)) == Some(s),
    decreases s.len(),
{
    if s.len() == 0 {
    } else if s.len() == 1 {
        let s0 = s[0];
        assert(s0 >> 2 < 64 && (s0 & 3) << 4 < 64) by (bit_vector);
        lemma_b64_char_val(s0 >> 2);
        lemma_b64_char_val((s0 & 3) << 4);
        assert(((s0 & 3) << 4) & 15 == 0) by (bit_vector);
        assert(((s0 >> 2) << 2) | (((s0 & 3) << 4) >> 4) == s0) by (bit_vector);
        assert(seq![((s0 >> 2) << 2) | (((s0 & 3) << 4) >> 4)] =~= s);
    } else if s.len() == 2 {
        let s0 = s[0];
        let s1 = s[1];
        assert(s0 >> 2 < 64 && ((s0 & 3) << 4) | (s1 >> 4) < 64 && (s1 & 15) << 2 < 64)
            by (bit_vector);
        lemma_b64_char_val(s0 >> 2);
        lemma_b64_char_val(((s0 & 3) << 4) | (s1 >> 4));
        lemma_b64_char_val((s1 & 15) << 2);
        assert(((s1 & 15) << 2) & 3 == 0) by (bit_vector);
        assert(((s0 >> 2) << 2) | ((((s0 & 3) << 4) | (s1 >> 4)) >> 4) == s0) by (bit_vector);
        assert((((((s0 & 3) << 4) | (s1 >> 4)) & 15) << 4) | (((s1 & 15) << 2) >> 2) == s1)
            by (bit_vector);
        assert(seq![
            ((s0 >> 2) << 2) | ((((s0 & 3) << 4) | (s1 >> 4)) >> 4),
            (((((s0 & 3) << 4) | (s1 >> 4)) & 15) << 4) | (((s1 & 15) << 2) >> 2),
        ] =~= s);
    } else {
        let s0 = s[0];
        let s1 = s[1];
        let s2 = s[2];
        let c0 = b64_char(s0 >> 2);
        let c1 = b64_char(((s0 & 3) << 4) | (s1 >> 4));
        let c2 = b64_char(((s1 & 15) << 2) | (s2 >> 6));
        let c3 = b64_char(s2 & 63);
        assert(s0 >> 2 < 64 && ((s0 & 3) << 4) | (s1 >> 4) < 64 && ((s1 & 15) << 2) | (s2 >> 6)
            < 64 && s2 & 63 < 64) by (bit_vector);
        lemma_b64_char_val(s0 >> 2);
        lemma_b64_char_val(((s0 & 3) << 4) | (s1 >> 4));
        lemma_b64_char_val(((s1 & 15) << 2) | (s2 >> 6));
        lemma_b64_char_val(s2 & 63);
        lemma_b64_round_trip(s.skip(3));
        let e = b64_encode(s);
        let g = seq![c0, c1, c2, c3];
        assert(e == g + b64_encode(s.skip(3)));
        assert(e.len() >= 4);
        assert(e[0] == c0 && e[1] == c1 && e[2] == c2 && e[3] == c3);
        assert(e.skip(4) =~= b64_encode(s.skip(3)));
        let v0 = s0 >> 2;
        let v1 = ((s0 & 3) << 4) | (s1 >> 4);
        let v2 = ((s1 & 15) << 2) | (s2 >> 6);
        let v3 = s2 & 63;
        assert(((s0 >> 2) << 2) | ((((s0 & 3) << 4) | (s1 >> 4)) >> 4) == s0) by (bit_vector);
        assert((((((s0 & 3) << 4) | (s1 >> 4)) & 15) << 4) | (((((s1 & 15) << 2) | (s2 >> 6)))
            >> 2) == s1) by (bit_vector);
        assert((((((s1 & 15) << 2) | (s2 >> 6)) & 3) << 6) | (s2 & 63) == s2) by (bit_vector);
        assert(seq![(v0 << 2) | (v1 >> 4), ((v1 & 15) << 4) | (v2 >> 2), ((v2 & 3) << 6) | v3]
            + s.skip(3) =~= s);
    }
}

/// The byte is a base64url alphabet character.
pub open spec fn is_b64_alphabet(b: u8) -> bool {
    b64_val(b) is Some
}

/// Law: every byte of an encoding is of the alphabet; in particular it is
/// ASCII and is not a dot.
pub proof fn lemma_b64_encode_alphabet(s: Seq<u8>)
    ensures
        forall|i: int|
            0 <= i < b64_encode(s).len() ==> is_b64_alphabet(#[trigger] b64_encode(s)[i]),
    decreases s.len(),
{
    if s.len() == 0 {
    } else if s.len() == 1 {
        let s0 = s[0];
        assert(s0 >> 2 < 64 && (s0 & 3) << 4 < 64) by (bit_vector);
        lemma_b64_char_val(s0 >> 2);
        lemma_b64_char_val((s0 & 3) << 4);
    } else if s.len() == 2 {
        let s0 = s[0];
        let s1 = s[1];
        assert(s0 >> 2 < 64 && ((s0 & 3) << 4) | (s1 >> 4) < 64 && (s1 & 15) << 2 < 64)
            by (bit_vector);
        lemma_b64_char_val(s0 >> 2);
        lemma_b64_char_val(((s0 & 3) << 4) | (s1 >> 4));
        lemma_b64_char_val((s1 & 15) << 2);
    } else {
        let s0 = s[0];
        let s1 = s[1];
        let s2 = s[2];
        assert(s0 >> 2 < 64 && ((s0 & 3) << 4) | (s1 >> 4) < 64 && ((s1 & 15) << 2) | (s2 >> 6)
            < 64 && s2 & 63 < 64) by (bit_vector);
        lemma_b64_char_val(s0 >> 2);
        lemma_b64_char_val(((s0 & 3) << 4) | (s1 >> 4));
        lemma_b64_char_val(((s1 & 15) << 2) | (s2 >> 6));
        lemma_b64_char_val(s2 & 63);
        lemma_b64_round_trip(s.skip(3));
        lemma_b64_encode_alphabet(s.skip(3));
        assert forall|i: int| 0 <= i < b64_encode(s).len() implies is_b64_alphabet(
            #[trigger] b64_encode(s)[i],
        ) by {
            if i >= 4 {
                assert(b64_encode(s)[i] == b64_encode(s.skip(3))[i - 4]);
            }
        }
    }
}

pub proof fn lemma_b64_encode_append(a: Seq<u8>, b: Seq<u8>)
    requires
        a.len() % 3 == 0,
    ensures
        b64_encode(a + b) == b64_encode(a) + b64_encode(b),
    decreases a.len(),
{
    if a.len() == 0 {
        assert(a + b =~= b);
        assert(Seq::<u8>::empty() + b64_encode(b) =~= b64_encode(b));
    } else {
        assert(a.len() >= 3);
        assert((a + b).skip(3) =~= a.skip(3) + b);
        lemma_b64_encode_append(a.skip(3), b);
        if b.len() == 0 {
            assert(a + b =~= a);
        }
        assert((a + b).len() >= 3);
        assert((a + b)[0] == a[0] && (a + b)[1] == a[1] && (a + b)[2] == a[2]);
        assert(b64_encode(a + b) =~= b64_encode(a) + b64_encode(b));
    }
}

/// The base64url alphabet character for a 6-bit value.
pub fn char_of(v: u8) -> (c: u8)
    requires
        v < 64,
    ensures
        c == b64_char(v),
{
    if v < 26 {
        65 + v
    } else if v < 52 {
        97 + v - 26
    } else if v < 62 {
        48 + v - 52
    } else if v == 62 {
        45
    } else {
        95
    }
}

/// The 6-bit value of a base64url alphabet character, if it is one.
pub fn val_of(c: u8) -> (r: Option<u8>)
    ensures
        r == b64_val(c),
{
    if 65 <= c && c <= 90 {
        Some(c - 65)
    } else if 97 <= c && c <= 122 {
        Some(c - 97 + 26)
    } else if 48 <= c && c <= 57 {
        Some(c - 48 + 52)
    } else if c == 45 {
        Some(62)
    } else if c == 95 {
        Some(63)
    } else {
        None
    }
}

/// Encodes a byte sequence as unpadded base64url text.
pub fn b64_encode_bytes(s: &[u8]) -> (out: Vec<u8>)
    ensures
        out@ == b64_encode(s@),
{
    let mut out: Vec<u8> = Vec::new();
    let mut i: usize = 0;
    let n = s.len();
    proof {
        assert(n == s@.len());
    }
    while s.len() - i >= 3
        invariant
            i <= s@.len(),
            s@.len() <= usize::MAX,
            i % 3 == 0,
            out@ == b64_encode(s@.take(i as int)),
        decreases s@.len() - i,
    {
        let b0 = s[i];
        let b1 = s[i + 1];
        let b2 = s[i + 2];
        proof {
            assert(b0 >> 2 < 64 && ((b0 & 3) << 4) | (b1 >> 4) < 64 && ((b1 & 15) << 2) | (b2
                >> 6) < 64 && b2 & 63 < 64) by (bit_vector);
        }
        let ghost prev = out@;
        out.push(char_of(b0 >> 2));
        out.push(char_of(((b0 & 3) << 4) | (b1 >> 4)));
        out.push(char_of(((b1 & 15) << 2) | (b2 >> 6)));
        out.push(char_of(b2 & 63));
        proof {
            let g3 = s@.subrange(i as int, i + 3);
            assert(g3.len() == 3 && g3[0] == b0 && g3[1] == b1 && g3[2] == b2);
            assert(g3.skip(3) =~= Seq::<u8>::empty());
            assert(b64_encode(g3.skip(3)) == Seq::<u8>::empty());
            assert(b64_encode(g3) =~= seq![
                b64_char(b0 >> 2),
                b64_char(((b0 & 3) << 4) | (b1 >> 4)),
                b64_char(((b1 & 15) << 2) | (b2 >> 6)),
                b64_char(b2 & 63),
            ]);
            lemma_b64_encode_append(s@.take(i as int), g3);
            assert(s@.take(i as int) + g3 =~= s@.take(i + 3));
            assert(out@ =~= b64_encode(s@.take(i + 3)));
        }
        i = i + 3;
    }
    let rem = s.len() - i;
    if rem == 1 {
        let b0 = s[i];
        proof {
            assert(b0 >> 2 < 64 && (b0 & 3) << 4 < 64) by (bit_vector);
        }
        out.push(char_of(b0 >> 2));
        out.push(char_of((b0 & 3) << 4));
        proof {
            let t = s@.subrange(i as int, i + 1);
            assert(t.len() == 1 && t[0] == b0);
            lemma_b64_encode_append(s@.take(i as int), t);
            assert(s@.take(i as int) + t =~= s@);
            assert(b64_encode(t) =~= seq![b64_char(b0 >> 2), b64_char((b0 & 3) << 4)]);
            assert(out@ =~= b64_encode(s@));
        }
    } else if rem == 2 {
        let b0 = s[i];
        let b1 = s[i + 1];
        proof {
            assert(b0 >> 2 < 64 && ((b0 & 3) << 4) | (b1 >> 4) < 64 && (b1 & 15) << 2 < 64)
                by (bit_vector);
        }
        out.push(char_of(b0 >> 2));
        out.push(char_of(((b0 & 3) << 4) | (b1 >> 4)));
        out.push(char_of((b1 & 15) << 2));
        proof {
            let t = s@.subrange(i as int, i + 2);
            assert(t.len() == 2 && t[0] == b0 && t[1] == b1);
            lemma_b64_encode_append(s@.take(i as int), t);
            assert(s@.take(i as int) + t =~= s@);
            assert(b64_encode(t) =~= seq![
                b64_char(b0 >> 2),
                b64_char(((b0 & 3) << 4) | (b1 >> 4)),
                b64_char((b1 & 15) << 2),
            ]);
            assert(out@ =~= b64_encode(s@));
        }
    } else {
        proof {
            assert(s@.take(i as int) =~= s@);
        }
    }
    out
}

/// Decodes strict unpadded base64url text.
pub fn b64_decode_bytes(s: &[u8]) -> (r: Option<Vec<u8>>)
    ensures
        r matches Some(v) ==> b64_decode(s@) == Some(v@),
        r is None ==> b64_decode(s@) is None,
{
    let mut out: Vec<u8> = Vec::new();
    let mut i: usize = 0;
    let n = s.len();
    proof {
        assert(n == s@.len());
        assert(s@.skip(0) =~= s@);
        match b64_decode(s@) {
            Some(rest) => {
                assert(Seq::<u8>::empty() + rest =~= rest);
            },
            None => {},
        }
    }
    while s.len() - i >= 4
        invariant
            i <= s@.len(),
            s@.len() <= usize::MAX,
            b64_decode(s@) == (match b64_decode(s@.skip(i as int)) {
                None => None::<Seq<u8>>,
                Some(rest) => Some(out@ + rest),
            }),
        decreases s@.len() - i,
    {
        let v0 = match val_of(s[i]) {
            Some(v) => v,
            None => {
                return None;
            },
        };
        let v1 = match val_of(s[i + 1]) {
            Some(v) => v,
            None => {
                return None;
            },
        };
        let v2 = match val_of(s[i + 2]) {
            Some(v) => v,
            None => {
                return None;
            },
        };
        let v3 = match val_of(s[i + 3]) {
            Some(v) => v,
            None => {
                return None;
            },
        };
        proof {
            assert(v0 < 64 && v1 < 64 && v2 < 64 && v3 < 64);
            assert(s@.skip(i as int).len() >= 4);
            assert(s@.skip(i as int)[0] == s@[i as int]);
            assert(s@.skip(i as int)[1] == s@[i as int + 1]);
            assert(s@.skip(i as int)[2] == s@[i as int + 2]);
            assert(s@.skip(i as int)[3] == s@[i as int + 3]);
            assert(s@.skip(i as int).skip(4) =~= s@.skip(i as int + 4));
        }
        let ghost prev = out@;
        out.push((v0 << 2) | (v1 >> 4));
        out.push(((v1 & 15) << 4) | (v2 >> 2));
        out.push(((v2 & 3) << 6) | v3);
        proof {
            let g = seq![(v0 << 2) | (v1 >> 4), ((v1 & 15) << 4) | (v2 >> 2), ((v2 & 3) << 6)
                | v3];
            assert(out@ =~= prev + g);
            match b64_decode(s@.skip(i as int + 4)) {
                Some(rest) => {
                    assert((prev + g) + rest =~= prev + (g + rest));
                },
                None => {},
            }
        }
        i = i + 4;
    }
    let rem = s.len() - i;
    if rem == 0 {
        proof {
            assert(s@.skip(i as int) =~= Seq::<u8>::empty());
            assert(out@ + Seq::<u8>::empty() =~= out@);
        }
        Some(out)
    } else if rem == 1 {
        None
    } else if rem == 2 {
        let v0 = match val_of(s[i]) {
            Some(v) => v,
            None => {
                return None;
            },
        };
        let v1 = match val_of(s[i + 1]) {
            Some(v) => v,
            None => {
                return None;
            },
        };
        proof {
            assert(s@.skip(i as int).len() == 2);
            assert(s@.skip(i as int)[0] == s@[i as int]);
            assert(s@.skip(i as int)[1] == s@[i as int + 1]);
        }
        if v1 & 15 != 0 {
            return None;
        }
        let ghost prev = out@;
        out.push((v0 << 2) | (v1 >> 4));
        proof {
            assert(out@ =~= prev + seq![(v0 << 2) | (v1 >> 4)]);
        }
        Some(out)
    } else {
        let v0 = match val_of(s[i]) {
            Some(v) => v,
            None => {
                return None;
            },
        };
        let v1 = match val_of(s[i + 1]) {
            Some(v) => v,
            None => {
                return None;
            },
        };
        let v2 = match val_of(s[i + 2]) {
            Some(v) => v,
            None => {
                return None;
            },
        };
        proof {
            assert(s@.skip(i as int).len() == 3);
            assert(s@.skip(i as int)[0] == s@[i as int]);
            assert(s@.skip(i as int)[1] == s@[i as int + 1]);
            assert(s@.skip(i as int)[2] == s@[i as int + 2]);
        }
        if v2 & 3 != 0 {
            return None;
        }
        let ghost prev = out@;
        out.push((v0 << 2) | (v1 >> 4));
        out.push(((v1 & 15) << 4) | (v2 >> 2));
        proof {
            assert(out@ =~= prev + seq![(v0 << 2) | (v1 >> 4), ((v1 & 15) << 4) | (v2 >> 2)]);
        }
        Some(out)
    }
}

} // verus!
