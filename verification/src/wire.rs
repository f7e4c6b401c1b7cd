//! Canonical JSON text for byte arrays: the writer emits `[1,2,3]`, the
//! strict parser reads exactly that shape back, and the round-trip law ties
//! the two together.

use vstd::prelude::*;

use crate::dec::{dec_bytes, is_digit, lemma_dec_bytes_digits, lemma_parse_dec_writer, parse_dec};

verus! {

/// The items of a byte array in JSON: decimal values separated by commas.
pub open spec fn json_u8_items(v: Seq<u8>) -> Seq<u8>
    decreases v.len(),
{
    if v.len() == 0 {
        Seq::empty()
    } else if v.len() == 1 {
        dec_bytes(v[0] as nat)
    } else {
        dec_bytes(v[0] as nat) + seq![44u8] + json_u8_items(v.skip(1))
    }
}

/// A byte array in JSON: the items in square brackets.
pub open spec fn json_u8_list(v: Seq<u8>) -> Seq<u8> {
    seq![91u8] + json_u8_items(v) + seq![93u8]
}

/// Reads the items of a byte array starting at `i`, up to and including the
/// closing bracket; every value must fit in a byte.
pub open spec fn parse_u8_items(s: Seq<u8>, i: int) -> Option<(Seq<u8>, int)>
    decreases s.len() - i,
{
    match parse_dec(s, i) {
        None => None,
        Some((v, j)) => if v > 255 || j >= s.len() {
            None
        } else if s[j] == 44 {
            if i < j + 1 <= s.len() {
                match parse_u8_items(s, j + 1) {
                    None => None,
                    Some((rest, k)) => Some((seq![v as u8] + rest, k)),
                }
            } else {
                None
            }
        } else if s[j] == 93 {
            Some((seq![v as u8], j + 1))
        } else {
            None
        },
    }
}

/// Reads a byte array at `i`: an opening bracket, items, a closing bracket.
pub open spec fn parse_u8_list(s: Seq<u8>, i: int) -> Option<(Seq<u8>, int)> {
    if 0 <= i < s.len() && s[i] == 91 {
        if i + 1 < s.len() && s[i + 1] == 93 {
            Some((Seq::empty(), i + 2))
        } else {
            parse_u8_items(s, i + 1)
        }
    } else {
        None
    }
}

pub proof fn lemma_json_u8_items_snoc(u: Seq<u8>, x: u8)
    requires
        u.len() >= 1,
    ensures
        json_u8_items(u.push(x)) == json_u8_items(u) + seq![44u8] + dec_bytes(x as nat),
    decreases u.len(),
{
    if u.len() == 1 {
        assert(u.push(x).skip(1) =~= seq![x]);
        assert(json_u8_items(seq![x]) == dec_bytes(x as nat));
        assert(json_u8_items(u.push(x)) =~= json_u8_items(u) + seq![44u8] + dec_bytes(x as nat));
    } else {
        assert(u.push(x).skip(1) =~= u.skip(1).push(x));
        lemma_json_u8_items_snoc(u.skip(1), x);
        assert(json_u8_items(u.push(x)) =~= json_u8_items(u) + seq![44u8] + dec_bytes(x as nat));
    }
}

proof fn lemma_parse_u8_items_writer(s: Seq<u8>, i: int, v: Seq<u8>)
    requires
        v.len() >= 1,
        0 <= i,
        i + json_u8_items(v).len() + 1 <= s.len(),
        s.subrange(i, i + json_u8_items(v).len() + 1) == json_u8_items(v) + seq![93u8],
    ensures
        parse_u8_items(s, i) == Some((v, i + json_u8_items(v).len() + 1)),
    decreases v.len(),
{
    let jl = json_u8_items(v).len() as int;
    let d0 = dec_bytes(v[0] as nat);
    let d0l = d0.len() as int;
    lemma_dec_bytes_digits(v[0] as nat);
    assert(dec_bytes((v[0] as u64) as nat) == d0);
    if v.len() == 1 {
        assert(json_u8_items(v) == d0);
        assert(s.subrange(i, i + d0l) =~= d0) by {
            assert(forall|k: int|
                0 <= k < d0l ==> s.subrange(i, i + jl + 1)[k] == #[trigger] s.subrange(
                    i,
                    i + d0l,
                )[k]);
        }
        assert(s[i + d0l] == s.subrange(i, i + jl + 1)[d0l]);
        assert(s[i + d0l] == 93);
        lemma_parse_dec_writer(s, i, v[0] as u64);
        assert(parse_u8_items(s, i) == Some((seq![v[0]], i + d0l + 1)));
        assert(seq![v[0]] =~= v);
    } else {
        let tail = json_u8_items(v.skip(1));
        assert(json_u8_items(v) == d0 + seq![44u8] + tail);
        assert(s.subrange(i, i + d0l) =~= d0) by {
            assert(forall|k: int|
                0 <= k < d0l ==> s.subrange(i, i + jl + 1)[k] == #[trigger] s.subrange(
                    i,
                    i + d0l,
                )[k]);
        }
        assert(s[i + d0l] == s.subrange(i, i + jl + 1)[d0l]);
        assert(s[i + d0l] == 44);
        lemma_parse_dec_writer(s, i, v[0] as u64);
        let i2 = i + d0l + 1;
        assert(jl == d0l + 1 + tail.len());
        assert forall|k: int| 0 <= k < tail.len() + 1 implies s.subrange(
            i2,
            i2 + tail.len() + 1,
        )[k] == (tail + seq![93u8])[k] by {
            assert(s.subrange(i2, i2 + tail.len() + 1)[k] == s[i2 + k]);
            assert(s.subrange(i, i + jl + 1)[k + d0l + 1] == s[i2 + k]);
            assert((json_u8_items(v) + seq![93u8])[k + d0l + 1] == (tail + seq![93u8])[k]);
        }
        assert(s.subrange(i2, i2 + tail.len() + 1) =~= tail + seq![93u8]);
        lemma_parse_u8_items_writer(s, i2, v.skip(1));
        assert(parse_u8_items(s, i2) == Some((v.skip(1), i2 + tail.len() + 1)));
        assert(seq![v[0]] + v.skip(1) =~= v);
        assert(i2 + tail.len() + 1 == i + jl + 1);
    }
}

/// Law: the strict array parser reads the canonical JSON text of a byte
/// array back as that array, stopping right after the closing bracket.
pub proof fn lemma_parse_u8_list_writer(s: Seq<u8>, i: int, v: Seq<u8>)
    requires
        0 <= i,
        i + json_u8_list(v).len() <= s.len(),
        s.subrange(i, i + json_u8_list(v).len() as int) == json_u8_list(v),
    ensures
        parse_u8_list(s, i) == Some((v, i + json_u8_list(v).len() as int)),
{
    let ll = json_u8_list(v).len() as int;
    let jl = json_u8_items(v).len() as int;
    assert(s[i] == s.subrange(i, i + ll)[0]);
    assert(s[i] == 91);
    if v.len() == 0 {
        assert(jl == 0);
        assert(s[i + 1] == s.subrange(i, i + ll)[1]);
        assert(s[i + 1] == 93);
    } else {
        lemma_dec_bytes_digits(v[0] as nat);
        assert(json_u8_items(v)[0] == dec_bytes(v[0] as nat)[0]);
        assert(s[i + 1] == s.subrange(i, i + ll)[1]);
        assert(is_digit(s[i + 1]));
        assert(s[i + 1] != 93);
        assert(ll == jl + 2);
        assert forall|k: int| 0 <= k < jl + 1 implies s.subrange(i + 1, i + 1 + jl + 1)[k] == (
        json_u8_items(v) + seq![93u8])[k] by {
            assert(s.subrange(i + 1, i + 1 + jl + 1)[k] == s[i + 1 + k]);
            assert(s.subrange(i, i + ll)[k + 1] == s[i + 1 + k]);
            assert(json_u8_list(v)[k + 1] == (json_u8_items(v) + seq![93u8])[k]);
        }
        assert(s.subrange(i + 1, i + 1 + jl + 1) =~= json_u8_items(v) + seq![93u8]);
        lemma_parse_u8_items_writer(s, i + 1, v);
    }
}

/// Writes the canonical JSON text of the byte array `v` onto `out`.
pub fn write_u8_list(out: &mut Vec<u8>, v: &[u8])
    ensures
        final(out)@ == old(out)@ + json_u8_list(v@),
{
    let ghost base = out@;
    out.push(91);
    if v.len() > 0 {
        crate::dec::write_u64_dec(out, v[0] as u64);
        proof {
            assert(v@.take(1) =~= seq![v@[0]]);
            assert(out@ =~= base + seq![91u8] + json_u8_items(v@.take(1)));
        }
        let mut i: usize = 1;
        while i < v.len()
            invariant
                1 <= i <= v@.len(),
                out@ == base + seq![91u8] + json_u8_items(v@.take(i as int)),
            decreases v@.len() - i,
        {
            out.push(44);
            crate::dec::write_u64_dec(out, v[i] as u64);
            proof {
                assert(v@.take(i as int).push(v@[i as int]) =~= v@.take(i + 1));
                lemma_json_u8_items_snoc(v@.take(i as int), v@[i as int]);
                assert(out@ =~= base + seq![91u8] + json_u8_items(v@.take(i + 1)));
            }
            i = i + 1;
        }
        proof {
            assert(v@.take(v@.len() as int) =~= v@);
        }
    }
    out.push(93);
    proof {
        assert(out@ =~= base + json_u8_list(v@));
    }
}

/// Reads a canonical JSON byte array in `s` starting at `pos`, returning
/// the bytes and the index just past the closing bracket.
pub fn parse_u8_list_at(s: &[u8], pos: usize) -> (r: Option<(Vec<u8>, usize)>)
    ensures
        r matches Some(p) ==> parse_u8_list(s@, pos as int) == Some((p.0@, p.1 as int)) && pos
            < p.1 <= s@.len(),
        r is None ==> parse_u8_list(s@, pos as int) is None,
{
    if pos >= s.len() || s[pos] != 91 {
        return None;
    }
    if pos + 1 < s.len() && s[pos + 1] == 93 {
        return Some((Vec::new(), pos + 2));
    }
    let mut out: Vec<u8> = Vec::new();
    let mut i: usize = pos + 1;
    proof {
        match parse_u8_items(s@, pos as int + 1) {
            Some((rest, _)) => {
                assert(Seq::<u8>::empty() + rest =~= rest);
            },
            None => {},
        }
    }
    loop
        invariant
            pos < i <= s@.len(),
            pos < s@.len(),
            s@[pos as int] == 91,
            !(pos + 1 < s@.len() && s@[pos as int + 1] == 93),
            parse_u8_items(s@, pos as int + 1) == (match parse_u8_items(s@, i as int) {
                None => None::<(Seq<u8>, int)>,
                Some((rest, k)) => Some((out@ + rest, k)),
            }),
        decreases s@.len() - i,
    {
        let parsed = crate::dec::parse_u64_at(s, i);
        match parsed {
            None => {
                return None;
            },
            Some((val, j)) => {
                if val > 255 {
                    return None;
                }
                if j >= s.len() {
                    return None;
                }
                if s[j] == 44 {
                    let ghost prev = out@;
                    out.push(val as u8);
                    proof {
                        assert(parse_u8_items(s@, i as int) == (match parse_u8_items(
                            s@,
                            j as int + 1,
                        ) {
                            None => None::<(Seq<u8>, int)>,
                            Some((rest, k)) => Some((seq![val as u8] + rest, k)),
                        }));
                        match parse_u8_items(s@, j as int + 1) {
                            Some((rest, _)) => {
                                assert(prev.push(val as u8) + rest =~= prev + (seq![val as u8]
                                    + rest));
                            },
                            None => {},
                        }
                    }
                    i = j + 1;
                } else if s[j] == 93 {
                    let ghost prev = out@;
                    out.push(val as u8);
                    proof {
                        assert(parse_u8_items(s@, i as int) == Some((
                            seq![val as u8],
                            j as int + 1,
                        )));
                        assert(out@ =~= prev + seq![val as u8]);
                    }
                    return Some((out, j + 1));
                } else {
                    return None;
                }
            },
        }
    }
}

} // verus!
