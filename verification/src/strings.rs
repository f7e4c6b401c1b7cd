//! Text reductions on failure messages: cutting the useful segment out of
//! a store error and rewriting its value marks, and reading which unique
//! column a duplicate-key failure names.

use vstd::prelude::*;

use crate::errors::SignUpDataErrors;

verus! {

/// The pattern stands in `s` at offset `i`.
pub open spec fn found_at(s: Seq<char>, i: int, pat: Seq<char>) -> bool {
    0 <= i && i + pat.len() <= s.len() && s.subrange(i, i + pat.len() as int) == pat
}

/// The first offset at or after `from` where the pattern stands, if any.
pub open spec fn first_found(s: Seq<char>, from: int, pat: Seq<char>) -> Option<int>
    decreases s.len() - from,
{
    if from < 0 || from + pat.len() > s.len() {
        None
    } else if pat.len() == 0 {
        Some(from)
    } else if found_at(s, from, pat) {
        Some(from)
    } else {
        first_found(s, from + 1, pat)
    }
}

/// The pattern occurs somewhere in `s`.
pub open spec fn mentions(s: Seq<char>, pat: Seq<char>) -> bool {
    first_found(s, 0, pat) is Some
}

/// All occurrences of `pat` replaced by `rep`, left to right, without
/// overlap.
pub open spec fn replace_all(s: Seq<char>, pat: Seq<char>, rep: Seq<char>) -> Seq<char>
    decreases s.len(),
{
    if pat.len() == 0 || s.len() < pat.len() {
        s
    } else if found_at(s, 0, pat) {
        rep + replace_all(s.skip(pat.len() as int), pat, rep)
    } else {
        seq![s[0]] + replace_all(s.skip(1), pat, rep)
    }
}

/// What a store error text is reduced to: the segment after the first
/// `Object` up to the next occurrence or the end, with `String("` and `")`
/// marks rewritten to bare quotes.
pub open spec fn dberr_spec(s: Seq<char>) -> Seq<char>
    recommends
        mentions(s, "Object"@),
{
    let start = (match first_found(s, 0, "Object"@) {
        Some(i) => i,
        None => 0,
    }) + "Object"@.len();
    let end = (match first_found(s, start as int, "Object"@) {
        Some(j) => j,
        None => s.len() as int,
    });
    let seg = s.subrange(start as int, end);
    replace_all(replace_all(seg, "String(\""@, "\""@), "\")"@, "\""@)
}

/// The characters of a string, in order.
pub fn string_chars(s: &str) -> (v: Vec<char>)
    ensures
        v@ == s@,
{
    let n = s.unicode_len();
    let mut v: Vec<char> = Vec::new();
    let mut i: usize = 0;
    while i < n
        invariant
            n == s@.len(),
            i <= n,
            v@ == s@.subrange(0, i as int),
        decreases n - i,
    {
        let c = s.get_char(i);
        v.push(c);
        proof {
            assert(v@ =~= s@.subrange(0, i + 1));
        }
        i = i + 1;
    }
    proof {
        assert(s@.subrange(0, n as int) =~= s@);
    }
    v
}

/// Relies on `String`'s `FromIterator`: collecting characters builds the
/// string of exactly those characters, in order.
#[verifier::external_body]
fn chars_to_string(v: &Vec<char>) -> (s: String)
    ensures
        s@ == v@,
{
    v.iter().collect()
}

/// Tests whether the pattern stands in `hay` at offset `pos`.
fn chars_match_at(hay: &Vec<char>, pos: usize, pat: &Vec<char>) -> (r: bool)
    ensures
        r == found_at(hay@, pos as int, pat@),
{
    if hay.len() < pat.len() || pos > hay.len() - pat.len() {
        return false;
    }
    let mut k: usize = 0;
    while k < pat.len()
        invariant
            pos + pat@.len() <= hay@.len(),
            hay@.len() <= usize::MAX,
            k <= pat@.len(),
            forall|t: int| 0 <= t < k ==> hay@[pos + t] == pat@[t],
        decreases pat@.len() - k,
    {
        if hay[pos + k] != pat[k] {
            proof {
                if found_at(hay@, pos as int, pat@) {
                    assert(hay@.subrange(pos as int, pos as int + pat@.len() as int)[k as int]
                        == pat@[k as int]);
                }
            }
            return false;
        }
        k = k + 1;
    }
    proof {
        assert(hay@.subrange(pos as int, pos as int + pat@.len() as int) =~= pat@);
    }
    true
}

/// Finds the first occurrence of the pattern at or after `from`.
fn find_from(hay: &Vec<char>, from: usize, pat: &Vec<char>) -> (r: Option<usize>)
    ensures
        r matches Some(k) ==> first_found(hay@, from as int, pat@) == Some(k as int) && from <= k
            && k + pat@.len() <= hay@.len(),
        r is None ==> first_found(hay@, from as int, pat@) is None,
{
    if hay.len() < pat.len() || from > hay.len() - pat.len() {
        return None;
    }
    if pat.len() == 0 {
        return Some(from);
    }
    let mut i: usize = from;
    while i <= hay.len() - pat.len()
        invariant
            hay@.len() <= usize::MAX,
            1 <= pat@.len() <= hay@.len(),
            from <= i <= hay@.len(),
            first_found(hay@, from as int, pat@) == first_found(hay@, i as int, pat@),
        decreases hay@.len() - i,
    {
        if chars_match_at(hay, i, pat) {
            return Some(i);
        }
        i = i + 1;
    }
    None
}

/// Appends the characters of `src` onto `out`.
fn push_chars(out: &mut Vec<char>, src: &Vec<char>)
    ensures
        final(out)@ == old(out)@ + src@,
{
    let mut k: usize = 0;
    while k < src.len()
        invariant
            k <= src@.len(),
            out@ == old(out)@ + src@.subrange(0, k as int),
        decreases src@.len() - k,
    {
        let ghost prev = out@;
        out.push(src[k]);
        proof {
            assert(prev.push(src@[k as int]) =~= old(out)@ + src@.subrange(0, k + 1));
        }
        k = k + 1;
    }
    proof {
        assert(src@.subrange(0, src@.len() as int) =~= src@);
    }
}

/// The characters of `v` between `a` and `b`.
fn subvec_chars(v: &Vec<char>, a: usize, b: usize) -> (out: Vec<char>)
    requires
        a <= b <= v@.len(),
    ensures
        out@ == v@.subrange(a as int, b as int),
{
    let mut out: Vec<char> = Vec::new();
    let mut k: usize = a;
    while k < b
        invariant
            a <= k <= b <= v@.len(),
            out@ == v@.subrange(a as int, k as int),
        decreases b - k,
    {
        out.push(v[k]);
        proof {
            assert(v@.subrange(a as int, k as int).push(v@[k as int]) =~= v@.subrange(
                a as int,
                k + 1,
            ));
        }
        k = k + 1;
    }
    out
}

/// Replaces every occurrence of `pat` in `s` by `rep`, left to right.
fn replace_chars(s: &Vec<char>, pat: &Vec<char>, rep: &Vec<char>) -> (out: Vec<char>)
    requires
        pat@.len() > 0,
    ensures
        out@ == replace_all(s@, pat@, rep@),
{
    let mut out: Vec<char> = Vec::new();
    let mut i: usize = 0;
    let n = s.len();
    proof {
        assert(n == s@.len());
        assert(s@.skip(0) =~= s@);
        assert(Seq::<char>::empty() + replace_all(s@, pat@, rep@) =~= replace_all(
            s@,
            pat@,
            rep@,
        ));
    }
    while pat.len() <= s.len() - i && i <= s.len()
        invariant
            s@.len() <= usize::MAX,
            i <= s@.len(),
            pat@.len() > 0,
            replace_all(s@, pat@, rep@) == out@ + replace_all(s@.skip(i as int), pat@, rep@),
        decreases s@.len() - i,
    {
        proof {
            assert(s@.skip(i as int).len() >= pat@.len());
        }
        if chars_match_at(s, i, pat) {
            proof {
                assert(s@.skip(i as int).subrange(0, pat@.len() as int) =~= s@.subrange(
                    i as int,
                    i as int + pat@.len() as int,
                ));
                assert(found_at(s@.skip(i as int), 0, pat@));
                assert(s@.skip(i as int).skip(pat@.len() as int) =~= s@.skip(
                    i + pat@.len() as int,
                ));
            }
            let ghost prev = out@;
            push_chars(&mut out, rep);
            proof {
                match replace_all(s@.skip(i + pat@.len() as int), pat@, rep@) {
                    rest => {
                        assert((prev + rep@) + rest =~= prev + (rep@ + rest));
                    },
                }
            }
            i = i + pat.len();
        } else {
            proof {
                assert(s@.skip(i as int).subrange(0, pat@.len() as int) =~= s@.subrange(
                    i as int,
                    i as int + pat@.len() as int,
                ));
                assert(!found_at(s@.skip(i as int), 0, pat@));
                assert(s@.skip(i as int)[0] == s@[i as int]);
                assert(s@.skip(i as int).skip(1) =~= s@.skip(i as int + 1));
            }
            let ghost prev = out@;
            out.push(s[i]);
            proof {
                match replace_all(s@.skip(i as int + 1), pat@, rep@) {
                    rest => {
                        assert(prev.push(s@[i as int]) + rest =~= prev + (seq![s@[i as int]]
                            + rest));
                    },
                }
            }
            i = i + 1;
        }
    }
    proof {
        assert(s@.skip(i as int).len() < pat@.len());
        assert(replace_all(s@.skip(i as int), pat@, rep@) == s@.skip(i as int));
    }
    let mut k: usize = i;
    while k < s.len()
        invariant
            i <= k <= s@.len(),
            replace_all(s@, pat@, rep@) == out@ + s@.skip(k as int),
        decreases s@.len() - k,
    {
        let ghost prev = out@;
        out.push(s[k]);
        proof {
            assert(s@.skip(k as int) =~= seq![s@[k as int]] + s@.skip(k as int + 1));
            assert(prev.push(s@[k as int]) + s@.skip(k as int + 1) =~= prev + s@.skip(
                k as int,
            ));
        }
        k = k + 1;
    }
    proof {
        assert(s@.skip(s@.len() as int) =~= Seq::<char>::empty());
        assert(out@ + Seq::<char>::empty() =~= out@);
    }
    out
}

/// Cuts the useful segment out of a store error text and rewrites its
/// value marks to bare quotes.
pub fn format_custom_dberr(errors: String) -> (r: String)
    requires
        mentions(errors@, "Object"@),
    ensures
        r@ == dberr_spec(errors@),
{
    let chars = string_chars(errors.as_str());
    let nc = chars.len();
    proof {
        assert(nc == chars@.len());
    }
    let pat = string_chars("Object");
    let i = match find_from(&chars, 0, &pat) {
        Some(i) => i,
        None => {
            proof {
                assert(false);
            }
            0
        },
    };
    let start = i + pat.len();
    let end = match find_from(&chars, start, &pat) {
        Some(j) => j,
        None => chars.len(),
    };
    proof {
        if first_found(chars@, start as int, pat@) is Some {
            lemma_first_found_bounds(chars@, start as int, pat@);
        }
    }
    let seg = subvec_chars(&chars, start, end);
    let p1 = string_chars("String(\"");
    let r1 = string_chars("\"");
    let p2 = string_chars("\")");
    proof {
        reveal_strlit("String(\"");
        reveal_strlit("\")");
        reveal_strlit("Object");
    }
    let t1 = replace_chars(&seg, &p1, &r1);
    let t2 = replace_chars(&t1, &p2, &r1);
    chars_to_string(&t2)
}

pub proof fn lemma_first_found_bounds(s: Seq<char>, from: int, pat: Seq<char>)
    ensures
        first_found(s, from, pat) matches Some(k) ==> from <= k && k + pat.len() <= s.len(),
    decreases s.len() - from,
{
    if !(from < 0 || from + pat.len() > s.len()) && pat.len() != 0 && !found_at(s, from, pat) {
        lemma_first_found_bounds(s, from + 1, pat);
    }
}

/// Reads a user-store failure message: a duplicate-key failure names the
/// unique column that was hit, and becomes the form errors shown for it.
pub fn signup_duplicate_errors(msg: &String) -> (r: Option<SignUpDataErrors>)
    ensures
        r is Some <==> mentions(msg@, "duplicate key"@),
        r matches Some(e) ==> e.email@ == (if mentions(msg@, "users_e_key"@) {
            "already_exists"@
        } else {
            Seq::<char>::empty()
        }),
        r matches Some(e) ==> e.phone@ == (if !mentions(msg@, "users_e_key"@) && mentions(
            msg@,
            "users_ph_key"@,
        ) {
            "already_exists"@
        } else {
            Seq::<char>::empty()
        }),
        r matches Some(e) ==> e.firstName@.len() == 0 && e.lastName@.len() == 0 && e.spe@.len()
            == 0 && e.siren@.len() == 0 && e.terms@.len() == 0 && e.privacy@.len() == 0,
{
    let chars = string_chars(msg.as_str());
    let dup = string_chars("duplicate key");
    if find_from(&chars, 0, &dup).is_none() {
        return None;
    }
    let mut e = SignUpDataErrors::new();
    let ekey = string_chars("users_e_key");
    let phkey = string_chars("users_ph_key");
    if find_from(&chars, 0, &ekey).is_some() {
        e.email = "already_exists".to_owned();
    } else if find_from(&chars, 0, &phkey).is_some() {
        e.phone = "already_exists".to_owned();
    }
    Some(e)
}

} // verus!
