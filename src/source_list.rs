//! The source list: a base64 payload that holds comma-separated URLs.

use crate::error::GridError;
use base64::engine::general_purpose;
use base64::Engine;
use vstd::prelude::*;

verus! {

/// What base64's standard engine (`+`, `/`, padding required) decodes `s` to.
pub uninterp spec fn standard_b64_of(s: Seq<char>) -> Option<Seq<u8>>;

/// What base64's URL-safe engine without padding (`-`, `_`) decodes `s` to.
pub uninterp spec fn url_safe_no_pad_b64_of(s: Seq<char>) -> Option<Seq<u8>>;

/// What base64's URL-safe engine with padding decodes `s` to.
pub uninterp spec fn url_safe_b64_of(s: Seq<char>) -> Option<Seq<u8>>;

/// The text that the UTF-8 bytes `b` encode, if they are valid UTF-8.
pub uninterp spec fn utf8_text_of(b: Seq<u8>) -> Option<Seq<char>>;

/// Relies on base64's `general_purpose::STANDARD.decode`.
#[verifier::external_body]
fn decode_standard(s: &str) -> (r: Result<Vec<u8>, base64::DecodeError>)
    ensures
        match r {
            Ok(b) => standard_b64_of(s@) == Some(b@),
            Err(_) => standard_b64_of(s@) is None,
        },
{
    general_purpose::STANDARD.decode(s)
}

/// Relies on base64's `general_purpose::URL_SAFE_NO_PAD.decode`.
#[verifier::external_body]
fn decode_url_safe_no_pad(s: &str) -> (r: Result<Vec<u8>, base64::DecodeError>)
    ensures
        match r {
            Ok(b) => url_safe_no_pad_b64_of(s@) == Some(b@),
            Err(_) => url_safe_no_pad_b64_of(s@) is None,
        },
{
    general_purpose::URL_SAFE_NO_PAD.decode(s)
}

/// Relies on base64's `general_purpose::URL_SAFE.decode`.
#[verifier::external_body]
fn decode_url_safe(s: &str) -> (r: Result<Vec<u8>, base64::DecodeError>)
    ensures
        match r {
            Ok(b) => url_safe_b64_of(s@) == Some(b@),
            Err(_) => url_safe_b64_of(s@) is None,
        },
{
    general_purpose::URL_SAFE.decode(s)
}

/// Relies on `String::from_utf8`: the text of valid UTF-8, an error otherwise.
#[verifier::external_body]
fn utf8_string(b: Vec<u8>) -> (r: Result<String, std::string::FromUtf8Error>)
    ensures
        match r {
            Ok(t) => utf8_text_of(b@) == Some(t@),
            Err(_) => utf8_text_of(b@) is None,
        },
{
    String::from_utf8(b)
}

/// Relies on `String`'s `FromIterator<char>`: the string of exactly these characters.
#[verifier::external_body]
fn string_of(cs: &[char]) -> (r: String)
    ensures
        r@ == cs@,
{
    String::from_iter(cs.iter())
}

/// The payload's bytes under the first of the three base64 variants that
/// accepts it: standard, then URL-safe unpadded, then URL-safe padded.
pub open spec fn payload_bytes(s: Seq<char>) -> Option<Seq<u8>> {
    if standard_b64_of(s) is Some {
        standard_b64_of(s)
    } else if url_safe_no_pad_b64_of(s) is Some {
        url_safe_no_pad_b64_of(s)
    } else {
        url_safe_b64_of(s)
    }
}

/// Characters with Unicode's White_Space property.
pub open spec fn is_white_space(c: char) -> bool {
    let u = c as u32;
    (0x9 <= u <= 0xD) || u == 0x20 || u == 0x85 || u == 0xA0 || u == 0x1680 || (0x2000 <= u
        <= 0x200A) || u == 0x2028 || u == 0x2029 || u == 0x202F || u == 0x205F || u == 0x3000
}

/// `s` without its leading white space.
pub open spec fn trim_start(s: Seq<char>) -> Seq<char>
    decreases s.len(),
{
    if s.len() > 0 && is_white_space(s[0]) {
        trim_start(s.drop_first())
    } else {
        s
    }
}

/// `s` without its trailing white space.
pub open spec fn trim_end(s: Seq<char>) -> Seq<char>
    decreases s.len(),
{
    if s.len() > 0 && is_white_space(s.last()) {
        trim_end(s.drop_last())
    } else {
        s
    }
}

/// `s` without white space at either end.
pub open spec fn trim(s: Seq<char>) -> Seq<char> {
    trim_end(trim_start(s))
}

/// The pieces of `text` between commas, in order: `k` commas make `k + 1` pieces.
pub open spec fn split_commas(text: Seq<char>) -> Seq<Seq<char>>
    decreases text.len(),
{
    if text.len() == 0 {
        seq![Seq::empty()]
    } else {
        let p = split_commas(text.drop_last());
        if text.last() == ',' {
            p.push(Seq::empty())
        } else {
            p.update(p.len() - 1, p.last().push(text.last()))
        }
    }
}

/// The pieces, trimmed, with the empty ones dropped.
pub open spec fn kept(pieces: Seq<Seq<char>>) -> Seq<Seq<char>> {
    pieces.map_values(|p: Seq<char>| trim(p)).filter(|p: Seq<char>| p.len() > 0)
}

/// The URLs that a decoded source list names, in order.
pub open spec fn source_urls(text: Seq<char>) -> Seq<Seq<char>> {
    kept(split_commas(text))
}

/// The URLs that an encoded source list names, if it decodes.
pub open spec fn listed_sources(s: Seq<char>) -> Option<Seq<Seq<char>>> {
    match payload_bytes(s) {
        Some(b) => match utf8_text_of(b) {
            Some(t) => Some(source_urls(t)),
            None => None,
        },
        None => None,
    }
}

/// The characters of each string.
pub open spec fn texts(v: Seq<String>) -> Seq<Seq<char>> {
    v.map_values(|s: String| s@)
}

proof fn lemma_split_nonempty(text: Seq<char>)
    ensures
        split_commas(text).len() >= 1,
    decreases text.len(),
{
    if text.len() > 0 {
        lemma_split_nonempty(text.drop_last());
    }
}

proof fn lemma_kept_push(pieces: Seq<Seq<char>>, x: Seq<char>)
    ensures
        kept(pieces.push(x)) == if trim(x).len() > 0 {
            kept(pieces).push(trim(x))
        } else {
            kept(pieces)
        },
{
    let m = pieces.map_values(|p: Seq<char>| trim(p));
    let m2 = pieces.push(x).map_values(|p: Seq<char>| trim(p));
    assert(m2 =~= m.push(trim(x)));
    assert(m2.drop_last() =~= m);
    assert(m2.last() == trim(x));
    let pred = |p: Seq<char>| p.len() > 0;
    reveal_with_fuel(Seq::filter, 2);
    assert(m2.filter(pred) == if trim(x).len() > 0 {
        m.filter(pred).push(trim(x))
    } else {
        m.filter(pred)
    });
}

fn white_space(c: char) -> (r: bool)
    ensures
        r == is_white_space(c),
{
    let u = c as u32;
    (0x9 <= u && u <= 0xD) || u == 0x20 || u == 0x85 || u == 0xA0 || u == 0x1680 || (0x2000 <= u
        && u <= 0x200A) || u == 0x2028 || u == 0x2029 || u == 0x202F || u == 0x205F || u == 0x3000
}

/// The characters of `text`, in order.
pub fn chars_of(text: &String) -> (r: Vec<char>)
    ensures
        r@ == text@,
{
    let mut cs: Vec<char> = Vec::new();
    for c in it: text.as_str().chars()
        invariant
            cs@ == it.seq().take(it.index() as int),
    {
        cs.push(c);
    }
    proof {
        broadcast use vstd::string::axiom_spec_iter;
    }
    cs
}

/// `s` without white space at either end.
pub fn trim_chars(s: &Vec<char>) -> (r: Vec<char>)
    ensures
        r@ == trim(s@),
{
    let n: usize = s.len();
    let mut a: usize = 0;
    assert(s@.skip(0) =~= s@);
    while a < n && white_space(s[a])
        invariant
            a <= n,
            n == s@.len(),
            trim_start(s@) == trim_start(s@.skip(a as int)),
        decreases n - a,
    {
        assert(s@.skip(a as int).drop_first() =~= s@.skip(a + 1));
        a = a + 1;
    }
    assert(s@.skip(a as int) =~= s@.subrange(a as int, n as int));
    let mut b: usize = n;
    while b > a && white_space(s[b - 1])
        invariant
            a <= b <= n,
            n == s@.len(),
            trim(s@) == trim_end(s@.subrange(a as int, b as int)),
        decreases b,
    {
        assert(s@.subrange(a as int, b as int).drop_last() =~= s@.subrange(a as int, b - 1));
        b = b - 1;
    }
    let mut r: Vec<char> = Vec::new();
    let mut k: usize = a;
    while k < b
        invariant
            a <= k <= b,
            b <= n,
            n == s@.len(),
            r@ == s@.subrange(a as int, k as int),
        decreases b - k,
    {
        r.push(s[k]);
        k = k + 1;
        assert(r@ =~= s@.subrange(a as int, k as int));
    }
    r
}

/// Splits a decoded source list on commas, trims each piece and drops the empty ones.
pub fn split_sources(text: &String) -> (r: Vec<String>)
    ensures
        texts(r@) == source_urls(text@),
{
    let cs = chars_of(text);
    let mut out: Vec<String> = Vec::new();
    let mut cur: Vec<char> = Vec::new();
    let mut i: usize = 0;
    proof {
        assert(cs@.take(0) =~= Seq::<char>::empty());
        assert(split_commas(Seq::<char>::empty()).drop_last() =~= Seq::<Seq<char>>::empty());
        assert(kept(Seq::<Seq<char>>::empty()) =~= Seq::<Seq<char>>::empty());
        assert(texts(out@) =~= Seq::<Seq<char>>::empty());
    }
    while i < cs.len()
        invariant
            i <= cs@.len(),
            split_commas(cs@.take(i as int)).len() >= 1,
            cur@ == split_commas(cs@.take(i as int)).last(),
            texts(out@) == kept(split_commas(cs@.take(i as int)).drop_last()),
        decreases cs.len() - i,
    {
        let c = cs[i];
        let ghost t = cs@.take(i as int);
        let ghost p = split_commas(t);
        assert(cs@.take(i + 1).drop_last() =~= t);
        assert(cs@.take(i + 1).last() == c);
        if c == ',' {
            let piece = trim_chars(&cur);
            let ghost before = out@;
            if piece.len() > 0 {
                let s = string_of(piece.as_slice());
                out.push(s);
                assert(texts(out@) =~= texts(before).push(s@));
            }
            cur = Vec::new();
            proof {
                assert(p.push(Seq::empty()).drop_last() =~= p);
                assert(p =~= p.drop_last().push(p.last()));
                lemma_kept_push(p.drop_last(), p.last());
            }
        } else {
            cur.push(c);
            proof {
                assert(p.update(p.len() - 1, p.last().push(c)).drop_last() =~= p.drop_last());
            }
        }
        i = i + 1;
        proof {
            lemma_split_nonempty(cs@.take(i as int));
        }
    }
    assert(cs@.take(i as int) =~= text@);
    let piece = trim_chars(&cur);
    let ghost before = out@;
    if piece.len() > 0 {
        let s = string_of(piece.as_slice());
        out.push(s);
        assert(texts(out@) =~= texts(before).push(s@));
    }
    proof {
        let p = split_commas(text@);
        assert(p =~= p.drop_last().push(p.last()));
        lemma_kept_push(p.drop_last(), p.last());
    }
    out
}

/// Decodes an encoded source list to the URLs that it names.
pub fn decode_source_list(encoded: &str) -> (r: Result<Vec<String>, GridError>)
    ensures
        (r is Err && r->Err_0 is Base64DecodeError) <==> payload_bytes(encoded@) is None,
        (r is Err && r->Err_0 is Utf8Error) <==> (payload_bytes(encoded@) is Some && utf8_text_of(
            payload_bytes(encoded@)->0,
        ) is None),
        r is Ok <==> listed_sources(encoded@) is Some,
        r is Ok ==> listed_sources(encoded@) == Some(texts(r->Ok_0@)),
{
    let bytes = match decode_standard(encoded) {
        Ok(b) => b,
        Err(_) => match decode_url_safe_no_pad(encoded) {
            Ok(b) => b,
            Err(_) => match decode_url_safe(encoded) {
                Ok(b) => b,
                Err(e) => {
                    return Err(GridError::Base64DecodeError(e));
                },
            },
        },
    };
    let text = match utf8_string(bytes) {
        Ok(t) => t,
        Err(e) => {
            return Err(GridError::Utf8Error(e));
        },
    };
    Ok(split_sources(&text))
}

/// A payload that only the URL-safe unpadded engine accepts names the same
/// URLs as the standard encoding of the same bytes.
pub proof fn lemma_fallback_same_sources(unpadded: Seq<char>, standard: Seq<char>)
    requires
        standard_b64_of(unpadded) is None,
        url_safe_no_pad_b64_of(unpadded) is Some,
        standard_b64_of(standard) == url_safe_no_pad_b64_of(unpadded),
    ensures
        payload_bytes(unpadded) == payload_bytes(standard),
        listed_sources(unpadded) == listed_sources(standard),
{
}

} // verus!
