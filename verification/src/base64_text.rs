//! Base64 with the standard alphabet and padding, as binary attribute values
//! are written in JSON.

use base64::Engine;
use vstd::prelude::*;

verus! {

/// The character that stands for the six-bit number `v`.
pub open spec fn symbol(v: int) -> char {
    if v < 26 {
        (0x41 + v) as char
    } else if v < 52 {
        (0x61 + v - 26) as char
    } else if v < 62 {
        (0x30 + v - 52) as char
    } else if v == 62 {
        '+'
    } else {
        '/'
    }
}

/// The base64 text of `bytes`: four characters for each three bytes, the last
/// group padded with `=`.
pub open spec fn base64_of(bytes: Seq<u8>) -> Seq<char>
    decreases bytes.len(),
{
    let a = bytes[0] as int;
    let b = bytes[1] as int;
    let c = bytes[2] as int;
    if bytes.len() == 0 {
        Seq::empty()
    } else if bytes.len() == 1 {
        seq![symbol(a / 4), symbol(a % 4 * 16), '=', '=']
    } else if bytes.len() == 2 {
        seq![symbol(a / 4), symbol(a % 4 * 16 + b / 16), symbol(b % 16 * 4), '=']
    } else {
        seq![
            symbol(a / 4),
            symbol(a % 4 * 16 + b / 16),
            symbol(b % 16 * 4 + c / 64),
            symbol(c % 64),
        ] + base64_of(bytes.skip(3))
    }
}

/// The bytes whose base64 text is `text`, where there are any.
pub open spec fn base64_decoded(text: Seq<char>) -> Option<Seq<u8>> {
    if exists|bytes: Seq<u8>| #[trigger] base64_of(bytes) == text {
        Some(choose|bytes: Seq<u8>| #[trigger] base64_of(bytes) == text)
    } else {
        None
    }
}

/// `base64::engine::general_purpose::STANDARD.encode`: the standard alphabet,
/// with padding.
#[verifier::external_body]
pub(crate) fn encode(bytes: &[u8]) -> (r: String)
    ensures
        r@ == base64_of(bytes@),
{
    base64::engine::general_purpose::STANDARD.encode(bytes)
}

/// `base64::engine::general_purpose::STANDARD.decode`: padding must be
/// canonical and unused bits must be zero, so exactly the texts that encoding
/// gives are decoded, each to the bytes it was encoded from.
#[verifier::external_body]
fn decode_strict(text: &str) -> (r: Option<Vec<u8>>)
    ensures
        match r {
            Some(bytes) => base64_of(bytes@) == text@,
            None => forall|bytes: Seq<u8>| #[trigger] base64_of(bytes) != text@,
        },
{
    base64::engine::general_purpose::STANDARD.decode(text).ok()
}

/// Decodes base64 text.
pub(crate) fn decode(text: &str) -> (r: Option<Vec<u8>>)
    ensures
        match r {
            Some(bytes) => base64_decoded(text@) == Some(bytes@),
            None => base64_decoded(text@) is None,
        },
{
    let r = decode_strict(text);
    proof {
        if r is Some {
            lemma_decoded(r->0@);
        }
    }
    r
}

proof fn lemma_symbol(v: int, w: int)
    requires
        0 <= v < 64,
        0 <= w < 64,
    ensures
        symbol(v) == symbol(w) ==> v == w,
        symbol(v) != '=',
{
}

/// No two byte strings have the same base64 text.
pub proof fn lemma_base64_injective(x: Seq<u8>, y: Seq<u8>)
    requires
        base64_of(x) == base64_of(y),
    ensures
        x == y,
    decreases x.len(),
{
    let s = base64_of(x);
    if x.len() == 0 || y.len() == 0 {
        assert(s.len() == 0);
        assert(x =~= y);
    } else {
        let (a, b, c) = (x[0] as int, x[1] as int, x[2] as int);
        let (d, e, f) = (y[0] as int, y[1] as int, y[2] as int);
        let s2 = if x.len() == 1 { a % 4 * 16 } else { a % 4 * 16 + b / 16 };
        let t2 = if y.len() == 1 { d % 4 * 16 } else { d % 4 * 16 + e / 16 };
        let s3 = if x.len() == 2 { b % 16 * 4 } else { b % 16 * 4 + c / 64 };
        let t3 = if y.len() == 2 { e % 16 * 4 } else { e % 16 * 4 + f / 64 };
        assert(s[0] == symbol(a / 4) && s[0] == symbol(d / 4));
        assert(s[1] == symbol(s2) && s[1] == symbol(t2));
        lemma_symbol(a / 4, d / 4);
        lemma_symbol(s2, t2);
        lemma_symbol(s3, t3);
        lemma_symbol(c % 64, f % 64);
        assert(x.len() > 1 ==> s[2] == symbol(s3));
        assert(y.len() > 1 ==> s[2] == symbol(t3));
        assert(x.len() > 2 ==> s[3] == symbol(c % 64));
        assert(y.len() > 2 ==> s[3] == symbol(f % 64));
        if x.len() > 2 {
            assert(s.skip(4) =~= base64_of(x.skip(3)));
            assert(s.skip(4) =~= base64_of(y.skip(3)));
            lemma_base64_injective(x.skip(3), y.skip(3));
            assert(x =~= seq![x[0], x[1], x[2]] + x.skip(3));
            assert(y =~= seq![y[0], y[1], y[2]] + y.skip(3));
        } else {
            assert(x =~= y);
        }
    }
}

/// Decoding gives back the bytes that were encoded.
pub proof fn lemma_decoded(bytes: Seq<u8>)
    ensures
        base64_decoded(base64_of(bytes)) == Some(bytes),
{
    let text = base64_of(bytes);
    let found = choose|b: Seq<u8>| #[trigger] base64_of(b) == text;
    lemma_base64_injective(found, bytes);
}

/// A whole number of three-byte groups is encoded the same way whatever follows it.
pub proof fn lemma_base64_prefix(first: Seq<u8>, rest: Seq<u8>)
    requires
        first.len() % 3 == 0,
    ensures
        base64_of(first + rest) == base64_of(first) + base64_of(rest),
    decreases first.len(),
{
    let all = first + rest;
    if first.len() == 0 {
        assert(all =~= rest);
        assert(base64_of(first) + base64_of(rest) =~= base64_of(rest));
    } else {
        assert(all.skip(3) =~= first.skip(3) + rest);
        lemma_base64_prefix(first.skip(3), rest);
        assert(base64_of(all) =~= base64_of(first) + base64_of(rest));
    }
}

} // verus!
