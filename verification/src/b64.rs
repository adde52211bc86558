//! Standard base64 (RFC 4648 alphabet, `=` padding), as the `base64` crate's
//! `STANDARD` engine produces and accepts it.

use vstd::prelude::*;

verus! {

/// The character for a 6-bit value in the standard alphabet.
pub open spec fn b64_char(v: int) -> char {
    if 0 <= v < 26 {
        (65 + v) as char
    } else if 26 <= v < 52 {
        (97 + (v - 26)) as char
    } else if 52 <= v < 62 {
        (48 + (v - 52)) as char
    } else if v == 62 {
        '+'
    } else {
        '/'
    }
}

/// Standard base64 with `=` padding.
pub open spec fn b64_encode(d: Seq<u8>) -> Seq<char>
    decreases d.len(),
{
    if d.len() == 0 {
        Seq::empty()
    } else {
        let x = d[0] as int;
        let y = if d.len() > 1 {
            d[1] as int
        } else {
            0
        };
        let z = if d.len() > 2 {
            d[2] as int
        } else {
            0
        };
        if d.len() == 1 {
            seq![b64_char(x / 4), b64_char((x % 4) * 16), '=', '=']
        } else if d.len() == 2 {
            seq![b64_char(x / 4), b64_char((x % 4) * 16 + y / 16), b64_char((y % 16) * 4), '=']
        } else {
            seq![
                b64_char(x / 4),
                b64_char((x % 4) * 16 + y / 16),
                b64_char((y % 16) * 4 + z / 64),
                b64_char(z % 64),
            ] + b64_encode(d.skip(3))
        }
    }
}

/// Why the `base64` crate refused an input.
#[verifier::external_type_specification]
#[verifier::external_body]
pub struct ExDecodeError(::base64::DecodeError);

/// `Engine::encode` with the `STANDARD` engine: the padded standard base64 of
/// `data`.
#[verifier::external_body]
fn standard_encode(data: &[u8]) -> (r: String)
    ensures
        r@ == b64_encode(data@),
{
    ::base64::Engine::encode(&::base64::engine::general_purpose::STANDARD, data)
}

/// `Engine::decode` with the `STANDARD` engine on the bytes of `s`. The engine
/// requires canonical padding and zero trailing bits, so it accepts exactly
/// the strings `standard_encode` produces, and gives back the bytes encoded.
/// Which error it reports for other inputs is not stated.
#[verifier::external_body]
fn standard_decode(s: &str) -> (r: Result<Vec<u8>, ::base64::DecodeError>)
    ensures
        r matches Ok(b) ==> b64_encode(b@) == s@,
        r is Err ==> forall|b: Seq<u8>| b64_encode(b) != s@,
{
    ::base64::Engine::decode(&::base64::engine::general_purpose::STANDARD, s)
}

/// `DecodeError`'s `Display` text. Its wording is the crate's and is not stated.
#[verifier::external_body]
fn decode_error_text(e: &::base64::DecodeError) -> String {
    format!("{e}")
}

/// Padded standard base64 of `data`.
pub fn encode_standard(data: &[u8]) -> (r: String)
    ensures
        r@ == b64_encode(data@),
{
    standard_encode(data)
}

/// Decode padded standard base64; the error carries the decoder's message.
pub fn decode_standard(s: &str) -> (r: Result<Vec<u8>, String>)
    ensures
        r matches Ok(b) ==> b64_encode(b@) == s@,
        r is Err ==> forall|b: Seq<u8>| b64_encode(b) != s@,
{
    match standard_decode(s) {
        Ok(b) => Ok(b),
        Err(e) => Err(decode_error_text(&e)),
    }
}

/// Distinct 6-bit values have distinct characters, none of which is `=`.
pub proof fn lemma_b64_char_injective(u: int, v: int)
    requires
        0 <= u < 64,
        0 <= v < 64,
    ensures
        b64_char(u) == b64_char(v) ==> u == v,
        b64_char(u) != '=',
{
    let cu = b64_char(u);
    let cv = b64_char(v);
    assert(cu as u32 == if u < 26 { 65 + u } else if u < 52 { 71 + u } else if u < 62 { u - 4 } else if u == 62 { 43 } else { 47 });
    assert(cv as u32 == if v < 26 { 65 + v } else if v < 52 { 71 + v } else if v < 62 { v - 4 } else if v == 62 { 43 } else { 47 });
}

/// The encoding of `n` bytes has `4 * ceil(n / 3)` characters.
pub proof fn lemma_b64_len(d: Seq<u8>)
    ensures
        b64_encode(d).len() == 4 * ((d.len() + 2) / 3),
    decreases d.len(),
{
    if d.len() >= 3 {
        lemma_b64_len(d.skip(3));
    }
}

/// Two 6-bit digits `hi * 16 + lo` with `lo < 16` determine `hi` and `lo`.
proof fn lemma_split_digit(h1: int, l1: int, h2: int, l2: int, k: int)
    requires
        k > 0,
        0 <= l1 < k,
        0 <= l2 < k,
        h1 * k + l1 == h2 * k + l2,
    ensures
        h1 == h2,
        l1 == l2,
{
    if h1 < h2 {
        assert(h1 * k + k <= h2 * k) by (nonlinear_arith)
            requires h1 < h2, k > 0;
    } else if h2 < h1 {
        assert(h2 * k + k <= h1 * k) by (nonlinear_arith)
            requires h2 < h1, k > 0;
    }
}

/// A byte is determined by its quotient and remainder by `k`.
proof fn lemma_byte_parts(x: int, y: int, k: int)
    requires
        k > 0,
        x / k == y / k,
        x % k == y % k,
    ensures
        x == y,
{
    vstd::arithmetic::div_mod::lemma_fundamental_div_mod(x, k);
    vstd::arithmetic::div_mod::lemma_fundamental_div_mod(y, k);
}

/// Two byte strings with the same encoding are equal.
pub proof fn lemma_b64_encode_injective(a: Seq<u8>, b: Seq<u8>)
    requires
        b64_encode(a) == b64_encode(b),
    ensures
        a == b,
    decreases a.len(),
{
    lemma_b64_len(a);
    lemma_b64_len(b);
    if a.len() == 0 || b.len() == 0 {
        assert(a.len() == 0 && b.len() == 0);
        assert(a =~= b);
        return;
    }
    let ea = b64_encode(a);
    let eb = b64_encode(b);
    let xa = a[0] as int;
    let xb = b[0] as int;
    let ya = if a.len() > 1 { a[1] as int } else { 0 };
    let yb = if b.len() > 1 { b[1] as int } else { 0 };
    let za = if a.len() > 2 { a[2] as int } else { 0 };
    let zb = if b.len() > 2 { b[2] as int } else { 0 };
    lemma_b64_char_injective(xa / 4, xb / 4);
    lemma_b64_char_injective((xa % 4) * 16 + ya / 16, (xb % 4) * 16 + yb / 16);
    lemma_b64_char_injective((ya % 16) * 4 + za / 64, (yb % 16) * 4 + zb / 64);
    lemma_b64_char_injective(za % 64, zb % 64);
    lemma_b64_char_injective((xa % 4) * 16, (xb % 4) * 16);
    lemma_b64_char_injective((xa % 4) * 16, (xb % 4) * 16 + yb / 16);
    lemma_b64_char_injective((xa % 4) * 16 + ya / 16, (xb % 4) * 16);
    lemma_b64_char_injective((ya % 16) * 4, (yb % 16) * 4);
    lemma_b64_char_injective((ya % 16) * 4, (yb % 16) * 4 + zb / 64);
    lemma_b64_char_injective((ya % 16) * 4 + za / 64, (yb % 16) * 4);
    assert(ea[0] == eb[0] && ea[1] == eb[1] && ea[2] == eb[2] && ea[3] == eb[3]);
    assert(ea[0] == b64_char(xa / 4) && eb[0] == b64_char(xb / 4));
    // The padding decides how many bytes the first group holds.
    if a.len() == 1 {
        assert(ea[2] == '=');
        assert(b.len() == 1);
        assert(xa % 4 == xb % 4);
        assert(xa == xb);
        assert(a =~= b);
    } else if a.len() == 2 {
        assert(ea[3] == '=');
        assert(ea[2] != '=');
        assert(b.len() == 2);
        assert(ea[1] == b64_char((xa % 4) * 16 + ya / 16));
        assert(eb[1] == b64_char((xb % 4) * 16 + yb / 16));
        assert(ea[2] == b64_char((ya % 16) * 4));
        assert(eb[2] == b64_char((yb % 16) * 4));
        lemma_split_digit(xa % 4, ya / 16, xb % 4, yb / 16, 16);
        lemma_byte_parts(xa, xb, 4);
        lemma_split_digit(ya % 16, 0, yb % 16, 0, 4);
        lemma_byte_parts(ya, yb, 16);
        assert(a =~= b);
    } else {
        assert(ea[3] != '=');
        assert(ea[2] != '=');
        assert(b.len() >= 3);
        assert(ea[1] == b64_char((xa % 4) * 16 + ya / 16));
        assert(eb[1] == b64_char((xb % 4) * 16 + yb / 16));
        assert(ea[2] == b64_char((ya % 16) * 4 + za / 64));
        assert(eb[2] == b64_char((yb % 16) * 4 + zb / 64));
        assert(ea[3] == b64_char(za % 64) && eb[3] == b64_char(zb % 64));
        lemma_split_digit(xa % 4, ya / 16, xb % 4, yb / 16, 16);
        lemma_byte_parts(xa, xb, 4);
        lemma_split_digit(ya % 16, za / 64, yb % 16, zb / 64, 64);
        lemma_byte_parts(ya, yb, 16);
        lemma_byte_parts(za, zb, 64);
        assert(ea.skip(4) == b64_encode(a.skip(3)));
        assert(eb.skip(4) == b64_encode(b.skip(3)));
        lemma_b64_encode_injective(a.skip(3), b.skip(3));
        assert(a =~= seq![a[0], a[1], a[2]] + a.skip(3));
        assert(b =~= seq![b[0], b[1], b[2]] + b.skip(3));
    }
}

} // verus!
