//! Building text out of byte strings: decimal numbers and UTF-8 pieces.

use vstd::prelude::*;
use vstd::utf8::{decode_utf8, encode_utf8, valid_utf8};
use vstd::string::StringSliceAdditionalSpecFns;

verus! {

/// The decimal digits of `n`, most significant first, as ASCII bytes.
pub open spec fn decimal(n: nat) -> Seq<u8>
    decreases n,
{
    if n < 10 {
        seq![(48 + n) as u8]
    } else {
        decimal(n / 10).push((48 + n % 10) as u8)
    }
}

/// One ASCII byte is valid UTF-8.
proof fn lemma_ascii_byte_valid(b: u8)
    requires
        b < 128,
    ensures
        valid_utf8(seq![b]),
{
    let s = seq![b];
    assert(vstd::utf8::is_leading_byte_width_1(b)) by (bit_vector)
        requires
            b < 128,
    ;
    assert(vstd::utf8::pop_first_scalar(s) =~= Seq::<u8>::empty());
    assert(valid_utf8(Seq::<u8>::empty()));
}

/// The digits of a number are valid UTF-8.
pub proof fn lemma_decimal_valid(n: nat)
    ensures
        valid_utf8(decimal(n)),
    decreases n,
{
    if n < 10 {
        lemma_ascii_byte_valid((48 + n) as u8);
    } else {
        lemma_decimal_valid(n / 10);
        lemma_ascii_byte_valid((48 + n % 10) as u8);
        vstd::utf8::valid_utf8_concat(decimal(n / 10), seq![(48 + n % 10) as u8]);
        assert(decimal(n / 10).push((48 + n % 10) as u8) =~= decimal(n / 10) + seq![(48 + n % 10) as u8]);
    }
}

/// Appends the decimal digits of `n`.
pub fn push_decimal(out: &mut Vec<u8>, n: u64)
    ensures
        final(out)@ == old(out)@ + decimal(n as nat),
        valid_utf8(old(out)@) ==> valid_utf8(final(out)@),
    decreases n,
{
    if n >= 10 {
        push_decimal(out, n / 10);
    }
    out.push(48 + (n % 10) as u8);
    proof {
        if n >= 10 {
            assert(old(out)@ + decimal(n as nat) =~= (old(out)@ + decimal((n / 10) as nat)).push((48 + n % 10) as u8));
        } else {
            assert(old(out)@ + decimal(n as nat) =~= old(out)@.push((48 + n % 10) as u8));
        }
        if valid_utf8(old(out)@) {
            lemma_decimal_valid(n as nat);
            vstd::utf8::valid_utf8_concat(old(out)@, decimal(n as nat));
        }
    }
}

/// Appends the UTF-8 bytes of `s`.
pub fn push_str(out: &mut Vec<u8>, s: &str)
    ensures
        final(out)@ == old(out)@ + s.spec_bytes(),
        valid_utf8(old(out)@) ==> valid_utf8(final(out)@),
{
    let b = s.as_bytes();
    let mut i: usize = 0;
    while i < b.len()
        invariant
            i <= b@.len(),
            b@ == s.spec_bytes(),
            out@ == old(out)@ + b@.take(i as int),
        decreases b@.len() - i,
    {
        out.push(b[i]);
        proof {
            assert(b@.take(i + 1) =~= b@.take(i as int).push(b@[i as int]));
        }
        i = i + 1;
    }
    assert(b@.take(b@.len() as int) =~= b@);
    proof {
        if valid_utf8(old(out)@) {
            vstd::utf8::encode_utf8_valid_utf8(s@);
            vstd::utf8::valid_utf8_concat(old(out)@, s.spec_bytes());
        }
    }
}

/// Appends one ASCII byte.
pub fn push_ascii(out: &mut Vec<u8>, b: u8)
    requires
        b < 128,
    ensures
        final(out)@ == old(out)@.push(b),
        valid_utf8(old(out)@) ==> valid_utf8(final(out)@),
{
    out.push(b);
    proof {
        if valid_utf8(old(out)@) {
            lemma_ascii_byte_valid(b);
            vstd::utf8::valid_utf8_concat(old(out)@, seq![b]);
            assert(old(out)@.push(b) =~= old(out)@ + seq![b]);
        }
    }
}

/// The lowercase hex digit of `d` (below 16), as an ASCII byte.
pub open spec fn hex_lower(d: nat) -> u8 {
    if d < 10 {
        (48 + d) as u8
    } else {
        (87 + d) as u8
    }
}

/// Appends `b` as two lowercase hex digits.
pub fn push_hex2(out: &mut Vec<u8>, b: u8)
    ensures
        final(out)@ == old(out)@.push(hex_lower(b as nat / 16)).push(hex_lower(b as nat % 16)),
        valid_utf8(old(out)@) ==> valid_utf8(final(out)@),
{
    let hi = b / 16;
    let lo = b % 16;
    push_ascii(out, if hi < 10 { 48 + hi } else { 87 + hi });
    push_ascii(out, if lo < 10 { 48 + lo } else { 87 + lo });
}

/// The text whose UTF-8 bytes are `bytes`, which must be valid UTF-8.
pub fn text_of(bytes: Vec<u8>) -> (r: String)
    requires
        valid_utf8(bytes@),
    ensures
        encode_utf8(r@) == bytes@,
{
    let ghost b = bytes@;
    let s = string_from_utf8(bytes).unwrap();
    proof {
        vstd::utf8::decode_utf8_encode_utf8(b);
    }
    s
}

/// Builds a `String` from bytes with `String::from_utf8`; as its documentation
/// says, the result is present exactly when the bytes are valid UTF-8, and then
/// holds the characters they encode.
#[verifier::external_body]
pub(crate) fn string_from_utf8(bytes: Vec<u8>) -> (r: Option<String>)
    ensures
        r is Some <==> valid_utf8(bytes@),
        r matches Some(s) ==> s@ == decode_utf8(bytes@),
{
    String::from_utf8(bytes).ok()
}

} // verus!
