//! Digests used to identify sources and compiler settings.

use crate::text::string_push;
use vstd::string::StringSliceAdditionalSpecFns;
use md5::Digest;
use vstd::prelude::*;

verus! {

/// The lowercase hexadecimal digit for a value below 16.
pub open spec fn hex_digit(n: u8) -> char {
    if n < 10 {
        (n + 48) as char
    } else {
        (n + 87) as char
    }
}

/// The lowercase hexadecimal encoding of a byte sequence, two digits per byte.
pub open spec fn hex_lower(data: Seq<u8>) -> Seq<char>
    decreases data.len(),
{
    if data.len() == 0 {
        Seq::empty()
    } else {
        seq![hex_digit(data[0] >> 4u8), hex_digit(data[0] & 15u8)] + hex_lower(data.drop_first())
    }
}

fn hex_char(n: u8) -> (c: char)
    requires
        n < 16,
    ensures
        c == hex_digit(n),
{
    if n < 10 {
        (n + 48) as char
    } else {
        (n + 87) as char
    }
}

/// Encodes bytes as lowercase hexadecimal.
pub fn encode_hex(data: &[u8]) -> (r: String)
    ensures
        r@ == hex_lower(data@),
{
    let mut r = String::new();
    let mut i: usize = 0;
    assert(data@.skip(0) =~= data@);
    while i < data.len()
        invariant
            i <= data@.len(),
            hex_lower(data@) == r@ + hex_lower(data@.skip(i as int)),
        decreases data@.len() - i,
    {
        let b = data[i];
        assert(b >> 4u8 < 16 && b & 15u8 < 16) by (bit_vector);
        let ghost before = r@;
        string_push(&mut r, hex_char(b >> 4));
        string_push(&mut r, hex_char(b & 15));
        assert(data@.skip(i as int).drop_first() =~= data@.skip(i + 1));
        assert(hex_lower(data@.skip(i as int)) == seq![hex_digit(b >> 4u8), hex_digit(b & 15u8)]
            + hex_lower(data@.skip(i + 1)));
        assert(r@ =~= before + seq![hex_digit(b >> 4u8), hex_digit(b & 15u8)]);
        assert(before + hex_lower(data@.skip(i as int)) =~= r@ + hex_lower(data@.skip(i + 1)));
        i = i + 1;
    }
    assert(data@.skip(i as int) =~= Seq::<u8>::empty());
    assert(r@ + Seq::<char>::empty() =~= r@);
    r
}

/// The MD5 digest of a byte sequence.
pub uninterp spec fn spec_md5(data: Seq<u8>) -> Seq<u8>;

/// Computes the MD5 digest of `data` with the `md-5` crate (`Md5::digest`).
///
/// Claimed: the result is the digest named `spec_md5` of the input bytes and is
/// 16 bytes long.
#[verifier::external_body]
pub(crate) fn md5_digest(data: &[u8]) -> (r: Vec<u8>)
    ensures
        r@ == spec_md5(data@),
        r@.len() == 16,
{
    md5::Md5::digest(data).to_vec()
}


/// The lowercase hexadecimal MD5 digest of the UTF-8 bytes of `s`.
pub fn md5_hex(s: &str) -> (r: String)
    ensures
        r@ == hex_lower(spec_md5(s.spec_bytes())),
{
    let d = md5_digest(s.as_bytes());
    encode_hex(d.as_slice())
}

/// The Keccak-256 digest of a byte sequence.
pub uninterp spec fn spec_keccak256(data: Seq<u8>) -> Seq<u8>;

/// Computes the Keccak-256 digest of `data` with `alloy_primitives::keccak256`.
///
/// Claimed: the result is the digest named `spec_keccak256` of the input
/// bytes and is 32 bytes long.
#[verifier::external_body]
pub(crate) fn keccak256(data: &[u8]) -> (r: Vec<u8>)
    ensures
        r@ == spec_keccak256(data@),
        r@.len() == 32,
{
    alloy_primitives::keccak256(data).to_vec()
}

} // verus!
