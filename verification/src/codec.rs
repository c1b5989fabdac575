//! The primitive binary codec the encoder calls into: fixed-width
//! little-endian integers, one-byte booleans, length-prefixed strings and
//! the variable-length ("compact") count prefix. The byte layouts are
//! stated here as spec functions; the bytes themselves are produced by
//! `parity_scale_codec`, behind the trusted wrappers at the bottom.

use vstd::prelude::*;
use vstd::utf8::encode_utf8;

verus! {

/// The `width` little-endian bytes of `v` (least significant first).
pub open spec fn le_bytes(v: u128, width: nat) -> Seq<u8>
    decreases width,
{
    if width == 0 {
        Seq::empty()
    } else {
        seq![(v % 256) as u8] + le_bytes(v / 256, (width - 1) as nat)
    }
}

/// The variable-length encoding of a count: counts below `2^6` fit one
/// byte, below `2^14` two, below `2^30` four, and anything larger takes a
/// marker byte followed by the four little-endian bytes of the count. The
/// low two bits of the first byte tell the widths apart.
pub open spec fn compact_u32_bytes(n: u32) -> Seq<u8> {
    if n < 64 {
        seq![(n * 4) as u8]
    } else if n < 16384 {
        le_bytes((n * 4 + 1) as u128, 2)
    } else if n < 1073741824 {
        le_bytes((n * 4 + 2) as u128, 4)
    } else {
        seq![3u8] + le_bytes(n as u128, 4)
    }
}

/// The canonical one-byte encoding of a boolean.
pub open spec fn bool_bytes(b: bool) -> Seq<u8> {
    seq![if b { 1u8 } else { 0u8 }]
}

/// The length-prefixed encoding of a string: the compact-encoded UTF-8
/// byte count followed by the UTF-8 bytes themselves.
pub open spec fn str_bytes(s: Seq<char>) -> Seq<u8> {
    compact_u32_bytes(encode_utf8(s).len() as u32) + encode_utf8(s)
}

/// Relies on `parity_scale_codec`'s `Encode` impl for `bool`: one byte,
/// `1` for true and `0` for false.
#[verifier::external_body]
pub(crate) fn scale_encode_bool(b: bool) -> (r: Vec<u8>)
    ensures
        r@ == bool_bytes(b),
{
    parity_scale_codec::Encode::encode(&b)
}

/// Relies on `parity_scale_codec`'s `Encode` impl for `u8`: the value as a
/// single byte.
#[verifier::external_body]
pub(crate) fn scale_encode_u8(v: u8) -> (r: Vec<u8>)
    ensures
        r@ == le_bytes(v as u128, 1),
{
    parity_scale_codec::Encode::encode(&v)
}

/// Relies on `parity_scale_codec`'s `Encode` impl for `u16`: the two
/// little-endian bytes of the value.
#[verifier::external_body]
pub(crate) fn scale_encode_u16(v: u16) -> (r: Vec<u8>)
    ensures
        r@ == le_bytes(v as u128, 2),
{
    parity_scale_codec::Encode::encode(&v)
}

/// Relies on `parity_scale_codec`'s `Encode` impl for `u32`: the four
/// little-endian bytes of the value.
#[verifier::external_body]
pub(crate) fn scale_encode_u32(v: u32) -> (r: Vec<u8>)
    ensures
        r@ == le_bytes(v as u128, 4),
{
    parity_scale_codec::Encode::encode(&v)
}

/// Relies on `parity_scale_codec`'s `Encode` impl for `u64`: the eight
/// little-endian bytes of the value.
#[verifier::external_body]
pub(crate) fn scale_encode_u64(v: u64) -> (r: Vec<u8>)
    ensures
        r@ == le_bytes(v as u128, 8),
{
    parity_scale_codec::Encode::encode(&v)
}

/// Relies on `parity_scale_codec`'s `Encode` impl for `u128`: the sixteen
/// little-endian bytes of the value.
#[verifier::external_body]
pub(crate) fn scale_encode_u128(v: u128) -> (r: Vec<u8>)
    ensures
        r@ == le_bytes(v, 16),
{
    parity_scale_codec::Encode::encode(&v)
}

/// Relies on `parity_scale_codec`'s `Encode` impl for `Compact<u32>`: the
/// variable-length count encoding described by [`compact_u32_bytes`].
#[verifier::external_body]
pub(crate) fn scale_compact_u32(n: u32) -> (r: Vec<u8>)
    ensures
        r@ == compact_u32_bytes(n),
{
    parity_scale_codec::Encode::encode(&parity_scale_codec::Compact(n))
}

/// Relies on `String::len`: the length of the string's UTF-8 encoding in
/// bytes, which always fits a `usize` since the string lives in memory.
#[verifier::external_body]
pub(crate) fn utf8_len(s: &String) -> (r: usize)
    ensures
        r == encode_utf8(s@).len(),
{
    s.len()
}

/// Relies on `parity_scale_codec`'s `Encode` impl for `str`: the
/// compact-encoded UTF-8 byte length followed by the UTF-8 bytes. The
/// codec panics when the byte length exceeds `u32::MAX`; the `requires`
/// leaves those inputs out.
#[verifier::external_body]
pub(crate) fn scale_encode_str(s: &String) -> (r: Vec<u8>)
    requires
        encode_utf8(s@).len() <= u32::MAX,
    ensures
        r@ == str_bytes(s@),
{
    parity_scale_codec::Encode::encode(s.as_str())
}

} // verus!
