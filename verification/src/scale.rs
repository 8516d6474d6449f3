//! The encoding of integers: fixed-width little-endian and compact, what each looks like as
//! bytes, and the calls into `parity_scale_codec` that write and read them.

use vstd::prelude::*;
use parity_scale_codec::{Compact, Decode, Encode};
use crate::error::Error;

verus! {

/// The number 256 to the power `n`.
pub open spec fn pow256(n: nat) -> nat
    decreases n,
{
    if n == 0 {
        1
    } else {
        256 * pow256((n - 1) as nat)
    }
}

/// The `len` low bytes of `x`, least significant first.
pub open spec fn le_bytes(x: nat, len: nat) -> Seq<u8>
    decreases len,
{
    if len == 0 {
        Seq::empty()
    } else {
        seq![(x % 256) as u8] + le_bytes(x / 256, (len - 1) as nat)
    }
}

/// The number whose bytes, least significant first, are `bytes`.
pub open spec fn le_value(bytes: Seq<u8>) -> nat
    decreases bytes.len(),
{
    if bytes.len() == 0 {
        0
    } else {
        bytes[0] as nat + 256 * le_value(bytes.skip(1))
    }
}

/// The compact encoding of `n`: one, two, four or five bytes, the shortest that holds it. The
/// two low bits of the first byte tell which.
pub open spec fn compact_bytes(n: u32) -> Seq<u8> {
    if n < 64 {
        seq![(4 * n) as u8]
    } else if n < 16384 {
        le_bytes((4 * n + 1) as nat, 2)
    } else if n < 0x4000_0000 {
        le_bytes((4 * n + 2) as nat, 4)
    } else {
        seq![3u8] + le_bytes(n as nat, 4)
    }
}

/// The four-byte number at the start of `bytes` and what follows it, if there are four bytes.
pub open spec fn parse_u32(bytes: Seq<u8>) -> Option<(u32, Seq<u8>)> {
    if bytes.len() >= 4 {
        Some((le_value(bytes.take(4)) as u32, bytes.skip(4)))
    } else {
        None
    }
}

/// The sixteen-byte number at the start of `bytes` and what follows it, if there are sixteen
/// bytes.
pub open spec fn parse_u128(bytes: Seq<u8>) -> Option<(u128, Seq<u8>)> {
    if bytes.len() >= 16 {
        Some((le_value(bytes.take(16)) as u128, bytes.skip(16)))
    } else {
        None
    }
}

/// The compact number at the start of `bytes` and what follows it. Only the shortest encoding
/// of a number is read as that number.
pub open spec fn parse_compact(bytes: Seq<u8>) -> Option<(u32, Seq<u8>)> {
    if bytes.len() == 0 {
        None
    } else if bytes[0] % 4 == 0 {
        Some(((bytes[0] / 4) as u32, bytes.skip(1)))
    } else if bytes[0] % 4 == 1 {
        if bytes.len() >= 2 && le_value(bytes.take(2)) / 4 > 63 {
            Some(((le_value(bytes.take(2)) / 4) as u32, bytes.skip(2)))
        } else {
            None
        }
    } else if bytes[0] % 4 == 2 {
        if bytes.len() >= 4 && le_value(bytes.take(4)) / 4 > 16383 {
            Some(((le_value(bytes.take(4)) / 4) as u32, bytes.skip(4)))
        } else {
            None
        }
    } else {
        if bytes[0] == 3 && bytes.len() >= 5 && le_value(bytes.subrange(1, 5)) > 0x3FFF_FFFF {
            Some((le_value(bytes.subrange(1, 5)) as u32, bytes.skip(5)))
        } else {
            None
        }
    }
}

/// `Encode::encode` of a `u32`: its four bytes, least significant first.
#[verifier::external_body]
pub(crate) fn encode_u32(x: u32) -> (bytes: Vec<u8>)
    ensures
        bytes@ == le_bytes(x as nat, 4),
{
    x.encode()
}

/// `Encode::encode` of a `u128`: its sixteen bytes, least significant first.
#[verifier::external_body]
pub(crate) fn encode_u128(x: u128) -> (bytes: Vec<u8>)
    ensures
        bytes@ == le_bytes(x as nat, 16),
{
    x.encode()
}

/// `Encode::encode` of a `Compact<u32>`: the compact encoding of the number.
#[verifier::external_body]
pub(crate) fn encode_compact(n: u32) -> (bytes: Vec<u8>)
    ensures
        bytes@ == compact_bytes(n),
{
    Compact(n).encode()
}

/// `Decode::decode` of a `u32` from a slice: the number in the first four bytes and the rest of
/// the slice, or nothing where it fails, which it does if the slice is shorter.
#[verifier::external_body]
pub(crate) fn decode_u32(input: &[u8]) -> (read: Option<(u32, &[u8])>)
    ensures
        read is Some <==> parse_u32(input@) is Some,
        read matches Some(pair) ==> parse_u32(input@) == Some((pair.0, pair.1@)),
{
    let mut rest = input;
    match u32::decode(&mut rest) {
        Ok(x) => Some((x, rest)),
        Err(_) => None,
    }
}

/// `Decode::decode` of a `u128` from a slice: the number in the first sixteen bytes and the
/// rest of the slice, or nothing where it fails, which it does if the slice is shorter.
#[verifier::external_body]
pub(crate) fn decode_u128(input: &[u8]) -> (read: Option<(u128, &[u8])>)
    ensures
        read is Some <==> parse_u128(input@) is Some,
        read matches Some(pair) ==> parse_u128(input@) == Some((pair.0, pair.1@)),
{
    let mut rest = input;
    match u128::decode(&mut rest) {
        Ok(x) => Some((x, rest)),
        Err(_) => None,
    }
}

/// `Decode::decode` of a `Compact<u32>` from a slice: the number and the rest of the slice, or
/// nothing where it fails, which it does if the slice ends too soon, holds a longer encoding
/// than the number needs, or holds a number above `u32::MAX`.
#[verifier::external_body]
pub(crate) fn decode_compact(input: &[u8]) -> (read: Option<(u32, &[u8])>)
    ensures
        read is Some <==> parse_compact(input@) is Some,
        read matches Some(pair) ==> parse_compact(input@) == Some((pair.0, pair.1@)),
{
    let mut rest = input;
    match Compact::<u32>::decode(&mut rest) {
        Ok(n) => Some((n.0, rest)),
        Err(_) => None,
    }
}

/// The number of bytes of `le_bytes`.
pub proof fn lemma_le_bytes_len(x: nat, len: nat)
    ensures
        le_bytes(x, len).len() == len,
    decreases len,
{
    if len > 0 {
        lemma_le_bytes_len(x / 256, (len - 1) as nat);
    }
}

/// A number that fits into `len` bytes is the number that its bytes stand for.
pub proof fn lemma_le_value_of_bytes(x: nat, len: nat)
    requires
        x < pow256(len),
    ensures
        le_value(le_bytes(x, len)) == x,
        le_bytes(x, len).len() == len,
    decreases len,
{
    lemma_le_bytes_len(x, len);
    if len > 0 {
        let p = pow256((len - 1) as nat);
        assert(x / 256 < p) by (nonlinear_arith)
            requires
                x < 256 * p,
        ;
        lemma_le_value_of_bytes(x / 256, (len - 1) as nat);
        let bytes = le_bytes(x, len);
        assert(bytes.skip(1) =~= le_bytes(x / 256, (len - 1) as nat));
        assert(bytes[0] == (x % 256) as u8);
    }
}

/// The powers of 256 that the encodings use.
pub proof fn lemma_pow256_values()
    ensures
        pow256(1) == 256,
        pow256(2) == 0x1_0000,
        pow256(4) == 0x1_0000_0000,
        pow256(16) == 0x1_0000_0000_0000_0000_0000_0000_0000_0000,
{
    reveal_with_fuel(pow256, 17);
}

/// Reading a four-byte number back gives the number, and leaves what followed it.
pub proof fn lemma_parse_u32(x: u32, rest: Seq<u8>)
    ensures
        parse_u32(le_bytes(x as nat, 4) + rest) == Some((x, rest)),
{
    lemma_pow256_values();
    lemma_le_value_of_bytes(x as nat, 4);
    let all = le_bytes(x as nat, 4) + rest;
    assert(all.take(4) =~= le_bytes(x as nat, 4));
    assert(all.skip(4) =~= rest);
}

/// Reading a sixteen-byte number back gives the number, and leaves what followed it.
pub proof fn lemma_parse_u128(x: u128, rest: Seq<u8>)
    ensures
        parse_u128(le_bytes(x as nat, 16) + rest) == Some((x, rest)),
{
    lemma_pow256_values();
    lemma_le_value_of_bytes(x as nat, 16);
    let all = le_bytes(x as nat, 16) + rest;
    assert(all.take(16) =~= le_bytes(x as nat, 16));
    assert(all.skip(16) =~= rest);
}

/// Reading a compact number back gives the number, and leaves what followed it.
pub proof fn lemma_parse_compact(n: u32, rest: Seq<u8>)
    ensures
        parse_compact(compact_bytes(n) + rest) == Some((n, rest)),
{
    lemma_pow256_values();
    let all = compact_bytes(n) + rest;
    if n < 64 {
        assert(all[0] == (4 * n) as u8);
        assert(all.skip(1) =~= rest);
    } else if n < 16384 {
        let v = (4 * n + 1) as nat;
        lemma_le_value_of_bytes(v, 2);
        assert(all.take(2) =~= le_bytes(v, 2));
        assert(all.skip(2) =~= rest);
        assert(all[0] == le_bytes(v, 2)[0]);
        assert(le_bytes(v, 2)[0] == (v % 256) as u8);
    } else if n < 0x4000_0000 {
        let v = (4 * n + 2) as nat;
        lemma_le_value_of_bytes(v, 4);
        assert(all.take(4) =~= le_bytes(v, 4));
        assert(all.skip(4) =~= rest);
        assert(all[0] == le_bytes(v, 4)[0]);
        assert(le_bytes(v, 4)[0] == (v % 256) as u8);
    } else {
        lemma_le_value_of_bytes(n as nat, 4);
        assert(all[0] == 3u8);
        assert(all.subrange(1, 5) =~= le_bytes(n as nat, 4));
        assert(all.skip(5) =~= rest);
    }
}

/// Appends the four bytes of `x`.
pub fn put_u32(out: &mut Vec<u8>, x: u32)
    ensures
        final(out)@ == old(out)@ + le_bytes(x as nat, 4),
{
    let mut bytes = encode_u32(x);
    out.append(&mut bytes);
}

/// Appends the sixteen bytes of `x`.
pub fn put_u128(out: &mut Vec<u8>, x: u128)
    ensures
        final(out)@ == old(out)@ + le_bytes(x as nat, 16),
{
    let mut bytes = encode_u128(x);
    out.append(&mut bytes);
}

/// Appends the compact encoding of `n`.
pub fn put_compact(out: &mut Vec<u8>, n: u32)
    ensures
        final(out)@ == old(out)@ + compact_bytes(n),
{
    let mut bytes = encode_compact(n);
    out.append(&mut bytes);
}

/// Appends `bytes`.
pub fn put_bytes(out: &mut Vec<u8>, bytes: &[u8])
    ensures
        final(out)@ == old(out)@ + bytes@,
{
    out.extend_from_slice(bytes);
}

/// Reads a four-byte number from the start of `input`.
pub fn take_u32(input: &[u8]) -> (read: Result<(u32, &[u8]), Error>)
    ensures
        read is Ok <==> parse_u32(input@) is Some,
        read matches Ok(pair) ==> parse_u32(input@) == Some((pair.0, pair.1@)),
        read matches Err(e) ==> e == Error::Malformed,
{
    match decode_u32(input) {
        Some(pair) => Ok(pair),
        None => Err(Error::Malformed),
    }
}

/// Reads a sixteen-byte number from the start of `input`.
pub fn take_u128(input: &[u8]) -> (read: Result<(u128, &[u8]), Error>)
    ensures
        read is Ok <==> parse_u128(input@) is Some,
        read matches Ok(pair) ==> parse_u128(input@) == Some((pair.0, pair.1@)),
        read matches Err(e) ==> e == Error::Malformed,
{
    match decode_u128(input) {
        Some(pair) => Ok(pair),
        None => Err(Error::Malformed),
    }
}

/// Reads a compact number from the start of `input`.
pub fn take_compact(input: &[u8]) -> (read: Result<(u32, &[u8]), Error>)
    ensures
        read is Ok <==> parse_compact(input@) is Some,
        read matches Ok(pair) ==> parse_compact(input@) == Some((pair.0, pair.1@)),
        read matches Err(e) ==> e == Error::Malformed,
{
    match decode_compact(input) {
        Some(pair) => Ok(pair),
        None => Err(Error::Malformed),
    }
}

} // verus!
