//! The byte forms of the integers that cross process boundaries, either
//! inside a shared-memory region or inside a socket message.
//!
//! Values placed in shared memory or in a control message use the byte order
//! of the machine; the number a socket peer sends is little-endian.

use byteorder::{ByteOrder, LittleEndian};
use vstd::arithmetic::div_mod::lemma_fundamental_div_mod_converse;
use vstd::prelude::*;

verus! {

/// Byte order of a machine.
#[derive(Debug, Clone, Copy, PartialEq, Eq, Structural)]
pub enum Endian {
    /// Least significant byte first.
    Little,
    /// Most significant byte first.
    Big,
}

/// The two's-complement bit pattern of `n`, read as an unsigned number.
pub open spec fn i32_bits(n: i32) -> u32 {
    if n >= 0 {
        n as u32
    } else {
        (n + 0x1_0000_0000) as u32
    }
}

/// The signed number whose two's-complement bit pattern is `u`.
pub open spec fn i32_from_bits(u: u32) -> i32 {
    if u < 0x8000_0000 {
        u as i32
    } else {
        (u - 0x1_0000_0000) as i32
    }
}

/// The four bytes of `x`, least significant first.
pub open spec fn u32_le_bytes(x: u32) -> Seq<u8> {
    seq![
        (x % 0x100) as u8,
        ((x / 0x100) % 0x100) as u8,
        ((x / 0x1_0000) % 0x100) as u8,
        (x / 0x100_0000) as u8,
    ]
}

/// The number whose least significant byte comes first in `s` (four bytes).
pub open spec fn u32_from_le(s: Seq<u8>) -> u32 {
    (s[0] + s[1] * 0x100 + s[2] * 0x1_0000 + s[3] * 0x100_0000) as u32
}

/// The eight bytes of `x`, least significant first.
pub open spec fn u64_le_bytes(x: u64) -> Seq<u8> {
    seq![
        (x % 0x100) as u8,
        ((x / 0x100) % 0x100) as u8,
        ((x / 0x1_0000) % 0x100) as u8,
        ((x / 0x100_0000) % 0x100) as u8,
        ((x / 0x1_0000_0000) % 0x100) as u8,
        ((x / 0x100_0000_0000) % 0x100) as u8,
        ((x / 0x1_0000_0000_0000) % 0x100) as u8,
        (x / 0x100_0000_0000_0000) as u8,
    ]
}

/// Four bytes in the opposite order.
pub open spec fn reverse4(s: Seq<u8>) -> Seq<u8> {
    seq![s[3], s[2], s[1], s[0]]
}

/// Eight bytes in the opposite order.
pub open spec fn reverse8(s: Seq<u8>) -> Seq<u8> {
    seq![s[7], s[6], s[5], s[4], s[3], s[2], s[1], s[0]]
}

/// The four bytes of `x` in byte order `order`.
pub open spec fn u32_bytes(x: u32, order: Endian) -> Seq<u8> {
    match order {
        Endian::Little => u32_le_bytes(x),
        Endian::Big => reverse4(u32_le_bytes(x)),
    }
}

/// The number stored in the four bytes `s` in byte order `order`.
pub open spec fn u32_from(s: Seq<u8>, order: Endian) -> u32 {
    match order {
        Endian::Little => u32_from_le(s),
        Endian::Big => u32_from_le(reverse4(s)),
    }
}

/// The eight bytes of `x` in byte order `order`.
pub open spec fn u64_bytes(x: u64, order: Endian) -> Seq<u8> {
    match order {
        Endian::Little => u64_le_bytes(x),
        Endian::Big => reverse8(u64_le_bytes(x)),
    }
}

/// The number stored in the eight bytes `s` in byte order `order`: the
/// low half and the high half are each a four-byte number in that order,
/// and the low half comes first when the order is little-endian.
pub open spec fn u64_from(s: Seq<u8>, order: Endian) -> int {
    match order {
        Endian::Little => u32_from(s.subrange(0, 4), order) + u32_from(s.subrange(4, 8), order)
            * 0x1_0000_0000,
        Endian::Big => u32_from(s.subrange(4, 8), order) + u32_from(s.subrange(0, 4), order)
            * 0x1_0000_0000,
    }
}

/// The four bytes of the two's-complement form of `n` in byte order `order`.
pub open spec fn i32_bytes(n: i32, order: Endian) -> Seq<u8> {
    u32_bytes(i32_bits(n), order)
}

/// The signed number stored in the four bytes `s` in byte order `order`.
pub open spec fn i32_from(s: Seq<u8>, order: Endian) -> i32 {
    i32_from_bits(u32_from(s, order))
}

/// The signed number stored little-endian in the four bytes `s`.
pub open spec fn i32_from_le(s: Seq<u8>) -> i32 {
    i32_from(s, Endian::Little)
}

/// Calls `byteorder::LittleEndian::read_i32`, which panics on fewer than four
/// bytes. Trusted: it returns the number stored little-endian in the first
/// four bytes (the crate reads `u32::from_le_bytes(buf[..4]) as i32`).
#[verifier::external_body]
fn le_read_i32(buf: &[u8]) -> (n: i32)
    requires
        buf@.len() >= 4,
    ensures
        n == i32_from_le(buf@.subrange(0, 4)),
{
    LittleEndian::read_i32(buf)
}

/// Decoding the bytes of an unsigned 32-bit number gives the number back,
/// and there are always four of them.
pub proof fn lemma_u32_roundtrip(x: u32, order: Endian)
    ensures
        u32_bytes(x, order).len() == 4,
        u32_from(u32_bytes(x, order), order) == x,
{
    assert(reverse4(reverse4(u32_le_bytes(x))) =~= u32_le_bytes(x));
}

/// The eight little-endian bytes of `x` are the four little-endian bytes of
/// its low half followed by those of its high half.
proof fn lemma_u64_le_halves(x: u64)
    ensures
        u64_le_bytes(x).subrange(0, 4) == u32_le_bytes((x % 0x1_0000_0000) as u32),
        u64_le_bytes(x).subrange(4, 8) == u32_le_bytes((x / 0x1_0000_0000) as u32),
{
    let lo = (x % 0x1_0000_0000) as u32;
    let hi = (x / 0x1_0000_0000) as u32;
    assert(lo % 0x100 == x % 0x100 && (lo / 0x100) % 0x100 == (x / 0x100) % 0x100 && (lo
        / 0x1_0000) % 0x100 == (x / 0x1_0000) % 0x100 && lo / 0x100_0000 == (x / 0x100_0000)
        % 0x100) by (bit_vector)
        requires
            lo == (x % 0x1_0000_0000) as u32,
    ;
    assert(hi % 0x100 == (x / 0x1_0000_0000) % 0x100 && (hi / 0x100) % 0x100 == (x
        / 0x100_0000_0000) % 0x100 && (hi / 0x1_0000) % 0x100 == (x / 0x1_0000_0000_0000) % 0x100
        && hi / 0x100_0000 == x / 0x100_0000_0000_0000) by (bit_vector)
        requires
            hi == (x / 0x1_0000_0000) as u32,
    ;
    assert(u64_le_bytes(x).subrange(0, 4) =~= u32_le_bytes(lo));
    assert(u64_le_bytes(x).subrange(4, 8) =~= u32_le_bytes(hi));
}

/// Decoding the eight bytes of an unsigned 64-bit number gives the number
/// back, in either byte order: the bytes are exactly the number's base-256
/// digits.
pub proof fn lemma_u64_roundtrip(x: u64, order: Endian)
    ensures
        u64_bytes(x, order).len() == 8,
        u64_from(u64_bytes(x, order), order) == x,
{
    let lo = (x % 0x1_0000_0000) as u32;
    let hi = (x / 0x1_0000_0000) as u32;
    lemma_u64_le_halves(x);
    lemma_u32_roundtrip(lo, Endian::Little);
    lemma_u32_roundtrip(hi, Endian::Little);
    let le = u64_le_bytes(x);
    match order {
        Endian::Little => {},
        Endian::Big => {
            let be = reverse8(le);
            assert(be.subrange(0, 4) =~= reverse4(le.subrange(4, 8)));
            assert(be.subrange(4, 8) =~= reverse4(le.subrange(0, 4)));
            assert(reverse4(reverse4(le.subrange(4, 8))) =~= le.subrange(4, 8));
            assert(reverse4(reverse4(le.subrange(0, 4))) =~= le.subrange(0, 4));
        },
    }
    assert(x == x % 0x1_0000_0000 + (x / 0x1_0000_0000) * 0x1_0000_0000);
}

/// Four little-endian bytes decoded and encoded again are the same bytes.
proof fn lemma_u32_le_bytes_roundtrip(s: Seq<u8>)
    requires
        s.len() == 4,
    ensures
        u32_le_bytes(u32_from_le(s)) == s,
{
    let b0 = s[0] as int;
    let b1 = s[1] as int;
    let b2 = s[2] as int;
    let b3 = s[3] as int;
    let hi1 = b1 + b2 * 0x100 + b3 * 0x1_0000;
    let hi2 = b2 + b3 * 0x100;
    let x = b0 + hi1 * 0x100;
    assert(x == b0 + b1 * 0x100 + b2 * 0x1_0000 + b3 * 0x100_0000);
    assert(0 <= x < 0x1_0000_0000);
    assert(u32_from_le(s) as int == x);
    lemma_fundamental_div_mod_converse(x, 0x100, hi1, b0);
    lemma_fundamental_div_mod_converse(hi1, 0x100, hi2, b1);
    lemma_fundamental_div_mod_converse(hi2, 0x100, b3, b2);
    lemma_fundamental_div_mod_converse(x, 0x1_0000, hi2, b0 + b1 * 0x100);
    lemma_fundamental_div_mod_converse(x, 0x100_0000, b3, b0 + b1 * 0x100 + b2 * 0x1_0000);
    assert(u32_le_bytes(u32_from_le(s)) =~= s);
}

/// Four bytes decoded as an unsigned 32-bit number encode back to themselves.
pub proof fn lemma_u32_bytes_roundtrip(s: Seq<u8>, order: Endian)
    requires
        s.len() == 4,
    ensures
        u32_bytes(u32_from(s, order), order) == s,
{
    match order {
        Endian::Little => lemma_u32_le_bytes_roundtrip(s),
        Endian::Big => {
            lemma_u32_le_bytes_roundtrip(reverse4(s));
            assert(reverse4(reverse4(s)) =~= s);
        },
    }
}

/// A signed number survives the trip to its two's-complement bits and back.
pub proof fn lemma_i32_bits_roundtrip(n: i32)
    ensures
        i32_from_bits(i32_bits(n)) == n,
{
}

/// Bits read as a signed number give the same bits back.
proof fn lemma_i32_from_bits_roundtrip(u: u32)
    ensures
        i32_bits(i32_from_bits(u)) == u,
{
}

/// Decoding the bytes of a signed 32-bit number gives the number back, and
/// there are always four of them.
pub proof fn lemma_i32_roundtrip(n: i32, order: Endian)
    ensures
        i32_bytes(n, order).len() == 4,
        i32_from(i32_bytes(n, order), order) == n,
{
    lemma_u32_roundtrip(i32_bits(n), order);
    lemma_i32_bits_roundtrip(n);
}

/// Four bytes decoded as a signed 32-bit number encode back to themselves.
pub proof fn lemma_i32_bytes_roundtrip(s: Seq<u8>, order: Endian)
    requires
        s.len() == 4,
    ensures
        i32_bytes(i32_from(s, order), order) == s,
{
    lemma_i32_from_bits_roundtrip(u32_from(s, order));
    lemma_u32_bytes_roundtrip(s, order);
}

/// The two's-complement bit pattern of `n`.
fn i32_to_bits(n: i32) -> (u: u32)
    ensures
        u == i32_bits(n),
{
    if n >= 0 {
        n as u32
    } else {
        (n as i64 + 0x1_0000_0000i64) as u32
    }
}

/// The signed number with bit pattern `u`.
fn i32_of_bits(u: u32) -> (n: i32)
    ensures
        n == i32_from_bits(u),
{
    if u < 0x8000_0000 {
        u as i32
    } else {
        (u as i64 - 0x1_0000_0000i64) as i32
    }
}

/// The four bytes of `x` in byte order `order`.
pub fn encode_u32(x: u32, order: Endian) -> (bytes: Vec<u8>)
    ensures
        bytes@ == u32_bytes(x, order),
        bytes@.len() == 4,
        u32_from(bytes@, order) == x,
{
    proof {
        lemma_u32_roundtrip(x, order);
    }
    let b0 = (x % 0x100) as u8;
    let b1 = ((x / 0x100) % 0x100) as u8;
    let b2 = ((x / 0x1_0000) % 0x100) as u8;
    let b3 = (x / 0x100_0000) as u8;
    let mut bytes: Vec<u8> = Vec::new();
    match order {
        Endian::Little => {
            bytes.push(b0);
            bytes.push(b1);
            bytes.push(b2);
            bytes.push(b3);
        },
        Endian::Big => {
            bytes.push(b3);
            bytes.push(b2);
            bytes.push(b1);
            bytes.push(b0);
        },
    }
    assert(bytes@ =~= u32_bytes(x, order));
    bytes
}

/// The eight bytes of `x` in byte order `order`.
pub fn encode_u64(x: u64, order: Endian) -> (bytes: Vec<u8>)
    ensures
        bytes@ == u64_bytes(x, order),
        bytes@.len() == 8,
        u64_from(bytes@, order) == x,
{
    proof {
        lemma_u64_roundtrip(x, order);
    }
    let le: [u8; 8] = [
        (x % 0x100) as u8,
        ((x / 0x100) % 0x100) as u8,
        ((x / 0x1_0000) % 0x100) as u8,
        ((x / 0x100_0000) % 0x100) as u8,
        ((x / 0x1_0000_0000) % 0x100) as u8,
        ((x / 0x100_0000_0000) % 0x100) as u8,
        ((x / 0x1_0000_0000_0000) % 0x100) as u8,
        (x / 0x100_0000_0000_0000) as u8,
    ];
    let mut bytes: Vec<u8> = Vec::new();
    let mut i: usize = 0;
    while i < 8
        invariant
            0 <= i <= 8,
            bytes@.len() == i,
            forall|k: int|
                0 <= k < i ==> #[trigger] bytes@[k] == (match order {
                    Endian::Little => le@[k],
                    Endian::Big => le@[7 - k],
                }),
        decreases 8 - i,
    {
        match order {
            Endian::Little => bytes.push(le[i]),
            Endian::Big => bytes.push(le[7 - i]),
        }
        i = i + 1;
    }
    assert(le@ =~= u64_le_bytes(x));
    assert(bytes@ =~= u64_bytes(x, order));
    bytes
}

/// The four bytes of `n` in byte order `order`.
pub fn encode_i32(n: i32, order: Endian) -> (bytes: Vec<u8>)
    ensures
        bytes@ == i32_bytes(n, order),
        bytes@.len() == 4,
        i32_from(bytes@, order) == n,
{
    proof {
        lemma_i32_roundtrip(n, order);
    }
    encode_u32(i32_to_bits(n), order)
}

/// The unsigned number stored at `bytes[offset..offset + 4]` in byte order
/// `order`; `None` when those four bytes are not all there.
pub fn decode_u32_at(bytes: &[u8], offset: usize, order: Endian) -> (n: Option<u32>)
    ensures
        n is Some <==> offset + 4 <= bytes@.len(),
        n is Some ==> n->0 == u32_from(bytes@.subrange(offset as int, offset + 4), order),
{
    if offset > bytes.len() || bytes.len() - offset < 4 {
        return None;
    }
    let (b0, b1, b2, b3) = match order {
        Endian::Little => (bytes[offset], bytes[offset + 1], bytes[offset + 2], bytes[offset + 3]),
        Endian::Big => (bytes[offset + 3], bytes[offset + 2], bytes[offset + 1], bytes[offset]),
    };
    let x = b0 as u32 + b1 as u32 * 0x100 + b2 as u32 * 0x1_0000 + b3 as u32 * 0x100_0000;
    Some(x)
}

/// The signed number stored at `bytes[offset..offset + 4]` in byte order
/// `order`; `None` when those four bytes are not all there.
pub fn decode_i32_at(bytes: &[u8], offset: usize, order: Endian) -> (n: Option<i32>)
    ensures
        n is Some <==> offset + 4 <= bytes@.len(),
        n is Some ==> n->0 == i32_from(bytes@.subrange(offset as int, offset + 4), order),
{
    match decode_u32_at(bytes, offset, order) {
        Some(u) => Some(i32_of_bits(u)),
        None => None,
    }
}

/// The number a socket peer sent: the first four bytes, least significant
/// first; `None` when fewer than four bytes arrived.
pub fn decode_i32(bytes: &[u8]) -> (n: Option<i32>)
    ensures
        n is Some <==> bytes@.len() >= 4,
        n is Some ==> n->0 == i32_from_le(bytes@.subrange(0, 4)),
{
    if bytes.len() >= 4 {
        Some(le_read_i32(bytes))
    } else {
        None
    }
}

} // verus!
