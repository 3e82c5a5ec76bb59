//! Plain-old-data records placed in shared memory.
//!
//! A record is stored field by field in declaration order, as `#[repr(C)]`
//! lays it out, each field in the byte order of the machine. Floating-point fields are
//! kept as their IEEE-754 bit patterns.

use crate::region::{lemma_read_after_write, splice, SharedRegion};
use crate::wire::{
    decode_i32_at, decode_u32_at, encode_i32, encode_u32, i32_bytes, i32_from,
    lemma_i32_bytes_roundtrip, lemma_i32_roundtrip, lemma_u32_bytes_roundtrip, lemma_u32_roundtrip,
    u32_bytes, u32_from, Endian,
};
use vstd::prelude::*;

verus! {

/// Size of a `MyStruct` in shared memory: a 32-bit integer and a 32-bit
/// float.
pub const MY_STRUCT_SIZE: usize = 8;

/// Size of a 32-bit integer.
pub const I32_SIZE: usize = 4;

/// The record the producer shares: an integer and a float, the float held
/// as its IEEE-754 bit pattern.
#[derive(Debug, Clone, Copy, PartialEq, Eq, Structural)]
pub struct MyStruct {
    pub data1: i32,
    pub data2_bits: u32,
}

/// The shared-memory bytes of `s` on a machine of byte order `order`.
pub open spec fn my_struct_bytes(s: MyStruct, order: Endian) -> Seq<u8> {
    i32_bytes(s.data1, order) + u32_bytes(s.data2_bits, order)
}

/// The record whose shared-memory bytes start `bytes` (eight bytes at least)
/// on a machine of byte order `order`.
pub open spec fn my_struct_from(bytes: Seq<u8>, order: Endian) -> MyStruct {
    MyStruct {
        data1: i32_from(bytes.subrange(0, 4), order),
        data2_bits: u32_from(bytes.subrange(4, 8), order),
    }
}

impl MyStruct {
    /// The eight bytes that represent this record in shared memory.
    pub fn encode(&self, order: Endian) -> (bytes: Vec<u8>)
        ensures
            bytes@ == my_struct_bytes(*self, order),
            bytes@.len() == MY_STRUCT_SIZE,
    {
        let mut bytes = encode_i32(self.data1, order);
        let mut bits = encode_u32(self.data2_bits, order);
        bytes.append(&mut bits);
        bytes
    }

    /// The record at the front of `bytes`; `None` when fewer than eight bytes
    /// are there.
    pub fn decode(bytes: &[u8], order: Endian) -> (s: Option<MyStruct>)
        ensures
            s is Some <==> bytes@.len() >= MY_STRUCT_SIZE,
            s is Some ==> s->0 == my_struct_from(bytes@, order),
            s is Some ==> my_struct_bytes(s->0, order) == bytes@.subrange(0, MY_STRUCT_SIZE as int),
    {
        proof {
            if bytes@.len() >= MY_STRUCT_SIZE {
                lemma_my_struct_from_prefix(bytes@, order);
            }
        }
        match (decode_i32_at(bytes, 0, order), decode_u32_at(bytes, 4, order)) {
            (Some(data1), Some(data2_bits)) => {
                Some(MyStruct { data1, data2_bits })
            },
            _ => None,
        }
    }

    /// Places this record in `region` at `offset`; the rest of the region is
    /// untouched.
    pub fn store(&self, region: &mut SharedRegion, offset: usize, order: Endian)
        requires
            offset + MY_STRUCT_SIZE <= old(region)@.len(),
        ensures
            final(region)@ == splice(old(region)@, offset as int, my_struct_bytes(*self, order)),
    {
        let bytes = self.encode(order);
        region.write_bytes(offset, bytes.as_slice());
    }

    /// The record stored in `region` at `offset`.
    pub fn load(region: &SharedRegion, offset: usize, order: Endian) -> (s: MyStruct)
        requires
            offset + MY_STRUCT_SIZE <= region@.len(),
        ensures
            s == my_struct_from(region@.subrange(offset as int, offset + MY_STRUCT_SIZE), order),
    {
        let bytes = region.read_bytes(offset, MY_STRUCT_SIZE);
        match MyStruct::decode(bytes.as_slice(), order) {
            Some(s) => s,
            None => {
                assert(false);
                MyStruct { data1: 0, data2_bits: 0 }
            },
        }
    }
}

/// Size of a region that holds either a 32-bit integer or a text of `len`
/// bytes: the larger of the two.
pub fn region_size_for(len: usize) -> (size: usize)
    ensures
        size == if len < I32_SIZE {
            I32_SIZE
        } else {
            len
        },
{
    if len < I32_SIZE {
        I32_SIZE
    } else {
        len
    }
}

/// A record survives being turned into bytes and back.
pub proof fn lemma_my_struct_roundtrip(s: MyStruct, order: Endian)
    ensures
        my_struct_bytes(s, order).len() == MY_STRUCT_SIZE,
        my_struct_from(my_struct_bytes(s, order), order) == s,
{
    lemma_i32_roundtrip(s.data1, order);
    lemma_u32_roundtrip(s.data2_bits, order);
    let b = my_struct_bytes(s, order);
    assert(b.subrange(0, 4) =~= i32_bytes(s.data1, order));
    assert(b.subrange(4, 8) =~= u32_bytes(s.data2_bits, order));
}

/// Reading a record looks only at the first eight bytes: the record read
/// from a longer buffer is the one read from its first eight bytes, and it
/// encodes back to exactly those bytes.
pub proof fn lemma_my_struct_from_prefix(bytes: Seq<u8>, order: Endian)
    requires
        bytes.len() >= MY_STRUCT_SIZE,
    ensures
        my_struct_from(bytes, order) == my_struct_from(bytes.subrange(0, MY_STRUCT_SIZE as int), order),
        my_struct_bytes(my_struct_from(bytes, order), order) == bytes.subrange(
            0,
            MY_STRUCT_SIZE as int,
        ),
{
    let p = bytes.subrange(0, 8);
    assert(p.subrange(0, 4) =~= bytes.subrange(0, 4));
    assert(p.subrange(4, 8) =~= bytes.subrange(4, 8));
    lemma_i32_bytes_roundtrip(bytes.subrange(0, 4), order);
    lemma_u32_bytes_roundtrip(bytes.subrange(4, 8), order);
    assert(my_struct_bytes(my_struct_from(bytes, order), order) =~= p);
}

/// A record stored in a region is the one loaded back from the same place.
pub proof fn lemma_store_then_load(region: Seq<u8>, offset: int, s: MyStruct, order: Endian)
    requires
        0 <= offset,
        offset + MY_STRUCT_SIZE <= region.len(),
    ensures
        my_struct_from(
            splice(region, offset, my_struct_bytes(s, order)).subrange(
                offset,
                offset + MY_STRUCT_SIZE,
            ),
            order,
        ) == s,
{
    lemma_my_struct_roundtrip(s, order);
    lemma_read_after_write(region, offset, my_struct_bytes(s, order));
}

} // verus!
