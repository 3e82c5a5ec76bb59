//! The contents of a shared-memory region, held as bytes.
//!
//! A region is what `mmap` of a shared-memory object shows: a fixed number
//! of bytes that two processes see alike. Values go in and come out at byte
//! offsets, in plain-old-data form and in the byte order of the machine; a
//! pointer stored here would mean nothing to the other process, so only
//! numbers and bytes are written.

use crate::wire::{decode_i32_at, encode_i32, i32_bytes, i32_from, lemma_i32_roundtrip, Endian};
use vstd::prelude::*;

verus! {

/// `s` with the bytes from `offset` on replaced by `data`.
pub open spec fn splice(s: Seq<u8>, offset: int, data: Seq<u8>) -> Seq<u8> {
    s.subrange(0, offset) + data + s.subrange(offset + data.len(), s.len() as int)
}

/// The bytes of a shared-memory region.
pub struct SharedRegion {
    bytes: Vec<u8>,
}

impl View for SharedRegion {
    type V = Seq<u8>;

    closed spec fn view(&self) -> Seq<u8> {
        self.bytes@
    }
}

impl SharedRegion {
    /// A fresh region of `size` bytes, all zero, as a newly created
    /// shared-memory object reads.
    pub fn new(size: usize) -> (region: SharedRegion)
        ensures
            region@ == Seq::new(size as nat, |i: int| 0u8),
    {
        let mut bytes: Vec<u8> = Vec::new();
        while bytes.len() < size
            invariant
                bytes@.len() <= size,
                forall|i: int| 0 <= i < bytes@.len() ==> bytes@[i] == 0u8,
            decreases size - bytes.len(),
        {
            bytes.push(0u8);
        }
        let region = SharedRegion { bytes };
        assert(region@ =~= Seq::new(size as nat, |i: int| 0u8));
        region
    }

    /// A region holding exactly `bytes`, such as those copied out of a
    /// mapping.
    pub fn from_bytes(bytes: Vec<u8>) -> (region: SharedRegion)
        ensures
            region@ == bytes@,
    {
        SharedRegion { bytes }
    }

    /// Number of bytes in the region.
    pub fn len(&self) -> (n: usize)
        ensures
            n == self@.len(),
    {
        self.bytes.len()
    }

    /// All bytes of the region, to be copied into a mapping.
    pub fn as_bytes(&self) -> (bytes: &[u8])
        ensures
            bytes@ == self@,
    {
        self.bytes.as_slice()
    }

    /// Copies `data` into the region starting at `offset`; the other bytes
    /// stay as they were.
    pub fn write_bytes(&mut self, offset: usize, data: &[u8])
        requires
            offset + data@.len() <= old(self)@.len(),
        ensures
            final(self)@ == splice(old(self)@, offset as int, data@),
    {
        let ghost before = self.bytes@;
        let mut i: usize = 0;
        while i < data.len()
            invariant
                offset + data@.len() <= before.len(),
                self.bytes@.len() == before.len(),
                0 <= i <= data@.len(),
                forall|k: int|
                    0 <= k < before.len() ==> #[trigger] self.bytes@[k] == if offset <= k < offset
                        + i {
                        data@[k - offset]
                    } else {
                        before[k]
                    },
            decreases data.len() - i,
        {
            assert(offset + i < self.bytes.len());
            self.bytes.set(offset + i, data[i]);
            i = i + 1;
        }
        assert(self.bytes@ =~= splice(before, offset as int, data@));
    }

    /// A copy of the `len` bytes starting at `offset`.
    pub fn read_bytes(&self, offset: usize, len: usize) -> (data: Vec<u8>)
        requires
            offset + len <= self@.len(),
        ensures
            data@ == self@.subrange(offset as int, offset + len),
    {
        let mut data: Vec<u8> = Vec::new();
        let mut i: usize = 0;
        while i < len
            invariant
                offset + len <= self@.len(),
                0 <= i <= len,
                data@ == self@.subrange(offset as int, offset + i),
            decreases len - i,
        {
            assert(offset + i < self.bytes.len());
            data.push(self.bytes[offset + i]);
            i = i + 1;
            assert(data@ =~= self@.subrange(offset as int, offset + i));
        }
        data
    }

    /// Stores `value` at `offset` as four bytes in byte order `order`.
    pub fn write_i32(&mut self, offset: usize, value: i32, order: Endian)
        requires
            offset + 4 <= old(self)@.len(),
        ensures
            final(self)@ == splice(old(self)@, offset as int, i32_bytes(value, order)),
    {
        let bytes = encode_i32(value, order);
        self.write_bytes(offset, bytes.as_slice());
    }

    /// The number stored at `offset` as four bytes in byte order `order`.
    pub fn read_i32(&self, offset: usize, order: Endian) -> (value: i32)
        requires
            offset + 4 <= self@.len(),
        ensures
            value == i32_from(self@.subrange(offset as int, offset + 4), order),
    {
        match decode_i32_at(self.bytes.as_slice(), offset, order) {
            Some(v) => v,
            None => {
                assert(false);
                0
            },
        }
    }
}

/// Writing never changes the size of a region.
pub proof fn lemma_splice_len(s: Seq<u8>, offset: int, data: Seq<u8>)
    requires
        0 <= offset,
        offset + data.len() <= s.len(),
    ensures
        splice(s, offset, data).len() == s.len(),
{
}

/// What a write put at an offset is what a read there gives back.
pub proof fn lemma_read_after_write(s: Seq<u8>, offset: int, data: Seq<u8>)
    requires
        0 <= offset,
        offset + data.len() <= s.len(),
    ensures
        splice(s, offset, data).subrange(offset, offset + data.len()) == data,
{
    assert(splice(s, offset, data).subrange(offset, offset + data.len()) =~= data);
}

/// A write leaves every byte outside its range as it was.
pub proof fn lemma_write_keeps_other_bytes(s: Seq<u8>, offset: int, data: Seq<u8>, k: int)
    requires
        0 <= offset,
        offset + data.len() <= s.len(),
        0 <= k < s.len(),
        !(offset <= k < offset + data.len()),
    ensures
        splice(s, offset, data)[k] == s[k],
{
}

/// A number written at an offset is read back unchanged, by this process
/// or by any other that maps the same region.
pub proof fn lemma_i32_read_after_write(s: Seq<u8>, offset: int, value: i32, order: Endian)
    requires
        0 <= offset,
        offset + 4 <= s.len(),
    ensures
        i32_from(splice(s, offset, i32_bytes(value, order)).subrange(offset, offset + 4), order)
            == value,
{
    lemma_i32_roundtrip(value, order);
    lemma_read_after_write(s, offset, i32_bytes(value, order));
}

/// Writes to disjoint ranges do not disturb each other: a number written at
/// one offset survives a later write elsewhere.
pub proof fn lemma_disjoint_writes(
    s: Seq<u8>,
    offset: int,
    value: i32,
    order: Endian,
    other: int,
    data: Seq<u8>,
)
    requires
        0 <= offset,
        offset + 4 <= s.len(),
        0 <= other,
        other + data.len() <= s.len(),
        other + data.len() <= offset || offset + 4 <= other,
    ensures
        i32_from(
            splice(splice(s, offset, i32_bytes(value, order)), other, data).subrange(
                offset,
                offset + 4,
            ),
            order,
        ) == value,
{
    lemma_i32_roundtrip(value, order);
    let s1 = splice(s, offset, i32_bytes(value, order));
    let s2 = splice(s1, other, data);
    assert(s2.subrange(offset, offset + 4) =~= s1.subrange(offset, offset + 4));
    lemma_i32_read_after_write(s, offset, value, order);
}

} // verus!
