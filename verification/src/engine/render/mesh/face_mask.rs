use vstd::prelude::*;
use crate::common::geometry::direction::{Direction, direction_number, direction_of_number};

verus! {

const VISITED_SHIFT: u64 = 63;
const BLOCK_ID_SHIFT: u64 = 31;
const BLOCK_ID_MASK: u64 = 0xFFFF_FFFF;
const FACE_MASK: u64 = 0b111;

/// The "visited" flag of packed face data (bit 63).
pub open spec fn visited_of(data: u64) -> bool {
    (data >> 63u64) != 0
}

/// The block id of packed face data (bits 31..=62).
pub open spec fn block_id_of(data: u64) -> u32 {
    ((data >> 31u64) & 0xFFFF_FFFFu64) as u32
}

/// The three direction bits of packed face data (bits 0..=2).
pub open spec fn face_bits_of(data: u64) -> u64 {
    data & 7u64
}

/// The unused bits 3..=30 of packed face data.
pub open spec fn spare_bits_of(data: u64) -> u64 {
    (data >> 3u64) & 0xFFF_FFFFu64
}

/// The data with its "visited" flag set to `v`.
pub open spec fn with_visited(data: u64, v: bool) -> u64 {
    if v {
        data | 0x8000_0000_0000_0000u64
    } else {
        data & 0x7FFF_FFFF_FFFF_FFFFu64
    }
}

/// The data with its block id replaced by `id`.
pub open spec fn with_block_id(data: u64, id: u32) -> u64 {
    (data & !(0xFFFF_FFFFu64 << 31u64)) | ((id as u64) << 31u64)
}

/// The data with its direction bits replaced by `f`.
pub open spec fn with_face_bits(data: u64, f: u64) -> u64 {
    (data & !7u64) | f
}

/// The packed data of a face with the given flag, block id and direction number.
pub open spec fn packed_face_bits(visited: bool, id: u32, f: u64) -> u64 {
    (if visited { 0x8000_0000_0000_0000u64 } else { 0u64 }) | ((id as u64) << 31u64) | f
}

/// The packed data of a face with the given flag, block id and direction.
pub open spec fn packed_face(visited: bool, id: u32, face: Direction) -> u64 {
    packed_face_bits(visited, id, direction_number(face) as u64)
}

/// The bit trick that sets the flag computes [`with_visited`].
pub proof fn lemma_visited_toggle(d: u64, v: bool)
    ensures
        d ^ (((if v { 0xFFFF_FFFF_FFFF_FFFFu64 } else { 0u64 }) ^ d) & (1u64 << 63u64)) == with_visited(
            d,
            v,
        ),
{
    if v {
        assert(d ^ ((0xFFFF_FFFF_FFFF_FFFFu64 ^ d) & (1u64 << 63u64)) == d | 0x8000_0000_0000_0000u64)
            by (bit_vector);
    } else {
        assert(d ^ ((0u64 ^ d) & (1u64 << 63u64)) == d & 0x7FFF_FFFF_FFFF_FFFFu64) by (bit_vector);
    }
}

/// The block id field fits in 32 bits.
pub proof fn lemma_block_id_fits(d: u64)
    ensures
        (d >> 31u64) & 0xFFFF_FFFFu64 <= 0xFFFF_FFFFu64,
{
    assert((d >> 31u64) & 0xFFFF_FFFFu64 <= 0xFFFF_FFFFu64) by (bit_vector);
}

/// Setting the flag changes only the flag, and nothing when it already has that value.
pub proof fn lemma_with_visited(d: u64, v: bool)
    ensures
        visited_of(with_visited(d, v)) == v,
        block_id_of(with_visited(d, v)) == block_id_of(d),
        face_bits_of(with_visited(d, v)) == face_bits_of(d),
        spare_bits_of(with_visited(d, v)) == spare_bits_of(d),
        visited_of(d) == v ==> with_visited(d, v) == d,
{
    let n = with_visited(d, v);
    assert(((d >> 63u64 != 0) == v) ==> n == d) by (bit_vector)
        requires
            v ==> n == d | 0x8000_0000_0000_0000u64,
            !v ==> n == d & 0x7FFF_FFFF_FFFF_FFFFu64,
    ;
    assert(v ==> (n >> 63u64 != 0)) by (bit_vector)
        requires
            v ==> n == d | 0x8000_0000_0000_0000u64,
    ;
    assert(!v ==> (n >> 63u64 == 0)) by (bit_vector)
        requires
            !v ==> n == d & 0x7FFF_FFFF_FFFF_FFFFu64,
    ;
    assert((n >> 31u64) & 0xFFFF_FFFFu64 == (d >> 31u64) & 0xFFFF_FFFFu64 && n & 7u64 == d & 7u64
        && (n >> 3u64) & 0xFFF_FFFFu64 == (d >> 3u64) & 0xFFF_FFFFu64) by (bit_vector)
        requires
            n == d | 0x8000_0000_0000_0000u64 || n == d & 0x7FFF_FFFF_FFFF_FFFFu64,
    ;
}

/// Setting the block id changes only the block id.
pub proof fn lemma_with_block_id(d: u64, id: u32)
    ensures
        visited_of(with_block_id(d, id)) == visited_of(d),
        block_id_of(with_block_id(d, id)) == id,
        face_bits_of(with_block_id(d, id)) == face_bits_of(d),
        spare_bits_of(with_block_id(d, id)) == spare_bits_of(d),
{
    let n = with_block_id(d, id);
    let i: u64 = id as u64;
    assert((n >> 63u64 != 0) == (d >> 63u64 != 0) && (n >> 31u64) & 0xFFFF_FFFFu64 == i && n & 7u64
        == d & 7u64 && (n >> 3u64) & 0xFFF_FFFFu64 == (d >> 3u64) & 0xFFF_FFFFu64) by (bit_vector)
        requires
            n == (d & !(0xFFFF_FFFFu64 << 31u64)) | (i << 31u64),
            i <= 0xFFFF_FFFFu64,
    ;
}

/// Setting direction bits below 8 changes only the direction bits.
pub proof fn lemma_with_face_bits(d: u64, f: u64)
    requires
        f < 8,
    ensures
        visited_of(with_face_bits(d, f)) == visited_of(d),
        block_id_of(with_face_bits(d, f)) == block_id_of(d),
        face_bits_of(with_face_bits(d, f)) == f,
        spare_bits_of(with_face_bits(d, f)) == spare_bits_of(d),
{
    let n = with_face_bits(d, f);
    assert((n >> 63u64 != 0) == (d >> 63u64 != 0) && (n >> 31u64) & 0xFFFF_FFFFu64 == (d >> 31u64)
        & 0xFFFF_FFFFu64 && n & 7u64 == f && (n >> 3u64) & 0xFFF_FFFFu64 == (d >> 3u64)
        & 0xFFF_FFFFu64) by (bit_vector)
        requires
            n == (d & !7u64) | f,
            f < 8u64,
    ;
}

/// Packed data is determined by its flag, block id, direction bits and spare bits; packing
/// a flag, an id and direction bits below 8 gives data whose spare bits are zero.
pub proof fn lemma_packed_face_bits(visited: bool, id: u32, f: u64, d: u64)
    requires
        f < 8,
        visited_of(d) == visited,
        block_id_of(d) == id,
        face_bits_of(d) == f,
        spare_bits_of(d) == 0,
    ensures
        d == packed_face_bits(visited, id, f),
        visited_of(packed_face_bits(visited, id, f)) == visited,
        block_id_of(packed_face_bits(visited, id, f)) == id,
        face_bits_of(packed_face_bits(visited, id, f)) == f,
{
    let v: u64 = if visited { 0x8000_0000_0000_0000u64 } else { 0u64 };
    let i: u64 = id as u64;
    assert((d >> 31u64) & 0xFFFF_FFFFu64 <= 0xFFFF_FFFFu64) by (bit_vector);
    assert(d == v | (i << 31u64) | f) by (bit_vector)
        requires
            v == 0 || v == 0x8000_0000_0000_0000u64,
            i <= 0xFFFF_FFFFu64,
            f < 8u64,
            (d >> 63u64 != 0) == (v != 0),
            (d >> 31u64) & 0xFFFF_FFFFu64 == i,
            d & 7u64 == f,
            (d >> 3u64) & 0xFFF_FFFFu64 == 0,
    ;
}

/// The data of an empty face: only the "visited" flag is set.
pub proof fn lemma_empty_face()
    ensures
        visited_of(0x8000_0000_0000_0000u64),
        block_id_of(0x8000_0000_0000_0000u64) == 0,
        face_bits_of(0x8000_0000_0000_0000u64) == 0,
        spare_bits_of(0x8000_0000_0000_0000u64) == 0,
{
    let d = 0x8000_0000_0000_0000u64;
    assert((d >> 63u64) != 0 && (d >> 31u64) & 0xFFFF_FFFFu64 == 0 && d & 7u64 == 0 && (d >> 3u64)
        & 0xFFF_FFFFu64 == 0) by (bit_vector)
        requires
            d == 0x8000_0000_0000_0000u64,
    ;
}

/// A block face packed in 64 bits, as used while building greedy meshes:
/// bit 63 is the "visited" flag, bits 31..=62 hold the block id and
/// bits 0..=2 the face direction.
#[derive(Clone, Copy)]
pub struct FaceMask {
    pub data: u64,
}

impl FaceMask {
    /// A face with no data whose "visited" flag is set.
    pub fn empty() -> (m: FaceMask)
        ensures
            m.data == 0x8000_0000_0000_0000u64,
            visited_of(m.data),
            block_id_of(m.data) == 0,
            face_bits_of(m.data) == 0,
            spare_bits_of(m.data) == 0,
    {
        proof {
            lemma_empty_face();
        }
        FaceMask { data: 0x8000_0000_0000_0000u64 }
    }

    /// Packs a flag, a block id and a direction.
    pub fn from(visited: bool, id: u32, face: Direction) -> (m: FaceMask)
        ensures
            m.data == packed_face(visited, id, face),
            visited_of(m.data) == visited,
            block_id_of(m.data) == id,
            face_bits_of(m.data) == direction_number(face) as u64,
    {
        let mut mask = FaceMask::empty();
        mask.set_visited(visited);
        mask.set_block_id(id);
        mask.set_face(face);
        proof {
            lemma_packed_face_bits(visited, id, direction_number(face) as u64, mask.data);
        }
        mask
    }

    /// Unpacks the flag, the block id and the direction.
    pub fn to(&self) -> (r: (bool, u32, Direction))
        requires
            face_bits_of(self.data) < 6,
        ensures
            r.0 == visited_of(self.data),
            r.1 == block_id_of(self.data),
            r.2 == direction_of_number(face_bits_of(self.data) as u8),
    {
        (self.get_visited(), self.get_block_id(), self.get_face())
    }

    /// The "visited" flag.
    pub fn get_visited(self) -> (r: bool)
        ensures
            r == visited_of(self.data),
    {
        (self.data >> VISITED_SHIFT) != 0
    }

    /// Sets the "visited" flag to `v`, leaving every other bit as it was.
    pub fn set_visited(&mut self, v: bool)
        ensures
            final(self).data == with_visited(old(self).data, v),
            visited_of(final(self).data) == v,
            block_id_of(final(self).data) == block_id_of(old(self).data),
            face_bits_of(final(self).data) == face_bits_of(old(self).data),
            spare_bits_of(final(self).data) == spare_bits_of(old(self).data),
    {
        let ones: u64 = if v { 0xFFFF_FFFF_FFFF_FFFFu64 } else { 0u64 };
        let d = self.data;
        self.data = d ^ ((ones ^ d) & (1u64 << VISITED_SHIFT));
        proof {
            lemma_visited_toggle(d, v);
            lemma_with_visited(d, v);
        }
    }

    /// The block id.
    pub fn get_block_id(self) -> (r: u32)
        ensures
            r == block_id_of(self.data),
    {
        proof {
            lemma_block_id_fits(self.data);
        }
        ((self.data >> BLOCK_ID_SHIFT) & BLOCK_ID_MASK) as u32
    }

    /// Sets the block id, leaving the flag and the direction as they were.
    pub fn set_block_id(&mut self, id: u32)
        ensures
            final(self).data == with_block_id(old(self).data, id),
            visited_of(final(self).data) == visited_of(old(self).data),
            block_id_of(final(self).data) == id,
            face_bits_of(final(self).data) == face_bits_of(old(self).data),
            spare_bits_of(final(self).data) == spare_bits_of(old(self).data),
    {
        proof {
            lemma_with_block_id(self.data, id);
        }
        self.data = (self.data & !(BLOCK_ID_MASK << BLOCK_ID_SHIFT)) | ((id as u64)
            << BLOCK_ID_SHIFT);
    }

    /// The direction; the three direction bits must hold a number below 6.
    pub fn get_face(self) -> (r: Direction)
        requires
            face_bits_of(self.data) < 6,
        ensures
            r == direction_of_number(face_bits_of(self.data) as u8),
    {
        Direction::from_bits_unchecked((self.data & FACE_MASK) as u8)
    }

    /// Sets the direction, leaving the flag and the block id as they were.
    pub fn set_face(&mut self, face: Direction)
        ensures
            final(self).data == with_face_bits(old(self).data, direction_number(face) as u64),
            visited_of(final(self).data) == visited_of(old(self).data),
            block_id_of(final(self).data) == block_id_of(old(self).data),
            face_bits_of(final(self).data) == direction_number(face) as u64,
            spare_bits_of(final(self).data) == spare_bits_of(old(self).data),
    {
        let f: u64 = face.to_u8() as u64;
        proof {
            lemma_with_face_bits(self.data, f);
        }
        self.data = (self.data & !FACE_MASK) | f;
    }
}

/// Unpacking packed face data gives back the flag, the block id and the direction bits it
/// was packed from.
pub proof fn lemma_packed_fields(visited: bool, id: u32, f: u64)
    requires
        f < 8,
    ensures
        visited_of(packed_face_bits(visited, id, f)) == visited,
        block_id_of(packed_face_bits(visited, id, f)) == id,
        face_bits_of(packed_face_bits(visited, id, f)) == f,
{
    let d = packed_face_bits(visited, id, f);
    let v: u64 = if visited { 0x8000_0000_0000_0000u64 } else { 0u64 };
    let i: u64 = id as u64;
    assert((d >> 63u64 != 0) == (v != 0) && (d >> 31u64) & 0xFFFF_FFFFu64 == i && d & 7u64 == f)
        by (bit_vector)
        requires
            d == v | (i << 31u64) | f,
            v == 0 || v == 0x8000_0000_0000_0000u64,
            i <= 0xFFFF_FFFFu64,
            f < 8u64,
    ;
}

/// Unpacking a packed face gives back the flag, the block id and the direction it was packed from.
pub proof fn lemma_face_mask_round_trip(visited: bool, id: u32, face: Direction)
    ensures
        visited_of(packed_face(visited, id, face)) == visited,
        block_id_of(packed_face(visited, id, face)) == id,
        face_bits_of(packed_face(visited, id, face)) < 6,
        direction_of_number(face_bits_of(packed_face(visited, id, face)) as u8) == face,
{
    lemma_packed_fields(visited, id, direction_number(face) as u64);
}

} // verus!
