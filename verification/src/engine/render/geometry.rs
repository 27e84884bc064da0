use vstd::prelude::*;
use crate::engine::render::mesh::face_mask::{
    visited_of, block_id_of, face_bits_of, spare_bits_of, with_visited, with_block_id,
    with_face_bits, packed_face_bits, lemma_with_visited, lemma_with_block_id,
    lemma_with_face_bits, lemma_packed_face_bits, lemma_empty_face, lemma_visited_toggle,
    lemma_block_id_fits,
};
use crate::engine::render::mesh::texto::{
    direction_bits_of, quad_dimensions_of, top_left_vertex_of, with_direction,
    with_quad_dimensions, with_top_left_vertex, with_texture, lemma_with_direction,
    lemma_with_quad_dimensions, lemma_with_top_left_vertex, lemma_with_texture,
    lemma_zero_geometry, lemma_geometry_fields_fit, lemma_texture_fits,
};

verus! {

/// One of the six axis-aligned directions of a block face, numbered
/// `Above = 0`, `Below = 1`, `Left = 2`, `Right = 3`, `Front = 4`, `Back = 5`.
#[derive(Clone, Copy, PartialEq, Eq, Structural, Debug)]
pub enum Direction {
    /// +Y
    Above,
    /// -Y
    Below,
    /// -X
    Left,
    /// +X
    Right,
    /// +Z
    Front,
    /// -Z
    Back,
}

/// The number of a direction.
pub open spec fn direction_number(d: Direction) -> u8 {
    match d {
        Direction::Above => 0,
        Direction::Below => 1,
        Direction::Left => 2,
        Direction::Right => 3,
        Direction::Front => 4,
        Direction::Back => 5,
    }
}

/// The direction that has a given number (meaningful below 6).
pub open spec fn direction_of_number(v: u8) -> Direction {
    if v == 0 {
        Direction::Above
    } else if v == 1 {
        Direction::Below
    } else if v == 2 {
        Direction::Left
    } else if v == 3 {
        Direction::Right
    } else if v == 4 {
        Direction::Front
    } else {
        Direction::Back
    }
}

/// Decoding a direction's number gives the direction back, and every number
/// below 6 is the number of the direction it decodes to.
pub proof fn lemma_direction_number_round_trip(d: Direction, v: u8)
    ensures
        direction_of_number(direction_number(d)) == d,
        direction_number(d) < 6,
        v < 6 ==> direction_number(direction_of_number(v)) == v,
{
}

impl Direction {
    /// Decodes a direction from its number; the number must be below 6.
    pub fn from_bits_unchecked(v: u8) -> (d: Self)
        requires
            v < 6,
        ensures
            d == direction_of_number(v),
            direction_number(d) == v,
    {
        if v == 0 {
            Direction::Above
        } else if v == 1 {
            Direction::Below
        } else if v == 2 {
            Direction::Left
        } else if v == 3 {
            Direction::Right
        } else if v == 4 {
            Direction::Front
        } else {
            Direction::Back
        }
    }

    /// The number of this direction.
    pub fn to_u8(self) -> (r: u8)
        ensures
            r == direction_number(self),
            r < 6,
    {
        match self {
            Direction::Above => 0,
            Direction::Below => 1,
            Direction::Left => 2,
            Direction::Right => 3,
            Direction::Front => 4,
            Direction::Back => 5,
        }
    }
}

/// The position of a mesh vertex in world block units, with its texture coordinate word.
#[derive(Clone, Copy, PartialEq, Eq, Structural, Debug)]
pub struct GridVertex {
    pub x: i32,
    pub y: i32,
    pub z: i32,
    pub uv: u32,
}

impl GridVertex {
    /// The vertex at `(x, y, z)` with texture coordinate word `uv`.
    pub fn new(x: i32, y: i32, z: i32, uv: u32) -> (r: GridVertex)
        ensures
            r == (GridVertex { x, y, z, uv }),
    {
        GridVertex { x, y, z, uv }
    }
}

/// The packed data of a face with the given flag, block id and direction.
pub open spec fn packed_face(visited: bool, id: u32, face: Direction) -> u64 {
    packed_face_bits(visited, id, direction_number(face) as u64)
}

/// A block face packed in 64 bits: bit 63 is the "visited" flag, bits 31..=62 hold the
/// block id and bits 0..=2 the face direction.
#[derive(Clone, Copy)]
pub struct FaceMask {
    pub data: u64,
}

impl FaceMask {
    /// A face with no data whose "visited" flag is set.
    pub fn empty() -> (m: FaceMask)
        ensures
            m.data == 0x8000_0000_0000_0000u64,
            visited_of(m.data),
            block_id_of(m.data) == 0,
            face_bits_of(m.data) == 0,
            spare_bits_of(m.data) == 0,
    {
        proof {
            lemma_empty_face();
        }
        FaceMask { data: 0x8000_0000_0000_0000u64 }
    }

    /// Packs a flag, a block id and a direction.
    pub fn from(visited: bool, id: u32, face: Direction) -> (m: FaceMask)
        ensures
            m.data == packed_face(visited, id, face),
            visited_of(m.data) == visited,
            block_id_of(m.data) == id,
            face_bits_of(m.data) == direction_number(face) as u64,
    {
        let mut mask = FaceMask::empty();
        mask.set_visited(visited);
        mask.set_block_id(id);
        mask.set_face(face);
        proof {
            lemma_packed_face_bits(visited, id, direction_number(face) as u64, mask.data);
        }
        mask
    }

    /// Unpacks the flag, the block id and the direction.
    pub fn to(&self) -> (r: (bool, u32, Direction))
        requires
            face_bits_of(self.data) < 6,
        ensures
            r.0 == visited_of(self.data),
            r.1 == block_id_of(self.data),
            r.2 == direction_of_number(face_bits_of(self.data) as u8),
    {
        (self.get_visited(), self.get_block_id(), self.get_face())
    }

    /// The "visited" flag.
    pub fn get_visited(self) -> (r: bool)
        ensures
            r == visited_of(self.data),
    {
        (self.data >> 63u64) != 0
    }

    /// Sets the "visited" flag to `v`, leaving every other bit as it was.
    pub fn set_visited(&mut self, v: bool)
        ensures
            final(self).data == with_visited(old(self).data, v),
            visited_of(final(self).data) == v,
            block_id_of(final(self).data) == block_id_of(old(self).data),
            face_bits_of(final(self).data) == face_bits_of(old(self).data),
            spare_bits_of(final(self).data) == spare_bits_of(old(self).data),
    {
        let ones: u64 = if v { 0xFFFF_FFFF_FFFF_FFFFu64 } else { 0u64 };
        let d = self.data;
        self.data = d ^ ((ones ^ d) & (1u64 << 63u64));
        proof {
            lemma_visited_toggle(d, v);
            lemma_with_visited(d, v);
        }
    }

    /// The block id.
    pub fn get_block_id(self) -> (r: u32)
        ensures
            r == block_id_of(self.data),
    {
        proof {
            lemma_block_id_fits(self.data);
        }
        ((self.data >> 31u64) & 0xFFFF_FFFFu64) as u32
    }

    /// Sets the block id, leaving the flag and the direction as they were.
    pub fn set_block_id(&mut self, id: u32)
        ensures
            final(self).data == with_block_id(old(self).data, id),
            visited_of(final(self).data) == visited_of(old(self).data),
            block_id_of(final(self).data) == id,
            face_bits_of(final(self).data) == face_bits_of(old(self).data),
            spare_bits_of(final(self).data) == spare_bits_of(old(self).data),
    {
        proof {
            lemma_with_block_id(self.data, id);
        }
        self.data = (self.data & !(0xFFFF_FFFFu64 << 31u64)) | ((id as u64) << 31u64);
    }

    /// The direction; the three direction bits must hold a number below 6.
    pub fn get_face(self) -> (r: Direction)
        requires
            face_bits_of(self.data) < 6,
        ensures
            r == direction_of_number(face_bits_of(self.data) as u8),
    {
        Direction::from_bits_unchecked((self.data & 0b111u64) as u8)
    }

    /// Sets the direction, leaving the flag and the block id as they were.
    pub fn set_face(&mut self, face: Direction)
        ensures
            final(self).data == with_face_bits(old(self).data, direction_number(face) as u64),
            visited_of(final(self).data) == visited_of(old(self).data),
            block_id_of(final(self).data) == block_id_of(old(self).data),
            face_bits_of(final(self).data) == direction_number(face) as u64,
            spare_bits_of(final(self).data) == spare_bits_of(old(self).data),
    {
        let f: u64 = face.to_u8() as u64;
        proof {
            lemma_with_face_bits(self.data, f);
        }
        self.data = (self.data & !0b111u64) | f;
    }
}

/// Everything the GPU needs to draw a block face, packed in two 32-bit words.
///
/// `geometry` holds the chunk-local top-left vertex (bits 23..=27, 18..=22 and 13..=17 for
/// x, y, z), the quad width (bits 8..=12), height (bits 3..=7) and direction (bits 0..=2);
/// `material` holds the texture id in its low 16 bits.
pub struct RenderFaceTexto {
    geometry: u32,
    material: u32,
}

impl RenderFaceTexto {
    /// The packed geometry word.
    pub closed spec fn geometry_word(&self) -> u32 {
        self.geometry
    }

    /// The packed material word.
    pub closed spec fn material_word(&self) -> u32 {
        self.material
    }

    /// The direction bits always hold a direction number.
    #[verifier::type_invariant]
    spec fn direction_is_valid(&self) -> bool {
        self.geometry & 0x7u32 < 6
    }

    /// Packs a face: its top-left vertex `(x, y, z)`, width `w`, height `h`, direction and texture.
    pub fn new(x: u8, y: u8, z: u8, w: u8, h: u8, direction: Direction, texture: u16) -> (t:
        RenderFaceTexto)
        ensures
            t.geometry_word() == with_direction(
                with_quad_dimensions(with_top_left_vertex(0, x, y, z), w, h),
                direction_number(direction) as u32,
            ),
            t.material_word() == with_texture(0, texture),
            direction_bits_of(t.geometry_word()) == direction_number(direction) as u32,
            (t.material_word() & 0xFFFFu32) as u16 == texture,
            w < 32 && h < 32 ==> quad_dimensions_of(t.geometry_word()) == (h, w),
            x < 32 && y < 32 && z < 32 && w < 32 ==> top_left_vertex_of(t.geometry_word()) == (
            x,
            y,
            z,
            ),
    {
        proof {
            lemma_zero_geometry();
        }
        let mut texto = RenderFaceTexto { geometry: 0, material: 0 };
        texto.set_top_left_vertex(x, y, z);
        texto.set_quad_dimensions(w, h);
        texto.set_direction(direction);
        texto.set_texture(texture);
        proof {
            let g0 = with_top_left_vertex(0, x, y, z);
            let g1 = with_quad_dimensions(g0, w, h);
            lemma_with_top_left_vertex(0, x, y, z);
            lemma_with_quad_dimensions(g0, w, h);
            lemma_with_direction(g1, direction_number(direction) as u32);
            lemma_with_texture(0, texture);
        }
        texto
    }

    /// The direction of the face.
    pub fn get_direction(&self) -> (d: Direction)
        ensures
            d == direction_of_number(direction_bits_of(self.geometry_word()) as u8),
    {
        proof {
            use_type_invariant(self);
        }
        Direction::from_bits_unchecked((self.geometry & 0x7) as u8)
    }

    /// The quad dimensions, as `[height, width]`.
    pub fn get_quad_dimensions(&self) -> (r: [u8; 2])
        ensures
            r[0] == quad_dimensions_of(self.geometry_word()).0,
            r[1] == quad_dimensions_of(self.geometry_word()).1,
    {
        proof {
            lemma_geometry_fields_fit(self.geometry);
        }
        [((self.geometry & 0xF8) >> 3) as u8, ((self.geometry & 0x1F00) >> 8) as u8]
    }

    /// The top-left vertex, as `[x, y, z]`.
    pub fn get_top_left_vertex(&self) -> (r: [u8; 3])
        ensures
            r[0] == top_left_vertex_of(self.geometry_word()).0,
            r[1] == top_left_vertex_of(self.geometry_word()).1,
            r[2] == top_left_vertex_of(self.geometry_word()).2,
    {
        proof {
            lemma_geometry_fields_fit(self.geometry);
        }
        [
            ((self.geometry & 0x0F80_0000) >> 23) as u8,
            ((self.geometry & 0x007C_0000) >> 18) as u8,
            ((self.geometry & 0x0003_E000) >> 13) as u8,
        ]
    }

    /// The texture id.
    pub fn get_texture(&self) -> (t: u16)
        ensures
            t == (self.material_word() & 0xFFFFu32) as u16,
    {
        proof {
            lemma_texture_fits(self.material);
        }
        (self.material & 0xFFFF) as u16
    }

    /// Stores the direction; the other fields are kept.
    pub fn set_direction(&mut self, direction: Direction)
        ensures
            final(self).geometry_word() == with_direction(
                old(self).geometry_word(),
                direction_number(direction) as u32,
            ),
            final(self).material_word() == old(self).material_word(),
            direction_bits_of(final(self).geometry_word()) == direction_number(direction) as u32,
            quad_dimensions_of(final(self).geometry_word()) == quad_dimensions_of(
                old(self).geometry_word(),
            ),
            top_left_vertex_of(final(self).geometry_word()) == top_left_vertex_of(
                old(self).geometry_word(),
            ),
    {
        let d: u32 = direction.to_u8() as u32;
        proof {
            lemma_with_direction(self.geometry, d);
        }
        self.geometry = (self.geometry & !0x7) | d;
    }

    /// Stores the quad width `w` and height `h`; the direction is kept.
    pub fn set_quad_dimensions(&mut self, w: u8, h: u8)
        ensures
            final(self).geometry_word() == with_quad_dimensions(old(self).geometry_word(), w, h),
            final(self).material_word() == old(self).material_word(),
            direction_bits_of(final(self).geometry_word()) == direction_bits_of(
                old(self).geometry_word(),
            ),
            w < 32 && h < 32 ==> quad_dimensions_of(final(self).geometry_word()) == (h, w),
            w < 32 ==> top_left_vertex_of(final(self).geometry_word()) == top_left_vertex_of(
                old(self).geometry_word(),
            ),
    {
        proof {
            use_type_invariant(&*self);
            lemma_with_quad_dimensions(self.geometry, w, h);
        }
        self.geometry = (self.geometry & !0x1FF8) | ((w as u32) << 8 | (h as u32) << 3);
    }

    /// Stores the top-left vertex `(x, y, z)`; the direction and quad dimensions are kept.
    pub fn set_top_left_vertex(&mut self, x: u8, y: u8, z: u8)
        ensures
            final(self).geometry_word() == with_top_left_vertex(old(self).geometry_word(), x, y, z),
            final(self).material_word() == old(self).material_word(),
            direction_bits_of(final(self).geometry_word()) == direction_bits_of(
                old(self).geometry_word(),
            ),
            quad_dimensions_of(final(self).geometry_word()) == quad_dimensions_of(
                old(self).geometry_word(),
            ),
            x < 32 && y < 32 && z < 32 ==> top_left_vertex_of(final(self).geometry_word()) == (
            x,
            y,
            z,
            ),
    {
        proof {
            use_type_invariant(&*self);
            lemma_with_top_left_vertex(self.geometry, x, y, z);
        }
        self.geometry = (self.geometry & !0x0FFF_E000) | ((x as u32) << 23 | (y as u32) << 18 | (
        z as u32) << 13);
    }

    /// Stores the texture id; the geometry is kept.
    pub fn set_texture(&mut self, texture: u16)
        ensures
            final(self).material_word() == with_texture(old(self).material_word(), texture),
            final(self).geometry_word() == old(self).geometry_word(),
            (final(self).material_word() & 0xFFFFu32) as u16 == texture,
    {
        proof {
            use_type_invariant(&*self);
            lemma_with_texture(self.material, texture);
        }
        self.material = (self.material & !0xFFFF) | (texture as u32);
    }
}

} // verus!
