use vstd::prelude::*;
use crate::common::geometry::direction::{Direction, direction_number, direction_of_number};

verus! {

/// The direction bits of a packed geometry word.
pub open spec fn direction_bits_of(g: u32) -> u32 {
    g & 0x7u32
}

/// The quad dimensions stored in a packed geometry word, as `[height, width]`.
pub open spec fn quad_dimensions_of(g: u32) -> (u8, u8) {
    ((((g & 0xF8u32) >> 3u32) as u8), (((g & 0x1F00u32) >> 8u32) as u8))
}

/// The top-left vertex stored in a packed geometry word, as `(x, y, z)`.
pub open spec fn top_left_vertex_of(g: u32) -> (u8, u8, u8) {
    ((((g & 0x0F80_0000u32) >> 23u32) as u8), (((g & 0x007C_0000u32) >> 18u32) as u8), (((g
        & 0x0003_E000u32) >> 13u32) as u8))
}

/// The geometry word after storing direction number `d`.
pub open spec fn with_direction(g: u32, d: u32) -> u32 {
    (g & !0x7u32) | d
}

/// The geometry word after storing a quad of width `w` and height `h`.
pub open spec fn with_quad_dimensions(g: u32, w: u8, h: u8) -> u32 {
    (g & !0x1FF8u32) | (((w as u32) << 8u32) | ((h as u32) << 3u32))
}

/// The geometry word after storing the top-left vertex `(x, y, z)`.
pub open spec fn with_top_left_vertex(g: u32, x: u8, y: u8, z: u8) -> u32 {
    (g & !0x0FFF_E000u32) | (((x as u32) << 23u32) | ((y as u32) << 18u32) | ((z as u32) << 13u32))
}

/// The material word after storing texture `t`.
pub open spec fn with_texture(m: u32, t: u16) -> u32 {
    (m & !0xFFFFu32) | (t as u32)
}

/// Storing a direction sets the direction bits and leaves the other fields alone.
pub proof fn lemma_with_direction(g: u32, d: u32)
    requires
        d < 6,
    ensures
        direction_bits_of(with_direction(g, d)) == d,
        quad_dimensions_of(with_direction(g, d)) == quad_dimensions_of(g),
        top_left_vertex_of(with_direction(g, d)) == top_left_vertex_of(g),
{
    let n = with_direction(g, d);
    assert(n & 7u32 == d) by (bit_vector)
        requires n == (g & !0x7u32) | d, d < 6u32;
    assert(n & 0xF8u32 == g & 0xF8u32 && n & 0x1F00u32 == g & 0x1F00u32) by (bit_vector)
        requires n == (g & !0x7u32) | d, d < 6u32;
    assert(n & 0x0F80_0000u32 == g & 0x0F80_0000u32 && n & 0x007C_0000u32 == g & 0x007C_0000u32
        && n & 0x0003_E000u32 == g & 0x0003_E000u32) by (bit_vector)
        requires n == (g & !0x7u32) | d, d < 6u32;
}

/// Storing quad dimensions below 32 sets them (read back as `[height, width]`) and leaves the
/// direction and the top-left vertex alone; the direction bits are kept whatever the dimensions.
pub proof fn lemma_with_quad_dimensions(g: u32, w: u8, h: u8)
    ensures
        direction_bits_of(with_quad_dimensions(g, w, h)) == direction_bits_of(g),
        w < 32 && h < 32 ==> quad_dimensions_of(with_quad_dimensions(g, w, h)) == (h, w),
        w < 32 ==> top_left_vertex_of(with_quad_dimensions(g, w, h)) == top_left_vertex_of(g),
{
    let n = with_quad_dimensions(g, w, h);
    let wu = w as u32;
    let hu = h as u32;
    assert(n & 7u32 == g & 7u32) by (bit_vector)
        requires n == (g & !0x1FF8u32) | ((wu << 8u32) | (hu << 3u32)), wu < 256u32, hu < 256u32;
    if w < 32 && h < 32 {
        assert((n & 0xF8u32) >> 3u32 == hu && (n & 0x1F00u32) >> 8u32 == wu) by (bit_vector)
            requires n == (g & !0x1FF8u32) | ((wu << 8u32) | (hu << 3u32)), wu < 32u32, hu < 32u32;
    }
    if w < 32 {
        assert(n & 0x0F80_0000u32 == g & 0x0F80_0000u32 && n & 0x007C_0000u32 == g & 0x007C_0000u32
            && n & 0x0003_E000u32 == g & 0x0003_E000u32) by (bit_vector)
            requires n == (g & !0x1FF8u32) | ((wu << 8u32) | (hu << 3u32)), wu < 32u32, hu < 256u32;
    }
}

/// Storing a top-left vertex with coordinates below 32 sets it and leaves the direction and the
/// quad dimensions alone; the direction bits and dimensions are kept whatever the coordinates.
pub proof fn lemma_with_top_left_vertex(g: u32, x: u8, y: u8, z: u8)
    ensures
        direction_bits_of(with_top_left_vertex(g, x, y, z)) == direction_bits_of(g),
        quad_dimensions_of(with_top_left_vertex(g, x, y, z)) == quad_dimensions_of(g),
        x < 32 && y < 32 && z < 32 ==> top_left_vertex_of(with_top_left_vertex(g, x, y, z)) == (
        x,
        y,
        z,
        ),
{
    let n = with_top_left_vertex(g, x, y, z);
    let xu = x as u32;
    let yu = y as u32;
    let zu = z as u32;
    assert(n & 7u32 == g & 7u32 && n & 0xF8u32 == g & 0xF8u32 && n & 0x1F00u32 == g & 0x1F00u32)
        by (bit_vector)
        requires
            n == (g & !0x0FFF_E000u32) | ((xu << 23u32) | (yu << 18u32) | (zu << 13u32)),
            xu < 256u32,
            yu < 256u32,
            zu < 256u32,
    ;
    if x < 32 && y < 32 && z < 32 {
        assert((n & 0x0F80_0000u32) >> 23u32 == xu && (n & 0x007C_0000u32) >> 18u32 == yu && (n
            & 0x0003_E000u32) >> 13u32 == zu) by (bit_vector)
            requires
                n == (g & !0x0FFF_E000u32) | ((xu << 23u32) | (yu << 18u32) | (zu << 13u32)),
                xu < 32u32,
                yu < 32u32,
                zu < 32u32,
        ;
    }
}

/// Storing a texture sets the low 16 bits of the material word.
pub proof fn lemma_with_texture(m: u32, t: u16)
    ensures
        (with_texture(m, t) & 0xFFFFu32) as u16 == t,
{
    let n = with_texture(m, t);
    let tu = t as u32;
    assert(n & 0xFFFFu32 == tu) by (bit_vector)
        requires n == (m & !0xFFFFu32) | tu, tu < 0x10000u32;
}

/// A zero geometry word holds direction number 0.
pub proof fn lemma_zero_geometry()
    ensures
        0u32 & 0x7u32 == 0u32,
{
    assert(0u32 & 0x7u32 == 0u32) by (bit_vector);
}

/// Every field of a geometry word fits in a byte.
pub proof fn lemma_geometry_fields_fit(g: u32)
    ensures
        (g & 0xF8u32) >> 3u32 < 256u32,
        (g & 0x1F00u32) >> 8u32 < 256u32,
        (g & 0x0F80_0000u32) >> 23u32 < 256u32,
        (g & 0x007C_0000u32) >> 18u32 < 256u32,
        (g & 0x0003_E000u32) >> 13u32 < 256u32,
{
    assert((g & 0xF8u32) >> 3u32 < 256u32 && (g & 0x1F00u32) >> 8u32 < 256u32 && (g
        & 0x0F80_0000u32) >> 23u32 < 256u32 && (g & 0x007C_0000u32) >> 18u32 < 256u32 && (g
        & 0x0003_E000u32) >> 13u32 < 256u32) by (bit_vector);
}

/// The texture field of a material word fits in 16 bits.
pub proof fn lemma_texture_fits(m: u32)
    ensures
        m & 0xFFFFu32 < 0x10000u32,
{
    assert(m & 0xFFFFu32 < 0x10000u32) by (bit_vector);
}

/// Everything the GPU needs to draw a block face, packed in two 32-bit words.
///
/// `geometry` holds the chunk-local top-left vertex (bits 23..=27, 18..=22 and 13..=17 for
/// x, y, z), the quad width (bits 8..=12), height (bits 3..=7) and direction (bits 0..=2);
/// `material` holds the texture id in its low 16 bits.
pub struct RenderFaceTexto {
    geometry: u32,
    material: u32,
}

impl RenderFaceTexto {
    /// The packed geometry word.
    pub closed spec fn geometry_word(&self) -> u32 {
        self.geometry
    }

    /// The packed material word.
    pub closed spec fn material_word(&self) -> u32 {
        self.material
    }

    /// The direction bits always hold a direction number.
    #[verifier::type_invariant]
    spec fn direction_is_valid(&self) -> bool {
        self.geometry & 0x7u32 < 6
    }

    /// Packs a face: its top-left vertex `(x, y, z)`, width `w`, height `h`, direction and texture.
    pub fn new(x: u8, y: u8, z: u8, w: u8, h: u8, direction: Direction, texture: u16) -> (t:
        RenderFaceTexto)
        ensures
            t.geometry_word() == with_direction(
                with_quad_dimensions(with_top_left_vertex(0, x, y, z), w, h),
                direction_number(direction) as u32,
            ),
            t.material_word() == with_texture(0, texture),
            direction_bits_of(t.geometry_word()) == direction_number(direction) as u32,
            (t.material_word() & 0xFFFFu32) as u16 == texture,
            w < 32 && h < 32 ==> quad_dimensions_of(t.geometry_word()) == (h, w),
            x < 32 && y < 32 && z < 32 && w < 32 ==> top_left_vertex_of(t.geometry_word()) == (
            x,
            y,
            z,
            ),
    {
        proof {
            lemma_zero_geometry();
        }
        let mut texto = RenderFaceTexto { geometry: 0, material: 0 };
        texto.set_top_left_vertex(x, y, z);
        texto.set_quad_dimensions(w, h);
        texto.set_direction(direction);
        texto.set_texture(texture);
        proof {
            let g0 = with_top_left_vertex(0, x, y, z);
            let g1 = with_quad_dimensions(g0, w, h);
            lemma_with_top_left_vertex(0, x, y, z);
            lemma_with_quad_dimensions(g0, w, h);
            lemma_with_direction(g1, direction_number(direction) as u32);
            lemma_with_texture(0, texture);
        }
        texto
    }

    /// The direction of the face.
    pub fn get_direction(&self) -> (d: Direction)
        ensures
            d == direction_of_number(direction_bits_of(self.geometry_word()) as u8),
    {
        proof {
            use_type_invariant(self);
        }
        Direction::from_bits_unchecked((self.geometry & 0x7) as u8)
    }

    /// The quad dimensions, as `[height, width]`.
    pub fn get_quad_dimensions(&self) -> (r: [u8; 2])
        ensures
            r[0] == quad_dimensions_of(self.geometry_word()).0,
            r[1] == quad_dimensions_of(self.geometry_word()).1,
    {
        proof {
            lemma_geometry_fields_fit(self.geometry);
        }
        [((self.geometry & 0xF8) >> 3) as u8, ((self.geometry & 0x1F00) >> 8) as u8]
    }

    /// The top-left vertex, as `[x, y, z]`.
    pub fn get_top_left_vertex(&self) -> (r: [u8; 3])
        ensures
            r[0] == top_left_vertex_of(self.geometry_word()).0,
            r[1] == top_left_vertex_of(self.geometry_word()).1,
            r[2] == top_left_vertex_of(self.geometry_word()).2,
    {
        proof {
            lemma_geometry_fields_fit(self.geometry);
        }
        [
            ((self.geometry & 0x0F80_0000) >> 23) as u8,
            ((self.geometry & 0x007C_0000) >> 18) as u8,
            ((self.geometry & 0x0003_E000) >> 13) as u8,
        ]
    }

    /// The texture id.
    pub fn get_texture(&self) -> (t: u16)
        ensures
            t == (self.material_word() & 0xFFFFu32) as u16,
    {
        proof {
            lemma_texture_fits(self.material);
        }
        (self.material & 0xFFFF) as u16
    }

    /// Stores the direction; the other fields are kept.
    pub fn set_direction(&mut self, direction: Direction)
        ensures
            final(self).geometry_word() == with_direction(
                old(self).geometry_word(),
                direction_number(direction) as u32,
            ),
            final(self).material_word() == old(self).material_word(),
            direction_bits_of(final(self).geometry_word()) == direction_number(direction) as u32,
            quad_dimensions_of(final(self).geometry_word()) == quad_dimensions_of(
                old(self).geometry_word(),
            ),
            top_left_vertex_of(final(self).geometry_word()) == top_left_vertex_of(
                old(self).geometry_word(),
            ),
    {
        let d: u32 = direction.to_u8() as u32;
        proof {
            lemma_with_direction(self.geometry, d);
        }
        self.geometry = (self.geometry & !0x7) | d;
    }

    /// Stores the quad width `w` and height `h`; the direction is kept.
    pub fn set_quad_dimensions(&mut self, w: u8, h: u8)
        ensures
            final(self).geometry_word() == with_quad_dimensions(old(self).geometry_word(), w, h),
            final(self).material_word() == old(self).material_word(),
            direction_bits_of(final(self).geometry_word()) == direction_bits_of(
                old(self).geometry_word(),
            ),
            w < 32 && h < 32 ==> quad_dimensions_of(final(self).geometry_word()) == (h, w),
            w < 32 ==> top_left_vertex_of(final(self).geometry_word()) == top_left_vertex_of(
                old(self).geometry_word(),
            ),
    {
        proof {
            use_type_invariant(&*self);
            lemma_with_quad_dimensions(self.geometry, w, h);
        }
        self.geometry = (self.geometry & !0x1FF8) | ((w as u32) << 8 | (h as u32) << 3);
    }

    /// Stores the top-left vertex `(x, y, z)`; the direction and quad dimensions are kept.
    pub fn set_top_left_vertex(&mut self, x: u8, y: u8, z: u8)
        ensures
            final(self).geometry_word() == with_top_left_vertex(old(self).geometry_word(), x, y, z),
            final(self).material_word() == old(self).material_word(),
            direction_bits_of(final(self).geometry_word()) == direction_bits_of(
                old(self).geometry_word(),
            ),
            quad_dimensions_of(final(self).geometry_word()) == quad_dimensions_of(
                old(self).geometry_word(),
            ),
            x < 32 && y < 32 && z < 32 ==> top_left_vertex_of(final(self).geometry_word()) == (
            x,
            y,
            z,
            ),
    {
        proof {
            use_type_invariant(&*self);
            lemma_with_top_left_vertex(self.geometry, x, y, z);
        }
        self.geometry = (self.geometry & !0x0FFF_E000) | ((x as u32) << 23 | (y as u32) << 18 | (
        z as u32) << 13);
    }

    /// Stores the texture id; the geometry is kept.
    pub fn set_texture(&mut self, texture: u16)
        ensures
            final(self).material_word() == with_texture(old(self).material_word(), texture),
            final(self).geometry_word() == old(self).geometry_word(),
            (final(self).material_word() & 0xFFFFu32) as u16 == texture,
    {
        proof {
            use_type_invariant(&*self);
            lemma_with_texture(self.material, texture);
        }
        self.material = (self.material & !0xFFFF) | (texture as u32);
    }
}

} // verus!
