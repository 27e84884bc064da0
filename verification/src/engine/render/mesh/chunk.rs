use vstd::prelude::*;

verus! {

/// Whether `a + b` fits in an `i32`.
pub open spec fn add_fits(a: i32, b: i32) -> bool {
    i32::MIN <= a + b <= i32::MAX
}

/// Whether `a * b` fits in an `i32`.
pub open spec fn mul_fits(a: i32, b: i32) -> bool {
    i32::MIN <= a * b <= i32::MAX
}

/// The component-wise sum of two vectors.
pub fn add_each_vec3_vec3(v: [i32; 3], u: [i32; 3]) -> (r: [i32; 3])
    requires
        add_fits(v[0], u[0]) && add_fits(v[1], u[1]) && add_fits(v[2], u[2]),
    ensures
        r[0] == v[0] + u[0] && r[1] == v[1] + u[1] && r[2] == v[2] + u[2],
{
    [v[0] + u[0], v[1] + u[1], v[2] + u[2]]
}

/// The component-wise product of two vectors.
pub fn mul_each_vec3_vec3(v: [i32; 3], u: [i32; 3]) -> (r: [i32; 3])
    requires
        mul_fits(v[0], u[0]) && mul_fits(v[1], u[1]) && mul_fits(v[2], u[2]),
    ensures
        r[0] == v[0] * u[0] && r[1] == v[1] * u[1] && r[2] == v[2] * u[2],
{
    [v[0] * u[0], v[1] * u[1], v[2] * u[2]]
}

/// A vector scaled by `scalar`.
pub fn mul_i32_vec3(v: [i32; 3], scalar: i32) -> (r: [i32; 3])
    requires
        mul_fits(v[0], scalar) && mul_fits(v[1], scalar) && mul_fits(v[2], scalar),
    ensures
        r[0] == v[0] * scalar && r[1] == v[1] * scalar && r[2] == v[2] * scalar,
{
    [v[0] * scalar, v[1] * scalar, v[2] * scalar]
}

/// The sum of two vectors.
pub fn add_i32_vec3(a: [i32; 3], b: [i32; 3]) -> (r: [i32; 3])
    requires
        add_fits(a[0], b[0]) && add_fits(a[1], b[1]) && add_fits(a[2], b[2]),
    ensures
        r[0] == a[0] + b[0] && r[1] == a[1] + b[1] && r[2] == a[2] + b[2],
{
    [a[0] + b[0], a[1] + b[1], a[2] + b[2]]
}

/// The ambient occlusion level of a face corner (3: fully lit, 0: darkest), from whether the
/// block diagonal to it (`corner`) and the two blocks beside it (`side1`, `side2`) are solid:
/// 0 when both side blocks are solid, otherwise 3 less the number of solid blocks among the
/// three.
pub open spec fn ao_level(corner: bool, side1: bool, side2: bool) -> u8 {
    if side1 && side2 {
        0
    } else {
        (3 - (if corner { 1int } else { 0 }) - (if side1 { 1int } else { 0 }) - (if side2 {
            1int
        } else {
            0
        })) as u8
    }
}

/// The ambient occlusion level of a face corner (see [`ao_level`]), read from the occlusion
/// table indexed by `side1 | side2 << 1 | corner << 2`.
pub fn vertex_ao(corner_solid: bool, side1_solid: bool, side2_solid: bool) -> (ao: u8)
    ensures
        ao == ao_level(corner_solid, side1_solid, side2_solid),
        ao < 4,
{
    let table: [u8; 8] = [3, 2, 2, 0, 2, 1, 1, 0];
    let index: usize = (if side1_solid { 1usize } else { 0 }) + (if side2_solid { 2usize } else { 0 })
        + (if corner_solid { 4usize } else { 0 });
    table[index]
}

/// The occlusion levels of a face's four corners (each below 4), packed two bits each, the
/// first corner in the high bits.
pub fn pack_vertex_ao(v0: u8, v1: u8, v2: u8, v3: u8) -> (packed: u8)
    requires
        v0 < 4,
        v1 < 4,
        v2 < 4,
        v3 < 4,
    ensures
        packed == v0 * 64 + v1 * 16 + v2 * 4 + v3,
{
    assert((v0 << 6u8) | (v1 << 4u8) | (v2 << 2u8) | (v3 << 0u8) == v0 * 64 + v1 * 16 + v2 * 4 + v3)
        by (bit_vector)
        requires
            v0 < 4,
            v1 < 4,
            v2 < 4,
            v3 < 4,
    ;
    (v0 << 6u8) | (v1 << 4u8) | (v2 << 2u8) | (v3 << 0u8)
}

/// The occlusion levels of a face's four corners, read back from their packed form: two bits
/// each, the first corner in the high bits.
pub fn unpack_vertex_ao(packed: u8) -> (levels: [u8; 4])
    ensures
        packed == levels[0] * 64 + levels[1] * 16 + levels[2] * 4 + levels[3],
        levels[0] < 4 && levels[1] < 4 && levels[2] < 4 && levels[3] < 4,
{
    let l0 = packed >> 6u8;
    let l1 = (packed >> 4u8) & 0b11u8;
    let l2 = (packed >> 2u8) & 0b11u8;
    let l3 = (packed >> 0u8) & 0b11u8;
    assert(packed == l0 * 64 + l1 * 16 + l2 * 4 + l3 && l0 < 4 && l1 < 4 && l2 < 4 && l3 < 4)
        by (bit_vector)
        requires
            l0 == packed >> 6u8,
            l1 == (packed >> 4u8) & 0b11u8,
            l2 == (packed >> 2u8) & 0b11u8,
            l3 == (packed >> 0u8) & 0b11u8,
    ;
    [l0, l1, l2, l3]
}

/// Unpacking packed occlusion levels gives the levels back.
pub proof fn lemma_vertex_ao_round_trip(packed: u8, levels: [u8; 4], v0: u8, v1: u8, v2: u8, v3: u8)
    requires
        v0 < 4 && v1 < 4 && v2 < 4 && v3 < 4,
        packed == v0 * 64 + v1 * 16 + v2 * 4 + v3,
        packed == levels[0] * 64 + levels[1] * 16 + levels[2] * 4 + levels[3],
        levels[0] < 4 && levels[1] < 4 && levels[2] < 4 && levels[3] < 4,
    ensures
        levels[0] == v0 && levels[1] == v1 && levels[2] == v2 && levels[3] == v3,
{
}

} // verus!
