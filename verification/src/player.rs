use vstd::prelude::*;

verus! {

/// The number of chunk coordinates from `min` to `max`, both included (0 when `max < min`).
pub open spec fn axis_chunk_count(min: i32, max: i32) -> int {
    if max < min {
        0
    } else {
        max - min + 1
    }
}

/// The number of chunks in a range `[min_cx, max_cx, min_cy, max_cy, min_cz, max_cz]`
/// (bounds included): the product of the numbers of coordinates along each axis.
pub open spec fn range_chunk_count(range: [i32; 6]) -> int {
    axis_chunk_count(range[0], range[1]) * axis_chunk_count(range[2], range[3])
        * axis_chunk_count(range[4], range[5])
}

/// A range of a single chunk counts one chunk, and an empty axis makes an empty range.
pub proof fn lemma_chunk_count_single(cx: i32, cy: i32, cz: i32, other: [i32; 6])
    ensures
        range_chunk_count([cx, cx, cy, cy, cz, cz]) == 1,
        other[1] < other[0] || other[3] < other[2] || other[5] < other[4] ==> range_chunk_count(
            other,
        ) == 0,
{
    let single = [cx, cx, cy, cy, cz, cz];
    assert(single[0] == cx && single[1] == cx && single[2] == cy && single[3] == cy && single[4]
        == cz && single[5] == cz);
    assert(axis_chunk_count(single[0], single[1]) == 1);
    assert(axis_chunk_count(single[2], single[3]) == 1);
    assert(axis_chunk_count(single[4], single[5]) == 1);
    let (a, b, c) = (
        axis_chunk_count(other[0], other[1]),
        axis_chunk_count(other[2], other[3]),
        axis_chunk_count(other[4], other[5]),
    );
    assert(a == 0 || b == 0 || c == 0 ==> a * b * c == 0) by (nonlinear_arith);
}

/// Widening a non-empty range by one chunk along x adds one layer of
/// `(y chunks) x (z chunks)` chunks.
pub proof fn lemma_chunk_count_extend_x(range: [i32; 6], max_x: i32)
    requires
        range[0] <= range[1],
        max_x == range[1] + 1,
    ensures
        range_chunk_count([range[0], max_x, range[2], range[3], range[4], range[5]]) == range_chunk_count(
            range,
        ) + axis_chunk_count(range[2], range[3]) * axis_chunk_count(range[4], range[5]),
{
    let a = axis_chunk_count(range[0], range[1]);
    let b = axis_chunk_count(range[2], range[3]);
    let c = axis_chunk_count(range[4], range[5]);
    assert(axis_chunk_count(range[0], max_x) == a + 1);
    assert((a + 1) * b * c == a * b * c + b * c) by (nonlinear_arith);
}

/// The number of coordinates from `min` to `max`, both included.
fn axis_count(min: i32, max: i32) -> (n: u64)
    ensures
        n == axis_chunk_count(min, max),
        n <= 0x1_0000_0000,
{
    if max < min {
        0
    } else {
        (max as i64 - min as i64 + 1) as u64
    }
}

/// The number of chunks the player renders for a chunk range
/// `[min_cx, max_cx, min_cy, max_cy, min_cz, max_cz]` (bounds included): the number of
/// chunk coordinates in the range.
pub fn rendered_chunk_number(range: [i32; 6]) -> (n: u32)
    requires
        range_chunk_count(range) <= u32::MAX,
    ensures
        n == range_chunk_count(range),
{
    let dx = axis_count(range[0], range[1]);
    let dy = axis_count(range[2], range[3]);
    let dz = axis_count(range[4], range[5]);
    assert(dx * dy <= 0x1_0000_0000 * 0x1_0000_0000) by (nonlinear_arith)
        requires
            dx <= 0x1_0000_0000,
            dy <= 0x1_0000_0000,
    ;
    assert(dx * dy * dz <= 0x1_0000_0000 * 0x1_0000_0000 * 0x1_0000_0000) by (nonlinear_arith)
        requires
            dx * dy <= 0x1_0000_0000 * 0x1_0000_0000,
            dz <= 0x1_0000_0000,
            0 <= dx * dy,
    ;
    let count: u128 = (dx as u128) * (dy as u128) * (dz as u128);
    count as u32
}

} // verus!
