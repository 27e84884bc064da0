pub mod face_mask;
pub mod texto;
pub mod chunk;

use vstd::prelude::*;
use crate::engine::render::geometry::{
    FaceMask, Direction, GridVertex, packed_face, direction_number, direction_of_number,
    lemma_direction_number_round_trip,
};
use crate::engine::render::mesh::face_mask::{
    visited_of, with_visited, lemma_with_visited, face_bits_of, lemma_packed_fields, block_id_of,
};
use crate::world::{Block, Chunk, World, PaddedChunk, padded_index, is_padded_copy, CHUNK_SIZE};

verus! {

/// A rectangle of a 32 x 32 face mask, `width` cells along the first mask coordinate from `u`
/// and `height` cells along the second from `v`, all holding the face `face`.
#[derive(Clone, Copy)]
pub struct Quad {
    pub u: usize,
    pub v: usize,
    pub width: usize,
    pub height: usize,
    pub face: FaceMask,
}

/// The index of mask cell `(a, b)` in a flat 32 x 32 mask.
pub open spec fn cell(a: int, b: int) -> int {
    a * 32 + b
}

/// Whether `(a, b)` is a cell of a 32 x 32 mask.
pub open spec fn in_mask(a: int, b: int) -> bool {
    0 <= a < 32 && 0 <= b < 32
}

/// Whether the quad lies inside the mask and is not empty.
pub open spec fn quad_in_mask(q: Quad) -> bool {
    &&& 1 <= q.width
    &&& 1 <= q.height
    &&& q.u + q.width <= 32
    &&& q.v + q.height <= 32
}

/// Whether the quad covers cell `(a, b)`.
pub open spec fn covers(q: Quad, a: int, b: int) -> bool {
    q.u <= a < q.u + q.width && q.v <= b < q.v + q.height
}

/// The faces still to be covered in a mask: `Some` of the cell's data for a cell that is
/// not visited, `None` for a visited one.
pub open spec fn mask_faces(mask: Seq<FaceMask>) -> Seq<Option<u64>> {
    Seq::new(
        mask.len(),
        |i: int|
            if visited_of(mask[i].data) {
                None
            } else {
                Some(mask[i].data)
            },
    )
}

/// Whether cell `(a, b)` holds a face and no quad of `prefix` covers it.
pub open spec fn available(faces: Seq<Option<u64>>, prefix: Seq<Quad>, a: int, b: int) -> bool {
    &&& in_mask(a, b)
    &&& faces[cell(a, b)] is Some
    &&& forall|j: int| 0 <= j < prefix.len() ==> !#[trigger] covers(prefix[j], a, b)
}

/// Whether a quad of face `d` placed after the quads `prefix` may take in cell `(a, b)`: the
/// cell is available and holds `d`.
pub open spec fn extends(faces: Seq<Option<u64>>, prefix: Seq<Quad>, d: u64, a: int, b: int) -> bool {
    available(faces, prefix, a, b) && faces[cell(a, b)] == Some(d)
}

/// Whether `q` is the quad that the greedy pass builds after the quads `prefix`: it starts at
/// the first available cell in scan order (first coordinate, then second), takes that cell's
/// face, is as wide as the run of available cells of that face from there along the first
/// coordinate, and as high as the rows of that width that hold only such cells.
pub open spec fn greedy_quad(faces: Seq<Option<u64>>, prefix: Seq<Quad>, q: Quad) -> bool {
    let d = q.face.data;
    &&& quad_in_mask(q)
    &&& forall|a: int, b: int| #[trigger] covers(q, a, b) ==> extends(faces, prefix, d, a, b)
    &&& forall|a: int, b: int|
        (a < q.u || (a == q.u && b < q.v)) ==> !#[trigger] available(faces, prefix, a, b)
    &&& q.u + q.width == 32 || !extends(faces, prefix, d, q.u + q.width, q.v as int)
    &&& q.v + q.height == 32 || exists|a: int|
        q.u <= a < q.u + q.width && !#[trigger] extends(faces, prefix, d, a, q.v + q.height)
}

/// Whether `quads` is the output of the greedy pass over the 32 x 32 cells `faces`: each quad
/// is the greedy quad after those before it, and every face is covered.
pub open spec fn is_greedy_cover(faces: Seq<Option<u64>>, quads: Seq<Quad>) -> bool {
    &&& forall|k: int| 0 <= k < quads.len() ==> greedy_quad(faces, quads.take(k), #[trigger] quads[k])
    &&& forall|a: int, b: int|
        in_mask(a, b) && #[trigger] faces[cell(a, b)] is Some ==> exists|k: int|
            0 <= k < quads.len() && #[trigger] covers(quads[k], a, b)
}

/// The invariant of the greedy pass over a mask whose initial content was `m0`, with quads
/// `all` emitted so far (the last of which may still be growing): `owner` records, for each
/// cell, the quad that covers it (or -1), the "visited" flags are set exactly on the cells
/// that were visited at the start or are covered, cells not yet visited are untouched, and
/// visited cells differ from their initial content at most by the flag.
pub open spec fn greedy_state(m0: Seq<FaceMask>, m: Seq<FaceMask>, all: Seq<Quad>, owner: Seq<int>) -> bool {
    &&& m0.len() == 1024
    &&& m.len() == 1024
    &&& owner.len() == 1024
    &&& forall|a: int, b: int|
        #![trigger m[cell(a, b)]]
        in_mask(a, b) ==> (visited_of(m[cell(a, b)].data) == (visited_of(m0[cell(a, b)].data)
            || owner[cell(a, b)] >= 0))
    &&& forall|a: int, b: int|
        #![trigger m[cell(a, b)]]
        in_mask(a, b) && !visited_of(m[cell(a, b)].data) ==> m[cell(a, b)] == m0[cell(a, b)]
    &&& forall|a: int, b: int|
        #![trigger m[cell(a, b)]]
        in_mask(a, b) && visited_of(m[cell(a, b)].data) ==> m[cell(a, b)].data == with_visited(
            m0[cell(a, b)].data,
            true,
        )
    &&& forall|a: int, b: int|
        #![trigger owner[cell(a, b)]]
        in_mask(a, b) ==> -1 <= owner[cell(a, b)] < all.len()
    &&& forall|a: int, b: int|
        #![trigger owner[cell(a, b)]]
        in_mask(a, b) && owner[cell(a, b)] >= 0 ==> covers(all[owner[cell(a, b)]], a, b)
            && m0[cell(a, b)].data == all[owner[cell(a, b)]].face.data
    &&& forall|k: int, a: int, b: int|
        0 <= k < all.len() && #[trigger] covers(all[k], a, b) ==> in_mask(a, b) && owner[cell(
            a,
            b,
        )] == k
    &&& forall|k: int| 0 <= k < all.len() ==> quad_in_mask(#[trigger] all[k])
    &&& forall|k: int| 0 <= k < all.len() ==> !visited_of(#[trigger] all[k].face.data)
}

/// Distinct mask cells have distinct indices.
pub proof fn lemma_cell_injective(a: int, b: int, x: int, y: int)
    requires
        in_mask(a, b),
        in_mask(x, y),
        cell(a, b) == cell(x, y),
    ensures
        a == x && b == y,
{
}

/// The row and column of a mask cell index.
pub proof fn lemma_cell_div_mod(a: int, b: int)
    requires
        in_mask(a, b),
    ensures
        cell(a, b) % 32 == b,
        cell(a, b) / 32 == a,
{
    assert(cell(a, b) % 32 == b && cell(a, b) / 32 == a) by (nonlinear_arith)
        requires
            0 <= a < 32,
            0 <= b < 32,
    ;
}

/// Marking one more cell `(x, y)`, not visited and holding the face of the last quad of
/// `all2`, as covered by that quad keeps the invariant; `all2` is `all` with its last quad
/// grown by that cell, or with a new last quad made of that cell alone.
pub proof fn lemma_add_cell(
    m0: Seq<FaceMask>,
    m: Seq<FaceMask>,
    all: Seq<Quad>,
    owner: Seq<int>,
    all2: Seq<Quad>,
    x: int,
    y: int,
)
    requires
        greedy_state(m0, m, all, owner),
        all2.len() == all.len() || all2.len() == all.len() + 1,
        all2.len() >= 1,
        forall|j: int| 0 <= j < all2.len() - 1 ==> all2[j] == all[j],
        all2.len() == all.len() ==> all2.last().face == all.last().face,
        quad_in_mask(all2.last()),
        !visited_of(all2.last().face.data),
        forall|a: int, b: int|
            #[trigger] covers(all2.last(), a, b) == ((all2.len() == all.len() && covers(
                all.last(),
                a,
                b,
            )) || (a == x && b == y)),
        in_mask(x, y),
        !visited_of(m[cell(x, y)].data),
        m[cell(x, y)].data == all2.last().face.data,
    ensures
        greedy_state(
            m0,
            m.update(cell(x, y), FaceMask { data: with_visited(m[cell(x, y)].data, true) }),
            all2,
            owner.update(cell(x, y), all2.len() - 1),
        ),
{
    let k = all2.len() - 1;
    let c = cell(x, y);
    let m2 = m.update(c, FaceMask { data: with_visited(m[c].data, true) });
    let owner2 = owner.update(c, k);
    lemma_with_visited(m[c].data, true);
    assert(m[c] == m0[c]);
    assert(owner[c] < 0);
    assert forall|a: int, b: int| in_mask(a, b) && (a != x || b != y) implies #[trigger] cell(a, b)
        != c by {
        if cell(a, b) == c {
            lemma_cell_injective(a, b, x, y);
        }
    }
    assert forall|a: int, b: int| #![trigger m2[cell(a, b)]] in_mask(a, b) implies (visited_of(
        m2[cell(a, b)].data,
    ) == (visited_of(m0[cell(a, b)].data) || owner2[cell(a, b)] >= 0)) && (!visited_of(
        m2[cell(a, b)].data,
    ) ==> m2[cell(a, b)] == m0[cell(a, b)]) by {
        if a != x || b != y {
            assert(cell(a, b) != c);
            assert(m[cell(a, b)] == m[cell(a, b)]);
        }
    }
    assert forall|a: int, b: int| #![trigger owner2[cell(a, b)]] in_mask(a, b) implies -1
        <= owner2[cell(a, b)] < all2.len() && (owner2[cell(a, b)] >= 0 ==> covers(
        all2[owner2[cell(a, b)]],
        a,
        b,
    ) && m0[cell(a, b)].data == all2[owner2[cell(a, b)]].face.data) by {
        if a != x || b != y {
            assert(cell(a, b) != c);
            let o = owner[cell(a, b)];
            assert(-1 <= o < all.len());
            if o >= 0 {
                assert(covers(all[o], a, b) && m0[cell(a, b)].data == all[o].face.data);
                if o < k {
                    assert(all2[o] == all[o]);
                } else {
                    assert(covers(all2.last(), a, b));
                    assert(all[o].face == all.last().face);
                    assert(all2[o].face == all2.last().face);
                }
            }
        } else {
            assert(covers(all2.last(), a, b));
        }
    }
    assert forall|kk: int, a: int, b: int|
        0 <= kk < all2.len() && #[trigger] covers(all2[kk], a, b) implies in_mask(a, b)
        && owner2[cell(a, b)] == kk by {
        if kk < k {
            assert(all2[kk] == all[kk]);
            assert(covers(all[kk], a, b));
            if a == x && b == y {
                assert(false);
            }
            assert(cell(a, b) != c);
        } else if a != x || b != y {
            assert(covers(all.last(), a, b));
            assert(covers(all[kk], a, b));
            assert(cell(a, b) != c);
        }
    }
    assert forall|kk: int| 0 <= kk < all2.len() implies quad_in_mask(#[trigger] all2[kk])
        && !visited_of(all2[kk].face.data) by {
        if kk < k {
            assert(all2[kk] == all[kk]);
            assert(quad_in_mask(all[kk]) && !visited_of(all[kk].face.data));
        }
    }
}

/// The mask `m` with the cells `(a, iv)`, `lo <= a < hi`, marked visited.
pub open spec fn mark_row(m: Seq<FaceMask>, iv: int, lo: int, hi: int) -> Seq<FaceMask> {
    Seq::new(
        m.len(),
        |i: int|
            if i % 32 == iv && lo <= i / 32 < hi {
                FaceMask { data: with_visited(m[i].data, true) }
            } else {
                m[i]
            },
    )
}

/// The owners `owner` with the cells `(a, iv)`, `lo <= a < hi`, given to quad `k`.
pub open spec fn own_row(owner: Seq<int>, iv: int, lo: int, hi: int, k: int) -> Seq<int> {
    Seq::new(owner.len(), |i: int| if i % 32 == iv && lo <= i / 32 < hi { k } else { owner[i] })
}

/// Growing the last quad of the greedy state by the next row of cells, all of which are not
/// visited and hold the quad's face, keeps the invariant.
pub proof fn lemma_grow_row(m0: Seq<FaceMask>, m: Seq<FaceMask>, all: Seq<Quad>, owner: Seq<int>)
    requires
        greedy_state(m0, m, all, owner),
        all.len() >= 1,
        all.last().v + all.last().height < 32,
        forall|a: int|
            all.last().u <= a < all.last().u + all.last().width ==> !visited_of(
                #[trigger] m[cell(a, all.last().v + all.last().height)].data,
            ) && m[cell(a, all.last().v + all.last().height)].data == all.last().face.data,
    ensures
        ({
            let q = all.last();
            let k = all.len() - 1;
            let iv = q.v + q.height;
            greedy_state(
                m0,
                mark_row(m, iv, q.u as int, q.u + q.width),
                all.update(k, Quad { height: (q.height + 1) as usize, ..q }),
                own_row(owner, iv, q.u as int, q.u + q.width, k),
            )
        }),
{
    let q = all.last();
    let k = all.len() - 1;
    let iv = q.v + q.height;
    let m2 = mark_row(m, iv, q.u as int, q.u + q.width);
    let all2 = all.update(k, Quad { height: (q.height + 1) as usize, ..q });
    let owner2 = own_row(owner, iv, q.u as int, q.u + q.width, k);
    assert forall|a: int, b: int| in_mask(a, b) implies #[trigger] (cell(a, b) % 32) == b && cell(
        a,
        b,
    ) / 32 == a by {
        lemma_cell_div_mod(a, b);
    }
    assert forall|a: int, b: int| #![trigger m2[cell(a, b)]] in_mask(a, b) implies (visited_of(
        m2[cell(a, b)].data,
    ) == (visited_of(m0[cell(a, b)].data) || owner2[cell(a, b)] >= 0)) && (!visited_of(
        m2[cell(a, b)].data,
    ) ==> m2[cell(a, b)] == m0[cell(a, b)]) by {
        assert(cell(a, b) % 32 == b && cell(a, b) / 32 == a);
        assert(m[cell(a, b)] == m[cell(a, b)]);
        if b == iv && q.u <= a < q.u + q.width {
            lemma_with_visited(m[cell(a, b)].data, true);
        }
    }
    assert forall|a: int, b: int| #![trigger owner2[cell(a, b)]] in_mask(a, b) implies -1
        <= owner2[cell(a, b)] < all2.len() && (owner2[cell(a, b)] >= 0 ==> covers(
        all2[owner2[cell(a, b)]],
        a,
        b,
    ) && m0[cell(a, b)].data == all2[owner2[cell(a, b)]].face.data) by {
        assert(cell(a, b) % 32 == b && cell(a, b) / 32 == a);
        let o = owner[cell(a, b)];
        assert(-1 <= o < all.len());
        if b == iv && q.u <= a < q.u + q.width {
            assert(!visited_of(m[cell(a, iv)].data) && m[cell(a, iv)].data == q.face.data);
            assert(m[cell(a, b)] == m0[cell(a, b)]);
            assert(owner2[cell(a, b)] == k);
            assert(all2[k].face == q.face);
            assert(covers(all2[k], a, b));
        } else {
            assert(owner2[cell(a, b)] == o);
            if o >= 0 {
                assert(covers(all[o], a, b) && m0[cell(a, b)].data == all[o].face.data);
                assert(all2[o].face == all[o].face);
                assert(covers(all2[o], a, b));
            }
        }
    }
    assert forall|kk: int, a: int, b: int|
        0 <= kk < all2.len() && #[trigger] covers(all2[kk], a, b) implies in_mask(a, b)
        && owner2[cell(a, b)] == kk by {
        if kk < k || b < iv {
            assert(covers(all[kk], a, b));
            assert(cell(a, b) % 32 == b && cell(a, b) / 32 == a);
            if b == iv && q.u <= a < q.u + q.width {
                assert(m[cell(a, iv)] == m[cell(a, iv)]);
                assert(!visited_of(m[cell(a, iv)].data));
                assert(false);
            }
        } else {
            assert(cell(a, b) % 32 == b && cell(a, b) / 32 == a);
        }
    }
    assert forall|kk: int| 0 <= kk < all2.len() implies quad_in_mask(#[trigger] all2[kk])
        && !visited_of(all2[kk].face.data) by {
        assert(quad_in_mask(all[kk]) && !visited_of(all[kk].face.data));
    }
}

/// In the greedy state, a cell is not visited exactly when it is available after the quads
/// emitted so far; such a cell still holds its initial content.
pub proof fn lemma_state_available(
    m0: Seq<FaceMask>,
    m: Seq<FaceMask>,
    all: Seq<Quad>,
    owner: Seq<int>,
    a: int,
    b: int,
)
    requires
        greedy_state(m0, m, all, owner),
        in_mask(a, b),
    ensures
        !visited_of(m[cell(a, b)].data) <==> available(mask_faces(m0), all, a, b),
        !visited_of(m[cell(a, b)].data) ==> m[cell(a, b)] == m0[cell(a, b)],
        mask_faces(m0)[cell(a, b)] == (if visited_of(m0[cell(a, b)].data) {
            None
        } else {
            Some(m0[cell(a, b)].data)
        }),
{
    let c = cell(a, b);
    assert(m[c] == m[c]);
    assert(owner[c] == owner[c]);
    if owner[c] >= 0 {
        assert(covers(all[owner[c]], a, b));
    }
    if !visited_of(m[c].data) {
        assert forall|j: int| 0 <= j < all.len() implies !#[trigger] covers(all[j], a, b) by {
            if covers(all[j], a, b) {
                assert(owner[c] == j);
            }
        }
    }
}

/// A cell that the greedy pass found visited, or holding another face than the growing quad
/// `q`, and that `q` does not cover, cannot extend `q` after the quads before it.
pub proof fn lemma_blocked(
    m0: Seq<FaceMask>,
    m: Seq<FaceMask>,
    quads: Seq<Quad>,
    q: Quad,
    owner: Seq<int>,
    a: int,
    b: int,
)
    requires
        greedy_state(m0, m, quads.push(q), owner),
        in_mask(a, b),
        !covers(q, a, b),
        visited_of(m[cell(a, b)].data) || m[cell(a, b)].data != q.face.data,
    ensures
        !extends(mask_faces(m0), quads, q.face.data, a, b),
{
    let all = quads.push(q);
    lemma_state_available(m0, m, all, owner, a, b);
    if extends(mask_faces(m0), quads, q.face.data, a, b) {
        assert forall|j: int| 0 <= j < all.len() implies !#[trigger] covers(all[j], a, b) by {
            if j < quads.len() {
                assert(all[j] == quads[j]);
            }
        }
        assert(available(mask_faces(m0), all, a, b));
    }
}

/// When the greedy pass has finished growing quad `q` from cell `(q.u, q.v)`, all cells before
/// that one in scan order being visited, `q` covers only cells that extend it after the quads
/// before it, and no cell before its first one is available.
pub proof fn lemma_finish_quad(
    m0: Seq<FaceMask>,
    m: Seq<FaceMask>,
    quads: Seq<Quad>,
    q: Quad,
    owner: Seq<int>,
)
    requires
        greedy_state(m0, m, quads.push(q), owner),
        forall|a: int, b: int|
            #![trigger m[cell(a, b)]]
            in_mask(a, b) && (a < q.u || (a == q.u && b < q.v)) ==> visited_of(m[cell(a, b)].data),
    ensures
        quad_in_mask(q),
        forall|a: int, b: int|
            #[trigger] covers(q, a, b) ==> extends(mask_faces(m0), quads, q.face.data, a, b),
        forall|a: int, b: int|
            (a < q.u || (a == q.u && b < q.v)) ==> !#[trigger] available(
                mask_faces(m0),
                quads,
                a,
                b,
            ),
{
    let all = quads.push(q);
    let k = quads.len() as int;
    let faces = mask_faces(m0);
    assert(all[k] == q);
    assert forall|a: int, b: int| #[trigger] covers(q, a, b) implies extends(
        faces,
        quads,
        q.face.data,
        a,
        b,
    ) by {
        assert(covers(all[k], a, b));
        let c = cell(a, b);
        assert(owner[c] == k);
        assert(m0[c].data == q.face.data);
        lemma_state_available(m0, m, all, owner, a, b);
        assert forall|j: int| 0 <= j < quads.len() implies !#[trigger] covers(quads[j], a, b) by {
            assert(all[j] == quads[j]);
            if covers(quads[j], a, b) {
                assert(covers(all[j], a, b));
            }
        }
    }
    assert forall|a: int, b: int| (a < q.u || (a == q.u && b < q.v)) implies !#[trigger] available(
        faces,
        quads,
        a,
        b,
    ) by {
        if in_mask(a, b) {
            assert(visited_of(m[cell(a, b)].data));
            lemma_state_available(m0, m, all, owner, a, b);
            if available(faces, quads, a, b) {
                assert forall|j: int| 0 <= j < all.len() implies !#[trigger] covers(all[j], a, b) by {
                    if j < quads.len() {
                        assert(all[j] == quads[j]);
                    }
                }
            }
        }
    }
}

/// Appending the greedy quad after `quads` keeps each quad the greedy quad after those
/// before it.
pub proof fn lemma_push_greedy_quad(faces: Seq<Option<u64>>, quads: Seq<Quad>, q: Quad)
    requires
        forall|k: int| 0 <= k < quads.len() ==> greedy_quad(faces, quads.take(k), #[trigger] quads[k]),
        greedy_quad(faces, quads, q),
    ensures
        forall|k: int|
            0 <= k < quads.len() + 1 ==> greedy_quad(
                faces,
                quads.push(q).take(k),
                #[trigger] quads.push(q)[k],
            ),
{
    let all = quads.push(q);
    assert forall|k: int| 0 <= k < quads.len() + 1 implies greedy_quad(
        faces,
        all.take(k),
        #[trigger] all[k],
    ) by {
        if k < quads.len() {
            assert(all.take(k) =~= quads.take(k));
            assert(all[k] == quads[k]);
        } else {
            assert(all.take(k) =~= quads);
        }
    }
}

/// Covers the cells of `mask` that are not visited with rectangles of equal faces, scanning
/// the first mask coordinate, then the second: from each cell not yet visited, the rectangle
/// first grows along the first coordinate while the next cell is not visited and holds the
/// same face, then along the second while the whole next row of the rectangle is. The
/// rectangles are the greedy cover of the faces not visited (see [`is_greedy_cover`]), and
/// every cell ends visited, its content otherwise unchanged.
pub fn greedy_slice(mask: &mut Vec<FaceMask>) -> (quads: Vec<Quad>)
    requires
        old(mask).len() == 1024,
    ensures
        final(mask).len() == 1024,
        forall|i: int| 0 <= i < 1024 ==> visited_of(#[trigger] final(mask)@[i].data),
        forall|i: int|
            0 <= i < 1024 ==> #[trigger] final(mask)@[i].data == with_visited(old(mask)@[i].data, true),
        is_greedy_cover(mask_faces(old(mask)@), quads@),
{
    let ghost m0 = mask@;
    let ghost faces = mask_faces(m0);
    let mut quads: Vec<Quad> = Vec::new();
    let ghost mut owner: Seq<int> = Seq::new(1024, |i: int| -1int);
    proof {
        assert forall|a: int, b: int| in_mask(a, b) && visited_of(#[trigger] m0[cell(a, b)].data)
            implies m0[cell(a, b)].data == with_visited(m0[cell(a, b)].data, true) by {
            lemma_with_visited(m0[cell(a, b)].data, true);
        }
    }
    let mut u: usize = 0;
    while u < 32
        invariant
            u <= 32,
            faces == mask_faces(m0),
            greedy_state(m0, mask@, quads@, owner),
            forall|k: int|
                0 <= k < quads@.len() ==> greedy_quad(faces, quads@.take(k), #[trigger] quads@[k]),
            forall|a: int, b: int|
                #![trigger mask@[cell(a, b)]]
                in_mask(a, b) && a < u ==> visited_of(mask@[cell(a, b)].data),
        decreases 32 - u,
    {
        let mut v: usize = 0;
        while v < 32
            invariant
                u < 32,
                v <= 32,
                faces == mask_faces(m0),
                greedy_state(m0, mask@, quads@, owner),
                forall|k: int|
                    0 <= k < quads@.len() ==> greedy_quad(faces, quads@.take(k), #[trigger] quads@[k]),
                forall|a: int, b: int|
                    #![trigger mask@[cell(a, b)]]
                    in_mask(a, b) && (a < u || (a == u && b < v)) ==> visited_of(
                        mask@[cell(a, b)].data,
                    ),
            decreases 32 - v,
        {
            let face = mask[u * 32 + v];
            if face.get_visited() {
                v += 1;
                continue;
            }
            let k = quads.len();
            let ghost m1 = mask@;
            let mut marked = face;
            marked.set_visited(true);
            mask.set(u * 32 + v, marked);
            let mut width: usize = 1;
            let mut height: usize = 1;
            proof {
                let all2 = quads@.push(Quad { u, v, width, height, face });
                lemma_add_cell(m0, m1, quads@, owner, all2, u as int, v as int);
                owner = owner.update(cell(u as int, v as int), k as int);
                assert(mask@ == m1.update(
                    cell(u as int, v as int),
                    FaceMask { data: with_visited(m1[cell(u as int, v as int)].data, true) },
                ));
            }
            // Grow along the first coordinate.
            let mut iu: usize = u + 1;
            let mut growing = true;
            while growing && iu < 32
                invariant
                    u < 32,
                    v < 32,
                    k == quads.len(),
                    iu == u + width,
                    1 <= width,
                    u + width <= 32,
                    height == 1,
                    !visited_of(face.data),
                    faces == mask_faces(m0),
                    greedy_state(m0, mask@, quads@.push(Quad { u, v, width, height, face }), owner),
                    forall|a: int, b: int|
                        #![trigger mask@[cell(a, b)]]
                        in_mask(a, b) && (a < u || (a == u && b < v)) ==> visited_of(
                            mask@[cell(a, b)].data,
                        ),
                    !growing ==> iu < 32 && !extends(faces, quads@, face.data, iu as int, v as int),
                decreases 32 - iu + (if growing { 1int } else { 0 }),
            {
                let next = mask[iu * 32 + v];
                if next.get_visited() || next.data != face.data {
                    proof {
                        lemma_blocked(
                            m0,
                            mask@,
                            quads@,
                            Quad { u, v, width, height, face },
                            owner,
                            iu as int,
                            v as int,
                        );
                    }
                    growing = false;
                } else {
                    let ghost m1 = mask@;
                    let ghost all = quads@.push(Quad { u, v, width, height, face });
                    let mut marked = next;
                    marked.set_visited(true);
                    mask.set(iu * 32 + v, marked);
                    width += 1;
                    proof {
                        let all2 = quads@.push(Quad { u, v, width, height, face });
                        lemma_add_cell(m0, m1, all, owner, all2, iu as int, v as int);
                        owner = owner.update(cell(iu as int, v as int), k as int);
                        assert(mask@ == m1.update(
                            cell(iu as int, v as int),
                            FaceMask { data: with_visited(m1[cell(iu as int, v as int)].data, true) },
                        ));
                    }
                    iu += 1;
                }
            }
            let ghost width_stop = u + width == 32 || !extends(
                faces,
                quads@,
                face.data,
                u + width,
                v as int,
            );
            assert(width_stop);
            // Grow along the second coordinate.
            let mut iv: usize = v + 1;
            let mut growing = true;
            while growing && iv < 32
                invariant
                    u < 32,
                    v < 32,
                    k == quads.len(),
                    iv == v + height,
                    1 <= width,
                    u + width <= 32,
                    1 <= height,
                    v + height <= 32,
                    !visited_of(face.data),
                    faces == mask_faces(m0),
                    greedy_state(m0, mask@, quads@.push(Quad { u, v, width, height, face }), owner),
                    forall|a: int, b: int|
                        #![trigger mask@[cell(a, b)]]
                        in_mask(a, b) && (a < u || (a == u && b < v)) ==> visited_of(
                            mask@[cell(a, b)].data,
                        ),
                    !growing ==> iv < 32 && exists|a: int|
                        u <= a < u + width && !#[trigger] extends(
                            faces,
                            quads@,
                            face.data,
                            a,
                            iv as int,
                        ),
                decreases 32 - iv + (if growing { 1int } else { 0 }),
            {
                let mut ju: usize = u;
                let mut fits = true;
                while fits && ju < u + width
                    invariant
                        u <= ju <= u + width,
                        u + width <= 32,
                        iv < 32,
                        mask@.len() == 1024,
                        fits ==> forall|a: int|
                            u <= a < ju ==> !visited_of(#[trigger] mask@[cell(a, iv as int)].data)
                                && mask@[cell(a, iv as int)].data == face.data,
                        !fits ==> ju < u + width && (visited_of(mask@[cell(ju as int, iv as int)].data)
                            || mask@[cell(ju as int, iv as int)].data != face.data),
                    decreases u + width - ju + (if fits { 1int } else { 0 }),
                {
                    let c = mask[ju * 32 + iv];
                    if c.get_visited() || c.data != face.data {
                        fits = false;
                    } else {
                        ju += 1;
                    }
                }
                if !fits {
                    proof {
                        lemma_blocked(
                            m0,
                            mask@,
                            quads@,
                            Quad { u, v, width, height, face },
                            owner,
                            ju as int,
                            iv as int,
                        );
                    }
                    growing = false;
                } else {
                    let ghost row_ok = mask@;
                    let mut ju: usize = u;
                    while ju < u + width
                        invariant
                            u <= ju <= u + width,
                            u + width <= 32,
                            iv < 32,
                            mask@.len() == 1024,
                            row_ok.len() == 1024,
                            forall|i: int|
                                0 <= i < 1024 ==> #[trigger] mask@[i] == (if i % 32 == iv && u <= i / 32
                                    < ju {
                                    FaceMask { data: with_visited(row_ok[i].data, true) }
                                } else {
                                    row_ok[i]
                                }),
                        decreases u + width - ju,
                    {
                        let c = mask[ju * 32 + iv];
                        let mut marked = c;
                        marked.set_visited(true);
                        mask.set(ju * 32 + iv, marked);
                        ju += 1;
                    }
                    proof {
                        let all = quads@.push(Quad { u, v, width, height, face });
                        lemma_grow_row(m0, row_ok, all, owner);
                        owner = own_row(owner, iv as int, u as int, u + width, k as int);
                        assert(mask@ == mark_row(row_ok, iv as int, u as int, u + width));
                        assert(all.update(k as int, Quad { u, v, width, height: (height + 1) as usize, face })
                            == quads@.push(Quad { u, v, width, height: (height + 1) as usize, face }));
                    }
                    height += 1;
                    iv += 1;
                }
            }
            let q = Quad { u, v, width, height, face };
            proof {
                let all = quads@.push(q);
                assert forall|b: int| v <= b < v + height implies #[trigger] visited_of(
                    mask@[cell(u as int, b)].data,
                ) by {
                    assert(covers(all[k as int], u as int, b));
                }
                lemma_finish_quad(m0, mask@, quads@, q, owner);
                assert(greedy_quad(faces, quads@, q));
                lemma_push_greedy_quad(faces, quads@, q);
            }
            quads.push(q);
            v += height;
        }
        u += 1;
    }
    proof {
        assert forall|i: int| 0 <= i < 1024 implies visited_of(#[trigger] mask@[i].data)
            && mask@[i].data == with_visited(m0[i].data, true) by {
            let a = i / 32;
            let b = i % 32;
            assert(cell(a, b) == i);
            assert(in_mask(a, b));
        }
        assert forall|a: int, b: int|
            in_mask(a, b) && #[trigger] faces[cell(a, b)] is Some implies exists|kk: int|
            0 <= kk < quads@.len() && #[trigger] covers(quads@[kk], a, b) by {
            assert(visited_of(mask@[cell(a, b)].data));
            lemma_state_available(m0, mask@, quads@, owner, a, b);
            let o = owner[cell(a, b)];
            assert(covers(quads@[o], a, b));
        }
    }
    quads
}

/// The greedy quad after given quads is unique: two quads that both are the greedy quad after
/// `prefix` are equal.
pub proof fn lemma_greedy_quad_unique(faces: Seq<Option<u64>>, prefix: Seq<Quad>, x: Quad, y: Quad)
    requires
        greedy_quad(faces, prefix, x),
        greedy_quad(faces, prefix, y),
    ensures
        x == y,
{
    assert(covers(x, x.u as int, x.v as int));
    assert(covers(y, y.u as int, y.v as int));
    assert(available(faces, prefix, x.u as int, x.v as int));
    assert(available(faces, prefix, y.u as int, y.v as int));
    assert(x.u == y.u && x.v == y.v);
    assert(x.face.data == y.face.data);
    let u = x.u as int;
    let v = x.v as int;
    if x.width < y.width {
        assert(covers(y, u + x.width, v));
    }
    if y.width < x.width {
        assert(covers(x, u + y.width, v));
    }
    assert(x.width == y.width);
    if x.height < y.height {
        let a = choose|a: int|
            u <= a < u + x.width && !#[trigger] extends(faces, prefix, x.face.data, a, v + x.height);
        assert(covers(y, a, v + x.height));
    }
    if y.height < x.height {
        let a = choose|a: int|
            u <= a < u + y.width && !#[trigger] extends(faces, prefix, y.face.data, a, v + y.height);
        assert(covers(x, a, v + y.height));
    }
    assert(x.face == y.face);
}

/// Two greedy covers of the same cells agree on their first `n` quads.
proof fn lemma_greedy_prefix_equal(faces: Seq<Option<u64>>, q1: Seq<Quad>, q2: Seq<Quad>, n: int)
    requires
        is_greedy_cover(faces, q1),
        is_greedy_cover(faces, q2),
        0 <= n <= q1.len(),
        n <= q2.len(),
    ensures
        q1.take(n) == q2.take(n),
    decreases n,
{
    if n > 0 {
        lemma_greedy_prefix_equal(faces, q1, q2, n - 1);
        assert(greedy_quad(faces, q1.take(n - 1), q1[n - 1]));
        assert(greedy_quad(faces, q2.take(n - 1), q2[n - 1]));
        lemma_greedy_quad_unique(faces, q1.take(n - 1), q1[n - 1], q2[n - 1]);
        assert(q1.take(n) =~= q1.take(n - 1).push(q1[n - 1]));
        assert(q2.take(n) =~= q2.take(n - 1).push(q2[n - 1]));
    } else {
        assert(q1.take(0) =~= q2.take(0));
    }
}

/// The greedy cover of a mask is unique: two sequences of quads that both are greedy covers
/// of the same cells are equal.
pub proof fn lemma_greedy_cover_unique(faces: Seq<Option<u64>>, q1: Seq<Quad>, q2: Seq<Quad>)
    requires
        is_greedy_cover(faces, q1),
        is_greedy_cover(faces, q2),
    ensures
        q1 == q2,
{
    if q1.len() < q2.len() {
        let n = q1.len() as int;
        lemma_greedy_prefix_equal(faces, q1, q2, n);
        let q = q2[n];
        assert(greedy_quad(faces, q2.take(n), q));
        assert(covers(q, q.u as int, q.v as int));
        assert(available(faces, q2.take(n), q.u as int, q.v as int));
        assert(q1.take(n) =~= q1);
        let k = choose|k: int| 0 <= k < q1.len() && #[trigger] covers(q1[k], q.u as int, q.v as int);
        assert(q2.take(n)[k] == q1[k]);
    } else if q2.len() < q1.len() {
        let n = q2.len() as int;
        lemma_greedy_prefix_equal(faces, q1, q2, n);
        let q = q1[n];
        assert(greedy_quad(faces, q1.take(n), q));
        assert(covers(q, q.u as int, q.v as int));
        assert(available(faces, q1.take(n), q.u as int, q.v as int));
        assert(q2.take(n) =~= q2);
        let k = choose|k: int| 0 <= k < q2.len() && #[trigger] covers(q2[k], q.u as int, q.v as int);
        assert(q1.take(n)[k] == q2[k]);
    } else {
        lemma_greedy_prefix_equal(faces, q1, q2, q1.len() as int);
        assert(q1.take(q1.len() as int) =~= q1);
        assert(q2.take(q2.len() as int) =~= q2);
    }
}

/// The quads of a greedy cover lie in the mask, do not overlap, cover only cells holding their
/// face, and together cover every face.
pub proof fn lemma_greedy_cover_partition(faces: Seq<Option<u64>>, quads: Seq<Quad>)
    requires
        is_greedy_cover(faces, quads),
    ensures
        forall|k: int| 0 <= k < quads.len() ==> quad_in_mask(#[trigger] quads[k]),
        forall|k: int, a: int, b: int|
            0 <= k < quads.len() && #[trigger] covers(quads[k], a, b) ==> in_mask(a, b)
                && faces[cell(a, b)] == Some(quads[k].face.data),
        forall|k1: int, k2: int, a: int, b: int|
            0 <= k1 < quads.len() && 0 <= k2 < quads.len() && #[trigger] covers(quads[k1], a, b)
                && #[trigger] covers(quads[k2], a, b) ==> k1 == k2,
        forall|a: int, b: int|
            in_mask(a, b) && #[trigger] faces[cell(a, b)] is Some ==> exists|k: int|
                0 <= k < quads.len() && #[trigger] covers(quads[k], a, b),
{
    assert forall|k: int| 0 <= k < quads.len() implies quad_in_mask(#[trigger] quads[k]) by {
        assert(greedy_quad(faces, quads.take(k), quads[k]));
    }
    assert forall|k: int, a: int, b: int|
        0 <= k < quads.len() && #[trigger] covers(quads[k], a, b) implies in_mask(a, b)
        && faces[cell(a, b)] == Some(quads[k].face.data) by {
        assert(greedy_quad(faces, quads.take(k), quads[k]));
    }
    assert forall|k1: int, k2: int, a: int, b: int|
        0 <= k1 < quads.len() && 0 <= k2 < quads.len() && #[trigger] covers(quads[k1], a, b)
            && #[trigger] covers(quads[k2], a, b) implies k1 == k2 by {
        if k1 < k2 {
            assert(greedy_quad(faces, quads.take(k2), quads[k2]));
            assert(available(faces, quads.take(k2), a, b));
            assert(quads.take(k2)[k1] == quads[k1]);
        } else if k2 < k1 {
            assert(greedy_quad(faces, quads.take(k1), quads[k1]));
            assert(available(faces, quads.take(k1), a, b));
            assert(quads.take(k1)[k2] == quads[k2]);
        }
    }
}

/// The padded coordinates of the block before mask cell `(u, v)` of slice `s` along axis `a`
/// (0 for x, 1 for y, 2 for z): the cell's first coordinate is the next axis of x, y, z
/// that is not `a`, its second the last one.
pub open spec fn near_coords(a: int, s: int, u: int, v: int) -> (int, int, int) {
    if a == 0 {
        (s, u + 1, v + 1)
    } else if a == 1 {
        (u + 1, s, v + 1)
    } else {
        (u + 1, v + 1, s)
    }
}

/// The padded coordinates of the block after mask cell `(u, v)` of slice `s` along axis `a`.
pub open spec fn far_coords(a: int, s: int, u: int, v: int) -> (int, int, int) {
    if a == 0 {
        (s + 1, u + 1, v + 1)
    } else if a == 1 {
        (u + 1, s + 1, v + 1)
    } else {
        (u + 1, v + 1, s + 1)
    }
}

/// The block of padded blocks `pv` at padded coordinates `c`.
pub open spec fn block_of(pv: Seq<Block>, c: (int, int, int)) -> Block {
    pv[padded_index(c.0, c.1, c.2)]
}

/// The direction of a face seen from the negative side of axis `a`.
pub open spec fn negative_face(a: int) -> Direction {
    if a == 0 {
        Direction::Left
    } else if a == 1 {
        Direction::Below
    } else {
        Direction::Back
    }
}

/// The direction of a face seen from the positive side of axis `a`.
pub open spec fn positive_face(a: int) -> Direction {
    if a == 0 {
        Direction::Right
    } else if a == 1 {
        Direction::Above
    } else {
        Direction::Front
    }
}

/// The face, if any, between the two blocks on either side of mask cell `(u, v)` of slice `s`
/// along axis `a`: when exactly one of them is air, the face of the other, facing the air.
pub open spec fn slice_face(pv: Seq<Block>, a: int, s: int, u: int, v: int) -> Option<u64> {
    let near = block_of(pv, near_coords(a, s, u, v));
    let far = block_of(pv, far_coords(a, s, u, v));
    if near.id == 0 && far.id != 0 {
        Some(packed_face(false, far.id as u32, negative_face(a)))
    } else if near.id != 0 && far.id == 0 {
        Some(packed_face(false, near.id as u32, positive_face(a)))
    } else {
        None
    }
}

/// The flag, block id and direction packed in face data.
pub open spec fn face_fields(d: u64) -> (bool, u32, Direction) {
    (visited_of(d), block_id_of(d), direction_of_number(face_bits_of(d) as u8))
}

/// The face of a slice between the padded blocks `near` and `far` on either side of one mask
/// cell: none when both are air or both solid; when only `far` is solid, its face looking
/// back toward the negative side (`neg`), and when only `near` is, its face looking toward the
/// positive side (`pos`); never marked visited.
pub open spec fn face_between(near: Block, far: Block, neg: Direction, pos: Direction, f: Option<u64>) -> bool {
    if near.id == 0 && far.id != 0 {
        f is Some && face_fields(f.unwrap()) == (false, far.id as u32, neg)
    } else if near.id != 0 && far.id == 0 {
        f is Some && face_fields(f.unwrap()) == (false, near.id as u32, pos)
    } else {
        f is None
    }
}

/// Which blocks each mask cell `(u, v)` of slice `s` lies between, and which face it holds:
/// along x, padded blocks `(s, u + 1, v + 1)` and `(s + 1, u + 1, v + 1)`, with `Left` and
/// `Right` faces; along y, `(u + 1, s, v + 1)` and `(u + 1, s + 1, v + 1)`, with `Below` and
/// `Above`; along z, `(u + 1, v + 1, s)` and `(u + 1, v + 1, s + 1)`, with `Back` and `Front`.
pub proof fn lemma_slice_face_between(pv: Seq<Block>, s: int, u: int, v: int)
    ensures
        face_between(
            pv[padded_index(s, u + 1, v + 1)],
            pv[padded_index(s + 1, u + 1, v + 1)],
            Direction::Left,
            Direction::Right,
            slice_face(pv, 0, s, u, v),
        ),
        face_between(
            pv[padded_index(u + 1, s, v + 1)],
            pv[padded_index(u + 1, s + 1, v + 1)],
            Direction::Below,
            Direction::Above,
            slice_face(pv, 1, s, u, v),
        ),
        face_between(
            pv[padded_index(u + 1, v + 1, s)],
            pv[padded_index(u + 1, v + 1, s + 1)],
            Direction::Back,
            Direction::Front,
            slice_face(pv, 2, s, u, v),
        ),
{
    let ds = seq![
        Direction::Left,
        Direction::Right,
        Direction::Below,
        Direction::Above,
        Direction::Back,
        Direction::Front,
    ];
    assert forall|i: int, id: u32| 0 <= i < 6 implies face_fields(
        #[trigger] packed_face(false, id, ds[i]),
    ) == (false, id, ds[i]) by {
        lemma_direction_number_round_trip(ds[i], 0);
        lemma_packed_fields(false, id, direction_number(ds[i]) as u64);
    }
    assert(ds[0] == Direction::Left && ds[1] == Direction::Right && ds[2] == Direction::Below
        && ds[3] == Direction::Above && ds[4] == Direction::Back && ds[5] == Direction::Front);
}

/// The faces of slice `s` along axis `a`, cell by cell, cell `i` being `(i / 32, i % 32)`.
pub open spec fn slice_faces(pv: Seq<Block>, a: int, s: int) -> Seq<Option<u64>> {
    Seq::new(1024, |i: int| slice_face(pv, a, s, i / 32, i % 32))
}

/// A face of a slice is never marked visited.
pub proof fn lemma_slice_face_unvisited(pv: Seq<Block>, a: int, s: int, x: int, y: int)
    requires
        slice_face(pv, a, s, x, y) is Some,
    ensures
        !visited_of(slice_face(pv, a, s, x, y).unwrap()),
        face_bits_of(slice_face(pv, a, s, x, y).unwrap()) < 6,
{
    let near = block_of(pv, near_coords(a, s, x, y));
    let far = block_of(pv, far_coords(a, s, x, y));
    if near.id == 0 && far.id != 0 {
        lemma_packed_fields(false, far.id as u32, direction_number(negative_face(a)) as u64);
    } else {
        lemma_packed_fields(false, near.id as u32, direction_number(positive_face(a)) as u64);
    }
}

/// The vertex at `(x, y, z)` with texture coordinate word 0.
pub open spec fn grid_vertex(x: int, y: int, z: int) -> GridVertex {
    GridVertex { x: x as i32, y: y as i32, z: z as i32, uv: 0 }
}

/// The two triangles (six vertices) drawn for quad `q` of slice `s` along axis `a`, in a chunk
/// whose first block is at world coordinates `(ox, oy, oz)`; their winding depends on which
/// side the face looks to.
pub open spec fn quad_vertices(a: int, s: int, q: Quad, ox: int, oy: int, oz: int) -> Seq<GridVertex> {
    let u = q.u as int;
    let v = q.v as int;
    let w = q.width as int;
    let h = q.height as int;
    let dir = direction_of_number(face_bits_of(q.face.data) as u8);
    if a == 0 {
        let x = s + ox;
        let v1 = grid_vertex(x, u + oy, v + oz);
        let v2 = grid_vertex(x, u + w + oy, v + h + oz);
        let v3 = grid_vertex(x, u + w + oy, v + oz);
        let v4 = grid_vertex(x, u + oy, v + h + oz);
        if dir == Direction::Left {
            seq![v1, v2, v3, v1, v4, v2]
        } else {
            seq![v1, v3, v2, v1, v2, v4]
        }
    } else if a == 1 {
        let y = s + oy;
        let v1 = grid_vertex(u + ox, y, v + oz);
        let v2 = grid_vertex(u + w + ox, y, v + h + oz);
        let v3 = grid_vertex(u + w + ox, y, v + oz);
        let v4 = grid_vertex(u + ox, y, v + h + oz);
        if dir == Direction::Above {
            seq![v1, v2, v3, v1, v4, v2]
        } else {
            seq![v1, v3, v2, v1, v2, v4]
        }
    } else {
        let z = s + oz;
        let v1 = grid_vertex(u + ox, v + oy, z);
        let v2 = grid_vertex(u + w + ox, v + oy, z);
        let v3 = grid_vertex(u + w + ox, v + h + oy, z);
        let v4 = grid_vertex(u + ox, v + h + oy, z);
        if dir == Direction::Front {
            seq![v1, v2, v3, v1, v3, v4]
        } else {
            seq![v1, v3, v2, v1, v4, v3]
        }
    }
}

/// Corner `(u + du w, v + dv h)` (`du`, `dv` in `{0, 1}`) of quad `q` of slice `s` along axis
/// `a`, in world coordinates for a chunk whose first block is at `(ox, oy, oz)`: a slice along x
/// lies at x = s with the mask's first coordinate along y and its second along z; one along y
/// at y = s with them along x and z; one along z at z = s with them along x and y.
pub open spec fn quad_corner(a: int, s: int, q: Quad, ox: int, oy: int, oz: int, du: int, dv: int) -> GridVertex {
    let p = q.u + du * q.width;
    let r = q.v + dv * q.height;
    if a == 0 {
        GridVertex { x: (s + ox) as i32, y: (p + oy) as i32, z: (r + oz) as i32, uv: 0 }
    } else if a == 1 {
        GridVertex { x: (p + ox) as i32, y: (s + oy) as i32, z: (r + oz) as i32, uv: 0 }
    } else {
        GridVertex { x: (p + ox) as i32, y: (r + oy) as i32, z: (s + oz) as i32, uv: 0 }
    }
}

/// Whether vertex `p` is not one of the three vertices of triangle `t` (0 or 1) of `vs`.
pub open spec fn misses(vs: Seq<GridVertex>, t: int, p: GridVertex) -> bool {
    p != vs[3 * t] && p != vs[3 * t + 1] && p != vs[3 * t + 2]
}

/// The six vertices drawn for a quad are two proper triangles that tile its rectangle: each
/// vertex is a corner of the rectangle, each triangle has three distinct corners, and the
/// corners the two triangles leave out are opposite, so the triangles share a diagonal and
/// together cover the whole rectangle.
pub proof fn lemma_quad_vertices_tile(a: int, s: int, q: Quad, ox: int, oy: int, oz: int)
    requires
        0 <= a < 3,
        0 <= s <= 32,
        quad_in_mask(q),
        i32::MIN <= ox && ox + 32 <= i32::MAX,
        i32::MIN <= oy && oy + 32 <= i32::MAX,
        i32::MIN <= oz && oz + 32 <= i32::MAX,
    ensures
        ({
            let vs = quad_vertices(a, s, q, ox, oy, oz);
            let c00 = quad_corner(a, s, q, ox, oy, oz, 0, 0);
            let c10 = quad_corner(a, s, q, ox, oy, oz, 1, 0);
            let c11 = quad_corner(a, s, q, ox, oy, oz, 1, 1);
            let c01 = quad_corner(a, s, q, ox, oy, oz, 0, 1);
            &&& vs.len() == 6
            &&& forall|i: int|
                0 <= i < 6 ==> #[trigger] vs[i] == c00 || vs[i] == c10 || vs[i] == c11 || vs[i]
                    == c01
            &&& vs[0] != vs[1] && vs[1] != vs[2] && vs[0] != vs[2]
            &&& vs[3] != vs[4] && vs[4] != vs[5] && vs[3] != vs[5]
            &&& (misses(vs, 0, c00) && misses(vs, 1, c11)) || (misses(vs, 0, c11) && misses(vs, 1, c00))
                || (misses(vs, 0, c10) && misses(vs, 1, c01)) || (misses(vs, 0, c01) && misses(
                vs,
                1,
                c10,
            ))
        }),
{
    let vs = quad_vertices(a, s, q, ox, oy, oz);
    assert(vs.len() == 6);
    assert forall|i: int| 0 <= i < 6 implies #[trigger] vs[i] == quad_corner(a, s, q, ox, oy, oz, 0, 0)
        || vs[i] == quad_corner(a, s, q, ox, oy, oz, 1, 0) || vs[i] == quad_corner(a, s, q, ox, oy, oz, 1, 1)
        || vs[i] == quad_corner(a, s, q, ox, oy, oz, 0, 1) by {
        assert(i == 0 || i == 1 || i == 2 || i == 3 || i == 4 || i == 5);
    }
}

/// The normal `(b - a) x (c - a)` of triangle `(a, b, c)`, whose direction the triangle faces
/// (counter-clockwise winding seen from that side).
pub open spec fn triangle_normal(a: GridVertex, b: GridVertex, c: GridVertex) -> (int, int, int) {
    let (e1x, e1y, e1z) = (b.x - a.x, b.y - a.y, b.z - a.z);
    let (e2x, e2y, e2z) = (c.x - a.x, c.y - a.y, c.z - a.z);
    (e1y * e2z - e1z * e2y, e1z * e2x - e1x * e2z, e1x * e2y - e1y * e2x)
}

/// Both triangles drawn for a quad face the side its face looks to: along x, toward -x for a
/// `Left` face and +x otherwise; along y, toward +y for an `Above` face and -y otherwise;
/// along z, toward +z for a `Front` face and -z otherwise.
pub proof fn lemma_quad_vertices_facing(a: int, s: int, q: Quad, ox: int, oy: int, oz: int, t: int)
    requires
        0 <= a < 3,
        0 <= s <= 32,
        quad_in_mask(q),
        i32::MIN <= ox && ox + 32 <= i32::MAX,
        i32::MIN <= oy && oy + 32 <= i32::MAX,
        i32::MIN <= oz && oz + 32 <= i32::MAX,
        t == 0 || t == 1,
    ensures
        ({
            let vs = quad_vertices(a, s, q, ox, oy, oz);
            let n = triangle_normal(vs[3 * t], vs[3 * t + 1], vs[3 * t + 2]);
            let dir = direction_of_number(face_bits_of(q.face.data) as u8);
            &&& a == 0 ==> n.1 == 0 && n.2 == 0 && (if dir == Direction::Left {
                n.0 < 0
            } else {
                n.0 > 0
            })
            &&& a == 1 ==> n.0 == 0 && n.2 == 0 && (if dir == Direction::Above {
                n.1 > 0
            } else {
                n.1 < 0
            })
            &&& a == 2 ==> n.0 == 0 && n.1 == 0 && (if dir == Direction::Front {
                n.2 > 0
            } else {
                n.2 < 0
            })
        }),
{
    let w = q.width as int;
    let h = q.height as int;
    assert(w * h > 0 && h * w == w * h) by (nonlinear_arith)
        requires
            w >= 1,
            h >= 1,
    ;
    let vs = quad_vertices(a, s, q, ox, oy, oz);
    let pa = vs[3 * t];
    let pb = vs[3 * t + 1];
    let pc = vs[3 * t + 2];
    let (e1x, e1y, e1z) = (pb.x - pa.x, pb.y - pa.y, pb.z - pa.z);
    let (e2x, e2y, e2z) = (pc.x - pa.x, pc.y - pa.y, pc.z - pa.z);
    assert(triangle_normal(pa, pb, pc) == (e1y * e2z - e1z * e2y, e1z * e2x - e1x * e2z, e1x * e2y
        - e1y * e2x));
    assert forall|m: int, n: int| (m == 0 || n == 0) implies #[trigger] (m * n) == 0 by {}
    assert forall|m: int, n: int|
        (m == w || m == -w) && (n == h || n == -h) implies #[trigger] (m * n) == (if (m > 0) == (n
        > 0) {
        w * h
    } else {
        -(w * h)
    }) by {
        if m == w && n == h {
        } else if m == w {
            assert(w * (-h) == -(w * h)) by (nonlinear_arith);
        } else if n == h {
            assert((-w) * h == -(w * h)) by (nonlinear_arith);
        } else {
            assert((-w) * (-h) == w * h) by (nonlinear_arith);
        }
    }
    assert forall|m: int, n: int|
        (m == h || m == -h) && (n == w || n == -w) implies #[trigger] (m * n) == (if (m > 0) == (n
        > 0) {
        w * h
    } else {
        -(w * h)
    }) by {
        if m == h && n == w {
        } else if m == h {
            assert(h * (-w) == -(w * h)) by (nonlinear_arith)
                requires
                    h * w == w * h,
            ;
        } else if n == w {
            assert((-h) * w == -(w * h)) by (nonlinear_arith)
                requires
                    h * w == w * h,
            ;
        } else {
            assert((-h) * (-w) == w * h) by (nonlinear_arith)
                requires
                    h * w == w * h,
            ;
        }
    }
}

/// The vertices of all quads of a slice, in order.
pub open spec fn slice_vertices(a: int, s: int, quads: Seq<Quad>, ox: int, oy: int, oz: int) -> Seq<
    GridVertex,
>
    decreases quads.len(),
{
    if quads.len() == 0 {
        Seq::empty()
    } else {
        slice_vertices(a, s, quads.drop_last(), ox, oy, oz) + quad_vertices(
            a,
            s,
            quads.last(),
            ox,
            oy,
            oz,
        )
    }
}

/// The vertices of the slices whose quads are `parts`, slice `t` being slice `t % 33` along
/// axis `t / 33`, in order.
pub open spec fn mesh_vertices(parts: Seq<Seq<Quad>>, ox: int, oy: int, oz: int) -> Seq<GridVertex>
    decreases parts.len(),
{
    if parts.len() == 0 {
        Seq::empty()
    } else {
        let t = parts.len() - 1;
        mesh_vertices(parts.drop_last(), ox, oy, oz) + slice_vertices(
            t / 33,
            t % 33,
            parts.last(),
            ox,
            oy,
            oz,
        )
    }
}

/// Whether `vertices` is a greedy mesh of the padded blocks `pv` for a chunk whose first block
/// is at `(ox, oy, oz)`: for each axis (x, then y, then z) and each of its 33 slices, the faces
/// of the slice are merged into the rectangles of their greedy cover (see [`is_greedy_cover`]),
/// and the vertices are the two triangles of each rectangle, slice after slice.
pub open spec fn is_greedy_mesh(pv: Seq<Block>, ox: int, oy: int, oz: int, vertices: Seq<GridVertex>) -> bool {
    exists|parts: Seq<Seq<Quad>>|
        #![trigger mesh_vertices(parts, ox, oy, oz)]
        parts.len() == 99 && (forall|t: int|
            0 <= t < 99 ==> is_greedy_cover(slice_faces(pv, t / 33, t % 33), #[trigger] parts[t]))
            && vertices == mesh_vertices(parts, ox, oy, oz)
}

/// The greedy mesh of padded blocks is unique: two vertex sequences that both are greedy
/// meshes of the same padded blocks at the same place are equal.
pub proof fn lemma_greedy_mesh_unique(
    pv: Seq<Block>,
    ox: int,
    oy: int,
    oz: int,
    v1: Seq<GridVertex>,
    v2: Seq<GridVertex>,
)
    requires
        is_greedy_mesh(pv, ox, oy, oz, v1),
        is_greedy_mesh(pv, ox, oy, oz, v2),
    ensures
        v1 == v2,
{
    let p1 = choose|parts: Seq<Seq<Quad>>|
        #![trigger mesh_vertices(parts, ox, oy, oz)]
        parts.len() == 99 && (forall|t: int|
            0 <= t < 99 ==> is_greedy_cover(slice_faces(pv, t / 33, t % 33), #[trigger] parts[t]))
            && v1 == mesh_vertices(parts, ox, oy, oz);
    let p2 = choose|parts: Seq<Seq<Quad>>|
        #![trigger mesh_vertices(parts, ox, oy, oz)]
        parts.len() == 99 && (forall|t: int|
            0 <= t < 99 ==> is_greedy_cover(slice_faces(pv, t / 33, t % 33), #[trigger] parts[t]))
            && v2 == mesh_vertices(parts, ox, oy, oz);
    assert forall|t: int| 0 <= t < 99 implies #[trigger] p1[t] == p2[t] by {
        lemma_greedy_cover_unique(slice_faces(pv, t / 33, t % 33), p1[t], p2[t]);
    }
    assert(p1 =~= p2);
}

/// The blocks on either side of mask cell `(u, v)` of slice `s` along axis `axis`.
fn boundary_blocks(p: &PaddedChunk, axis: usize, s: i32, u: i32, v: i32) -> (r: (Block, Block))
    requires
        axis < 3,
        0 <= s <= 32,
        in_mask(u as int, v as int),
    ensures
        r.0 == block_of(p@, near_coords(axis as int, s as int, u as int, v as int)),
        r.1 == block_of(p@, far_coords(axis as int, s as int, u as int, v as int)),
{
    if axis == 0 {
        (p.get_block_from_xyz(s, u + 1, v + 1), p.get_block_from_xyz(s + 1, u + 1, v + 1))
    } else if axis == 1 {
        (p.get_block_from_xyz(u + 1, s, v + 1), p.get_block_from_xyz(u + 1, s + 1, v + 1))
    } else {
        (p.get_block_from_xyz(u + 1, v + 1, s), p.get_block_from_xyz(u + 1, v + 1, s + 1))
    }
}

/// Writes into `mask` the faces of slice `s` along axis `axis`; cells with no face keep their
/// (visited) content.
fn build_mask(p: &PaddedChunk, axis: usize, s: i32, mask: &mut Vec<FaceMask>)
    requires
        axis < 3,
        0 <= s <= 32,
        old(mask).len() == 1024,
        forall|i: int| 0 <= i < 1024 ==> visited_of(#[trigger] old(mask)@[i].data),
    ensures
        final(mask).len() == 1024,
        mask_faces(final(mask)@) == slice_faces(p@, axis as int, s as int),
{
    let mut u: i32 = 0;
    while u < CHUNK_SIZE
        invariant
            axis < 3,
            0 <= s <= 32,
            0 <= u <= 32,
            mask@.len() == 1024,
            forall|x: int, y: int|
                #![trigger mask@[cell(x, y)]]
                in_mask(x, y) ==> if x < u {
                    match slice_face(p@, axis as int, s as int, x, y) {
                        Some(d) => mask@[cell(x, y)].data == d,
                        None => visited_of(mask@[cell(x, y)].data),
                    }
                } else {
                    visited_of(mask@[cell(x, y)].data)
                },
        decreases 32 - u,
    {
        let mut v: i32 = 0;
        while v < CHUNK_SIZE
            invariant
                axis < 3,
                0 <= s <= 32,
                0 <= u < 32,
                0 <= v <= 32,
                mask@.len() == 1024,
                forall|x: int, y: int|
                    #![trigger mask@[cell(x, y)]]
                    in_mask(x, y) ==> if x < u || (x == u && y < v) {
                        match slice_face(p@, axis as int, s as int, x, y) {
                            Some(d) => mask@[cell(x, y)].data == d,
                            None => visited_of(mask@[cell(x, y)].data),
                        }
                    } else {
                        visited_of(mask@[cell(x, y)].data)
                    },
            decreases 32 - v,
        {
            let ghost before = mask@;
            let (previous, current) = boundary_blocks(p, axis, s, u, v);
            let idx = (u as usize) * 32 + (v as usize);
            if previous.is_air() && !current.is_air() {
                let face = if axis == 0 {
                    Direction::Left
                } else if axis == 1 {
                    Direction::Below
                } else {
                    Direction::Back
                };
                mask.set(idx, FaceMask::from(false, current.id as u32, face));
            } else if !previous.is_air() && current.is_air() {
                let face = if axis == 0 {
                    Direction::Right
                } else if axis == 1 {
                    Direction::Above
                } else {
                    Direction::Front
                };
                mask.set(idx, FaceMask::from(false, previous.id as u32, face));
            }
            proof {
                assert forall|x: int, y: int| in_mask(x, y) && (x, y) != (u as int, v as int)
                    implies #[trigger] mask@[cell(x, y)] == before[cell(x, y)] by {
                    if cell(x, y) == cell(u as int, v as int) {
                        lemma_cell_injective(x, y, u as int, v as int);
                    }
                }
            }
            v += 1;
        }
        u += 1;
    }
    proof {
        let faces = slice_faces(p@, axis as int, s as int);
        assert forall|i: int| 0 <= i < 1024 implies #[trigger] mask_faces(mask@)[i] == faces[i] by {
            let x = i / 32;
            let y = i % 32;
            assert(cell(x, y) == i);
            assert(in_mask(x, y));
            assert(mask@[cell(x, y)] == mask@[cell(x, y)]);
            if slice_face(p@, axis as int, s as int, x, y) is Some {
                lemma_slice_face_unvisited(p@, axis as int, s as int, x, y);
            }
        }
        assert(mask_faces(mask@) =~= faces);
    }
}

/// Appends the two triangles of quad `q` of slice `s` along axis `axis`.
fn push_quad(
    vertices: &mut Vec<GridVertex>,
    axis: usize,
    s: i32,
    q: Quad,
    offset_x: i32,
    offset_y: i32,
    offset_z: i32,
)
    requires
        axis < 3,
        0 <= s <= 32,
        quad_in_mask(q),
        face_bits_of(q.face.data) < 6,
        i32::MIN <= offset_x && offset_x + 32 <= i32::MAX,
        i32::MIN <= offset_y && offset_y + 32 <= i32::MAX,
        i32::MIN <= offset_z && offset_z + 32 <= i32::MAX,
    ensures
        final(vertices)@ == old(vertices)@ + quad_vertices(
            axis as int,
            s as int,
            q,
            offset_x as int,
            offset_y as int,
            offset_z as int,
        ),
{
    let face = q.face;
    let u = q.u as i32;
    let v = q.v as i32;
    let quad_u = q.width as i32;
    let quad_v = q.height as i32;
    let ghost start = vertices@;
    if axis == 0 {
        let is_left_face = face.get_face() == Direction::Left;
        let x = s + offset_x;
        let y0 = u + offset_y;
        let y1 = u + quad_u + offset_y;
        let z0 = v + offset_z;
        let z1 = v + quad_v + offset_z;
        let v1 = GridVertex::new(x, y0, z0, 0);
        let v2 = GridVertex::new(x, y1, z1, 0);
        let v3 = GridVertex::new(x, y1, z0, 0);
        let v4 = GridVertex::new(x, y0, z1, 0);
        if is_left_face {
            vertices.push(v1);
            vertices.push(v2);
            vertices.push(v3);
            vertices.push(v1);
            vertices.push(v4);
            vertices.push(v2);
            assert(vertices@ =~= start + seq![v1, v2, v3, v1, v4, v2]);
        } else {
            vertices.push(v1);
            vertices.push(v3);
            vertices.push(v2);
            vertices.push(v1);
            vertices.push(v2);
            vertices.push(v4);
            assert(vertices@ =~= start + seq![v1, v3, v2, v1, v2, v4]);
        }
    } else if axis == 1 {
        let is_above_face = face.get_face() == Direction::Above;
        let y = s + offset_y;
        let x0 = u + offset_x;
        let x1 = u + quad_u + offset_x;
        let z0 = v + offset_z;
        let z1 = v + quad_v + offset_z;
        let v1 = GridVertex::new(x0, y, z0, 0);
        let v2 = GridVertex::new(x1, y, z1, 0);
        let v3 = GridVertex::new(x1, y, z0, 0);
        let v4 = GridVertex::new(x0, y, z1, 0);
        if is_above_face {
            vertices.push(v1);
            vertices.push(v2);
            vertices.push(v3);
            vertices.push(v1);
            vertices.push(v4);
            vertices.push(v2);
            assert(vertices@ =~= start + seq![v1, v2, v3, v1, v4, v2]);
        } else {
            vertices.push(v1);
            vertices.push(v3);
            vertices.push(v2);
            vertices.push(v1);
            vertices.push(v2);
            vertices.push(v4);
            assert(vertices@ =~= start + seq![v1, v3, v2, v1, v2, v4]);
        }
    } else {
        let is_front = face.get_face() == Direction::Front;
        let z = s + offset_z;
        let x0 = u + offset_x;
        let x1 = u + quad_u + offset_x;
        let y0 = v + offset_y;
        let y1 = v + quad_v + offset_y;
        let v1 = GridVertex::new(x0, y0, z, 0);
        let v2 = GridVertex::new(x1, y0, z, 0);
        let v3 = GridVertex::new(x1, y1, z, 0);
        let v4 = GridVertex::new(x0, y1, z, 0);
        if is_front {
            vertices.push(v1);
            vertices.push(v2);
            vertices.push(v3);
            vertices.push(v1);
            vertices.push(v3);
            vertices.push(v4);
            assert(vertices@ =~= start + seq![v1, v2, v3, v1, v3, v4]);
        } else {
            vertices.push(v1);
            vertices.push(v3);
            vertices.push(v2);
            vertices.push(v1);
            vertices.push(v4);
            vertices.push(v3);
            assert(vertices@ =~= start + seq![v1, v3, v2, v1, v4, v3]);
        }
    }
}

/// The face of every quad of the greedy cover of a slice holds a direction number.
pub proof fn lemma_cover_faces_valid(pv: Seq<Block>, a: int, s: int, quads: Seq<Quad>, k: int)
    requires
        is_greedy_cover(slice_faces(pv, a, s), quads),
        0 <= k < quads.len(),
    ensures
        quad_in_mask(quads[k]),
        face_bits_of(quads[k].face.data) < 6,
{
    let q = quads[k];
    assert(greedy_quad(slice_faces(pv, a, s), quads.take(k), q));
    assert(covers(q, q.u as int, q.v as int));
    lemma_cell_div_mod(q.u as int, q.v as int);
    lemma_slice_face_unvisited(pv, a, s, q.u as int, q.v as int);
}

/// Builds the greedy mesh of a padded chunk: for each axis (x, then y, then z) and each of its
/// 33 slices, the faces between a block and air are gathered in a mask, merged into rectangles
/// by [`greedy_slice`], and each rectangle becomes two triangles. The chunk's first block is at
/// world coordinates `(32 cx, 32 cy, 32 cz)`.
pub fn mesh_padded_chunk(padded_chunk: &PaddedChunk, cx: i32, cy: i32, cz: i32) -> (vertices: Vec<
    GridVertex,
>)
    requires
        i32::MIN <= cx * 32 && cx * 32 + 32 <= i32::MAX,
        i32::MIN <= cy * 32 && cy * 32 + 32 <= i32::MAX,
        i32::MIN <= cz * 32 && cz * 32 + 32 <= i32::MAX,
    ensures
        is_greedy_mesh(padded_chunk@, cx * 32, cy * 32, cz * 32, vertices@),
{
    let mut vertices: Vec<GridVertex> = Vec::new();
    let offset_x = cx * CHUNK_SIZE;
    let offset_y = cy * CHUNK_SIZE;
    let offset_z = cz * CHUNK_SIZE;
    let ghost off = (offset_x as int, offset_y as int, offset_z as int);
    let ghost pv = padded_chunk@;
    let mut mask: Vec<FaceMask> = Vec::new();
    let mut i: usize = 0;
    while i < 1024
        invariant
            i <= 1024,
            mask@.len() == i,
            forall|j: int| 0 <= j < i ==> visited_of(#[trigger] mask@[j].data),
        decreases 1024 - i,
    {
        mask.push(FaceMask::empty());
        i += 1;
    }
    let ghost mut parts: Seq<Seq<Quad>> = Seq::empty();
    let mut axis: usize = 0;
    while axis < 3
        invariant
            axis <= 3,
            parts.len() == axis * 33,
            mask@.len() == 1024,
            forall|j: int| 0 <= j < 1024 ==> visited_of(#[trigger] mask@[j].data),
            forall|t: int|
                0 <= t < parts.len() ==> is_greedy_cover(slice_faces(pv, t / 33, t % 33), #[trigger] parts[t]),
            vertices@ == mesh_vertices(parts, off.0, off.1, off.2),
            pv == padded_chunk@,
            off == (offset_x as int, offset_y as int, offset_z as int),
            offset_x == cx * 32 && offset_y == cy * 32 && offset_z == cz * 32,
            i32::MIN <= cx * 32 && cx * 32 + 32 <= i32::MAX,
            i32::MIN <= cy * 32 && cy * 32 + 32 <= i32::MAX,
            i32::MIN <= cz * 32 && cz * 32 + 32 <= i32::MAX,
        decreases 3 - axis,
    {
        let mut s: i32 = 0;
        while s <= CHUNK_SIZE
            invariant
                axis < 3,
                0 <= s <= 33,
                parts.len() == axis * 33 + s,
                mask@.len() == 1024,
                forall|j: int| 0 <= j < 1024 ==> visited_of(#[trigger] mask@[j].data),
                forall|t: int|
                0 <= t < parts.len() ==> is_greedy_cover(slice_faces(pv, t / 33, t % 33), #[trigger] parts[t]),
                vertices@ == mesh_vertices(parts, off.0, off.1, off.2),
                pv == padded_chunk@,
                off == (offset_x as int, offset_y as int, offset_z as int),
                offset_x == cx * 32 && offset_y == cy * 32 && offset_z == cz * 32,
                i32::MIN <= cx * 32 && cx * 32 + 32 <= i32::MAX,
                i32::MIN <= cy * 32 && cy * 32 + 32 <= i32::MAX,
                i32::MIN <= cz * 32 && cz * 32 + 32 <= i32::MAX,
            decreases 33 - s,
        {
            build_mask(padded_chunk, axis, s, &mut mask);
            let quads = greedy_slice(&mut mask);
            let ghost base = vertices@;
            let mut k: usize = 0;
            while k < quads.len()
                invariant
                    axis < 3,
                    0 <= s <= 32,
                    k <= quads.len(),
                    is_greedy_cover(slice_faces(pv, axis as int, s as int), quads@),
                    vertices@ == base + slice_vertices(
                        axis as int,
                        s as int,
                        quads@.take(k as int),
                        off.0,
                        off.1,
                        off.2,
                    ),
                    off == (offset_x as int, offset_y as int, offset_z as int),
                    i32::MIN <= offset_x && offset_x + 32 <= i32::MAX,
                    i32::MIN <= offset_y && offset_y + 32 <= i32::MAX,
                    i32::MIN <= offset_z && offset_z + 32 <= i32::MAX,
                decreases quads.len() - k,
            {
                proof {
                    lemma_cover_faces_valid(pv, axis as int, s as int, quads@, k as int);
                    assert(quads@.take(k + 1).drop_last() =~= quads@.take(k as int));
                }
                push_quad(&mut vertices, axis, s, quads[k], offset_x, offset_y, offset_z);
                k += 1;
                proof {
                    assert(vertices@ =~= base + slice_vertices(
                        axis as int,
                        s as int,
                        quads@.take(k as int),
                        off.0,
                        off.1,
                        off.2,
                    ));
                }
            }
            proof {
                assert(quads@.take(quads@.len() as int) =~= quads@);
                let t = parts.len() as int;
                let parts2 = parts.push(quads@);
                assert(parts2.drop_last() =~= parts);
                assert(t / 33 == axis as int && t % 33 == s as int);
                parts = parts2;
            }
            s += 1;
        }
        axis += 1;
    }
    proof {
        assert(parts.len() == 99);
    }
    vertices
}

/// The greedy mesh of `chunk`, placed at chunk coordinates `(cx, cy, cz)`: the mesh of its
/// padded copy within `world` (see [`mesh_padded_chunk`]).
pub fn make_greedy(chunk: &Chunk, world: &World, cx: i32, cy: i32, cz: i32) -> (vertices: Vec<
    GridVertex,
>)
    requires
        i32::MIN < chunk.coords().0 < i32::MAX,
        i32::MIN < chunk.coords().1 < i32::MAX,
        i32::MIN < chunk.coords().2 < i32::MAX,
        i32::MIN <= cx * 32 && cx * 32 + 32 <= i32::MAX,
        i32::MIN <= cy * 32 && cy * 32 + 32 <= i32::MAX,
        i32::MIN <= cz * 32 && cz * 32 + 32 <= i32::MAX,
    ensures
        exists|pv: Seq<Block>|
            is_padded_copy(pv, *chunk, world@) && is_greedy_mesh(
                pv,
                cx * 32,
                cy * 32,
                cz * 32,
                vertices@,
            ),
{
    let padded_chunk = PaddedChunk::new(chunk, world);
    mesh_padded_chunk(&padded_chunk, cx, cy, cz)
}

} // verus!
