use ascendustry::engine::render::geometry::{Direction, FaceMask, GridVertex};
use ascendustry::engine::render::mesh::chunk::{pack_vertex_ao, unpack_vertex_ao, vertex_ao};
use ascendustry::engine::render::mesh::{greedy_slice, make_greedy, mesh_padded_chunk};
use ascendustry::world::{Block, Chunk, PaddedChunk, World};

fn v(x: i32, y: i32, z: i32) -> GridVertex {
    GridVertex::new(x, y, z, 0)
}

#[test]
fn greedy_slice_merges_equal_faces() {
    let mut mask = vec![FaceMask::empty(); 1024];
    let face = FaceMask::from(false, 3, Direction::Left);
    let other = FaceMask::from(false, 4, Direction::Left);
    // A 2 x 3 block of one face at (1..3, 2..5), and one cell of another face at (1, 5).
    for u in 1..3 {
        for w in 2..5 {
            mask[u * 32 + w] = face;
        }
    }
    mask[32 + 5] = other;
    let quads = greedy_slice(&mut mask);
    assert!(mask.iter().all(|m| m.get_visited()));
    assert_eq!(quads.len(), 2);
    assert_eq!((quads[0].u, quads[0].v, quads[0].width, quads[0].height), (1, 2, 2, 3));
    assert_eq!(quads[0].face.data, face.data);
    assert_eq!((quads[1].u, quads[1].v, quads[1].width, quads[1].height), (1, 5, 1, 1));
    assert_eq!(quads[1].face.data, other.data);
}

#[test]
fn greedy_slice_first_grows_along_first_coordinate() {
    let mut mask = vec![FaceMask::empty(); 1024];
    let face = FaceMask::from(false, 1, Direction::Above);
    // An L shape: cells (0, 0), (1, 0), (0, 1).
    mask[0] = face;
    mask[32] = face;
    mask[1] = face;
    let quads = greedy_slice(&mut mask);
    assert_eq!(quads.len(), 2);
    assert_eq!((quads[0].u, quads[0].v, quads[0].width, quads[0].height), (0, 0, 2, 1));
    assert_eq!((quads[1].u, quads[1].v, quads[1].width, quads[1].height), (0, 1, 1, 1));
}

#[test]
fn empty_chunk_has_no_mesh() {
    let p = PaddedChunk::empty();
    assert!(mesh_padded_chunk(&p, 0, 0, 0).is_empty());
}

#[test]
fn flat_chunk_mesh() {
    let world = World::new();
    let chunk = Chunk::generate(0, 0, 0);
    let vertices = make_greedy(&chunk, &world, 0, 0, 0);
    // Six faces of the slab, each a single quad of two triangles.
    assert_eq!(vertices.len(), 36);
    // X axis, slice 0: the slab's -X side, one block high and 32 deep.
    assert_eq!(&vertices[0..6], &[v(0, 0, 0), v(0, 1, 32), v(0, 1, 0), v(0, 0, 0), v(0, 0, 32), v(0, 1, 32)]);
    // Y axis, slice 0: the bottom, seen from below.
    assert_eq!(&vertices[12..18], &[v(0, 0, 0), v(32, 0, 0), v(32, 0, 32), v(0, 0, 0), v(32, 0, 32), v(0, 0, 32)]);
    // Y axis, slice 1: the top, seen from above.
    assert_eq!(&vertices[18..24], &[v(0, 1, 0), v(32, 1, 32), v(32, 1, 0), v(0, 1, 0), v(0, 1, 32), v(32, 1, 32)]);
}

#[test]
fn chunk_offsets_move_the_mesh() {
    let world = World::new();
    let mut chunk = Chunk::generate(2, -1, 0);
    // Clear the slab and place a single block.
    for x in 0..32 {
        for z in 0..32 {
            chunk.set_block_from_xyz(x, 0, z, Block::air());
        }
    }
    chunk.set_block_from_xyz(3, 4, 5, Block::new(8));
    let vertices = make_greedy(&chunk, &world, 2, -1, 0);
    assert_eq!(vertices.len(), 36);
    // The -X face of the block: slice x = 3 in padded coordinates, i.e. world x = 64 + 3.
    assert_eq!(vertices[0], v(67, -32 + 4, 5));
}

#[test]
fn neighbour_hides_shared_face() {
    let mut world = World::new();
    world.set_chunk(0, -1, 0, Chunk::generate(0, -1, 0));
    let mut below = Chunk::generate(0, -1, 0);
    for x in 0..32 {
        for z in 0..32 {
            below.set_block_from_xyz(x, 31, z, Block::new(1));
        }
    }
    world.set_chunk(0, -1, 0, below);
    let chunk = Chunk::generate(0, 0, 0);
    let vertices = make_greedy(&chunk, &world, 0, 0, 0);
    // The bottom face touches the full top layer of the chunk below and is not drawn.
    assert_eq!(vertices.len(), 30);
}

#[test]
fn greedy_slice_keeps_face_data_and_skips_visited_cells() {
    let mut mask = vec![FaceMask::empty(); 1024];
    let face = FaceMask::from(false, 6, Direction::Front);
    // A run of three cells along the first coordinate at v = 7, the middle one already visited.
    mask[7] = face;
    let mut seen = face;
    seen.set_visited(true);
    mask[32 + 7] = seen;
    mask[64 + 7] = face;
    let quads = greedy_slice(&mut mask);
    assert_eq!(quads.len(), 2);
    assert_eq!((quads[0].u, quads[0].v, quads[0].width, quads[0].height), (0, 7, 1, 1));
    assert_eq!((quads[1].u, quads[1].v, quads[1].width, quads[1].height), (2, 7, 1, 1));
    // The cells keep their face, now marked visited.
    for i in [7usize, 32 + 7, 64 + 7] {
        assert!(mask[i].get_visited());
        assert_eq!(mask[i].get_block_id(), 6);
        assert_eq!(mask[i].get_face(), Direction::Front);
    }
}

#[test]
fn greedy_slice_stops_height_at_a_mismatching_row() {
    let mut mask = vec![FaceMask::empty(); 1024];
    let face = FaceMask::from(false, 2, Direction::Right);
    let other = FaceMask::from(false, 2, Direction::Left);
    // Rows v = 0 and v = 1 of width 2 hold `face`; in row v = 2 the second cell differs.
    for u in 0..2 {
        mask[u * 32] = face;
        mask[u * 32 + 1] = face;
    }
    mask[2] = face;
    mask[32 + 2] = other;
    let quads = greedy_slice(&mut mask);
    assert_eq!(quads.len(), 3);
    assert_eq!((quads[0].u, quads[0].v, quads[0].width, quads[0].height), (0, 0, 2, 2));
    assert_eq!((quads[1].u, quads[1].v, quads[1].width, quads[1].height), (0, 2, 1, 1));
    assert_eq!((quads[2].u, quads[2].v, quads[2].width, quads[2].height), (1, 2, 1, 1));
    assert_eq!(quads[2].face.data, other.data);
}

#[test]
fn corner_occlusion_table() {
    assert_eq!(vertex_ao(false, false, false), 3);
    assert_eq!(vertex_ao(false, true, false), 2);
    assert_eq!(vertex_ao(false, false, true), 2);
    assert_eq!(vertex_ao(false, true, true), 0);
    assert_eq!(vertex_ao(true, false, false), 2);
    assert_eq!(vertex_ao(true, true, false), 1);
    assert_eq!(vertex_ao(true, false, true), 1);
    assert_eq!(vertex_ao(true, true, true), 0);
    let packed = pack_vertex_ao(3, 0, 2, 1);
    assert_eq!(packed, 0b11_00_10_01);
    assert_eq!(unpack_vertex_ao(packed), [3, 0, 2, 1]);
}
