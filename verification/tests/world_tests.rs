use ascendustry::engine::inputs::InputState;
use ascendustry::game::world::block::BlockInstance;
use ascendustry::game::world::chunk as game_chunk;
use ascendustry::player::rendered_chunk_number;
use ascendustry::world::{Block, Chunk, PaddedChunk, World};

#[test]
fn blocks_and_air() {
    assert!(Block::air().is_air());
    assert!(!Block::new(3).is_air());
    assert_eq!(Block::new(-4).id, -4);
    assert!(BlockInstance::air().is_air());
    assert!(!BlockInstance::new(1).is_air());
    assert_eq!(BlockInstance::new(8).id, 8);
}

#[test]
fn generated_chunk_is_flat() {
    let c = Chunk::generate(1, 2, 3);
    assert_eq!(c.get_block_from_xyz(0, 0, 0).id, 1);
    assert_eq!(c.get_block_from_xyz(31, 0, 31).id, 1);
    assert_eq!(c.get_block_from_xyz(5, 1, 5).id, 0);
    assert_eq!(c.get_block_from_xyz(0, 31, 0).id, 0);
    // Index of (x, y, z) is x + 32 y + 1024 z.
    assert_eq!(c.get_block_from_i(31 + 1024 * 31).id, 1);
    assert_eq!(c.get_block_from_i(32).id, 0);
}

#[test]
fn chunk_set_then_get() {
    let mut c = Chunk::generate(0, 0, 0);
    c.set_block_from_xyz(4, 5, 6, Block::new(9));
    assert_eq!(c.get_block_from_xyz(4, 5, 6).id, 9);
    assert_eq!(c.get_block_from_i(4 + 5 * 32 + 6 * 1024).id, 9);
    assert_eq!(c.get_block_from_xyz(4, 0, 6).id, 1);
    c.set_block_from_i(0, Block::air());
    assert!(c.get_block_from_xyz(0, 0, 0).is_air());
}

#[test]
fn game_chunk_generate_and_set() {
    let mut c = game_chunk::Chunk::generate(-1, 0, 7);
    assert_eq!((c.x, c.y, c.z), (-1, 0, 7));
    assert_eq!(c.get_block_from_xyz(10, 0, 10).id, 1);
    assert_eq!(c.get_block_from_xyz(10, 2, 10).id, 0);
    c.set_block_from_xyz(10, 2, 10, BlockInstance::new(5));
    assert_eq!(c.get_block_from_xyz(10, 2, 10).id, 5);
}

#[test]
fn padded_chunk_copies_centre_and_neighbours() {
    let mut world = World::new();
    let mut east = Chunk::generate(1, 0, 0);
    east.set_block_from_xyz(0, 3, 4, Block::new(7));
    world.set_chunk(1, 0, 0, east);
    let mut centre = Chunk::generate(0, 0, 0);
    centre.set_block_from_xyz(31, 3, 4, Block::new(2));
    let p = PaddedChunk::new(&centre, &world);
    // Centre: padded (x + 1, y + 1, z + 1) is chunk (x, y, z).
    assert_eq!(p.get_block_from_xyz(32, 4, 5).id, 2);
    assert_eq!(p.get_block_from_xyz(1, 1, 1).id, 1);
    assert_eq!(p.get_block_from_xyz(1, 2, 1).id, 0);
    // +X border comes from the -X side of the east neighbour.
    assert_eq!(p.get_block_from_xyz(33, 4, 5).id, 7);
    assert_eq!(p.get_block_from_xyz(33, 1, 1).id, 1);
    // No west neighbour: air.
    assert_eq!(p.get_block_from_xyz(0, 1, 1).id, 0);
    // Edges and corners stay air.
    assert_eq!(p.get_block_from_xyz(33, 0, 1).id, 0);
    assert_eq!(p.get_block_from_xyz(0, 0, 0).id, 0);
    assert!(PaddedChunk::empty().get_block_from_i(39303).is_air());
}

#[test]
fn padded_chunk_fill_single_faces() {
    let below = Chunk::generate(0, -1, 0);
    let mut p = PaddedChunk::empty();
    p.fill_neg_y(&below);
    // The top layer (y = 31) of the chunk below is air in a flat chunk.
    assert_eq!(p.get_block_from_xyz(5, 0, 5).id, 0);
    let mut above = Chunk::generate(0, 1, 0);
    above.set_block_from_xyz(2, 0, 3, Block::new(4));
    p.fill_pos_y(&above);
    assert_eq!(p.get_block_from_xyz(3, 33, 4).id, 4);
    assert_eq!(p.get_block_from_xyz(1, 33, 1).id, 1);
    p.fill_neg_x(&above);
    assert_eq!(p.get_block_from_xyz(0, 1, 1).id, 1);
    p.fill_pos_z(&above);
    assert_eq!(p.get_block_from_xyz(3, 1, 33).id, 1);
}

#[test]
fn world_lookup_uses_euclidean_coordinates() {
    let mut world = World::new();
    assert!(world.get_chunk(-1, 0, 0).is_none());
    let mut c = Chunk::generate(-1, 0, 0);
    c.set_block_from_xyz(31, 5, 0, Block::new(6));
    world.set_chunk(-1, 0, 0, c);
    assert!(world.get_chunk(-1, 0, 0).is_some());
    // x = -1 lies in chunk -1 at local x = 31.
    assert_eq!(world.get_block_from_xyz(-1, 5, 0).id, 6);
    assert_eq!(world.get_block_from_xyz(-32, 0, 0).id, 1);
    assert_eq!(world.get_block_from_xyz(0, 0, 0).id, 0);
    assert_eq!(world.get_local_block_from_xyz(31, 5, 0, -1, 0, 0).id, 6);
    // Out-of-chunk local coordinates reach the neighbour.
    assert_eq!(world.get_local_block_from_xyz(-1, 5, 0, 0, 0, 0).id, 6);
    assert_eq!(world.get_local_block_from_xyz(40, 0, 0, -2, 0, 0).id, 1);
}

#[test]
fn rendered_chunks_in_range_are_ordered() {
    let mut world = World::new();
    world.set_chunk(1, 0, 0, Chunk::generate(1, 0, 0));
    world.set_chunk(0, 0, 1, Chunk::generate(0, 0, 1));
    world.set_chunk(0, 0, 0, Chunk::generate(0, 0, 0));
    world.set_chunk(5, 0, 0, Chunk::generate(5, 0, 0));
    let chunks = world.get_player_rendered_chunks([0, 2, 0, 0, -1, 1]);
    let keys: Vec<(i32, i32, i32)> = chunks.iter().map(|(_, x, y, z)| (*x, *y, *z)).collect();
    assert_eq!(keys, vec![(0, 0, 0), (0, 0, 1), (1, 0, 0)]);
    assert!(world.get_player_rendered_chunks([3, 2, 0, 0, 0, 0]).is_empty());
}

#[test]
fn rendered_chunk_count() {
    // Render distances 5 and 1 around the origin: 5 x 1 x 5 chunks.
    assert_eq!(rendered_chunk_number([-2, 2, 0, 0, -2, 2]), 25);
    assert_eq!(rendered_chunk_number([-2, 3, -1, 1, -2, 3]), 108);
    assert_eq!(rendered_chunk_number([0, 0, 0, 5, 0, 5]), 36);
    assert_eq!(rendered_chunk_number([4, 4, 7, 7, -9, -9]), 1);
    // An empty axis leaves no chunk.
    assert_eq!(rendered_chunk_number([2, 1, 0, 1, 0, 1]), 0);
    // The widest axes.
    assert_eq!(rendered_chunk_number([i32::MIN, i32::MAX, 0, 0, 0, -1]), 0);
    assert_eq!(rendered_chunk_number([0, i32::MAX, 0, 0, 0, 0]), 1u32 << 31);
}

#[test]
fn key_presses_read_back() {
    let mut inputs = InputState::new();
    assert!(!inputs.is_key_pressed(17));
    inputs.set_key_press(17, true);
    assert!(inputs.is_key_pressed(17));
    assert!(!inputs.is_key_pressed(18));
    inputs.set_key_press(17, false);
    assert!(!inputs.is_key_pressed(17));
}

#[test]
fn update_generates_missing_chunks_in_order() {
    let mut world = World::new();
    let generated = world.update([0, 1, 0, 0, 0, 1]);
    assert_eq!(generated, vec![(0, 0, 0), (0, 0, 1), (1, 0, 0), (1, 0, 1)]);
    for (x, y, z) in generated {
        let c = world.get_chunk(x, y, z).unwrap();
        assert_eq!(c.position(), (x, y, z));
        assert_eq!(c.get_block_from_xyz(3, 0, 3).id, 1);
        assert_eq!(c.get_block_from_xyz(3, 1, 3).id, 0);
    }
    assert!(world.get_chunk(2, 0, 0).is_none());
    assert!(world.get_chunk(0, 1, 0).is_none());
}

#[test]
fn update_keeps_loaded_chunks_and_unloads_the_others() {
    let mut world = World::new();
    world.update([0, 1, 0, 0, 0, 1]);
    let mut changed = Chunk::generate(1, 0, 1);
    changed.set_block_from_xyz(5, 6, 7, Block::new(9));
    world.set_chunk(1, 0, 1, changed);
    let generated = world.update([1, 2, 0, 0, 1, 1]);
    // Only (2, 0, 1) was missing.
    assert_eq!(generated, vec![(2, 0, 1)]);
    // The loaded chunk in range is kept as it was.
    assert_eq!(world.get_chunk(1, 0, 1).unwrap().get_block_from_xyz(5, 6, 7).id, 9);
    // The chunks out of range are unloaded.
    assert!(world.get_chunk(0, 0, 0).is_none());
    assert!(world.get_chunk(0, 0, 1).is_none());
    assert!(world.get_chunk(1, 0, 0).is_none());
    assert!(world.get_chunk(2, 0, 1).is_some());
}

#[test]
fn update_with_empty_range_unloads_everything() {
    let mut world = World::new();
    world.set_chunk(0, 0, 0, Chunk::generate(0, 0, 0));
    let generated = world.update([1, 0, 0, 0, 0, 0]);
    assert!(generated.is_empty());
    assert!(world.get_chunk(0, 0, 0).is_none());
}

#[test]
fn second_update_to_the_same_range_does_nothing() {
    let mut world = World::new();
    let first = world.update([-1, 0, 0, 1, 2, 2]);
    assert_eq!(first.len(), 4);
    let second = world.update([-1, 0, 0, 1, 2, 2]);
    assert!(second.is_empty());
    assert!(world.get_chunk(-1, 1, 2).is_some());
}

#[test]
fn taking_a_key_forgets_it() {
    let mut inputs = InputState::new();
    inputs.set_key_press(30, true);
    inputs.set_key_press(31, true);
    assert!(inputs.take_key_pressed(30));
    assert!(!inputs.is_key_pressed(30));
    assert!(!inputs.take_key_pressed(30));
    assert!(inputs.is_key_pressed(31));
    inputs.set_key_press(32, false);
    assert!(!inputs.take_key_pressed(32));
}

#[test]
fn mouse_buttons_are_apart_from_keys() {
    let mut inputs = InputState::new();
    inputs.set_mouse_button_press(1, true);
    assert!(inputs.is_mouse_button_pressed(1));
    assert!(!inputs.is_key_pressed(1));
    inputs.set_key_press(1, false);
    assert!(inputs.is_mouse_button_pressed(1));
    assert!(inputs.take_mouse_button_pressed(1));
    assert!(!inputs.is_mouse_button_pressed(1));
    assert!(!inputs.take_mouse_button_pressed(2));
}

#[test]
fn game_chunk_write_reads_back() {
    let mut c = game_chunk::Chunk::generate(0, 0, 0);
    c.set_block_from_xyz(31, 31, 31, BlockInstance::new(4));
    assert_eq!(c.get_block_from_xyz(31, 31, 31).id, 4);
    assert_eq!(c.get_block_from_xyz(30, 31, 31).id, 0);
    assert_eq!(c.get_block_from_xyz(31, 0, 31).id, 1);
    // Out of the chunk's range, the flat index wraps to another cell: (32, 0, 0) is (0, 1, 0).
    c.set_block_from_xyz(32, 0, 0, BlockInstance::new(6));
    assert_eq!(c.get_block_from_xyz(0, 1, 0).id, 6);
}
