use ascendustry::game::world::block::BlockInstance;
use ascendustry::game::world::chunk::Chunk;
use ascendustry::game::world::generation::biome::{default_biome_index, BiomeLayers};
use ascendustry::game::world::generation::chunk::{column_block, deep_block_id, fill_column};

const GRASS: u32 = 1;
const DIRT: u32 = 2;
const STONE: u32 = 3;
const SAND: u32 = 4;
const SNOW: u32 = 5;

fn layers(surface: &str, subsurface: &str, depth: i32) -> BiomeLayers {
    BiomeLayers {
        surface_block: surface.to_string(),
        subsurface_block: subsurface.to_string(),
        deep_block: "stone".to_string(),
        subsurface_depth: depth,
    }
}

#[test]
fn surface_block_follows_its_name() {
    assert_eq!(layers("sand", "dirt", 3).surface_id(GRASS, SAND, SNOW), SAND);
    assert_eq!(layers("snow", "dirt", 3).surface_id(GRASS, SAND, SNOW), SNOW);
    assert_eq!(layers("grass", "dirt", 3).surface_id(GRASS, SAND, SNOW), GRASS);
    // Any other name falls back to grass.
    assert_eq!(layers("lava", "dirt", 3).surface_id(GRASS, SAND, SNOW), GRASS);
}

#[test]
fn subsurface_block_follows_its_name() {
    assert_eq!(layers("grass", "sand", 3).subsurface_id(DIRT, SAND, SNOW), SAND);
    assert_eq!(layers("grass", "snow", 3).subsurface_id(DIRT, SAND, SNOW), SNOW);
    assert_eq!(layers("grass", "dirt", 3).subsurface_id(DIRT, SAND, SNOW), DIRT);
    assert_eq!(layers("grass", "gravel", 3).subsurface_id(DIRT, SAND, SNOW), DIRT);
}

#[test]
fn column_layers_from_the_top() {
    let l = layers("grass", "dirt", 3);
    // Ground up to height 10 (excluded).
    assert_eq!(column_block(&l, 10, 10, false, GRASS, DIRT, STONE), None);
    assert_eq!(column_block(&l, 10, 12, false, GRASS, DIRT, STONE), None);
    assert_eq!(column_block(&l, 10, 9, false, GRASS, DIRT, STONE), Some(GRASS));
    assert_eq!(column_block(&l, 10, 8, false, GRASS, DIRT, STONE), Some(DIRT));
    assert_eq!(column_block(&l, 10, 7, false, GRASS, DIRT, STONE), Some(DIRT));
    assert_eq!(column_block(&l, 10, 6, false, GRASS, DIRT, STONE), Some(STONE));
    assert_eq!(column_block(&l, 10, -40, false, GRASS, DIRT, STONE), Some(STONE));
    // Caves are left as they are.
    assert_eq!(column_block(&l, 10, 9, true, GRASS, DIRT, STONE), None);
    assert_eq!(column_block(&l, 10, 0, true, GRASS, DIRT, STONE), None);
}

#[test]
fn first_placed_ore_wins() {
    let depths = vec![(-20, -10), (-30, 0), (-100, 100)];
    let ids = vec![Some(10), Some(11), Some(12)];
    // Height -15: the first two ranges hold it; the first ore's vein is there.
    assert_eq!(deep_block_id(-15, STONE, &depths, &ids, &vec![true, true, true]), 10);
    // The first ore's vein is not there: the second one is placed.
    assert_eq!(deep_block_id(-15, STONE, &depths, &ids, &vec![false, true, true]), 11);
    // Height 5: only the last range holds it.
    assert_eq!(deep_block_id(5, STONE, &depths, &ids, &vec![true, true, true]), 12);
    // No vein there: stone.
    assert_eq!(deep_block_id(5, STONE, &depths, &ids, &vec![true, true, false]), STONE);
    // Out of every range: stone.
    assert_eq!(deep_block_id(500, STONE, &depths, &ids, &vec![true, true, true]), STONE);
    // No ore at all: stone.
    assert_eq!(deep_block_id(0, STONE, &vec![], &vec![], &vec![]), STONE);
}

#[test]
fn unknown_ore_block_leaves_stone() {
    let depths = vec![(-20, -10), (-30, 0)];
    let ids = vec![None, Some(11)];
    // The first placed ore has no known block: stone, and the second is not tried.
    assert_eq!(deep_block_id(-15, STONE, &depths, &ids, &vec![true, true]), STONE);
}

#[test]
fn fill_column_writes_one_column() {
    let mut chunk = Chunk::generate(0, 1, 0);
    for x in 0..32 {
        for z in 0..32 {
            chunk.set_block_from_xyz(x, 0, z, BlockInstance::air());
        }
    }
    let l = layers("snow", "dirt", 2);
    let mut caves = vec![false; 32];
    caves[5] = true;
    let deep: Vec<u32> = (0..32).map(|y| if y == 3 { 77 } else { STONE }).collect();
    // The chunk's lowest block is at height 32; the ground reaches up to 32 + 10.
    fill_column(&mut chunk, 4, 6, 32, 42, &l, SNOW, DIRT, &caves, &deep);
    assert_eq!(chunk.get_block_from_xyz(4, 9, 6).id, SNOW);
    assert_eq!(chunk.get_block_from_xyz(4, 8, 6).id, DIRT);
    assert_eq!(chunk.get_block_from_xyz(4, 7, 6).id, STONE);
    assert_eq!(chunk.get_block_from_xyz(4, 5, 6).id, 0);
    assert_eq!(chunk.get_block_from_xyz(4, 3, 6).id, 77);
    assert_eq!(chunk.get_block_from_xyz(4, 0, 6).id, STONE);
    assert_eq!(chunk.get_block_from_xyz(4, 10, 6).id, 0);
    assert_eq!(chunk.get_block_from_xyz(4, 31, 6).id, 0);
    // Other columns are untouched.
    assert_eq!(chunk.get_block_from_xyz(5, 3, 6).id, 0);
    assert_eq!(chunk.get_block_from_xyz(4, 3, 7).id, 0);
}

#[test]
fn default_biome_is_the_first_plains() {
    let ids: Vec<String> = ["desert", "plains", "tundra", "plains"].iter().map(|s| s.to_string()).collect();
    assert_eq!(default_biome_index(&ids), 1);
    let none: Vec<String> = ["desert", "tundra"].iter().map(|s| s.to_string()).collect();
    assert_eq!(default_biome_index(&none), 0);
    assert_eq!(default_biome_index(&Vec::new()), 0);
}
