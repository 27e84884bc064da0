use vstd::prelude::*;
use crate::game::world::block::BlockInstance;
use crate::game::world::chunk::Chunk;
use crate::game::world::generation::biome::BiomeLayers;
use crate::world::{chunk_index, in_chunk};

verus! {

/// Whether ore `i` is placed at world height `wy`: its depth range `depths[i]` (both ends
/// included) holds `wy` and its vein test `hits[i]` passed there.
pub open spec fn ore_placed(depths: Seq<(i32, i32)>, hits: Seq<bool>, i: int, wy: int) -> bool {
    depths[i].0 <= wy <= depths[i].1 && hits[i]
}

/// An ore is placed at a height exactly when that height lies within its depth range, both
/// ends included, and its vein test passed.
pub proof fn lemma_ore_placed_bounds(depths: Seq<(i32, i32)>, hits: Seq<bool>, i: int, wy: int)
    ensures
        ore_placed(depths, hits, i, wy) <==> (depths[i].0 <= wy && wy <= depths[i].1 && hits[i]),
        wy < depths[i].0 ==> !ore_placed(depths, hits, i, wy),
        wy > depths[i].1 ==> !ore_placed(depths, hits, i, wy),
        !hits[i] ==> !ore_placed(depths, hits, i, wy),
{
}

/// The id of the deep block at world height `wy`: the block of the first ore, in order, that
/// is placed there, when that ore's block is known (`ore_ids[i]`); stone when no ore is
/// placed there or the first one's block is unknown.
pub fn deep_block_id(
    wy: i32,
    stone_id: u32,
    ore_depths: &Vec<(i32, i32)>,
    ore_ids: &Vec<Option<u32>>,
    ore_hits: &Vec<bool>,
) -> (id: u32)
    requires
        ore_ids.len() == ore_depths.len(),
        ore_hits.len() == ore_depths.len(),
    ensures
        (forall|i: int|
            0 <= i < ore_depths.len() ==> !#[trigger] ore_placed(ore_depths@, ore_hits@, i, wy as int))
            ==> id == stone_id,
        forall|i: int|
            0 <= i < ore_depths.len() && #[trigger] ore_placed(ore_depths@, ore_hits@, i, wy as int)
                && (forall|j: int| 0 <= j < i ==> !ore_placed(ore_depths@, ore_hits@, j, wy as int))
                ==> id == match ore_ids@[i] {
                Some(ore) => ore,
                None => stone_id,
            },
        (forall|i: int|
            0 <= i < ore_depths.len() ==> !(ore_depths@[i].0 <= wy <= ore_depths@[i].1
                && #[trigger] ore_hits@[i])) ==> id == stone_id,
        id == stone_id || exists|i: int|
            0 <= i < ore_depths.len() && ore_depths@[i].0 <= wy <= ore_depths@[i].1 && ore_hits@[i]
                && #[trigger] ore_ids@[i] == Some(id),
{
    let mut i: usize = 0;
    while i < ore_depths.len()
        invariant
            i <= ore_depths.len(),
            ore_ids.len() == ore_depths.len(),
            ore_hits.len() == ore_depths.len(),
            forall|j: int| 0 <= j < i ==> !#[trigger] ore_placed(ore_depths@, ore_hits@, j, wy as int),
        decreases ore_depths.len() - i,
    {
        let (depth_min, depth_max) = ore_depths[i];
        if wy >= depth_min && wy <= depth_max && ore_hits[i] {
            proof {
                assert(ore_placed(ore_depths@, ore_hits@, i as int, wy as int));
                assert(ore_ids@[i as int] == ore_ids@[i as int]);
            }
            return match ore_ids[i] {
                Some(ore) => ore,
                None => stone_id,
            };
        }
        i += 1;
    }
    stone_id
}

/// The id of the block that terrain generation puts at world height `wy` of a column whose
/// ground reaches up to height `terrain_y` (excluded), or `None` where it leaves the block as
/// it is: above the ground and in caves. The top block of the ground is the surface block,
/// the blocks down to `subsurface_depth` under the ground's top are subsurface blocks, and the
/// blocks below are deep blocks.
pub open spec fn column_block_id(
    subsurface_depth: int,
    terrain_y: int,
    wy: int,
    is_cave: bool,
    surface_id: u32,
    subsurface_id: u32,
    deep_id: u32,
) -> Option<u32> {
    if wy >= terrain_y || is_cave {
        None
    } else if wy == terrain_y - 1 {
        Some(surface_id)
    } else if wy >= terrain_y - subsurface_depth {
        Some(subsurface_id)
    } else {
        Some(deep_id)
    }
}

/// The layers of a column: nothing is placed in a cave or above the ground, whatever the
/// height; any other block of the ground gets the surface block at the top, the subsurface
/// block down to `subsurface_depth` under the top, and the deep block below.
pub proof fn lemma_column_layers(
    subsurface_depth: int,
    terrain_y: int,
    wy: int,
    is_cave: bool,
    surface_id: u32,
    subsurface_id: u32,
    deep_id: u32,
)
    ensures
        ({
            let r = column_block_id(
                subsurface_depth,
                terrain_y,
                wy,
                is_cave,
                surface_id,
                subsurface_id,
                deep_id,
            );
            &&& is_cave ==> r is None
            &&& wy >= terrain_y ==> r is None
            &&& !is_cave && wy < terrain_y ==> r is Some
            &&& !is_cave && wy == terrain_y - 1 ==> r == Some(surface_id)
            &&& !is_cave && terrain_y - subsurface_depth <= wy < terrain_y - 1 ==> r == Some(
                subsurface_id,
            )
            &&& !is_cave && wy < terrain_y - 1 && wy < terrain_y - subsurface_depth ==> r == Some(
                deep_id,
            )
        }),
{
}

/// Whether computing the layer of a block at height `wy` stays within `i32`: the subsurface
/// bound `terrain_y - subsurface_depth` is computed only for blocks of the ground, not in a
/// cave, under the top one.
pub open spec fn column_block_ok(subsurface_depth: int, terrain_y: int, wy: int, is_cave: bool) -> bool {
    wy < terrain_y && !is_cave && wy != terrain_y - 1 ==> i32::MIN <= terrain_y - subsurface_depth
        <= i32::MAX
}

/// The block that terrain generation puts at world height `wy` (see [`column_block_id`]).
pub fn column_block(
    layers: &BiomeLayers,
    terrain_y: i32,
    wy: i32,
    is_cave: bool,
    surface_id: u32,
    subsurface_id: u32,
    deep_id: u32,
) -> (r: Option<u32>)
    requires
        column_block_ok(layers.subsurface_depth as int, terrain_y as int, wy as int, is_cave),
    ensures
        r == column_block_id(
            layers.subsurface_depth as int,
            terrain_y as int,
            wy as int,
            is_cave,
            surface_id,
            subsurface_id,
            deep_id,
        ),
        is_cave ==> r is None,
        wy >= terrain_y ==> r is None,
        !is_cave && wy < terrain_y ==> r is Some,
        !is_cave && wy == terrain_y - 1 ==> r == Some(surface_id),
        !is_cave && terrain_y - layers.subsurface_depth <= wy < terrain_y - 1 ==> r == Some(
            subsurface_id,
        ),
        !is_cave && wy < terrain_y - 1 && wy < terrain_y - layers.subsurface_depth ==> r == Some(
            deep_id,
        ),
{
    if wy >= terrain_y || is_cave {
        None
    } else if wy == terrain_y - 1 {
        Some(surface_id)
    } else if wy >= terrain_y - layers.subsurface_depth {
        Some(subsurface_id)
    } else {
        Some(deep_id)
    }
}

/// Generates column `(x, z)` of `chunk`, whose lowest block is at world height `cwy`, for a
/// ground reaching up to height `terrain_y` (excluded): block `y` of the column becomes the
/// block that [`column_block_id`] gives at height `cwy + y`, `caves[y]` telling whether it
/// lies in a cave and `deep_ids[y]` being its deep block; the blocks for which it gives `None`
/// and all other columns are left as they are.
pub fn fill_column(
    chunk: &mut Chunk,
    x: i32,
    z: i32,
    cwy: i32,
    terrain_y: i32,
    layers: &BiomeLayers,
    surface_id: u32,
    subsurface_id: u32,
    caves: &Vec<bool>,
    deep_ids: &Vec<u32>,
)
    requires
        0 <= x < 32,
        0 <= z < 32,
        cwy + 31 <= i32::MAX,
        caves.len() == 32,
        deep_ids.len() == 32,
        old(chunk)@.len() == 32768,
        forall|y: int|
            0 <= y < 32 ==> column_block_ok(
                layers.subsurface_depth as int,
                terrain_y as int,
                cwy + y,
                #[trigger] caves@[y],
            ),
    ensures
        final(chunk).coords() == old(chunk).coords(),
        final(chunk)@.len() == 32768,
        forall|y: int|
            0 <= y < 32 ==> #[trigger] final(chunk).block_at(x as int, y, z as int) == match column_block_id(
                layers.subsurface_depth as int,
                terrain_y as int,
                cwy + y,
                caves@[y],
                surface_id,
                subsurface_id,
                deep_ids@[y],
            ) {
                Some(id) => BlockInstance { id },
                None => old(chunk).block_at(x as int, y, z as int),
            },
        forall|a: int, b: int, c: int|
            in_chunk(a, b, c) && (a != x || c != z) ==> #[trigger] final(chunk).block_at(a, b, c)
                == old(chunk).block_at(a, b, c),
{
    let ghost start = *chunk;
    let mut y: i32 = 0;
    while y < 32
        invariant
            0 <= x < 32,
            0 <= z < 32,
            0 <= y <= 32,
            cwy + 31 <= i32::MAX,
            caves.len() == 32,
            deep_ids.len() == 32,
            chunk@.len() == 32768,
            start@.len() == 32768,
            chunk.coords() == start.coords(),
            forall|yy: int|
                0 <= yy < 32 ==> column_block_ok(
                    layers.subsurface_depth as int,
                    terrain_y as int,
                    cwy + yy,
                    #[trigger] caves@[yy],
                ),
            forall|yy: int|
                0 <= yy < y ==> #[trigger] chunk.block_at(x as int, yy, z as int) == match column_block_id(
                    layers.subsurface_depth as int,
                    terrain_y as int,
                    cwy + yy,
                    caves@[yy],
                    surface_id,
                    subsurface_id,
                    deep_ids@[yy],
                ) {
                    Some(id) => BlockInstance { id },
                    None => start.block_at(x as int, yy, z as int),
                },
            forall|a: int, b: int, c: int|
                in_chunk(a, b, c) && (a != x || c != z || b >= y) ==> #[trigger] chunk.block_at(a, b, c)
                    == start.block_at(a, b, c),
        decreases 32 - y,
    {
        let wy = y + cwy;
        let is_cave = caves[y as usize];
        let ghost before = *chunk;
        assert(column_block_ok(layers.subsurface_depth as int, terrain_y as int, cwy + y, caves@[y as int]));
        match column_block(layers, terrain_y, wy, is_cave, surface_id, subsurface_id, deep_ids[y as usize]) {
            Some(id) => {
                chunk.set_block_from_xyz(x, y, z, BlockInstance::new(id));
            },
            None => {},
        }
        proof {
            assert forall|a: int, b: int, c: int|
                in_chunk(a, b, c) && (a != x || c != z || b != y) implies #[trigger] chunk.block_at(a, b, c)
                == before.block_at(a, b, c) by {
                if chunk_index(a, b, c) == chunk_index(x as int, y as int, z as int) {
                    assert(a == x && b == y && c == z);
                }
            }
        }
        y += 1;
    }
}

} // verus!
