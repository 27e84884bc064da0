use vstd::prelude::*;
use crate::game::world::block::BlockInstance;
use crate::world::{chunk_index, in_chunk, chunk_index_ok, lemma_chunk_index_injective};

verus! {

pub const CHUNK_SIZE: i32 = 32;
pub const CHUNK_SIZE_SQR: i32 = 1024;
pub const CHUNK_BLOCK_NUMBER: usize = 32768;
pub const LAST_CHUNK_AXIS_INDEX: i32 = 31;

/// A cube of 32 x 32 x 32 blocks at chunk coordinates `(x, y, z)`.
pub struct Chunk {
    blocks: [BlockInstance; 32768],
    pub x: i32,
    pub y: i32,
    pub z: i32,
}

impl View for Chunk {
    type V = Seq<BlockInstance>;

    closed spec fn view(&self) -> Seq<BlockInstance> {
        self.blocks@
    }
}

impl Chunk {
    /// The chunk coordinates of this chunk.
    pub closed spec fn coords(&self) -> (i32, i32, i32) {
        (self.x, self.y, self.z)
    }

    /// The block at chunk-local coordinates.
    pub open spec fn block_at(&self, x: int, y: int, z: int) -> BlockInstance {
        self@[chunk_index(x, y, z)]
    }

    /// A flat chunk: its bottom layer (y = 0) is made of blocks of id 1, the rest is air.
    pub fn generate(cx: i32, cy: i32, cz: i32) -> (c: Chunk)
        ensures
            c.coords() == (cx, cy, cz),
            c@.len() == 32768,
            forall|x: int, y: int, z: int|
                #![trigger c.block_at(x, y, z)]
                in_chunk(x, y, z) ==> c.block_at(x, y, z).id == (if y == 0 {
                    1u32
                } else {
                    0u32
                }),
    {
        let mut chunk = Chunk { blocks: [BlockInstance::air();32768], x: cx, y: cy, z: cz };
        let block = BlockInstance::new(1);
        let mut x: i32 = 0;
        while x < CHUNK_SIZE
            invariant
                0 <= x <= 32,
                chunk.x == cx && chunk.y == cy && chunk.z == cz,
                block.id == 1,
                forall|i: int|
                    0 <= i < 32768 ==> (#[trigger] chunk.blocks@[i]).id == (if (i / 32) % 32 == 0
                        && i % 32 < x {
                        1u32
                    } else {
                        0u32
                    }),
            decreases 32 - x,
        {
            let mut z: i32 = 0;
            while z < CHUNK_SIZE
                invariant
                    0 <= x < 32,
                    0 <= z <= 32,
                    chunk.x == cx && chunk.y == cy && chunk.z == cz,
                    block.id == 1,
                    forall|i: int|
                        0 <= i < 32768 ==> (#[trigger] chunk.blocks@[i]).id == (if (i / 32) % 32
                            == 0 && (i % 32 < x || (i % 32 == x && i / 1024 < z)) {
                            1u32
                        } else {
                            0u32
                        }),
                decreases 32 - z,
            {
                let y: i32 = 0;
                chunk.set_block_from_xyz(x, y, z, block.clone());
                z = z + 1;
            }
            x = x + 1;
        }
        proof {
            assert forall|x: int, y: int, z: int| in_chunk(x, y, z) implies (#[trigger] chunk.block_at(
                x,
                y,
                z,
            )).id == (if y == 0 {
                1u32
            } else {
                0u32
            }) by {
                let i = chunk_index(x, y, z);
                assert(i / 32 == y + z * 32 && i % 32 == x) by (nonlinear_arith)
                    requires
                        i == x + y * 32 + z * 1024,
                        0 <= x < 32,
                        0 <= y < 32,
                        0 <= z < 32,
                ;
                assert((y + z * 32) % 32 == y) by (nonlinear_arith)
                    requires
                        0 <= y < 32,
                        0 <= z < 32,
                ;
            }
        }
        chunk
    }

    /// The block at chunk-local coordinates (`x + 32 y + 1024 z` must index the chunk).
    pub fn get_block_from_xyz(&self, x: i32, y: i32, z: i32) -> (b: BlockInstance)
        requires
            chunk_index_ok(x, y, z),
        ensures
            b == self@[chunk_index(x as int, y as int, z as int)],
    {
        self.get_block_from_i((x + y * CHUNK_SIZE + z * CHUNK_SIZE_SQR) as usize)
    }

    /// The block at an index of the block array.
    pub fn get_block_from_i(&self, i: usize) -> (b: BlockInstance)
        requires
            i < 32768,
        ensures
            b == self@[i as int],
    {
        self.blocks[i]
    }

    /// Every chunk holds 32 x 32 x 32 = 32768 blocks.
    pub proof fn lemma_block_count(self)
        ensures
            self@.len() == 32768,
    {
    }

    /// Stores a block at chunk-local coordinates (`x + 32 y + 1024 z` must index the chunk):
    /// the block read at those coordinates is then `block`, and every other block of the chunk
    /// reads as before.
    pub fn set_block_from_xyz(&mut self, x: i32, y: i32, z: i32, block: BlockInstance)
        requires
            chunk_index_ok(x, y, z),
        ensures
            final(self)@ == old(self)@.update(chunk_index(x as int, y as int, z as int), block),
            final(self).coords() == old(self).coords(),
            final(self)@.len() == 32768,
            forall|a: int, b: int, c: int|
                in_chunk(a, b, c) ==> #[trigger] final(self).block_at(a, b, c) == if chunk_index(a, b, c)
                    == chunk_index(x as int, y as int, z as int) {
                    block
                } else {
                    old(self).block_at(a, b, c)
                },
            in_chunk(x as int, y as int, z as int) ==> final(self).block_at(x as int, y as int, z as int)
                == block,
            in_chunk(x as int, y as int, z as int) ==> forall|a: int, b: int, c: int|
                in_chunk(a, b, c) && (a, b, c) != (x as int, y as int, z as int) ==> #[trigger] final(self).block_at(a, b, c)
                    == old(self).block_at(a, b, c),
    {
        self.set_block_from_i((x + y * CHUNK_SIZE + z * CHUNK_SIZE_SQR) as usize, block);
        proof {
            assert forall|a: int, b: int, c: int|
                in_chunk(a, b, c) && (a, b, c) != (x as int, y as int, z as int) && in_chunk(
                    x as int,
                    y as int,
                    z as int,
                ) implies chunk_index(a, b, c) != chunk_index(x as int, y as int, z as int) by {
                if chunk_index(a, b, c) == chunk_index(x as int, y as int, z as int) {
                    lemma_chunk_index_injective(a, b, c, x as int, y as int, z as int);
                }
            }
        }
    }

    /// Stores a block at an index of the block array.
    pub fn set_block_from_i(&mut self, i: usize, block: BlockInstance)
        requires
            i < 32768,
        ensures
            final(self)@ == old(self)@.update(i as int, block),
            final(self).coords() == old(self).coords(),
            final(self)@.len() == 32768,
    {
        self.blocks[i] = block;
    }
}

} // verus!
