use vstd::prelude::*;
use std::collections::HashMap;

verus! {

broadcast use vstd::std_specs::hash::group_hash_axioms;

pub const CHUNK_SIZE: i32 = 32;
pub const CHUNK_SIZE_SQR: i32 = 1024;
pub const CHUNK_BLOCK_NUMBER: usize = 32768;
pub const LAST_CHUNK_AXIS_INDEX: i32 = 31;
pub const PADDED_CHUNK_SIZE: i32 = 34;
pub const PADDED_CHUNK_SIZE_DOUBLE: usize = 68;
pub const PADDED_CHUNK_SIZE_SQR: i32 = 1156;
pub const PADDED_CHUNK_BLOCK_NUMBER: usize = 39304;
pub const FIRST_PADDED_CHUNK_CENTER_INDEX: i32 = 1;
pub const LAST_PADDED_CHUNK_CENTER_INDEX: i32 = 32;
pub const FIRST_PADDED_CHUNK_AXIS_INDEX: i32 = 0;
pub const LAST_PADDED_CHUNK_AXIS_INDEX: i32 = 33;

/// A block of the world, identified by its id; id 0 is air.
#[derive(Clone, Copy, PartialEq, Eq, Structural)]
pub struct Block {
    pub id: i32,
}

/// The air block.
pub open spec fn air() -> Block {
    Block { id: 0 }
}

impl Block {
    /// The block with the given id.
    pub fn new(id: i32) -> (b: Block)
        ensures
            b.id == id,
    {
        Block { id: id }
    }

    /// The air block.
    pub fn air() -> (b: Block)
        ensures
            b == air(),
    {
        Block { id: 0 }
    }

    /// Whether this block is air.
    pub fn is_air(&self) -> (r: bool)
        ensures
            r == (self.id == 0),
    {
        self.id == Block::air().id
    }
}

/// The index of chunk-local coordinates in a chunk's block array.
pub open spec fn chunk_index(x: int, y: int, z: int) -> int {
    x + y * 32 + z * 1024
}

/// The index of padded-chunk coordinates in a padded chunk's block array.
pub open spec fn padded_index(x: int, y: int, z: int) -> int {
    x + y * 34 + z * 1156
}

/// Whether chunk-local coordinates lie inside a chunk.
pub open spec fn in_chunk(x: int, y: int, z: int) -> bool {
    0 <= x < 32 && 0 <= y < 32 && 0 <= z < 32
}

/// Whether the index arithmetic of chunk coordinates stays in `i32` and lands in the chunk.
pub open spec fn chunk_index_ok(x: i32, y: i32, z: i32) -> bool {
    &&& i32::MIN <= y * 32 <= i32::MAX
    &&& i32::MIN <= z * 1024 <= i32::MAX
    &&& i32::MIN <= x + y * 32 <= i32::MAX
    &&& 0 <= chunk_index(x as int, y as int, z as int) < 32768
}

/// Whether the index arithmetic of padded-chunk coordinates stays in `i32` and lands in the
/// padded chunk.
pub open spec fn padded_index_ok(x: i32, y: i32, z: i32) -> bool {
    &&& i32::MIN <= y * 34 <= i32::MAX
    &&& i32::MIN <= z * 1156 <= i32::MAX
    &&& i32::MIN <= x + y * 34 <= i32::MAX
    &&& 0 <= padded_index(x as int, y as int, z as int) < 39304
}

/// Distinct chunk-local coordinates have distinct indices.
pub proof fn lemma_chunk_index_injective(a: int, b: int, c: int, x: int, y: int, z: int)
    requires
        in_chunk(a, b, c),
        in_chunk(x, y, z),
        chunk_index(a, b, c) == chunk_index(x, y, z),
    ensures
        a == x && b == y && c == z,
{
}

/// Storing a block at chunk-local coordinates changes the block read there, and no other.
pub proof fn lemma_set_block_read_back(
    v: Seq<Block>,
    x: int,
    y: int,
    z: int,
    a: int,
    b: int,
    c: int,
    block: Block,
)
    requires
        v.len() == 32768,
        in_chunk(x, y, z),
        in_chunk(a, b, c),
    ensures
        v.update(chunk_index(x, y, z), block)[chunk_index(x, y, z)] == block,
        (a, b, c) != (x, y, z) ==> v.update(chunk_index(x, y, z), block)[chunk_index(a, b, c)]
            == v[chunk_index(a, b, c)],
{
    if (a, b, c) != (x, y, z) && chunk_index(a, b, c) == chunk_index(x, y, z) {
        lemma_chunk_index_injective(a, b, c, x, y, z);
    }
}

/// A cube of 32 x 32 x 32 blocks at chunk coordinates `(x, y, z)`.
pub struct Chunk {
    blocks: [Block; 32768],
    x: i32,
    y: i32,
    z: i32,
}

impl View for Chunk {
    type V = Seq<Block>;

    closed spec fn view(&self) -> Seq<Block> {
        self.blocks@
    }
}

impl Chunk {
    /// The chunk coordinates of this chunk.
    pub closed spec fn coords(&self) -> (i32, i32, i32) {
        (self.x, self.y, self.z)
    }

    /// The block at chunk-local coordinates.
    pub open spec fn block_at(&self, x: int, y: int, z: int) -> Block {
        self@[chunk_index(x, y, z)]
    }

    /// The chunk coordinates of this chunk.
    pub fn position(&self) -> (r: (i32, i32, i32))
        ensures
            r == self.coords(),
    {
        (self.x, self.y, self.z)
    }

    /// Whether `c` is the flat chunk at chunk coordinates `k`: its bottom layer (y = 0) is
    /// made of blocks of id 1, the rest is air.
    pub open spec fn is_flat(c: Chunk, k: (i32, i32, i32)) -> bool {
        &&& c.coords() == k
        &&& c@.len() == 32768
        &&& forall|x: int, y: int, z: int|
            #![trigger c.block_at(x, y, z)]
            in_chunk(x, y, z) ==> c.block_at(x, y, z) == (if y == 0 {
                Block { id: 1 }
            } else {
                air()
            })
    }

    /// A flat chunk: its bottom layer (y = 0) is made of blocks of id 1, the rest is air.
    pub fn generate(cx: i32, cy: i32, cz: i32) -> (c: Chunk)
        ensures
            Chunk::is_flat(c, (cx, cy, cz)),
    {
        let mut chunk = Chunk { blocks: [Block::air();32768], x: cx, y: cy, z: cz };
        let block = Block::new(1);
        let mut x: i32 = 0;
        while x < CHUNK_SIZE
            invariant
                0 <= x <= 32,
                chunk.coords() == (cx, cy, cz),
                block == (Block { id: 1 }),
                forall|i: int|
                    0 <= i < 32768 ==> #[trigger] chunk.blocks@[i] == (if (i / 32) % 32 == 0 && i
                        % 32 < x {
                        Block { id: 1 }
                    } else {
                        air()
                    }),
            decreases 32 - x,
        {
            let mut z: i32 = 0;
            while z < CHUNK_SIZE
                invariant
                    0 <= x < 32,
                    0 <= z <= 32,
                    chunk.coords() == (cx, cy, cz),
                    block == (Block { id: 1 }),
                    forall|i: int|
                        0 <= i < 32768 ==> #[trigger] chunk.blocks@[i] == (if (i / 32) % 32 == 0
                            && (i % 32 < x || (i % 32 == x && i / 1024 < z)) {
                            Block { id: 1 }
                        } else {
                            air()
                        }),
                decreases 32 - z,
            {
                chunk.set_block_from_xyz(x, 0, z, block.clone());
                z = z + 1;
            }
            x = x + 1;
        }
        proof {
            assert forall|x: int, y: int, z: int| in_chunk(x, y, z) implies #[trigger] chunk.block_at(
                x,
                y,
                z,
            ) == (if y == 0 {
                Block { id: 1 }
            } else {
                air()
            }) by {
                let i = chunk_index(x, y, z);
                assert(i / 32 == y + z * 32 && i % 32 == x) by (nonlinear_arith)
                    requires
                        i == x + y * 32 + z * 1024,
                        0 <= x < 32,
                        0 <= y < 32,
                        0 <= z < 32,
                ;
                assert((y + z * 32) % 32 == y) by (nonlinear_arith)
                    requires
                        0 <= y < 32,
                        0 <= z < 32,
                ;
            }
        }
        chunk
    }

    /// The block at chunk-local coordinates (`x + 32 y + 1024 z` must index the chunk).
    pub fn get_block_from_xyz(&self, x: i32, y: i32, z: i32) -> (b: Block)
        requires
            chunk_index_ok(x, y, z),
        ensures
            b == self@[chunk_index(x as int, y as int, z as int)],
    {
        self.get_block_from_i((x + y * CHUNK_SIZE + z * CHUNK_SIZE_SQR) as usize)
    }

    /// The block at an index of the block array.
    pub fn get_block_from_i(&self, i: usize) -> (b: Block)
        requires
            i < 32768,
        ensures
            b == self@[i as int],
    {
        self.blocks[i]
    }

    /// Every chunk holds 32 x 32 x 32 = 32768 blocks.
    pub proof fn lemma_block_count(self)
        ensures
            self@.len() == 32768,
    {
    }

    /// Stores a block at chunk-local coordinates (`x + 32 y + 1024 z` must index the chunk):
    /// the block read at those coordinates is then `block`, and every other block of the chunk
    /// reads as before.
    pub fn set_block_from_xyz(&mut self, x: i32, y: i32, z: i32, block: Block)
        requires
            chunk_index_ok(x, y, z),
        ensures
            final(self)@ == old(self)@.update(chunk_index(x as int, y as int, z as int), block),
            final(self).coords() == old(self).coords(),
            final(self)@.len() == 32768,
            forall|a: int, b: int, c: int|
                in_chunk(a, b, c) ==> #[trigger] final(self).block_at(a, b, c) == if chunk_index(a, b, c)
                    == chunk_index(x as int, y as int, z as int) {
                    block
                } else {
                    old(self).block_at(a, b, c)
                },
            in_chunk(x as int, y as int, z as int) ==> final(self).block_at(x as int, y as int, z as int)
                == block,
            in_chunk(x as int, y as int, z as int) ==> forall|a: int, b: int, c: int|
                in_chunk(a, b, c) && (a, b, c) != (x as int, y as int, z as int) ==> #[trigger] final(self).block_at(a, b, c)
                    == old(self).block_at(a, b, c),
    {
        self.set_block_from_i((x + y * CHUNK_SIZE + z * CHUNK_SIZE_SQR) as usize, block);
        proof {
            assert forall|a: int, b: int, c: int|
                in_chunk(a, b, c) && (a, b, c) != (x as int, y as int, z as int) && in_chunk(
                    x as int,
                    y as int,
                    z as int,
                ) implies chunk_index(a, b, c) != chunk_index(x as int, y as int, z as int) by {
                if chunk_index(a, b, c) == chunk_index(x as int, y as int, z as int) {
                    lemma_chunk_index_injective(a, b, c, x as int, y as int, z as int);
                }
            }
        }
    }

    /// Stores a block at an index of the block array.
    pub fn set_block_from_i(&mut self, i: usize, block: Block)
        requires
            i < 32768,
        ensures
            final(self)@ == old(self)@.update(i as int, block),
            final(self).coords() == old(self).coords(),
            final(self)@.len() == 32768,
    {
        self.blocks[i] = block;
    }
}


/// Whether a padded-chunk coordinate lies in the centre range `1..=32`.
pub open spec fn in_center(a: int) -> bool {
    1 <= a <= 32
}

/// Whether padded-chunk coordinates lie inside a padded chunk.
pub open spec fn in_padded(x: int, y: int, z: int) -> bool {
    0 <= x < 34 && 0 <= y < 34 && 0 <= z < 34
}

/// The block of an optional neighbour chunk at chunk-local coordinates, or air when there is
/// no neighbour.
pub open spec fn neighbor_block(n: Option<Seq<Block>>, x: int, y: int, z: int) -> Block {
    match n {
        Some(v) => v[chunk_index(x, y, z)],
        None => air(),
    }
}

/// The block a padded chunk holds at `(x, y, z)` when it is built from chunk `c` and its six
/// neighbours: `c` fills the centre, each face of the border comes from the facing side of
/// the neighbour on that side (air when it is absent), and the edges and corners are air.
pub open spec fn padded_block(
    c: Seq<Block>,
    neg_x: Option<Seq<Block>>,
    pos_x: Option<Seq<Block>>,
    neg_y: Option<Seq<Block>>,
    pos_y: Option<Seq<Block>>,
    neg_z: Option<Seq<Block>>,
    pos_z: Option<Seq<Block>>,
    x: int,
    y: int,
    z: int,
) -> Block {
    if in_center(x) && in_center(y) && in_center(z) {
        c[chunk_index(x - 1, y - 1, z - 1)]
    } else if x == 0 && in_center(y) && in_center(z) {
        neighbor_block(neg_x, 31, y - 1, z - 1)
    } else if x == 33 && in_center(y) && in_center(z) {
        neighbor_block(pos_x, 0, y - 1, z - 1)
    } else if y == 0 && in_center(x) && in_center(z) {
        neighbor_block(neg_y, x - 1, 31, z - 1)
    } else if y == 33 && in_center(x) && in_center(z) {
        neighbor_block(pos_y, x - 1, 0, z - 1)
    } else if z == 0 && in_center(x) && in_center(y) {
        neighbor_block(neg_z, x - 1, y - 1, 31)
    } else if z == 33 && in_center(x) && in_center(y) {
        neighbor_block(pos_z, x - 1, y - 1, 0)
    } else {
        air()
    }
}

/// The blocks of an optional chunk.
pub open spec fn view_of(c: Option<&Chunk>) -> Option<Seq<Block>> {
    match c {
        Some(c) => Some(c@),
        None => None,
    }
}

/// The block at `(x, y, z)` of a padded chunk holding `old` there, after each border face
/// with a neighbour has been filled from that neighbour.
pub open spec fn bordered_block(
    old: Block,
    neg_x: Option<Seq<Block>>,
    pos_x: Option<Seq<Block>>,
    neg_y: Option<Seq<Block>>,
    pos_y: Option<Seq<Block>>,
    neg_z: Option<Seq<Block>>,
    pos_z: Option<Seq<Block>>,
    x: int,
    y: int,
    z: int,
) -> Block {
    if x == 0 && in_center(y) && in_center(z) && neg_x is Some {
        neighbor_block(neg_x, 31, y - 1, z - 1)
    } else if x == 33 && in_center(y) && in_center(z) && pos_x is Some {
        neighbor_block(pos_x, 0, y - 1, z - 1)
    } else if y == 0 && in_center(x) && in_center(z) && neg_y is Some {
        neighbor_block(neg_y, x - 1, 31, z - 1)
    } else if y == 33 && in_center(x) && in_center(z) && pos_y is Some {
        neighbor_block(pos_y, x - 1, 0, z - 1)
    } else if z == 0 && in_center(x) && in_center(y) && neg_z is Some {
        neighbor_block(neg_z, x - 1, y - 1, 31)
    } else if z == 33 && in_center(x) && in_center(y) && pos_z is Some {
        neighbor_block(pos_z, x - 1, y - 1, 0)
    } else {
        old
    }
}

/// Distinct padded coordinates have distinct indices.
pub proof fn lemma_padded_index_injective(a: int, b: int, c: int, x: int, y: int, z: int)
    requires
        in_padded(a, b, c),
        in_padded(x, y, z),
        padded_index(a, b, c) == padded_index(x, y, z),
    ensures
        a == x && b == y && c == z,
{
}

/// A 34 x 34 x 34 copy of a chunk with a one-block border taken from its neighbours, so that
/// meshing can look one block past the chunk's sides.
pub struct PaddedChunk {
    blocks: [Block; 39304],
}

impl View for PaddedChunk {
    type V = Seq<Block>;

    closed spec fn view(&self) -> Seq<Block> {
        self.blocks@
    }
}

impl PaddedChunk {
    /// The block at padded coordinates.
    pub open spec fn block_at(&self, x: int, y: int, z: int) -> Block {
        self@[padded_index(x, y, z)]
    }

    /// A padded chunk made only of air.
    pub fn empty() -> (p: PaddedChunk)
        ensures
            p@.len() == 39304,
            forall|i: int| 0 <= i < 39304 ==> #[trigger] p@[i] == air(),
    {
        PaddedChunk { blocks: [Block::air();39304] }
    }

    /// The block at padded coordinates (`x + 34 y + 1156 z` must index the padded chunk).
    pub fn get_block_from_xyz(&self, x: i32, y: i32, z: i32) -> (b: Block)
        requires
            padded_index_ok(x, y, z),
        ensures
            b == self@[padded_index(x as int, y as int, z as int)],
    {
        self.get_block_from_i((x + y * PADDED_CHUNK_SIZE + z * PADDED_CHUNK_SIZE_SQR) as usize)
    }

    /// The block at an index of the block array.
    pub fn get_block_from_i(&self, i: usize) -> (b: Block)
        requires
            i < 39304,
        ensures
            b == self@[i as int],
    {
        self.blocks[i]
    }

    fn set_block_from_xyz(&mut self, x: i32, y: i32, z: i32, block: Block)
        requires
            padded_index_ok(x, y, z),
        ensures
            final(self)@ == old(self)@.update(padded_index(x as int, y as int, z as int), block),
    {
        self.set_block_from_i((x + y * PADDED_CHUNK_SIZE + z * PADDED_CHUNK_SIZE_SQR) as usize, block);
    }

    fn set_block_from_i(&mut self, i: usize, block: Block)
        requires
            i < 39304,
        ensures
            final(self)@ == old(self)@.update(i as int, block),
    {
        self.blocks[i] = block;
    }

    /// Copies the +X side (x = 31) of `chunk` into the border face x = 0.
    pub fn fill_neg_x(&mut self, chunk: &Chunk)
        ensures
            forall|x: int, y: int, z: int|
                #![trigger final(self).block_at(x, y, z)]
                in_padded(x, y, z) ==> final(self).block_at(x, y, z) == (if x == 0 && in_center(y) && in_center(z) {
                    chunk.block_at(31, y - 1, z - 1)
                } else {
                    old(self).block_at(x, y, z)
                }),
    {
        let ghost start = *self;
        let mut y: i32 = FIRST_PADDED_CHUNK_CENTER_INDEX;
        while y <= LAST_PADDED_CHUNK_CENTER_INDEX
            invariant
                1 <= y <= 33,
                forall|a: int, b: int, c: int|
                    #![trigger self.block_at(a, b, c)]
                    in_padded(a, b, c) ==> self.block_at(a, b, c) == (if a == 0 && 1 <= b < y
                        && in_center(c) {
                        chunk.block_at(31, b - 1, c - 1)
                    } else {
                        start.block_at(a, b, c)
                    }),
            decreases 33 - y,
        {
            let mut z: i32 = FIRST_PADDED_CHUNK_CENTER_INDEX;
            while z <= LAST_PADDED_CHUNK_CENTER_INDEX
                invariant
                    1 <= y <= 32,
                    1 <= z <= 33,
                    forall|a: int, b: int, c: int|
                        #![trigger self.block_at(a, b, c)]
                        in_padded(a, b, c) ==> self.block_at(a, b, c) == (if a == 0 && in_center(c)
                            && (1 <= b < y || (b == y && c < z)) {
                            chunk.block_at(31, b - 1, c - 1)
                        } else {
                            start.block_at(a, b, c)
                        }),
                decreases 33 - z,
            {
                let ghost before = *self;
                let blk = chunk.get_block_from_xyz(LAST_CHUNK_AXIS_INDEX, y - 1, z - 1);
                self.set_block_from_xyz(0, y, z, blk);
                proof {
                    assert forall|a: int, b: int, c: int| in_padded(a, b, c) && (a, b, c) != (
                        0int,
                        y as int,
                        z as int,
                    ) implies #[trigger] self.block_at(a, b, c) == before.block_at(a, b, c) by {
                        if padded_index(a, b, c) == padded_index(0int, y as int, z as int) {
                            lemma_padded_index_injective(a, b, c, 0int, y as int, z as int);
                        }
                    }
                }
                z = z + 1;
            }
            y = y + 1;
        }
    }

    /// Copies the -X side (x = 0) of `chunk` into the border face x = 33.
    pub fn fill_pos_x(&mut self, chunk: &Chunk)
        ensures
            forall|x: int, y: int, z: int|
                #![trigger final(self).block_at(x, y, z)]
                in_padded(x, y, z) ==> final(self).block_at(x, y, z) == (if x == 33 && in_center(y) && in_center(z) {
                    chunk.block_at(0, y - 1, z - 1)
                } else {
                    old(self).block_at(x, y, z)
                }),
    {
        let ghost start = *self;
        let mut y: i32 = FIRST_PADDED_CHUNK_CENTER_INDEX;
        while y <= LAST_PADDED_CHUNK_CENTER_INDEX
            invariant
                1 <= y <= 33,
                forall|a: int, b: int, c: int|
                    #![trigger self.block_at(a, b, c)]
                    in_padded(a, b, c) ==> self.block_at(a, b, c) == (if a == 33 && 1 <= b < y
                        && in_center(c) {
                        chunk.block_at(0, b - 1, c - 1)
                    } else {
                        start.block_at(a, b, c)
                    }),
            decreases 33 - y,
        {
            let mut z: i32 = FIRST_PADDED_CHUNK_CENTER_INDEX;
            while z <= LAST_PADDED_CHUNK_CENTER_INDEX
                invariant
                    1 <= y <= 32,
                    1 <= z <= 33,
                    forall|a: int, b: int, c: int|
                        #![trigger self.block_at(a, b, c)]
                        in_padded(a, b, c) ==> self.block_at(a, b, c) == (if a == 33 && in_center(c)
                            && (1 <= b < y || (b == y && c < z)) {
                            chunk.block_at(0, b - 1, c - 1)
                        } else {
                            start.block_at(a, b, c)
                        }),
                decreases 33 - z,
            {
                let ghost before = *self;
                let blk = chunk.get_block_from_xyz(0, y - 1, z - 1);
                self.set_block_from_xyz(33, y, z, blk);
                proof {
                    assert forall|a: int, b: int, c: int| in_padded(a, b, c) && (a, b, c) != (
                        33int,
                        y as int,
                        z as int,
                    ) implies #[trigger] self.block_at(a, b, c) == before.block_at(a, b, c) by {
                        if padded_index(a, b, c) == padded_index(33int, y as int, z as int) {
                            lemma_padded_index_injective(a, b, c, 33int, y as int, z as int);
                        }
                    }
                }
                z = z + 1;
            }
            y = y + 1;
        }
    }

    /// Copies the +Y side (y = 31) of `chunk` into the border face y = 0.
    pub fn fill_neg_y(&mut self, chunk: &Chunk)
        ensures
            forall|x: int, y: int, z: int|
                #![trigger final(self).block_at(x, y, z)]
                in_padded(x, y, z) ==> final(self).block_at(x, y, z) == (if y == 0 && in_center(x) && in_center(z) {
                    chunk.block_at(x - 1, 31, z - 1)
                } else {
                    old(self).block_at(x, y, z)
                }),
    {
        let ghost start = *self;
        let mut x: i32 = FIRST_PADDED_CHUNK_CENTER_INDEX;
        while x <= LAST_PADDED_CHUNK_CENTER_INDEX
            invariant
                1 <= x <= 33,
                forall|a: int, b: int, c: int|
                    #![trigger self.block_at(a, b, c)]
                    in_padded(a, b, c) ==> self.block_at(a, b, c) == (if b == 0 && 1 <= a < x
                        && in_center(c) {
                        chunk.block_at(a - 1, 31, c - 1)
                    } else {
                        start.block_at(a, b, c)
                    }),
            decreases 33 - x,
        {
            let mut z: i32 = FIRST_PADDED_CHUNK_CENTER_INDEX;
            while z <= LAST_PADDED_CHUNK_CENTER_INDEX
                invariant
                    1 <= x <= 32,
                    1 <= z <= 33,
                    forall|a: int, b: int, c: int|
                        #![trigger self.block_at(a, b, c)]
                        in_padded(a, b, c) ==> self.block_at(a, b, c) == (if b == 0 && in_center(c)
                            && (1 <= a < x || (a == x && c < z)) {
                            chunk.block_at(a - 1, 31, c - 1)
                        } else {
                            start.block_at(a, b, c)
                        }),
                decreases 33 - z,
            {
                let ghost before = *self;
                let blk = chunk.get_block_from_xyz(x - 1, LAST_CHUNK_AXIS_INDEX, z - 1);
                self.set_block_from_xyz(x, 0, z, blk);
                proof {
                    assert forall|a: int, b: int, c: int| in_padded(a, b, c) && (a, b, c) != (
                        x as int,
                        0int,
                        z as int,
                    ) implies #[trigger] self.block_at(a, b, c) == before.block_at(a, b, c) by {
                        if padded_index(a, b, c) == padded_index(x as int, 0int, z as int) {
                            lemma_padded_index_injective(a, b, c, x as int, 0int, z as int);
                        }
                    }
                }
                z = z + 1;
            }
            x = x + 1;
        }
    }

    /// Copies the -Y side (y = 0) of `chunk` into the border face y = 33.
    pub fn fill_pos_y(&mut self, chunk: &Chunk)
        ensures
            forall|x: int, y: int, z: int|
                #![trigger final(self).block_at(x, y, z)]
                in_padded(x, y, z) ==> final(self).block_at(x, y, z) == (if y == 33 && in_center(x) && in_center(z) {
                    chunk.block_at(x - 1, 0, z - 1)
                } else {
                    old(self).block_at(x, y, z)
                }),
    {
        let ghost start = *self;
        let mut x: i32 = FIRST_PADDED_CHUNK_CENTER_INDEX;
        while x <= LAST_PADDED_CHUNK_CENTER_INDEX
            invariant
                1 <= x <= 33,
                forall|a: int, b: int, c: int|
                    #![trigger self.block_at(a, b, c)]
                    in_padded(a, b, c) ==> self.block_at(a, b, c) == (if b == 33 && 1 <= a < x
                        && in_center(c) {
                        chunk.block_at(a - 1, 0, c - 1)
                    } else {
                        start.block_at(a, b, c)
                    }),
            decreases 33 - x,
        {
            let mut z: i32 = FIRST_PADDED_CHUNK_CENTER_INDEX;
            while z <= LAST_PADDED_CHUNK_CENTER_INDEX
                invariant
                    1 <= x <= 32,
                    1 <= z <= 33,
                    forall|a: int, b: int, c: int|
                        #![trigger self.block_at(a, b, c)]
                        in_padded(a, b, c) ==> self.block_at(a, b, c) == (if b == 33 && in_center(c)
                            && (1 <= a < x || (a == x && c < z)) {
                            chunk.block_at(a - 1, 0, c - 1)
                        } else {
                            start.block_at(a, b, c)
                        }),
                decreases 33 - z,
            {
                let ghost before = *self;
                let blk = chunk.get_block_from_xyz(x - 1, 0, z - 1);
                self.set_block_from_xyz(x, 33, z, blk);
                proof {
                    assert forall|a: int, b: int, c: int| in_padded(a, b, c) && (a, b, c) != (
                        x as int,
                        33int,
                        z as int,
                    ) implies #[trigger] self.block_at(a, b, c) == before.block_at(a, b, c) by {
                        if padded_index(a, b, c) == padded_index(x as int, 33int, z as int) {
                            lemma_padded_index_injective(a, b, c, x as int, 33int, z as int);
                        }
                    }
                }
                z = z + 1;
            }
            x = x + 1;
        }
    }

    /// Copies the +Z side (z = 31) of `chunk` into the border face z = 0.
    pub fn fill_neg_z(&mut self, chunk: &Chunk)
        ensures
            forall|x: int, y: int, z: int|
                #![trigger final(self).block_at(x, y, z)]
                in_padded(x, y, z) ==> final(self).block_at(x, y, z) == (if z == 0 && in_center(x) && in_center(y) {
                    chunk.block_at(x - 1, y - 1, 31)
                } else {
                    old(self).block_at(x, y, z)
                }),
    {
        let ghost start = *self;
        let mut x: i32 = FIRST_PADDED_CHUNK_CENTER_INDEX;
        while x <= LAST_PADDED_CHUNK_CENTER_INDEX
            invariant
                1 <= x <= 33,
                forall|a: int, b: int, c: int|
                    #![trigger self.block_at(a, b, c)]
                    in_padded(a, b, c) ==> self.block_at(a, b, c) == (if c == 0 && 1 <= a < x
                        && in_center(b) {
                        chunk.block_at(a - 1, b - 1, 31)
                    } else {
                        start.block_at(a, b, c)
                    }),
            decreases 33 - x,
        {
            let mut y: i32 = FIRST_PADDED_CHUNK_CENTER_INDEX;
            while y <= LAST_PADDED_CHUNK_CENTER_INDEX
                invariant
                    1 <= x <= 32,
                    1 <= y <= 33,
                    forall|a: int, b: int, c: int|
                        #![trigger self.block_at(a, b, c)]
                        in_padded(a, b, c) ==> self.block_at(a, b, c) == (if c == 0 && in_center(b)
                            && (1 <= a < x || (a == x && b < y)) {
                            chunk.block_at(a - 1, b - 1, 31)
                        } else {
                            start.block_at(a, b, c)
                        }),
                decreases 33 - y,
            {
                let ghost before = *self;
                let blk = chunk.get_block_from_xyz(x - 1, y - 1, LAST_CHUNK_AXIS_INDEX);
                self.set_block_from_xyz(x, y, 0, blk);
                proof {
                    assert forall|a: int, b: int, c: int| in_padded(a, b, c) && (a, b, c) != (
                        x as int,
                        y as int,
                        0int,
                    ) implies #[trigger] self.block_at(a, b, c) == before.block_at(a, b, c) by {
                        if padded_index(a, b, c) == padded_index(x as int, y as int, 0int) {
                            lemma_padded_index_injective(a, b, c, x as int, y as int, 0int);
                        }
                    }
                }
                y = y + 1;
            }
            x = x + 1;
        }
    }

    /// Copies the -Z side (z = 0) of `chunk` into the border face z = 33.
    pub fn fill_pos_z(&mut self, chunk: &Chunk)
        ensures
            forall|x: int, y: int, z: int|
                #![trigger final(self).block_at(x, y, z)]
                in_padded(x, y, z) ==> final(self).block_at(x, y, z) == (if z == 33 && in_center(x) && in_center(y) {
                    chunk.block_at(x - 1, y - 1, 0)
                } else {
                    old(self).block_at(x, y, z)
                }),
    {
        let ghost start = *self;
        let mut x: i32 = FIRST_PADDED_CHUNK_CENTER_INDEX;
        while x <= LAST_PADDED_CHUNK_CENTER_INDEX
            invariant
                1 <= x <= 33,
                forall|a: int, b: int, c: int|
                    #![trigger self.block_at(a, b, c)]
                    in_padded(a, b, c) ==> self.block_at(a, b, c) == (if c == 33 && 1 <= a < x
                        && in_center(b) {
                        chunk.block_at(a - 1, b - 1, 0)
                    } else {
                        start.block_at(a, b, c)
                    }),
            decreases 33 - x,
        {
            let mut y: i32 = FIRST_PADDED_CHUNK_CENTER_INDEX;
            while y <= LAST_PADDED_CHUNK_CENTER_INDEX
                invariant
                    1 <= x <= 32,
                    1 <= y <= 33,
                    forall|a: int, b: int, c: int|
                        #![trigger self.block_at(a, b, c)]
                        in_padded(a, b, c) ==> self.block_at(a, b, c) == (if c == 33 && in_center(b)
                            && (1 <= a < x || (a == x && b < y)) {
                            chunk.block_at(a - 1, b - 1, 0)
                        } else {
                            start.block_at(a, b, c)
                        }),
                decreases 33 - y,
            {
                let ghost before = *self;
                let blk = chunk.get_block_from_xyz(x - 1, y - 1, 0);
                self.set_block_from_xyz(x, y, 33, blk);
                proof {
                    assert forall|a: int, b: int, c: int| in_padded(a, b, c) && (a, b, c) != (
                        x as int,
                        y as int,
                        33int,
                    ) implies #[trigger] self.block_at(a, b, c) == before.block_at(a, b, c) by {
                        if padded_index(a, b, c) == padded_index(x as int, y as int, 33int) {
                            lemma_padded_index_injective(a, b, c, x as int, y as int, 33int);
                        }
                    }
                }
                y = y + 1;
            }
            x = x + 1;
        }
    }

    /// Fills each border face from the neighbour on that side, when there is one; faces with no
    /// neighbour are left as they were.
    pub fn fill_edges(
        &mut self,
        neg_x: Option<&Chunk>,
        pos_x: Option<&Chunk>,
        neg_y: Option<&Chunk>,
        pos_y: Option<&Chunk>,
        neg_z: Option<&Chunk>,
        pos_z: Option<&Chunk>,
    )
        ensures
            forall|x: int, y: int, z: int|
                #![trigger final(self).block_at(x, y, z)]
                in_padded(x, y, z) ==> final(self).block_at(x, y, z) == bordered_block(
                    old(self).block_at(x, y, z),
                    view_of(neg_x),
                    view_of(pos_x),
                    view_of(neg_y),
                    view_of(pos_y),
                    view_of(neg_z),
                    view_of(pos_z),
                    x,
                    y,
                    z,
                ),
    {
        if let Some(neg_x) = neg_x {
            self.fill_neg_x(neg_x);
        }
        if let Some(pos_x) = pos_x {
            self.fill_pos_x(pos_x);
        }
        if let Some(neg_y) = neg_y {
            self.fill_neg_y(neg_y);
        }
        if let Some(pos_y) = pos_y {
            self.fill_pos_y(pos_y);
        }
        if let Some(neg_z) = neg_z {
            self.fill_neg_z(neg_z);
        }
        if let Some(pos_z) = pos_z {
            self.fill_pos_z(pos_z);
        }
    }
}

/// The map key under which the chunk at chunk coordinates `(cx, cy, cz)` is stored: the three
/// coordinates, each shifted to be non-negative, as the digits of a number in base 2^32.
pub open spec fn chunk_key(cx: i32, cy: i32, cz: i32) -> u128 {
    ((cx + 0x8000_0000) * 0x1_0000_0000_0000_0000 + (cy + 0x8000_0000) * 0x1_0000_0000 + (cz
        + 0x8000_0000)) as u128
}

/// Distinct chunk coordinates have distinct keys.
pub proof fn lemma_chunk_key_injective(a: (i32, i32, i32), b: (i32, i32, i32))
    requires
        chunk_key(a.0, a.1, a.2) == chunk_key(b.0, b.1, b.2),
    ensures
        a == b,
{
    let (a0, a1, a2) = (a.0 + 0x8000_0000, a.1 + 0x8000_0000, a.2 + 0x8000_0000);
    let (b0, b1, b2) = (b.0 + 0x8000_0000, b.1 + 0x8000_0000, b.2 + 0x8000_0000);
    assert(a0 * 0x1_0000_0000_0000_0000 + a1 * 0x1_0000_0000 + a2 == b0 * 0x1_0000_0000_0000_0000
        + b1 * 0x1_0000_0000 + b2);
    assert(a0 == b0 && a1 == b1 && a2 == b2) by (nonlinear_arith)
        requires
            a0 * 0x1_0000_0000_0000_0000 + a1 * 0x1_0000_0000 + a2 == b0 * 0x1_0000_0000_0000_0000
                + b1 * 0x1_0000_0000 + b2,
            0 <= a0 < 0x1_0000_0000,
            0 <= a1 < 0x1_0000_0000,
            0 <= a2 < 0x1_0000_0000,
            0 <= b0 < 0x1_0000_0000,
            0 <= b1 < 0x1_0000_0000,
            0 <= b2 < 0x1_0000_0000,
    ;
}

/// The key of chunk coordinates.
fn key_of(cx: i32, cy: i32, cz: i32) -> (k: u128)
    ensures
        k == chunk_key(cx, cy, cz),
{
    let a: u128 = (cx as i64 + 0x8000_0000i64) as u128;
    let b: u128 = (cy as i64 + 0x8000_0000i64) as u128;
    let c: u128 = (cz as i64 + 0x8000_0000i64) as u128;
    a * 0x1_0000_0000_0000_0000u128 + b * 0x1_0000_0000u128 + c
}

/// The block at world coordinates of a world whose chunks are `m`: the block of the chunk
/// that holds those coordinates, or air where no chunk is loaded.
pub open spec fn world_block(m: Map<(i32, i32, i32), Chunk>, x: int, y: int, z: int) -> Block {
    let k = ((x / 32) as i32, (y / 32) as i32, (z / 32) as i32);
    if m.contains_key(k) {
        m[k].block_at(x % 32, y % 32, z % 32)
    } else {
        air()
    }
}

/// The loaded chunks, by chunk coordinates.
pub struct World {
    chunks: HashMap<u128, Chunk>,
}

impl View for World {
    type V = Map<(i32, i32, i32), Chunk>;

    closed spec fn view(&self) -> Map<(i32, i32, i32), Chunk> {
        keyed_view(self.chunks@)
    }
}

/// The chunks stored in `m` under their keys, by chunk coordinates.
spec fn keyed_view(m: Map<u128, Chunk>) -> Map<(i32, i32, i32), Chunk> {
    Map::new(
        |k: (i32, i32, i32)| m.contains_key(chunk_key(k.0, k.1, k.2)),
        |k: (i32, i32, i32)| m[chunk_key(k.0, k.1, k.2)],
    )
}

/// Storing or removing a chunk under the key of `k` changes the chunks by coordinates only at `k`.
proof fn lemma_keyed_view_update(m: Map<u128, Chunk>, k: (i32, i32, i32), c: Chunk)
    ensures
        keyed_view(m.insert(chunk_key(k.0, k.1, k.2), c)) == keyed_view(m).insert(k, c),
        keyed_view(m.remove(chunk_key(k.0, k.1, k.2))) == keyed_view(m).remove(k),
{
    assert forall|q: (i32, i32, i32)| chunk_key(q.0, q.1, q.2) == chunk_key(k.0, k.1, k.2) implies q
        == k by {
        lemma_chunk_key_injective(q, k);
    }
    assert(keyed_view(m.insert(chunk_key(k.0, k.1, k.2), c)) =~= keyed_view(m).insert(k, c));
    assert(keyed_view(m.remove(chunk_key(k.0, k.1, k.2))) =~= keyed_view(m).remove(k));
}

impl World {
    /// A world with no chunk loaded.
    pub fn new() -> (w: World)
        ensures
            w@ == Map::<(i32, i32, i32), Chunk>::empty(),
    {
        let w = World { chunks: HashMap::new() };
        assert(w@ =~= Map::<(i32, i32, i32), Chunk>::empty());
        w
    }

    /// The chunk at chunk coordinates, if it is loaded.
    pub fn get_chunk(&self, cx: i32, cy: i32, cz: i32) -> (r: Option<&Chunk>)
        ensures
            r is Some == self@.contains_key((cx, cy, cz)),
            r is Some ==> *r.unwrap() == self@[(cx, cy, cz)],
    {
        let k = key_of(cx, cy, cz);
        self.chunks.get(&k)
    }

    /// Loads `chunk` at chunk coordinates `(cx, cy, cz)`, replacing any chunk there.
    pub fn set_chunk(&mut self, cx: i32, cy: i32, cz: i32, chunk: Chunk)
        ensures
            final(self)@ == old(self)@.insert((cx, cy, cz), chunk),
    {
        let k = key_of(cx, cy, cz);
        self.chunks.insert(k, chunk);
        proof {
            assert forall|q: (i32, i32, i32)| chunk_key(q.0, q.1, q.2) == k implies q == (cx, cy, cz) by {
                lemma_chunk_key_injective(q, (cx, cy, cz));
            }
            assert(self@ =~= old(self)@.insert((cx, cy, cz), chunk));
        }
    }

    /// The block at world coordinates: the block of the loaded chunk that holds them
    /// (chunk `(x div 32, y div 32, z div 32)`, at `(x mod 32, y mod 32, z mod 32)`), or air.
    pub fn get_block_from_xyz(&self, x: i32, y: i32, z: i32) -> (b: Block)
        ensures
            b == world_block(self@, x as int, y as int, z as int),
            !self@.contains_key(((x as int / 32) as i32, (y as int / 32) as i32, (z as int / 32) as i32))
                ==> b.id == 0,
            self@.contains_key(((x as int / 32) as i32, (y as int / 32) as i32, (z as int / 32) as i32))
                ==> b == self@[((x as int / 32) as i32, (y as int / 32) as i32, (z as int / 32) as i32)]@[(
            x as int % 32) + (y as int % 32) * 32 + (z as int % 32) * 1024],
    {
        let cx: i32 = x.checked_div_euclid(CHUNK_SIZE).unwrap();
        let cy: i32 = y.checked_div_euclid(CHUNK_SIZE).unwrap();
        let cz: i32 = z.checked_div_euclid(CHUNK_SIZE).unwrap();
        let cbx: i32 = x.checked_rem_euclid(CHUNK_SIZE).unwrap();
        let cby: i32 = y.checked_rem_euclid(CHUNK_SIZE).unwrap();
        let cbz: i32 = z.checked_rem_euclid(CHUNK_SIZE).unwrap();
        if let Some(chunk) = self.get_chunk(cx, cy, cz) {
            chunk.get_block_from_xyz(cbx, cby, cbz)
        } else {
            Block::air()
        }
    }

    /// The block at coordinates `(lx, ly, lz)` local to chunk `(cx, cy, cz)`; coordinates
    /// outside `0..32` reach into the neighbouring chunks.
    pub fn get_local_block_from_xyz(&self, lx: i32, ly: i32, lz: i32, cx: i32, cy: i32, cz: i32) -> (b:
        Block)
        requires
            (0 <= lx < 32 && 0 <= ly < 32 && 0 <= lz < 32) || (i32::MIN <= lx + cx * 32 <= i32::MAX
                && i32::MIN <= ly + cy * 32 <= i32::MAX && i32::MIN <= lz + cz * 32 <= i32::MAX
                && i32::MIN <= cx * 32 <= i32::MAX && i32::MIN <= cy * 32 <= i32::MAX && i32::MIN
                <= cz * 32 <= i32::MAX),
        ensures
            b == world_block(self@, lx + cx * 32, ly + cy * 32, lz + cz * 32),
            0 <= lx < 32 && 0 <= ly < 32 && 0 <= lz < 32 && !self@.contains_key((cx, cy, cz)) ==> b.id
                == 0,
            0 <= lx < 32 && 0 <= ly < 32 && 0 <= lz < 32 && self@.contains_key((cx, cy, cz)) ==> b
                == self@[(cx, cy, cz)]@[lx + ly * 32 + lz * 1024],
    {
        if !(0 <= lx && lx < CHUNK_SIZE) || !(0 <= ly && ly < CHUNK_SIZE) || !(0 <= lz && lz
            < CHUNK_SIZE) {
            return self.get_block_from_xyz(
                lx + cx * CHUNK_SIZE,
                ly + cy * CHUNK_SIZE,
                lz + cz * CHUNK_SIZE,
            );
        }
        proof {
            lemma_local_to_world(lx as int, cx as int);
            lemma_local_to_world(ly as int, cy as int);
            lemma_local_to_world(lz as int, cz as int);
        }
        if let Some(chunk) = self.get_chunk(cx, cy, cz) {
            chunk.get_block_from_xyz(lx, ly, lz)
        } else {
            Block::air()
        }
    }
}

/// A chunk-local coordinate `l` in `0..32` of chunk `c` is world coordinate `l + 32 c`, which
/// lies in chunk `c` at local coordinate `l`.
pub proof fn lemma_local_to_world(l: int, c: int)
    requires
        0 <= l < 32,
    ensures
        (l + c * 32) / 32 == c,
        (l + c * 32) % 32 == l,
{
    assert((l + c * 32) / 32 == c && (l + c * 32) % 32 == l) by (nonlinear_arith)
        requires
            0 <= l < 32,
    ;
}

/// The block at world coordinates `(32 cx + lx, 32 cy + ly, 32 cz + lz)`, with local
/// coordinates in `0..32`, is block `(lx, ly, lz)` of the chunk loaded at `(cx, cy, cz)`, and
/// air (id 0) when no chunk is loaded there.
pub proof fn lemma_world_block_lookup(
    m: Map<(i32, i32, i32), Chunk>,
    cx: i32,
    cy: i32,
    cz: i32,
    lx: int,
    ly: int,
    lz: int,
)
    requires
        0 <= lx < 32,
        0 <= ly < 32,
        0 <= lz < 32,
    ensures
        !m.contains_key((cx, cy, cz)) ==> world_block(m, cx * 32 + lx, cy * 32 + ly, cz * 32 + lz).id
            == 0,
        m.contains_key((cx, cy, cz)) ==> world_block(m, cx * 32 + lx, cy * 32 + ly, cz * 32 + lz)
            == m[(cx, cy, cz)]@[lx + ly * 32 + lz * 1024],
{
    lemma_local_to_world(lx, cx as int);
    lemma_local_to_world(ly, cy as int);
    lemma_local_to_world(lz, cz as int);
    assert(lx + cx * 32 == cx * 32 + lx);
    assert(((cx * 32 + lx) / 32) as i32 == cx);
    assert(((cy * 32 + ly) / 32) as i32 == cy);
    assert(((cz * 32 + lz) / 32) as i32 == cz);
}

/// The blocks of the chunk at chunk coordinates `(cx, cy, cz)` of a world, if it is loaded.
pub open spec fn loaded_blocks(m: Map<(i32, i32, i32), Chunk>, cx: int, cy: int, cz: int) -> Option<
    Seq<Block>,
> {
    let k = (cx as i32, cy as i32, cz as i32);
    if m.contains_key(k) {
        Some(m[k]@)
    } else {
        None
    }
}

/// Whether `pv` holds the blocks of the padded copy of `chunk` within a world whose chunks are
/// `m` (see [`padded_block`]).
pub open spec fn is_padded_copy(pv: Seq<Block>, chunk: Chunk, m: Map<(i32, i32, i32), Chunk>) -> bool {
    &&& pv.len() == 39304
    &&& forall|x: int, y: int, z: int|
        #![trigger pv[padded_index(x, y, z)]]
        in_padded(x, y, z) ==> pv[padded_index(x, y, z)] == padded_block(
            chunk@,
            loaded_blocks(m, chunk.coords().0 as int - 1, chunk.coords().1 as int, chunk.coords().2 as int),
            loaded_blocks(m, chunk.coords().0 as int + 1, chunk.coords().1 as int, chunk.coords().2 as int),
            loaded_blocks(m, chunk.coords().0 as int, chunk.coords().1 as int - 1, chunk.coords().2 as int),
            loaded_blocks(m, chunk.coords().0 as int, chunk.coords().1 as int + 1, chunk.coords().2 as int),
            loaded_blocks(m, chunk.coords().0 as int, chunk.coords().1 as int, chunk.coords().2 as int - 1),
            loaded_blocks(m, chunk.coords().0 as int, chunk.coords().1 as int, chunk.coords().2 as int + 1),
            x,
            y,
            z,
        )
}

/// The block stored in the world of chunks `m` at chunk-local coordinates `(lx, ly, lz)` of
/// the chunk at chunk coordinates `k`, or air (id 0) when no chunk is loaded there.
pub open spec fn chunk_block_or_air(
    m: Map<(i32, i32, i32), Chunk>,
    k: (i32, i32, i32),
    lx: int,
    ly: int,
    lz: int,
) -> Block {
    if m.contains_key(k) {
        m[k]@[lx + ly * 32 + lz * 1024]
    } else {
        Block { id: 0 }
    }
}

/// The padded copy of the chunk at `(cx, cy, cz)`: its centre `(1..=32)^3` holds the chunk,
/// shifted by one; the face `x = 0` holds the side `x = 31` of the chunk loaded at
/// `(cx - 1, cy, cz)`, the face `x = 33` the side `x = 0` of the one at `(cx + 1, cy, cz)`, and
/// likewise along y and z, air where no chunk is loaded; the edges and corners are air.
pub proof fn lemma_padded_copy_blocks(
    pv: Seq<Block>,
    chunk: Chunk,
    m: Map<(i32, i32, i32), Chunk>,
    x: int,
    y: int,
    z: int,
)
    requires
        is_padded_copy(pv, chunk, m),
        i32::MIN < chunk.coords().0 < i32::MAX,
        i32::MIN < chunk.coords().1 < i32::MAX,
        i32::MIN < chunk.coords().2 < i32::MAX,
        in_padded(x, y, z),
    ensures
        ({
            let (cx, cy, cz) = chunk.coords();
            let b = pv[padded_index(x, y, z)];
            &&& 1 <= x <= 32 && 1 <= y <= 32 && 1 <= z <= 32 ==> b == chunk@[(x - 1) + (y - 1) * 32 + (z
                - 1) * 1024]
            &&& x == 0 && 1 <= y <= 32 && 1 <= z <= 32 ==> b == chunk_block_or_air(
                m,
                ((cx - 1) as i32, cy, cz),
                31,
                y - 1,
                z - 1,
            )
            &&& x == 33 && 1 <= y <= 32 && 1 <= z <= 32 ==> b == chunk_block_or_air(
                m,
                ((cx + 1) as i32, cy, cz),
                0,
                y - 1,
                z - 1,
            )
            &&& y == 0 && 1 <= x <= 32 && 1 <= z <= 32 ==> b == chunk_block_or_air(
                m,
                (cx, (cy - 1) as i32, cz),
                x - 1,
                31,
                z - 1,
            )
            &&& y == 33 && 1 <= x <= 32 && 1 <= z <= 32 ==> b == chunk_block_or_air(
                m,
                (cx, (cy + 1) as i32, cz),
                x - 1,
                0,
                z - 1,
            )
            &&& z == 0 && 1 <= x <= 32 && 1 <= y <= 32 ==> b == chunk_block_or_air(
                m,
                (cx, cy, (cz - 1) as i32),
                x - 1,
                y - 1,
                31,
            )
            &&& z == 33 && 1 <= x <= 32 && 1 <= y <= 32 ==> b == chunk_block_or_air(
                m,
                (cx, cy, (cz + 1) as i32),
                x - 1,
                y - 1,
                0,
            )
            &&& ((x == 0 || x == 33) as int + (y == 0 || y == 33) as int + (z == 0 || z == 33) as int
                >= 2) ==> b.id == 0
        }),
{
    assert(pv[padded_index(x, y, z)] == pv[padded_index(x, y, z)]);
}

/// Whether chunk-local coordinates `(a, b, c)` come before `(x, y, z)` in the order
/// z-major, then y, then x.
pub open spec fn copied_before(a: int, b: int, c: int, x: int, y: int, z: int) -> bool {
    c < z || (c == z && (b < y || (b == y && a < x)))
}

impl PaddedChunk {
    /// The padded copy of `chunk` within `world`: `chunk` in the centre, and each border face
    /// taken from the loaded neighbour on that side (air where there is none).
    pub fn new(chunk: &Chunk, world: &World) -> (p: PaddedChunk)
        requires
            i32::MIN < chunk.coords().0 < i32::MAX,
            i32::MIN < chunk.coords().1 < i32::MAX,
            i32::MIN < chunk.coords().2 < i32::MAX,
        ensures
            is_padded_copy(p@, *chunk, world@),
    {
        let mut padded_chunk = PaddedChunk::empty();
        let mut src_i = 0usize;
        let mut dst_i = (1 + PADDED_CHUNK_SIZE + PADDED_CHUNK_SIZE_SQR) as usize;
        let mut z: i32 = 0;
        while z < CHUNK_SIZE
            invariant
                0 <= z <= 32,
                src_i == 1024 * z,
                dst_i == padded_index(1, 1, z + 1),
                forall|a: int, b: int, c: int|
                    #![trigger padded_chunk.block_at(a, b, c)]
                    in_padded(a, b, c) ==> padded_chunk.block_at(a, b, c) == (if in_center(a)
                        && in_center(b) && in_center(c) && c - 1 < z {
                        chunk.block_at(a - 1, b - 1, c - 1)
                    } else {
                        air()
                    }),
            decreases 32 - z,
        {
            let mut y: i32 = 0;
            while y < CHUNK_SIZE
                invariant
                    0 <= z < 32,
                    0 <= y <= 32,
                    src_i == 32 * y + 1024 * z,
                    dst_i == padded_index(1, y + 1, z + 1),
                    forall|a: int, b: int, c: int|
                        #![trigger padded_chunk.block_at(a, b, c)]
                        in_padded(a, b, c) ==> padded_chunk.block_at(a, b, c) == (if in_center(a)
                            && in_center(b) && in_center(c) && copied_before(0, b - 1, c - 1, 0, y as int, z as int) {
                            chunk.block_at(a - 1, b - 1, c - 1)
                        } else {
                            air()
                        }),
                decreases 32 - y,
            {
                let mut x: i32 = 0;
                while x < CHUNK_SIZE
                    invariant
                        0 <= z < 32,
                        0 <= y < 32,
                        0 <= x <= 32,
                        src_i == x + 32 * y + 1024 * z,
                        dst_i == padded_index(x + 1, y + 1, z + 1),
                        forall|a: int, b: int, c: int|
                            #![trigger padded_chunk.block_at(a, b, c)]
                            in_padded(a, b, c) ==> padded_chunk.block_at(a, b, c) == (if in_center(
                                a,
                            ) && in_center(b) && in_center(c) && copied_before(
                                a - 1,
                                b - 1,
                                c - 1,
                                x as int,
                                y as int,
                                z as int,
                            ) {
                                chunk.block_at(a - 1, b - 1, c - 1)
                            } else {
                                air()
                            }),
                    decreases 32 - x,
                {
                    let ghost before = padded_chunk;
                    let blk = chunk.get_block_from_i(src_i);
                    padded_chunk.blocks[dst_i] = blk;
                    proof {
                        assert forall|a: int, b: int, c: int|
                            in_padded(a, b, c) && (a, b, c) != (x + 1, y + 1, z + 1) implies
                            #[trigger] padded_chunk.block_at(a, b, c) == before.block_at(a, b, c) by {
                            if padded_index(a, b, c) == padded_index(x + 1, y + 1, z + 1) {
                                lemma_padded_index_injective(a, b, c, x + 1, y + 1, z + 1);
                            }
                        }
                    }
                    src_i += 1;
                    dst_i += 1;
                    x = x + 1;
                }
                dst_i += 2;
                y = y + 1;
            }
            dst_i += PADDED_CHUNK_SIZE_DOUBLE;
            z = z + 1;
        }
        let ghost copied = padded_chunk;
        padded_chunk.fill_edges(
            world.get_chunk(chunk.x - 1, chunk.y, chunk.z),
            world.get_chunk(chunk.x + 1, chunk.y, chunk.z),
            world.get_chunk(chunk.x, chunk.y - 1, chunk.z),
            world.get_chunk(chunk.x, chunk.y + 1, chunk.z),
            world.get_chunk(chunk.x, chunk.y, chunk.z - 1),
            world.get_chunk(chunk.x, chunk.y, chunk.z + 1),
        );
        proof {
            assert forall|x: int, y: int, z: int| in_padded(x, y, z) implies #[trigger] padded_chunk@[padded_index(x, y, z)]
                == padded_chunk.block_at(x, y, z) by {}
        }
        padded_chunk
    }
}

/// Whether chunk coordinates lie in the box `[min_cx, max_cx, min_cy, max_cy, min_cz, max_cz]`
/// (bounds included).
pub open spec fn in_range(range: [i32; 6], k: (i32, i32, i32)) -> bool {
    &&& range[0] <= k.0 <= range[1]
    &&& range[2] <= k.1 <= range[3]
    &&& range[4] <= k.2 <= range[5]
}

/// Whether chunk coordinates `a` come strictly before `b`, ordering by x, then y, then z.
pub open spec fn key_before(a: (i32, i32, i32), b: (i32, i32, i32)) -> bool {
    a.0 < b.0 || (a.0 == b.0 && (a.1 < b.1 || (a.1 == b.1 && a.2 < b.2)))
}

/// The chunk coordinates of an entry of a list of chunks with their coordinates.
pub open spec fn entry_key(e: (&Chunk, i32, i32, i32)) -> (i32, i32, i32) {
    (e.1, e.2, e.3)
}

/// Chunk coordinates lie in a range exactly when each lies between the range's bounds for its
/// axis, both included; and the order of ranges compares x first, then y, then z.
pub proof fn lemma_range_order(range: [i32; 6], a: (i32, i32, i32), b: (i32, i32, i32))
    ensures
        in_range(range, a) <==> (range[0] <= a.0 && a.0 <= range[1] && range[2] <= a.1 && a.1
            <= range[3] && range[4] <= a.2 && a.2 <= range[5]),
        a.0 < b.0 ==> key_before(a, b),
        a.0 == b.0 && a.1 < b.1 ==> key_before(a, b),
        a.0 == b.0 && a.1 == b.1 && a.2 < b.2 ==> key_before(a, b),
        key_before(a, b) ==> !key_before(b, a) && a != b,
{
}

impl World {
    /// The loaded chunks whose coordinates lie in `range` (as
    /// `[min_cx, max_cx, min_cy, max_cy, min_cz, max_cz]`, bounds included), each with its
    /// coordinates, ordered by x, then y, then z.
    pub fn get_player_rendered_chunks(&self, range: [i32; 6]) -> (chunks: Vec<(&Chunk, i32, i32, i32)>)
        ensures
            forall|i: int|
                0 <= i < chunks@.len() ==> in_range(range, #[trigger] entry_key(chunks@[i]))
                    && self@.contains_key(entry_key(chunks@[i])) && *chunks@[i].0
                    == self@[entry_key(chunks@[i])],
            forall|i: int, j: int|
                0 <= i < j < chunks@.len() ==> key_before(
                    #[trigger] entry_key(chunks@[i]),
                    #[trigger] entry_key(chunks@[j]),
                ),
            forall|k: (i32, i32, i32)|
                in_range(range, k) && #[trigger] self@.contains_key(k) ==> exists|i: int|
                    0 <= i < chunks@.len() && #[trigger] entry_key(chunks@[i]) == k,
    {
        let min_cx = range[0];
        let max_cx = range[1];
        let min_cy = range[2];
        let max_cy = range[3];
        let min_cz = range[4];
        let max_cz = range[5];
        let mut chunks: Vec<(&Chunk, i32, i32, i32)> = Vec::new();
        let mut x: i64 = min_cx as i64;
        while x <= max_cx as i64
            invariant
                min_cx == range[0] && max_cx == range[1] && min_cy == range[2] && max_cy == range[3]
                    && min_cz == range[4] && max_cz == range[5],
                min_cx <= x <= max_cx as i64 + 1 || x == min_cx,
                forall|i: int|
                    0 <= i < chunks@.len() ==> in_range(range, #[trigger] entry_key(chunks@[i]))
                        && self@.contains_key(entry_key(chunks@[i])) && *chunks@[i].0
                        == self@[entry_key(chunks@[i])] && entry_key(chunks@[i]).0 < x,
                forall|i: int, j: int|
                    0 <= i < j < chunks@.len() ==> key_before(
                        #[trigger] entry_key(chunks@[i]),
                        #[trigger] entry_key(chunks@[j]),
                    ),
                forall|k: (i32, i32, i32)|
                    in_range(range, k) && k.0 < x && #[trigger] self@.contains_key(k) ==> exists|i: int|
                        0 <= i < chunks@.len() && #[trigger] entry_key(chunks@[i]) == k,
            decreases max_cx as i64 + 1 - x,
        {
            let mut y: i64 = min_cy as i64;
            while y <= max_cy as i64
                invariant
                    min_cx == range[0] && max_cx == range[1] && min_cy == range[2] && max_cy
                        == range[3] && min_cz == range[4] && max_cz == range[5],
                    min_cx <= x <= max_cx,
                    min_cy <= y <= max_cy as i64 + 1 || y == min_cy,
                    forall|i: int|
                        0 <= i < chunks@.len() ==> in_range(range, #[trigger] entry_key(chunks@[i]))
                            && self@.contains_key(entry_key(chunks@[i])) && *chunks@[i].0
                            == self@[entry_key(chunks@[i])] && (entry_key(chunks@[i]).0 < x || (
                        entry_key(chunks@[i]).0 == x && entry_key(chunks@[i]).1 < y)),
                    forall|i: int, j: int|
                        0 <= i < j < chunks@.len() ==> key_before(
                            #[trigger] entry_key(chunks@[i]),
                            #[trigger] entry_key(chunks@[j]),
                        ),
                    forall|k: (i32, i32, i32)|
                        in_range(range, k) && (k.0 < x || (k.0 == x && k.1 < y))
                            && #[trigger] self@.contains_key(k) ==> exists|i: int|
                            0 <= i < chunks@.len() && #[trigger] entry_key(chunks@[i]) == k,
                decreases max_cy as i64 + 1 - y,
            {
                let mut z: i64 = min_cz as i64;
                while z <= max_cz as i64
                    invariant
                        min_cx == range[0] && max_cx == range[1] && min_cy == range[2] && max_cy
                            == range[3] && min_cz == range[4] && max_cz == range[5],
                        min_cx <= x <= max_cx,
                        min_cy <= y <= max_cy,
                        min_cz <= z <= max_cz as i64 + 1 || z == min_cz,
                        forall|i: int|
                            0 <= i < chunks@.len() ==> in_range(
                                range,
                                #[trigger] entry_key(chunks@[i]),
                            ) && self@.contains_key(entry_key(chunks@[i])) && *chunks@[i].0
                                == self@[entry_key(chunks@[i])] && (entry_key(chunks@[i]).0 < x || (entry_key(chunks@[i]).0 == x && (
                                entry_key(chunks@[i]).1 < y || (entry_key(chunks@[i]).1 == y
                                && entry_key(chunks@[i]).2 < z)))),
                        forall|i: int, j: int|
                            0 <= i < j < chunks@.len() ==> key_before(
                                #[trigger] entry_key(chunks@[i]),
                                #[trigger] entry_key(chunks@[j]),
                            ),
                        forall|k: (i32, i32, i32)|
                            in_range(range, k) && (k.0 < x || (k.0 == x && (k.1 < y || (k.1 == y
                                && k.2 < z)))) && #[trigger] self@.contains_key(k) ==> exists|i: int|
                                0 <= i < chunks@.len() && #[trigger] entry_key(chunks@[i]) == k,
                    decreases max_cz as i64 + 1 - z,
                {
                    let ghost before = chunks@;
                    if let Some(chunk) = self.get_chunk(x as i32, y as i32, z as i32) {
                        chunks.push((chunk, x as i32, y as i32, z as i32));
                        proof {
                            assert(entry_key(chunks@[before.len() as int]) == (x as i32, y as i32, z as i32));
                            assert forall|k: (i32, i32, i32)|
                                in_range(range, k) && (k.0 < x || (k.0 == x && (k.1 < y || (k.1 == y
                                    && k.2 < z + 1)))) && #[trigger] self@.contains_key(k) implies exists|i: int|
                                    0 <= i < chunks@.len() && #[trigger] entry_key(chunks@[i]) == k by {
                                if k == (x as i32, y as i32, z as i32) {
                                    assert(entry_key(chunks@[before.len() as int]) == k);
                                } else {
                                    let i = choose|i: int| 0 <= i < before.len() && #[trigger] entry_key(before[i]) == k;
                                    assert(entry_key(chunks@[i]) == k);
                                }
                            }
                        }
                    }
                    z += 1;
                }
                y += 1;
            }
            x += 1;
        }
        chunks
    }
}

/// Whether chunk coordinates `k` come before position `(x, y, z)`, ordering by x, then y,
/// then z.
pub open spec fn before_pos(k: (i32, i32, i32), x: int, y: int, z: int) -> bool {
    k.0 < x || (k.0 == x && (k.1 < y || (k.1 == y && k.2 < z)))
}

/// How far the update of a world whose chunks were `start` to the chunks of `range` has gone
/// once every key of the range before `(x, y, z)` is done: the done keys are those of `kept`,
/// with their chunk of `start` or a flat one, `rest` still holds the other chunks of `start`,
/// and `generated` lists in order the done keys that `start` lacked.
spec fn update_progress(
    start: Map<(i32, i32, i32), Chunk>,
    rest: Map<(i32, i32, i32), Chunk>,
    kept: Map<(i32, i32, i32), Chunk>,
    generated: Seq<(i32, i32, i32)>,
    range: [i32; 6],
    x: int,
    y: int,
    z: int,
) -> bool {
    &&& forall|k: (i32, i32, i32)|
        #[trigger] kept.contains_key(k) <==> in_range(range, k) && before_pos(k, x, y, z)
    &&& forall|k: (i32, i32, i32)|
        #[trigger] kept.contains_key(k) && start.contains_key(k) ==> kept[k] == start[k]
    &&& forall|k: (i32, i32, i32)|
        #[trigger] kept.contains_key(k) && !start.contains_key(k) ==> Chunk::is_flat(kept[k], k)
    &&& forall|k: (i32, i32, i32)|
        !(in_range(range, k) && before_pos(k, x, y, z)) ==> (#[trigger] rest.contains_key(k)
            == start.contains_key(k) && (rest.contains_key(k) ==> rest[k] == start[k]))
    &&& forall|i: int|
        0 <= i < generated.len() ==> kept.contains_key(#[trigger] generated[i])
            && !start.contains_key(generated[i])
    &&& forall|i: int, j: int|
        0 <= i < j < generated.len() ==> key_before(#[trigger] generated[i], #[trigger] generated[j])
    &&& forall|k: (i32, i32, i32)|
        #[trigger] kept.contains_key(k) && !start.contains_key(k) ==> exists|i: int|
            0 <= i < generated.len() && #[trigger] generated[i] == k
}

/// The progress of an update depends only on which keys of the range are done.
proof fn lemma_progress_same_keys(
    start: Map<(i32, i32, i32), Chunk>,
    rest: Map<(i32, i32, i32), Chunk>,
    kept: Map<(i32, i32, i32), Chunk>,
    generated: Seq<(i32, i32, i32)>,
    range: [i32; 6],
    p: (int, int, int),
    q: (int, int, int),
)
    requires
        update_progress(start, rest, kept, generated, range, p.0, p.1, p.2),
        forall|k: (i32, i32, i32)|
            in_range(range, k) ==> (before_pos(k, p.0, p.1, p.2) <==> before_pos(k, q.0, q.1, q.2)),
    ensures
        update_progress(start, rest, kept, generated, range, q.0, q.1, q.2),
{
}

/// Doing key `p` of the range, the next one in order, moves it from `rest` to `kept`, with its
/// chunk of `start` or the flat chunk `c`, and appends it to `generated` when `start` lacked it.
proof fn lemma_update_step(
    start: Map<(i32, i32, i32), Chunk>,
    rest: Map<(i32, i32, i32), Chunk>,
    kept: Map<(i32, i32, i32), Chunk>,
    generated: Seq<(i32, i32, i32)>,
    range: [i32; 6],
    p: (i32, i32, i32),
    c: Chunk,
)
    requires
        update_progress(start, rest, kept, generated, range, p.0 as int, p.1 as int, p.2 as int),
        in_range(range, p),
        start.contains_key(p) ==> c == start[p],
        !start.contains_key(p) ==> Chunk::is_flat(c, p),
    ensures
        update_progress(
            start,
            rest.remove(p),
            kept.insert(p, c),
            if start.contains_key(p) {
                generated
            } else {
                generated.push(p)
            },
            range,
            p.0 as int,
            p.1 as int,
            p.2 + 1,
        ),
{
    let g2 = if start.contains_key(p) {
        generated
    } else {
        generated.push(p)
    };
    let kept2 = kept.insert(p, c);
    assert(!kept.contains_key(p));
    assert forall|i: int| 0 <= i < g2.len() implies kept2.contains_key(#[trigger] g2[i])
        && !start.contains_key(g2[i]) by {
        if i < generated.len() {
            assert(g2[i] == generated[i]);
        }
    }
    assert forall|i: int, j: int| 0 <= i < j < g2.len() implies key_before(
        #[trigger] g2[i],
        #[trigger] g2[j],
    ) by {
        if j < generated.len() {
            assert(g2[i] == generated[i] && g2[j] == generated[j]);
        } else {
            assert(g2[i] == generated[i]);
            assert(kept.contains_key(generated[i]));
        }
    }
    assert forall|k: (i32, i32, i32)| #[trigger] kept2.contains_key(k) && !start.contains_key(k)
        implies exists|i: int| 0 <= i < g2.len() && #[trigger] g2[i] == k by {
        if k == p {
            assert(g2[generated.len() as int] == k);
        } else {
            let i = choose|i: int| 0 <= i < generated.len() && #[trigger] generated[i] == k;
            assert(g2[i] == k);
        }
    }
}

/// Whether the chunks `end`, with the list `generated`, are what updating the chunks `start`
/// to `range` gives: exactly the chunks of the range are loaded, those that were loaded are
/// kept as they were, the others are flat, and `generated` lists the latter, ordered by x,
/// then y, then z.
pub open spec fn is_range_update(
    start: Map<(i32, i32, i32), Chunk>,
    range: [i32; 6],
    end: Map<(i32, i32, i32), Chunk>,
    generated: Seq<(i32, i32, i32)>,
) -> bool {
    &&& forall|k: (i32, i32, i32)| #[trigger] end.contains_key(k) <==> in_range(range, k)
    &&& forall|k: (i32, i32, i32)|
        in_range(range, k) && #[trigger] start.contains_key(k) ==> end[k] == start[k]
    &&& forall|k: (i32, i32, i32)|
        in_range(range, k) && !#[trigger] start.contains_key(k) ==> Chunk::is_flat(end[k], k)
    &&& forall|i: int|
        0 <= i < generated.len() ==> in_range(range, #[trigger] generated[i])
            && !start.contains_key(generated[i])
    &&& forall|i: int, j: int|
        0 <= i < j < generated.len() ==> key_before(#[trigger] generated[i], #[trigger] generated[j])
    &&& forall|k: (i32, i32, i32)|
        in_range(range, k) && !#[trigger] start.contains_key(k) ==> exists|i: int|
            0 <= i < generated.len() && #[trigger] generated[i] == k
}

/// Updating twice to the same range: the second update changes nothing and generates
/// nothing.
pub proof fn lemma_update_twice(
    w0: Map<(i32, i32, i32), Chunk>,
    range: [i32; 6],
    w1: Map<(i32, i32, i32), Chunk>,
    g1: Seq<(i32, i32, i32)>,
    w2: Map<(i32, i32, i32), Chunk>,
    g2: Seq<(i32, i32, i32)>,
)
    requires
        is_range_update(w0, range, w1, g1),
        is_range_update(w1, range, w2, g2),
    ensures
        w2 == w1,
        g2.len() == 0,
{
    assert forall|k: (i32, i32, i32)| #[trigger] w2.contains_key(k) implies w1.contains_key(k) && w2[k]
        == w1[k] by {
        assert(in_range(range, k));
        assert(w1.contains_key(k));
    }
    assert(w2 =~= w1);
    if g2.len() > 0 {
        assert(in_range(range, g2[0]));
        assert(w1.contains_key(g2[0]));
    }
}

impl World {
    /// Keeps loaded exactly the chunks whose coordinates lie in `range` (as
    /// `[min_cx, max_cx, min_cy, max_cy, min_cz, max_cz]`, bounds included): the loaded
    /// chunks outside it are unloaded, those inside it stay as they are, and the missing ones
    /// are generated (see [`Chunk::generate`]). Returns the coordinates of the generated
    /// chunks, ordered by x, then y, then z.
    pub fn update(&mut self, range: [i32; 6]) -> (generated: Vec<(i32, i32, i32)>)
        ensures
            is_range_update(old(self)@, range, final(self)@, generated@),
    {
        let ghost start = self@;
        let min_cx = range[0];
        let max_cx = range[1];
        let min_cy = range[2];
        let max_cy = range[3];
        let min_cz = range[4];
        let max_cz = range[5];
        let mut fresh: HashMap<u128, Chunk> = HashMap::new();
        let mut generated: Vec<(i32, i32, i32)> = Vec::new();
        proof {
            assert(keyed_view(fresh@) =~= Map::<(i32, i32, i32), Chunk>::empty());
        }
        let mut x: i64 = min_cx as i64;
        while x <= max_cx as i64
            invariant
                min_cx == range[0] && max_cx == range[1] && min_cy == range[2] && max_cy == range[3]
                    && min_cz == range[4] && max_cz == range[5],
                min_cx <= x <= max_cx as i64 + 1 || x == min_cx,
                update_progress(
                    start,
                    self@,
                    keyed_view(fresh@),
                    generated@,
                    range,
                    x as int,
                    min_cy as int,
                    min_cz as int,
                ),
            decreases max_cx as i64 + 1 - x,
        {
            let mut y: i64 = min_cy as i64;
            while y <= max_cy as i64
                invariant
                    min_cx == range[0] && max_cx == range[1] && min_cy == range[2] && max_cy
                        == range[3] && min_cz == range[4] && max_cz == range[5],
                    min_cx <= x <= max_cx,
                    min_cy <= y <= max_cy as i64 + 1 || y == min_cy,
                    update_progress(
                        start,
                        self@,
                        keyed_view(fresh@),
                        generated@,
                        range,
                        x as int,
                        y as int,
                        min_cz as int,
                    ),
                decreases max_cy as i64 + 1 - y,
            {
                let mut z: i64 = min_cz as i64;
                while z <= max_cz as i64
                    invariant
                        min_cx == range[0] && max_cx == range[1] && min_cy == range[2] && max_cy
                            == range[3] && min_cz == range[4] && max_cz == range[5],
                        min_cx <= x <= max_cx,
                        min_cy <= y <= max_cy,
                        min_cz <= z <= max_cz as i64 + 1 || z == min_cz,
                        update_progress(
                            start,
                            self@,
                            keyed_view(fresh@),
                            generated@,
                            range,
                            x as int,
                            y as int,
                            z as int,
                        ),
                    decreases max_cz as i64 + 1 - z,
                {
                    let p = (x as i32, y as i32, z as i32);
                    let key = key_of(x as i32, y as i32, z as i32);
                    let ghost rest0 = self.chunks@;
                    let ghost kept0 = fresh@;
                    let ghost gen0 = generated@;
                    proof {
                        assert(in_range(range, p));
                        assert(!(in_range(range, p) && before_pos(p, x as int, y as int, z as int)));
                        assert(self@.contains_key(p) == start.contains_key(p));
                    }
                    match self.chunks.remove(&key) {
                        Some(c) => {
                            let ghost cg = c;
                            proof {
                                assert(rest0.contains_key(key) && rest0[key] == c);
                                assert(start[p] == c);
                            }
                            fresh.insert(key, c);
                            proof {
                                lemma_keyed_view_update(rest0, p, cg);
                                lemma_keyed_view_update(kept0, p, cg);
                                lemma_update_step(
                                    start,
                                    keyed_view(rest0),
                                    keyed_view(kept0),
                                    gen0,
                                    range,
                                    p,
                                    cg,
                                );
                            }
                        },
                        None => {
                            let c = Chunk::generate(x as i32, y as i32, z as i32);
                            let ghost cg = c;
                            fresh.insert(key, c);
                            generated.push(p);
                            proof {
                                assert(!rest0.contains_key(key));
                                lemma_keyed_view_update(rest0, p, cg);
                                lemma_keyed_view_update(kept0, p, cg);
                                lemma_update_step(
                                    start,
                                    keyed_view(rest0),
                                    keyed_view(kept0),
                                    gen0,
                                    range,
                                    p,
                                    cg,
                                );
                            }
                        },
                    }
                    z += 1;
                }
                proof {
                    lemma_progress_same_keys(
                        start,
                        self@,
                        keyed_view(fresh@),
                        generated@,
                        range,
                        (x as int, y as int, z as int),
                        (x as int, y + 1, min_cz as int),
                    );
                }
                y += 1;
            }
            proof {
                lemma_progress_same_keys(
                    start,
                    self@,
                    keyed_view(fresh@),
                    generated@,
                    range,
                    (x as int, y as int, min_cz as int),
                    (x + 1, min_cy as int, min_cz as int),
                );
            }
            x += 1;
        }
        self.chunks = fresh;
        proof {
            assert forall|k: (i32, i32, i32)| in_range(range, k) implies before_pos(
                k,
                x as int,
                min_cy as int,
                min_cz as int,
            ) by {}
            assert forall|k: (i32, i32, i32)|
                #![trigger self@.contains_key(k)]
                #![trigger start.contains_key(k)]
                in_range(range, k) implies self@.contains_key(k)
                && (start.contains_key(k) ==> self@[k] == start[k]) && (!start.contains_key(k)
                ==> Chunk::is_flat(self@[k], k)) by {
                assert(before_pos(k, x as int, min_cy as int, min_cz as int));
                assert(self@.contains_key(k));
            }
        }
        generated
    }
}

/// After loading a chunk, every world coordinate inside it reads that chunk's block, and
/// every coordinate outside it reads what it read before.
pub proof fn lemma_world_block_after_set_chunk(
    m: Map<(i32, i32, i32), Chunk>,
    cx: i32,
    cy: i32,
    cz: i32,
    chunk: Chunk,
    x: int,
    y: int,
    z: int,
)
    requires
        i32::MIN <= x <= i32::MAX,
        i32::MIN <= y <= i32::MAX,
        i32::MIN <= z <= i32::MAX,
    ensures
        (x / 32, y / 32, z / 32) == (cx as int, cy as int, cz as int) ==> world_block(
            m.insert((cx, cy, cz), chunk),
            x,
            y,
            z,
        ) == chunk.block_at(x % 32, y % 32, z % 32),
        (x / 32, y / 32, z / 32) != (cx as int, cy as int, cz as int) ==> world_block(
            m.insert((cx, cy, cz), chunk),
            x,
            y,
            z,
        ) == world_block(m, x, y, z),
{
    let k = ((x / 32) as i32, (y / 32) as i32, (z / 32) as i32);
    assert(i32::MIN <= x / 32 <= i32::MAX && i32::MIN <= y / 32 <= i32::MAX && i32::MIN <= z / 32
        <= i32::MAX);
    assert(k.0 as int == x / 32 && k.1 as int == y / 32 && k.2 as int == z / 32);
}

} // verus!
