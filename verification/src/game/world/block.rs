use vstd::prelude::*;

verus! {

/// A block of the world, identified by its id; id 0 is air.
#[derive(Clone, Copy, PartialEq, Eq, Structural, Debug)]
pub struct BlockInstance {
    pub id: u32,
}

impl BlockInstance {
    /// The block with the given id.
    pub fn new(id: u32) -> (b: BlockInstance)
        ensures
            b.id == id,
    {
        BlockInstance { id: id }
    }

    /// The air block.
    pub fn air() -> (b: BlockInstance)
        ensures
            b.id == 0,
    {
        BlockInstance { id: 0 }
    }

    /// Whether this block is air.
    pub fn is_air(&self) -> (r: bool)
        ensures
            r == (self.id == 0),
    {
        self.id == BlockInstance::air().id
    }
}

} // verus!
