use vstd::prelude::*;

verus! {

/// The block a ray hit, and the face through which it entered it.
#[derive(Clone, Copy, Debug, PartialEq, Eq, Structural)]
pub struct BlockHit {
    pub x: i32,
    pub y: i32,
    pub z: i32,
    pub face: BlockFace,
}

/// A face of a block, named by the axis direction it looks to.
#[derive(Clone, Copy, Debug, PartialEq, Eq, Structural)]
pub enum BlockFace {
    PositiveX,
    NegativeX,
    PositiveY,
    NegativeY,
    PositiveZ,
    NegativeZ,
}

} // verus!
