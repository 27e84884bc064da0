use vstd::prelude::*;

verus! {

/// One of the six axis-aligned directions a block face can point to.
///
/// Numbered `Left = 0`, `Below = 1`, `Back = 2` (the negative directions),
/// then `Right = 3`, `Above = 4`, `Front = 5` (the positive ones).
#[derive(Clone, Copy, PartialEq, Eq, Structural, Debug)]
pub enum Direction {
    /// -X
    Left,
    /// -Y
    Below,
    /// -Z
    Back,
    /// +X
    Right,
    /// +Y
    Above,
    /// +Z
    Front,
}

/// The number of a direction.
pub open spec fn direction_number(d: Direction) -> u8 {
    match d {
        Direction::Left => 0,
        Direction::Below => 1,
        Direction::Back => 2,
        Direction::Right => 3,
        Direction::Above => 4,
        Direction::Front => 5,
    }
}

/// The direction that has a given number (meaningful below 6).
pub open spec fn direction_of_number(v: u8) -> Direction {
    if v == 0 {
        Direction::Left
    } else if v == 1 {
        Direction::Below
    } else if v == 2 {
        Direction::Back
    } else if v == 3 {
        Direction::Right
    } else if v == 4 {
        Direction::Above
    } else {
        Direction::Front
    }
}

impl Direction {
    /// Decodes a direction from its number; the number must be below 6.
    pub fn from_bits_unchecked(v: u8) -> (d: Self)
        requires
            v < 6,
        ensures
            d == direction_of_number(v),
            direction_number(d) == v,
    {
        if v == 0 {
            Direction::Left
        } else if v == 1 {
            Direction::Below
        } else if v == 2 {
            Direction::Back
        } else if v == 3 {
            Direction::Right
        } else if v == 4 {
            Direction::Above
        } else {
            Direction::Front
        }
    }

    /// The number of this direction.
    pub fn to_u8(self) -> (r: u8)
        ensures
            r == direction_number(self),
            r < 6,
    {
        match self {
            Direction::Left => 0,
            Direction::Below => 1,
            Direction::Back => 2,
            Direction::Right => 3,
            Direction::Above => 4,
            Direction::Front => 5,
        }
    }

    /// Whether the direction points along a positive axis (`Right`, `Above`, `Front`).
    pub fn is_positive(self) -> (r: bool)
        ensures
            r == (direction_number(self) >= 3),
    {
        self.to_u8() >= 3
    }

    /// Whether the direction points along a negative axis (`Left`, `Below`, `Back`).
    pub fn is_negative(self) -> (r: bool)
        ensures
            r == (direction_number(self) < 3),
    {
        self.to_u8() < 3
    }
}

/// Decoding a direction's number gives the direction back, and every number
/// below 6 is the number of the direction it decodes to.
pub proof fn lemma_direction_number_round_trip(d: Direction, v: u8)
    ensures
        direction_of_number(direction_number(d)) == d,
        direction_number(d) < 6,
        v < 6 ==> direction_number(direction_of_number(v)) == v,
{
}

} // verus!
