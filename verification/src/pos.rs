//! Block positions and the six axis-aligned neighbor directions.

use vstd::prelude::*;

verus! {

/// A block position in the world grid.
#[derive(Clone, Copy, PartialEq, Eq, Structural, Debug)]
pub struct BlockPos {
    pub x: i32,
    pub y: i32,
    pub z: i32,
}

/// One of the six axis-aligned neighbor directions.
#[derive(Clone, Copy, PartialEq, Eq, Structural, Debug)]
pub enum BlockDirection {
    Up,
    Down,
    North,
    South,
    East,
    West,
}

/// The unit offset of a direction along each axis.
pub open spec fn spec_offset_of(d: BlockDirection) -> (int, int, int) {
    match d {
        BlockDirection::Up => (0, 1, 0),
        BlockDirection::Down => (0, -1, 0),
        BlockDirection::North => (0, 0, -1),
        BlockDirection::South => (0, 0, 1),
        BlockDirection::East => (1, 0, 0),
        BlockDirection::West => (-1, 0, 0),
    }
}

/// The position one step from `p` in direction `d`, as unbounded integers.
pub open spec fn spec_step(p: BlockPos, d: BlockDirection) -> (int, int, int) {
    (
        p.x + spec_offset_of(d).0,
        p.y + spec_offset_of(d).1,
        p.z + spec_offset_of(d).2,
    )
}

/// Coordinates at least `m` steps away from the i32 boundary on every axis.
pub open spec fn spec_pos_margin(p: BlockPos, m: int) -> bool {
    &&& i32::MIN + m <= p.x <= i32::MAX - m
    &&& i32::MIN + m <= p.y <= i32::MAX - m
    &&& i32::MIN + m <= p.z <= i32::MAX - m
}

/// Coordinates a loaded cell may have: far enough from the i32 boundary
/// that the bounded searches around it cannot overflow a coordinate.
pub open spec fn spec_pos_in_range(p: BlockPos) -> bool {
    spec_pos_margin(p, 16)
}

/// Coordinates a scheduled update may have: a scheduled cell can sit one
/// step outside the loaded region.
pub open spec fn spec_pos_store_ok(p: BlockPos) -> bool {
    spec_pos_margin(p, 8)
}

/// Coordinates that can still take one neighbor step without leaving i32.
pub open spec fn spec_pos_steppable(p: BlockPos) -> bool {
    &&& i32::MIN < p.x < i32::MAX
    &&& i32::MIN < p.y < i32::MAX
    &&& i32::MIN < p.z < i32::MAX
}

/// The neighbor of `p` in direction `d`; meaningful when `p` can step.
pub open spec fn spec_neighbor(p: BlockPos, d: BlockDirection) -> BlockPos {
    BlockPos {
        x: (p.x + spec_offset_of(d).0) as i32,
        y: (p.y + spec_offset_of(d).1) as i32,
        z: (p.z + spec_offset_of(d).2) as i32,
    }
}

impl BlockPos {
    /// Build a position from its coordinates.
    pub fn new(x: i32, y: i32, z: i32) -> (r: BlockPos)
        ensures
            r == (BlockPos { x, y, z }),
    {
        BlockPos { x, y, z }
    }

    /// The neighbor one step away in direction `d`.
    pub fn offset(self, d: BlockDirection) -> (r: BlockPos)
        requires
            spec_pos_steppable(self),
        ensures
            (r.x as int, r.y as int, r.z as int) == spec_step(self, d),
            r == spec_neighbor(self, d),
    {
        match d {
            BlockDirection::Up => BlockPos { x: self.x, y: self.y + 1, z: self.z },
            BlockDirection::Down => BlockPos { x: self.x, y: self.y - 1, z: self.z },
            BlockDirection::North => BlockPos { x: self.x, y: self.y, z: self.z - 1 },
            BlockDirection::South => BlockPos { x: self.x, y: self.y, z: self.z + 1 },
            BlockDirection::East => BlockPos { x: self.x + 1, y: self.y, z: self.z },
            BlockDirection::West => BlockPos { x: self.x - 1, y: self.y, z: self.z },
        }
    }
}

/// The sequence of all six directions, in the order scans walk them.
pub open spec fn spec_all_directions() -> Seq<BlockDirection> {
    seq![
        BlockDirection::Up,
        BlockDirection::Down,
        BlockDirection::North,
        BlockDirection::South,
        BlockDirection::East,
        BlockDirection::West,
    ]
}

/// The sequence of the four horizontal directions, in scan order.
pub open spec fn spec_horizontal_directions() -> Seq<BlockDirection> {
    seq![
        BlockDirection::North,
        BlockDirection::South,
        BlockDirection::East,
        BlockDirection::West,
    ]
}

impl BlockDirection {
    /// All six directions.
    pub fn all() -> (r: Vec<BlockDirection>)
        ensures
            r@ == spec_all_directions(),
    {
        let r = vec![
            BlockDirection::Up,
            BlockDirection::Down,
            BlockDirection::North,
            BlockDirection::South,
            BlockDirection::East,
            BlockDirection::West,
        ];
        assert(r@ =~= spec_all_directions());
        r
    }

    /// The four horizontal directions.
    pub fn horizontal() -> (r: Vec<BlockDirection>)
        ensures
            r@ == spec_horizontal_directions(),
    {
        let r = vec![
            BlockDirection::North,
            BlockDirection::South,
            BlockDirection::East,
            BlockDirection::West,
        ];
        assert(r@ =~= spec_horizontal_directions());
        r
    }

    /// The direction pointing the opposite way.
    pub open spec fn spec_opposite(self) -> BlockDirection {
        match self {
            BlockDirection::Up => BlockDirection::Down,
            BlockDirection::Down => BlockDirection::Up,
            BlockDirection::North => BlockDirection::South,
            BlockDirection::South => BlockDirection::North,
            BlockDirection::East => BlockDirection::West,
            BlockDirection::West => BlockDirection::East,
        }
    }

    /// The direction pointing the opposite way.
    pub fn opposite(self) -> (r: BlockDirection)
        ensures
            r == self.spec_opposite(),
    {
        match self {
            BlockDirection::Up => BlockDirection::Down,
            BlockDirection::Down => BlockDirection::Up,
            BlockDirection::North => BlockDirection::South,
            BlockDirection::South => BlockDirection::North,
            BlockDirection::East => BlockDirection::West,
            BlockDirection::West => BlockDirection::East,
        }
    }
}

/// A readable name for a direction.
pub fn direction_to_string(dir: &BlockDirection) -> (r: &'static str)
    ensures
        dir is Up ==> r@ == "Up"@,
        dir is Down ==> r@ == "Down"@,
        dir is North ==> r@ == "North"@,
        dir is South ==> r@ == "South"@,
        dir is East ==> r@ == "East"@,
        dir is West ==> r@ == "West"@,
{
    match dir {
        BlockDirection::Up => "Up",
        BlockDirection::Down => "Down",
        BlockDirection::North => "North",
        BlockDirection::South => "South",
        BlockDirection::East => "East",
        BlockDirection::West => "West",
    }
}

} // verus!
