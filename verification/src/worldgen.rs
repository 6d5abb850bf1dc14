//! The slice of world generation the fluid model touches: per-height fluid
//! levels for chunk sampling, and the void generator, which produces empty
//! chunks.

use vstd::prelude::*;

verus! {

/// A body of fluid during generation: everything below `max_y_exclusive`
/// is the given block.
#[derive(Clone, Copy, PartialEq, Eq, Structural, Debug)]
pub struct FluidLevel {
    max_y_exclusive: i32,
    block_id: u16,
}

impl FluidLevel {
    /// The height the fluid stops below.
    pub closed spec fn spec_max_y_exclusive(&self) -> i32 {
        self.max_y_exclusive
    }

    /// The block the fluid consists of.
    pub closed spec fn spec_block_id(&self) -> u16 {
        self.block_id
    }

    /// A fluid body of the given block up to (excluding) the given height.
    pub fn new(max_y_exclusive: i32, block_id: u16) -> (r: FluidLevel)
        ensures
            r.spec_max_y_exclusive() == max_y_exclusive,
            r.spec_block_id() == block_id,
    {
        FluidLevel { max_y_exclusive, block_id }
    }

    /// The height the fluid stops below.
    pub fn max_y_exclusive(&self) -> (r: i32)
        ensures
            r == self.spec_max_y_exclusive(),
    {
        self.max_y_exclusive
    }

    /// The block the fluid consists of.
    pub fn block_id(&self) -> (r: u16)
        ensures
            r == self.spec_block_id(),
    {
        self.block_id
    }
}

/// The standard per-chunk fluid sampler: one fluid near the bottom of the
/// world and one up to sea level.
#[derive(Clone, Copy, PartialEq, Eq, Structural, Debug)]
pub struct StandardChunkFluidLevelSampler {
    top_fluid: FluidLevel,
    bottom_fluid: FluidLevel,
    bottom_y: i32,
}

impl StandardChunkFluidLevelSampler {
    /// The fluid used at and above the crossover height.
    pub closed spec fn spec_top_fluid(&self) -> FluidLevel {
        self.top_fluid
    }

    /// The fluid used below the crossover height.
    pub closed spec fn spec_bottom_fluid(&self) -> FluidLevel {
        self.bottom_fluid
    }

    /// Build a sampler; the crossover height is the lower of the two
    /// fluids' tops.
    pub fn new(top_fluid: FluidLevel, bottom_fluid: FluidLevel) -> (r: Self)
        ensures
            r.spec_top_fluid() == top_fluid,
            r.spec_bottom_fluid() == bottom_fluid,
            r.spec_bottom_y() == if top_fluid.spec_max_y_exclusive()
                <= bottom_fluid.spec_max_y_exclusive() {
                top_fluid.spec_max_y_exclusive()
            } else {
                bottom_fluid.spec_max_y_exclusive()
            },
    {
        let bottom_y = if top_fluid.max_y_exclusive() <= bottom_fluid.max_y_exclusive() {
            top_fluid.max_y_exclusive()
        } else {
            bottom_fluid.max_y_exclusive()
        };
        StandardChunkFluidLevelSampler { top_fluid, bottom_fluid, bottom_y }
    }

    /// The height below which the bottom fluid applies.
    pub closed spec fn spec_bottom_y(&self) -> i32 {
        self.bottom_y
    }

    /// The fluid at a position: the bottom fluid below the crossover, the
    /// top fluid at or above it. Only the height matters.
    pub fn get_fluid_level(&self, _x: i32, y: i32, _z: i32) -> (r: FluidLevel)
        ensures
            y < self.spec_bottom_y() ==> r == self.spec_bottom_fluid(),
            y >= self.spec_bottom_y() ==> r == self.spec_top_fluid(),
    {
        if y < self.bottom_y {
            self.bottom_fluid
        } else {
            self.top_fluid
        }
    }
}

/// The blocks of one generated chunk; the void generator produces a chunk
/// made of one block throughout.
#[derive(Clone, Copy, PartialEq, Eq, Structural, Debug)]
pub enum ChunkBlocks {
    Homogeneous(u16),
}

/// One generated chunk: its blocks, its position on the chunk grid, and
/// whether it still has to be persisted.
#[derive(Clone, Copy, PartialEq, Eq, Structural, Debug)]
pub struct ChunkData {
    pub blocks: ChunkBlocks,
    pub position_x: i32,
    pub position_z: i32,
    pub dirty: bool,
}

/// The generator of empty worlds.
pub struct VoidGenerator;

impl VoidGenerator {
    /// The void generator ignores the seed.
    pub fn new(_seed: u64) -> (r: VoidGenerator)
        ensures
            true,
    {
        VoidGenerator
    }

    /// Every generated chunk is air throughout, at the asked-for position,
    /// and marked dirty.
    pub fn generate_chunk(&self, at_x: i32, at_z: i32) -> (r: ChunkData)
        ensures
            r.blocks == ChunkBlocks::Homogeneous(0),
            r.position_x == at_x,
            r.position_z == at_z,
            r.dirty,
    {
        ChunkData {
            blocks: ChunkBlocks::Homogeneous(0),
            position_x: at_x,
            position_z: at_z,
            dirty: true,
        }
    }
}

} // verus!
