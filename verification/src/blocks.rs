//! The block handlers wired into the registry for the two fluids: what
//! happens when a fluid block is placed, broken, or told a neighbor
//! changed.

use vstd::prelude::*;

use crate::level::is_water_id;
use crate::manager::{
    FluidManager, spec_schedule, spec_sched_water_neighbors, spec_source_at,
    spec_passable_at, spec_water_at,
};
use crate::pos::{BlockPos, BlockDirection, spec_neighbor, spec_pos_in_range};
use crate::world::{WorldGrid, spec_written_block};
use crate::level::WATER_SOURCE_STATE_ID;

verus! {

/// The handler for water blocks.
pub struct WaterBlock;

/// The handler for lava blocks. Lava re-evaluates more slowly than water;
/// the level model itself is shared.
pub struct LavaBlock;

/// The registry the fluid handlers are entered into, by block name.
pub struct BlockRegistry {
    names: Vec<&'static str>,
}

impl BlockRegistry {
    /// The registered block names, in registration order.
    pub closed spec fn view(&self) -> Seq<&'static str> {
        self.names@
    }

    /// An empty registry.
    pub fn new() -> (r: BlockRegistry)
        ensures
            r@ == Seq::<&'static str>::empty(),
    {
        BlockRegistry { names: Vec::new() }
    }

    /// Enter a block under its name.
    pub fn register(&mut self, name: &'static str)
        ensures
            final(self)@ == old(self)@.push(name),
    {
        self.names.push(name);
    }

    /// How many blocks are registered.
    pub fn len(&self) -> (r: usize)
        ensures
            r == self@.len(),
    {
        self.names.len()
    }
}

/// Enter the two fluid handlers into the registry.
pub fn register_fluid_blocks(manager: &mut BlockRegistry)
    ensures
        final(manager)@ == old(manager)@.push("minecraft:water").push("minecraft:lava"),
{
    manager.register("minecraft:water");
    manager.register("minecraft:lava");
}

impl WaterBlock {
    /// A water block was broken: remove the fluid and let the neighborhood
    /// re-evaluate.
    pub fn broken(
        &self,
        fluid_manager: &mut FluidManager,
        world: &mut WorldGrid,
        location: BlockPos,
    )
        requires
            old(fluid_manager).wf(),
            old(world).wf(),
            spec_pos_in_range(location),
        ensures
            final(fluid_manager).wf(),
            final(world).wf(),
            final(world)@ == old(world)@.insert(location, spec_written_block(0)),
            final(fluid_manager).spec_pending() == spec_sched_water_neighbors(
                old(fluid_manager).spec_pending(),
                old(fluid_manager).spec_now(),
                final(world)@,
                location,
                crate::pos::spec_all_directions(),
                0,
                if spec_source_at(old(world)@, location) { 2 } else { 1 },
                false,
            ),
    {
        fluid_manager.remove_fluid(world, location);
    }

    /// A water block is being placed: force a source there, schedule it at
    /// top priority, and hand back the state identifier to place.
    pub fn on_place(
        &self,
        fluid_manager: &mut FluidManager,
        world: &mut WorldGrid,
        block_pos: &BlockPos,
        default_state_id: u16,
    ) -> (r: u16)
        requires
            old(fluid_manager).wf(),
            old(world).wf(),
            spec_pos_in_range(*block_pos),
        ensures
            final(fluid_manager).wf(),
            final(world).wf(),
            r == default_state_id,
            final(world)@ == old(world)@.insert(
                *block_pos,
                spec_written_block(WATER_SOURCE_STATE_ID),
            ),
            final(fluid_manager).spec_pending() == spec_schedule(
                old(fluid_manager).spec_pending(),
                old(fluid_manager).spec_now(),
                *block_pos,
                WATER_SOURCE_STATE_ID,
                0,
                3,
            ),
    {
        fluid_manager.add_fluid_source(world, *block_pos, true);
        default_state_id
    }

    /// A neighbor changed: re-check this water cell, and sooner when the
    /// cell below it has opened up.
    pub fn on_neighbor_update(
        &self,
        fluid_manager: &mut FluidManager,
        world: &WorldGrid,
        block_pos: &BlockPos,
    )
        requires
            old(fluid_manager).wf(),
            world.wf(),
            spec_pos_in_range(*block_pos),
        ensures
            final(fluid_manager).wf(),
            !spec_water_at(world@, *block_pos)
                ==> final(fluid_manager).spec_pending()
                    == old(fluid_manager).spec_pending(),
            spec_water_at(world@, *block_pos) ==> {
                let id = world@[*block_pos].state_id;
                let now = old(fluid_manager).spec_now();
                let once = spec_schedule(
                    old(fluid_manager).spec_pending(), now, *block_pos, id, 1, 1,
                );
                if spec_passable_at(world@, spec_neighbor(*block_pos, BlockDirection::Down)) {
                    final(fluid_manager).spec_pending()
                        == spec_schedule(once, now, *block_pos, id, 0, 2)
                } else {
                    final(fluid_manager).spec_pending() == once
                }
            },
    {
        if let Some(state_id) = world.get_block_state_id(block_pos) {
            if !is_water_id(state_id) {
                return;
            }
            fluid_manager.schedule_update(*block_pos, state_id, 1, 1);

            // An opening below makes falling the urgent move.
            let below_pos = block_pos.offset(BlockDirection::Down);
            if let Some(below_state) = world.get_block_state(&below_pos) {
                if below_state.replaceable || below_state.air {
                    fluid_manager.schedule_update(*block_pos, state_id, 0, 2);
                }
            }
        }
    }
}

impl LavaBlock {
    /// A lava block was broken: remove the fluid and let the neighborhood
    /// re-evaluate.
    pub fn broken(
        &self,
        fluid_manager: &mut FluidManager,
        world: &mut WorldGrid,
        location: BlockPos,
    )
        requires
            old(fluid_manager).wf(),
            old(world).wf(),
            spec_pos_in_range(location),
        ensures
            final(fluid_manager).wf(),
            final(world).wf(),
            final(world)@ == old(world)@.insert(location, spec_written_block(0)),
            final(fluid_manager).spec_pending() == spec_sched_water_neighbors(
                old(fluid_manager).spec_pending(),
                old(fluid_manager).spec_now(),
                final(world)@,
                location,
                crate::pos::spec_all_directions(),
                0,
                if spec_source_at(old(world)@, location) { 2 } else { 1 },
                false,
            ),
    {
        fluid_manager.remove_fluid(world, location);
    }

    /// A lava block is being placed. Only water is simulated by this level
    /// model, so no source is forced; the state identifier to place is
    /// handed back unchanged.
    pub fn on_place(
        &self,
        fluid_manager: &mut FluidManager,
        world: &mut WorldGrid,
        block_pos: &BlockPos,
        default_state_id: u16,
    ) -> (r: u16)
        requires
            old(fluid_manager).wf(),
            old(world).wf(),
            spec_pos_in_range(*block_pos),
        ensures
            final(fluid_manager).wf(),
            final(world).wf(),
            r == default_state_id,
            final(world)@ == old(world)@,
            final(fluid_manager).spec_pending() == old(fluid_manager).spec_pending(),
    {
        fluid_manager.add_fluid_source(world, *block_pos, false);
        default_state_id
    }

    /// A neighbor changed: re-check this cell on the slower lava cadence,
    /// and sooner when the cell below it has opened up.
    pub fn on_neighbor_update(
        &self,
        fluid_manager: &mut FluidManager,
        world: &WorldGrid,
        block_pos: &BlockPos,
    )
        requires
            old(fluid_manager).wf(),
            world.wf(),
            spec_pos_in_range(*block_pos),
        ensures
            final(fluid_manager).wf(),
            !spec_water_at(world@, *block_pos)
                ==> final(fluid_manager).spec_pending()
                    == old(fluid_manager).spec_pending(),
            spec_water_at(world@, *block_pos) ==> {
                let id = world@[*block_pos].state_id;
                let now = old(fluid_manager).spec_now();
                let once = spec_schedule(
                    old(fluid_manager).spec_pending(), now, *block_pos, id, 2, 1,
                );
                if spec_passable_at(world@, spec_neighbor(*block_pos, BlockDirection::Down)) {
                    final(fluid_manager).spec_pending()
                        == spec_schedule(once, now, *block_pos, id, 0, 2)
                } else {
                    final(fluid_manager).spec_pending() == once
                }
            },
    {
        if let Some(state_id) = world.get_block_state_id(block_pos) {
            if !is_water_id(state_id) {
                return;
            }
            fluid_manager.schedule_update(*block_pos, state_id, 2, 1);

            let below_pos = block_pos.offset(BlockDirection::Down);
            if let Some(below_state) = world.get_block_state(&below_pos) {
                if below_state.replaceable || below_state.air {
                    fluid_manager.schedule_update(*block_pos, state_id, 0, 2);
                }
            }
        }
    }
}

} // verus!
