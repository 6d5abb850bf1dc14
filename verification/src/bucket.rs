//! The bucket item: emptying a fluid bucket against a block face places the
//! fluid next to it and wakes the engine around the placed cell. Picking
//! the face from the player's view direction is the caller's concern; this
//! is the placement decision itself.

use vstd::prelude::*;

use crate::level::spec_is_water;
use crate::manager::{
    FluidManager, spec_schedule, spec_sched_water_neighbors, spec_passable_at,
};
use crate::pos::{BlockPos, BlockDirection, spec_pos_in_range};
use crate::world::{WorldGrid, spec_written_block};

verus! {

/// The handler for bucket items.
pub struct BucketItem;

impl BucketItem {
    /// Empty a fluid bucket into the target cell: nothing happens unless
    /// the cell is loaded and passable; otherwise the fluid is written and
    /// every water neighbor is re-checked at top priority. For water, a
    /// source is also forced and scheduled; other fluids are only placed.
    #[verifier::loop_isolation(false)]
    pub fn place_fluid(
        &self,
        fluid_manager: &mut FluidManager,
        world: &mut WorldGrid,
        target_pos: BlockPos,
        block_to_place: u16,
        is_water: bool,
    )
        requires
            old(fluid_manager).wf(),
            old(world).wf(),
            spec_pos_in_range(target_pos),
            spec_is_water(block_to_place),
        ensures
            final(fluid_manager).wf(),
            final(world).wf(),
            !spec_passable_at(old(world)@, target_pos)
                ==> final(world)@ == old(world)@
                    && final(fluid_manager).spec_pending()
                        == old(fluid_manager).spec_pending(),
            spec_passable_at(old(world)@, target_pos) && !is_water ==> {
                let w1 = old(world)@.insert(target_pos, spec_written_block(block_to_place));
                let now = old(fluid_manager).spec_now();
                final(world)@ == w1 && final(fluid_manager).spec_pending()
                    == spec_sched_water_neighbors(
                        old(fluid_manager).spec_pending(),
                        now,
                        w1,
                        target_pos,
                        crate::pos::spec_all_directions(),
                        0,
                        3,
                        false,
                    )
            },
            spec_passable_at(old(world)@, target_pos) && is_water ==> {
                let w1 = old(world)@.insert(target_pos, spec_written_block(block_to_place));
                let w2 = w1.insert(
                    target_pos,
                    spec_written_block(crate::level::WATER_SOURCE_STATE_ID),
                );
                let now = old(fluid_manager).spec_now();
                final(world)@ == w2 && final(fluid_manager).spec_pending()
                    == spec_sched_water_neighbors(
                        spec_schedule(
                            old(fluid_manager).spec_pending(),
                            now,
                            target_pos,
                            crate::level::WATER_SOURCE_STATE_ID,
                            0,
                            3,
                        ),
                        now,
                        w2,
                        target_pos,
                        crate::pos::spec_all_directions(),
                        0,
                        3,
                        false,
                    )
            },
    {
        // The cell must accept a fluid.
        match world.get_block_state(&target_pos) {
            Some(target_state) => {
                if !target_state.replaceable && !target_state.air {
                    return;
                }
            },
            None => {
                return;
            },
        }

        world.set_block_state(&target_pos, block_to_place);
        fluid_manager.add_fluid_source(world, target_pos, is_water);

        // Wake the water around the placed fluid at once.
        let dirs = BlockDirection::all();
        let ghost w = world@;
        let ghost m0 = fluid_manager.spec_pending();
        let ghost now = fluid_manager.spec_now();
        let n = dirs.len();
        let mut i: usize = 0;
        while i < n
            invariant
                n == dirs@.len(),
                0 <= i <= n,
                world.wf(),
                world@ == w,
                fluid_manager.wf(),
                fluid_manager.spec_now() == now,
                fluid_manager.spec_pending() == spec_sched_water_neighbors(
                    m0, now, w, target_pos, dirs@.take(i as int), 0, 3, false,
                ),
            decreases n - i,
        {
            proof {
                assert(dirs@.take(i + 1).drop_last() =~= dirs@.take(i as int));
                assert(dirs@.take(i + 1).last() == dirs@[i as int]);
            }
            let adjacent_pos = target_pos.offset(dirs[i]);
            if let Some(adjacent_state_id) = world.get_block_state_id(&adjacent_pos) {
                if crate::level::is_water_id(adjacent_state_id) {
                    proof {
                        world.lemma_wf_all();
                        assert(spec_pos_in_range(adjacent_pos));
                    }
                    fluid_manager.schedule_update(adjacent_pos, adjacent_state_id, 0, 3);
                }
            }
            i = i + 1;
        }
        proof {
            assert(dirs@.take(n as int) =~= dirs@);
        }
    }
}

} // verus!
