use pumpkin_fluid::level::{
    state_id_for_level, WATER_LEVEL_1_STATE_ID, WATER_LEVEL_3_STATE_ID, WATER_LEVEL_4_STATE_ID,
    WATER_LEVEL_7_STATE_ID, WATER_SOURCE_STATE_ID,
};
use pumpkin_fluid::manager::{FluidManager, FLUID_TICK_RATE};
use pumpkin_fluid::pos::BlockPos;
use pumpkin_fluid::world::{BlockData, WorldGrid};

fn air() -> BlockData {
    BlockData { state_id: 0, air: true, replaceable: true }
}

fn solid() -> BlockData {
    BlockData { state_id: 1, air: false, replaceable: false }
}

fn water(level: i32) -> BlockData {
    BlockData { state_id: state_id_for_level(level), air: false, replaceable: false }
}

fn run_ticks(fm: &mut FluidManager, world: &mut WorldGrid, n: u32) {
    for _ in 0..n {
        fm.tick(world);
    }
}

#[test]
fn two_adjacent_sources_form_a_source() {
    let mut fm = FluidManager::new();
    let mut world = WorldGrid::new();
    let pos = BlockPos::new(0, 0, 0);
    world.set_block_data(pos, air());
    world.set_block_data(BlockPos::new(1, 0, 0), water(8));
    world.set_block_data(BlockPos::new(-1, 0, 0), water(8));

    fm.schedule_update(pos, 0, 0, 1);
    run_ticks(&mut fm, &mut world, FLUID_TICK_RATE);

    assert_eq!(world.get_block_state_id(&pos), Some(WATER_SOURCE_STATE_ID));
}

#[test]
fn one_adjacent_source_does_not_form_a_source() {
    let mut fm = FluidManager::new();
    let mut world = WorldGrid::new();
    let pos = BlockPos::new(0, 0, 0);
    world.set_block_data(pos, air());
    world.set_block_data(BlockPos::new(1, 0, 0), water(8));
    // The cell below stays unloaded, so no other propagation rule applies.

    fm.schedule_update(pos, 0, 0, 1);
    run_ticks(&mut fm, &mut world, FLUID_TICK_RATE);

    assert_eq!(world.get_block_state_id(&pos), Some(0));
    assert_ne!(world.get_block_state_id(&pos), Some(WATER_SOURCE_STATE_ID));
}

#[test]
fn disconnected_level_one_vanishes_to_air() {
    let mut fm = FluidManager::new();
    let mut world = WorldGrid::new();
    let pos = BlockPos::new(0, 0, 0);
    world.set_block_data(pos, water(1));

    fm.schedule_update(pos, WATER_LEVEL_1_STATE_ID, 0, 1);
    run_ticks(&mut fm, &mut world, FLUID_TICK_RATE);

    // Level 1 becomes air, never a zero or negative flowing level.
    assert_eq!(world.get_block_state_id(&pos), Some(0));
}

#[test]
fn stale_update_is_a_no_op() {
    let mut fm = FluidManager::new();
    let mut world = WorldGrid::new();
    let pos = BlockPos::new(0, 0, 0);
    world.set_block_data(pos, water(4));

    // The observed state claims level 7, but the world holds level 4.
    fm.schedule_update(pos, WATER_LEVEL_7_STATE_ID, 0, 1);
    run_ticks(&mut fm, &mut world, FLUID_TICK_RATE);

    assert_eq!(world.get_block_state_id(&pos), Some(WATER_LEVEL_4_STATE_ID));
    assert_eq!(fm.pending_len(), 0);
}

#[test]
fn update_on_unloaded_cell_is_discarded() {
    let mut fm = FluidManager::new();
    let mut world = WorldGrid::new();
    let pos = BlockPos::new(5, 5, 5);

    fm.schedule_update(pos, 0, 0, 1);
    run_ticks(&mut fm, &mut world, FLUID_TICK_RATE);

    assert_eq!(fm.pending_len(), 0);
    assert_eq!(world.get_block_state_id(&pos), None);
}

#[test]
fn column_of_sevens_stays_fed_through_the_column() {
    let mut fm = FluidManager::new();
    let mut world = WorldGrid::new();
    // A source feeding straight down: two level-7 cells beneath it. The
    // bottom cell has no adjacent source, but the search ascends through
    // the column and finds one.
    world.set_block_data(BlockPos::new(0, 2, 0), water(8));
    world.set_block_data(BlockPos::new(0, 1, 0), water(7));
    let bottom = BlockPos::new(0, 0, 0);
    world.set_block_data(bottom, water(7));
    world.set_block_data(BlockPos::new(0, -1, 0), solid());

    fm.schedule_update(bottom, WATER_LEVEL_7_STATE_ID, 0, 1);
    run_ticks(&mut fm, &mut world, FLUID_TICK_RATE);

    // Fed through the column: the bottom cell keeps its level.
    assert_eq!(world.get_block_state_id(&bottom), Some(WATER_LEVEL_7_STATE_ID));
}

#[test]
fn recession_schedules_farthest_first() {
    let mut fm = FluidManager::new();
    let mut world = WorldGrid::new();
    let center = BlockPos::new(0, 0, 0);
    let far = BlockPos::new(-1, 0, 0);
    let near = BlockPos::new(1, 0, 0);
    world.set_block_data(center, water(4));
    world.set_block_data(far, water(1));
    world.set_block_data(near, water(3));
    // No source anywhere: the center loses its connection and recedes.

    fm.schedule_update(center, WATER_LEVEL_4_STATE_ID, 0, 1);
    run_ticks(&mut fm, &mut world, FLUID_TICK_RATE);

    // The center decayed one level; the batch was applied at tick end.
    assert_eq!(world.get_block_state_id(&center), Some(WATER_LEVEL_3_STATE_ID));

    // The farther cell (lower level) is due strictly sooner than the nearer
    // one, and the originating cell comes last of all.
    let far_entry = fm.pending_at(&far).expect("far cell scheduled");
    let near_entry = fm.pending_at(&near).expect("near cell scheduled");
    let center_entry = fm.pending_at(&center).expect("center rescheduled");
    assert!(far_entry.tick_scheduled < near_entry.tick_scheduled);
    assert!(near_entry.tick_scheduled < center_entry.tick_scheduled);
}

#[test]
fn full_chain_recedes_after_source_removal() {
    let mut fm = FluidManager::new();
    let mut world = WorldGrid::new();
    // A straight chain: source at x = 0, then levels 7 down to 1.
    world.set_block_data(BlockPos::new(0, 0, 0), water(8));
    for d in 1..=7 {
        world.set_block_data(BlockPos::new(d, 0, 0), water(8 - d));
    }

    fm.remove_fluid(&mut world, BlockPos::new(0, 0, 0));
    assert_eq!(world.get_block_state_id(&BlockPos::new(0, 0, 0)), Some(0));

    run_ticks(&mut fm, &mut world, 400);

    // With the source gone and nothing feeding the chain, every cell has
    // receded to air.
    for d in 1..=7 {
        assert_eq!(
            world.get_block_state_id(&BlockPos::new(d, 0, 0)),
            Some(0),
            "cell at distance {} should have receded",
            d
        );
    }
}

#[test]
fn block_placed_near_water_schedules_neighbors() {
    let mut fm = FluidManager::new();
    let mut world = WorldGrid::new();
    let placed = BlockPos::new(0, 0, 0);
    let source_side = BlockPos::new(1, 0, 0);
    let flow_side = BlockPos::new(-1, 0, 0);
    world.set_block_data(placed, solid());
    world.set_block_data(source_side, water(8));
    world.set_block_data(flow_side, water(5));

    fm.handle_block_placed_near_water(&world, placed);

    // The source neighbor is re-checked ahead of the flowing one.
    assert_eq!(fm.pending_at(&source_side).expect("source scheduled").priority, 2);
    assert_eq!(fm.pending_at(&flow_side).expect("flow scheduled").priority, 1);
    assert_eq!(fm.pending_len(), 2);
}

#[test]
fn waterfall_spills_over_an_edge() {
    let mut fm = FluidManager::new();
    let mut world = WorldGrid::new();
    // A source on solid ground; one step east the ground ends.
    let source_pos = BlockPos::new(0, 0, 0);
    let edge = BlockPos::new(1, 0, 0);
    let drop = BlockPos::new(1, -1, 0);
    world.set_block_data(BlockPos::new(0, -1, 0), solid());
    world.set_block_data(source_pos, water(8));
    world.set_block_data(edge, air());
    world.set_block_data(drop, air());
    // Open space past the edge, so the path search sees the drop.
    world.set_block_data(BlockPos::new(2, 0, 0), air());
    world.set_block_data(BlockPos::new(2, -1, 0), air());

    fm.schedule_update(source_pos, WATER_SOURCE_STATE_ID, 0, 3);
    run_ticks(&mut fm, &mut world, 30);

    // The spread cell poured over the edge and filled the cell below it.
    let edge_id = world.get_block_state_id(&edge).expect("edge loaded");
    assert!(edge_id != 0, "fluid should have spread to the edge");
    let drop_id = world.get_block_state_id(&drop).expect("drop loaded");
    assert_eq!(drop_id, WATER_LEVEL_7_STATE_ID);
}

#[test]
fn single_source_spreads_to_distance_seven() {
    let mut fm = FluidManager::new();
    let mut world = WorldGrid::new();
    // A flat solid floor with an air layer above it, and one source in the
    // middle of the air layer.
    for x in -9i32..=9 {
        for z in -9i32..=9 {
            if x.abs() + z.abs() <= 9 {
                world.set_block_data(BlockPos::new(x, -1, z), solid());
                world.set_block_data(BlockPos::new(x, 0, z), air());
            }
        }
    }
    let origin = BlockPos::new(0, 0, 0);
    world.set_block_data(origin, water(8));
    fm.schedule_update(origin, WATER_SOURCE_STATE_ID, 0, 3);

    run_ticks(&mut fm, &mut world, 100);

    // Along one horizontal line: level falls by one per step, the farthest
    // water is level 1 at distance 7, and no fluid forms at distance 8.
    for d in 1..=7 {
        assert_eq!(
            world.get_block_state_id(&BlockPos::new(d, 0, 0)),
            Some(state_id_for_level(8 - d)),
            "cell at distance {} should flow at level {}",
            d,
            8 - d
        );
    }
    assert_eq!(world.get_block_state_id(&BlockPos::new(8, 0, 0)), Some(0));
}
