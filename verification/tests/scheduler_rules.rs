use pumpkin_fluid::level::{state_id_for_level, WATER_LEVEL_4_STATE_ID};
use pumpkin_fluid::manager::{FluidManager, FLUID_TICK_RATE, MAX_UPDATES_PER_TICK};
use pumpkin_fluid::pos::BlockPos;
use pumpkin_fluid::world::WorldGrid;

#[test]
fn dedup_keeps_the_sooner_entry() {
    let mut fm = FluidManager::new();
    let pos = BlockPos::new(3, 4, 5);
    // Due at tick 5, priority 1; the later request (due tick 10) must lose.
    fm.schedule_update(pos, WATER_LEVEL_4_STATE_ID, 0, 1);
    fm.schedule_update(pos, WATER_LEVEL_4_STATE_ID, 5, 3);
    let entry = fm.pending_at(&pos).expect("entry must be pending");
    assert_eq!(entry.tick_scheduled, FLUID_TICK_RATE);
    assert_eq!(entry.priority, 1);
    assert_eq!(fm.pending_len(), 1);
}

#[test]
fn dedup_keeps_equal_tick_higher_priority() {
    let mut fm = FluidManager::new();
    let pos = BlockPos::new(-2, 0, 9);
    fm.schedule_update(pos, WATER_LEVEL_4_STATE_ID, 0, 2);
    fm.schedule_update(pos, WATER_LEVEL_4_STATE_ID, 0, 1);
    let entry = fm.pending_at(&pos).expect("entry must be pending");
    assert_eq!(entry.priority, 2);
    assert_eq!(fm.pending_len(), 1);
}

#[test]
fn dedup_supersedes_with_sooner_due_tick() {
    let mut fm = FluidManager::new();
    let pos = BlockPos::new(0, 0, 0);
    fm.schedule_update(pos, WATER_LEVEL_4_STATE_ID, 7, 1);
    fm.schedule_update(pos, WATER_LEVEL_4_STATE_ID, 0, 1);
    let entry = fm.pending_at(&pos).expect("entry must be pending");
    assert_eq!(entry.tick_scheduled, FLUID_TICK_RATE);
    assert_eq!(fm.pending_len(), 1);
}

#[test]
fn non_fluid_observation_is_not_scheduled() {
    let mut fm = FluidManager::new();
    let pos = BlockPos::new(1, 1, 1);
    // State 17 is neither air nor water: the request is a no-op.
    fm.schedule_update(pos, 17, 0, 3);
    assert!(fm.pending_at(&pos).is_none());
    assert_eq!(fm.pending_len(), 0);
}

#[test]
fn cap_enforcement_drains_exactly_the_cap() {
    let mut fm = FluidManager::new();
    let mut world = WorldGrid::new();
    let extra = 44usize;
    let n = MAX_UPDATES_PER_TICK + extra;
    // All positions are unloaded, so resolving them has no effect and no
    // new updates are scheduled.
    for i in 0..n {
        fm.schedule_update(BlockPos::new(i as i32, 0, 0), 0, 0, 1);
    }
    assert_eq!(fm.pending_len(), n);
    // Not yet due: nothing drains before the base interval has elapsed.
    for _ in 0..(FLUID_TICK_RATE - 1) {
        fm.tick(&mut world);
        assert_eq!(fm.pending_len(), n);
    }
    // Now all are due at once: exactly the cap is drained.
    fm.tick(&mut world);
    assert_eq!(fm.pending_len(), extra);
    // The rest drain on the next tick.
    fm.tick(&mut world);
    assert_eq!(fm.pending_len(), 0);
}

#[test]
fn manager_classifies_water() {
    let fm = FluidManager::new();
    assert_eq!(fm.current_tick(), 0);
    assert!(fm.is_water(86));
    assert!(fm.is_water(93));
    assert!(!fm.is_water(0));
    assert!(!fm.is_water(94));
}

#[test]
fn level_is_never_written_below_one() {
    // The identifier written for each level is water for 1..=8 and air
    // otherwise; a "level 0" or negative flowing cell cannot be expressed.
    assert_eq!(state_id_for_level(0), 0);
    assert_eq!(state_id_for_level(-3), 0);
}
