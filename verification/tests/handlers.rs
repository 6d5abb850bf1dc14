use pumpkin_fluid::blocks::{register_fluid_blocks, BlockRegistry, LavaBlock, WaterBlock};
use pumpkin_fluid::bossbar::{BossbarColor, BossbarDivisions, BossbarFlags};
use pumpkin_fluid::bucket::BucketItem;
use pumpkin_fluid::config::{GeneratorType, PlayerDataConfig, WorldGenerationConfig};
use pumpkin_fluid::level::{state_id_for_level, WATER_SOURCE_STATE_ID};
use pumpkin_fluid::manager::{FluidManager, FLUID_TICK_RATE};
use pumpkin_fluid::pos::{direction_to_string, BlockDirection, BlockPos};
use pumpkin_fluid::world::{BlockData, WorldGrid};
use pumpkin_fluid::worldgen::{
    ChunkBlocks, FluidLevel, StandardChunkFluidLevelSampler, VoidGenerator,
};

fn air() -> BlockData {
    BlockData { state_id: 0, air: true, replaceable: true }
}

fn solid() -> BlockData {
    BlockData { state_id: 1, air: false, replaceable: false }
}

fn water(level: i32) -> BlockData {
    BlockData { state_id: state_id_for_level(level), air: false, replaceable: false }
}

#[test]
fn registry_holds_both_fluids() {
    let mut registry = BlockRegistry::new();
    register_fluid_blocks(&mut registry);
    assert_eq!(registry.len(), 2);
}

#[test]
fn water_block_neighbor_update_prefers_falling() {
    let mut fm = FluidManager::new();
    let mut world = WorldGrid::new();
    let pos = BlockPos::new(0, 0, 0);
    world.set_block_data(pos, water(5));
    world.set_block_data(BlockPos::new(0, -1, 0), air());

    WaterBlock.on_neighbor_update(&mut fm, &world, &pos);
    let entry = fm.pending_at(&pos).expect("water cell scheduled");
    // The open cell below makes the immediate re-check win over the
    // delayed one.
    assert_eq!(entry.tick_scheduled, FLUID_TICK_RATE);
    assert_eq!(entry.priority, 2);
}

#[test]
fn water_block_neighbor_update_on_ground() {
    let mut fm = FluidManager::new();
    let mut world = WorldGrid::new();
    let pos = BlockPos::new(0, 0, 0);
    world.set_block_data(pos, water(5));
    world.set_block_data(BlockPos::new(0, -1, 0), solid());

    WaterBlock.on_neighbor_update(&mut fm, &world, &pos);
    let entry = fm.pending_at(&pos).expect("water cell scheduled");
    assert_eq!(entry.tick_scheduled, FLUID_TICK_RATE + 1);
    assert_eq!(entry.priority, 1);
}

#[test]
fn lava_block_neighbor_update_is_slower() {
    let mut fm = FluidManager::new();
    let mut world = WorldGrid::new();
    let pos = BlockPos::new(0, 0, 0);
    world.set_block_data(pos, water(5));
    world.set_block_data(BlockPos::new(0, -1, 0), solid());

    LavaBlock.on_neighbor_update(&mut fm, &world, &pos);
    let entry = fm.pending_at(&pos).expect("cell scheduled");
    assert_eq!(entry.tick_scheduled, FLUID_TICK_RATE + 2);
}

#[test]
fn water_block_place_and_break() {
    let mut fm = FluidManager::new();
    let mut world = WorldGrid::new();
    let pos = BlockPos::new(2, 3, 4);
    world.set_block_data(pos, air());
    world.set_block_data(BlockPos::new(3, 3, 4), water(3));

    let returned = WaterBlock.on_place(&mut fm, &mut world, &pos, 1234);
    assert_eq!(returned, 1234);
    assert_eq!(world.get_block_state_id(&pos), Some(WATER_SOURCE_STATE_ID));
    assert_eq!(fm.pending_at(&pos).expect("source scheduled").priority, 3);

    WaterBlock.broken(&mut fm, &mut world, pos);
    assert_eq!(world.get_block_state_id(&pos), Some(0));
    // The water neighbor of the removed source is re-checked at the higher
    // priority.
    let neighbor = fm.pending_at(&BlockPos::new(3, 3, 4)).expect("neighbor scheduled");
    assert_eq!(neighbor.priority, 2);
}

#[test]
fn lava_place_leaves_the_water_model_alone() {
    let mut fm = FluidManager::new();
    let mut world = WorldGrid::new();
    let pos = BlockPos::new(0, 0, 0);
    world.set_block_data(pos, air());

    let returned = LavaBlock.on_place(&mut fm, &mut world, &pos, 777);
    assert_eq!(returned, 777);
    assert_eq!(world.get_block_state_id(&pos), Some(0));
    assert_eq!(fm.pending_len(), 0);
}

#[test]
fn bucket_places_into_air_but_not_into_stone() {
    let mut fm = FluidManager::new();
    let mut world = WorldGrid::new();
    let open = BlockPos::new(0, 0, 0);
    let blocked = BlockPos::new(5, 0, 0);
    world.set_block_data(open, air());
    world.set_block_data(blocked, solid());
    world.set_block_data(BlockPos::new(1, 0, 0), water(2));

    BucketItem.place_fluid(&mut fm, &mut world, blocked, WATER_SOURCE_STATE_ID, true);
    assert_eq!(world.get_block_state_id(&blocked), Some(1));
    assert_eq!(fm.pending_len(), 0);

    BucketItem.place_fluid(&mut fm, &mut world, open, WATER_SOURCE_STATE_ID, true);
    assert_eq!(world.get_block_state_id(&open), Some(WATER_SOURCE_STATE_ID));
    assert!(fm.pending_at(&open).is_some());
    // The water next door is woken at top priority.
    let neighbor = fm.pending_at(&BlockPos::new(1, 0, 0)).expect("neighbor woken");
    assert_eq!(neighbor.priority, 3);
}

#[test]
fn config_defaults() {
    let player = PlayerDataConfig::default();
    assert!(player.save_player_data);
    assert!(player.save_world_data);
    assert_eq!(player.save_player_cron_interval, 300);

    let world_gen = WorldGenerationConfig::default();
    assert_eq!(world_gen.generator_type, GeneratorType::Vanilla);
}

#[test]
fn fluid_level_sampler_crossover() {
    let top = FluidLevel::new(63, 10);
    let bottom = FluidLevel::new(-54, 20);
    let sampler = StandardChunkFluidLevelSampler::new(top, bottom);
    assert_eq!(sampler.get_fluid_level(0, 0, 0).block_id(), 10);
    assert_eq!(sampler.get_fluid_level(4, -54, 4).block_id(), 10);
    assert_eq!(sampler.get_fluid_level(0, -55, 0).block_id(), 20);
    assert_eq!(sampler.get_fluid_level(0, -60, 0).max_y_exclusive(), -54);
}

#[test]
fn void_generator_makes_empty_chunks() {
    let generator = VoidGenerator::new(12345);
    let chunk = generator.generate_chunk(3, -7);
    assert_eq!(chunk.blocks, ChunkBlocks::Homogeneous(0));
    assert_eq!(chunk.position_x, 3);
    assert_eq!(chunk.position_z, -7);
    assert!(chunk.dirty);
}

#[test]
fn bossbar_wire_values() {
    assert_eq!(BossbarColor::Pink.value(), 0);
    assert_eq!(BossbarColor::White.value(), 6);
    assert_eq!(BossbarDivisions::NoDivision.value(), 0);
    assert_eq!(BossbarDivisions::Notches20.value(), 4);
    assert_eq!(BossbarFlags::NoFlags.value(), 0);
    assert_eq!(BossbarFlags::DarkenSky.value(), 1);
    assert_eq!(BossbarFlags::DragonBar.value(), 2);
    assert_eq!(BossbarFlags::CreateFog.value(), 4);
}

#[test]
fn directions_and_names() {
    assert_eq!(direction_to_string(&BlockDirection::Up), "Up");
    assert_eq!(direction_to_string(&BlockDirection::West), "West");
    assert_eq!(BlockDirection::Up.opposite(), BlockDirection::Down);
    assert_eq!(BlockDirection::North.opposite(), BlockDirection::South);
    assert_eq!(BlockDirection::East.opposite(), BlockDirection::West);
    let pos = BlockPos::new(1, 2, 3);
    assert_eq!(pos.offset(BlockDirection::Up), BlockPos::new(1, 3, 3));
    assert_eq!(pos.offset(BlockDirection::North), BlockPos::new(1, 2, 2));
    assert_eq!(pos.offset(BlockDirection::East), BlockPos::new(2, 2, 3));
}
