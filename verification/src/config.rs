//! Configuration records for player-data persistence and world generation.

use vstd::prelude::*;

verus! {

/// Settings for saving player and world data.
#[derive(Clone, Copy, PartialEq, Eq, Structural, Debug)]
pub struct PlayerDataConfig {
    /// Is player data saving enabled?
    pub save_player_data: bool,
    /// Is world/chunk data saving enabled?
    pub save_world_data: bool,
    /// Time interval in seconds to save player data.
    pub save_player_cron_interval: u64,
}

impl Default for PlayerDataConfig {
    /// Saving is on by default, every five minutes.
    fn default() -> (r: Self)
        ensures
            r.save_player_data,
            r.save_world_data,
            r.save_player_cron_interval == 300,
    {
        PlayerDataConfig {
            save_player_data: true,
            save_world_data: true,
            save_player_cron_interval: 300,
        }
    }
}

/// Which world generator to use.
#[derive(Clone, Copy, PartialEq, Eq, Structural, Debug)]
pub enum GeneratorType {
    Vanilla,
    Void,
}

/// Settings for world generation.
#[derive(Clone, Copy, PartialEq, Eq, Structural, Debug)]
pub struct WorldGenerationConfig {
    /// The type of world generator to use.
    pub generator_type: GeneratorType,
}

impl Default for WorldGenerationConfig {
    /// The vanilla generator is the default.
    fn default() -> (r: Self)
        ensures
            r.generator_type == GeneratorType::Vanilla,
    {
        WorldGenerationConfig { generator_type: GeneratorType::Vanilla }
    }
}

} // verus!
