//! Level-based liquid simulation for a block-grid world: a deduplicating
//! tick scheduler, a bounded search for downward flow paths, a reachability
//! search for source connections, and a per-cell flow resolver with batched
//! writes; plus the block and item handlers wired into it and the small
//! configuration and generation records around it.

pub mod blocks;
pub mod bossbar;
pub mod bucket;
pub mod config;
pub mod level;
pub mod manager;
pub mod pos;
pub mod scheduler;
pub mod search;
pub mod world;
pub mod worldgen;
