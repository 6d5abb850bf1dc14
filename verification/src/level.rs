//! The level model: a bidirectional mapping between a liquid cell's external
//! state identifier and an internal level 1..8 (8 = infinite source), plus
//! classification predicates. Pure, total, no side effects.

use vstd::prelude::*;

verus! {

/// State identifier of a source cell (level 8).
pub const WATER_SOURCE_STATE_ID: u16 = 86;
/// State identifier of level 7 water (closest to a source).
pub const WATER_LEVEL_7_STATE_ID: u16 = 87;
/// State identifier of level 6 water.
pub const WATER_LEVEL_6_STATE_ID: u16 = 88;
/// State identifier of level 5 water.
pub const WATER_LEVEL_5_STATE_ID: u16 = 89;
/// State identifier of level 4 water.
pub const WATER_LEVEL_4_STATE_ID: u16 = 90;
/// State identifier of level 3 water.
pub const WATER_LEVEL_3_STATE_ID: u16 = 91;
/// State identifier of level 2 water.
pub const WATER_LEVEL_2_STATE_ID: u16 = 92;
/// State identifier of level 1 water (furthest from a source, about to vanish).
pub const WATER_LEVEL_1_STATE_ID: u16 = 93;

/// True of the eight state identifiers that denote water (a source or a
/// flowing level 1..7).
pub open spec fn spec_is_water(state_id: u16) -> bool {
    WATER_SOURCE_STATE_ID <= state_id <= WATER_LEVEL_1_STATE_ID
}

/// True of the state identifier that denotes a source.
pub open spec fn spec_is_source(state_id: u16) -> bool {
    state_id == WATER_SOURCE_STATE_ID
}

/// The level 1..8 of a water state identifier; 0 for anything that is not
/// water. 8 denotes a source.
pub open spec fn spec_level_of(state_id: u16) -> int {
    if state_id == WATER_SOURCE_STATE_ID {
        8
    } else if spec_is_water(state_id) {
        // Identifiers run downward as levels run upward: 87 is level 7,
        // 93 is level 1.
        94 - state_id
    } else {
        0
    }
}

/// The state identifier for a level 1..8; 0 (air) for any level outside
/// that range.
pub open spec fn spec_state_id_of(level: int) -> u16 {
    if level == 8 {
        WATER_SOURCE_STATE_ID
    } else if 1 <= level <= 7 {
        (94 - level) as u16
    } else {
        0
    }
}

/// Classification of one cell, derived from its state identifier alone.
#[derive(Clone, Copy, PartialEq, Eq, Structural, Debug)]
pub enum Cell {
    /// State identifier 0: empty space.
    Air,
    /// A water cell with infinite supply (level 8).
    Source,
    /// A water cell with the given level 1..7.
    Flowing(u8),
    /// Any other state identifier: solid or otherwise non-fluid.
    NonFluid,
}

/// Classification as a spec-level function of the state identifier.
pub open spec fn spec_classify(state_id: u16) -> Cell {
    if state_id == 0 {
        Cell::Air
    } else if spec_is_source(state_id) {
        Cell::Source
    } else if spec_is_water(state_id) {
        Cell::Flowing(spec_level_of(state_id) as u8)
    } else {
        Cell::NonFluid
    }
}

/// Whether a state identifier denotes water (a source or flowing level).
pub fn is_water_id(state_id: u16) -> (r: bool)
    ensures
        r == spec_is_water(state_id),
{
    match state_id {
        WATER_SOURCE_STATE_ID
        | WATER_LEVEL_1_STATE_ID
        | WATER_LEVEL_2_STATE_ID
        | WATER_LEVEL_3_STATE_ID
        | WATER_LEVEL_4_STATE_ID
        | WATER_LEVEL_5_STATE_ID
        | WATER_LEVEL_6_STATE_ID
        | WATER_LEVEL_7_STATE_ID => true,
        _ => false,
    }
}

/// Whether a state identifier denotes a source.
pub fn is_source_id(state_id: u16) -> (r: bool)
    ensures
        r == spec_is_source(state_id),
{
    state_id == WATER_SOURCE_STATE_ID
}

/// The water level 1..8 of a state identifier; 0 if it is not water.
pub fn water_level_of(state_id: u16) -> (r: i32)
    ensures
        r == spec_level_of(state_id),
        0 <= r <= 8,
{
    match state_id {
        WATER_SOURCE_STATE_ID => 8,
        WATER_LEVEL_7_STATE_ID => 7,
        WATER_LEVEL_6_STATE_ID => 6,
        WATER_LEVEL_5_STATE_ID => 5,
        WATER_LEVEL_4_STATE_ID => 4,
        WATER_LEVEL_3_STATE_ID => 3,
        WATER_LEVEL_2_STATE_ID => 2,
        WATER_LEVEL_1_STATE_ID => 1,
        _ => 0,
    }
}

/// The state identifier for a water level; 0 (air) for a level outside 1..8.
pub fn state_id_for_level(level: i32) -> (r: u16)
    ensures
        r == spec_state_id_of(level as int),
{
    match level {
        8 => WATER_SOURCE_STATE_ID,
        7 => WATER_LEVEL_7_STATE_ID,
        6 => WATER_LEVEL_6_STATE_ID,
        5 => WATER_LEVEL_5_STATE_ID,
        4 => WATER_LEVEL_4_STATE_ID,
        3 => WATER_LEVEL_3_STATE_ID,
        2 => WATER_LEVEL_2_STATE_ID,
        1 => WATER_LEVEL_1_STATE_ID,
        _ => 0,
    }
}

/// Classify a state identifier as air, source, flowing water, or non-fluid.
pub fn classify(state_id: u16) -> (r: Cell)
    ensures
        r == spec_classify(state_id),
{
    if state_id == 0 {
        Cell::Air
    } else if is_source_id(state_id) {
        Cell::Source
    } else if is_water_id(state_id) {
        let lvl = water_level_of(state_id);
        Cell::Flowing(lvl as u8)
    } else {
        Cell::NonFluid
    }
}

/// The mapping between levels and state identifiers is a bijection on its
/// domain: every level 1..8 round-trips through its state identifier, and
/// every identifier that is not water has level 0.
pub proof fn lemma_level_state_bijection()
    ensures
        forall|level: int| 1 <= level <= 8 ==> spec_level_of(spec_state_id_of(level)) == level,
        forall|id: u16| !spec_is_water(id) ==> spec_level_of(id) == 0,
        forall|id: u16| spec_is_water(id) ==> spec_state_id_of(spec_level_of(id)) == id,
{
}

} // verus!
