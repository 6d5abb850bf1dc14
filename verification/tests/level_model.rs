use pumpkin_fluid::level::{
    classify, is_source_id, is_water_id, state_id_for_level, water_level_of, Cell,
    WATER_LEVEL_1_STATE_ID, WATER_LEVEL_7_STATE_ID, WATER_SOURCE_STATE_ID,
};

#[test]
fn level_state_bijection() {
    for level in 1..=8 {
        let id = state_id_for_level(level);
        assert!(is_water_id(id));
        assert_eq!(water_level_of(id), level);
    }
}

#[test]
fn non_fluid_ids_have_level_zero() {
    for id in [0u16, 1, 42, 85, 94, 1000, u16::MAX] {
        assert!(!is_water_id(id));
        assert_eq!(water_level_of(id), 0);
    }
}

#[test]
fn out_of_range_levels_map_to_air() {
    assert_eq!(state_id_for_level(0), 0);
    assert_eq!(state_id_for_level(-1), 0);
    assert_eq!(state_id_for_level(9), 0);
}

#[test]
fn source_identifier() {
    assert!(is_source_id(WATER_SOURCE_STATE_ID));
    assert!(!is_source_id(WATER_LEVEL_7_STATE_ID));
    assert!(!is_source_id(0));
    assert_eq!(water_level_of(WATER_SOURCE_STATE_ID), 8);
    assert_eq!(water_level_of(WATER_LEVEL_1_STATE_ID), 1);
}

#[test]
fn classification() {
    assert_eq!(classify(0), Cell::Air);
    assert_eq!(classify(WATER_SOURCE_STATE_ID), Cell::Source);
    assert_eq!(classify(WATER_LEVEL_7_STATE_ID), Cell::Flowing(7));
    assert_eq!(classify(WATER_LEVEL_1_STATE_ID), Cell::Flowing(1));
    assert_eq!(classify(17), Cell::NonFluid);
}
