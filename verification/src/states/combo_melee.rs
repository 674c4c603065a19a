use super::utils::StageSection;
use std::time::Duration;
use vstd::prelude::*;

verus! {

/// One stage of a combo.
#[derive(Copy, Clone, Debug, PartialEq, Eq)]
pub struct Stage {
    pub stage: u32,
    pub base_damage: u32,
    pub max_damage: u32,
    pub damage_increase: u32,
    pub base_buildup_duration: Duration,
    pub base_swing_duration: Duration,
    pub base_recover_duration: Duration,
}

/// What stays the same over a whole combo.
#[derive(Debug, PartialEq, Eq)]
pub struct StaticData {
    pub num_stages: u32,
    pub stage_data: Vec<Stage>,
    pub initial_energy_gain: u32,
    pub max_energy_gain: u32,
    pub energy_increase: u32,
    pub is_interruptible: bool,
}

/// A character in a combo of melee attacks.
#[derive(Debug, PartialEq, Eq)]
pub struct Data {
    pub static_data: StaticData,
    /// The stage of the combo, from 1.
    pub stage: u32,
    /// How many hits the combo has landed.
    pub combo: u32,
    pub timer: Duration,
    pub stage_section: StageSection,
    pub next_stage: bool,
}

} // verus!
