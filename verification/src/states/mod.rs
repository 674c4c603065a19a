//! The data that character states carry.

pub mod basic_melee;
pub mod combo_melee;
pub mod equipping;
pub mod utils;
