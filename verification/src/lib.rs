//! Game rules of a voxel world: creature bodies, projectile effects,
//! terrain light propagation and meshing decisions, and combat sound events.

pub mod fish_small;
pub mod light;
pub mod mesh;
pub mod projectile;
pub mod states;
pub mod character;
pub mod sfx;
