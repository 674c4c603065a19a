# veloren

Game rules of a voxel world, written in Verus and proved against their
contracts.

- `src/light.rs`: light propagation over a box of terrain. Sunlight falls
  straight down through air, enters fluid one level dimmer and spreads through
  air and fluid, one level lost per step. The result is proved to be a
  fixpoint: every lit cell has spread its light to its neighbours and owes its
  own light to a brighter neighbour; a cell holds full sunlight exactly when it
  has open sky.
- `src/mesh.rs`: which voxels of a box get faces, into which mesh, and which of
  their six faces show.
- `src/projectile.rs`: what a projectile does when it touches entities or
  terrain, and how its time runs out.
- `src/sfx.rs`, `src/character.rs`, `src/states/`: the sound effects that
  combat states of a character trigger.
- `src/fish_small.rs`: random bodies of small fish.

`app/` holds what stays outside the proofs: the entity-component system, the
floating-point parts of lighting, meshing and projectile effects, and
serialisable copies of types.
