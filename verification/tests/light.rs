use veloren::light::{
    calc_light, light_region, propagate_light, Aabb, LightMap, Vec3i, Voxel, OPAQUE, SUNLIGHT,
    UNKNOWN,
};

fn index(size: Vec3i, x: i32, y: i32, z: i32) -> usize {
    (z * size.y * size.x + x * size.y + y) as usize
}

fn grid(size: Vec3i, kind: impl Fn(i32, i32, i32) -> Voxel) -> Vec<Voxel> {
    let mut voxels = vec![Voxel::Solid; (size.x * size.y * size.z) as usize];
    for z in 0..size.z {
        for x in 0..size.x {
            for y in 0..size.y {
                voxels[index(size, x, y, z)] = kind(x, y, z);
            }
        }
    }
    voxels
}

#[test]
fn open_sky_is_sunlit_and_a_roof_shades() {
    let size = Vec3i::new(3, 3, 4);
    let voxels = grid(size, |x, y, z| {
        if z == 0 || (x, y, z) == (1, 1, 3) {
            Voxel::Solid
        } else if (x, y, z) == (2, 2, 1) {
            Voxel::Fluid
        } else {
            Voxel::Air
        }
    });
    let map = propagate_light(size, &voxels);
    let at = |x, y, z| map[index(size, x, y, z)];
    // Solid ground blocks light.
    for x in 0..3 {
        for y in 0..3 {
            assert_eq!(at(x, y, 0), OPAQUE);
        }
    }
    // The roof is opaque and shades the column under it by one level.
    assert_eq!(at(1, 1, 3), OPAQUE);
    assert_eq!(at(1, 1, 2), SUNLIGHT - 1);
    assert_eq!(at(1, 1, 1), SUNLIGHT - 1);
    // Open sky is full sunlight.
    assert_eq!(at(0, 0, 3), SUNLIGHT);
    assert_eq!(at(0, 0, 1), SUNLIGHT);
    assert_eq!(at(2, 2, 2), SUNLIGHT);
    // Fluid under open sky is one level dimmer.
    assert_eq!(at(2, 2, 1), SUNLIGHT - 1);
}

#[test]
fn light_fades_one_level_per_step_along_a_tunnel() {
    let size = Vec3i::new(5, 1, 3);
    let voxels = grid(size, |x, _y, z| {
        if z == 0 || (z == 2 && x > 0) {
            Voxel::Solid
        } else {
            Voxel::Air
        }
    });
    let map = propagate_light(size, &voxels);
    let row: Vec<u8> = (0..5).map(|x| map[index(size, x, 0, 1)]).collect();
    assert_eq!(row, vec![24, 23, 22, 21, 20]);
    assert_eq!(map[index(size, 0, 0, 2)], SUNLIGHT);
    assert_eq!(map[index(size, 3, 0, 2)], OPAQUE);
}

#[test]
fn sealed_cave_stays_unknown() {
    // A pocket of air with solid all around never gets light.
    let size = Vec3i::new(3, 3, 4);
    let voxels = grid(size, |x, y, z| {
        if (x, y, z) == (1, 1, 1) {
            Voxel::Air
        } else {
            Voxel::Solid
        }
    });
    let map = propagate_light(size, &voxels);
    assert_eq!(map[index(size, 1, 1, 1)], UNKNOWN);
    // Solid blocks next to no light are never looked at.
    assert_eq!(map[index(size, 1, 1, 2)], UNKNOWN);
    assert_eq!(map[index(size, 1, 1, 3)], OPAQUE);
}

#[test]
fn top_layer_fluid_is_opaque() {
    let size = Vec3i::new(1, 1, 3);
    let voxels = grid(size, |_x, _y, z| match z {
        0 => Voxel::Solid,
        1 => Voxel::Air,
        _ => Voxel::Fluid,
    });
    let map = propagate_light(size, &voxels);
    assert_eq!(map[index(size, 0, 0, 2)], OPAQUE);
    assert_eq!(map[index(size, 0, 0, 1)], UNKNOWN);
}

#[test]
fn light_region_adds_margins() {
    let bounds = Aabb {
        min: Vec3i::new(10, 20, 30),
        max: Vec3i::new(42, 52, 62),
    };
    let outer = light_region(bounds);
    assert_eq!(outer.min, Vec3i::new(-14, -4, 29));
    assert_eq!(outer.max, Vec3i::new(66, 76, 63));
}

#[test]
fn calc_light_levels_in_world_coordinates() {
    let bounds = Aabb {
        min: Vec3i::new(0, 0, 0),
        max: Vec3i::new(1, 1, 1),
    };
    let outer = light_region(bounds);
    let size = Vec3i::new(
        outer.max.x - outer.min.x,
        outer.max.y - outer.min.y,
        outer.max.z - outer.min.z,
    );
    assert_eq!(size, Vec3i::new(49, 49, 3));
    let voxels = grid(size, |_x, _y, z| if z == 0 { Voxel::Solid } else { Voxel::Air });
    let map: LightMap = calc_light(bounds, &voxels);
    assert_eq!(map.origin, Vec3i::new(-24, -24, -1));
    assert_eq!(map.level_at(Vec3i::new(0, 0, 0)), SUNLIGHT);
    assert_eq!(map.level_at(Vec3i::new(0, 0, 1)), SUNLIGHT);
    // The solid floor reads as dark.
    assert_eq!(map.level_at(Vec3i::new(0, 0, -1)), 0);
    // Positions before the start of the map read as dark.
    assert_eq!(map.level_at(Vec3i::new(0, 0, -2)), 0);
}
