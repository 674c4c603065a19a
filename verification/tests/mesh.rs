use veloren::light::Vec3i;
use veloren::mesh::{
    block_extents, faces_to_make, generate_mesh, get_color, z_range, Block, Extents, MeshKind, Rgb,
    Rgba,
};

const OPAQUE: Block = Block {
    opaque: true,
    fluid: false,
    air: false,
    color: Some(Rgb { r: 10, g: 20, b: 30 }),
};
const FLUID: Block = Block {
    opaque: false,
    fluid: true,
    air: false,
    color: Some(Rgb { r: 0, g: 0, b: 200 }),
};
const AIR: Block = Block {
    opaque: false,
    fluid: false,
    air: true,
    color: None,
};
const CLEAR: Rgba = Rgba { r: 0, g: 0, b: 0, a: 0 };

fn scan(size: Vec3i, block: impl Fn(i32, i32, i32) -> Block) -> Vec<Block> {
    let mut flat = Vec::new();
    for x in 0..size.x {
        for y in 0..size.y {
            for z in -1..size.z + 1 {
                flat.push(block(x, y, z));
            }
        }
    }
    flat
}

#[test]
fn faces_face_the_neighbours_that_qualify() {
    let mut blocks = [[[Some(OPAQUE); 3]; 3]; 3];
    blocks[1][1][0] = Some(AIR);
    blocks[2][1][1] = Some(AIR);
    blocks[1][0][1] = None;
    let faces = faces_to_make(&blocks, true, |b: Block| !b.opaque);
    assert_eq!(faces, [true, false, true, false, false, true]);
    let faces = faces_to_make(&blocks, false, |b: Block| !b.opaque);
    assert_eq!(faces, [true, false, false, false, false, true]);
}

#[test]
fn extents_of_a_scan() {
    let size = Vec3i::new(3, 3, 3);
    let flat = scan(size, |x, y, z| {
        if z <= 0 {
            OPAQUE
        } else if z == 1 && (x, y) == (1, 1) {
            FLUID
        } else {
            AIR
        }
    });
    let ext = block_extents(size, &flat);
    assert_eq!(
        ext,
        Extents {
            lowest_opaque: -1,
            highest_opaque: 0,
            lowest_fluid: 1,
            highest_fluid: 1,
            lowest_air: 1,
            highest_air: 3,
        }
    );
    assert_eq!(z_range(&ext, size.z), (0, 1));
}

#[test]
fn no_fluid_leaves_its_extents_at_the_defaults() {
    let size = Vec3i::new(3, 3, 5);
    let flat = scan(size, |_x, _y, z| if z <= 0 { OPAQUE } else { AIR });
    let ext = block_extents(size, &flat);
    assert_eq!(ext.lowest_fluid, 5);
    assert_eq!(ext.highest_fluid, 0);
    assert_eq!(z_range(&ext, size.z), (0, 0));
}

#[test]
fn a_floating_block_shows_all_its_faces() {
    let size = Vec3i::new(3, 3, 5);
    let flat = scan(size, |x, y, z| {
        if z <= 0 || (z == 3 && (x, y) == (1, 1)) {
            OPAQUE
        } else {
            AIR
        }
    });
    let faces = generate_mesh(size, &flat);
    assert_eq!(faces.len(), 1);
    assert_eq!(faces[0].pos, Vec3i::new(1, 1, 3));
    assert_eq!(faces[0].mesh, MeshKind::Opaque);
    assert_eq!(faces[0].faces, [true; 6]);
    assert_eq!(faces[0].layers, [2, 3, 4]);
}

#[test]
fn the_first_heights_read_the_layer_above() {
    // At the first two heights meshed, the neighbourhood lags one layer
    // behind, so the fluid one layer up is what the lowest voxel shows.
    let size = Vec3i::new(3, 3, 3);
    let flat = scan(size, |x, y, z| {
        if z <= 0 {
            OPAQUE
        } else if z == 1 && (x, y) == (1, 1) {
            FLUID
        } else {
            AIR
        }
    });
    let faces = generate_mesh(size, &flat);
    assert_eq!(faces.len(), 2);
    assert_eq!(faces[0].pos, Vec3i::new(1, 1, 0));
    assert_eq!(faces[0].mesh, MeshKind::Fluid);
    assert_eq!(faces[0].faces, [true, true, true, true, false, false]);
    assert_eq!(faces[0].layers, [0, 1, 1]);
    assert_eq!(faces[1].pos, Vec3i::new(1, 1, 1));
    assert_eq!(faces[1].mesh, MeshKind::Fluid);
    assert_eq!(faces[1].faces, [true, true, true, true, false, true]);
    assert_eq!(faces[1].layers, [1, 1, 2]);
}

#[test]
fn narrow_boxes_have_nothing_to_mesh() {
    let size = Vec3i::new(2, 2, 2);
    let flat = scan(size, |_x, _y, _z| OPAQUE);
    assert!(generate_mesh(size, &flat).is_empty());
}

#[test]
fn only_opaque_blocks_lend_colour() {
    assert_eq!(get_color(Some(OPAQUE)), Rgba { r: 10, g: 20, b: 30, a: 255 });
    assert_eq!(get_color(Some(FLUID)), CLEAR);
    assert_eq!(get_color(Some(AIR)), CLEAR);
    assert_eq!(get_color(None), CLEAR);
    let uncoloured = Block {
        color: None,
        ..OPAQUE
    };
    assert_eq!(get_color(Some(uncoloured)), CLEAR);
}

#[test]
fn meshed_voxels_carry_their_neighbourhood_colours() {
    let size = Vec3i::new(3, 3, 5);
    let flat = scan(size, |x, y, z| {
        if z <= 0 || (z == 3 && (x, y) == (1, 1)) {
            OPAQUE
        } else {
            AIR
        }
    });
    let faces = generate_mesh(size, &flat);
    let colors = faces[0].colors;
    assert_eq!(colors[1][1][1], Rgba { r: 10, g: 20, b: 30, a: 255 });
    assert_eq!(colors[0][1][1], CLEAR);
    assert_eq!(colors[2][0][0], CLEAR);
}
