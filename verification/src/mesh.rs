use crate::light::Vec3i;
use vstd::prelude::*;
use vstd::seq_lib::lemma_seq_concat_contains_all_elements;

verus! {

/// What meshing needs to know of a block of terrain.
#[derive(Copy, Clone, Debug, PartialEq, Eq, Structural)]
pub struct Block {
    pub opaque: bool,
    pub fluid: bool,
    pub air: bool,
    /// The colour of the block, if it has one.
    pub color: Option<Rgb>,
}

/// A colour.
#[derive(Copy, Clone, Debug, PartialEq, Eq, Structural)]
pub struct Rgb {
    pub r: u8,
    pub g: u8,
    pub b: u8,
}

/// A colour with opacity.
#[derive(Copy, Clone, Debug, PartialEq, Eq, Structural)]
pub struct Rgba {
    pub r: u8,
    pub g: u8,
    pub b: u8,
    pub a: u8,
}

/// The colour a neighbour lends to the faces of a voxel: the colour of an
/// opaque block, fully opaque, and nothing otherwise.
pub open spec fn color_spec(maybe_block: Option<Block>) -> Rgba {
    match maybe_block {
        Some(v) => if v.opaque && v.color is Some {
            let c = v.color->0;
            Rgba { r: c.r, g: c.g, b: c.b, a: 255 }
        } else {
            Rgba { r: 0, g: 0, b: 0, a: 0 }
        },
        None => Rgba { r: 0, g: 0, b: 0, a: 0 },
    }
}

/// The colour a neighbour lends to the faces of a voxel.
pub fn get_color(maybe_block: Option<Block>) -> (c: Rgba)
    ensures
        c == color_spec(maybe_block),
{
    match maybe_block {
        Some(v) => if v.is_opaque() {
            match v.color {
                Some(col) => Rgba { r: col.r, g: col.g, b: col.b, a: 255 },
                None => Rgba { r: 0, g: 0, b: 0, a: 0 },
            }
        } else {
            Rgba { r: 0, g: 0, b: 0, a: 0 }
        },
        None => Rgba { r: 0, g: 0, b: 0, a: 0 },
    }
}

fn colors_row(row: &[Option<Block>; 3]) -> (colors: [Rgba; 3])
    ensures
        forall|i: int| 0 <= i < 3 ==> #[trigger] colors[i] == color_spec(row[i]),
{
    let colors = [get_color(row[0]), get_color(row[1]), get_color(row[2])];
    assert forall|i: int| 0 <= i < 3 implies #[trigger] colors[i] == color_spec(row[i]) by {
        if i == 0 {
        } else if i == 1 {
        } else {
        }
    }
    colors
}

fn colors_slice(layer: &[[Option<Block>; 3]; 3]) -> (colors: [[Rgba; 3]; 3])
    ensures
        forall|i: int, j: int|
            0 <= i < 3 && 0 <= j < 3 ==> #[trigger] colors[j][i] == color_spec(layer[j][i]),
{
    let c0 = colors_row(&layer[0]);
    let c1 = colors_row(&layer[1]);
    let c2 = colors_row(&layer[2]);
    let colors = [c0, c1, c2];
    assert forall|i: int, j: int| 0 <= i < 3 && 0 <= j < 3 implies #[trigger] colors[j][i]
        == color_spec(layer[j][i]) by {
        if j == 0 {
            assert(colors[j] == c0);
        } else if j == 1 {
            assert(colors[j] == c1);
        } else {
            assert(colors[j] == c2);
        }
    }
    colors
}

/// The colours `colors[k][j][i]` that the neighbourhood `blocks[k][j][i]`
/// lends to the faces of its middle voxel.
pub fn window_colors(blocks: &[[[Option<Block>; 3]; 3]; 3]) -> (colors: [[[Rgba; 3]; 3]; 3])
    ensures
        forall|i: int, j: int, k: int|
            0 <= i < 3 && 0 <= j < 3 && 0 <= k < 3 ==> #[trigger] colors[k][j][i] == color_spec(
                blocks[k][j][i],
            ),
{
    let c0 = colors_slice(&blocks[0]);
    let c1 = colors_slice(&blocks[1]);
    let c2 = colors_slice(&blocks[2]);
    let colors = [c0, c1, c2];
    assert forall|i: int, j: int, k: int|
        0 <= i < 3 && 0 <= j < 3 && 0 <= k < 3 implies #[trigger] colors[k][j][i] == color_spec(
            blocks[k][j][i],
        ) by {
        if k == 0 {
            assert(colors[k] == c0);
            assert(c0[j][i] == color_spec(blocks[0][j][i]));
        } else if k == 1 {
            assert(colors[k] == c1);
            assert(c1[j][i] == color_spec(blocks[1][j][i]));
        } else {
            assert(colors[k] == c2);
            assert(c2[j][i] == color_spec(blocks[2][j][i]));
        }
    }
    colors
}

impl Block {
    pub fn is_opaque(&self) -> (r: bool)
        ensures
            r == self.opaque,
    {
        self.opaque
    }

    pub fn is_fluid(&self) -> (r: bool)
        ensures
            r == self.fluid,
    {
        self.fluid
    }

    pub fn is_air(&self) -> (r: bool)
        ensures
            r == self.air,
    {
        self.air
    }
}

/// The six faces of a voxel, in this order: -x, +x, -y, +y, -z, +z.
/// `blocks[z][y][x]` is the 3x3x3 neighbourhood around the voxel, the voxel
/// itself at `[1][1][1]`. A face is drawn where `should_add` holds of the
/// neighbour across it; a missing neighbour draws a face when
/// `error_makes_face` holds.
pub fn faces_to_make<F: Fn(Block) -> bool>(
    blocks: &[[[Option<Block>; 3]; 3]; 3],
    error_makes_face: bool,
    should_add: F,
) -> (faces: [bool; 6])
    requires
        forall|b: Block| #[trigger] should_add.requires((b,)),
    ensures
        face_rule(blocks[1][1][0], error_makes_face, should_add, faces[0]),
        face_rule(blocks[1][1][2], error_makes_face, should_add, faces[1]),
        face_rule(blocks[1][0][1], error_makes_face, should_add, faces[2]),
        face_rule(blocks[1][2][1], error_makes_face, should_add, faces[3]),
        face_rule(blocks[0][1][1], error_makes_face, should_add, faces[4]),
        face_rule(blocks[2][1][1], error_makes_face, should_add, faces[5]),
{
    [
        make_face(blocks[1][1][0], error_makes_face, &should_add),
        make_face(blocks[1][1][2], error_makes_face, &should_add),
        make_face(blocks[1][0][1], error_makes_face, &should_add),
        make_face(blocks[1][2][1], error_makes_face, &should_add),
        make_face(blocks[0][1][1], error_makes_face, &should_add),
        make_face(blocks[2][1][1], error_makes_face, &should_add),
    ]
}

/// Whether a face is drawn against neighbour `opt_v`: what `should_add` says
/// of a present neighbour, `error_makes_face` for a missing one.
pub open spec fn face_rule<F: Fn(Block) -> bool>(
    opt_v: Option<Block>,
    error_makes_face: bool,
    should_add: F,
    face: bool,
) -> bool {
    match opt_v {
        Some(v) => should_add.ensures((v,), face),
        None => face == error_makes_face,
    }
}

fn make_face<F: Fn(Block) -> bool>(opt_v: Option<Block>, error_makes_face: bool, should_add: &F) -> (face:
    bool)
    requires
        forall|b: Block| #[trigger] should_add.requires((b,)),
    ensures
        face_rule(opt_v, error_makes_face, *should_add, face),
{
    match opt_v {
        Some(v) => should_add(v),
        None => error_makes_face,
    }
}


// ------------------------------------------------------------------------
// The scanned blocks of a meshed box
// ------------------------------------------------------------------------

/// Sizes of a meshed box whose scan can be indexed in `i32`; beyond two
/// columns across, the box is no wider in `x` than in `y`.
pub open spec fn mesh_dims_ok(size: Vec3i) -> bool {
    &&& 0 <= size.x
    &&& 0 <= size.y
    &&& 1 <= size.z
    &&& size.z + 2 <= i32::MAX
    &&& size.x * size.y * (size.z + 2) <= i32::MAX
    &&& (size.x < 3 || size.x <= size.y)
}

/// Number of blocks scanned: every column of the box, one block below it and
/// one above it included.
pub open spec fn scan_len(size: Vec3i) -> int {
    size.x * size.y * (size.z + 2)
}

/// Where the block at `(x, y, z)` of the box stands in the scan, for `z` from
/// -1 to the depth.
pub open spec fn scan_pos(size: Vec3i, x: int, y: int, z: int) -> int {
    x * size.y * (size.z + 2) + y * (size.z + 2) + (z + 1)
}

/// The height of the `i`-th scanned block.
pub open spec fn scan_z(size: Vec3i, i: int) -> int {
    i % (size.z + 2) - 1
}

pub open spec fn block_at(size: Vec3i, flat: Seq<Block>, x: int, y: int, z: int) -> Block {
    flat[scan_pos(size, x, y, z)]
}

/// The kind of block that meshing tells apart: 0 opaque, 1 fluid, 2 any other.
pub open spec fn category(b: Block) -> int {
    if b.opaque {
        0
    } else if b.fluid {
        1
    } else {
        2
    }
}

/// The lowest height among the first `n` scanned blocks of category `cat`,
/// starting from the depth of the box.
pub open spec fn lowest_of(size: Vec3i, flat: Seq<Block>, cat: int, n: int) -> int
    decreases n,
{
    if n <= 0 {
        size.z as int
    } else {
        let l = lowest_of(size, flat, cat, n - 1);
        if category(flat[n - 1]) == cat && scan_z(size, n - 1) < l {
            scan_z(size, n - 1)
        } else {
            l
        }
    }
}

/// The highest height among the first `n` scanned blocks of category `cat`,
/// starting from 0.
pub open spec fn highest_of(size: Vec3i, flat: Seq<Block>, cat: int, n: int) -> int
    decreases n,
{
    if n <= 0 {
        0
    } else {
        let h = highest_of(size, flat, cat, n - 1);
        if category(flat[n - 1]) == cat && scan_z(size, n - 1) > h {
            scan_z(size, n - 1)
        } else {
            h
        }
    }
}

/// Lowest and highest heights of each kind of block in a scan.
#[derive(Copy, Clone, Debug, PartialEq, Eq, Structural)]
pub struct Extents {
    pub lowest_opaque: i32,
    pub highest_opaque: i32,
    pub lowest_fluid: i32,
    pub highest_fluid: i32,
    pub lowest_air: i32,
    pub highest_air: i32,
}

pub open spec fn extents_upto(size: Vec3i, flat: Seq<Block>, n: int) -> Extents {
    Extents {
        lowest_opaque: lowest_of(size, flat, 0, n) as i32,
        highest_opaque: highest_of(size, flat, 0, n) as i32,
        lowest_fluid: lowest_of(size, flat, 1, n) as i32,
        highest_fluid: highest_of(size, flat, 1, n) as i32,
        lowest_air: lowest_of(size, flat, 2, n) as i32,
        highest_air: highest_of(size, flat, 2, n) as i32,
    }
}

proof fn lemma_extents_range(size: Vec3i, flat: Seq<Block>, cat: int, n: int)
    requires
        1 <= size.z,
        0 <= n <= flat.len(),
    ensures
        -1 <= lowest_of(size, flat, cat, n) <= size.z,
        0 <= highest_of(size, flat, cat, n) <= size.z,
    decreases n,
{
    if n > 0 {
        lemma_extents_range(size, flat, cat, n - 1);
    }
}

/// Lowest and highest heights of opaque blocks, of fluid blocks and of all
/// other blocks over the whole scan `flat`; a lowest height is the depth of
/// the box where no such block is, a highest height never below 0.
pub fn block_extents(size: Vec3i, flat: &Vec<Block>) -> (ext: Extents)
    requires
        mesh_dims_ok(size),
        flat@.len() == scan_len(size),
    ensures
        ext == extents_upto(size, flat@, flat@.len() as int),
{
    let d2 = size.z + 2;
    let mut ext = Extents {
        lowest_opaque: size.z,
        highest_opaque: 0,
        lowest_fluid: size.z,
        highest_fluid: 0,
        lowest_air: size.z,
        highest_air: 0,
    };
    let mut i: usize = 0;
    while i < flat.len()
        invariant
            mesh_dims_ok(size),
            flat@.len() == scan_len(size),
            d2 == size.z + 2,
            0 <= i <= flat@.len(),
            ext == extents_upto(size, flat@, i as int),
        decreases flat@.len() - i,
    {
        proof {
            lemma_extents_range(size, flat@, 0, i as int);
            lemma_extents_range(size, flat@, 1, i as int);
            lemma_extents_range(size, flat@, 2, i as int);
        }
        let z = (i as i32) % d2 - 1;
        let block = flat[i];
        if block.is_opaque() {
            if z < ext.lowest_opaque {
                ext.lowest_opaque = z;
            }
            if z > ext.highest_opaque {
                ext.highest_opaque = z;
            }
        } else if block.is_fluid() {
            if z < ext.lowest_fluid {
                ext.lowest_fluid = z;
            }
            if z > ext.highest_fluid {
                ext.highest_fluid = z;
            }
        } else {
            if z < ext.lowest_air {
                ext.lowest_air = z;
            }
            if z > ext.highest_air {
                ext.highest_air = z;
            }
        }
        i = i + 1;
    }
    ext
}

// ------------------------------------------------------------------------
// The heights to mesh
// ------------------------------------------------------------------------

/// The lowest height worth meshing, from where air, fluid and opaque blocks
/// start, never below 0.
pub open spec fn z_start_spec(e: Extents) -> int {
    let la = e.lowest_air as int;
    let lo = e.lowest_opaque as int;
    let lf = e.lowest_fluid as int;
    let s = if (la > lo && la <= lf) || (la > lf && la <= lo) {
        la - 2
    } else if lf > lo && lf <= la {
        lf - 2
    } else if lf > la && lf <= lo {
        lf - 1
    } else {
        lo - 1
    };
    if s < 0 {
        0
    } else {
        s
    }
}

/// The highest height worth meshing, from where air, fluid and opaque blocks
/// end, never above `depth - 1`.
pub open spec fn z_end_spec(e: Extents, depth: int) -> int {
    let ha = e.highest_air as int;
    let ho = e.highest_opaque as int;
    let hf = e.highest_fluid as int;
    let t = if (ha < ho && ha >= hf) || (ha < hf && ha >= ho) {
        ha + 1
    } else if hf < ho && hf >= ha {
        hf + 1
    } else if hf < ha && hf >= ho {
        hf
    } else {
        ho
    };
    if t > depth - 1 {
        depth - 1
    } else {
        t
    }
}

pub open spec fn extents_in(e: Extents, depth: int) -> bool {
    &&& -1 <= e.lowest_opaque <= depth
    &&& -1 <= e.lowest_fluid <= depth
    &&& -1 <= e.lowest_air <= depth
    &&& 0 <= e.highest_opaque <= depth
    &&& 0 <= e.highest_fluid <= depth
    &&& 0 <= e.highest_air <= depth
}

/// Where opaque ground lies below all air and fluid, meshing starts two
/// below the first height that is not opaque (the lowest air or the lowest
/// fluid, whichever is lower), never below 0, so that the surface of the
/// ground is meshed; where opaque blocks rise above all air and fluid,
/// meshing ends one above the highest height that is not opaque, never above
/// `depth - 1`.
pub proof fn lemma_ground_is_meshed(e: Extents, depth: int)
    ensures
        e.lowest_opaque < e.lowest_air && e.lowest_opaque < e.lowest_fluid ==> z_start_spec(e)
            == vstd::math::max(0, vstd::math::min(e.lowest_air as int, e.lowest_fluid as int) - 2),
        e.lowest_opaque < e.lowest_air && e.lowest_opaque < e.lowest_fluid ==> z_start_spec(e)
            <= vstd::math::max(0, vstd::math::min(e.lowest_air as int, e.lowest_fluid as int) - 1),
        e.highest_opaque > e.highest_air && e.highest_opaque > e.highest_fluid ==> z_end_spec(
            e,
            depth,
        ) == vstd::math::min(depth - 1, vstd::math::max(e.highest_air as int, e.highest_fluid as int) + 1),
{
}

/// The first height meshed when opaque blocks are not the lowest: below air
/// that starts lowest, one below the first fluid or opaque block; below fluid
/// that starts lowest, two below the first air if opaque blocks start no
/// lower than that air, else one below the first opaque block; never below 0.
pub proof fn lemma_z_start_by_lowest(e: Extents)
    ensures
        e.lowest_air < e.lowest_fluid && e.lowest_air < e.lowest_opaque ==> z_start_spec(e)
            == vstd::math::max(0, vstd::math::min(e.lowest_fluid as int, e.lowest_opaque as int) - 1),
        e.lowest_fluid < e.lowest_air <= e.lowest_opaque ==> z_start_spec(e) == vstd::math::max(
            0,
            e.lowest_air - 2,
        ),
        e.lowest_fluid < e.lowest_opaque < e.lowest_air ==> z_start_spec(e) == vstd::math::max(
            0,
            e.lowest_opaque - 1,
        ),
{
}

/// The last height meshed when opaque blocks are not the highest: above air
/// that ends highest, the last fluid or opaque height; above fluid that ends
/// highest, one above the last air if opaque blocks end no higher than that
/// air, else the last opaque height; never above `depth - 1`.
pub proof fn lemma_z_end_by_highest(e: Extents, depth: int)
    ensures
        e.highest_air > e.highest_fluid && e.highest_air > e.highest_opaque ==> z_end_spec(e, depth)
            == vstd::math::min(depth - 1, vstd::math::max(e.highest_fluid as int, e.highest_opaque as int)),
        e.highest_fluid > e.highest_air >= e.highest_opaque ==> z_end_spec(e, depth)
            == vstd::math::min(depth - 1, e.highest_air + 1),
        e.highest_fluid > e.highest_opaque > e.highest_air ==> z_end_spec(e, depth)
            == vstd::math::min(depth - 1, e.highest_opaque as int),
{
}

/// The range of heights to mesh, first and last included.
pub fn z_range(e: &Extents, depth: i32) -> (r: (i32, i32))
    requires
        1 <= depth < i32::MAX,
        extents_in(*e, depth as int),
    ensures
        r.0 == z_start_spec(*e),
        r.1 == z_end_spec(*e, depth as int),
        e.lowest_opaque < e.lowest_air && e.lowest_opaque < e.lowest_fluid ==> r.0 == vstd::math::max(
            0,
            vstd::math::min(e.lowest_air as int, e.lowest_fluid as int) - 2,
        ),
        e.highest_opaque > e.highest_air && e.highest_opaque > e.highest_fluid ==> r.1 == vstd::math::min(
            depth - 1,
            vstd::math::max(e.highest_air as int, e.highest_fluid as int) + 1,
        ),
{
    proof {
        lemma_ground_is_meshed(*e, depth as int);
    }
    let la = e.lowest_air;
    let lo = e.lowest_opaque;
    let lf = e.lowest_fluid;
    let s = if (la > lo && la <= lf) || (la > lf && la <= lo) {
        la - 2
    } else if lf > lo && lf <= la {
        lf - 2
    } else if lf > la && lf <= lo {
        lf - 1
    } else {
        lo - 1
    };
    let z_start = if s < 0 {
        0
    } else {
        s
    };
    let ha = e.highest_air;
    let ho = e.highest_opaque;
    let hf = e.highest_fluid;
    let t = if (ha < ho && ha >= hf) || (ha < hf && ha >= ho) {
        ha + 1
    } else if hf < ho && hf >= ha {
        hf + 1
    } else if hf < ha && hf >= ho {
        hf
    } else {
        ho
    };
    let z_end = if t > depth - 1 {
        depth - 1
    } else {
        t
    };
    (z_start, z_end)
}


// ------------------------------------------------------------------------
// Which voxels get faces, and which
// ------------------------------------------------------------------------

/// The mesh a voxel's faces go to.
#[derive(Copy, Clone, Debug, PartialEq, Eq, Structural)]
pub enum MeshKind {
    Opaque,
    Fluid,
}

/// The faces to draw for one voxel of the box at `pos`, into mesh `mesh`;
/// `faces` in the order of `faces_to_make`, `layers` the heights of the three
/// layers of the neighbourhood that the faces were decided from, and
/// `colors[k][j][i]` the colours the neighbourhood lends to the faces.
#[derive(Copy, Clone, Debug)]
pub struct VoxelFaces {
    pub pos: Vec3i,
    pub mesh: MeshKind,
    pub faces: [bool; 6],
    pub layers: [i32; 3],
    pub colors: [[[Rgba; 3]; 3]; 3],
}

/// The height of layer `k` of the neighbourhood of a voxel at height `z`,
/// meshing upwards from `zs`: the neighbourhood is carried from one height to
/// the next, one layer in, two layers shifted, so that it lags by one layer
/// at the first two heights.
pub open spec fn window_layer(zs: int, z: int, k: int) -> int {
    if z == zs {
        if k == 0 {
            zs
        } else {
            zs + 1
        }
    } else if z == zs + 1 {
        if k == 2 {
            zs + 2
        } else {
            zs + 1
        }
    } else {
        z - 1 + k
    }
}

pub open spec fn window_block(
    size: Vec3i,
    flat: Seq<Block>,
    zs: int,
    x: int,
    y: int,
    z: int,
    i: int,
    j: int,
    k: int,
) -> Block {
    block_at(size, flat, x + i - 1, y + j - 1, window_layer(zs, z, k))
}

/// The mesh the voxel at `(x, y, z)` goes to: opaque if the middle of its
/// neighbourhood is opaque, fluid if it is fluid, none otherwise.
pub open spec fn voxel_mesh(
    size: Vec3i,
    flat: Seq<Block>,
    zs: int,
    x: int,
    y: int,
    z: int,
) -> Option<MeshKind> {
    let c = window_block(size, flat, zs, x, y, z, 1, 1, 1);
    if c.opaque {
        Some(MeshKind::Opaque)
    } else if c.fluid {
        Some(MeshKind::Fluid)
    } else {
        None
    }
}

/// An opaque voxel shows a face towards a block that is not opaque; a fluid
/// voxel shows one towards air.
pub open spec fn face_wanted(kind: MeshKind, b: Block) -> bool {
    match kind {
        MeshKind::Opaque => !b.opaque,
        MeshKind::Fluid => b.air,
    }
}

pub open spec fn record_ok(
    size: Vec3i,
    flat: Seq<Block>,
    zs: int,
    r: VoxelFaces,
    x: int,
    y: int,
    z: int,
) -> bool {
    &&& r.pos.x == x && r.pos.y == y && r.pos.z == z
    &&& voxel_mesh(size, flat, zs, x, y, z) == Some(r.mesh)
    &&& r.layers[0] == window_layer(zs, z, 0)
    &&& r.layers[1] == window_layer(zs, z, 1)
    &&& r.layers[2] == window_layer(zs, z, 2)
    &&& r.faces[0] == face_wanted(r.mesh, window_block(size, flat, zs, x, y, z, 0, 1, 1))
    &&& r.faces[1] == face_wanted(r.mesh, window_block(size, flat, zs, x, y, z, 2, 1, 1))
    &&& r.faces[2] == face_wanted(r.mesh, window_block(size, flat, zs, x, y, z, 1, 0, 1))
    &&& r.faces[3] == face_wanted(r.mesh, window_block(size, flat, zs, x, y, z, 1, 2, 1))
    &&& r.faces[4] == face_wanted(r.mesh, window_block(size, flat, zs, x, y, z, 1, 1, 0))
    &&& r.faces[5] == face_wanted(r.mesh, window_block(size, flat, zs, x, y, z, 1, 1, 2))
    &&& forall|i: int, j: int, k: int|
        0 <= i < 3 && 0 <= j < 3 && 0 <= k < 3 ==> #[trigger] r.colors[k][j][i] == color_spec(
            Some(window_block(size, flat, zs, x, y, z, i, j, k)),
        )
}

/// The voxels of column `(x, y)` with a mesh, heights `zlo` to `z - 1`, upwards.
pub open spec fn column_cells(
    size: Vec3i,
    flat: Seq<Block>,
    zs: int,
    x: int,
    y: int,
    zlo: int,
    z: int,
) -> Seq<(int, int, int)>
    decreases z - zlo,
{
    if z <= zlo {
        Seq::empty()
    } else {
        column_cells(size, flat, zs, x, y, zlo, z - 1) + if voxel_mesh(
            size,
            flat,
            zs,
            x,
            y,
            z - 1,
        ) is Some {
            seq![(x, y, z - 1)]
        } else {
            Seq::empty()
        }
    }
}

/// The voxels with a mesh of columns `(x, ylo)` to `(x, y - 1)`.
pub open spec fn row_cells(
    size: Vec3i,
    flat: Seq<Block>,
    zs: int,
    zhi: int,
    x: int,
    ylo: int,
    y: int,
) -> Seq<(int, int, int)>
    decreases y - ylo,
{
    if y <= ylo {
        Seq::empty()
    } else {
        row_cells(size, flat, zs, zhi, x, ylo, y - 1) + column_cells(size, flat, zs, x, y - 1, zs, zhi)
    }
}

/// The voxels with a mesh of rows `xlo` to `x - 1`.
pub open spec fn grid_cells(
    size: Vec3i,
    flat: Seq<Block>,
    zs: int,
    zhi: int,
    ylo: int,
    yhi: int,
    xlo: int,
    x: int,
) -> Seq<(int, int, int)>
    decreases x - xlo,
{
    if x <= xlo {
        Seq::empty()
    } else {
        grid_cells(size, flat, zs, zhi, ylo, yhi, xlo, x - 1) + row_cells(
            size,
            flat,
            zs,
            zhi,
            x - 1,
            ylo,
            yhi,
        )
    }
}

/// The voxels that get faces when meshing a box of size `size` whose scan
/// is `flat`, in the order they are meshed: columns of `x` and `y` from 1 to
/// `size.x - 2` (the same bound for both), heights from `z_start_spec` to
/// `z_end_spec`.
pub open spec fn meshed_cells(size: Vec3i, flat: Seq<Block>) -> Seq<(int, int, int)> {
    let e = extents_upto(size, flat, flat.len() as int);
    let zs = z_start_spec(e);
    let ze = z_end_spec(e, size.z as int);
    grid_cells(size, flat, zs, ze + 1, 1, size.x - 1, 1, size.x - 1)
}

proof fn lemma_column_members(
    size: Vec3i,
    flat: Seq<Block>,
    zs: int,
    x: int,
    y: int,
    zlo: int,
    z: int,
    v: (int, int, int),
)
    ensures
        column_cells(size, flat, zs, x, y, zlo, z).contains(v) <==> (v.0 == x && v.1 == y && zlo
            <= v.2 < z && voxel_mesh(size, flat, zs, x, y, v.2) is Some),
    decreases z - zlo,
{
    if z > zlo {
        lemma_column_members(size, flat, zs, x, y, zlo, z - 1, v);
        let tail = if voxel_mesh(size, flat, zs, x, y, z - 1) is Some {
            seq![(x, y, z - 1)]
        } else {
            Seq::empty()
        };
        lemma_seq_concat_contains_all_elements(column_cells(size, flat, zs, x, y, zlo, z - 1), tail, v);
        if voxel_mesh(size, flat, zs, x, y, z - 1) is Some {
            assert(tail[0] == (x, y, z - 1));
            assert(tail.contains(v) <==> v == (x, y, z - 1));
        } else {
            assert(!tail.contains(v));
        }
    }
}

proof fn lemma_row_members(
    size: Vec3i,
    flat: Seq<Block>,
    zs: int,
    zhi: int,
    x: int,
    ylo: int,
    y: int,
    v: (int, int, int),
)
    ensures
        row_cells(size, flat, zs, zhi, x, ylo, y).contains(v) <==> (v.0 == x && ylo <= v.1 < y && zs
            <= v.2 < zhi && voxel_mesh(size, flat, zs, x, v.1, v.2) is Some),
    decreases y - ylo,
{
    if y > ylo {
        lemma_row_members(size, flat, zs, zhi, x, ylo, y - 1, v);
        lemma_column_members(size, flat, zs, x, y - 1, zs, zhi, v);
        lemma_seq_concat_contains_all_elements(
            row_cells(size, flat, zs, zhi, x, ylo, y - 1),
            column_cells(size, flat, zs, x, y - 1, zs, zhi),
            v,
        );
    }
}

proof fn lemma_grid_members(
    size: Vec3i,
    flat: Seq<Block>,
    zs: int,
    zhi: int,
    ylo: int,
    yhi: int,
    xlo: int,
    x: int,
    v: (int, int, int),
)
    ensures
        grid_cells(size, flat, zs, zhi, ylo, yhi, xlo, x).contains(v) <==> (xlo <= v.0 < x && ylo
            <= v.1 < yhi && zs <= v.2 < zhi && voxel_mesh(size, flat, zs, v.0, v.1, v.2) is Some),
    decreases x - xlo,
{
    if x > xlo {
        lemma_grid_members(size, flat, zs, zhi, ylo, yhi, xlo, x - 1, v);
        lemma_row_members(size, flat, zs, zhi, x - 1, ylo, yhi, v);
        lemma_seq_concat_contains_all_elements(
            grid_cells(size, flat, zs, zhi, ylo, yhi, xlo, x - 1),
            row_cells(size, flat, zs, zhi, x - 1, ylo, yhi),
            v,
        );
    }
}

/// The voxels meshed are exactly those of the columns 1 to `size.x - 2`
/// across, in `x` and in `y` alike, at the heights from `z_start_spec` to
/// `z_end_spec`, whose neighbourhood has an opaque or a fluid middle.
pub proof fn lemma_meshed_cells_exact(size: Vec3i, flat: Seq<Block>, x: int, y: int, z: int)
    ensures
        meshed_cells(size, flat).contains((x, y, z)) <==> {
            let e = extents_upto(size, flat, flat.len() as int);
            let zs = z_start_spec(e);
            &&& 1 <= x < size.x - 1
            &&& 1 <= y < size.x - 1
            &&& zs <= z <= z_end_spec(e, size.z as int)
            &&& (window_block(size, flat, zs, x, y, z, 1, 1, 1).opaque || window_block(
                size,
                flat,
                zs,
                x,
                y,
                z,
                1,
                1,
                1,
            ).fluid)
        },
{
    let e = extents_upto(size, flat, flat.len() as int);
    let zs = z_start_spec(e);
    let ze = z_end_spec(e, size.z as int);
    lemma_grid_members(size, flat, zs, ze + 1, 1, size.x - 1, 1, size.x - 1, (x, y, z));
}

proof fn lemma_scan_pos(size: Vec3i, x: int, y: int, z: int)
    requires
        mesh_dims_ok(size),
        0 <= x < size.x,
        0 <= y < size.y,
        -1 <= z <= size.z,
    ensures
        0 <= x * size.y <= x * size.y * (size.z + 2) <= scan_pos(size, x, y, z),
        0 <= y * (size.z + 2) <= scan_pos(size, x, y, z),
        scan_pos(size, x, y, z) < scan_len(size),
{
    let d2 = size.z + 2;
    assert(0 <= x * size.y) by (nonlinear_arith)
        requires
            0 <= x,
            0 <= size.y,
    ;
    assert(x * size.y <= x * size.y * d2) by (nonlinear_arith)
        requires
            0 <= x * size.y,
            1 <= d2,
    ;
    assert(0 <= y * d2) by (nonlinear_arith)
        requires
            0 <= y,
            0 <= d2,
    ;
    assert(x * size.y * d2 <= (size.x - 1) * size.y * d2) by (nonlinear_arith)
        requires
            0 <= x <= size.x - 1,
            0 <= size.y,
            0 <= d2,
    ;
    assert(y * d2 <= (size.y - 1) * d2) by (nonlinear_arith)
        requires
            0 <= y <= size.y - 1,
            0 <= d2,
    ;
    assert((size.x - 1) * size.y * d2 + (size.y - 1) * d2 + d2 == size.x * size.y * d2)
        by (nonlinear_arith);
}

/// The block at `(x, y, z)` of the scan.
fn flat_get(size: Vec3i, flat: &Vec<Block>, x: i32, y: i32, z: i32) -> (b: Block)
    requires
        mesh_dims_ok(size),
        flat@.len() == scan_len(size),
        0 <= x < size.x,
        0 <= y < size.y,
        -1 <= z <= size.z,
    ensures
        b == block_at(size, flat@, x as int, y as int, z as int),
{
    proof {
        lemma_scan_pos(size, x as int, y as int, z as int);
    }
    let d = size.z + 2;
    let z = z + 1;
    flat[(x * size.y * d + y * d + z) as usize]
}

/// Blocks `(x - 1, y, z)`, `(x, y, z)` and `(x + 1, y, z)`.
fn window_row(size: Vec3i, flat: &Vec<Block>, x: i32, y: i32, z: i32) -> (row: [Option<Block>; 3])
    requires
        mesh_dims_ok(size),
        flat@.len() == scan_len(size),
        1 <= x,
        x + 1 < size.x,
        0 <= y < size.y,
        -1 <= z <= size.z,
    ensures
        forall|i: int|
            0 <= i < 3 ==> #[trigger] row[i] == Some(block_at(size, flat@, x + i - 1, y as int, z as int)),
{
    let row = [
        Some(flat_get(size, flat, x - 1, y, z)),
        Some(flat_get(size, flat, x, y, z)),
        Some(flat_get(size, flat, x + 1, y, z)),
    ];
    assert forall|i: int| 0 <= i < 3 implies #[trigger] row[i] == Some(
        block_at(size, flat@, x + i - 1, y as int, z as int),
    ) by {
        if i == 0 {
        } else if i == 1 {
        } else {
        }
    }
    row
}

/// Layer `layer[j][i]` of blocks `(x + i - 1, y + j - 1, z)`.
fn window_slice(size: Vec3i, flat: &Vec<Block>, x: i32, y: i32, z: i32) -> (layer: [[Option<
    Block,
>; 3]; 3])
    requires
        mesh_dims_ok(size),
        flat@.len() == scan_len(size),
        1 <= x,
        x + 1 < size.x,
        1 <= y,
        y + 1 < size.y,
        -1 <= z <= size.z,
    ensures
        forall|i: int, j: int|
            0 <= i < 3 && 0 <= j < 3 ==> #[trigger] layer[j][i] == Some(
                block_at(size, flat@, x + i - 1, y + j - 1, z as int),
            ),
{
    let r0 = window_row(size, flat, x, y - 1, z);
    let r1 = window_row(size, flat, x, y, z);
    let r2 = window_row(size, flat, x, y + 1, z);
    let layer = [r0, r1, r2];
    assert forall|i: int, j: int| 0 <= i < 3 && 0 <= j < 3 implies #[trigger] layer[j][i] == Some(
        block_at(size, flat@, x + i - 1, y + j - 1, z as int),
    ) by {
        if j == 0 {
            assert(layer[j] == r0);
            assert(r0[i] == Some(block_at(size, flat@, x + i - 1, (y - 1) as int, z as int)));
        } else if j == 1 {
            assert(layer[j] == r1);
            assert(r1[i] == Some(block_at(size, flat@, x + i - 1, y as int, z as int)));
        } else {
            assert(layer[j] == r2);
            assert(r2[i] == Some(block_at(size, flat@, x + i - 1, (y + 1) as int, z as int)));
        }
    }
    layer
}

/// The 3x3x3 neighbourhood `blocks[k][j][i]` of the voxel `(x, y)` with layers
/// at heights `layers`.
fn window(size: Vec3i, flat: &Vec<Block>, x: i32, y: i32, layers: [i32; 3]) -> (blocks: [[[Option<
    Block,
>; 3]; 3]; 3])
    requires
        mesh_dims_ok(size),
        flat@.len() == scan_len(size),
        1 <= x,
        x + 1 < size.x,
        1 <= y,
        y + 1 < size.y,
        forall|k: int| 0 <= k < 3 ==> -1 <= #[trigger] layers[k] <= size.z,
    ensures
        forall|i: int, j: int, k: int|
            0 <= i < 3 && 0 <= j < 3 && 0 <= k < 3 ==> #[trigger] blocks[k][j][i] == Some(
                block_at(size, flat@, x + i - 1, y + j - 1, layers[k] as int),
            ),
{
    let l0 = layers[0];
    let l1 = layers[1];
    let l2 = layers[2];
    assert(-1 <= layers[0] <= size.z);
    assert(-1 <= layers[1] <= size.z);
    assert(-1 <= layers[2] <= size.z);
    let s0 = window_slice(size, flat, x, y, l0);
    let s1 = window_slice(size, flat, x, y, l1);
    let s2 = window_slice(size, flat, x, y, l2);
    let blocks = [s0, s1, s2];
    assert forall|i: int, j: int, k: int|
        0 <= i < 3 && 0 <= j < 3 && 0 <= k < 3 implies #[trigger] blocks[k][j][i] == Some(
            block_at(size, flat@, x + i - 1, y + j - 1, layers[k] as int),
        ) by {
        if k == 0 {
            assert(blocks[k] == s0);
            assert(s0[j][i] == Some(block_at(size, flat@, x + i - 1, y + j - 1, l0 as int)));
        } else if k == 1 {
            assert(blocks[k] == s1);
            assert(s1[j][i] == Some(block_at(size, flat@, x + i - 1, y + j - 1, l1 as int)));
        } else {
            assert(blocks[k] == s2);
            assert(s2[j][i] == Some(block_at(size, flat@, x + i - 1, y + j - 1, l2 as int)));
        }
    }
    blocks
}


/// An opaque voxel shows a face towards a neighbour that is not opaque.
fn shows_past_opaque(v: Block) -> (r: bool)
    ensures
        r == !v.opaque,
{
    !v.is_opaque()
}

/// A fluid voxel shows a face towards a neighbour of air.
fn shows_past_fluid(v: Block) -> (r: bool)
    ensures
        r == v.air,
{
    v.is_air()
}

/// The records describe the voxels `cells`, one for one, in order.
pub open spec fn records_match(
    size: Vec3i,
    flat: Seq<Block>,
    zs: int,
    out: Seq<VoxelFaces>,
    cells: Seq<(int, int, int)>,
) -> bool {
    &&& out.len() == cells.len()
    &&& forall|t: int|
        0 <= t < out.len() ==> record_ok(size, flat, zs, #[trigger] out[t], cells[t].0, cells[t].1, cells[t].2)
}

proof fn lemma_records_push(
    size: Vec3i,
    flat: Seq<Block>,
    zs: int,
    out: Seq<VoxelFaces>,
    cells: Seq<(int, int, int)>,
    r: VoxelFaces,
    x: int,
    y: int,
    z: int,
)
    requires
        records_match(size, flat, zs, out, cells),
        record_ok(size, flat, zs, r, x, y, z),
    ensures
        records_match(size, flat, zs, out.push(r), cells.push((x, y, z))),
{
    let o2 = out.push(r);
    let c2 = cells.push((x, y, z));
    assert forall|t: int| 0 <= t < o2.len() implies record_ok(
        size,
        flat,
        zs,
        #[trigger] o2[t],
        c2[t].0,
        c2[t].1,
        c2[t].2,
    ) by {
        if t < out.len() {
            assert(o2[t] == out[t]);
            assert(c2[t] == cells[t]);
        }
    }
}

/// What the record `r` shows, read off the scan itself: the voxel at
/// `r.pos`, with neighbours at heights `r.layers` (its own layer in the
/// middle). An opaque voxel shows a face towards each neighbour that is not
/// opaque, air and fluid alike, and no other; a fluid voxel, not opaque
/// itself, shows a face towards each neighbour of air, and no other.
pub open spec fn faces_by_neighbours(size: Vec3i, flat: Seq<Block>, r: VoxelFaces) -> bool {
    let x = r.pos.x as int;
    let y = r.pos.y as int;
    let below = r.layers[0] as int;
    let level = r.layers[1] as int;
    let above = r.layers[2] as int;
    let me = block_at(size, flat, x, y, level);
    let west = block_at(size, flat, x - 1, y, level);
    let east = block_at(size, flat, x + 1, y, level);
    let south = block_at(size, flat, x, y - 1, level);
    let north = block_at(size, flat, x, y + 1, level);
    let down = block_at(size, flat, x, y, below);
    let up = block_at(size, flat, x, y, above);
    match r.mesh {
        MeshKind::Opaque => {
            &&& me.opaque
            &&& r.faces[0] == !west.opaque
            &&& r.faces[1] == !east.opaque
            &&& r.faces[2] == !south.opaque
            &&& r.faces[3] == !north.opaque
            &&& r.faces[4] == !down.opaque
            &&& r.faces[5] == !up.opaque
        },
        MeshKind::Fluid => {
            &&& !me.opaque
            &&& me.fluid
            &&& r.faces[0] == west.air
            &&& r.faces[1] == east.air
            &&& r.faces[2] == south.air
            &&& r.faces[3] == north.air
            &&& r.faces[4] == down.air
            &&& r.faces[5] == up.air
        },
    }
}

/// Every record of a mesh shows its faces by its neighbours in the scan: an
/// opaque voxel towards each neighbour that is not opaque (fluid included), a
/// fluid voxel towards each neighbour of air.
pub proof fn lemma_records_show_faces(
    size: Vec3i,
    flat: Seq<Block>,
    zs: int,
    out: Seq<VoxelFaces>,
    cells: Seq<(int, int, int)>,
)
    requires
        records_match(size, flat, zs, out, cells),
    ensures
        forall|t: int| 0 <= t < out.len() ==> faces_by_neighbours(size, flat, #[trigger] out[t]),
{
    assert forall|t: int| 0 <= t < out.len() implies faces_by_neighbours(
        size,
        flat,
        #[trigger] out[t],
    ) by {
        let r = out[t];
        let (x, y, z) = cells[t];
        assert(record_ok(size, flat, zs, r, x, y, z));
        assert(r.pos.x as int == x && r.pos.y as int == y);
        assert(r.layers[0] as int == window_layer(zs, z, 0));
        assert(r.layers[1] as int == window_layer(zs, z, 1));
        assert(r.layers[2] as int == window_layer(zs, z, 2));
    }
}

/// Decides, for every voxel of a box of size `size` whose scan is `flat`, the
/// mesh it goes to and the faces it shows: the voxels of `meshed_cells`, in
/// that order, each with the faces of `record_ok`.
pub fn generate_mesh(size: Vec3i, flat: &Vec<Block>) -> (faces: Vec<VoxelFaces>)
    requires
        mesh_dims_ok(size),
        flat@.len() == scan_len(size),
    ensures
        records_match(
            size,
            flat@,
            z_start_spec(extents_upto(size, flat@, flat@.len() as int)),
            faces@,
            meshed_cells(size, flat@),
        ),
        forall|t: int| 0 <= t < faces@.len() ==> faces_by_neighbours(size, flat@, #[trigger] faces@[t]),
{
    let ext = block_extents(size, flat);
    proof {
        lemma_extents_range(size, flat@, 0, flat@.len() as int);
        lemma_extents_range(size, flat@, 1, flat@.len() as int);
        lemma_extents_range(size, flat@, 2, flat@.len() as int);
    }
    let (z_start, z_end) = z_range(&ext, size.z);
    let ghost zs = z_start as int;
    let ghost zhi = z_end + 1;
    let ghost fl = flat@;
    let ghost xhi = size.x - 1;
    let mut out: Vec<VoxelFaces> = Vec::new();
    let mut x: i32 = 1;
    proof {
        assert(grid_cells(size, fl, zs, zhi, 1, xhi, 1, 1) =~= Seq::empty());
    }
    while x < size.x - 1
        invariant
            mesh_dims_ok(size),
            fl == flat@,
            fl.len() == scan_len(size),
            zs == z_start,
            zhi == z_end + 1,
            xhi == size.x - 1,
            0 <= z_start <= size.z - 1,
            0 <= z_end <= size.z - 1,
            1 <= x,
            x <= xhi || x == 1,
            records_match(size, fl, zs, out@, grid_cells(size, fl, zs, zhi, 1, xhi, 1, x as int)),
        decreases size.x - x,
    {
        let mut y: i32 = 1;
        let ghost g = grid_cells(size, fl, zs, zhi, 1, xhi, 1, x as int);
        proof {
            assert(row_cells(size, fl, zs, zhi, x as int, 1, 1) =~= Seq::empty());
            assert(g + row_cells(size, fl, zs, zhi, x as int, 1, 1) =~= g);
        }
        while y < size.x - 1
            invariant
                mesh_dims_ok(size),
                fl == flat@,
                fl.len() == scan_len(size),
                zs == z_start,
                zhi == z_end + 1,
                xhi == size.x - 1,
                0 <= z_start <= size.z - 1,
                0 <= z_end <= size.z - 1,
                1 <= x < size.x - 1,
                1 <= y,
                y <= xhi || y == 1,
                g == grid_cells(size, fl, zs, zhi, 1, xhi, 1, x as int),
                records_match(size, fl, zs, out@, g + row_cells(size, fl, zs, zhi, x as int, 1, y as int)),
            decreases size.x - y,
        {
            let ghost r = row_cells(size, fl, zs, zhi, x as int, 1, y as int);
            let mut l0: i32 = z_start - 1;
            let mut l1: i32 = z_start;
            let mut l2: i32 = z_start + 1;
            let mut z: i32 = z_start;
            proof {
                assert(column_cells(size, fl, zs, x as int, y as int, zs, zs) =~= Seq::empty());
                assert(g + r + column_cells(size, fl, zs, x as int, y as int, zs, zs) =~= g + r);
            }
            while z < z_end + 1
                invariant
                    mesh_dims_ok(size),
                    fl == flat@,
                    fl.len() == scan_len(size),
                    zs == z_start,
                    zhi == z_end + 1,
                    0 <= z_start <= size.z - 1,
                    0 <= z_end <= size.z - 1,
                    1 <= x < size.x - 1,
                    1 <= y < size.x - 1,
                    size.x <= size.y,
                    z_start <= z,
                    z <= z_end + 1 || z == z_start,
                    z == z_start ==> l0 == zs - 1 && l1 == zs && l2 == zs + 1,
                    z != z_start ==> l0 == window_layer(zs, z - 1, 0) && l1 == window_layer(
                        zs,
                        z - 1,
                        1,
                    ) && l2 == window_layer(zs, z - 1, 2),
                    records_match(
                        size,
                        fl,
                        zs,
                        out@,
                        g + r + column_cells(size, fl, zs, x as int, y as int, zs, z as int),
                    ),
                decreases z_end + 1 - z,
            {
                l0 = l1;
                l1 = l2;
                l2 = z + 1;
                assert(l0 == window_layer(zs, z as int, 0));
                assert(l1 == window_layer(zs, z as int, 1));
                assert(l2 == window_layer(zs, z as int, 2));
                let layers = [l0, l1, l2];
                assert(layers[0] == l0 && layers[1] == l1 && layers[2] == l2);
                let blocks = window(size, flat, x, y, layers);
                let colors = window_colors(&blocks);
                let block = blocks[1][1][1];
                let ghost before = column_cells(size, fl, zs, x as int, y as int, zs, z as int);
                let opaque = match block {
                    Some(v) => v.is_opaque(),
                    None => false,
                };
                let fluid = match block {
                    Some(v) => v.is_fluid(),
                    None => false,
                };
                proof {
                    assert(blocks[1][1][1] == Some(window_block(size, fl, zs, x as int, y as int, z as int, 1, 1, 1)));
                    assert(blocks[1][1][0] == Some(window_block(size, fl, zs, x as int, y as int, z as int, 0, 1, 1)));
                    assert(blocks[1][1][2] == Some(window_block(size, fl, zs, x as int, y as int, z as int, 2, 1, 1)));
                    assert(blocks[1][0][1] == Some(window_block(size, fl, zs, x as int, y as int, z as int, 1, 0, 1)));
                    assert(blocks[1][2][1] == Some(window_block(size, fl, zs, x as int, y as int, z as int, 1, 2, 1)));
                    assert(blocks[0][1][1] == Some(window_block(size, fl, zs, x as int, y as int, z as int, 1, 1, 0)));
                    assert(blocks[2][1][1] == Some(window_block(size, fl, zs, x as int, y as int, z as int, 1, 1, 2)));
                    assert(column_cells(size, fl, zs, x as int, y as int, zs, z + 1) == before
                        + if voxel_mesh(size, fl, zs, x as int, y as int, z as int) is Some {
                        seq![(x as int, y as int, z as int)]
                    } else {
                        Seq::empty()
                    });
                }
                if opaque {
                    let faces = faces_to_make(
                        &blocks,
                        false,
                        shows_past_opaque,
                    );
                    let rec = VoxelFaces {
                        pos: Vec3i::new(x, y, z),
                        mesh: MeshKind::Opaque,
                        faces,
                        layers,
                        colors,
                    };
                    proof {
                        assert(record_ok(size, fl, zs, rec, x as int, y as int, z as int));
                        lemma_records_push(size, fl, zs, out@, g + r + before, rec, x as int, y as int, z as int);
                        assert((g + r + before).push((x as int, y as int, z as int)) =~= g + r + (before
                            + seq![(x as int, y as int, z as int)]));
                    }
                    out.push(rec);
                } else if fluid {
                    let faces = faces_to_make(
                        &blocks,
                        false,
                        shows_past_fluid,
                    );
                    let rec = VoxelFaces {
                        pos: Vec3i::new(x, y, z),
                        mesh: MeshKind::Fluid,
                        faces,
                        layers,
                        colors,
                    };
                    proof {
                        assert(record_ok(size, fl, zs, rec, x as int, y as int, z as int));
                        lemma_records_push(size, fl, zs, out@, g + r + before, rec, x as int, y as int, z as int);
                        assert((g + r + before).push((x as int, y as int, z as int)) =~= g + r + (before
                            + seq![(x as int, y as int, z as int)]));
                    }
                    out.push(rec);
                } else {
                    proof {
                        assert(before + Seq::<(int, int, int)>::empty() =~= before);
                    }
                }
                z = z + 1;
            }
            proof {
                let c = column_cells(size, fl, zs, x as int, y as int, zs, zhi);
                if zhi <= zs {
                    assert(column_cells(size, fl, zs, x as int, y as int, zs, z as int) =~= c);
                }
                assert(row_cells(size, fl, zs, zhi, x as int, 1, y + 1) == r + c);
                assert(g + r + c =~= g + (r + c));
            }
            y = y + 1;
        }
        proof {
            let r = row_cells(size, fl, zs, zhi, x as int, 1, xhi);
            if xhi <= 1 {
                assert(row_cells(size, fl, zs, zhi, x as int, 1, y as int) =~= r);
            }
            assert(grid_cells(size, fl, zs, zhi, 1, xhi, 1, x + 1) == g + r);
        }
        x = x + 1;
    }
    proof {
        if xhi <= 1 {
            assert(grid_cells(size, fl, zs, zhi, 1, xhi, 1, x as int) =~= grid_cells(
                size,
                fl,
                zs,
                zhi,
                1,
                xhi,
                1,
                xhi,
            ));
        }
        lemma_records_show_faces(
            size,
            fl,
            zs,
            out@,
            grid_cells(size, fl, zs, zhi, 1, xhi, 1, xhi),
        );
    }
    out
}


/// Every scanned block of a category lies between the lowest and the highest
/// height found for that category.
pub proof fn lemma_extents_bound(size: Vec3i, flat: Seq<Block>, cat: int, n: int, i: int)
    requires
        0 <= i < n <= flat.len(),
        category(flat[i]) == cat,
    ensures
        lowest_of(size, flat, cat, n) <= scan_z(size, i) <= highest_of(size, flat, cat, n),
    decreases n,
{
    if i < n - 1 {
        lemma_extents_bound(size, flat, cat, n - 1, i);
    }
}

/// A lowest height below the depth and a highest height above 0 are heights
/// of scanned blocks of that category.
pub proof fn lemma_extents_attained(size: Vec3i, flat: Seq<Block>, cat: int, n: int)
    requires
        0 <= n <= flat.len(),
    ensures
        lowest_of(size, flat, cat, n) != size.z ==> exists|i: int|
            0 <= i < n && category(flat[i]) == cat && scan_z(size, i) == lowest_of(
                size,
                flat,
                cat,
                n,
            ),
        highest_of(size, flat, cat, n) != 0 ==> exists|i: int|
            0 <= i < n && category(flat[i]) == cat && scan_z(size, i) == highest_of(
                size,
                flat,
                cat,
                n,
            ),
    decreases n,
{
    if n > 0 {
        lemma_extents_attained(size, flat, cat, n - 1);
    }
}

} // verus!
