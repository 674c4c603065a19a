use std::collections::VecDeque;
use vstd::arithmetic::div_mod::{
    lemma_div_pos_is_pos, lemma_fundamental_div_mod, lemma_fundamental_div_mod_converse_div,
    lemma_fundamental_div_mod_converse_mod, lemma_mod_pos_bound,
};
use vstd::prelude::*;

verus! {

/// Light level of a cell whose light has not been decided.
pub const UNKNOWN: u8 = 255;

/// Light level of a cell that blocks light.
pub const OPAQUE: u8 = 254;

/// Light level of direct sunlight, the brightest level.
pub const SUNLIGHT: u8 = 24;

/// A position or an extent on the voxel grid.
#[derive(Copy, Clone, Debug, PartialEq, Eq, Structural)]
pub struct Vec3i {
    pub x: i32,
    pub y: i32,
    pub z: i32,
}

impl Vec3i {
    pub fn new(x: i32, y: i32, z: i32) -> (v: Self)
        ensures
            v == (Vec3i { x, y, z }),
    {
        Vec3i { x, y, z }
    }
}

/// An axis-aligned box of voxel positions, `min` inclusive, `max` exclusive.
#[derive(Copy, Clone, Debug, PartialEq, Eq, Structural)]
pub struct Aabb {
    pub min: Vec3i,
    pub max: Vec3i,
}

/// What light propagation needs to know of a block.
#[derive(Copy, Clone, Debug, PartialEq, Eq, Structural)]
pub enum Voxel {
    /// Empty space: sunlight passes straight down through it.
    Air,
    /// Liquid: light spreads through it, sunlight enters it dimmed.
    Fluid,
    /// A solid block, or a place where no terrain is loaded.
    Solid,
}

// ------------------------------------------------------------------------
// The grid
// ------------------------------------------------------------------------

/// Extents for which a flat light map can be indexed without overflow.
pub open spec fn dims_ok(s: Vec3i) -> bool {
    &&& 0 <= s.x
    &&& 0 <= s.y
    &&& 2 <= s.z
    &&& s.x * s.y * s.z <= i32::MAX
}

pub open spec fn cell_count(s: Vec3i) -> int {
    s.x * s.y * s.z
}

pub open spec fn in_region(s: Vec3i, c: Vec3i) -> bool {
    &&& 0 <= c.x < s.x
    &&& 0 <= c.y < s.y
    &&& 0 <= c.z < s.z
}

/// Position of a cell in the flat light map: layers by `z`, then columns by `x`.
pub open spec fn flat_index(s: Vec3i, c: Vec3i) -> int {
    c.z * s.y * s.x + c.x * s.y + c.y
}

pub open spec fn at<T>(s: Vec3i, m: Seq<T>, c: Vec3i) -> T {
    m[flat_index(s, c)]
}

pub open spec fn offset(c: Vec3i, dx: int, dy: int, dz: int) -> Vec3i {
    Vec3i { x: (c.x + dx) as i32, y: (c.y + dy) as i32, z: (c.z + dz) as i32 }
}

pub open spec fn above(c: Vec3i) -> Vec3i {
    offset(c, 0, 0, 1)
}

pub open spec fn below(c: Vec3i) -> Vec3i {
    offset(c, 0, 0, -1)
}

/// One of the six axis directions.
pub open spec fn is_step(dx: int, dy: int, dz: int) -> bool {
    ||| (dx == 1 && dy == 0 && dz == 0)
    ||| (dx == -1 && dy == 0 && dz == 0)
    ||| (dx == 0 && dy == 1 && dz == 0)
    ||| (dx == 0 && dy == -1 && dz == 0)
    ||| (dx == 0 && dy == 0 && dz == 1)
    ||| (dx == 0 && dy == 0 && dz == -1)
}

pub open spec fn is_lit(v: u8) -> bool {
    1 <= v <= SUNLIGHT
}

pub open spec fn is_top(s: Vec3i, c: Vec3i) -> bool {
    c.z == s.z - 1
}

/// A column of the region that is air from top to bottom.
pub open spec fn column_open(s: Vec3i, vx: Seq<Voxel>, x: i32, y: i32) -> bool {
    forall|z: i32| 0 <= z < s.z ==> #[trigger] at(s, vx, Vec3i { x, y, z }) == Voxel::Air
}

/// Every column of the region holds a block that is not air.
pub open spec fn no_open_column(s: Vec3i, vx: Seq<Voxel>) -> bool {
    forall|x: i32, y: i32| 0 <= x < s.x && 0 <= y < s.y ==> !#[trigger] column_open(s, vx, x, y)
}

// ------------------------------------------------------------------------
// What the finished light map satisfies
// ------------------------------------------------------------------------

/// What one cell's level says, given its block: levels are lit, opaque or
/// unknown; solid blocks are never lit and fluid never holds full sunlight;
/// the top layer is sunlit air or opaque; below it, a cell that lets light
/// through is never opaque, air right under sunlit air of the top layer is
/// sunlit, and full sunlight hangs from the top layer by a chain of sunlit air.
pub open spec fn cell_ok(s: Vec3i, vx: Seq<Voxel>, m: Seq<u8>, c: Vec3i) -> bool {
    let v = at(s, m, c);
    let k = at(s, vx, c);
    &&& (v == UNKNOWN || v == OPAQUE || is_lit(v))
    &&& (k == Voxel::Solid ==> !is_lit(v))
    &&& (k == Voxel::Fluid ==> v != SUNLIGHT)
    &&& (is_top(s, c) ==> v == (if k == Voxel::Air { SUNLIGHT } else { OPAQUE }))
    &&& (c.z < s.z - 1 && k != Voxel::Solid ==> v != OPAQUE)
    &&& (c.z == s.z - 2 && k == Voxel::Air && at(s, vx, above(c)) == Voxel::Air ==> v == SUNLIGHT)
    &&& (c.z < s.z - 1 && v == SUNLIGHT ==> {
        &&& at(s, vx, above(c)) == Voxel::Air
        &&& (c.z == s.z - 2 || at(s, m, above(c)) == SUNLIGHT)
    })
}

pub open spec fn all_cells_ok(s: Vec3i, vx: Seq<Voxel>, m: Seq<u8>) -> bool {
    forall|c: Vec3i| in_region(s, c) ==> #[trigger] cell_ok(s, vx, m, c)
}

/// Light `v` spreading into `n` changes nothing there: `n` is outside the
/// region, opaque, or already lit at least one level below `v`.
pub open spec fn relaxed_to(s: Vec3i, m: Seq<u8>, v: u8, n: Vec3i) -> bool {
    ||| !in_region(s, n)
    ||| at(s, m, n) == OPAQUE
    ||| (is_lit(at(s, m, n)) && v <= at(s, m, n) + 1)
}

/// The cell below a sunlit cell holds what sunlight gives it: full sunlight
/// in air, one level less in fluid, opaque otherwise.
pub open spec fn down_ok(s: Vec3i, vx: Seq<Voxel>, m: Seq<u8>, c: Vec3i) -> bool {
    &&& 1 <= c.z
    &&& at(s, m, below(c)) == (match at(s, vx, below(c)) {
        Voxel::Air => SUNLIGHT,
        Voxel::Fluid => (SUNLIGHT - 1) as u8,
        Voxel::Solid => OPAQUE,
    })
}

/// The light of `c` has spread to its neighbours: sideways always, and, for
/// full sunlight, straight down as a ray; otherwise up and down too.
pub open spec fn settled(s: Vec3i, vx: Seq<Voxel>, m: Seq<u8>, c: Vec3i) -> bool {
    let v = at(s, m, c);
    &&& relaxed_to(s, m, v, offset(c, 1, 0, 0))
    &&& relaxed_to(s, m, v, offset(c, -1, 0, 0))
    &&& relaxed_to(s, m, v, offset(c, 0, 1, 0))
    &&& relaxed_to(s, m, v, offset(c, 0, -1, 0))
    &&& if v == SUNLIGHT {
        down_ok(s, vx, m, c)
    } else {
        &&& relaxed_to(s, m, v, offset(c, 0, 0, 1))
        &&& relaxed_to(s, m, v, offset(c, 0, 0, -1))
    }
}

/// Neighbour `n` below the top layer is brighter than `c`, and so accounts for
/// the light of `c`.
pub open spec fn lit_by(s: Vec3i, m: Seq<u8>, c: Vec3i, n: Vec3i) -> bool {
    &&& in_region(s, n)
    &&& n.z < s.z - 1
    &&& at(s, m, c) < at(s, m, n) <= SUNLIGHT
}

/// Some neighbour of `c` accounts for its light.
pub open spec fn justified(s: Vec3i, m: Seq<u8>, c: Vec3i) -> bool {
    ||| lit_by(s, m, c, offset(c, 1, 0, 0))
    ||| lit_by(s, m, c, offset(c, -1, 0, 0))
    ||| lit_by(s, m, c, offset(c, 0, 1, 0))
    ||| lit_by(s, m, c, offset(c, 0, -1, 0))
    ||| lit_by(s, m, c, offset(c, 0, 0, 1))
    ||| lit_by(s, m, c, offset(c, 0, 0, -1))
}

/// Below the top layer, every cell lit at level 2 or more has spread its light,
/// every cell lit below full sunlight owes its light to a brighter neighbour,
/// and a solid block was found opaque only next to a cell that spreads light.
pub open spec fn cell_final(s: Vec3i, vx: Seq<Voxel>, m: Seq<u8>, c: Vec3i) -> bool {
    &&& cell_ok(s, vx, m, c)
    &&& (c.z < s.z - 1 && 2 <= at(s, m, c) <= SUNLIGHT ==> settled(s, vx, m, c))
    &&& (c.z < s.z - 1 && 1 <= at(s, m, c) < SUNLIGHT ==> justified(s, m, c))
    &&& (c.z < s.z - 1 && at(s, vx, c) == Voxel::Solid && at(s, m, c) == OPAQUE ==> fed(s, m, c))
}

/// The light map that propagation leaves: every cell of the region is final.
pub open spec fn light_fixpoint(s: Vec3i, vx: Seq<Voxel>, m: Seq<u8>) -> bool {
    &&& m.len() == cell_count(s)
    &&& forall|c: Vec3i| in_region(s, c) ==> #[trigger] cell_final(s, vx, m, c)
}

// ------------------------------------------------------------------------
// Invariants of the propagation loop
// ------------------------------------------------------------------------

pub open spec fn entry_ok(s: Vec3i, vx: Seq<Voxel>, m: Seq<u8>, c: Vec3i) -> bool {
    &&& in_region(s, c)
    &&& c.z < s.z - 1
    &&& at(s, vx, c) != Voxel::Solid
    &&& 2 <= at(s, m, c) <= SUNLIGHT
}

pub open spec fn queue_ok(s: Vec3i, vx: Seq<Voxel>, m: Seq<u8>, q: Seq<Vec3i>) -> bool {
    forall|i: int| 0 <= i < q.len() ==> entry_ok(s, vx, m, #[trigger] q[i])
}

pub open spec fn relax_ok(s: Vec3i, vx: Seq<Voxel>, m: Seq<u8>, q: Seq<Vec3i>, c: Vec3i) -> bool {
    c.z < s.z - 1 && 2 <= at(s, m, c) <= SUNLIGHT ==> q.contains(c) || settled(s, vx, m, c)
}

pub open spec fn relax_except(
    s: Vec3i,
    vx: Seq<Voxel>,
    m: Seq<u8>,
    q: Seq<Vec3i>,
    e: Vec3i,
) -> bool {
    forall|c: Vec3i| in_region(s, c) && c != e ==> #[trigger] relax_ok(s, vx, m, q, c)
}

/// A lit neighbour below the top layer that spreads light: level 2 or more.
pub open spec fn feeds(s: Vec3i, m: Seq<u8>, n: Vec3i) -> bool {
    &&& in_region(s, n)
    &&& n.z < s.z - 1
    &&& 2 <= at(s, m, n) <= SUNLIGHT
}

/// Some neighbour of `c` spreads light.
pub open spec fn fed(s: Vec3i, m: Seq<u8>, c: Vec3i) -> bool {
    ||| feeds(s, m, offset(c, 1, 0, 0))
    ||| feeds(s, m, offset(c, -1, 0, 0))
    ||| feeds(s, m, offset(c, 0, 1, 0))
    ||| feeds(s, m, offset(c, 0, -1, 0))
    ||| feeds(s, m, offset(c, 0, 0, 1))
    ||| feeds(s, m, offset(c, 0, 0, -1))
}

pub open spec fn just_ok(s: Vec3i, vx: Seq<Voxel>, m: Seq<u8>, c: Vec3i) -> bool {
    &&& (c.z < s.z - 1 && 1 <= at(s, m, c) < SUNLIGHT ==> justified(s, m, c))
    &&& (c.z < s.z - 1 && at(s, vx, c) == Voxel::Solid && at(s, m, c) == OPAQUE ==> fed(s, m, c))
}

pub open spec fn all_just(s: Vec3i, vx: Seq<Voxel>, m: Seq<u8>) -> bool {
    forall|c: Vec3i| in_region(s, c) ==> #[trigger] just_ok(s, vx, m, c)
}

/// Levels only go up: unknown may become anything, a lit level may only rise.
pub open spec fn rises(a: u8, b: u8) -> bool {
    ||| a == b
    ||| a == UNKNOWN
    ||| (is_lit(a) && a <= b <= SUNLIGHT)
}

pub open spec fn mono(s: Vec3i, m1: Seq<u8>, m2: Seq<u8>) -> bool {
    &&& m1.len() == m2.len()
    &&& forall|c: Vec3i| in_region(s, c) ==> rises(at(s, m1, c), #[trigger] at(s, m2, c))
}

// ------------------------------------------------------------------------
// Termination measure
// ------------------------------------------------------------------------

pub open spec fn headroom(v: u8) -> int {
    if v == UNKNOWN {
        25
    } else if is_lit(v) {
        SUNLIGHT - v
    } else {
        0
    }
}

pub open spec fn map_potential(m: Seq<u8>) -> int
    decreases m.len(),
{
    if m.len() == 0 {
        0
    } else {
        map_potential(m.drop_last()) + headroom(m.last())
    }
}

pub open spec fn weight(c: Vec3i) -> int {
    if c.z >= 0 {
        c.z + 1
    } else {
        0
    }
}

pub open spec fn queue_potential(q: Seq<Vec3i>) -> int
    decreases q.len(),
{
    if q.len() == 0 {
        0
    } else {
        weight(q[0]) + queue_potential(q.subrange(1, q.len() as int))
    }
}

pub open spec fn potential(s: Vec3i, m: Seq<u8>, q: Seq<Vec3i>) -> int {
    (s.z + 1) * map_potential(m) + queue_potential(q)
}

proof fn lemma_map_potential_nonneg(m: Seq<u8>)
    ensures
        map_potential(m) >= 0,
    decreases m.len(),
{
    if m.len() > 0 {
        lemma_map_potential_nonneg(m.drop_last());
    }
}

proof fn lemma_map_potential_update(m: Seq<u8>, i: int, v: u8)
    requires
        0 <= i < m.len(),
    ensures
        map_potential(m.update(i, v)) == map_potential(m) - headroom(m[i]) + headroom(v),
    decreases m.len(),
{
    if i == m.len() - 1 {
        assert(m.update(i, v).drop_last() =~= m.drop_last());
    } else {
        lemma_map_potential_update(m.drop_last(), i, v);
        assert(m.update(i, v).drop_last() =~= m.drop_last().update(i, v));
    }
}

proof fn lemma_queue_potential_nonneg(q: Seq<Vec3i>)
    ensures
        queue_potential(q) >= 0,
    decreases q.len(),
{
    if q.len() > 0 {
        lemma_queue_potential_nonneg(q.subrange(1, q.len() as int));
    }
}

proof fn lemma_queue_potential_push(q: Seq<Vec3i>, x: Vec3i)
    ensures
        queue_potential(q.push(x)) == queue_potential(q) + weight(x),
    decreases q.len(),
{
    let qx = q.push(x);
    if q.len() == 0 {
        assert(qx.subrange(1, 1) =~= Seq::<Vec3i>::empty());
        assert(queue_potential(qx.subrange(1, 1)) == 0);
        assert(qx[0] == x);
    } else {
        lemma_queue_potential_push(q.subrange(1, q.len() as int), x);
        assert(qx.subrange(1, q.len() as int + 1) =~= q.subrange(1, q.len() as int).push(x));
        assert(qx[0] == q[0]);
    }
}

proof fn lemma_scaled_drop(k: int, a: int, b: int, w: int)
    requires
        0 < w < k,
        b + 1 <= a,
    ensures
        k * b + w < k * a,
{
    assert(k * b + k <= k * a) by (nonlinear_arith)
        requires
            b + 1 <= a,
            0 < k,
    ;
}

proof fn lemma_scaled_le(k: int, a: int, b: int)
    requires
        0 < k,
        b <= a,
    ensures
        k * b <= k * a,
{
    assert(k * b <= k * a) by (nonlinear_arith)
        requires
            b <= a,
            0 < k,
    ;
}

// ------------------------------------------------------------------------
// Indexing lemmas
// ------------------------------------------------------------------------

proof fn lemma_index(s: Vec3i, c: Vec3i)
    requires
        dims_ok(s),
        in_region(s, c),
    ensures
        0 <= c.z * s.y <= flat_index(s, c),
        0 <= c.z * s.y * s.x <= flat_index(s, c),
        0 <= c.x * s.y <= flat_index(s, c),
        0 <= flat_index(s, c) < cell_count(s),
        cell_count(s) <= i32::MAX,
{
    assert(0 <= c.z * s.y) by (nonlinear_arith)
        requires
            0 <= c.z,
            0 <= s.y,
    ;
    assert(0 <= c.x * s.y) by (nonlinear_arith)
        requires
            0 <= c.x,
            0 <= s.y,
    ;
    assert(c.z * s.y <= c.z * s.y * s.x) by (nonlinear_arith)
        requires
            0 <= c.z * s.y,
            1 <= s.x,
    ;
    assert(c.z * s.y * s.x <= (s.z - 1) * s.y * s.x) by (nonlinear_arith)
        requires
            0 <= c.z <= s.z - 1,
            0 <= s.y,
            0 <= s.x,
    ;
    assert(c.x * s.y <= (s.x - 1) * s.y) by (nonlinear_arith)
        requires
            0 <= c.x <= s.x - 1,
            0 <= s.y,
    ;
    assert((s.z - 1) * s.y * s.x + (s.x - 1) * s.y + s.y == s.x * s.y * s.z) by (nonlinear_arith);
}

proof fn lemma_index_injective(s: Vec3i, a: Vec3i, b: Vec3i)
    requires
        dims_ok(s),
        in_region(s, a),
        in_region(s, b),
        flat_index(s, a) == flat_index(s, b),
    ensures
        a == b,
{
    let f = flat_index(s, a);
    let qa = a.z * s.x + a.x;
    let qb = b.z * s.x + b.x;
    assert(f == qa * s.y + a.y) by (nonlinear_arith)
        requires
            f == a.z * s.y * s.x + a.x * s.y + a.y,
            qa == a.z * s.x + a.x,
    ;
    assert(f == qb * s.y + b.y) by (nonlinear_arith)
        requires
            f == b.z * s.y * s.x + b.x * s.y + b.y,
            qb == b.z * s.x + b.x,
    ;
    lemma_fundamental_div_mod_converse_div(f, s.y as int, qa, a.y as int);
    lemma_fundamental_div_mod_converse_div(f, s.y as int, qb, b.y as int);
    lemma_fundamental_div_mod_converse_mod(f, s.y as int, qa, a.y as int);
    lemma_fundamental_div_mod_converse_mod(f, s.y as int, qb, b.y as int);
    assert(qa == a.z * s.x + a.x);
    lemma_fundamental_div_mod_converse_div(qa, s.x as int, a.z as int, a.x as int);
    lemma_fundamental_div_mod_converse_div(qa, s.x as int, b.z as int, b.x as int);
    lemma_fundamental_div_mod_converse_mod(qa, s.x as int, a.z as int, a.x as int);
    lemma_fundamental_div_mod_converse_mod(qa, s.x as int, b.z as int, b.x as int);
}

/// Every index of a map of the region is the index of one of its cells.
proof fn lemma_index_onto(s: Vec3i, i: int)
    requires
        dims_ok(s),
        0 <= i < cell_count(s),
    ensures
        exists|c: Vec3i| in_region(s, c) && #[trigger] flat_index(s, c) == i,
{
    let hw = s.y * s.x;
    assert(hw * s.z == s.x * s.y * s.z) by (nonlinear_arith)
        requires
            hw == s.y * s.x,
    ;
    assert(0 < hw) by (nonlinear_arith)
        requires
            hw == s.y * s.x,
            0 <= s.x,
            0 <= s.y,
            0 <= i < hw * s.z,
    ;
    lemma_fundamental_div_mod(i, hw);
    lemma_mod_pos_bound(i, hw);
    lemma_div_pos_is_pos(i, hw);
    let z = i / hw;
    let r = i % hw;
    assert(z < s.z) by (nonlinear_arith)
        requires
            i == hw * z + r,
            0 <= r,
            i < hw * s.z,
            0 < hw,
    ;
    assert(0 < s.y) by (nonlinear_arith)
        requires
            hw == s.y * s.x,
            0 < hw,
            0 <= s.x,
    ;
    lemma_fundamental_div_mod(r, s.y as int);
    lemma_mod_pos_bound(r, s.y as int);
    lemma_div_pos_is_pos(r, s.y as int);
    let x = r / (s.y as int);
    let y = r % (s.y as int);
    assert(x < s.x) by (nonlinear_arith)
        requires
            r == s.y * x + y,
            0 <= y,
            r < hw,
            hw == s.y * s.x,
            0 < s.y,
    ;
    let c = Vec3i { x: x as i32, y: y as i32, z: z as i32 };
    assert(c.x == x && c.y == y && c.z == z);
    assert(flat_index(s, c) == i) by (nonlinear_arith)
        requires
            c.x == x,
            c.y == y,
            c.z == z,
            i == hw * z + r,
            r == s.y * x + y,
            hw == s.y * s.x,
    ;
    assert(in_region(s, c));
}

/// Writing one cell of a map changes that cell only.
proof fn lemma_write<T>(s: Vec3i, m: Seq<T>, p: Vec3i, v: T)
    requires
        dims_ok(s),
        in_region(s, p),
        m.len() == cell_count(s),
    ensures
        forall|c: Vec3i|
            in_region(s, c) ==> #[trigger] at(s, m.update(flat_index(s, p), v), c) == if c == p {
                v
            } else {
                at(s, m, c)
            },
{
    lemma_index(s, p);
    assert forall|c: Vec3i| in_region(s, c) implies #[trigger] at(
        s,
        m.update(flat_index(s, p), v),
        c,
    ) == if c == p {
        v
    } else {
        at(s, m, c)
    } by {
        lemma_index(s, c);
        if c != p {
            if flat_index(s, c) == flat_index(s, p) {
                lemma_index_injective(s, c, p);
            }
        }
    }
}

fn cell_index(size: Vec3i, pos: Vec3i) -> (i: usize)
    requires
        dims_ok(size),
        in_region(size, pos),
    ensures
        i == flat_index(size, pos),
        i < cell_count(size),
{
    proof {
        lemma_index(size, pos);
    }
    (pos.z * size.y * size.x + pos.x * size.y + pos.y) as usize
}


// ------------------------------------------------------------------------
// Frame lemmas: rising levels elsewhere keep what held of a cell
// ------------------------------------------------------------------------

proof fn lemma_relaxed_rises(s: Vec3i, m1: Seq<u8>, m2: Seq<u8>, v: u8, n: Vec3i)
    requires
        relaxed_to(s, m1, v, n),
        in_region(s, n) ==> rises(at(s, m1, n), at(s, m2, n)),
    ensures
        relaxed_to(s, m2, v, n),
{
}

proof fn lemma_cell_ok_frame(s: Vec3i, vx: Seq<Voxel>, m1: Seq<u8>, m2: Seq<u8>, c: Vec3i)
    requires
        in_region(s, c),
        cell_ok(s, vx, m1, c),
        at(s, m2, c) == at(s, m1, c),
        mono(s, m1, m2),
    ensures
        cell_ok(s, vx, m2, c),
{
    if c.z < s.z - 1 {
        assert(in_region(s, above(c)));
        assert(rises(at(s, m1, above(c)), at(s, m2, above(c))));
    }
}

proof fn lemma_settled_frame(s: Vec3i, vx: Seq<Voxel>, m1: Seq<u8>, m2: Seq<u8>, c: Vec3i)
    requires
        in_region(s, c),
        settled(s, vx, m1, c),
        at(s, m2, c) == at(s, m1, c),
        mono(s, m1, m2),
        all_cells_ok(s, vx, m2),
    ensures
        settled(s, vx, m2, c),
{
    let v = at(s, m1, c);
    let n1 = offset(c, 1, 0, 0);
    let n2 = offset(c, -1, 0, 0);
    let n3 = offset(c, 0, 1, 0);
    let n4 = offset(c, 0, -1, 0);
    let n5 = offset(c, 0, 0, 1);
    let n6 = offset(c, 0, 0, -1);
    if in_region(s, n1) {
        assert(rises(at(s, m1, n1), at(s, m2, n1)));
    }
    if in_region(s, n2) {
        assert(rises(at(s, m1, n2), at(s, m2, n2)));
    }
    if in_region(s, n3) {
        assert(rises(at(s, m1, n3), at(s, m2, n3)));
    }
    if in_region(s, n4) {
        assert(rises(at(s, m1, n4), at(s, m2, n4)));
    }
    if in_region(s, n5) {
        assert(rises(at(s, m1, n5), at(s, m2, n5)));
    }
    if in_region(s, n6) {
        assert(rises(at(s, m1, n6), at(s, m2, n6)));
    }
    lemma_relaxed_rises(s, m1, m2, v, n1);
    lemma_relaxed_rises(s, m1, m2, v, n2);
    lemma_relaxed_rises(s, m1, m2, v, n3);
    lemma_relaxed_rises(s, m1, m2, v, n4);
    if v == SUNLIGHT {
        let b = below(c);
        assert(in_region(s, b));
        assert(rises(at(s, m1, b), at(s, m2, b)));
        assert(cell_ok(s, vx, m2, b));
    } else {
        lemma_relaxed_rises(s, m1, m2, v, n5);
        lemma_relaxed_rises(s, m1, m2, v, n6);
    }
}

proof fn lemma_lit_by_rises(s: Vec3i, m1: Seq<u8>, m2: Seq<u8>, c: Vec3i, n: Vec3i)
    requires
        lit_by(s, m1, c, n),
        at(s, m2, c) == at(s, m1, c),
        in_region(s, n) ==> rises(at(s, m1, n), at(s, m2, n)),
    ensures
        lit_by(s, m2, c, n),
{
}

proof fn lemma_just_frame(s: Vec3i, m1: Seq<u8>, m2: Seq<u8>, c: Vec3i)
    requires
        in_region(s, c),
        justified(s, m1, c),
        at(s, m2, c) == at(s, m1, c),
        mono(s, m1, m2),
    ensures
        justified(s, m2, c),
{
    let n1 = offset(c, 1, 0, 0);
    let n2 = offset(c, -1, 0, 0);
    let n3 = offset(c, 0, 1, 0);
    let n4 = offset(c, 0, -1, 0);
    let n5 = offset(c, 0, 0, 1);
    let n6 = offset(c, 0, 0, -1);
    if lit_by(s, m1, c, n1) {
        assert(rises(at(s, m1, n1), at(s, m2, n1)));
        lemma_lit_by_rises(s, m1, m2, c, n1);
    } else if lit_by(s, m1, c, n2) {
        assert(rises(at(s, m1, n2), at(s, m2, n2)));
        lemma_lit_by_rises(s, m1, m2, c, n2);
    } else if lit_by(s, m1, c, n3) {
        assert(rises(at(s, m1, n3), at(s, m2, n3)));
        lemma_lit_by_rises(s, m1, m2, c, n3);
    } else if lit_by(s, m1, c, n4) {
        assert(rises(at(s, m1, n4), at(s, m2, n4)));
        lemma_lit_by_rises(s, m1, m2, c, n4);
    } else if lit_by(s, m1, c, n5) {
        assert(rises(at(s, m1, n5), at(s, m2, n5)));
        lemma_lit_by_rises(s, m1, m2, c, n5);
    } else {
        assert(rises(at(s, m1, n6), at(s, m2, n6)));
        lemma_lit_by_rises(s, m1, m2, c, n6);
    }
}

proof fn lemma_contains_push(q: Seq<Vec3i>, c: Vec3i, x: Vec3i)
    requires
        q.contains(c),
    ensures
        q.push(x).contains(c),
{
    let i = choose|i: int| 0 <= i < q.len() && q[i] == c;
    assert(q.push(x)[i] == c);
}

proof fn lemma_contains_pushed(q: Seq<Vec3i>, x: Vec3i)
    ensures
        q.push(x).contains(x),
{
    assert(q.push(x)[q.len() as int] == x);
}

/// One write of a level into the map keeps every invariant of the loop, for
/// all cells but the one whose light is being spread.
proof fn lemma_write_step(
    s: Vec3i,
    vx: Seq<Voxel>,
    m: Seq<u8>,
    q: Seq<Vec3i>,
    e: Vec3i,
    p: Vec3i,
    nv: u8,
    push: bool,
)
    requires
        dims_ok(s),
        vx.len() == cell_count(s),
        m.len() == cell_count(s),
        in_region(s, p),
        in_region(s, e),
        p != e,
        all_cells_ok(s, vx, m),
        queue_ok(s, vx, m, q),
        relax_except(s, vx, m, q, e),
        all_just(s, vx, m),
        rises(at(s, m, p), nv),
        cell_ok(s, vx, m.update(flat_index(s, p), nv), p),
        just_ok(s, vx, m.update(flat_index(s, p), nv), p),
        p.z < s.z - 1 && 2 <= nv <= SUNLIGHT && nv != at(s, m, p) ==> push,
        push ==> entry_ok(s, vx, m.update(flat_index(s, p), nv), p),
    ensures
        ({
            let m2 = m.update(flat_index(s, p), nv);
            let q2 = if push {
                q.push(p)
            } else {
                q
            };
            &&& m2.len() == cell_count(s)
            &&& all_cells_ok(s, vx, m2)
            &&& queue_ok(s, vx, m2, q2)
            &&& relax_except(s, vx, m2, q2, e)
            &&& all_just(s, vx, m2)
            &&& mono(s, m, m2)
            &&& at(s, m2, e) == at(s, m, e)
        }),
{
    let m2 = m.update(flat_index(s, p), nv);
    let q2 = if push {
        q.push(p)
    } else {
        q
    };
    lemma_index(s, p);
    lemma_write(s, m, p, nv);
    assert forall|c: Vec3i| in_region(s, c) implies rises(at(s, m, c), #[trigger] at(s, m2, c)) by {
        if c != p {
            assert(at(s, m2, c) == at(s, m, c));
        }
    }
    assert(mono(s, m, m2));
    assert forall|c: Vec3i| in_region(s, c) implies #[trigger] cell_ok(s, vx, m2, c) by {
        if c != p {
            assert(cell_ok(s, vx, m, c));
            lemma_cell_ok_frame(s, vx, m, m2, c);
        }
    }
    assert forall|i: int| 0 <= i < q2.len() implies entry_ok(s, vx, m2, #[trigger] q2[i]) by {
        if i < q.len() {
            assert(q2[i] == q[i]);
            assert(entry_ok(s, vx, m, q[i]));
        }
    }
    assert forall|c: Vec3i| in_region(s, c) && c != e implies #[trigger] relax_ok(
        s,
        vx,
        m2,
        q2,
        c,
    ) by {
        if c == p {
            if p.z < s.z - 1 && 2 <= nv <= SUNLIGHT && nv != at(s, m, p) {
                lemma_contains_pushed(q, p);
            } else if p.z < s.z - 1 && 2 <= nv <= SUNLIGHT {
                assert(relax_ok(s, vx, m, q, c));
                if q.contains(c) {
                    if push {
                        lemma_contains_push(q, c, p);
                    }
                } else {
                    lemma_settled_frame(s, vx, m, m2, c);
                }
            }
        } else {
            assert(relax_ok(s, vx, m, q, c));
            if c.z < s.z - 1 && 2 <= at(s, m, c) <= SUNLIGHT {
                if q.contains(c) {
                    if push {
                        lemma_contains_push(q, c, p);
                    }
                } else {
                    lemma_settled_frame(s, vx, m, m2, c);
                }
            }
        }
    }
    assert forall|c: Vec3i| in_region(s, c) implies #[trigger] just_ok(s, vx, m2, c) by {
        if c != p {
            assert(just_ok(s, vx, m, c));
            if c.z < s.z - 1 && 1 <= at(s, m, c) < SUNLIGHT {
                lemma_just_frame(s, m, m2, c);
            }
        }
    }
}


// ------------------------------------------------------------------------
// Propagation
// ------------------------------------------------------------------------

pub open spec fn relax_all(s: Vec3i, vx: Seq<Voxel>, m: Seq<u8>, q: Seq<Vec3i>) -> bool {
    forall|c: Vec3i| in_region(s, c) ==> #[trigger] relax_ok(s, vx, m, q, c)
}

/// A sunlit cell below the top layer has air all the way up.
proof fn lemma_sunlit_column(s: Vec3i, vx: Seq<Voxel>, m: Seq<u8>, c: Vec3i)
    requires
        dims_ok(s),
        all_cells_ok(s, vx, m),
        in_region(s, c),
        c.z < s.z - 1,
        at(s, m, c) == SUNLIGHT,
    ensures
        forall|z: i32| c.z <= z < s.z ==> #[trigger] at(s, vx, Vec3i { x: c.x, y: c.y, z }) == Voxel::Air,
    decreases s.z - c.z,
{
    assert(cell_ok(s, vx, m, c));
    let a = above(c);
    assert(in_region(s, a));
    if c.z < s.z - 2 {
        lemma_sunlit_column(s, vx, m, a);
    }
    assert forall|z: i32| c.z <= z < s.z implies #[trigger] at(s, vx, Vec3i { x: c.x, y: c.y, z })
        == Voxel::Air by {
        if z == c.z {
            assert(Vec3i { x: c.x, y: c.y, z } == c);
        } else if z == c.z + 1 {
            assert(Vec3i { x: c.x, y: c.y, z } == a);
            if c.z < s.z - 2 {
                assert(cell_ok(s, vx, m, a));
            }
        } else {
            assert(a.x == c.x && a.y == c.y);
        }
    }
}

/// A sunlit cell below the top layer is not on the bottom layer.
proof fn lemma_sunlit_not_bottom(s: Vec3i, vx: Seq<Voxel>, m: Seq<u8>, c: Vec3i)
    requires
        dims_ok(s),
        all_cells_ok(s, vx, m),
        no_open_column(s, vx),
        in_region(s, c),
        c.z < s.z - 1,
        at(s, m, c) == SUNLIGHT,
    ensures
        1 <= c.z,
{
    lemma_sunlit_column(s, vx, m, c);
    if c.z == 0 {
        assert(column_open(s, vx, c.x, c.y));
    }
}

/// What a rise of levels elsewhere keeps of the spreading conditions.
proof fn lemma_keeps(s: Vec3i, vx: Seq<Voxel>, m1: Seq<u8>, m2: Seq<u8>)
    requires
        mono(s, m1, m2),
        all_cells_ok(s, vx, m2),
    ensures
        forall|v: u8, n: Vec3i| relaxed_to(s, m1, v, n) ==> #[trigger] relaxed_to(s, m2, v, n),
        forall|c: Vec3i|
            in_region(s, c) && down_ok(s, vx, m1, c) ==> #[trigger] down_ok(s, vx, m2, c),
{
    assert forall|v: u8, n: Vec3i| relaxed_to(s, m1, v, n) implies #[trigger] relaxed_to(
        s,
        m2,
        v,
        n,
    ) by {
        if in_region(s, n) {
            assert(rises(at(s, m1, n), at(s, m2, n)));
        }
    }
    assert forall|c: Vec3i| in_region(s, c) && down_ok(s, vx, m1, c) implies #[trigger] down_ok(
        s,
        vx,
        m2,
        c,
    ) by {
        let b = below(c);
        assert(in_region(s, b));
        assert(rises(at(s, m1, b), at(s, m2, b)));
        assert(cell_ok(s, vx, m2, b));
    }
}

/// Spreads light `src` from cell `from` into its neighbour `pos`.
fn propagate(
    src: u8,
    light_map: &mut Vec<u8>,
    pos: Vec3i,
    prop_que: &mut VecDeque<Vec3i>,
    voxels: &Vec<Voxel>,
    size: Vec3i,
    Ghost(from): Ghost<Vec3i>,
    Ghost(dx): Ghost<int>,
    Ghost(dy): Ghost<int>,
    Ghost(dz): Ghost<int>,
)
    requires
        dims_ok(size),
        voxels@.len() == cell_count(size),
        old(light_map)@.len() == cell_count(size),
        in_region(size, from),
        from.z < size.z - 1,
        is_step(dx, dy, dz),
        pos == offset(from, dx, dy, dz),
        in_region(size, pos),
        at(size, old(light_map)@, from) == src,
        2 <= src <= SUNLIGHT,
        all_cells_ok(size, voxels@, old(light_map)@),
        queue_ok(size, voxels@, old(light_map)@, old(prop_que)@),
        relax_except(size, voxels@, old(light_map)@, old(prop_que)@, from),
        all_just(size, voxels@, old(light_map)@),
    ensures
        final(light_map)@.len() == cell_count(size),
        all_cells_ok(size, voxels@, final(light_map)@),
        queue_ok(size, voxels@, final(light_map)@, final(prop_que)@),
        relax_except(size, voxels@, final(light_map)@, final(prop_que)@, from),
        all_just(size, voxels@, final(light_map)@),
        mono(size, old(light_map)@, final(light_map)@),
        at(size, final(light_map)@, from) == src,
        relaxed_to(size, final(light_map)@, src, pos),
        forall|v: u8, n: Vec3i|
            relaxed_to(size, old(light_map)@, v, n) ==> #[trigger] relaxed_to(
                size,
                final(light_map)@,
                v,
                n,
            ),
        forall|c: Vec3i|
            in_region(size, c) && down_ok(size, voxels@, old(light_map)@, c) ==> #[trigger] down_ok(
                size,
                voxels@,
                final(light_map)@,
                c,
            ),
        potential(size, final(light_map)@, final(prop_que)@) <= potential(
            size,
            old(light_map)@,
            old(prop_que)@,
        ),
{
    let ghost m0 = light_map@;
    let ghost q0 = prop_que@;
    let ghost k = size.z + 1;
    let i = cell_index(size, pos);
    let dest = light_map[i];
    proof {
        assert(cell_ok(size, voxels@, m0, pos));
        assert(cell_ok(size, voxels@, m0, from));
        assert(from == offset(pos, -dx, -dy, -dz));
        lemma_map_potential_nonneg(m0);
        lemma_queue_potential_nonneg(q0);
    }
    if dest != OPAQUE {
        if dest == UNKNOWN {
            let kind = voxels[i];
            if kind == Voxel::Air || kind == Voxel::Fluid {
                let nv = src - 1;
                proof {
                    let m1 = m0.update(i as int, nv);
                    lemma_write(size, m0, pos, nv);
                    assert(at(size, m1, from) == src);
                    assert(lit_by(size, m1, pos, from));
                    assert(cell_ok(size, voxels@, m1, pos));
                    assert(just_ok(size, voxels@, m1, pos));
                    lemma_write_step(size, voxels@, m0, q0, from, pos, nv, nv > 1);
                    lemma_map_potential_update(m0, i as int, nv);
                    lemma_queue_potential_push(q0, pos);
                    lemma_scaled_drop(k, map_potential(m0), map_potential(m1), weight(pos));
                    lemma_scaled_le(k, map_potential(m0), map_potential(m1));
                    lemma_keeps(size, voxels@, m0, m1);
                }
                light_map.set(i, nv);
                if nv > 1 {
                    prop_que.push_back(pos);
                }
            } else {
                proof {
                    let m1 = m0.update(i as int, OPAQUE);
                    lemma_write(size, m0, pos, OPAQUE);
                    assert(at(size, m1, from) == src);
                    assert(cell_ok(size, voxels@, m1, pos));
                    assert(just_ok(size, voxels@, m1, pos));
                    lemma_write_step(size, voxels@, m0, q0, from, pos, OPAQUE, false);
                    lemma_map_potential_update(m0, i as int, OPAQUE);
                    lemma_scaled_le(k, map_potential(m0), map_potential(m1));
                    lemma_keeps(size, voxels@, m0, m1);
                }
                light_map.set(i, OPAQUE);
            }
        } else if dest < src - 1 {
            let nv = src - 1;
            proof {
                let m1 = m0.update(i as int, nv);
                lemma_write(size, m0, pos, nv);
                assert(at(size, m1, from) == src);
                assert(lit_by(size, m1, pos, from));
                assert(cell_ok(size, voxels@, m1, pos));
                assert(just_ok(size, voxels@, m1, pos));
                lemma_write_step(size, voxels@, m0, q0, from, pos, nv, nv > 1);
                lemma_map_potential_update(m0, i as int, nv);
                lemma_queue_potential_push(q0, pos);
                lemma_scaled_drop(k, map_potential(m0), map_potential(m1), weight(pos));
                lemma_scaled_le(k, map_potential(m0), map_potential(m1));
                lemma_keeps(size, voxels@, m0, m1);
            }
            light_map.set(i, nv);
            if nv > 1 {
                prop_que.push_back(pos);
            }
        } else {
            proof {
                lemma_keeps(size, voxels@, m0, m0);
            }
        }
    } else {
        proof {
            lemma_keeps(size, voxels@, m0, m0);
        }
    }
}


/// Sends full sunlight from the sunlit cell `pos` one cell down.
fn shine_down(
    light_map: &mut Vec<u8>,
    pos: Vec3i,
    prop_que: &mut VecDeque<Vec3i>,
    voxels: &Vec<Voxel>,
    size: Vec3i,
)
    requires
        dims_ok(size),
        voxels@.len() == cell_count(size),
        old(light_map)@.len() == cell_count(size),
        no_open_column(size, voxels@),
        in_region(size, pos),
        pos.z < size.z - 1,
        at(size, old(light_map)@, pos) == SUNLIGHT,
        all_cells_ok(size, voxels@, old(light_map)@),
        queue_ok(size, voxels@, old(light_map)@, old(prop_que)@),
        relax_except(size, voxels@, old(light_map)@, old(prop_que)@, pos),
        all_just(size, voxels@, old(light_map)@),
    ensures
        final(light_map)@.len() == cell_count(size),
        all_cells_ok(size, voxels@, final(light_map)@),
        queue_ok(size, voxels@, final(light_map)@, final(prop_que)@),
        relax_except(size, voxels@, final(light_map)@, final(prop_que)@, pos),
        all_just(size, voxels@, final(light_map)@),
        mono(size, old(light_map)@, final(light_map)@),
        at(size, final(light_map)@, pos) == SUNLIGHT,
        down_ok(size, voxels@, final(light_map)@, pos),
        forall|v: u8, n: Vec3i|
            relaxed_to(size, old(light_map)@, v, n) ==> #[trigger] relaxed_to(
                size,
                final(light_map)@,
                v,
                n,
            ),
        potential(size, final(light_map)@, final(prop_que)@) <= potential(
            size,
            old(light_map)@,
            old(prop_que)@,
        ) + pos.z,
{
    let ghost m0 = light_map@;
    let ghost q0 = prop_que@;
    let ghost k = size.z + 1;
    proof {
        lemma_sunlit_not_bottom(size, voxels@, m0, pos);
        assert(cell_ok(size, voxels@, m0, pos));
    }
    let below_pos = Vec3i::new(pos.x, pos.y, pos.z - 1);
    let i = cell_index(size, below_pos);
    let kind = voxels[i];
    proof {
        assert(below_pos == below(pos));
        assert(pos == above(below_pos));
        assert(cell_ok(size, voxels@, m0, below_pos));
        lemma_map_potential_nonneg(m0);
        lemma_queue_potential_nonneg(q0);
    }
    if kind == Voxel::Air {
        proof {
            let m1 = m0.update(i as int, SUNLIGHT);
            lemma_write(size, m0, below_pos, SUNLIGHT);
            assert(at(size, m1, pos) == SUNLIGHT);
            assert(cell_ok(size, voxels@, m1, below_pos));
            assert(just_ok(size, voxels@, m1, below_pos));
            lemma_write_step(size, voxels@, m0, q0, pos, below_pos, SUNLIGHT, true);
            lemma_map_potential_update(m0, i as int, SUNLIGHT);
            lemma_queue_potential_push(q0, below_pos);
            lemma_scaled_le(k, map_potential(m0), map_potential(m1));
            lemma_keeps(size, voxels@, m0, m1);
        }
        prop_que.push_back(below_pos);
        light_map.set(i, SUNLIGHT);
    } else if kind == Voxel::Fluid {
        proof {
            let m1 = m0.update(i as int, (SUNLIGHT - 1) as u8);
            lemma_write(size, m0, below_pos, (SUNLIGHT - 1) as u8);
            assert(at(size, m1, pos) == SUNLIGHT);
            assert(lit_by(size, m1, below_pos, pos));
            assert(cell_ok(size, voxels@, m1, below_pos));
            assert(just_ok(size, voxels@, m1, below_pos));
            lemma_write_step(size, voxels@, m0, q0, pos, below_pos, (SUNLIGHT - 1) as u8, true);
            lemma_map_potential_update(m0, i as int, (SUNLIGHT - 1) as u8);
            lemma_queue_potential_push(q0, below_pos);
            lemma_scaled_le(k, map_potential(m0), map_potential(m1));
            lemma_keeps(size, voxels@, m0, m1);
        }
        prop_que.push_back(below_pos);
        light_map.set(i, SUNLIGHT - 1);
    } else {
        proof {
            let m1 = m0.update(i as int, OPAQUE);
            lemma_write(size, m0, below_pos, OPAQUE);
            assert(at(size, m1, pos) == SUNLIGHT);
            assert(cell_ok(size, voxels@, m1, below_pos));
            assert(just_ok(size, voxels@, m1, below_pos));
            lemma_write_step(size, voxels@, m0, q0, pos, below_pos, OPAQUE, false);
            lemma_map_potential_update(m0, i as int, OPAQUE);
            lemma_scaled_le(k, map_potential(m0), map_potential(m1));
            lemma_keeps(size, voxels@, m0, m1);
        }
        light_map.set(i, OPAQUE);
    }
}


// ------------------------------------------------------------------------
// The light map of a region
// ------------------------------------------------------------------------

/// The level a cell gets from the first pass over the top layer.
pub open spec fn initial_level(s: Vec3i, vx: Seq<Voxel>, c: Vec3i) -> u8 {
    if c.z == s.z - 1 {
        if at(s, vx, c) == Voxel::Air {
            SUNLIGHT
        } else {
            OPAQUE
        }
    } else if c.z == s.z - 2 && at(s, vx, above(c)) == Voxel::Air && at(s, vx, c) == Voxel::Air {
        SUNLIGHT
    } else {
        UNKNOWN
    }
}

pub open spec fn column_done(c: Vec3i, x: int, y: int) -> bool {
    c.x < x || (c.x == x && c.y < y)
}

pub open spec fn init_state(
    s: Vec3i,
    vx: Seq<Voxel>,
    m: Seq<u8>,
    q: Seq<Vec3i>,
    x: int,
    y: int,
) -> bool {
    &&& m.len() == cell_count(s)
    &&& forall|c: Vec3i|
        in_region(s, c) ==> #[trigger] at(s, m, c) == if column_done(c, x, y) {
            initial_level(s, vx, c)
        } else {
            UNKNOWN
        }
    &&& forall|i: int|
        0 <= i < q.len() ==> {
            &&& in_region(s, #[trigger] q[i])
            &&& q[i].z == s.z - 2
            &&& column_done(q[i], x, y)
            &&& initial_level(s, vx, q[i]) == SUNLIGHT
        }
    &&& forall|c: Vec3i|
        in_region(s, c) && c.z == s.z - 2 && column_done(c, x, y) && initial_level(s, vx, c)
            == SUNLIGHT ==> #[trigger] q.contains(c)
}

/// Once every column is done, the first pass meets the loop invariants.
proof fn lemma_init_done(s: Vec3i, vx: Seq<Voxel>, m: Seq<u8>, q: Seq<Vec3i>)
    requires
        dims_ok(s),
        vx.len() == cell_count(s),
        init_state(s, vx, m, q, s.x as int, 0),
    ensures
        all_cells_ok(s, vx, m),
        queue_ok(s, vx, m, q),
        relax_all(s, vx, m, q),
        all_just(s, vx, m),
{
    assert forall|c: Vec3i| in_region(s, c) implies #[trigger] cell_ok(s, vx, m, c) by {
        assert(at(s, m, c) == initial_level(s, vx, c));
        if c.z == s.z - 2 {
            assert(in_region(s, above(c)));
        }
    }
    assert forall|i: int| 0 <= i < q.len() implies entry_ok(s, vx, m, #[trigger] q[i]) by {
        assert(at(s, m, q[i]) == initial_level(s, vx, q[i]));
    }
    assert forall|c: Vec3i| in_region(s, c) implies #[trigger] relax_ok(s, vx, m, q, c) by {
        assert(at(s, m, c) == initial_level(s, vx, c));
        if c.z < s.z - 1 && 2 <= at(s, m, c) <= SUNLIGHT {
            assert(q.contains(c));
        }
    }
    assert forall|c: Vec3i| in_region(s, c) implies #[trigger] just_ok(s, vx, m, c) by {
        assert(at(s, m, c) == initial_level(s, vx, c));
    }
}

/// Computes the light level of every cell of a region of size `size` whose
/// blocks are `voxels`, indexed as `flat_index` says: sunlight falls straight
/// down from the top layer through air, enters fluid one level dimmer, and
/// spreads to neighbouring air and fluid losing one level per step.
pub fn propagate_light(size: Vec3i, voxels: &Vec<Voxel>) -> (light_map: Vec<u8>)
    requires
        dims_ok(size),
        voxels@.len() == cell_count(size),
        no_open_column(size, voxels@),
    ensures
        light_fixpoint(size, voxels@, light_map@),
{
    proof {
        assert(0 <= size.x * size.y <= size.x * size.y * size.z) by (nonlinear_arith)
            requires
                0 <= size.x,
                0 <= size.y,
                2 <= size.z,
        ;
    }
    let n = (size.x * size.y * size.z) as usize;
    let mut light_map: Vec<u8> = vec![UNKNOWN; n];
    let mut prop_que: VecDeque<Vec3i> = VecDeque::new();
    proof {
        assert forall|c: Vec3i| in_region(size, c) implies #[trigger] at(size, light_map@, c)
            == UNKNOWN by {
            lemma_index(size, c);
        }
    }
    let mut x: i32 = 0;
    while x < size.x
        invariant
            dims_ok(size),
            voxels@.len() == cell_count(size),
            0 <= x <= size.x,
            init_state(size, voxels@, light_map@, prop_que@, x as int, 0),
        decreases size.x - x,
    {
        let mut y: i32 = 0;
        while y < size.y
            invariant
                dims_ok(size),
                voxels@.len() == cell_count(size),
                0 <= x < size.x,
                0 <= y <= size.y,
                init_state(size, voxels@, light_map@, prop_que@, x as int, y as int),
            decreases size.y - y,
        {
            let ghost m0 = light_map@;
            let ghost q0 = prop_que@;
            let z = size.z - 1;
            let top = Vec3i::new(x, y, z);
            let under = Vec3i::new(x, y, z - 1);
            let top_i = cell_index(size, top);
            let under_i = cell_index(size, under);
            proof {
                assert(top == above(under));
                lemma_index(size, top);
                lemma_index(size, under);
                if top_i == under_i {
                    lemma_index_injective(size, top, under);
                }
            }
            let is_air = voxels[top_i] == Voxel::Air;
            let level = if is_air {
                if voxels[under_i] == Voxel::Air {
                    light_map.set(under_i, SUNLIGHT);
                    prop_que.push_back(under);
                }
                SUNLIGHT
            } else {
                OPAQUE
            };
            let ghost m1 = light_map@;
            light_map.set(top_i, level);
            proof {
                let m2 = light_map@;
                lemma_write(size, m0, under, SUNLIGHT);
                lemma_write(size, m1, top, level);
                assert forall|c: Vec3i| in_region(size, c) implies #[trigger] at(size, m2, c)
                    == if column_done(c, x as int, y + 1) {
                    initial_level(size, voxels@, c)
                } else {
                    UNKNOWN
                } by {
                    if c != top {
                        assert(at(size, m2, c) == at(size, m1, c));
                        if c == under {
                        } else {
                            assert(at(size, m1, c) == at(size, m0, c));
                        }
                    }
                }
                let q2 = prop_que@;
                assert forall|i: int| 0 <= i < q2.len() implies {
                    &&& in_region(size, #[trigger] q2[i])
                    &&& q2[i].z == size.z - 2
                    &&& column_done(q2[i], x as int, y + 1)
                    &&& initial_level(size, voxels@, q2[i]) == SUNLIGHT
                } by {
                    if i < q0.len() {
                        assert(q2[i] == q0[i]);
                    }
                }
                assert forall|c: Vec3i|
                    in_region(size, c) && c.z == size.z - 2 && column_done(c, x as int, y + 1)
                        && initial_level(size, voxels@, c) == SUNLIGHT implies #[trigger] q2.contains(
                    c,
                ) by {
                    if c == under {
                        lemma_contains_pushed(q0, under);
                    } else {
                        assert(q0.contains(c));
                        if q2 != q0 {
                            lemma_contains_push(q0, c, under);
                        }
                    }
                }
            }
            y = y + 1;
        }
        proof {
            let m = light_map@;
            let q = prop_que@;
            assert forall|c: Vec3i| in_region(size, c) implies column_done(c, x as int, size.y as int)
                == column_done(c, x + 1, 0) by {}
            assert forall|c: Vec3i| in_region(size, c) implies #[trigger] at(size, m, c)
                == if column_done(c, x + 1, 0) {
                initial_level(size, voxels@, c)
            } else {
                UNKNOWN
            } by {
                assert(column_done(c, x as int, size.y as int) == column_done(c, x + 1, 0));
            }
            assert forall|i: int| 0 <= i < q.len() implies column_done(#[trigger] q[i], x + 1, 0) by {
                assert(column_done(q[i], x as int, size.y as int));
            }
            assert forall|c: Vec3i|
                in_region(size, c) && c.z == size.z - 2 && column_done(c, x + 1, 0)
                    && initial_level(size, voxels@, c) == SUNLIGHT implies #[trigger] q.contains(c) by {
                assert(column_done(c, x as int, size.y as int));
            }
        }
        x = x + 1;
    }
    proof {
        lemma_init_done(size, voxels@, light_map@, prop_que@);
    }
    while prop_que.len() > 0
        invariant
            dims_ok(size),
            voxels@.len() == cell_count(size),
            light_map@.len() == cell_count(size),
            no_open_column(size, voxels@),
            all_cells_ok(size, voxels@, light_map@),
            queue_ok(size, voxels@, light_map@, prop_que@),
            relax_all(size, voxels@, light_map@, prop_que@),
            all_just(size, voxels@, light_map@),
        decreases potential(size, light_map@, prop_que@),
    {
        let ghost m0 = light_map@;
        let ghost q0 = prop_que@;
        let pos = prop_que.pop_front().unwrap();
        let ghost q1 = prop_que@;
        proof {
            assert(pos == q0[0]);
            assert(entry_ok(size, voxels@, m0, q0[0]));
            assert forall|i: int| 0 <= i < q1.len() implies entry_ok(
                size,
                voxels@,
                m0,
                #[trigger] q1[i],
            ) by {
                assert(q1[i] == q0[i + 1]);
            }
            assert forall|c: Vec3i| in_region(size, c) && c != pos implies #[trigger] relax_ok(
                size,
                voxels@,
                m0,
                q1,
                c,
            ) by {
                assert(relax_ok(size, voxels@, m0, q0, c));
                if q0.contains(c) {
                    let j = choose|j: int| 0 <= j < q0.len() && q0[j] == c;
                    assert(q1[j - 1] == c);
                }
            }
            assert(q1 == q0.subrange(1, q0.len() as int));
            assert(queue_potential(q0) == weight(q0[0]) + queue_potential(q1));
            assert(potential(size, m0, q0) == potential(size, m0, q1) + pos.z + 1);
            lemma_map_potential_nonneg(m0);
            lemma_queue_potential_nonneg(q1);
        }
        let light = light_map[cell_index(size, pos)];
        if light == SUNLIGHT {
            shine_down(&mut light_map, pos, &mut prop_que, voxels, size);
        } else {
            if pos.z + 1 < size.z {
                propagate(
                    light,
                    &mut light_map,
                    Vec3i::new(pos.x, pos.y, pos.z + 1),
                    &mut prop_que,
                    voxels,
                    size,
                    Ghost(pos),
                    Ghost(0),
                    Ghost(0),
                    Ghost(1),
                );
            }
            if pos.z > 0 {
                propagate(
                    light,
                    &mut light_map,
                    Vec3i::new(pos.x, pos.y, pos.z - 1),
                    &mut prop_que,
                    voxels,
                    size,
                    Ghost(pos),
                    Ghost(0),
                    Ghost(0),
                    Ghost(-1),
                );
            }
        }
        let ghost m_mid = light_map@;
        let ghost q_mid = prop_que@;
        assert(potential(size, m_mid, q_mid) < potential(size, m0, q0));
        if pos.y + 1 < size.y {
            propagate(
                light,
                &mut light_map,
                Vec3i::new(pos.x, pos.y + 1, pos.z),
                &mut prop_que,
                voxels,
                size,
                Ghost(pos),
                Ghost(0),
                Ghost(1),
                Ghost(0),
            );
        }
        if pos.y > 0 {
            propagate(
                light,
                &mut light_map,
                Vec3i::new(pos.x, pos.y - 1, pos.z),
                &mut prop_que,
                voxels,
                size,
                Ghost(pos),
                Ghost(0),
                Ghost(-1),
                Ghost(0),
            );
        }
        if pos.x + 1 < size.x {
            propagate(
                light,
                &mut light_map,
                Vec3i::new(pos.x + 1, pos.y, pos.z),
                &mut prop_que,
                voxels,
                size,
                Ghost(pos),
                Ghost(1),
                Ghost(0),
                Ghost(0),
            );
        }
        if pos.x > 0 {
            propagate(
                light,
                &mut light_map,
                Vec3i::new(pos.x - 1, pos.y, pos.z),
                &mut prop_que,
                voxels,
                size,
                Ghost(pos),
                Ghost(-1),
                Ghost(0),
                Ghost(0),
            );
        }
        proof {
            let m = light_map@;
            let q = prop_que@;
            assert(potential(size, m, q) < potential(size, m0, q0));
            lemma_map_potential_nonneg(m);
            lemma_queue_potential_nonneg(q);
            lemma_scaled_le(size.z + 1, map_potential(m), 0);
            assert(settled(size, voxels@, m, pos));
            assert forall|c: Vec3i| in_region(size, c) implies #[trigger] relax_ok(
                size,
                voxels@,
                m,
                q,
                c,
            ) by {
                if c != pos {
                    assert(relax_ok(size, voxels@, m, q, c));
                }
            }
        }
    }
    proof {
        let m = light_map@;
        let q = prop_que@;
        assert forall|c: Vec3i| in_region(size, c) implies #[trigger] cell_final(
            size,
            voxels@,
            m,
            c,
        ) by {
            assert(cell_ok(size, voxels@, m, c));
            assert(relax_ok(size, voxels@, m, q, c));
            assert(just_ok(size, voxels@, m, c));
        }
    }
    light_map
}


// ------------------------------------------------------------------------
// Laws of the propagated light
// ------------------------------------------------------------------------

/// The cell and every cell above it in its column are air.
pub open spec fn open_sky(s: Vec3i, vx: Seq<Voxel>, c: Vec3i) -> bool {
    forall|z: i32| c.z <= z < s.z ==> #[trigger] at(s, vx, Vec3i { x: c.x, y: c.y, z }) == Voxel::Air
}

proof fn lemma_fixpoint_cells_ok(s: Vec3i, vx: Seq<Voxel>, m: Seq<u8>)
    requires
        light_fixpoint(s, vx, m),
    ensures
        all_cells_ok(s, vx, m),
{
    assert forall|c: Vec3i| in_region(s, c) implies #[trigger] cell_ok(s, vx, m, c) by {
        assert(cell_final(s, vx, m, c));
    }
}

/// In a propagated light map, a cell holds full sunlight exactly when it has
/// open sky: it and everything above it in its column is air.
pub proof fn lemma_sunlight_iff_open_sky(s: Vec3i, vx: Seq<Voxel>, m: Seq<u8>, c: Vec3i)
    requires
        dims_ok(s),
        vx.len() == cell_count(s),
        light_fixpoint(s, vx, m),
        in_region(s, c),
    ensures
        at(s, m, c) == SUNLIGHT <==> open_sky(s, vx, c),
    decreases s.z - c.z,
{
    lemma_fixpoint_cells_ok(s, vx, m);
    assert(cell_ok(s, vx, m, c));
    assert(Vec3i { x: c.x, y: c.y, z: c.z } == c);
    if at(s, m, c) == SUNLIGHT {
        if c.z < s.z - 1 {
            lemma_sunlit_column(s, vx, m, c);
        }
    }
    if open_sky(s, vx, c) {
        assert(at(s, vx, c) == Voxel::Air);
        if c.z < s.z - 1 {
            let a = above(c);
            assert(in_region(s, a));
            assert(Vec3i { x: c.x, y: c.y, z: (c.z + 1) as i32 } == a);
            assert(at(s, vx, a) == Voxel::Air);
            if c.z < s.z - 2 {
                assert forall|z: i32| a.z <= z < s.z implies #[trigger] at(
                    s,
                    vx,
                    Vec3i { x: a.x, y: a.y, z },
                ) == Voxel::Air by {
                    assert(at(s, vx, Vec3i { x: c.x, y: c.y, z }) == Voxel::Air);
                }
                lemma_sunlight_iff_open_sky(s, vx, m, a);
                assert(cell_final(s, vx, m, a));
                assert(settled(s, vx, m, a));
                assert(below(a) == c);
            }
        }
    }
}

/// A neighbour `n = offset(c, dx, dy, dz)` that spreads light has made a solid
/// `c` opaque.
proof fn lemma_fed_makes_opaque(
    s: Vec3i,
    vx: Seq<Voxel>,
    m: Seq<u8>,
    c: Vec3i,
    dx: int,
    dy: int,
    dz: int,
)
    requires
        dims_ok(s),
        light_fixpoint(s, vx, m),
        in_region(s, c),
        at(s, vx, c) == Voxel::Solid,
        is_step(dx, dy, dz),
        feeds(s, m, offset(c, dx, dy, dz)),
    ensures
        at(s, m, c) == OPAQUE,
{
    let n = offset(c, dx, dy, dz);
    assert(cell_final(s, vx, m, n));
    assert(cell_final(s, vx, m, c));
    assert(c == offset(n, -dx, -dy, -dz));
    if at(s, m, n) == SUNLIGHT && dz == -1 {
        assert(c == above(n));
    }
}

/// In a propagated light map, a solid block below the top layer is opaque
/// exactly when a neighbour spreads light (is lit at level 2 or more, below the
/// top layer); otherwise its light stays unknown.
pub proof fn lemma_solid_opaque_iff_fed(s: Vec3i, vx: Seq<Voxel>, m: Seq<u8>, c: Vec3i)
    requires
        dims_ok(s),
        light_fixpoint(s, vx, m),
        in_region(s, c),
        c.z < s.z - 1,
        at(s, vx, c) == Voxel::Solid,
    ensures
        at(s, m, c) == OPAQUE <==> fed(s, m, c),
        at(s, m, c) == OPAQUE || at(s, m, c) == UNKNOWN,
{
    assert(cell_final(s, vx, m, c));
    if feeds(s, m, offset(c, 1, 0, 0)) {
        lemma_fed_makes_opaque(s, vx, m, c, 1, 0, 0);
    } else if feeds(s, m, offset(c, -1, 0, 0)) {
        lemma_fed_makes_opaque(s, vx, m, c, -1, 0, 0);
    } else if feeds(s, m, offset(c, 0, 1, 0)) {
        lemma_fed_makes_opaque(s, vx, m, c, 0, 1, 0);
    } else if feeds(s, m, offset(c, 0, -1, 0)) {
        lemma_fed_makes_opaque(s, vx, m, c, 0, -1, 0);
    } else if feeds(s, m, offset(c, 0, 0, 1)) {
        lemma_fed_makes_opaque(s, vx, m, c, 0, 0, 1);
    } else if feeds(s, m, offset(c, 0, 0, -1)) {
        lemma_fed_makes_opaque(s, vx, m, c, 0, 0, -1);
    }
}

// ------------------------------------------------------------------------
// Light of a region of the world
// ------------------------------------------------------------------------

/// The margin around a meshed box over which light is computed: sunlight can
/// spread this far sideways, and one layer above and below.
pub open spec fn light_region_spec(bounds: Aabb) -> Aabb {
    Aabb {
        min: Vec3i {
            x: (bounds.min.x - SUNLIGHT) as i32,
            y: (bounds.min.y - SUNLIGHT) as i32,
            z: (bounds.min.z - 1) as i32,
        },
        max: Vec3i {
            x: (bounds.max.x + SUNLIGHT) as i32,
            y: (bounds.max.y + SUNLIGHT) as i32,
            z: (bounds.max.z + 1) as i32,
        },
    }
}

pub open spec fn size_spec(b: Aabb) -> Vec3i {
    Vec3i {
        x: (b.max.x - b.min.x) as i32,
        y: (b.max.y - b.min.y) as i32,
        z: (b.max.z - b.min.z) as i32,
    }
}

pub open spec fn fits_i32(v: int) -> bool {
    i32::MIN <= v <= i32::MAX
}

/// The light region of `bounds` and its extents can be computed in `i32`.
pub open spec fn light_region_ok(bounds: Aabb) -> bool {
    &&& fits_i32(bounds.min.x - SUNLIGHT)
    &&& fits_i32(bounds.min.y - SUNLIGHT)
    &&& fits_i32(bounds.min.z - 1)
    &&& fits_i32(bounds.max.x + SUNLIGHT)
    &&& fits_i32(bounds.max.y + SUNLIGHT)
    &&& fits_i32(bounds.max.z + 1)
    &&& fits_i32(bounds.max.x - bounds.min.x + 2 * SUNLIGHT)
    &&& fits_i32(bounds.max.y - bounds.min.y + 2 * SUNLIGHT)
    &&& fits_i32(bounds.max.z - bounds.min.z + 2)
}

/// The box over which light is computed for meshing `bounds`.
pub fn light_region(bounds: Aabb) -> (outer: Aabb)
    requires
        light_region_ok(bounds),
    ensures
        outer == light_region_spec(bounds),
{
    Aabb {
        min: Vec3i::new(
            bounds.min.x - SUNLIGHT as i32,
            bounds.min.y - SUNLIGHT as i32,
            bounds.min.z - 1,
        ),
        max: Vec3i::new(
            bounds.max.x + SUNLIGHT as i32,
            bounds.max.y + SUNLIGHT as i32,
            bounds.max.z + 1,
        ),
    }
}

/// The extents of a box.
pub fn size_of(b: Aabb) -> (size: Vec3i)
    requires
        fits_i32(b.max.x - b.min.x),
        fits_i32(b.max.y - b.min.y),
        fits_i32(b.max.z - b.min.z),
    ensures
        size == size_spec(b),
{
    Vec3i::new(b.max.x - b.min.x, b.max.y - b.min.y, b.max.z - b.min.z)
}

/// Light levels of a box of the world, `origin` its lowest corner.
pub struct LightMap {
    pub origin: Vec3i,
    pub size: Vec3i,
    pub levels: Vec<u8>,
}

/// The index that the light of world position `wpos` is looked up at.
pub open spec fn lookup_index(map: &LightMap, wpos: Vec3i) -> int {
    let px = wpos.x - map.origin.x;
    let py = wpos.y - map.origin.y;
    let pz = wpos.z - map.origin.z;
    pz * map.size.y * map.size.x + px * map.size.y + py
}

/// Looking up `wpos` stays within `i32` arithmetic.
pub open spec fn lookup_fits(map: &LightMap, wpos: Vec3i) -> bool {
    let px = wpos.x - map.origin.x;
    let py = wpos.y - map.origin.y;
    let pz = wpos.z - map.origin.z;
    &&& fits_i32(px)
    &&& fits_i32(py)
    &&& fits_i32(pz)
    &&& fits_i32(pz * map.size.y)
    &&& fits_i32(pz * map.size.y * map.size.x)
    &&& fits_i32(px * map.size.y)
    &&& fits_i32(pz * map.size.y * map.size.x + px * map.size.y)
    &&& fits_i32(lookup_index(map, wpos))
}

/// The light level looked up at `wpos`: the level stored at its index when
/// that index is in the map and holds neither `OPAQUE` nor `UNKNOWN`, and 0
/// otherwise.
pub open spec fn level_at_spec(map: &LightMap, wpos: Vec3i) -> u8 {
    let i = lookup_index(map, wpos);
    if 0 <= i < map.levels@.len() && map.levels@[i] != OPAQUE && map.levels@[i] != UNKNOWN {
        map.levels@[i]
    } else {
        0
    }
}

impl LightMap {
    /// The light level at world position `wpos`, from 0 (dark) to
    /// `SUNLIGHT`; a fraction of full light is this level over `SUNLIGHT`.
    pub fn level_at(&self, wpos: Vec3i) -> (level: u8)
        requires
            lookup_fits(self, wpos),
        ensures
            level == level_at_spec(self, wpos),
            level != 0 ==> 0 <= lookup_index(self, wpos) < self.levels@.len() && level
                == self.levels@[lookup_index(self, wpos)],
            0 <= lookup_index(self, wpos) < self.levels@.len() && (self.levels@[lookup_index(
                self,
                wpos,
            )] == UNKNOWN || self.levels@[lookup_index(self, wpos)] == OPAQUE) ==> level == 0,
            0 <= lookup_index(self, wpos) < self.levels@.len() && self.levels@[lookup_index(
                self,
                wpos,
            )] != UNKNOWN && self.levels@[lookup_index(self, wpos)] != OPAQUE ==> level
                == self.levels@[lookup_index(self, wpos)],
    {
        let px = wpos.x - self.origin.x;
        let py = wpos.y - self.origin.y;
        let pz = wpos.z - self.origin.z;
        let i = pz * self.size.y * self.size.x + px * self.size.y + py;
        if i < 0 {
            0
        } else if (i as usize) < self.levels.len() {
            let l = self.levels[i as usize];
            if l != OPAQUE && l != UNKNOWN {
                l
            } else {
                0
            }
        } else {
            0
        }
    }
}

/// Read from a propagated light map, the light at any world position is a
/// level from 0 to `SUNLIGHT`: the stored level where that is lit (1 to
/// `SUNLIGHT`), and 0, dark, where the cell is opaque, was never reached
/// (`UNKNOWN`) or lies outside the map.
pub proof fn lemma_level_at_is_light(map: &LightMap, vx: Seq<Voxel>, wpos: Vec3i)
    requires
        dims_ok(map.size),
        light_fixpoint(map.size, vx, map.levels@),
    ensures
        level_at_spec(map, wpos) <= SUNLIGHT,
        0 <= lookup_index(map, wpos) < map.levels@.len() ==> {
            let stored = map.levels@[lookup_index(map, wpos)];
            &&& is_lit(stored) ==> level_at_spec(map, wpos) == stored
            &&& !is_lit(stored) ==> level_at_spec(map, wpos) == 0
        },
        !(0 <= lookup_index(map, wpos) < map.levels@.len()) ==> level_at_spec(map, wpos) == 0,
{
    let s = map.size;
    let m = map.levels@;
    let i = lookup_index(map, wpos);
    if 0 <= i < m.len() {
        lemma_index_onto(s, i);
        let c = choose|c: Vec3i| in_region(s, c) && #[trigger] flat_index(s, c) == i;
        assert(cell_final(s, vx, m, c));
        assert(cell_ok(s, vx, m, c));
        assert(at(s, m, c) == m[i]);
    }
}

/// Looking up the world position of cell `c` of a propagated light map reads
/// that cell: its level where lit, 0 otherwise; so it reads full sunlight
/// exactly where the cell has open sky.
pub proof fn lemma_level_at_reads_cell(map: &LightMap, vx: Seq<Voxel>, c: Vec3i, wpos: Vec3i)
    requires
        dims_ok(map.size),
        vx.len() == cell_count(map.size),
        light_fixpoint(map.size, vx, map.levels@),
        in_region(map.size, c),
        wpos.x == map.origin.x + c.x,
        wpos.y == map.origin.y + c.y,
        wpos.z == map.origin.z + c.z,
    ensures
        lookup_index(map, wpos) == flat_index(map.size, c),
        level_at_spec(map, wpos) == if is_lit(at(map.size, map.levels@, c)) {
            at(map.size, map.levels@, c)
        } else {
            0
        },
        level_at_spec(map, wpos) == SUNLIGHT <==> open_sky(map.size, vx, c),
{
    let s = map.size;
    let m = map.levels@;
    lemma_index(s, c);
    assert(lookup_index(map, wpos) == flat_index(s, c));
    assert(cell_final(s, vx, m, c));
    lemma_sunlight_iff_open_sky(s, vx, m, c);
}

/// The light of the box `bounds` of the world, for meshing it. `voxels` holds
/// the blocks of `light_region(bounds)`, indexed as `flat_index` says for the
/// extents of that region.
pub fn calc_light(bounds: Aabb, voxels: &Vec<Voxel>) -> (map: LightMap)
    requires
        light_region_ok(bounds),
        dims_ok(size_spec(light_region_spec(bounds))),
        voxels@.len() == cell_count(size_spec(light_region_spec(bounds))),
        no_open_column(size_spec(light_region_spec(bounds)), voxels@),
    ensures
        map.origin == light_region_spec(bounds).min,
        map.size == size_spec(light_region_spec(bounds)),
        light_fixpoint(map.size, voxels@, map.levels@),
{
    let outer = light_region(bounds);
    let size = size_of(outer);
    let levels = propagate_light(size, voxels);
    LightMap { origin: outer.min, size, levels }
}

} // verus!
