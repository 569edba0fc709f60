//! Fixed-point vector and orientation arithmetic.
//!
//! Positions, velocities and orientations are held as plain integers so that
//! every computation on them is exact and deterministic: a vector component
//! is a fixed-point world unit, and an orientation is a quaternion whose
//! components are scaled by `QUAT_UNIT`.

use vstd::prelude::*;

verus! {

/// Scale of one quaternion unit: a quaternion component `c` stands for the
/// real value `c / QUAT_UNIT`.
pub const QUAT_UNIT: i64 = 4096;

/// `QUAT_UNIT * QUAT_UNIT`, the divisor of the rotation formula.
pub const QUAT_UNIT_SQ: i64 = 4096 * 4096;

/// Largest magnitude allowed for a movement-vector component.
pub const MOVE_MAX: i64 = 0x4000_0000;

/// Largest magnitude a rotated movement component can reach: rotation by a
/// quaternion bounded by `QUAT_UNIT` scales a component by less than thirteen.
pub const ROT_MAX: i64 = 13 * 0x4000_0000;

/// Positions are clamped into `[-POS_LIMIT, POS_LIMIT]` after every step.
pub const POS_LIMIT: i64 = 0x2000_0000_0000_0000;

/// A three-component fixed-point vector.
#[derive(Clone, Copy, PartialEq, Eq, Structural, Debug, Hash)]
pub struct Vec3 {
    pub x: i64,
    pub y: i64,
    pub z: i64,
}

/// A quaternion with components scaled by `QUAT_UNIT`.
#[derive(Clone, Copy, PartialEq, Eq, Structural, Debug, Hash)]
pub struct Quat {
    pub w: i64,
    pub x: i64,
    pub y: i64,
    pub z: i64,
}

impl Vec3 {
    /// All components at most `m` in magnitude.
    pub open spec fn bounded(self, m: int) -> bool {
        -m <= self.x <= m && -m <= self.y <= m && -m <= self.z <= m
    }

    pub fn new(x: i64, y: i64, z: i64) -> (r: Vec3)
        ensures
            r == (Vec3 { x, y, z }),
    {
        Vec3 { x, y, z }
    }

    /// The zero vector.
    pub fn zero() -> (r: Vec3)
        ensures
            r == (Vec3 { x: 0i64, y: 0i64, z: 0i64 }),
    {
        Vec3 { x: 0, y: 0, z: 0 }
    }
}

impl Quat {
    /// Every component at most `QUAT_UNIT` in magnitude, as a unit
    /// orientation's components are.
    pub open spec fn wf(self) -> bool {
        &&& -QUAT_UNIT <= self.w <= QUAT_UNIT
        &&& -QUAT_UNIT <= self.x <= QUAT_UNIT
        &&& -QUAT_UNIT <= self.y <= QUAT_UNIT
        &&& -QUAT_UNIT <= self.z <= QUAT_UNIT
    }

    pub fn new(w: i64, x: i64, y: i64, z: i64) -> (r: Quat)
        ensures
            r == (Quat { w, x, y, z }),
    {
        Quat { w, x, y, z }
    }

    /// The identity orientation.
    pub fn identity() -> (r: Quat)
        ensures
            r == (Quat { w: QUAT_UNIT, x: 0i64, y: 0i64, z: 0i64 }),
            r.wf(),
    {
        Quat { w: QUAT_UNIT, x: 0, y: 0, z: 0 }
    }
}

/// Division truncating toward zero, as machine division does.
pub open spec fn div_trunc(a: int, d: int) -> int
    recommends
        d > 0,
{
    if a >= 0 {
        a / d
    } else {
        -((-a) / d)
    }
}

/// Clamp `a` into `[-POS_LIMIT, POS_LIMIT]`.
pub open spec fn spec_clamp(a: int) -> int {
    if a < -POS_LIMIT {
        -POS_LIMIT as int
    } else if a > POS_LIMIT {
        POS_LIMIT as int
    } else {
        a
    }
}

/// Cross product of `a` and `b`, over unbounded integers.
pub open spec fn spec_cross(ax: int, ay: int, az: int, bx: int, by: int, bz: int) -> (int, int, int) {
    (ay * bz - az * by, az * bx - ax * bz, ax * by - ay * bx)
}

/// Rotation of `v` by the quaternion `q`, in fixed point: the exact formula
/// `v + 2 (qv x (qv x v + w v)) / QUAT_UNIT^2` with truncating division,
/// where `qv` is the vector part of `q`.
pub open spec fn spec_rotate(q: Quat, v: Vec3) -> Vec3 {
    let (tx, ty, tz) = spec_cross(q.x as int, q.y as int, q.z as int, v.x as int, v.y as int, v.z as int);
    let ix = tx + q.w * v.x;
    let iy = ty + q.w * v.y;
    let iz = tz + q.w * v.z;
    let (ux, uy, uz) = spec_cross(q.x as int, q.y as int, q.z as int, ix, iy, iz);
    Vec3 {
        x: (v.x + div_trunc(2 * ux, QUAT_UNIT_SQ as int)) as i64,
        y: (v.y + div_trunc(2 * uy, QUAT_UNIT_SQ as int)) as i64,
        z: (v.z + div_trunc(2 * uz, QUAT_UNIT_SQ as int)) as i64,
    }
}

/// `|a * b| <= bound_a * bound_b` when the factors are bounded.
proof fn lemma_mul_bound(a: int, b: int, bound_a: int, bound_b: int)
    requires
        -bound_a <= a <= bound_a,
        -bound_b <= b <= bound_b,
        0 <= bound_a,
        0 <= bound_b,
    ensures
        -(bound_a * bound_b) <= a * b <= bound_a * bound_b,
{
    assert(-(bound_a * bound_b) <= a * b <= bound_a * bound_b) by (nonlinear_arith)
        requires
            -bound_a <= a <= bound_a,
            -bound_b <= b <= bound_b,
            0 <= bound_a,
            0 <= bound_b,
    ;
}

/// Truncating division shrinks magnitude: `|a / d| <= bound / d` given `|a| <= bound`.
proof fn lemma_div_trunc_bound(a: int, d: int, bound: int)
    requires
        d > 0,
        0 <= bound,
        -bound <= a <= bound,
    ensures
        -(bound / d) <= div_trunc(a, d) <= bound / d,
{
    if a >= 0 {
        assert(a / d <= bound / d) by (nonlinear_arith)
            requires d > 0 && 0 <= a <= bound,
        ;
        assert(a / d >= 0) by (nonlinear_arith)
            requires d > 0 && 0 <= a,
        ;
        assert(bound / d >= 0) by (nonlinear_arith)
            requires d > 0 && 0 <= bound,
        ;
    } else {
        assert((-a) / d <= bound / d) by (nonlinear_arith)
            requires d > 0 && 0 <= -a <= bound,
        ;
        assert((-a) / d >= 0) by (nonlinear_arith)
            requires d > 0 && 0 <= -a,
        ;
    }
}

/// Truncating i64 division by a positive constant.
fn div_trunc_i64(a: i64, d: i64) -> (r: i64)
    requires
        d > 0,
        a > i64::MIN,
    ensures
        r == div_trunc(a as int, d as int),
{
    if a >= 0 {
        a / d
    } else {
        let neg: i64 = -a;
        proof {
            assert((neg / d) as int == (neg as int) / (d as int));
            assert(neg as int / d as int >= 0 && neg as int / d as int <= neg as int) by (nonlinear_arith)
                requires d as int > 0 && neg as int >= 0,
            ;
        }
        -(neg / d)
    }
}

/// Rotate the vector `v` by the orientation `q`, exactly as `spec_rotate` says.
pub fn rotate_vector(q: Quat, v: Vec3) -> (r: Vec3)
    requires
        q.wf(),
        v.bounded(MOVE_MAX as int),
    ensures
        r == spec_rotate(q, v),
        r.bounded(ROT_MAX as int),
{
    proof {
        lemma_rotate_bounds(q, v);
    }
    let qx = q.x;
    let qy = q.y;
    let qz = q.z;
    let qw = q.w;

    let tx: i64 = qy * v.z - qz * v.y;
    let ty: i64 = qz * v.x - qx * v.z;
    let tz: i64 = qx * v.y - qy * v.x;

    let ix: i64 = tx + qw * v.x;
    let iy: i64 = ty + qw * v.y;
    let iz: i64 = tz + qw * v.z;

    let ux: i64 = qy * iz - qz * iy;
    let uy: i64 = qz * ix - qx * iz;
    let uz: i64 = qx * iy - qy * ix;

    let rx: i64 = v.x + div_trunc_i64(2 * ux, QUAT_UNIT_SQ);
    let ry: i64 = v.y + div_trunc_i64(2 * uy, QUAT_UNIT_SQ);
    let rz: i64 = v.z + div_trunc_i64(2 * uz, QUAT_UNIT_SQ);

    Vec3 { x: rx, y: ry, z: rz }
}

/// Bounds on every intermediate value of the rotation formula, so the
/// executable arithmetic stays inside `i64`.
proof fn lemma_rotate_bounds(q: Quat, v: Vec3)
    requires
        q.wf(),
        v.bounded(MOVE_MAX as int),
    ensures
        ({
            let (tx, ty, tz) = spec_cross(q.x as int, q.y as int, q.z as int, v.x as int, v.y as int, v.z as int);
            let ix = tx + q.w * v.x;
            let iy = ty + q.w * v.y;
            let iz = tz + q.w * v.z;
            let (ux, uy, uz) = spec_cross(q.x as int, q.y as int, q.z as int, ix, iy, iz);
            let prod_bound = QUAT_UNIT * MOVE_MAX;
            let inner_bound = 3 * QUAT_UNIT * MOVE_MAX;
            let u_bound = 2 * QUAT_UNIT * 3 * QUAT_UNIT * MOVE_MAX;
            &&& -prod_bound <= q.y * v.z <= prod_bound
            &&& -prod_bound <= q.z * v.y <= prod_bound
            &&& -prod_bound <= q.z * v.x <= prod_bound
            &&& -prod_bound <= q.x * v.z <= prod_bound
            &&& -prod_bound <= q.x * v.y <= prod_bound
            &&& -prod_bound <= q.y * v.x <= prod_bound
            &&& -prod_bound <= q.w * v.x <= prod_bound
            &&& -prod_bound <= q.w * v.y <= prod_bound
            &&& -prod_bound <= q.w * v.z <= prod_bound
            &&& -inner_bound <= ix <= inner_bound
            &&& -inner_bound <= iy <= inner_bound
            &&& -inner_bound <= iz <= inner_bound
            &&& -(QUAT_UNIT * inner_bound) <= q.x * iy <= QUAT_UNIT * inner_bound
            &&& -(QUAT_UNIT * inner_bound) <= q.x * iz <= QUAT_UNIT * inner_bound
            &&& -(QUAT_UNIT * inner_bound) <= q.y * ix <= QUAT_UNIT * inner_bound
            &&& -(QUAT_UNIT * inner_bound) <= q.y * iz <= QUAT_UNIT * inner_bound
            &&& -(QUAT_UNIT * inner_bound) <= q.z * ix <= QUAT_UNIT * inner_bound
            &&& -(QUAT_UNIT * inner_bound) <= q.z * iy <= QUAT_UNIT * inner_bound
            &&& -u_bound <= ux <= u_bound
            &&& -u_bound <= uy <= u_bound
            &&& -u_bound <= uz <= u_bound
            &&& -(12 * MOVE_MAX) <= div_trunc(2 * ux, QUAT_UNIT_SQ as int) <= 12 * MOVE_MAX
            &&& -(12 * MOVE_MAX) <= div_trunc(2 * uy, QUAT_UNIT_SQ as int) <= 12 * MOVE_MAX
            &&& -(12 * MOVE_MAX) <= div_trunc(2 * uz, QUAT_UNIT_SQ as int) <= 12 * MOVE_MAX
        }),
{
    let qu: int = 4096;
    let mm: int = 0x4000_0000;
    let inner_bound: int = 0xC00_0000_0000;
    lemma_mul_bound(q.y as int, v.z as int, qu, mm);
    lemma_mul_bound(q.z as int, v.y as int, qu, mm);
    lemma_mul_bound(q.z as int, v.x as int, qu, mm);
    lemma_mul_bound(q.x as int, v.z as int, qu, mm);
    lemma_mul_bound(q.x as int, v.y as int, qu, mm);
    lemma_mul_bound(q.y as int, v.x as int, qu, mm);
    lemma_mul_bound(q.w as int, v.x as int, qu, mm);
    lemma_mul_bound(q.w as int, v.y as int, qu, mm);
    lemma_mul_bound(q.w as int, v.z as int, qu, mm);
    let (tx, ty, tz) = spec_cross(q.x as int, q.y as int, q.z as int, v.x as int, v.y as int, v.z as int);
    let ix = tx + q.w * v.x;
    let iy = ty + q.w * v.y;
    let iz = tz + q.w * v.z;
    lemma_mul_bound(q.x as int, iy, qu, inner_bound);
    lemma_mul_bound(q.x as int, iz, qu, inner_bound);
    lemma_mul_bound(q.y as int, ix, qu, inner_bound);
    lemma_mul_bound(q.y as int, iz, qu, inner_bound);
    lemma_mul_bound(q.z as int, ix, qu, inner_bound);
    lemma_mul_bound(q.z as int, iy, qu, inner_bound);
    assert(qu * inner_bound == 0xC0_0000_0000_0000) by (nonlinear_arith)
        requires qu == 4096 && inner_bound == 0xC00_0000_0000,
    ;
    let (ux, uy, uz) = spec_cross(q.x as int, q.y as int, q.z as int, ix, iy, iz);
    lemma_div_trunc_bound(2 * ux, QUAT_UNIT_SQ as int, 0x300_0000_0000_0000);
    lemma_div_trunc_bound(2 * uy, QUAT_UNIT_SQ as int, 0x300_0000_0000_0000);
    lemma_div_trunc_bound(2 * uz, QUAT_UNIT_SQ as int, 0x300_0000_0000_0000);
    assert(0x300_0000_0000_0000int / 0x100_0000int == 0x3_0000_0000int);
    assert(12 * MOVE_MAX == 0x3_0000_0000int);
}

/// Clamp a position component into the world range.
pub fn clamp_pos(a: i64) -> (r: i64)
    ensures
        r == spec_clamp(a as int),
{
    if a < -POS_LIMIT {
        -POS_LIMIT
    } else if a > POS_LIMIT {
        POS_LIMIT
    } else {
        a
    }
}

/// Componentwise clamped vector addition: each component of the result is
/// the clamped sum of the operands' components.
pub open spec fn spec_add_clamped(a: Vec3, b: Vec3) -> Vec3 {
    Vec3 {
        x: spec_clamp(a.x + b.x) as i64,
        y: spec_clamp(a.y + b.y) as i64,
        z: spec_clamp(a.z + b.z) as i64,
    }
}

/// Clamp a wide sum into the world range.
fn clamp_wide(a: i128) -> (r: i64)
    ensures
        r == spec_clamp(a as int),
{
    if a < -POS_LIMIT as i128 {
        -POS_LIMIT
    } else if a > POS_LIMIT as i128 {
        POS_LIMIT
    } else {
        a as i64
    }
}

/// Add `b` to `a`, clamping each component into the world range.
pub fn add_clamped(a: Vec3, b: Vec3) -> (r: Vec3)
    ensures
        r == spec_add_clamped(a, b),
        r.bounded(POS_LIMIT as int),
{
    Vec3 {
        x: clamp_wide(a.x as i128 + b.x as i128),
        y: clamp_wide(a.y as i128 + b.y as i128),
        z: clamp_wide(a.z as i128 + b.z as i128),
    }
}

} // verus!
