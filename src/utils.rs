//! Fixed-point vectors and 4x4 matrices, and the parts of the transform
//! pipeline that are pure integer arithmetic.
//!
//! Coordinates and matrix entries are fixed-point numbers with 16 fractional
//! bits: the integer `ONE` stands for 1.0.
use vstd::prelude::*;

verus! {

/// The fixed-point representation of 1.0.
pub const ONE: i32 = 65536;

/// A point or direction in model/world space, in fixed point.
#[derive(Clone, Copy, PartialEq, Eq, Structural, Debug)]
pub struct Vec3 {
    pub x: i32,
    pub y: i32,
    pub z: i32,
}

impl Vec3 {
    pub fn new(x: i32, y: i32, z: i32) -> (r: Vec3)
        ensures
            r == (Vec3 { x, y, z }),
    {
        Vec3 { x, y, z }
    }
}

/// One triangle of an index buffer: three positions into the position and
/// color buffers.
#[derive(Clone, Copy, PartialEq, Eq, Structural, Debug)]
pub struct Index3 {
    pub i: usize,
    pub j: usize,
    pub k: usize,
}

impl Index3 {
    pub fn new(i: usize, j: usize, k: usize) -> (r: Index3)
        ensures
            r == (Index3 { i, j, k }),
    {
        Index3 { i, j, k }
    }
}

/// A 4x4 matrix in fixed point, indexed `m[row][column]`; it acts on column
/// vectors.
#[derive(Clone, Copy, Debug)]
pub struct Mat4 {
    pub m: [[i32; 4]; 4],
}

/// A homogeneous point with wide integer coordinates.
#[derive(Clone, Copy, PartialEq, Eq, Structural, Debug)]
pub struct Vec4 {
    pub x: i128,
    pub y: i128,
    pub z: i128,
    pub w: i128,
}

impl View for Vec4 {
    type V = Seq<int>;

    open spec fn view(&self) -> Seq<int> {
        seq![self.x as int, self.y as int, self.z as int, self.w as int]
    }
}

/// Entry `(i, j)` of a matrix, as an integer.
pub open spec fn entry(m: Mat4, i: int, j: int) -> int {
    m.m@[i]@[j] as int
}

pub open spec fn is_identity(m: Mat4) -> bool {
    forall|i: int, j: int| 0 <= i < 4 && 0 <= j < 4 ==> entry(m, i, j) == if i == j {
        ONE as int
    } else {
        0
    }
}

/// Row `i` of `m` times the column vector `v`, before rescaling.
pub open spec fn row_dot(m: Mat4, i: int, v: Seq<int>) -> int {
    entry(m, i, 0) * v[0] + entry(m, i, 1) * v[1] + entry(m, i, 2) * v[2] + entry(m, i, 3) * v[3]
}

/// The product `m * v` in fixed point: each exact row sum is divided by `ONE`
/// and rounded down.
pub open spec fn mat_apply_spec(m: Mat4, v: Seq<int>) -> Seq<int> {
    seq![
        row_dot(m, 0, v) / (ONE as int),
        row_dot(m, 1, v) / (ONE as int),
        row_dot(m, 2, v) / (ONE as int),
        row_dot(m, 3, v) / (ONE as int),
    ]
}

/// The homogeneous form of a point: `w` is 1.0.
pub open spec fn homogeneous(p: Vec3) -> Seq<int> {
    seq![p.x as int, p.y as int, p.z as int, ONE as int]
}

/// Every coordinate of a homogeneous point lies in `[-b, b]`.
pub open spec fn bounded4(v: Seq<int>, b: int) -> bool {
    v.len() == 4 && forall|i: int| 0 <= i < 4 ==> -b <= #[trigger] v[i] <= b
}

/// The fixed-point identity matrix.
pub fn identity() -> (r: Mat4)
    ensures
        is_identity(r),
{
    Mat4 { m: [[ONE, 0, 0, 0], [0, ONE, 0, 0], [0, 0, ONE, 0], [0, 0, 0, ONE]] }
}

/// The view transform of a camera at `eye_pos` looking down -Z: a translation
/// by `-eye_pos`.
pub fn get_view_matrix(eye_pos: &Vec3) -> (r: Mat4)
    requires
        eye_pos.x > i32::MIN,
        eye_pos.y > i32::MIN,
        eye_pos.z > i32::MIN,
    ensures
        forall|i: int, j: int|
            0 <= i < 4 && 0 <= j < 3 ==> entry(r, i, j) == if i == j {
                ONE as int
            } else {
                0
            },
        entry(r, 0, 3) == -eye_pos.x,
        entry(r, 1, 3) == -eye_pos.y,
        entry(r, 2, 3) == -eye_pos.z,
        entry(r, 3, 3) == ONE,
{
    Mat4 {
        m: [
            [ONE, 0, 0, -eye_pos.x],
            [0, ONE, 0, -eye_pos.y],
            [0, 0, ONE, -eye_pos.z],
            [0, 0, 0, ONE],
        ],
    }
}

/// The fixed-point product `p * q`, rounded down.
pub open spec fn fx_mul(p: int, q: int) -> int {
    (p * q) / (ONE as int)
}

/// `p * (1 - cos)` for the rotation formula, over the product `p`.
pub open spec fn fx_omc(p: int, cos: int) -> int {
    fx_mul(p, ONE - cos)
}

/// The rotation by the angle with sine `sin` and cosine `cos` about the unit
/// axis `(x, y, z)`, by Rodrigues' formula, with each product rounded down;
/// it has no translation.
pub open spec fn rotation_spec(x: int, y: int, z: int, sin: int, cos: int) -> Seq<Seq<int>> {
    seq![
        seq![
            cos + fx_omc(fx_mul(x, x), cos),
            fx_omc(fx_mul(x, y), cos) - fx_mul(z, sin),
            fx_mul(y, sin) + fx_omc(fx_mul(x, z), cos),
            0,
        ],
        seq![
            fx_mul(z, sin) + fx_omc(fx_mul(x, y), cos),
            cos + fx_omc(fx_mul(y, y), cos),
            -fx_mul(x, sin) + fx_omc(fx_mul(y, z), cos),
            0,
        ],
        seq![
            -fx_mul(y, sin) + fx_omc(fx_mul(x, z), cos),
            fx_mul(x, sin) + fx_omc(fx_mul(y, z), cos),
            cos + fx_omc(fx_mul(z, z), cos),
            0,
        ],
        seq![0, 0, 0, ONE as int],
    ]
}

/// The matrix as rows of integers.
pub open spec fn rows(m: Mat4) -> Seq<Seq<int>> {
    Seq::new(4, |i: int| Seq::new(4, |j: int| entry(m, i, j)))
}

fn fx_mul_exec(p: i64, q: i64) -> (r: i64)
    requires
        -ONE <= p <= ONE,
        -2 * ONE <= q <= 2 * ONE,
    ensures
        r == fx_mul(p as int, q as int),
        -2 * ONE <= r <= 2 * ONE,
        -ONE <= q <= ONE ==> -ONE <= r <= ONE,
{
    let ghost lim: int = if -ONE <= q <= ONE { 0x1_0000_0000 } else { 0x2_0000_0000 };
    proof {
        assert(-lim <= p * q <= lim) by (nonlinear_arith)
            requires
                -0x1_0000 <= p <= 0x1_0000,
                -0x2_0000 <= q <= 0x2_0000,
                lim == 0x1_0000_0000 || lim == 0x2_0000_0000,
                lim == 0x1_0000_0000 ==> -0x1_0000 <= q <= 0x1_0000,
        ;
    }
    let r = floor_div((p * q) as i128, ONE as i128);
    proof {
        vstd::arithmetic::div_mod::lemma_div_is_ordered((p * q) as int, lim, 65536);
        vstd::arithmetic::div_mod::lemma_div_is_ordered(-lim, (p * q) as int, 65536);
    }
    r as i64
}

/// `r` is the square root of `n`, rounded down.
pub open spec fn is_floor_sqrt(n: int, r: int) -> bool {
    0 <= r && r * r <= n < (r + 1) * (r + 1)
}

/// The square root of a non-negative `n`, rounded down.
pub open spec fn floor_sqrt(n: int) -> int {
    choose|r: int| is_floor_sqrt(n, r)
}

/// A non-negative number has exactly one rounded-down square root.
pub proof fn lemma_floor_sqrt_unique(n: int, r: int)
    requires
        is_floor_sqrt(n, r),
    ensures
        floor_sqrt(n) == r,
{
    let s = floor_sqrt(n);
    assert(is_floor_sqrt(n, s));
    if s < r {
        assert((s + 1) * (s + 1) <= r * r) by (nonlinear_arith)
            requires
                0 <= s,
                s + 1 <= r,
        ;
    } else if r < s {
        assert((r + 1) * (r + 1) <= s * s) by (nonlinear_arith)
            requires
                0 <= r,
                r + 1 <= s,
        ;
    }
}

/// The square root of `n`, rounded down, by bisection.
pub fn isqrt(n: u128) -> (r: u128)
    ensures
        is_floor_sqrt(n as int, r as int),
        r == floor_sqrt(n as int),
        r < 0x1_0000_0000_0000_0000,
{
    let mut lo: u128 = 0;
    let mut hi: u128 = 0x1_0000_0000_0000_0000;
    assert(hi * hi > n) by (nonlinear_arith)
        requires
            hi == 0x1_0000_0000_0000_0000,
            n <= u128::MAX,
    ;
    while hi - lo > 1
        invariant
            lo < hi <= 0x1_0000_0000_0000_0000,
            lo * lo <= n,
            n < hi * hi,
        decreases hi - lo,
    {
        let mid = lo + (hi - lo) / 2;
        assert(mid * mid < 0x1_0000_0000_0000_0000_0000_0000_0000_0000) by (nonlinear_arith)
            requires
                mid < 0x1_0000_0000_0000_0000,
        ;
        if mid * mid <= n {
            lo = mid;
        } else {
            hi = mid;
        }
    }
    proof {
        lemma_floor_sqrt_unique(n as int, lo as int);
    }
    lo
}

/// The square of the length of `a`, in the units of its coordinates.
pub open spec fn length_squared(a: Vec3) -> int {
    a.x * a.x + a.y * a.y + a.z * a.z
}

/// The length of `a` in fixed point, with `ONE` standing for one unit of
/// its coordinates, rounded down.
pub open spec fn axis_length(a: Vec3) -> int {
    floor_sqrt(length_squared(a) * ONE * ONE)
}

/// Coordinate `c` of an axis whose length is `len` (as `axis_length` gives
/// it), scaled to unit length in fixed point and rounded down.
pub open spec fn unit_coord(c: int, len: int) -> int {
    (c * ONE * ONE) / len
}

/// The rotation about `axis`, scaled to unit length, by the angle with sine
/// `sin` and cosine `cos`.
pub open spec fn model_spec(axis: Vec3, sin: int, cos: int) -> Seq<Seq<int>> {
    let len = axis_length(axis);
    rotation_spec(unit_coord(axis.x as int, len), unit_coord(axis.y as int, len), unit_coord(axis.z as int, len), sin, cos)
}

/// `sin` and `cos` are the sine and cosine of one angle in fixed point, up
/// to rounding: `sin^2 + cos^2` is `ONE^2` within `2 * ONE`.
pub open spec fn is_sin_cos(sin: int, cos: int) -> bool {
    -2 * ONE <= sin * sin + cos * cos - ONE * ONE <= 2 * ONE
}

/// A number no longer than the square root of `n` (rounded down to `len`),
/// divided by `len` in fixed point, lies in `[-ONE, ONE]`.
proof fn lemma_unit_coord_bounds(c: int, n: int, len: int)
    requires
        is_floor_sqrt(n, len),
        len > 0,
        c * c <= n,
    ensures
        -ONE <= (c * ONE) / len <= ONE,
{
    if c > len || c < -len {
        assert((len + 1) * (len + 1) <= c * c) by (nonlinear_arith)
            requires
                0 <= len,
                c > len || c < -len,
        ;
    }
    assert(-len * ONE <= c * ONE <= len * ONE) by (nonlinear_arith)
        requires
            -len <= c <= len,
    ;
    vstd::arithmetic::div_mod::lemma_div_is_ordered(c * ONE, len * ONE, len);
    vstd::arithmetic::div_mod::lemma_div_is_ordered(-len * ONE, c * ONE, len);
    vstd::arithmetic::div_mod::lemma_div_multiples_vanish(ONE as int, len);
    vstd::arithmetic::div_mod::lemma_div_multiples_vanish(-ONE as int, len);
    assert(-len * ONE == len * (-ONE as int)) by (nonlinear_arith);
    assert(len * ONE == len * (ONE as int)) by (nonlinear_arith);
}

/// The square of a coordinate, in fixed point, is at most the square of the
/// fixed-point length.
proof fn lemma_coord_within_length(c: int, sq: int)
    requires
        c * c <= sq,
    ensures
        (c * ONE) * (c * ONE) <= sq * ONE * ONE,
{
    assert((c * ONE) * (c * ONE) <= sq * ONE * ONE) by (nonlinear_arith)
        requires
            c * c <= sq,
    ;
}

/// The model transform: a rotation about `axis` by the angle whose sine and
/// cosine are `sin` and `cos` (all in fixed point), by Rodrigues' rotation
/// formula. The axis need not have unit length: it is scaled to it first,
/// with the length computed to 16 more fractional bits than the axis has.
pub fn get_model_matrix(axis: &Vec3, sin: i32, cos: i32) -> (r: Mat4)
    requires
        axis.x != 0 || axis.y != 0 || axis.z != 0,
        -ONE <= sin <= ONE,
        -ONE <= cos <= ONE,
        is_sin_cos(sin as int, cos as int),
    ensures
        axis_length(*axis) > 0,
        rows(r) == model_spec(*axis, sin as int, cos as int),
{
    let (ax, ay, az) = (axis.x as i64, axis.y as i64, axis.z as i64);
    proof {
        assert(0 <= ax * ax <= 0x4000_0000_0000_0000) by (nonlinear_arith)
            requires
                i32::MIN <= ax <= i32::MAX,
        ;
        assert(0 <= ay * ay <= 0x4000_0000_0000_0000) by (nonlinear_arith)
            requires
                i32::MIN <= ay <= i32::MAX,
        ;
        assert(0 <= az * az <= 0x4000_0000_0000_0000) by (nonlinear_arith)
            requires
                i32::MIN <= az <= i32::MAX,
        ;
        assert(ax * ax + ay * ay + az * az > 0) by (nonlinear_arith)
            requires
                ax != 0 || ay != 0 || az != 0,
        ;
    }
    let sq = (ax * ax) as u128 + (ay * ay) as u128 + (az * az) as u128;
    let ghost sqs = length_squared(*axis);
    assert(sq == sqs);
    assert(sq * 0x1_0000_0000 <= 0x3_0000_0000_0000_0000_0000_0000) by (nonlinear_arith)
        requires
            sq <= 0x3_0000_0000_0000_0000,
    ;
    let n = sq * 0x1_0000_0000;
    assert(n == sqs * ONE * ONE) by (nonlinear_arith)
        requires
            n == sq * 0x1_0000_0000,
            sq == sqs,
    ;
    let len = isqrt(n);
    proof {
        assert(is_floor_sqrt(n as int, len as int));
        assert(n >= 0x1_0000_0000) by (nonlinear_arith)
            requires
                n == sq * 0x1_0000_0000,
                sq >= 1,
        ;
        assert(len > 0) by (nonlinear_arith)
            requires
                n >= 1,
                n < (len + 1) * (len + 1),
                len >= 0,
        ;
        assert(len * len <= n);
        lemma_coord_within_length(ax as int, sqs);
        lemma_coord_within_length(ay as int, sqs);
        lemma_coord_within_length(az as int, sqs);
        lemma_unit_coord_bounds(ax * ONE, n as int, len as int);
        lemma_unit_coord_bounds(ay * ONE, n as int, len as int);
        lemma_unit_coord_bounds(az * ONE, n as int, len as int);
    }
    let x = floor_div(ax as i128 * ONE as i128 * ONE as i128, len as i128) as i64;
    let y = floor_div(ay as i128 * ONE as i128 * ONE as i128, len as i128) as i64;
    let z = floor_div(az as i128 * ONE as i128 * ONE as i128, len as i128) as i64;
    let (sn, cs) = (sin as i64, cos as i64);
    let omc = ONE as i64 - cs;
    let xs = fx_mul_exec(x, sn);
    let ys = fx_mul_exec(y, sn);
    let zs = fx_mul_exec(z, sn);
    let xx = fx_mul_exec(fx_mul_exec(x, x), omc);
    let yy = fx_mul_exec(fx_mul_exec(y, y), omc);
    let zz = fx_mul_exec(fx_mul_exec(z, z), omc);
    let xy = fx_mul_exec(fx_mul_exec(x, y), omc);
    let xz = fx_mul_exec(fx_mul_exec(x, z), omc);
    let yz = fx_mul_exec(fx_mul_exec(y, z), omc);
    let r = Mat4 {
        m: [
            [(cs + xx) as i32, (xy - zs) as i32, (ys + xz) as i32, 0],
            [(zs + xy) as i32, (cs + yy) as i32, (-xs + yz) as i32, 0],
            [(-ys + xz) as i32, (xs + yz) as i32, (cs + zz) as i32, 0],
            [0, 0, 0, ONE],
        ],
    };
    assert(rows(r) =~~= rotation_spec(x as int, y as int, z as int, sn as int, cs as int));
    r
}

/// The entries of the perspective projection for a vertical field of view
/// whose half-angle has cotangent `cot_half_fov`, the width-to-height ratio
/// `aspect_ratio` and the near and far distances, all in fixed point: `cot /
/// aspect`, `cot`, `-(far + near) / (far - near)`, `-2 * far * near / (far -
/// near)` and `-1`, each rounded down.
pub open spec fn projection_entries(cot_half_fov: int, aspect_ratio: int, z_near: int, z_far: int) -> (int, int, int, int) {
    (
        (cot_half_fov * ONE) / aspect_ratio,
        cot_half_fov,
        (-(z_far + z_near) * ONE) / (z_far - z_near),
        (-2 * z_far * z_near) / (z_far - z_near),
    )
}

pub open spec fn projection_spec(cot_half_fov: int, aspect_ratio: int, z_near: int, z_far: int) -> Seq<Seq<int>> {
    let (a, b, c, d) = projection_entries(cot_half_fov, aspect_ratio, z_near, z_far);
    seq![seq![a, 0, 0, 0], seq![0, b, 0, 0], seq![0, 0, c, d], seq![0, 0, -ONE as int, 0]]
}

/// The projection transform (see `projection_entries`). The cotangent of
/// half the field of view is taken as a number; the entries must fit in 32
/// bits.
pub fn get_projection_matrix(cot_half_fov: i32, aspect_ratio: i32, z_near: i32, z_far: i32) -> (r: Mat4)
    requires
        aspect_ratio > 0,
        0 < z_near < z_far,
        i32::MIN <= projection_entries(cot_half_fov as int, aspect_ratio as int, z_near as int, z_far as int).0 <= i32::MAX,
        i32::MIN <= projection_entries(cot_half_fov as int, aspect_ratio as int, z_near as int, z_far as int).2 <= i32::MAX,
        i32::MIN <= projection_entries(cot_half_fov as int, aspect_ratio as int, z_near as int, z_far as int).3 <= i32::MAX,
    ensures
        rows(r) == projection_spec(cot_half_fov as int, aspect_ratio as int, z_near as int, z_far as int),
{
    let (cot, aspect, n, f) = (cot_half_fov as i128, aspect_ratio as i128, z_near as i128, z_far as i128);
    proof {
        lemma_mul_bounds_i32(cot as int, ONE as int);
        lemma_mul_bounds_i32(f as int, n as int);
    }
    let a = floor_div(cot * (ONE as i128), aspect);
    let c = floor_div(-(f + n) * (ONE as i128), f - n);
    assert(-2 * f * n == -2 * (f * n)) by (nonlinear_arith);
    let d = floor_div(-2 * (f * n), f - n);
    let r = Mat4 {
        m: [
            [a as i32, 0, 0, 0],
            [0, cot_half_fov, 0, 0],
            [0, 0, c as i32, d as i32],
            [0, 0, -ONE, 0],
        ],
    };
    assert(rows(r) =~~= projection_spec(cot_half_fov as int, aspect_ratio as int, z_near as int, z_far as int));
    r
}

proof fn lemma_mul_bounds_i32(p: int, q: int)
    requires
        i32::MIN <= p <= i32::MAX,
        i32::MIN <= q <= i32::MAX,
    ensures
        -0x4000_0000_0000_0000 <= p * q <= 0x4000_0000_0000_0000,
{
    assert(-0x4000_0000_0000_0000 <= p * q <= 0x4000_0000_0000_0000) by (nonlinear_arith)
        requires
            -0x8000_0000 <= p <= 0x8000_0000,
            -0x8000_0000 <= q <= 0x8000_0000,
    ;
}

/// `a / b` rounded down, for a positive divisor.
pub fn floor_div(a: i128, b: i128) -> (r: i128)
    requires
        b > 0,
    ensures
        r == a / b,
{
    proof {
        if a >= 0 {
            vstd::arithmetic::div_mod::lemma_div_pos_is_pos(a as int, b as int);
            vstd::arithmetic::div_mod::lemma_div_is_ordered_by_denominator(a as int, 1, b as int);
        } else {
            vstd::arithmetic::div_mod::lemma_div_is_ordered(a as int, 0, b as int);
            assert(a as int / b as int >= a as int) by (nonlinear_arith)
                requires
                    b > 0,
                    a < 0,
            ;
        }
    }
    match a.checked_div_euclid(b) {
        Some(q) => q,
        None => 0,
    }
}

proof fn lemma_term_bound(e: int, x: int, b: int)
    requires
        i32::MIN <= e <= i32::MAX,
        -b <= x <= b,
        0 <= b,
    ensures
        -0x8000_0000 * b <= e * x <= 0x8000_0000 * b,
{
    assert(-0x8000_0000 * b <= e * x <= 0x8000_0000 * b) by (nonlinear_arith)
        requires
            -0x8000_0000 <= e <= 0x8000_0000,
            -b <= x <= b,
            0 <= b,
    ;
}

/// One row of `m * v`, rescaled.
fn row_apply(m: &Mat4, i: usize, v: &Vec4, Ghost(b): Ghost<int>) -> (r: i128)
    requires
        i < 4,
        0 <= b <= 0x2000_0000_0000_0000_0000_0000,
        bounded4(v@, b),
    ensures
        r == row_dot(*m, i as int, v@) / (ONE as int),
        -0x2_0000 * b <= r <= 0x2_0000 * b,
{
    let row = m.m[i];
    assert(bounded4(v@, b));
    assert(v@[0] == v.x && v@[1] == v.y && v@[2] == v.z && v@[3] == v.w);
    proof {
        lemma_term_bound(row[0] as int, v.x as int, b);
        lemma_term_bound(row[1] as int, v.y as int, b);
        lemma_term_bound(row[2] as int, v.z as int, b);
        lemma_term_bound(row[3] as int, v.w as int, b);
    }
    let s: i128 = (row[0] as i128) * v.x + (row[1] as i128) * v.y + (row[2] as i128) * v.z
        + (row[3] as i128) * v.w;
    assert(s == row_dot(*m, i as int, v@));
    let r = floor_div(s, ONE as i128);
    proof {
        let bb = 0x2_0000 * b;
        assert(-bb * 65536 <= s <= bb * 65536);
        vstd::arithmetic::div_mod::lemma_div_is_ordered(s as int, bb * 65536, 65536);
        vstd::arithmetic::div_mod::lemma_div_is_ordered(-bb * 65536, s as int, 65536);
        vstd::arithmetic::div_mod::lemma_div_multiples_vanish(bb, 65536);
        vstd::arithmetic::div_mod::lemma_div_multiples_vanish(-bb, 65536);
    }
    r
}

/// `m * v` in fixed point (see `mat_apply_spec`); each step of the pipeline
/// grows the bound on the coordinates by a factor of 2^17.
pub(crate) fn mat_apply(m: &Mat4, v: &Vec4, Ghost(b): Ghost<int>) -> (r: Vec4)
    requires
        0 <= b <= 0x2000_0000_0000_0000_0000_0000,
        bounded4(v@, b),
    ensures
        r@ == mat_apply_spec(*m, v@),
        bounded4(r@, 0x2_0000 * b),
{
    let x = row_apply(m, 0, v, Ghost(b));
    let y = row_apply(m, 1, v, Ghost(b));
    let z = row_apply(m, 2, v, Ghost(b));
    let w = row_apply(m, 3, v, Ghost(b));
    let r = Vec4 { x, y, z, w };
    assert(r@ =~= mat_apply_spec(*m, v@));
    r
}

} // verus!
