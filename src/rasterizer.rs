//! The rasterizer: geometry buffers, the transform to screen space, scan
//! conversion with a depth test, and the frame and depth buffers.
use vstd::prelude::*;
use crate::color::{Rgb, blank_spec};
use crate::triangle::{Triangle, zeros3};
use crate::utils::{
    Index3, Mat4, Vec3, Vec4, ONE, floor_div, get_projection_matrix, homogeneous, identity, is_identity,
    mat_apply, mat_apply_spec, projection_entries, projection_spec, rows,
};
use std::collections::HashMap;


verus! {

broadcast use vstd::std_specs::hash::group_hash_axioms;

// ---------------------------------------------------------------------------
// Pixel addressing
// ---------------------------------------------------------------------------

/// Where pixel `(x, y)` is stored: rows are kept bottom row last, so that
/// `y = 0` is the bottom of the image.
pub open spec fn frame_index(x: int, y: int, width: int, height: int) -> int {
    (height - 1 - y) * width + x
}

/// The column of the pixel stored at `i`.
pub open spec fn column_of(i: int, width: int) -> int {
    i % width
}

/// The row of the pixel stored at `i`.
pub open spec fn row_of(i: int, width: int, height: int) -> int {
    height - 1 - i / width
}

/// Every pixel has a place in a `width * height` buffer, and the place gives
/// the pixel back.
pub proof fn lemma_frame_index_of_pixel(x: int, y: int, width: int, height: int)
    requires
        0 <= x < width,
        0 <= y < height,
    ensures
        0 <= frame_index(x, y, width, height) < width * height,
        column_of(frame_index(x, y, width, height), width) == x,
        row_of(frame_index(x, y, width, height), width, height) == y,
{
    let r = height - 1 - y;
    assert(0 <= r * width + x < width * height) by (nonlinear_arith)
        requires
            0 <= x < width,
            0 <= r < height,
    ;
    vstd::arithmetic::div_mod::lemma_fundamental_div_mod_converse(r * width + x, width, r, x);
}

/// Every place of a `width * height` buffer holds a pixel of the image.
pub proof fn lemma_pixel_of_frame_index(i: int, width: int, height: int)
    requires
        0 < width,
        0 <= i < width * height,
    ensures
        0 <= column_of(i, width) < width,
        0 <= row_of(i, width, height) < height,
        frame_index(column_of(i, width), row_of(i, width, height), width, height) == i,
{
    vstd::arithmetic::div_mod::lemma_fundamental_div_mod(i, width);
    let q = i / width;
    assert(height - 1 - (height - 1 - q) == q);
    assert(q * width == width * q) by (nonlinear_arith);
    vstd::arithmetic::div_mod::lemma_mod_bound(i, width);
    vstd::arithmetic::div_mod::lemma_div_pos_is_pos(i, width);
    vstd::arithmetic::div_mod::lemma_multiply_divide_lt(i, width, height);
    assert(width * height == height * width) by (nonlinear_arith);
}

/// The index of pixel `(x, y)` in a `width * height` buffer.
pub fn get_index(x: usize, y: usize, width: usize, height: usize) -> (r: usize)
    requires
        x < width,
        y < height,
        width * height <= usize::MAX,
    ensures
        r == frame_index(x as int, y as int, width as int, height as int),
        r < width * height,
{
    proof {
        lemma_frame_index_of_pixel(x as int, y as int, width as int, height as int);
        let r = height - 1 - y;
        assert(r * width <= width * height) by (nonlinear_arith)
            requires
                r < height,
        ;
    }
    (height - 1 - y) * width + x
}

// ---------------------------------------------------------------------------
// Barycentric weights
// ---------------------------------------------------------------------------

/// Twice the signed area of the triangle's projection onto the xy-plane.
pub open spec fn bary_den(v: Seq<Vec3>) -> int {
    (v[1].x - v[0].x) * (v[2].y - v[0].y) - (v[2].x - v[0].x) * (v[1].y - v[0].y)
}

/// The weight of vertex 1 at `(x, y)`, times `bary_den(v)`.
pub open spec fn bary_w1(x: int, y: int, v: Seq<Vec3>) -> int {
    (x - v[0].x) * (v[2].y - v[0].y) - (v[2].x - v[0].x) * (y - v[0].y)
}

/// The weight of vertex 2 at `(x, y)`, times `bary_den(v)`.
pub open spec fn bary_w2(x: int, y: int, v: Seq<Vec3>) -> int {
    (v[1].x - v[0].x) * (y - v[0].y) - (x - v[0].x) * (v[1].y - v[0].y)
}

/// The weight of vertex 0 at `(x, y)`, times `bary_den(v)`.
pub open spec fn bary_w0(x: int, y: int, v: Seq<Vec3>) -> int {
    bary_den(v) - bary_w1(x, y, v) - bary_w2(x, y, v)
}

/// `(x, y)` lies in the triangle, edges included: the area is not zero and
/// no weight has the opposite sign to it.
pub open spec fn inside_spec(x: int, y: int, v: Seq<Vec3>) -> bool {
    let d = bary_den(v);
    let (c1, c2, c3) = (bary_w0(x, y, v), bary_w1(x, y, v), bary_w2(x, y, v));
    d != 0 && (d > 0 ==> c1 >= 0 && c2 >= 0 && c3 >= 0) && (d < 0 ==> c1 <= 0 && c2 <= 0 && c3 <= 0)
}

/// The depth at `(x, y)` interpolated from the vertices' depths with the
/// barycentric weights, rounded down.
pub open spec fn depth_spec(x: int, y: int, v: Seq<Vec3>) -> int {
    let d = bary_den(v);
    let s = bary_w0(x, y, v) * v[0].z + bary_w1(x, y, v) * v[1].z + bary_w2(x, y, v) * v[2].z;
    if d > 0 {
        s / d
    } else {
        (-s) / (-d)
    }
}

/// Barycentric weights with a common denominator: vertex `i` has the weight
/// `c(i+1) / den`.
#[derive(Clone, Copy, PartialEq, Eq, Structural, Debug)]
pub struct Barycentric {
    pub c1: i128,
    pub c2: i128,
    pub c3: i128,
    pub den: i128,
}

impl Barycentric {
    /// Whether the weights describe a point of the triangle.
    pub fn is_inside(&self) -> (r: bool)
        ensures
            r == (self.den != 0 && (self.den > 0 ==> self.c1 >= 0 && self.c2 >= 0 && self.c3 >= 0)
                && (self.den < 0 ==> self.c1 <= 0 && self.c2 <= 0 && self.c3 <= 0)),
    {
        if self.den > 0 {
            self.c1 >= 0 && self.c2 >= 0 && self.c3 >= 0
        } else if self.den < 0 {
            self.c1 <= 0 && self.c2 <= 0 && self.c3 <= 0
        } else {
            false
        }
    }
}

proof fn lemma_mul_bound(a: int, b: int, ba: int, bb: int)
    requires
        -ba <= a <= ba,
        -bb <= b <= bb,
    ensures
        -(ba * bb) <= a * b <= ba * bb,
{
    assert(-(ba * bb) <= a * b <= ba * bb) by (nonlinear_arith)
        requires
            -ba <= a <= ba,
            -bb <= b <= bb,
    ;
}

/// The barycentric weights of the point `(x, y)` against the projection of
/// `v` onto the xy-plane.
pub fn compute_barycentric_2_d(x: i64, y: i64, v: &[Vec3; 3]) -> (r: Barycentric)
    requires
        -0x400_0000_0000 <= x <= 0x400_0000_0000,
        -0x400_0000_0000 <= y <= 0x400_0000_0000,
    ensures
        r.den == bary_den(v@),
        r.c1 == bary_w0(x as int, y as int, v@),
        r.c2 == bary_w1(x as int, y as int, v@),
        r.c3 == bary_w2(x as int, y as int, v@),
        -0x4_0000_0000_0000_0000 <= r.den <= 0x4_0000_0000_0000_0000,
        -0x4000_0000_0000_0000_0000 <= r.c1 <= 0x4000_0000_0000_0000_0000,
        -0x4000_0000_0000_0000_0000 <= r.c2 <= 0x4000_0000_0000_0000_0000,
        -0x4000_0000_0000_0000_0000 <= r.c3 <= 0x4000_0000_0000_0000_0000,
{
    let x0 = v[0].x as i128;
    let y0 = v[0].y as i128;
    let ax = v[1].x as i128 - x0;
    let ay = v[1].y as i128 - y0;
    let bx = v[2].x as i128 - x0;
    let by = v[2].y as i128 - y0;
    let ex = x as i128 - x0;
    let ey = y as i128 - y0;
    proof {
        let e32: int = 0x1_0000_0000;
        let e43: int = 0x800_0000_0000;
        lemma_mul_bound(ax as int, by as int, e32, e32);
        lemma_mul_bound(bx as int, ay as int, e32, e32);
        lemma_mul_bound(ex as int, by as int, e43, e32);
        lemma_mul_bound(bx as int, ey as int, e32, e43);
        lemma_mul_bound(ax as int, ey as int, e32, e43);
        lemma_mul_bound(ex as int, ay as int, e43, e32);
    }
    let den = ax * by - bx * ay;
    let c2 = ex * by - bx * ey;
    let c3 = ax * ey - ex * ay;
    let c1 = den - c2 - c3;
    Barycentric { c1, c2, c3, den }
}

// ---------------------------------------------------------------------------
// Scan conversion
// ---------------------------------------------------------------------------

/// Screen positions are kept in fixed point with this many steps per pixel:
/// pixel `(x, y)` is sampled at the screen position
/// `(x * SUBPIXEL, y * SUBPIXEL)`.
pub const SUBPIXEL: i32 = 256;

/// The triangle's interpolated depth where pixel `(x, y)` is sampled.
pub open spec fn pixel_depth(x: int, y: int, v: Seq<Vec3>) -> int {
    depth_spec(x * SUBPIXEL, y * SUBPIXEL, v)
}

pub open spec fn min3(a: int, b: int, c: int) -> int {
    if a <= b && a <= c {
        a
    } else if b <= c {
        b
    } else {
        c
    }
}

pub open spec fn max3(a: int, b: int, c: int) -> int {
    if a >= b && a >= c {
        a
    } else if b >= c {
        b
    } else {
        c
    }
}

/// Pixel `(x, y)` lies in the bounding box of the triangle's projection,
/// with its bounds rounded down to whole pixels.
pub open spec fn in_bounding_box(v: Seq<Vec3>, x: int, y: int) -> bool {
    let s = SUBPIXEL as int;
    min3(v[0].x as int, v[1].x as int, v[2].x as int) / s <= x <= max3(v[0].x as int, v[1].x as int, v[2].x as int) / s
        && min3(v[0].y as int, v[1].y as int, v[2].y as int) / s <= y <= max3(v[0].y as int, v[1].y as int, v[2].y as int) / s
}

/// The bounding box of the triangle, in whole pixels, lies in the
/// `width * height` frame.
pub open spec fn on_frame(t: Triangle, width: int, height: int) -> bool {
    let v = t.vertices@;
    let s = SUBPIXEL as int;
    &&& 0 <= min3(v[0].x as int, v[1].x as int, v[2].x as int) / s
    &&& max3(v[0].x as int, v[1].x as int, v[2].x as int) / s < width
    &&& 0 <= min3(v[0].y as int, v[1].y as int, v[2].y as int) / s
    &&& max3(v[0].y as int, v[1].y as int, v[2].y as int) / s < height
}

/// An entry of a draw call that a scan not limited to the frame can draw:
/// it has no screen triangle, or one on the frame.
pub open spec fn drawable(o: Option<Triangle>, width: int, height: int) -> bool {
    match o {
        Some(t) => on_frame(t, width, height),
        None => true,
    }
}

/// Entry `k` is the first that is not drawable.
pub open spec fn first_off_frame(tris: Seq<Option<Triangle>>, width: int, height: int, k: int) -> bool {
    &&& 0 <= k < tris.len()
    &&& !drawable(tris[k], width, height)
    &&& forall|m: int| 0 <= m < k ==> drawable(#[trigger] tris[m], width, height)
}

/// Pixel `(x, y)` of a `width * height` image is one that the triangle
/// covers.
pub open spec fn covers(v: Seq<Vec3>, width: int, height: int, x: int, y: int) -> bool {
    0 <= x < width && 0 <= y < height && in_bounding_box(v, x, y) && inside_spec(x * SUBPIXEL, y * SUBPIXEL, v)
}

/// Drawing the triangle overwrites pixel `(x, y)`, whose stored depth is
/// `d`: it covers the pixel and is nearer there.
pub open spec fn depth_passes(t: Triangle, width: int, height: int, x: int, y: int, d: i64) -> bool {
    covers(t.vertices@, width, height, x, y) && pixel_depth(x, y, t.vertices@) < d
}

/// The depth of pixel `(x, y)` after the triangle is drawn over depth `d`.
pub open spec fn pixel_depth_after(t: Triangle, width: int, height: int, x: int, y: int, d: i64) -> i64 {
    if depth_passes(t, width, height, x, y, d) {
        pixel_depth(x, y, t.vertices@) as i64
    } else {
        d
    }
}

/// The color of pixel `(x, y)` after the triangle is drawn over color `c` at
/// depth `d`: a pixel that is overwritten gets the color of vertex 0.
pub open spec fn pixel_color_after(t: Triangle, width: int, height: int, x: int, y: int, d: i64, c: Rgb) -> Rgb {
    if depth_passes(t, width, height, x, y, d) {
        t.colors@[0]
    } else {
        c
    }
}

/// The depth buffer after drawing `t` over `db`.
pub open spec fn raster_depth(t: Triangle, width: int, height: int, db: Seq<i64>) -> Seq<i64> {
    Seq::new(
        db.len(),
        |i: int| pixel_depth_after(t, width, height, column_of(i, width), row_of(i, width, height), db[i]),
    )
}

/// The frame buffer after drawing `t` over `fb`, with depth buffer `db`.
pub open spec fn raster_frame(t: Triangle, width: int, height: int, fb: Seq<Rgb>, db: Seq<i64>) -> Seq<Rgb> {
    Seq::new(
        fb.len(),
        |i: int| pixel_color_after(t, width, height, column_of(i, width), row_of(i, width, height), db[i], fb[i]),
    )
}

/// The depth interpolated from weights with a common denominator, rounded
/// down.
pub open spec fn weighted_depth(c1: int, c2: int, c3: int, den: int, v: Seq<Vec3>) -> int {
    let s = c1 * v[0].z + c2 * v[1].z + c3 * v[2].z;
    if den > 0 {
        s / den
    } else {
        (-s) / (-den)
    }
}

proof fn lemma_scaled_between(c: int, z: int, lo: int, hi: int)
    requires
        c >= 0,
        lo <= z <= hi,
    ensures
        c * lo <= c * z <= c * hi,
{
    assert(c * lo <= c * z <= c * hi) by (nonlinear_arith)
        requires
            c >= 0,
            lo <= z <= hi,
    ;
}

/// Weights that do not change sign and add up to a positive `den` give a
/// depth between the least and the greatest vertex depth.
proof fn lemma_convex_depth(c1: int, c2: int, c3: int, den: int, z1: int, z2: int, z3: int)
    requires
        den > 0,
        c1 >= 0,
        c2 >= 0,
        c3 >= 0,
        c1 + c2 + c3 == den,
    ensures
        min3(z1, z2, z3) <= (c1 * z1 + c2 * z2 + c3 * z3) / den <= max3(z1, z2, z3),
{
    let lo = min3(z1, z2, z3);
    let hi = max3(z1, z2, z3);
    let s = c1 * z1 + c2 * z2 + c3 * z3;
    lemma_scaled_between(c1, z1, lo, hi);
    lemma_scaled_between(c2, z2, lo, hi);
    lemma_scaled_between(c3, z3, lo, hi);
    assert(den * lo == c1 * lo + c2 * lo + c3 * lo) by (nonlinear_arith)
        requires
            c1 + c2 + c3 == den,
    ;
    assert(den * hi == c1 * hi + c2 * hi + c3 * hi) by (nonlinear_arith)
        requires
            c1 + c2 + c3 == den,
    ;
    vstd::arithmetic::div_mod::lemma_div_is_ordered(den * lo, s, den);
    vstd::arithmetic::div_mod::lemma_div_is_ordered(s, den * hi, den);
    vstd::arithmetic::div_mod::lemma_div_multiples_vanish(lo, den);
    vstd::arithmetic::div_mod::lemma_div_multiples_vanish(hi, den);
}

/// Inside the triangle the interpolated depth lies between the least and the
/// greatest vertex depth.
pub proof fn lemma_depth_between_vertices(x: int, y: int, v: Seq<Vec3>)
    requires
        v.len() == 3,
        inside_spec(x, y, v),
    ensures
        min3(v[0].z as int, v[1].z as int, v[2].z as int) <= depth_spec(x, y, v),
        depth_spec(x, y, v) <= max3(v[0].z as int, v[1].z as int, v[2].z as int),
{
    let d = bary_den(v);
    let (c1, c2, c3) = (bary_w0(x, y, v), bary_w1(x, y, v), bary_w2(x, y, v));
    if d > 0 {
        lemma_convex_depth(c1, c2, c3, d, v[0].z as int, v[1].z as int, v[2].z as int);
    } else {
        lemma_convex_depth(-c1, -c2, -c3, -d, v[0].z as int, v[1].z as int, v[2].z as int);
        assert((-c1) * v[0].z + (-c2) * v[1].z + (-c3) * v[2].z == -(c1 * v[0].z + c2 * v[1].z + c3
            * v[2].z)) by (nonlinear_arith);
    }
}

/// The interpolated depth for weights of a point inside the triangle.
fn interpolate_depth(b: &Barycentric, v: &[Vec3; 3]) -> (z: i64)
    requires
        b.den != 0,
        b.den > 0 ==> b.c1 >= 0 && b.c2 >= 0 && b.c3 >= 0,
        b.den < 0 ==> b.c1 <= 0 && b.c2 <= 0 && b.c3 <= 0,
        b.c1 + b.c2 + b.c3 == b.den,
        -0x4000_0000_0000_0000_0000 <= b.c1 <= 0x4000_0000_0000_0000_0000,
        -0x4000_0000_0000_0000_0000 <= b.c2 <= 0x4000_0000_0000_0000_0000,
        -0x4000_0000_0000_0000_0000 <= b.c3 <= 0x4000_0000_0000_0000_0000,
    ensures
        z == weighted_depth(b.c1 as int, b.c2 as int, b.c3 as int, b.den as int, v@),
        i32::MIN <= z <= i32::MAX,
{
    let (c1, c2, c3, den) = if b.den > 0 {
        (b.c1, b.c2, b.c3, b.den)
    } else {
        (-b.c1, -b.c2, -b.c3, -b.den)
    };
    let z0 = v[0].z as i128;
    let z1 = v[1].z as i128;
    let z2 = v[2].z as i128;
    proof {
        let e78: int = 0x4000_0000_0000_0000_0000;
        let e31: int = 0x8000_0000;
        lemma_mul_bound(c1 as int, z0 as int, e78, e31);
        lemma_mul_bound(c2 as int, z1 as int, e78, e31);
        lemma_mul_bound(c3 as int, z2 as int, e78, e31);
    }
    let s = c1 * z0 + c2 * z1 + c3 * z2;
    let q = floor_div(s, den);
    proof {
        lemma_convex_depth(c1 as int, c2 as int, c3 as int, den as int, z0 as int, z1 as int, z2 as int);
        if b.den < 0 {
            assert(-(b.c1 * z0 + b.c2 * z1 + b.c3 * z2) == c1 * z0 + c2 * z1 + c3 * z2) by (nonlinear_arith)
                requires
                    c1 == -b.c1,
                    c2 == -b.c2,
                    c3 == -b.c3,
            ;
        }
    }
    q as i64
}

fn min3_exec(a: i32, b: i32, c: i32) -> (r: i64)
    ensures
        r == min3(a as int, b as int, c as int),
{
    if a <= b && a <= c {
        a as i64
    } else if b <= c {
        b as i64
    } else {
        c as i64
    }
}

fn max3_exec(a: i32, b: i32, c: i32) -> (r: i64)
    ensures
        r == max3(a as int, b as int, c as int),
{
    if a >= b && a >= c {
        a as i64
    } else if b >= c {
        b as i64
    } else {
        c as i64
    }
}

/// Whether the triangle's bounding box lies in the frame.
fn box_on_frame(t: &Triangle, width: usize, height: usize) -> (r: bool)
    ensures
        r == on_frame(*t, width as int, height as int),
{
    let v = &t.vertices;
    let sub = SUBPIXEL as i128;
    let min_x = floor_div(min3_exec(v[0].x, v[1].x, v[2].x) as i128, sub);
    let max_x = floor_div(max3_exec(v[0].x, v[1].x, v[2].x) as i128, sub);
    let min_y = floor_div(min3_exec(v[0].y, v[1].y, v[2].y) as i128, sub);
    let max_y = floor_div(max3_exec(v[0].y, v[1].y, v[2].y) as i128, sub);
    0 <= min_x && max_x < width as i128 && 0 <= min_y && max_y < height as i128
}

/// Pixel `(px, py)` has been visited by a scan of the rows `y_lo..y` of the
/// box `[x_lo, x_hi]` and of row `y` up to column `x`.
pub open spec fn scanned(px: int, py: int, x_lo: int, x_hi: int, y_lo: int, y: int, x: int) -> bool {
    (x_lo <= px <= x_hi && y_lo <= py < y) || (py == y && x_lo <= px < x)
}

// ---------------------------------------------------------------------------
// From model space to the screen
// ---------------------------------------------------------------------------

/// The clip-space coordinates of a model-space point: the model, view and
/// projection transforms applied in turn, each rounded as `mat_apply_spec`
/// says.
pub open spec fn clip_spec(projection: Mat4, view: Mat4, model: Mat4, p: Vec3) -> Seq<int> {
    mat_apply_spec(projection, mat_apply_spec(view, mat_apply_spec(model, homogeneous(p))))
}

/// The same homogeneous point with a positive `w` when `w` is negative.
pub open spec fn with_positive_w(c: Seq<int>) -> Seq<int> {
    if c[3] < 0 {
        seq![-c[0], -c[1], -c[2], -c[3]]
    } else {
        c
    }
}

/// The screen column of a clip-space point: `0.5 * width * (x / w + 1)`
/// pixels, in steps of `1 / SUBPIXEL` pixel, rounded down.
pub open spec fn screen_x(c: Seq<int>, width: int) -> int {
    let n = with_positive_w(c);
    (width * SUBPIXEL * (n[0] + n[3])) / (2 * n[3])
}

/// The screen row of a clip-space point: `0.5 * height * (y / w + 1)`
/// pixels, in steps of `1 / SUBPIXEL` pixel, rounded down.
pub open spec fn screen_y(c: Seq<int>, height: int) -> int {
    let n = with_positive_w(c);
    (height * SUBPIXEL * (n[1] + n[3])) / (2 * n[3])
}

/// The screen depth of a clip-space point: `z / w * (far - near) / 2 +
/// (far + near) / 2`, rounded down.
pub open spec fn screen_z(c: Seq<int>, z_near: int, z_far: int) -> int {
    let n = with_positive_w(c);
    (n[2] * (z_far - z_near) + n[3] * (z_far + z_near)) / (2 * n[3])
}

pub open spec fn fits_i32(v: int) -> bool {
    i32::MIN <= v <= i32::MAX
}

/// The screen position of a clip-space point, when it has one: `w` is not
/// zero and the pixel coordinates and depth fit in 32 bits.
pub open spec fn screen_vertex(c: Seq<int>, width: int, height: int, z_near: int, z_far: int) -> Option<Vec3> {
    let (x, y, z) = (screen_x(c, width), screen_y(c, height), screen_z(c, z_near, z_far));
    if c[3] != 0 && fits_i32(x) && fits_i32(y) && fits_i32(z) {
        Some(Vec3 { x: x as i32, y: y as i32, z: z as i32 })
    } else {
        None
    }
}

/// The screen position of a model-space point under the rasterizer's
/// transforms, image size and depth range.
pub open spec fn transform_vertex(r: Rasterizer, p: Vec3) -> Option<Vec3> {
    screen_vertex(
        clip_spec(r.projection_spec(), r.view_spec(), r.model_spec(), p),
        r.width_spec(),
        r.height_spec(),
        r.depth_range().0,
        r.depth_range().1,
    )
}

/// The screen-space triangle of index entry `e`, unless a vertex has no
/// screen position.
pub open spec fn assemble(r: Rasterizer, pos: Seq<Vec3>, col: Seq<Rgb>, e: Index3) -> Option<Triangle> {
    match (transform_vertex(r, pos[e.i as int]), transform_vertex(r, pos[e.j as int]), transform_vertex(r, pos[e.k as int])) {
        (Some(a), Some(b), Some(c)) => Some(
            Triangle {
                vertices: [a, b, c],
                colors: [col[e.i as int], col[e.j as int], col[e.k as int]],
                tex_coords: zeros3(),
                normals: zeros3(),
            },
        ),
        _ => None,
    }
}

/// The entry points into buffers of the given lengths.
pub open spec fn index_in_range(e: Index3, pos_len: int, col_len: int) -> bool {
    e.i < pos_len && e.j < pos_len && e.k < pos_len && e.i < col_len && e.j < col_len && e.k < col_len
}

pub open spec fn all_in_range(ind: Seq<Index3>, pos_len: int, col_len: int) -> bool {
    forall|k: int| 0 <= k < ind.len() ==> index_in_range(#[trigger] ind[k], pos_len, col_len)
}

/// The frame and depth buffers after drawing the triangles in order; an
/// entry without a screen-space triangle draws nothing.
pub open spec fn draw_spec(tris: Seq<Option<Triangle>>, width: int, height: int, fb: Seq<Rgb>, db: Seq<i64>) -> (Seq<Rgb>, Seq<i64>)
    decreases tris.len(),
{
    if tris.len() == 0 {
        (fb, db)
    } else {
        let (f, d) = draw_spec(tris.drop_last(), width, height, fb, db);
        match tris.last() {
            Some(t) => (raster_frame(t, width, height, f, d), raster_depth(t, width, height, d)),
            None => (f, d),
        }
    }
}

/// The screen-space triangles of all entries of an index buffer.
pub open spec fn assemble_all(r: Rasterizer, pos: Seq<Vec3>, ind: Seq<Index3>, col: Seq<Rgb>) -> Seq<Option<Triangle>> {
    Seq::new(ind.len(), |k: int| assemble(r, pos, col, ind[k]))
}

/// A depth buffer of `n` cells that records nothing drawn.
pub open spec fn cleared_depths(n: nat) -> Seq<i64> {
    Seq::new(n, |i: int| i64::MAX)
}

/// A frame buffer of `n` blank pixels.
pub open spec fn blank_frame(n: nat) -> Seq<Rgb> {
    Seq::new(n, |i: int| blank_spec())
}

/// The depth range of an unspecified projection: screen depth is the
/// normalized depth `z / w` itself, in fixed point.
pub open spec fn ndc_depth_range() -> (int, int) {
    (-ONE as int, ONE as int)
}

/// How many index triangles a range `start..end` gives: one per start taken
/// in steps of three.
pub open spec fn range_count(start: int, end: int) -> int {
    if start < end {
        (end - start + 2) / 3
    } else {
        0
    }
}

/// The index triangles of the range `start..end`.
pub open spec fn range_triangles(start: int, end: int) -> Seq<Index3> {
    Seq::new(
        range_count(start, end) as nat,
        |k: int| Index3 { i: (start + 3 * k) as usize, j: (start + 3 * k + 1) as usize, k: (start + 3 * k + 2) as usize },
    )
}

/// A handle to an uploaded position buffer.
#[derive(Clone, Copy, PartialEq, Eq, Structural, Debug)]
pub struct PosBufID(usize);

/// A handle to an uploaded index buffer.
#[derive(Clone, Copy, PartialEq, Eq, Structural, Debug)]
pub struct IndBufID(usize);

/// A handle to an uploaded color buffer.
#[derive(Clone, Copy, PartialEq, Eq, Structural, Debug)]
pub struct ColBufID(usize);

impl View for PosBufID {
    type V = usize;

    closed spec fn view(&self) -> usize {
        self.0
    }
}

impl View for IndBufID {
    type V = usize;

    closed spec fn view(&self) -> usize {
        self.0
    }
}

impl View for ColBufID {
    type V = usize;

    closed spec fn view(&self) -> usize {
        self.0
    }
}

impl PosBufID {
    /// The number behind the handle.
    pub fn id(&self) -> (r: usize)
        ensures
            r == self@,
    {
        self.0
    }
}

impl IndBufID {
    /// The number behind the handle.
    pub fn id(&self) -> (r: usize)
        ensures
            r == self@,
    {
        self.0
    }
}

impl ColBufID {
    /// The number behind the handle.
    pub fn id(&self) -> (r: usize)
        ensures
            r == self@,
    {
        self.0
    }
}

/// Why a draw call could not be carried out.
#[derive(Clone, Copy, PartialEq, Eq, Structural, Debug)]
pub enum LookupError {
    /// A handle names no buffer of its kind.
    UnknownHandle,
    /// An index entry points past the end of the position or color buffer.
    IndexOutOfRange,
    /// With the scan not limited to the frame, a triangle's bounding box
    /// reaches past it.
    OffScreen,
}

/// The rasterizer's state: uploaded geometry, the three transforms, the
/// depth range that goes with the projection, whether scans are limited to
/// the frame, and the frame and depth buffers of a fixed size.
pub struct Rasterizer {
    model: Mat4,
    view: Mat4,
    projection: Mat4,
    z_near: i32,
    z_far: i32,
    pos_buf: HashMap<usize, Vec<Vec3>>,
    ind_buf: HashMap<usize, Vec<Index3>>,
    col_buf: HashMap<usize, Vec<Rgb>>,
    frame_buf: Vec<Rgb>,
    depth_buf: Vec<i64>,
    width: usize,
    height: usize,
    next_id: usize,
    clamp: bool,
}

impl Rasterizer {
    pub closed spec fn width_spec(&self) -> int {
        self.width as int
    }

    pub closed spec fn height_spec(&self) -> int {
        self.height as int
    }

    /// The colors of the pixels, stored as `frame_index` says.
    pub closed spec fn frame(&self) -> Seq<Rgb> {
        self.frame_buf@
    }

    /// The depths of the pixels, stored as `frame_index` says.
    pub closed spec fn depths(&self) -> Seq<i64> {
        self.depth_buf@
    }

    /// The handle that the next upload returns.
    pub closed spec fn next_handle(&self) -> usize {
        self.next_id
    }

    pub closed spec fn positions(&self) -> Map<usize, Seq<Vec3>> {
        self.pos_buf@.map_values(|b: Vec<Vec3>| b@)
    }

    pub closed spec fn indices(&self) -> Map<usize, Seq<Index3>> {
        self.ind_buf@.map_values(|b: Vec<Index3>| b@)
    }

    pub closed spec fn colors(&self) -> Map<usize, Seq<Rgb>> {
        self.col_buf@.map_values(|b: Vec<Rgb>| b@)
    }

    pub closed spec fn model_spec(&self) -> Mat4 {
        self.model
    }

    pub closed spec fn view_spec(&self) -> Mat4 {
        self.view
    }

    pub closed spec fn projection_spec(&self) -> Mat4 {
        self.projection
    }

    /// The near and far distances that screen depth is mapped from.
    pub closed spec fn depth_range(&self) -> (int, int) {
        (self.z_near as int, self.z_far as int)
    }

    /// Whether the scan of a triangle is limited to the frame; if not, a
    /// triangle that reaches past the frame is an error.
    pub closed spec fn clamps_to_frame(&self) -> bool {
        self.clamp
    }

    /// The rasterizer's invariant: both buffers hold one entry per pixel,
    /// the image fits 32-bit coordinates, and no buffer holds a handle that
    /// is yet to be issued.
    pub closed spec fn wf(&self) -> bool {
        &&& self.width <= u32::MAX
        &&& self.height <= u32::MAX
        &&& self.frame_buf@.len() == self.width * self.height
        &&& self.depth_buf@.len() == self.width * self.height
        &&& forall|k: usize| #[trigger] self.pos_buf@.contains_key(k) ==> k < self.next_id
        &&& forall|k: usize| #[trigger] self.ind_buf@.contains_key(k) ==> k < self.next_id
        &&& forall|k: usize| #[trigger] self.col_buf@.contains_key(k) ==> k < self.next_id
    }

    /// Field by field: everything but the geometry buffers and the handle
    /// counter is the same in `self` and `other`.
    spec fn keeps_render_state(&self, other: &Rasterizer) -> bool {
        &&& self.width == other.width
        &&& self.height == other.height
        &&& self.frame_buf@ == other.frame_buf@
        &&& self.depth_buf@ == other.depth_buf@
        &&& self.model == other.model
        &&& self.view == other.view
        &&& self.projection == other.projection
        &&& self.z_near == other.z_near
        &&& self.z_far == other.z_far
        &&& self.clamp == other.clamp
    }

    /// Field by field: the geometry buffers and the handle counter are the
    /// same in `self` and `other`.
    spec fn keeps_store(&self, other: &Rasterizer) -> bool {
        &&& self.pos_buf@ == other.pos_buf@
        &&& self.ind_buf@ == other.ind_buf@
        &&& self.col_buf@ == other.col_buf@
        &&& self.next_id == other.next_id
    }

    /// Everything but the geometry buffers and the handle counter is the
    /// same in `self` and `other`.
    pub open spec fn same_render_state(&self, other: &Rasterizer) -> bool {
        &&& self.width_spec() == other.width_spec()
        &&& self.height_spec() == other.height_spec()
        &&& self.frame() == other.frame()
        &&& self.depths() == other.depths()
        &&& self.model_spec() == other.model_spec()
        &&& self.view_spec() == other.view_spec()
        &&& self.projection_spec() == other.projection_spec()
        &&& self.depth_range() == other.depth_range()
        &&& self.clamps_to_frame() == other.clamps_to_frame()
    }

    /// The geometry buffers and the handle counter are the same in `self`
    /// and `other`.
    pub open spec fn same_store(&self, other: &Rasterizer) -> bool {
        &&& self.positions() == other.positions()
        &&& self.indices() == other.indices()
        &&& self.colors() == other.colors()
        &&& self.next_handle() == other.next_handle()
    }

    /// Everything but the frame and depth buffers is the same in `self` and
    /// `other`.
    pub open spec fn same_setup(&self, other: &Rasterizer) -> bool {
        &&& self.same_store(other)
        &&& self.width_spec() == other.width_spec()
        &&& self.height_spec() == other.height_spec()
        &&& self.model_spec() == other.model_spec()
        &&& self.view_spec() == other.view_spec()
        &&& self.projection_spec() == other.projection_spec()
        &&& self.depth_range() == other.depth_range()
        &&& self.clamps_to_frame() == other.clamps_to_frame()
    }

    /// Some buffer is stored under `h`.
    pub open spec fn handle_in_use(&self, h: usize) -> bool {
        self.positions().contains_key(h) || self.indices().contains_key(h) || self.colors().contains_key(h)
    }

    /// What the invariant gives a caller: both buffers hold one entry per
    /// pixel, the image fits 32-bit coordinates, and every handle in use is
    /// below the next one to be issued.
    pub proof fn lemma_wf(&self)
        requires
            self.wf(),
        ensures
            self.frame().len() == self.width_spec() * self.height_spec(),
            self.depths().len() == self.width_spec() * self.height_spec(),
            0 <= self.width_spec() <= u32::MAX,
            0 <= self.height_spec() <= u32::MAX,
            forall|h: usize| #[trigger] self.positions().contains_key(h) ==> h < self.next_handle(),
            forall|h: usize| #[trigger] self.indices().contains_key(h) ==> h < self.next_handle(),
            forall|h: usize| #[trigger] self.colors().contains_key(h) ==> h < self.next_handle(),
            forall|h: usize| #[trigger] self.handle_in_use(h) ==> h < self.next_handle(),
    {
        assert forall|h: usize| #[trigger] self.positions().contains_key(h) implies h < self.next_handle() by {
            assert(self.pos_buf@.contains_key(h));
        }
        assert forall|h: usize| #[trigger] self.indices().contains_key(h) implies h < self.next_handle() by {
            assert(self.ind_buf@.contains_key(h));
        }
        assert forall|h: usize| #[trigger] self.colors().contains_key(h) implies h < self.next_handle() by {
            assert(self.col_buf@.contains_key(h));
        }
    }

    /// A rasterizer for a `width * height` image, with blank frame, cleared
    /// depth, identity transforms, screen depth equal to normalized depth,
    /// and no geometry.
    pub fn new(width: usize, height: usize) -> (r: Rasterizer)
        requires
            width <= u32::MAX,
            height <= u32::MAX,
            width * height <= usize::MAX,
        ensures
            r.wf(),
            r.width_spec() == width,
            r.height_spec() == height,
            r.frame() == blank_frame((width * height) as nat),
            r.depths() == cleared_depths((width * height) as nat),
            r.next_handle() == 0,
            r.positions() == Map::<usize, Seq<Vec3>>::empty(),
            r.indices() == Map::<usize, Seq<Index3>>::empty(),
            r.colors() == Map::<usize, Seq<Rgb>>::empty(),
            is_identity(r.model_spec()),
            is_identity(r.view_spec()),
            is_identity(r.projection_spec()),
            r.depth_range() == ndc_depth_range(),
            r.clamps_to_frame(),
    {
        let n = width * height;
        let mut frame_buf: Vec<Rgb> = Vec::new();
        let mut depth_buf: Vec<i64> = Vec::new();
        let mut i: usize = 0;
        while i < n
            invariant
                i <= n,
                frame_buf@ == Seq::new(i as nat, |j: int| blank_spec()),
                depth_buf@ == Seq::new(i as nat, |j: int| i64::MAX),
            decreases n - i,
        {
            frame_buf.push(Rgb::blank());
            depth_buf.push(i64::MAX);
            i += 1;
            assert(frame_buf@ =~= Seq::new(i as nat, |j: int| blank_spec()));
            assert(depth_buf@ =~= Seq::new(i as nat, |j: int| i64::MAX));
        }
        let r = Rasterizer {
            model: identity(),
            view: identity(),
            projection: identity(),
            z_near: -ONE,
            z_far: ONE,
            pos_buf: HashMap::new(),
            ind_buf: HashMap::new(),
            col_buf: HashMap::new(),
            frame_buf,
            depth_buf,
            width,
            height,
            next_id: 0,
            clamp: true,
        };
        assert(r.frame() =~= blank_frame((width * height) as nat));
        assert(r.depths() =~= cleared_depths((width * height) as nat));
        assert(r.positions() =~= Map::<usize, Seq<Vec3>>::empty());
        assert(r.indices() =~= Map::<usize, Seq<Index3>>::empty());
        assert(r.colors() =~= Map::<usize, Seq<Rgb>>::empty());
        r
    }

    /// The colors of all pixels, stored as `frame_index` says.
    pub fn frame_buf(&self) -> (r: &[Rgb])
        ensures
            r@ == self.frame(),
            self.wf() ==> r@.len() == self.width_spec() * self.height_spec(),
    {
        self.frame_buf.as_slice()
    }

    fn get_next_id(&mut self) -> (id: usize)
        requires
            old(self).next_id < usize::MAX,
        ensures
            id == old(self).next_id,
            final(self).next_id == old(self).next_id + 1,
            final(self).pos_buf == old(self).pos_buf,
            final(self).ind_buf == old(self).ind_buf,
            final(self).col_buf == old(self).col_buf,
            final(self).keeps_render_state(old(self)),
    {
        let id = self.next_id;
        self.next_id = self.next_id + 1;
        id
    }

    /// Stores a copy of `positions` under a fresh handle.
    pub fn load_positions(&mut self, positions: &[Vec3]) -> (r: PosBufID)
        requires
            old(self).wf(),
            old(self).next_handle() < usize::MAX,
        ensures
            final(self).wf(),
            r@ == old(self).next_handle(),
            forall|h: usize| #[trigger] old(self).handle_in_use(h) ==> h < r@,
            !old(self).positions().contains_key(r@),
            final(self).next_handle() == old(self).next_handle() + 1,
            final(self).positions() == old(self).positions().insert(r@, positions@),
            final(self).indices() == old(self).indices(),
            final(self).colors() == old(self).colors(),
            final(self).same_render_state(old(self)),
    {
        proof {
            old(self).lemma_wf();
        }
        let id = self.get_next_id();
        let v = vstd::slice::slice_to_vec(positions);
        self.pos_buf.insert(id, v);
        assert(self.positions() =~= old(self).positions().insert(id, positions@));
        PosBufID(id)
    }

    /// Stores a copy of `indices` under a fresh handle.
    pub fn load_indices(&mut self, indices: &[Index3]) -> (r: IndBufID)
        requires
            old(self).wf(),
            old(self).next_handle() < usize::MAX,
        ensures
            final(self).wf(),
            r@ == old(self).next_handle(),
            forall|h: usize| #[trigger] old(self).handle_in_use(h) ==> h < r@,
            !old(self).indices().contains_key(r@),
            final(self).next_handle() == old(self).next_handle() + 1,
            final(self).indices() == old(self).indices().insert(r@, indices@),
            final(self).positions() == old(self).positions(),
            final(self).colors() == old(self).colors(),
            final(self).same_render_state(old(self)),
    {
        proof {
            old(self).lemma_wf();
        }
        let id = self.get_next_id();
        let v = vstd::slice::slice_to_vec(indices);
        self.ind_buf.insert(id, v);
        assert(self.indices() =~= old(self).indices().insert(id, indices@));
        IndBufID(id)
    }

    /// Stores, under a fresh handle, the index triangles
    /// `(s, s+1, s+2), (s+3, s+4, s+5), ...` for the starts `s` of the range
    /// taken in steps of three.
    pub fn load_indices_from_range(&mut self, index_range: core::ops::Range<usize>) -> (r: IndBufID)
        requires
            old(self).wf(),
            old(self).next_handle() < usize::MAX,
            index_range.end < usize::MAX,
        ensures
            final(self).wf(),
            r@ == old(self).next_handle(),
            forall|h: usize| #[trigger] old(self).handle_in_use(h) ==> h < r@,
            !old(self).indices().contains_key(r@),
            final(self).next_handle() == old(self).next_handle() + 1,
            final(self).indices() == old(self).indices().insert(
                r@,
                range_triangles(index_range.start as int, index_range.end as int),
            ),
            final(self).positions() == old(self).positions(),
            final(self).colors() == old(self).colors(),
            final(self).same_render_state(old(self)),
    {
        proof {
            old(self).lemma_wf();
        }
        let id = self.get_next_id();
        let start = index_range.start;
        let end = index_range.end;
        let mut indices: Vec<Index3> = Vec::new();
        let mut i = start;
        let ghost count = range_count(start as int, end as int);
        while i < end
            invariant
                start <= i,
                end < usize::MAX,
                i < end ==> (i - start) % 3 == 0,
                i >= end ==> indices@.len() == count,
                i < end ==> indices@.len() == (i - start) / 3,
                count == range_count(start as int, end as int),
                forall|k: int| 0 <= k < indices@.len() ==> #[trigger] indices@[k] == (Index3 {
                    i: (start + 3 * k) as usize,
                    j: (start + 3 * k + 1) as usize,
                    k: (start + 3 * k + 2) as usize,
                }),
            decreases end - i,
        {
            indices.push(Index3 { i, j: i + 1, k: i + 2 });
            if end - i <= 3 {
                i = end;
            } else {
                i = i + 3;
            }
        }
        assert(indices@ =~= range_triangles(start as int, end as int));
        self.ind_buf.insert(id, indices);
        assert(self.indices() =~= old(self).indices().insert(id, range_triangles(start as int, end as int)));
        IndBufID(id)
    }

    /// Stores a copy of `colors` under a fresh handle.
    pub fn load_colors(&mut self, colors: &[Rgb]) -> (r: ColBufID)
        requires
            old(self).wf(),
            old(self).next_handle() < usize::MAX,
        ensures
            final(self).wf(),
            r@ == old(self).next_handle(),
            forall|h: usize| #[trigger] old(self).handle_in_use(h) ==> h < r@,
            !old(self).colors().contains_key(r@),
            final(self).next_handle() == old(self).next_handle() + 1,
            final(self).colors() == old(self).colors().insert(r@, colors@),
            final(self).positions() == old(self).positions(),
            final(self).indices() == old(self).indices(),
            final(self).same_render_state(old(self)),
    {
        proof {
            old(self).lemma_wf();
        }
        let id = self.get_next_id();
        let v = vstd::slice::slice_to_vec(colors);
        self.col_buf.insert(id, v);
        assert(self.colors() =~= old(self).colors().insert(id, colors@));
        ColBufID(id)
    }

    /// Uploads a triangle's vertices, the index triangle `(0, 1, 2)` and its
    /// colors, in that order.
    pub fn load_triangle(&mut self, triangle: &Triangle) -> (r: (PosBufID, IndBufID, ColBufID))
        requires
            old(self).wf(),
            old(self).next_handle() < usize::MAX - 2,
        ensures
            final(self).wf(),
            r.0@ == old(self).next_handle(),
            forall|h: usize| #[trigger] old(self).handle_in_use(h) ==> h < r.0@,
            r.1@ == old(self).next_handle() + 1,
            r.2@ == old(self).next_handle() + 2,
            final(self).next_handle() == old(self).next_handle() + 3,
            final(self).positions() == old(self).positions().insert(r.0@, triangle.vertices@),
            final(self).indices() == old(self).indices().insert(r.1@, seq![Index3 { i: 0, j: 1, k: 2 }]),
            final(self).colors() == old(self).colors().insert(r.2@, triangle.colors@),
            final(self).same_render_state(old(self)),
    {
        proof {
            old(self).lemma_wf();
        }
        let pos_buf_id = self.load_positions(triangle.vertices.as_slice());
        let ind_buf_id = self.load_indices_from_range(0..3);
        assert(range_triangles(0, 3) =~= seq![Index3 { i: 0, j: 1, k: 2 }]);
        let col_buf_id = self.load_colors(triangle.colors.as_slice());
        (pos_buf_id, ind_buf_id, col_buf_id)
    }

    /// Makes every pixel blank.
    pub fn clear_frame_buf(&mut self)
        requires
            old(self).wf(),
        ensures
            final(self).wf(),
            final(self).frame() == blank_frame(old(self).frame().len()),
            final(self).depths() == old(self).depths(),
            final(self).same_setup(old(self)),
    {
        let n = self.frame_buf.len();
        let mut i: usize = 0;
        while i < n
            invariant
                i <= n,
                n == old(self).frame_buf@.len(),
                self.frame_buf@.len() == n,
                forall|j: int| 0 <= j < i ==> #[trigger] self.frame_buf@[j] == blank_spec(),
                self.depth_buf == old(self).depth_buf,
                self.keeps_setup(old(self)),
                old(self).wf(),
            decreases n - i,
        {
            self.frame_buf.set(i, Rgb::blank());
            i += 1;
        }
        assert(self.frame() =~= blank_frame(old(self).frame().len()));
    }

    /// Resets every depth to the "nothing drawn" value `i64::MAX`.
    pub fn clear_depth_buf(&mut self)
        requires
            old(self).wf(),
        ensures
            final(self).wf(),
            final(self).depths() == cleared_depths(old(self).depths().len()),
            final(self).frame() == old(self).frame(),
            final(self).same_setup(old(self)),
    {
        let n = self.depth_buf.len();
        let mut i: usize = 0;
        while i < n
            invariant
                i <= n,
                n == old(self).depth_buf@.len(),
                self.depth_buf@.len() == n,
                forall|j: int| 0 <= j < i ==> #[trigger] self.depth_buf@[j] == i64::MAX,
                self.frame_buf == old(self).frame_buf,
                self.keeps_setup(old(self)),
                old(self).wf(),
            decreases n - i,
        {
            self.depth_buf.set(i, i64::MAX);
            i += 1;
        }
        assert(self.depths() =~= cleared_depths(old(self).depths().len()));
    }

    /// Field by field: everything but the frame and depth buffers is the
    /// same in `self` and `other`.
    spec fn keeps_setup(&self, other: &Rasterizer) -> bool {
        &&& self.keeps_store(other)
        &&& self.width == other.width
        &&& self.height == other.height
        &&& self.model == other.model
        &&& self.view == other.view
        &&& self.projection == other.projection
        &&& self.z_near == other.z_near
        &&& self.z_far == other.z_far
        &&& self.clamp == other.clamp
    }

    /// Sets the model transform.
    pub fn set_model(&mut self, model: Mat4)
        ensures
            final(self).model_spec() == model,
            final(self).view_spec() == old(self).view_spec(),
            final(self).projection_spec() == old(self).projection_spec(),
            final(self).depth_range() == old(self).depth_range(),
            final(self).same_store(old(self)),
            final(self).frame() == old(self).frame(),
            final(self).depths() == old(self).depths(),
            final(self).width_spec() == old(self).width_spec(),
            final(self).height_spec() == old(self).height_spec(),
            final(self).clamps_to_frame() == old(self).clamps_to_frame(),
            old(self).wf() ==> final(self).wf(),
    {
        self.model = model;
    }

    /// Sets the view transform.
    pub fn set_view(&mut self, view: Mat4)
        ensures
            final(self).view_spec() == view,
            final(self).model_spec() == old(self).model_spec(),
            final(self).projection_spec() == old(self).projection_spec(),
            final(self).depth_range() == old(self).depth_range(),
            final(self).same_store(old(self)),
            final(self).frame() == old(self).frame(),
            final(self).depths() == old(self).depths(),
            final(self).width_spec() == old(self).width_spec(),
            final(self).height_spec() == old(self).height_spec(),
            final(self).clamps_to_frame() == old(self).clamps_to_frame(),
            old(self).wf() ==> final(self).wf(),
    {
        self.view = view;
    }

    /// Sets the projection transform. Nothing is known of its near and far
    /// distances, so screen depth becomes the normalized depth.
    pub fn set_projection(&mut self, projection: Mat4)
        ensures
            final(self).projection_spec() == projection,
            final(self).model_spec() == old(self).model_spec(),
            final(self).view_spec() == old(self).view_spec(),
            final(self).depth_range() == ndc_depth_range(),
            final(self).same_store(old(self)),
            final(self).frame() == old(self).frame(),
            final(self).depths() == old(self).depths(),
            final(self).width_spec() == old(self).width_spec(),
            final(self).height_spec() == old(self).height_spec(),
            final(self).clamps_to_frame() == old(self).clamps_to_frame(),
            old(self).wf() ==> final(self).wf(),
    {
        self.projection = projection;
        self.z_near = -ONE;
        self.z_far = ONE;
    }

    /// Sets the perspective projection of `get_projection_matrix` and maps
    /// screen depth from the same near and far distances.
    pub fn set_perspective(&mut self, cot_half_fov: i32, aspect_ratio: i32, z_near: i32, z_far: i32)
        requires
            aspect_ratio > 0,
            0 < z_near < z_far,
            fits_i32(projection_entries(cot_half_fov as int, aspect_ratio as int, z_near as int, z_far as int).0),
            fits_i32(projection_entries(cot_half_fov as int, aspect_ratio as int, z_near as int, z_far as int).2),
            fits_i32(projection_entries(cot_half_fov as int, aspect_ratio as int, z_near as int, z_far as int).3),
        ensures
            rows(final(self).projection_spec()) == projection_spec(
                cot_half_fov as int,
                aspect_ratio as int,
                z_near as int,
                z_far as int,
            ),
            final(self).depth_range() == (z_near as int, z_far as int),
            final(self).model_spec() == old(self).model_spec(),
            final(self).view_spec() == old(self).view_spec(),
            final(self).same_store(old(self)),
            final(self).frame() == old(self).frame(),
            final(self).depths() == old(self).depths(),
            final(self).width_spec() == old(self).width_spec(),
            final(self).height_spec() == old(self).height_spec(),
            final(self).clamps_to_frame() == old(self).clamps_to_frame(),
            old(self).wf() ==> final(self).wf(),
    {
        self.projection = get_projection_matrix(cot_half_fov, aspect_ratio, z_near, z_far);
        self.z_near = z_near;
        self.z_far = z_far;
    }

    /// Limits the scan of each triangle to the frame (`true`, the default),
    /// or makes `draw` report a triangle that reaches past the frame
    /// (`false`), as a scan of the whole bounding box would touch pixels
    /// that do not exist.
    pub fn set_clamp_to_frame(&mut self, clamp: bool)
        ensures
            final(self).clamps_to_frame() == clamp,
            final(self).model_spec() == old(self).model_spec(),
            final(self).view_spec() == old(self).view_spec(),
            final(self).projection_spec() == old(self).projection_spec(),
            final(self).depth_range() == old(self).depth_range(),
            final(self).same_store(old(self)),
            final(self).frame() == old(self).frame(),
            final(self).depths() == old(self).depths(),
            final(self).width_spec() == old(self).width_spec(),
            final(self).height_spec() == old(self).height_spec(),
            old(self).wf() ==> final(self).wf(),
    {
        self.clamp = clamp;
    }

    /// The screen position of a model-space point.
    fn to_screen(&self, p: Vec3) -> (r: Option<Vec3>)
        requires
            self.wf(),
        ensures
            r == transform_vertex(*self, p),
    {
        let v = Vec4 { x: p.x as i128, y: p.y as i128, z: p.z as i128, w: ONE as i128 };
        assert(v@ =~= homogeneous(p));
        let a = mat_apply(&self.model, &v, Ghost(0x8000_0000));
        let b = mat_apply(&self.view, &a, Ghost(0x1_0000_0000_0000));
        let c = mat_apply(&self.projection, &b, Ghost(0x2_0000_0000_0000_0000));
        let ghost cs = c@;
        assert(cs == clip_spec(self.projection, self.view, self.model, p));
        assert(cs[0] == c.x && cs[1] == c.y && cs[2] == c.z && cs[3] == c.w);
        if c.w == 0 {
            return None;
        }
        let (nx, ny, nz, nw) = if c.w < 0 {
            (-c.x, -c.y, -c.z, -c.w)
        } else {
            (c.x, c.y, c.z, c.w)
        };
        let ghost n = with_positive_w(cs);
        assert(n[0] == nx && n[1] == ny && n[2] == nz && n[3] == nw);
        let e82: i128 = 0x4_0000_0000_0000_0000_0000;
        assert(-e82 <= nx <= e82 && -e82 <= ny <= e82 && -e82 <= nz <= e82 && 0 < nw <= e82);
        let width = self.width as i128 * SUBPIXEL as i128;
        let height = self.height as i128 * SUBPIXEL as i128;
        let near = self.z_near as i128;
        let far = self.z_far as i128;
        proof {
            let e32: int = 0x1_0000_0000;
            let e40: int = 0x100_0000_0000;
            let e83: int = 0x8_0000_0000_0000_0000_0000;
            lemma_mul_bound(width as int, (nx + nw) as int, e40, e83);
            lemma_mul_bound(height as int, (ny + nw) as int, e40, e83);
            lemma_mul_bound(nz as int, (far - near) as int, e82 as int, e32);
            lemma_mul_bound(nw as int, (far + near) as int, e82 as int, e32);
        }
        let sx = floor_div(width * (nx + nw), 2 * nw);
        let sy = floor_div(height * (ny + nw), 2 * nw);
        let sz = floor_div(nz * (far - near) + nw * (far + near), 2 * nw);
        if sx < i32::MIN as i128 || sx > i32::MAX as i128 || sy < i32::MIN as i128 || sy > i32::MAX as i128
            || sz < i32::MIN as i128 || sz > i32::MAX as i128 {
            return None;
        }
        Some(Vec3 { x: sx as i32, y: sy as i32, z: sz as i32 })
    }

    /// Draws every triangle of the index buffer, in order, with the position
    /// and color buffers: each vertex is transformed to the screen and the
    /// triangle is scan-converted with the depth test, as
    /// `rasterize_triangle` says. An entry whose vertices do not all have a
    /// screen position is left out. Unknown handles and entries that point
    /// past a buffer are reported before anything is drawn. Where the scan is
    /// not limited to the frame, the first triangle that reaches past it
    /// stops the call, with the triangles before it drawn.
    pub fn draw(&mut self, pos_id: PosBufID, ind_id: IndBufID, col_id: ColBufID) -> (r: Result<(), LookupError>)
        requires
            old(self).wf(),
        ensures
            final(self).wf(),
            final(self).same_setup(old(self)),
            !(old(self).positions().contains_key(pos_id@) && old(self).indices().contains_key(ind_id@)
                && old(self).colors().contains_key(col_id@)) ==> r == Err::<(), LookupError>(
                LookupError::UnknownHandle,
            ),
            old(self).positions().contains_key(pos_id@) && old(self).indices().contains_key(ind_id@)
                && old(self).colors().contains_key(col_id@) ==> {
                let pos = old(self).positions()[pos_id@];
                let ind = old(self).indices()[ind_id@];
                let col = old(self).colors()[col_id@];
                let tris = assemble_all(*old(self), pos, ind, col);
                let w = old(self).width_spec();
                let h = old(self).height_spec();
                if all_in_range(ind, pos.len() as int, col.len() as int) {
                    if old(self).clamps_to_frame() || forall|k: int| 0 <= k < tris.len() ==> drawable(#[trigger] tris[k], w, h) {
                        &&& r == Ok::<(), LookupError>(())
                        &&& (final(self).frame(), final(self).depths()) == draw_spec(tris, w, h, old(self).frame(), old(self).depths())
                    } else {
                        &&& r == Err::<(), LookupError>(LookupError::OffScreen)
                        &&& exists|k: int| #[trigger] first_off_frame(tris, w, h, k) && (final(self).frame(), final(self).depths()) == draw_spec(tris.take(k), w, h, old(self).frame(), old(self).depths())
                    }
                } else {
                    r == Err::<(), LookupError>(LookupError::IndexOutOfRange)
                }
            },
            r != Err::<(), LookupError>(LookupError::OffScreen) && r.is_err() ==> final(self).frame() == old(self).frame()
                && final(self).depths() == old(self).depths(),
    {
        let ghost s0 = *self;
        let buf = match self.pos_buf.get(&pos_id.0) {
            Some(b) => b,
            None => {
                return Err(LookupError::UnknownHandle);
            },
        };
        let ind = match self.ind_buf.get(&ind_id.0) {
            Some(b) => b,
            None => {
                return Err(LookupError::UnknownHandle);
            },
        };
        let col = match self.col_buf.get(&col_id.0) {
            Some(b) => b,
            None => {
                return Err(LookupError::UnknownHandle);
            },
        };
        let ghost pos_s = buf@;
        let ghost ind_s = ind@;
        let ghost col_s = col@;
        assert(pos_s == s0.positions()[pos_id@]);
        assert(ind_s == s0.indices()[ind_id@]);
        assert(col_s == s0.colors()[col_id@]);
        assert(s0.positions().contains_key(pos_id@));
        assert(s0.indices().contains_key(ind_id@));
        assert(s0.colors().contains_key(col_id@));
        let mut k: usize = 0;
        while k < ind.len()
            invariant
                k <= ind@.len(),
                forall|m: int| 0 <= m < k ==> index_in_range(#[trigger] ind@[m], buf@.len() as int, col@.len() as int),
                ind@ == ind_s,
                buf@ == pos_s,
                col@ == col_s,
                s0.positions().contains_key(pos_id@),
                s0.indices().contains_key(ind_id@),
                s0.colors().contains_key(col_id@),
                pos_s == s0.positions()[pos_id@],
                ind_s == s0.indices()[ind_id@],
                col_s == s0.colors()[col_id@],
                s0 == *self,
                s0.wf(),
            decreases ind@.len() - k,
        {
            let e = ind[k];
            if !(e.i < buf.len() && e.j < buf.len() && e.k < buf.len() && e.i < col.len() && e.j < col.len()
                && e.k < col.len()) {
                return Err(LookupError::IndexOutOfRange);
            }
            k += 1;
        }
        let ghost tris = assemble_all(s0, pos_s, ind_s, col_s);
        let mut k: usize = 0;
        while k < ind.len()
            invariant
                k <= ind@.len(),
                ind@ == ind_s,
                buf@ == pos_s,
                col@ == col_s,
                tris == assemble_all(s0, pos_s, ind_s, col_s),
                all_in_range(ind_s, pos_s.len() as int, col_s.len() as int),
                !s0.clamp ==> forall|m: int| 0 <= m < k ==> drawable(#[trigger] tris[m], s0.width as int, s0.height as int),
                s0.positions().contains_key(pos_id@),
                s0.indices().contains_key(ind_id@),
                s0.colors().contains_key(col_id@),
                pos_s == s0.positions()[pos_id@],
                ind_s == s0.indices()[ind_id@],
                col_s == s0.colors()[col_id@],
                s0 == *old(self),
                s0.wf(),
                self.wf(),
                self.keeps_setup(&s0),
                (self.frame(), self.depths()) == draw_spec(
                    tris.take(k as int),
                    s0.width_spec(),
                    s0.height_spec(),
                    s0.frame(),
                    s0.depths(),
                ),
            decreases ind@.len() - k,
        {
            let e = ind[k];
            assert(index_in_range(ind_s[k as int], pos_s.len() as int, col_s.len() as int));
            let a = self.to_screen(buf[e.i]);
            let b = self.to_screen(buf[e.j]);
            let c = self.to_screen(buf[e.k]);
            assert(tris.take(k + 1).drop_last() =~= tris.take(k as int));
            assert(transform_vertex(*self, buf@[e.i as int]) == transform_vertex(s0, buf@[e.i as int]));
            assert(transform_vertex(*self, buf@[e.j as int]) == transform_vertex(s0, buf@[e.j as int]));
            assert(transform_vertex(*self, buf@[e.k as int]) == transform_vertex(s0, buf@[e.k as int]));
            match (a, b, c) {
                (Some(a), Some(b), Some(c)) => {
                    let zero = Vec3::new(0, 0, 0);
                    let t = Triangle {
                        vertices: [a, b, c],
                        colors: [col[e.i], col[e.j], col[e.k]],
                        tex_coords: [zero, zero, zero],
                        normals: [zero, zero, zero],
                    };
                    assert(tris[k as int] == Some(t));
                    if !self.clamp && !box_on_frame(&t, self.width, self.height) {
                        let ghost (w, h) = (s0.width_spec(), s0.height_spec());
                        assert(first_off_frame(tris, w, h, k as int));
                        return Err(LookupError::OffScreen);
                    }
                    Rasterizer::rasterize_triangle(
                        &mut self.frame_buf,
                        &mut self.depth_buf,
                        self.width,
                        self.height,
                        &t,
                    );
                },
                _ => {
                    assert(tris[k as int].is_none());
                },
            }
            k += 1;
        }
        assert(tris.take(ind@.len() as int) =~= tris);
        Ok(())
    }

    /// Draws one screen-space triangle: every pixel of the frame that it
    /// covers and where it is nearer than the stored depth gets its depth
    /// and the color of vertex 0. The scan is limited to the frame.
    pub fn rasterize_triangle(
        frame_buf: &mut Vec<Rgb>,
        depth_buf: &mut Vec<i64>,
        width: usize,
        height: usize,
        triangle: &Triangle,
    )
        requires
            old(frame_buf)@.len() == width * height,
            old(depth_buf)@.len() == width * height,
            width <= u32::MAX,
            height <= u32::MAX,
        ensures
            final(depth_buf)@ == raster_depth(*triangle, width as int, height as int, old(depth_buf)@),
            final(frame_buf)@ == raster_frame(
                *triangle,
                width as int,
                height as int,
                old(frame_buf)@,
                old(depth_buf)@,
            ),
    {
        let ghost f0 = frame_buf@;
        let ghost d0 = depth_buf@;
        let ghost t = *triangle;
        let ghost w = width as int;
        let ghost h = height as int;
        let n = frame_buf.len();
        if width == 0 || height == 0 {
            proof {
                assert(n == 0) by (nonlinear_arith)
                    requires
                        n == width * height,
                        width == 0 || height == 0,
                ;
            }
            assert(depth_buf@ =~= raster_depth(t, w, h, d0));
            assert(frame_buf@ =~= raster_frame(t, w, h, f0, d0));
            return;
        }
        let v = &triangle.vertices;
        let sub = SUBPIXEL as i128;
        let min_x = floor_div(min3_exec(v[0].x, v[1].x, v[2].x) as i128, sub) as i64;
        let max_x = floor_div(max3_exec(v[0].x, v[1].x, v[2].x) as i128, sub) as i64;
        let min_y = floor_div(min3_exec(v[0].y, v[1].y, v[2].y) as i128, sub) as i64;
        let max_y = floor_div(max3_exec(v[0].y, v[1].y, v[2].y) as i128, sub) as i64;
        let w1 = (width - 1) as i64;
        let h1 = (height - 1) as i64;
        let x_lo: i64 = if min_x < 0 { 0 } else { min_x };
        let x_hi: i64 = if max_x > w1 { w1 } else { max_x };
        let y_lo: i64 = if min_y < 0 { 0 } else { min_y };
        let y_hi: i64 = if max_y > h1 { h1 } else { max_y };
        proof {
            assert forall|i: int| 0 <= i < n && !scanned(
                column_of(i, w),
                row_of(i, w, h),
                x_lo as int,
                x_hi as int,
                y_lo as int,
                y_hi + 1,
                x_lo as int,
            ) implies !covers(t.vertices@, w, h, column_of(i, w), row_of(i, w, h)) by {}
        }
        if x_lo > x_hi || y_lo > y_hi {
            assert(depth_buf@ =~= raster_depth(t, w, h, d0));
            assert(frame_buf@ =~= raster_frame(t, w, h, f0, d0));
            return;
        }
        let mut y = y_lo as usize;
        while y <= y_hi as usize
            invariant
                frame_buf@.len() == n,
                depth_buf@.len() == n,
                n == w * h,
                f0.len() == n,
                d0.len() == n,
                t == *triangle,
                v == &triangle.vertices,
                w == width,
                h == height,
                0 < width <= u32::MAX,
                0 < height <= u32::MAX,
                0 <= x_lo <= x_hi < width,
                0 <= y_lo <= y_hi < height,
                x_lo >= min3(v[0].x as int, v[1].x as int, v[2].x as int) / (SUBPIXEL as int),
                x_hi <= max3(v[0].x as int, v[1].x as int, v[2].x as int) / (SUBPIXEL as int),
                y_lo >= min3(v[0].y as int, v[1].y as int, v[2].y as int) / (SUBPIXEL as int),
                y_hi <= max3(v[0].y as int, v[1].y as int, v[2].y as int) / (SUBPIXEL as int),
                y_lo <= y <= y_hi + 1,
                forall|i: int|
                    0 <= i < n ==> #[trigger] depth_buf@[i] == if scanned(
                        column_of(i, w),
                        row_of(i, w, h),
                        x_lo as int,
                        x_hi as int,
                        y_lo as int,
                        y as int,
                        x_lo as int,
                    ) {
                        pixel_depth_after(t, w, h, column_of(i, w), row_of(i, w, h), d0[i])
                    } else {
                        d0[i]
                    },
                forall|i: int|
                    0 <= i < n ==> #[trigger] frame_buf@[i] == if scanned(
                        column_of(i, w),
                        row_of(i, w, h),
                        x_lo as int,
                        x_hi as int,
                        y_lo as int,
                        y as int,
                        x_lo as int,
                    ) {
                        pixel_color_after(t, w, h, column_of(i, w), row_of(i, w, h), d0[i], f0[i])
                    } else {
                        f0[i]
                    },
            decreases y_hi + 1 - y,
        {
            let mut x = x_lo as usize;
            while x <= x_hi as usize
                invariant
                    frame_buf@.len() == n,
                    depth_buf@.len() == n,
                    n == w * h,
                    f0.len() == n,
                    d0.len() == n,
                    t == *triangle,
                    v == &triangle.vertices,
                    w == width,
                    h == height,
                    0 < width <= u32::MAX,
                    0 < height <= u32::MAX,
                    0 <= x_lo <= x_hi < width,
                    0 <= y_lo <= y <= y_hi < height,
                    x_lo >= min3(v[0].x as int, v[1].x as int, v[2].x as int) / (SUBPIXEL as int),
                    x_hi <= max3(v[0].x as int, v[1].x as int, v[2].x as int) / (SUBPIXEL as int),
                    y_lo >= min3(v[0].y as int, v[1].y as int, v[2].y as int) / (SUBPIXEL as int),
                    y_hi <= max3(v[0].y as int, v[1].y as int, v[2].y as int) / (SUBPIXEL as int),
                    x_lo <= x <= x_hi + 1,
                    forall|i: int|
                        0 <= i < n ==> #[trigger] depth_buf@[i] == if scanned(
                            column_of(i, w),
                            row_of(i, w, h),
                            x_lo as int,
                            x_hi as int,
                            y_lo as int,
                            y as int,
                            x as int,
                        ) {
                            pixel_depth_after(t, w, h, column_of(i, w), row_of(i, w, h), d0[i])
                        } else {
                            d0[i]
                        },
                    forall|i: int|
                        0 <= i < n ==> #[trigger] frame_buf@[i] == if scanned(
                            column_of(i, w),
                            row_of(i, w, h),
                            x_lo as int,
                            x_hi as int,
                            y_lo as int,
                            y as int,
                            x as int,
                        ) {
                            pixel_color_after(t, w, h, column_of(i, w), row_of(i, w, h), d0[i], f0[i])
                        } else {
                            f0[i]
                        },
                decreases x_hi + 1 - x,
            {
                let k = get_index(x, y, width, height);
                proof {
                    lemma_frame_index_of_pixel(x as int, y as int, w, h);
                }
                assert(x * 256 <= 0x100_0000_0000 && y * 256 <= 0x100_0000_0000) by (nonlinear_arith)
                    requires
                        x < 0x1_0000_0000,
                        y < 0x1_0000_0000,
                ;
                let b = compute_barycentric_2_d(x as i64 * SUBPIXEL as i64, y as i64 * SUBPIXEL as i64, v);
                let ghost before_d = depth_buf@;
                let ghost before_f = frame_buf@;
                if b.is_inside() {
                    let z = interpolate_depth(&b, v);
                    if z < depth_buf[k] {
                        depth_buf.set(k, z);
                        frame_buf.set(k, triangle.colors[0]);
                    }
                }
                proof {
                    assert(pixel_depth(x as int, y as int, v@) == weighted_depth(
                        b.c1 as int,
                        b.c2 as int,
                        b.c3 as int,
                        b.den as int,
                        v@,
                    ));
                    assert forall|i: int| 0 <= i < n implies #[trigger] depth_buf@[i] == if scanned(
                        column_of(i, w),
                        row_of(i, w, h),
                        x_lo as int,
                        x_hi as int,
                        y_lo as int,
                        y as int,
                        x + 1,
                    ) {
                        pixel_depth_after(t, w, h, column_of(i, w), row_of(i, w, h), d0[i])
                    } else {
                        d0[i]
                    } by {
                        lemma_pixel_of_frame_index(i, w, h);
                        if i != k {
                            assert(column_of(i, w) != x || row_of(i, w, h) != y);
                            assert(before_d[i] == depth_buf@[i]);
                        }
                    }
                    assert forall|i: int| 0 <= i < n implies #[trigger] frame_buf@[i] == if scanned(
                        column_of(i, w),
                        row_of(i, w, h),
                        x_lo as int,
                        x_hi as int,
                        y_lo as int,
                        y as int,
                        x + 1,
                    ) {
                        pixel_color_after(t, w, h, column_of(i, w), row_of(i, w, h), d0[i], f0[i])
                    } else {
                        f0[i]
                    } by {
                        lemma_pixel_of_frame_index(i, w, h);
                        if i != k {
                            assert(column_of(i, w) != x || row_of(i, w, h) != y);
                            assert(before_f[i] == frame_buf@[i]);
                        }
                    }
                }
                x += 1;
            }
            proof {
                assert forall|i: int| 0 <= i < n implies scanned(
                    column_of(i, w),
                    row_of(i, w, h),
                    x_lo as int,
                    x_hi as int,
                    y_lo as int,
                    y as int,
                    x as int,
                ) == scanned(
                    column_of(i, w),
                    row_of(i, w, h),
                    x_lo as int,
                    x_hi as int,
                    y_lo as int,
                    y + 1,
                    x_lo as int,
                ) by {}
            }
            y += 1;
        }
        proof {
            assert forall|i: int| 0 <= i < n && !scanned(
                column_of(i, w),
                row_of(i, w, h),
                x_lo as int,
                x_hi as int,
                y_lo as int,
                y as int,
                x_lo as int,
            ) implies !covers(t.vertices@, w, h, column_of(i, w), row_of(i, w, h)) by {}
        }
        assert(depth_buf@ =~= raster_depth(t, w, h, d0));
        assert(frame_buf@ =~= raster_frame(t, w, h, f0, d0));
    }
}

} // verus!
