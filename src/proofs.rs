//! Facts about the rasterizer that relate several operations or hold for
//! all inputs, proved from the specifications of `rasterizer`.
use vstd::prelude::*;
use crate::color::Rgb;
use crate::rasterizer::{
    Rasterizer, assemble, draw_spec, bary_den, bary_w0, cleared_depths, depth_passes, bary_w1, bary_w2, column_of, covers, depth_spec, inside_spec,
    lemma_depth_between_vertices, pixel_depth, raster_depth, SUBPIXEL, raster_frame, row_of,
};
use crate::triangle::Triangle;
use crate::utils::{Index3, Vec3};

verus! {

/// The weights of vertices 0, 1 and 2 add up to the common denominator, and
/// they give the point back: `den * p == c1 * v0 + c2 * v1 + c3 * v2` in x
/// and in y.
pub proof fn lemma_barycentric_sum_and_point(x: int, y: int, v: Seq<Vec3>)
    requires
        v.len() == 3,
    ensures
        bary_w0(x, y, v) + bary_w1(x, y, v) + bary_w2(x, y, v) == bary_den(v),
        bary_den(v) * x == bary_w0(x, y, v) * v[0].x + bary_w1(x, y, v) * v[1].x + bary_w2(x, y, v) * v[2].x,
        bary_den(v) * y == bary_w0(x, y, v) * v[0].y + bary_w1(x, y, v) * v[1].y + bary_w2(x, y, v) * v[2].y,
{
    let (x0, y0, x1, y1, x2, y2) = (
        v[0].x as int,
        v[0].y as int,
        v[1].x as int,
        v[1].y as int,
        v[2].x as int,
        v[2].y as int,
    );
    let (ax, ay, bx, by, ex, ey) = (x1 - x0, y1 - y0, x2 - x0, y2 - y0, x - x0, y - y0);
    let d = bary_den(v);
    let c2 = bary_w1(x, y, v);
    let c3 = bary_w2(x, y, v);
    lemma_weights_rebuild(ax, ay, bx, by, ex, ey);
    assert(d * x == d * x0 + d * ex) by (nonlinear_arith)
        requires
            ex == x - x0,
    ;
    assert(d * y == d * y0 + d * ey) by (nonlinear_arith)
        requires
            ey == y - y0,
    ;
    assert((d - c2 - c3) * x0 + c2 * x1 + c3 * x2 == d * x0 + c2 * ax + c3 * bx) by (nonlinear_arith)
        requires
            ax == x1 - x0,
            bx == x2 - x0,
    ;
    assert((d - c2 - c3) * y0 + c2 * y1 + c3 * y2 == d * y0 + c2 * ay + c3 * by) by (nonlinear_arith)
        requires
            ay == y1 - y0,
            by == y2 - y0,
    ;
}

/// With edge vectors `(ax, ay)`, `(bx, by)` and the offset `(ex, ey)` from
/// vertex 0, the two edge weights rebuild the offset times the area.
proof fn lemma_weights_rebuild(ax: int, ay: int, bx: int, by: int, ex: int, ey: int)
    ensures
        (ax * by - bx * ay) * ex == (ex * by - bx * ey) * ax + (ax * ey - ex * ay) * bx,
        (ax * by - bx * ay) * ey == (ex * by - bx * ey) * ay + (ax * ey - ex * ay) * by,
{
    assert((ax * by - bx * ay) * ex == ax * by * ex - bx * ay * ex) by (nonlinear_arith);
    assert((ex * by - bx * ey) * ax == ex * by * ax - bx * ey * ax) by (nonlinear_arith);
    assert((ax * ey - ex * ay) * bx == ax * ey * bx - ex * ay * bx) by (nonlinear_arith);
    assert(ax * by * ex - bx * ay * ex == ex * by * ax - bx * ey * ax + ax * ey * bx - ex * ay * bx) by (nonlinear_arith);
    assert((ax * by - bx * ay) * ey == ax * by * ey - bx * ay * ey) by (nonlinear_arith);
    assert((ex * by - bx * ey) * ay == ex * by * ay - bx * ey * ay) by (nonlinear_arith);
    assert((ax * ey - ex * ay) * by == ax * ey * by - ex * ay * by) by (nonlinear_arith);
    assert(ax * by * ey - bx * ay * ey == ex * by * ay - bx * ey * ay + ax * ey * by - ex * ay * by) by (nonlinear_arith);
}

/// At the vertices themselves the weights are `(1, 0, 0)`, `(0, 1, 0)` and
/// `(0, 0, 1)`.
pub proof fn lemma_barycentric_at_vertices(v: Seq<Vec3>)
    requires
        v.len() == 3,
    ensures
        bary_w0(v[0].x as int, v[0].y as int, v) == bary_den(v),
        bary_w1(v[0].x as int, v[0].y as int, v) == 0,
        bary_w2(v[0].x as int, v[0].y as int, v) == 0,
        bary_w0(v[1].x as int, v[1].y as int, v) == 0,
        bary_w1(v[1].x as int, v[1].y as int, v) == bary_den(v),
        bary_w2(v[1].x as int, v[1].y as int, v) == 0,
        bary_w0(v[2].x as int, v[2].y as int, v) == 0,
        bary_w1(v[2].x as int, v[2].y as int, v) == 0,
        bary_w2(v[2].x as int, v[2].y as int, v) == bary_den(v),
{
    let (x0, y0, x1, y1, x2, y2) = (
        v[0].x as int,
        v[0].y as int,
        v[1].x as int,
        v[1].y as int,
        v[2].x as int,
        v[2].y as int,
    );
    assert((x1 - x0) * (y1 - y0) - (x1 - x0) * (y1 - y0) == 0);
    assert((x2 - x0) * (y2 - y0) - (x2 - x0) * (y2 - y0) == 0);
    assert((x0 - x0) * (y2 - y0) - (x2 - x0) * (y0 - y0) == 0) by (nonlinear_arith);
    assert((x1 - x0) * (y0 - y0) - (x0 - x0) * (y1 - y0) == 0) by (nonlinear_arith);
}

/// A point strictly inside a triangle of non-zero area, written with
/// positive weights `a0`, `a1`, `a2` as `(a0 * v0 + a1 * v1 + a2 * v2) /
/// (a0 + a1 + a2)`, passes the inside test, and its barycentric weights are
/// those weights: `c(i+1) / den == ai / (a0 + a1 + a2)`.
pub proof fn lemma_barycentric_strictly_inside(x: int, y: int, v: Seq<Vec3>, a0: int, a1: int, a2: int)
    requires
        v.len() == 3,
        bary_den(v) != 0,
        a0 > 0,
        a1 > 0,
        a2 > 0,
        (a0 + a1 + a2) * x == a0 * v[0].x + a1 * v[1].x + a2 * v[2].x,
        (a0 + a1 + a2) * y == a0 * v[0].y + a1 * v[1].y + a2 * v[2].y,
    ensures
        inside_spec(x, y, v),
        bary_w0(x, y, v) * (a0 + a1 + a2) == a0 * bary_den(v),
        bary_w1(x, y, v) * (a0 + a1 + a2) == a1 * bary_den(v),
        bary_w2(x, y, v) * (a0 + a1 + a2) == a2 * bary_den(v),
{
    let (x0, y0, x1, y1, x2, y2) = (
        v[0].x as int,
        v[0].y as int,
        v[1].x as int,
        v[1].y as int,
        v[2].x as int,
        v[2].y as int,
    );
    let s = a0 + a1 + a2;
    let d = bary_den(v);
    let c2 = bary_w1(x, y, v);
    let c3 = bary_w2(x, y, v);
    let (ax, ay, bx, by, ex, ey) = (x1 - x0, y1 - y0, x2 - x0, y2 - y0, x - x0, y - y0);
    assert(s * ex == a1 * ax + a2 * bx) by (nonlinear_arith)
        requires
            s * x == a0 * x0 + a1 * x1 + a2 * x2,
            s == a0 + a1 + a2,
            ex == x - x0,
            ax == x1 - x0,
            bx == x2 - x0,
    ;
    assert(s * ey == a1 * ay + a2 * by) by (nonlinear_arith)
        requires
            s * y == a0 * y0 + a1 * y1 + a2 * y2,
            s == a0 + a1 + a2,
            ey == y - y0,
            ay == y1 - y0,
            by == y2 - y0,
    ;
    lemma_scaled_weights(ax, ay, bx, by, ex, ey, s, a1, a2);
    let c1 = bary_w0(x, y, v);
    assert(c1 * s == a0 * d) by (nonlinear_arith)
        requires
            c1 == d - c2 - c3,
            c2 * s == a1 * d,
            c3 * s == a2 * d,
            s == a0 + a1 + a2,
    ;
    lemma_sign_follows(c1, s, a0, d);
    lemma_sign_follows(c2, s, a1, d);
    lemma_sign_follows(c3, s, a2, d);
}

/// When `s` times the offset is `a1` times edge 1 plus `a2` times edge 2,
/// `s` times the edge weights is `a1` and `a2` times the area.
proof fn lemma_scaled_weights(ax: int, ay: int, bx: int, by: int, ex: int, ey: int, s: int, a1: int, a2: int)
    requires
        s * ex == a1 * ax + a2 * bx,
        s * ey == a1 * ay + a2 * by,
    ensures
        (ex * by - bx * ey) * s == a1 * (ax * by - bx * ay),
        (ax * ey - ex * ay) * s == a2 * (ax * by - bx * ay),
{
    let sx = s * ex;
    let sy = s * ey;
    assert((ex * by - bx * ey) * s == by * sx - bx * sy) by (nonlinear_arith)
        requires
            sx == s * ex,
            sy == s * ey,
    ;
    assert(by * (a1 * ax + a2 * bx) - bx * (a1 * ay + a2 * by) == a1 * (ax * by - bx * ay)) by (nonlinear_arith);
    assert((ax * ey - ex * ay) * s == ax * sy - ay * sx) by (nonlinear_arith)
        requires
            sx == s * ex,
            sy == s * ey,
    ;
    assert(ax * (a1 * ay + a2 * by) - ay * (a1 * ax + a2 * bx) == a2 * (ax * by - bx * ay)) by (nonlinear_arith);
}

proof fn lemma_sign_follows(c: int, s: int, a: int, d: int)
    requires
        c * s == a * d,
        s > 0,
        a > 0,
    ensures
        d > 0 ==> c > 0,
        d < 0 ==> c < 0,
{
    assert(d > 0 ==> c > 0) by (nonlinear_arith)
        requires
            c * s == a * d,
            s > 0,
            a > 0,
    ;
    assert(d < 0 ==> c < 0) by (nonlinear_arith)
        requires
            c * s == a * d,
            s > 0,
            a > 0,
    ;
}

/// Two triangles that never cover a pixel at the same depth can be drawn in
/// either order with the same frame and depth buffers as the result; where
/// both cover a pixel and `a` is nearer there than `b` and than what is
/// stored, the pixel ends up with `a`'s color and depth.
pub proof fn lemma_draw_order_independent(
    a: Triangle,
    b: Triangle,
    width: int,
    height: int,
    fb: Seq<Rgb>,
    db: Seq<i64>,
)
    requires
        fb.len() == db.len(),
        width > 0,
        forall|x: int, y: int|
            covers(a.vertices@, width, height, x, y) && covers(b.vertices@, width, height, x, y)
                ==> pixel_depth(x, y, a.vertices@) != pixel_depth(x, y, b.vertices@),
    ensures
        raster_depth(b, width, height, raster_depth(a, width, height, db)) == raster_depth(
            a,
            width,
            height,
            raster_depth(b, width, height, db),
        ),
        raster_frame(b, width, height, raster_frame(a, width, height, fb, db), raster_depth(a, width, height, db))
            == raster_frame(a, width, height, raster_frame(b, width, height, fb, db), raster_depth(b, width, height, db)),
        forall|i: int|
            #![trigger raster_frame(b, width, height, raster_frame(a, width, height, fb, db), raster_depth(a, width, height, db))[i]]
            0 <= i < fb.len() && covers(a.vertices@, width, height, column_of(i, width), row_of(i, width, height))
                && covers(b.vertices@, width, height, column_of(i, width), row_of(i, width, height))
                && pixel_depth(column_of(i, width), row_of(i, width, height), a.vertices@) < pixel_depth(
                column_of(i, width),
                row_of(i, width, height),
                b.vertices@,
            ) && pixel_depth(column_of(i, width), row_of(i, width, height), a.vertices@) < db[i]
                ==> raster_frame(b, width, height, raster_frame(a, width, height, fb, db), raster_depth(a, width, height, db))[i]
                == a.colors@[0] && raster_depth(b, width, height, raster_depth(a, width, height, db))[i] == pixel_depth(
                column_of(i, width),
                row_of(i, width, height),
                a.vertices@,
            ),
{
    let da = raster_depth(a, width, height, db);
    let db_ = raster_depth(b, width, height, db);
    let fa = raster_frame(a, width, height, fb, db);
    let fb_ = raster_frame(b, width, height, fb, db);
    assert forall|i: int| 0 <= i < db.len() implies {
        &&& #[trigger] raster_depth(b, width, height, da)[i] == raster_depth(a, width, height, db_)[i]
        &&& raster_frame(b, width, height, fa, da)[i] == raster_frame(a, width, height, fb_, db_)[i]
        &&& da[i] == if depth_passes(a, width, height, column_of(i, width), row_of(i, width, height), db[i]) {
            pixel_depth(column_of(i, width), row_of(i, width, height), a.vertices@)
        } else {
            db[i] as int
        }
    } by {
        let (x, y) = (column_of(i, width), row_of(i, width, height));
        if covers(a.vertices@, width, height, x, y) {
            lemma_depth_between_vertices(x * SUBPIXEL, y * SUBPIXEL, a.vertices@);
        }
        if covers(b.vertices@, width, height, x, y) {
            lemma_depth_between_vertices(x * SUBPIXEL, y * SUBPIXEL, b.vertices@);
        }
        if covers(a.vertices@, width, height, x, y) && covers(b.vertices@, width, height, x, y) {
            assert(pixel_depth(x, y, a.vertices@) != pixel_depth(x, y, b.vertices@));
        }
    }
    assert(raster_depth(b, width, height, da) =~= raster_depth(a, width, height, db_));
    assert forall|i: int| 0 <= i < fb.len() implies #[trigger] raster_frame(b, width, height, fa, da)[i]
        == raster_frame(a, width, height, fb_, db_)[i] by {
        assert(raster_depth(b, width, height, da)[i] == raster_depth(a, width, height, db_)[i]);
    }
    assert(raster_frame(b, width, height, fa, da) =~= raster_frame(a, width, height, fb_, db_));
}

/// Two draw calls of one screen triangle each, `a` and `b`, that never
/// cover a pixel at the same depth leave the same frame and depth buffers in
/// either order: `draw_spec` is what each `draw` call ensures.
pub proof fn lemma_draw_calls_commute(
    a: Triangle,
    b: Triangle,
    width: int,
    height: int,
    fb: Seq<Rgb>,
    db: Seq<i64>,
)
    requires
        fb.len() == db.len(),
        width > 0,
        forall|x: int, y: int|
            covers(a.vertices@, width, height, x, y) && covers(b.vertices@, width, height, x, y)
                ==> pixel_depth(x, y, a.vertices@) != pixel_depth(x, y, b.vertices@),
    ensures
        ({
            let (fa, da) = draw_spec(seq![Some(a)], width, height, fb, db);
            let (fb2, db2) = draw_spec(seq![Some(b)], width, height, fb, db);
            draw_spec(seq![Some(b)], width, height, fa, da) == draw_spec(seq![Some(a)], width, height, fb2, db2)
        }),
{
    lemma_draw_one(a, width, height, fb, db);
    lemma_draw_one(b, width, height, fb, db);
    lemma_draw_one(b, width, height, raster_frame(a, width, height, fb, db), raster_depth(a, width, height, db));
    lemma_draw_one(a, width, height, raster_frame(b, width, height, fb, db), raster_depth(b, width, height, db));
    lemma_draw_order_independent(a, b, width, height, fb, db);
}

/// A draw of a single screen triangle is one scan of it.
proof fn lemma_draw_one(t: Triangle, width: int, height: int, fb: Seq<Rgb>, db: Seq<i64>)
    ensures
        draw_spec(seq![Some(t)], width, height, fb, db) == (
            raster_frame(t, width, height, fb, db),
            raster_depth(t, width, height, db),
        ),
{
    assert(seq![Some(t)].drop_last() =~= Seq::<Option<Triangle>>::empty());
    assert(draw_spec(Seq::<Option<Triangle>>::empty(), width, height, fb, db) == (fb, db));
}

/// On a freshly cleared depth buffer every pixel that a triangle covers
/// passes the depth test: it gets the triangle's color and depth.
pub proof fn lemma_cleared_depth_always_passes(t: Triangle, width: int, height: int, fb: Seq<Rgb>, n: nat)
    requires
        fb.len() == n,
        width > 0,
    ensures
        forall|i: int|
            #![trigger raster_frame(t, width, height, fb, cleared_depths(n))[i]]
            0 <= i < n && covers(t.vertices@, width, height, column_of(i, width), row_of(i, width, height))
                ==> raster_frame(t, width, height, fb, cleared_depths(n))[i] == t.colors@[0]
                && raster_depth(t, width, height, cleared_depths(n))[i] == pixel_depth(
                column_of(i, width),
                row_of(i, width, height),
                t.vertices@,
            ),
{
    assert forall|i: int|
        0 <= i < n && covers(t.vertices@, width, height, column_of(i, width), row_of(i, width, height)) implies
            pixel_depth(column_of(i, width), row_of(i, width, height), t.vertices@) < i64::MAX
            && pixel_depth(column_of(i, width), row_of(i, width, height), t.vertices@) as i64 == pixel_depth(
            column_of(i, width),
            row_of(i, width, height),
            t.vertices@,
        ) by {
        lemma_depth_between_vertices(column_of(i, width) * SUBPIXEL, row_of(i, width, height) * SUBPIXEL, t.vertices@);
    }
}

/// Two vertices at the same pixel position give a triangle of zero area.
pub proof fn lemma_coincident_vertices_zero_area(v: Seq<Vec3>)
    requires
        v.len() == 3,
        (v[0].x == v[1].x && v[0].y == v[1].y) || (v[1].x == v[2].x && v[1].y == v[2].y) || (v[0].x
            == v[2].x && v[0].y == v[2].y),
    ensures
        bary_den(v) == 0,
{
    let (x0, y0, x1, y1, x2, y2) = (
        v[0].x as int,
        v[0].y as int,
        v[1].x as int,
        v[1].y as int,
        v[2].x as int,
        v[2].y as int,
    );
    if x1 == x2 && y1 == y2 {
        assert((x1 - x0) * (y1 - y0) - (x1 - x0) * (y1 - y0) == 0);
    } else if x0 == x1 && y0 == y1 {
        assert((x0 - x0) * (y2 - y0) - (x2 - x0) * (y0 - y0) == 0) by (nonlinear_arith);
    } else {
        assert((x1 - x0) * (y0 - y0) - (x0 - x0) * (y1 - y0) == 0) by (nonlinear_arith);
    }
}

/// A triangle with two coincident vertices draws nothing: both buffers are
/// left as they were.
pub proof fn lemma_degenerate_draws_nothing(t: Triangle, width: int, height: int, fb: Seq<Rgb>, db: Seq<i64>)
    requires
        fb.len() == db.len(),
        (t.vertices@[0].x == t.vertices@[1].x && t.vertices@[0].y == t.vertices@[1].y) || (t.vertices@[1].x
            == t.vertices@[2].x && t.vertices@[1].y == t.vertices@[2].y) || (t.vertices@[0].x
            == t.vertices@[2].x && t.vertices@[0].y == t.vertices@[2].y),
    ensures
        raster_frame(t, width, height, fb, db) == fb,
        raster_depth(t, width, height, db) == db,
{
    lemma_coincident_vertices_zero_area(t.vertices@);
    assert(raster_frame(t, width, height, fb, db) =~= fb);
    assert(raster_depth(t, width, height, db) =~= db);
}

/// An index entry that names the same model-space position twice gives
/// either no screen triangle or one that draws nothing.
pub proof fn lemma_repeated_position_draws_nothing(
    r: Rasterizer,
    pos: Seq<Vec3>,
    col: Seq<Rgb>,
    e: Index3,
    fb: Seq<Rgb>,
    db: Seq<i64>,
)
    requires
        fb.len() == db.len(),
        pos[e.i as int] == pos[e.j as int] || pos[e.j as int] == pos[e.k as int] || pos[e.i as int]
            == pos[e.k as int],
    ensures
        match assemble(r, pos, col, e) {
            Some(t) => raster_frame(t, r.width_spec(), r.height_spec(), fb, db) == fb && raster_depth(
                t,
                r.width_spec(),
                r.height_spec(),
                db,
            ) == db,
            None => true,
        },
{
    if let Some(t) = assemble(r, pos, col, e) {
        assert(t.vertices@[0] == t.vertices@[1] || t.vertices@[1] == t.vertices@[2] || t.vertices@[0]
            == t.vertices@[2]);
        lemma_degenerate_draws_nothing(t, r.width_spec(), r.height_spec(), fb, db);
    }
}

/// Uploads issue distinct handles: in a run of uploads on one rasterizer,
/// through states `states[0], states[1], ...`, where each upload returns the
/// next handle of the state it found and raises it by one, as every `load_*`
/// method ensures, no two handles are equal.
pub proof fn lemma_upload_handles_distinct(states: Seq<Rasterizer>, handles: Seq<usize>)
    requires
        states.len() == handles.len() + 1,
        forall|k: int|
            0 <= k < handles.len() ==> #[trigger] handles[k] == states[k].next_handle() && states[k
                + 1].next_handle() == states[k].next_handle() + 1,
    ensures
        forall|i: int, j: int| 0 <= i < handles.len() && 0 <= j < handles.len() && i != j ==> handles[i] != handles[j],
{
    assert forall|k: int| 0 <= k <= handles.len() implies #[trigger] states[k].next_handle() == states[0].next_handle()
        + k by {
        lemma_counter_steps(states, handles, k);
    }
    assert forall|i: int, j: int| 0 <= i < handles.len() && 0 <= j < handles.len() && i != j implies handles[i]
        != handles[j] by {
        assert(states[i].next_handle() == states[0].next_handle() + i);
        assert(states[j].next_handle() == states[0].next_handle() + j);
    }
}

proof fn lemma_counter_steps(states: Seq<Rasterizer>, handles: Seq<usize>, k: int)
    requires
        states.len() == handles.len() + 1,
        forall|m: int|
            0 <= m < handles.len() ==> #[trigger] handles[m] == states[m].next_handle() && states[m
                + 1].next_handle() == states[m].next_handle() + 1,
        0 <= k <= handles.len(),
    ensures
        states[k].next_handle() == states[0].next_handle() + k,
    decreases k,
{
    if k > 0 {
        lemma_counter_steps(states, handles, k - 1);
        assert(handles[k - 1] == states[k - 1].next_handle());
    }
}

} // verus!
