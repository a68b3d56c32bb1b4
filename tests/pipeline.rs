use rusterizer::color::{Color, Rgb};
use rusterizer::rasterizer::{get_index, LookupError, Rasterizer};
use rusterizer::utils::{get_model_matrix, get_projection_matrix, get_view_matrix, isqrt, Index3, Vec3, ONE};

fn fx(v: f64) -> i32 {
    (v * ONE as f64).round() as i32
}

fn point(x: f64, y: f64, z: f64) -> Vec3 {
    Vec3::new(fx(x), fx(y), fx(z))
}

fn pixel(r: &Rasterizer, x: usize, y: usize, w: usize, h: usize) -> Rgb {
    r.frame_buf()[get_index(x, y, w, h)]
}

/// The scene of the demo program: one triangle seen from (0, 0, 5).
fn demo_scene(w: usize, h: usize) -> Rasterizer {
    let mut r = Rasterizer::new(w, h);
    let col = Rgb::new(217, 238, 185);
    let pos = r.load_positions(&[point(2., 0., -2.), point(0., 2., -2.), point(-2., 0., -2.)]);
    let ind = r.load_indices(&[Index3::new(0, 1, 2)]);
    let cols = r.load_colors(&[col, col, col]);
    let cot = fx(1.0 / (45f64.to_radians() / 2.0).tan());
    r.set_model(get_model_matrix(&Vec3::new(0, 0, ONE), 0, ONE));
    r.set_view(get_view_matrix(&point(0., 0., 5.)));
    r.set_perspective(cot, ONE, fx(0.1), fx(50.));
    r.clear_depth_buf();
    r.clear_frame_buf();
    assert_eq!(r.draw(pos, ind, cols), Ok(()));
    r
}

#[test]
fn end_to_end_demo_triangle() {
    let (w, h) = (700usize, 700usize);
    let r = demo_scene(w, h);
    let col = Rgb::new(217, 238, 185);
    let blank = Rgb::blank();
    // The projected corners: 350 * (1 + 2 * cot(22.5 deg) / 7) and so on.
    let reach = 350.0 * 2.0 / (22.5f64.to_radians().tan() * 7.0);
    let corners = [(350.0 + reach, 350.0), (350.0, 350.0 + reach), (350.0 - reach, 350.0)];
    let mut inside = 0;
    for y in 0..h {
        for x in 0..w {
            let (px, py) = (x as f64, y as f64);
            let edge = |a: (f64, f64), b: (f64, f64)| (b.0 - a.0) * (py - a.1) - (b.1 - a.1) * (px - a.0);
            let e = [
                edge(corners[0], corners[1]),
                edge(corners[1], corners[2]),
                edge(corners[2], corners[0]),
            ];
            // Strictly inside, with a margin for fixed-point rounding.
            if e.iter().all(|v| *v > 2.0 * reach) {
                inside += 1;
                assert_eq!(pixel(&r, x, y, w, h), col, "pixel ({}, {})", x, y);
            }
        }
    }
    assert!(inside > 40_000);
    for &(x, y) in &[(350, 400), (350, 500), (200, 380), (500, 380)] {
        assert_eq!(pixel(&r, x, y, w, h), col, "pixel ({}, {})", x, y);
    }
    // Outside the bounding box nothing is drawn.
    for y in 0..h {
        for x in 0..w {
            let in_box = (108..=592).contains(&x) && (350..=592).contains(&y);
            if !in_box {
                assert_eq!(pixel(&r, x, y, w, h), blank, "pixel ({}, {})", x, y);
            }
        }
    }
    // Each row holds one contiguous run, and the runs shrink upwards.
    let mut last_len = usize::MAX;
    let mut rows = 0;
    for y in 0..h {
        let xs: Vec<usize> = (0..w).filter(|&x| pixel(&r, x, y, w, h) == col).collect();
        if xs.is_empty() {
            continue;
        }
        rows += 1;
        assert_eq!(xs.len(), xs[xs.len() - 1] - xs[0] + 1, "row {} is not contiguous", y);
        assert!(xs.len() <= last_len, "row {} is wider than the one below", y);
        last_len = xs.len();
    }
    assert!(rows > 200);
}

#[test]
fn view_matrix_is_translation() {
    let m = get_view_matrix(&Vec3::new(1, -2, 3));
    assert_eq!(m.m, [[ONE, 0, 0, -1], [0, ONE, 0, 2], [0, 0, ONE, -3], [0, 0, 0, ONE]]);
}

#[test]
fn model_matrix_at_zero_angle_is_identity() {
    let m = get_model_matrix(&Vec3::new(0, 0, ONE), 0, ONE);
    assert_eq!(m.m, [[ONE, 0, 0, 0], [0, ONE, 0, 0], [0, 0, ONE, 0], [0, 0, 0, ONE]]);
}

#[test]
fn model_matrix_quarter_turn_about_z() {
    let m = get_model_matrix(&Vec3::new(0, 0, ONE), ONE, 0);
    assert_eq!(m.m, [[0, -ONE, 0, 0], [ONE, 0, 0, 0], [0, 0, ONE, 0], [0, 0, 0, ONE]]);
}

#[test]
fn model_matrix_scales_the_axis_to_unit_length() {
    // Half the unit length, and an axis of seven raw units, far shorter than
    // it: both are scaled to the unit z axis first.
    let unit = get_model_matrix(&Vec3::new(0, 0, ONE), ONE, 0);
    let half = get_model_matrix(&Vec3::new(0, 0, ONE / 2), ONE, 0);
    let long = get_model_matrix(&Vec3::new(0, 0, 7), ONE, 0);
    assert_eq!(half.m, unit.m);
    assert_eq!(long.m, unit.m);
    // About the x axis given as (0.5, 0, 0) a quarter turn keeps x fixed.
    let m = get_model_matrix(&Vec3::new(ONE / 2, 0, 0), ONE, 0);
    assert_eq!(m.m, [[ONE, 0, 0, 0], [0, 0, -ONE, 0], [0, ONE, 0, 0], [0, 0, 0, ONE]]);
}

/// The upper 3x3 part of `m` is a rotation that keeps `axis`, up to
/// `tol` raw units in each entry of `R^T R - I` and `R u - u`.
fn assert_rotation_about(m: &rusterizer::utils::Mat4, axis: (f64, f64, f64), tol: f64) {
    let one = ONE as f64;
    let r = |i: usize, j: usize| m.m[i][j] as f64 / one;
    for i in 0..3 {
        for j in 0..3 {
            let dot: f64 = (0..3).map(|k| r(k, i) * r(k, j)).sum();
            let want = if i == j { 1.0 } else { 0.0 };
            assert!((dot - want).abs() * one <= tol, "column product ({}, {}) is {}", i, j, dot);
        }
    }
    let len = (axis.0 * axis.0 + axis.1 * axis.1 + axis.2 * axis.2).sqrt();
    let u = [axis.0 / len, axis.1 / len, axis.2 / len];
    for i in 0..3 {
        let ru: f64 = (0..3).map(|k| r(i, k) * u[k]).sum();
        assert!((ru - u[i]).abs() * one <= tol, "row {} moves the axis: {} against {}", i, ru, u[i]);
    }
    assert_eq!(m.m[3], [0, 0, 0, ONE]);
    assert_eq!([m.m[0][3], m.m[1][3], m.m[2][3]], [0, 0, 0]);
}

#[test]
fn model_matrix_about_short_diagonal_axes() {
    // Axes of a few raw units are scaled as well as long ones: the half turn
    // about (1, 1, 0) is a rotation, and the one about (ONE, ONE, 0) differs
    // from it only by rounding.
    let short = get_model_matrix(&Vec3::new(1, 1, 0), 0, -ONE);
    assert_rotation_about(&short, (1., 1., 0.), 8.0);
    let long = get_model_matrix(&Vec3::new(ONE, ONE, 0), 0, -ONE);
    assert_rotation_about(&long, (1., 1., 0.), 8.0);
    for i in 0..4 {
        for j in 0..4 {
            assert!((short.m[i][j] - long.m[i][j]).abs() <= 8, "entry ({}, {})", i, j);
        }
    }
    // About (1, 1, 1) and (100, 100, 100), the same direction.
    let a = get_model_matrix(&Vec3::new(1, 1, 1), 0, -ONE);
    let b = get_model_matrix(&Vec3::new(100, 100, 100), 0, -ONE);
    assert_rotation_about(&a, (1., 1., 1.), 8.0);
    assert_eq!(a.m, b.m);
    // A half turn done twice is close to the identity.
    let one = ONE as i64;
    for i in 0..3 {
        for j in 0..3 {
            let e: i64 = (0..3).map(|k| short.m[i][k] as i64 * short.m[k][j] as i64).sum::<i64>() / one;
            let want = if i == j { one } else { 0 };
            assert!((e - want).abs() <= 8, "entry ({}, {}) of the square is {}", i, j, e);
        }
    }
    // A turn by 30 degrees about (-2, 3, 5), sine and cosine rounded.
    let (s, c) = (30f64.to_radians().sin(), 30f64.to_radians().cos());
    let (s, c) = ((s * ONE as f64).round() as i32, (c * ONE as f64).round() as i32);
    let m = get_model_matrix(&Vec3::new(-2, 3, 5), s, c);
    assert_rotation_about(&m, (-2., 3., 5.), 8.0);
}

#[test]
fn model_matrix_about_a_diagonal_axis() {
    // The axis (3, 4, 0) has length 5; its unit form is (0.6, 0.8, 0).
    let m = get_model_matrix(&Vec3::new(3, 4, 0), 0, -ONE);
    // A half turn: R = 2 u u^T - I, so R[0][0] = 2 * 0.36 - 1 = -0.28.
    let x = (3 * ONE) / 5;
    let y = (4 * ONE) / 5;
    let xx = ((x as i64 * x as i64) >> 16) as i32;
    let xy = ((x as i64 * y as i64) >> 16) as i32;
    assert_eq!(m.m[0][0], -ONE + ((xx as i64 * 2 * ONE as i64) >> 16) as i32);
    assert_eq!(m.m[0][1], ((xy as i64 * 2 * ONE as i64) >> 16) as i32);
    assert_eq!(m.m[2][2], -ONE);
    assert_eq!(m.m[3], [0, 0, 0, ONE]);
}

#[test]
fn integer_square_root() {
    assert_eq!(isqrt(0), 0);
    assert_eq!(isqrt(1), 1);
    assert_eq!(isqrt(24), 4);
    assert_eq!(isqrt(25), 5);
    assert_eq!(isqrt(u64::MAX as u128), 0xFFFF_FFFF);
    assert_eq!(isqrt(u128::MAX), 0xFFFF_FFFF_FFFF_FFFF);
    // The square root of 2 with 16 fractional bits.
    assert_eq!(isqrt(2 << 32), 92681);
}

#[test]
fn projection_matrix_entries() {
    // cot = 2, aspect = 2, near = 1, far = 3.
    let m = get_projection_matrix(2 * ONE, 2 * ONE, ONE, 3 * ONE);
    assert_eq!(m.m[0], [ONE, 0, 0, 0]);
    assert_eq!(m.m[1], [0, 2 * ONE, 0, 0]);
    // -(3 + 1) / (3 - 1) = -2 and -2 * 3 * 1 / (3 - 1) = -3.
    assert_eq!(m.m[2], [0, 0, -2 * ONE, -3 * ONE]);
    assert_eq!(m.m[3], [0, 0, -ONE, 0]);
}

#[test]
fn color_channels() {
    assert_eq!(Color::Red.rgb(), Rgb::new(255, 0, 0));
    assert_eq!(Color::Green.rgb(), Rgb::new(0, 255, 0));
    assert_eq!(Color::Blue.rgb(), Rgb::new(0, 0, 255));
}

#[test]
fn unknown_handle_is_reported() {
    let mut other = Rasterizer::new(4, 4);
    let _ = other.load_positions(&[]);
    let _ = other.load_positions(&[]);
    let _ = other.load_positions(&[]);
    let stray = other.load_positions(&[]);
    let mut r = Rasterizer::new(4, 4);
    let pos = r.load_positions(&[Vec3::new(0, 0, 0)]);
    let ind = r.load_indices(&[]);
    let col = r.load_colors(&[]);
    assert_eq!(r.draw(stray, ind, col), Err(LookupError::UnknownHandle));
    assert_eq!(r.draw(pos, ind, col), Ok(()));
}

#[test]
fn index_out_of_range_is_reported_before_drawing() {
    let mut r = Rasterizer::new(8, 8);
    let pos = r.load_positions(&[Vec3::new(0, 0, 0), Vec3::new(ONE, 0, 0), Vec3::new(0, ONE, 0)]);
    let ind = r.load_indices(&[Index3::new(0, 1, 2), Index3::new(0, 1, 3)]);
    let red = Color::Red.rgb();
    let col = r.load_colors(&[red, red, red]);
    let before: Vec<Rgb> = r.frame_buf().to_vec();
    assert_eq!(r.draw(pos, ind, col), Err(LookupError::IndexOutOfRange));
    assert_eq!(r.frame_buf().to_vec(), before);
}

#[test]
fn indices_from_range_group_by_three() {
    let mut r = Rasterizer::new(8, 8);
    let ind = r.load_indices_from_range(0..7);
    let red = Color::Red.rgb();
    let short = r.load_positions(&vec![Vec3::new(0, 0, 0); 8]);
    let long = r.load_positions(&vec![Vec3::new(0, 0, 0); 9]);
    let col = r.load_colors(&vec![red; 9]);
    // The range 0..7 gives (0, 1, 2), (3, 4, 5) and (6, 7, 8).
    assert_eq!(r.draw(short, ind, col), Err(LookupError::IndexOutOfRange));
    assert_eq!(r.draw(long, ind, col), Ok(()));
}

#[test]
fn identity_transforms_map_the_unit_square_to_the_frame() {
    // With every transform the identity, clip space is model space and
    // w = 1: (-1, -1) is the bottom-left pixel and (1, 1) just past the
    // top-right one.
    let (w, h) = (10usize, 10usize);
    let mut r = Rasterizer::new(w, h);
    let pos = r.load_positions(&[point(-1., -1., 0.), point(0.8, -1., 0.), point(-1., 0.8, 0.)]);
    let ind = r.load_indices_from_range(0..3);
    let blue = Color::Blue.rgb();
    let col = r.load_colors(&[blue, blue, blue]);
    assert_eq!(r.draw(pos, ind, col), Ok(()));
    assert_eq!(pixel(&r, 0, 0, w, h), blue);
    assert_eq!(pixel(&r, 9, 0, w, h), blue);
    assert_eq!(pixel(&r, 0, 9, w, h), blue);
    assert_eq!(pixel(&r, 9, 9, w, h), Rgb::blank());
    assert_eq!(pixel(&r, 5, 5, w, h), Rgb::blank());
    assert_eq!(pixel(&r, 4, 4, w, h), blue);
}

#[test]
fn uploads_keep_the_frame_and_clears_keep_the_store() {
    let (w, h) = (6usize, 6usize);
    let mut r = Rasterizer::new(w, h);
    let pos = r.load_positions(&[point(-1., -1., 0.), point(1., -1., 0.), point(-1., 1., 0.)]);
    let ind = r.load_indices_from_range(0..3);
    let green = Color::Green.rgb();
    let col = r.load_colors(&[green, green, green]);
    assert_eq!(r.draw(pos, ind, col), Ok(()));
    let drawn: Vec<Rgb> = r.frame_buf().to_vec();
    assert_eq!(drawn.len(), w * h);
    let _ = r.load_positions(&[point(0., 0., 0.)]);
    let _ = r.load_colors(&[]);
    assert_eq!(r.frame_buf().to_vec(), drawn);
    r.clear_frame_buf();
    assert!(r.frame_buf().iter().all(|c| *c == Rgb::blank()));
    r.clear_depth_buf();
    // The buffers uploaded before the clears are still there.
    assert_eq!(r.draw(pos, ind, col), Ok(()));
    assert_eq!(r.frame_buf().to_vec(), drawn);
}

#[test]
fn unclamped_scan_reports_triangles_past_the_frame() {
    let (w, h) = (8usize, 8usize);
    let mut r = Rasterizer::new(w, h);
    let red = Color::Red.rgb();
    // With identity transforms, x = 1.5 lies past the right edge.
    let inside = r.load_positions(&[point(-1., -1., 0.), point(0.5, -1., 0.), point(-1., 0.5, 0.)]);
    let past = r.load_positions(&[point(-1., -1., 0.), point(1.5, -1., 0.), point(-1., 0.5, 0.)]);
    let ind = r.load_indices_from_range(0..3);
    let col = r.load_colors(&[red, red, red]);
    r.set_clamp_to_frame(false);
    assert_eq!(r.draw(past, ind, col), Err(LookupError::OffScreen));
    assert!(r.frame_buf().iter().all(|c| *c == Rgb::blank()));
    assert_eq!(r.draw(inside, ind, col), Ok(()));
    let unclamped: Vec<Rgb> = r.frame_buf().to_vec();
    assert_eq!(pixel(&r, 0, 0, w, h), red);
    // The clamped scan draws the same where the triangle fits the frame,
    // and draws the part on the frame where it does not.
    r.clear_frame_buf();
    r.clear_depth_buf();
    r.set_clamp_to_frame(true);
    assert_eq!(r.draw(inside, ind, col), Ok(()));
    assert_eq!(r.frame_buf().to_vec(), unclamped);
    assert_eq!(r.draw(past, ind, col), Ok(()));
    assert_eq!(pixel(&r, 7, 0, w, h), red);
}
