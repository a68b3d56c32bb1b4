use rusterizer::color::{Color, Rgb};
use rusterizer::rasterizer::{compute_barycentric_2_d, get_index, Rasterizer, SUBPIXEL};
use rusterizer::triangle::{BuildError, Triangle, TriangleBuilder};
use rusterizer::utils::{Index3, Vec3, ONE};

fn screen_triangle(v: [(i32, i32, i32); 3], color: Rgb) -> Triangle {
    let vertices = [
        Vec3::new(v[0].0, v[0].1, v[0].2),
        Vec3::new(v[1].0, v[1].1, v[1].2),
        Vec3::new(v[2].0, v[2].1, v[2].2),
    ];
    let colors = [color, color, color];
    TriangleBuilder::new().with_vertices(&vertices).with_colors(&colors).build().unwrap()
}

/// A triangle whose vertices lie at whole pixels `(x, y)`, with depth `z`.
fn pixel_triangle(v: [(i32, i32, i32); 3], color: Rgb) -> Triangle {
    let s = SUBPIXEL;
    screen_triangle([(v[0].0 * s, v[0].1 * s, v[0].2), (v[1].0 * s, v[1].1 * s, v[1].2), (v[2].0 * s, v[2].1 * s, v[2].2)], color)
}

fn buffers(w: usize, h: usize) -> (Vec<Rgb>, Vec<i64>) {
    (vec![Rgb::blank(); w * h], vec![i64::MAX; w * h])
}

#[test]
fn barycentric_weights_at_vertices() {
    let v = [Vec3::new(1, 1, 0), Vec3::new(9, 2, 0), Vec3::new(3, 8, 0)];
    let b0 = compute_barycentric_2_d(1, 1, &v);
    let b1 = compute_barycentric_2_d(9, 2, &v);
    let b2 = compute_barycentric_2_d(3, 8, &v);
    assert_ne!(b0.den, 0);
    assert_eq!((b0.c1, b0.c2, b0.c3), (b0.den, 0, 0));
    assert_eq!((b1.c1, b1.c2, b1.c3), (0, b1.den, 0));
    assert_eq!((b2.c1, b2.c2, b2.c3), (0, 0, b2.den));
}

#[test]
fn barycentric_weights_inside_sum_to_one() {
    let v = [Vec3::new(0, 0, 0), Vec3::new(30, 0, 0), Vec3::new(0, 30, 0)];
    // (a0, a1, a2) = (1, 1, 1): the centroid (10, 10).
    let b = compute_barycentric_2_d(10, 10, &v);
    assert_eq!(b.den, 900);
    assert_eq!(b.c1 + b.c2 + b.c3, b.den);
    assert_eq!((b.c1, b.c2, b.c3), (300, 300, 300));
    for &(x, y) in &[(1, 1), (5, 20), (28, 1), (14, 14)] {
        let b = compute_barycentric_2_d(x, y, &v);
        assert_eq!(b.c1 + b.c2 + b.c3, b.den);
        assert!(b.c1 >= 0 && b.c2 >= 0 && b.c3 >= 0);
        assert!(b.is_inside());
    }
    let outside = compute_barycentric_2_d(20, 20, &v);
    assert!(!outside.is_inside());
}

#[test]
fn inside_test_either_winding() {
    let ccw = screen_triangle([(0, 0, 0), (10, 0, 0), (0, 10, 0)], Color::Red.rgb());
    let cw = screen_triangle([(0, 0, 0), (0, 10, 0), (10, 0, 0)], Color::Red.rgb());
    for t in [&ccw, &cw] {
        assert!(t.inside_triangle(2, 2));
        assert!(t.inside_triangle(5, 5));
        assert!(!t.inside_triangle(6, 5));
        assert!(!t.inside_triangle(-1, 0));
    }
}

#[test]
fn nearer_triangle_wins_in_either_order() {
    let (w, h) = (16usize, 16usize);
    let red = Color::Red.rgb();
    let green = Color::Green.rgb();
    let near = pixel_triangle([(0, 0, 10), (12, 0, 10), (0, 12, 10)], red);
    let far = pixel_triangle([(2, 2, 50), (15, 2, 50), (2, 15, 50)], green);

    let (mut f1, mut d1) = buffers(w, h);
    Rasterizer::rasterize_triangle(&mut f1, &mut d1, w, h, &near);
    Rasterizer::rasterize_triangle(&mut f1, &mut d1, w, h, &far);

    let (mut f2, mut d2) = buffers(w, h);
    Rasterizer::rasterize_triangle(&mut f2, &mut d2, w, h, &far);
    Rasterizer::rasterize_triangle(&mut f2, &mut d2, w, h, &near);

    assert_eq!(f1, f2);
    assert_eq!(d1, d2);
    // In the overlap the nearer triangle's color shows.
    assert_eq!(f1[get_index(4, 4, w, h)], red);
    assert_eq!(d1[get_index(4, 4, w, h)], 10);
    // Where only the farther one lies, it shows.
    assert_eq!(f1[get_index(13, 3, w, h)], green);
    assert_eq!(d1[get_index(13, 3, w, h)], 50);
}

#[test]
fn depth_is_interpolated() {
    let (w, h) = (8usize, 8usize);
    let t = pixel_triangle([(0, 0, 0), (6, 0, 60), (0, 6, 0)], Color::Blue.rgb());
    let (mut f, mut d) = buffers(w, h);
    Rasterizer::rasterize_triangle(&mut f, &mut d, w, h, &t);
    assert_eq!(d[get_index(0, 0, w, h)], 0);
    assert_eq!(d[get_index(3, 0, w, h)], 30);
    assert_eq!(d[get_index(6, 0, w, h)], 60);
    assert_eq!(d[get_index(2, 2, w, h)], 20);
    assert_eq!(d[get_index(7, 7, w, h)], i64::MAX);
}

#[test]
fn cleared_buffers_are_blank_and_always_pass() {
    let (w, h) = (12usize, 9usize);
    let mut r = Rasterizer::new(w, h);
    let red = Color::Red.rgb();
    let pos = r.load_positions(&[
        Vec3::new(-ONE, -ONE, 0),
        Vec3::new(ONE, -ONE, 0),
        Vec3::new(-ONE, ONE, 0),
    ]);
    let ind = r.load_indices(&[Index3::new(0, 1, 2)]);
    let col = r.load_colors(&[red, red, red]);
    assert_eq!(r.draw(pos, ind, col), Ok(()));
    assert!(r.frame_buf().iter().any(|c| *c == red));
    r.clear_frame_buf();
    assert!(r.frame_buf().iter().all(|c| *c == Rgb::blank()));
    assert_eq!(r.frame_buf().len(), w * h);
    // The depths from the first draw block a second one at the same depth.
    assert_eq!(r.draw(pos, ind, col), Ok(()));
    assert!(r.frame_buf().iter().all(|c| *c == Rgb::blank()));
    // After clearing the depths the same triangle shows again.
    r.clear_depth_buf();
    assert_eq!(r.draw(pos, ind, col), Ok(()));
    assert_eq!(r.frame_buf()[get_index(0, 0, w, h)], red);
}

#[test]
fn uploads_return_distinct_handles() {
    let mut r = Rasterizer::new(2, 2);
    let t = Triangle::new_matte((0, 0, 0), (1, 0, 0), (0, 1, 0), Color::Green);
    let mut ids = Vec::new();
    ids.push(r.load_positions(&[]).id());
    ids.push(r.load_colors(&[]).id());
    ids.push(r.load_indices(&[]).id());
    ids.push(r.load_indices_from_range(0..9).id());
    let (a, b, c) = r.load_triangle(&t);
    ids.push(a.id());
    ids.push(b.id());
    ids.push(c.id());
    ids.push(r.load_positions(&[Vec3::new(1, 2, 3)]).id());
    for i in 0..ids.len() {
        for j in 0..ids.len() {
            if i != j {
                assert_ne!(ids[i], ids[j]);
            }
        }
    }
    assert_eq!(ids, vec![0, 1, 2, 3, 4, 5, 6, 7]);
}

#[test]
fn degenerate_triangle_draws_nothing() {
    let (w, h) = (10usize, 10usize);
    let (mut f, mut d) = buffers(w, h);
    let before = (f.clone(), d.clone());
    let t = pixel_triangle([(1, 1, 0), (8, 2, 0), (1, 1, 5)], Color::Red.rgb());
    Rasterizer::rasterize_triangle(&mut f, &mut d, w, h, &t);
    assert_eq!((f, d), before);
    let flat = pixel_triangle([(1, 1, 0), (4, 4, 0), (8, 8, 0)], Color::Red.rgb());
    let (mut f, mut d) = buffers(w, h);
    Rasterizer::rasterize_triangle(&mut f, &mut d, w, h, &flat);
    assert!(f.iter().all(|c| *c == Rgb::blank()));
}

#[test]
fn off_screen_parts_are_clipped_to_the_frame() {
    let (w, h) = (6usize, 6usize);
    let t = pixel_triangle([(-20, -20, 0), (40, -20, 0), (-20, 40, 0)], Color::Red.rgb());
    let (mut f, mut d) = buffers(w, h);
    Rasterizer::rasterize_triangle(&mut f, &mut d, w, h, &t);
    assert!(f.iter().all(|c| *c == Color::Red.rgb()));
    let away = pixel_triangle([(100, 100, 0), (140, 100, 0), (100, 140, 0)], Color::Red.rgb());
    let (mut f, mut d) = buffers(w, h);
    Rasterizer::rasterize_triangle(&mut f, &mut d, w, h, &away);
    assert!(f.iter().all(|c| *c == Rgb::blank()));
}

#[test]
fn frame_index_is_flipped() {
    assert_eq!(get_index(0, 0, 4, 3), 8);
    assert_eq!(get_index(3, 0, 4, 3), 11);
    assert_eq!(get_index(0, 2, 4, 3), 0);
    assert_eq!(get_index(2, 1, 4, 3), 6);
}

#[test]
fn vertex_zero_color_is_used() {
    let (w, h) = (8usize, 8usize);
    let vertices = [Vec3::new(0, 0, 0), Vec3::new(7 * SUBPIXEL, 0, 0), Vec3::new(0, 7 * SUBPIXEL, 0)];
    let colors = [Color::Green.rgb(), Color::Red.rgb(), Color::Blue.rgb()];
    let t = TriangleBuilder::new().with_vertices(&vertices).with_colors(&colors).build().unwrap();
    let (mut f, mut d) = buffers(w, h);
    Rasterizer::rasterize_triangle(&mut f, &mut d, w, h, &t);
    assert_eq!(f[get_index(6, 0, w, h)], Color::Green.rgb());
    assert_eq!(f[get_index(0, 6, w, h)], Color::Green.rgb());
}

#[test]
fn builder_requires_vertices() {
    let colors = [Rgb::blank(); 3];
    let r = TriangleBuilder::new().with_colors(&colors).build();
    assert_eq!(r.err(), Some(BuildError::NoVertices));
}

#[test]
fn builder_requires_a_color_source() {
    let vertices = [Vec3::new(0, 0, 0); 3];
    let r = TriangleBuilder::new().with_vertices(&vertices).build();
    assert_eq!(r.err(), Some(BuildError::NoColorSource));
    let r = TriangleBuilder::default().build();
    assert_eq!(r.err(), Some(BuildError::NoColorSource));
}

#[test]
fn builder_accepts_texture_coordinates_alone() {
    let vertices = [Vec3::new(0, 0, 0), Vec3::new(1, 0, 0), Vec3::new(0, 1, 0)];
    let tex = [Vec3::new(5, 6, 7); 3];
    let normals = [Vec3::new(0, 0, ONE); 3];
    let t = TriangleBuilder::new()
        .with_vertices(&vertices)
        .with_tex_coords(&tex)
        .with_normals(&normals)
        .build()
        .unwrap();
    assert_eq!(t.vertices, vertices);
    assert_eq!(t.colors, [Rgb::blank(); 3]);
    assert_eq!(t.tex_coords, tex);
    assert_eq!(t.normals, normals);
}

#[test]
fn flat_color_wins_over_vertex_colors() {
    let vertices = [Vec3::new(0, 0, 0), Vec3::new(1, 0, 0), Vec3::new(0, 1, 0)];
    let colors = [Color::Green.rgb(); 3];
    let t = TriangleBuilder::new()
        .with_vertices(&vertices)
        .with_colors(&colors)
        .with_color(Color::Blue)
        .build()
        .unwrap();
    assert_eq!(t.colors, [Color::Blue.rgb(); 3]);
}

#[test]
fn matte_triangle() {
    let t = Triangle::new_matte((1, 2, 3), (4, 5, 6), (7, 8, 9), Color::Red);
    assert_eq!(t.vertices, [Vec3::new(1, 2, 3), Vec3::new(4, 5, 6), Vec3::new(7, 8, 9)]);
    assert_eq!(t.colors, [Rgb::new(255, 0, 0); 3]);
    assert_eq!(t.tex_coords, [Vec3::new(0, 0, 0); 3]);
    let v = t.to_vector4();
    assert_eq!((v[2].x, v[2].y, v[2].z, v[2].w), (7, 8, 9, ONE as i128));
}

#[test]
fn vertices_keep_their_sub_pixel_position() {
    // The triangle (0, 0), (3.5, 0), (0, 7) holds the pixels with
    // 2x + y <= 7. Rounded to (3, 0), it would lose (3, 1), (2, 3) and
    // (1, 5), which lie on that edge.
    let (w, h) = (8usize, 8usize);
    let half = SUBPIXEL / 2;
    let t = screen_triangle([(0, 0, 0), (3 * SUBPIXEL + half, 0, 0), (0, 7 * SUBPIXEL, 0)], Color::Red.rgb());
    let (mut f, mut d) = buffers(w, h);
    Rasterizer::rasterize_triangle(&mut f, &mut d, w, h, &t);
    for &(x, y) in &[(3, 1), (2, 3), (1, 5), (3, 0), (0, 7), (1, 1)] {
        assert_eq!(f[get_index(x, y, w, h)], Color::Red.rgb(), "pixel ({}, {})", x, y);
    }
    for &(x, y) in &[(2, 4), (4, 0), (1, 6), (3, 2)] {
        assert_eq!(f[get_index(x, y, w, h)], Rgb::blank(), "pixel ({}, {})", x, y);
    }
}
