//! Triangles and their builder.
use vstd::prelude::*;
use crate::color::{Color, Rgb, color_rgb};
use crate::rasterizer::{compute_barycentric_2_d, inside_spec};
use crate::utils::{Vec3, Vec4, ONE};

verus! {

/// A triangle: three vertices, a color per vertex, and texture coordinates
/// and normals, which are carried along but not used in drawing.
#[derive(Clone, Copy, Debug)]
pub struct Triangle {
    pub vertices: [Vec3; 3],
    pub colors: [Rgb; 3],
    pub tex_coords: [Vec3; 3],
    pub normals: [Vec3; 3],
}

/// Why a triangle could not be built.
#[derive(Clone, Copy, PartialEq, Eq, Structural, Debug)]
pub enum BuildError {
    /// No vertices were supplied.
    NoVertices,
    /// Neither per-vertex colors, a flat color nor texture coordinates were
    /// supplied.
    NoColorSource,
}

pub open spec fn zero_vec3() -> Vec3 {
    Vec3 { x: 0, y: 0, z: 0 }
}

pub open spec fn zeros3() -> [Vec3; 3] {
    [zero_vec3(), zero_vec3(), zero_vec3()]
}

pub open spec fn blank3() -> [Rgb; 3] {
    [Rgb { r: 0, g: 0, b: 0 }, Rgb { r: 0, g: 0, b: 0 }, Rgb { r: 0, g: 0, b: 0 }]
}

/// The homogeneous form of a vertex, with `w` equal to 1.0.
pub open spec fn vec4_of(v: Vec3) -> Vec4 {
    Vec4 { x: v.x as i128, y: v.y as i128, z: v.z as i128, w: ONE as i128 }
}

impl Triangle {
    /// The three vertices in homogeneous form.
    pub fn to_vector4(&self) -> (r: [Vec4; 3])
        ensures
            forall|i: int| 0 <= i < 3 ==> r@[i] == vec4_of(#[trigger] self.vertices@[i]),
    {
        let mut out = [Vec4 { x: 0, y: 0, z: 0, w: 0 }; 3];
        let mut i: usize = 0;
        while i < 3
            invariant
                0 <= i <= 3,
                forall|j: int| 0 <= j < i ==> out@[j] == vec4_of(#[trigger] self.vertices@[j]),
            decreases 3 - i,
        {
            let v = self.vertices[i];
            out[i] = Vec4 { x: v.x as i128, y: v.y as i128, z: v.z as i128, w: ONE as i128 };
            i += 1;
        }
        out
    }

    /// Whether the point `(x, y)` lies inside the triangle's projection onto
    /// the xy-plane, edges included; a triangle of zero area holds no point.
    pub fn inside_triangle(&self, x: i64, y: i64) -> (r: bool)
        requires
            -0x400_0000_0000 <= x <= 0x400_0000_0000,
            -0x400_0000_0000 <= y <= 0x400_0000_0000,
        ensures
            r == inside_spec(x as int, y as int, self.vertices@),
    {
        let b = compute_barycentric_2_d(x, y, &self.vertices);
        b.is_inside()
    }

    /// A triangle of one flat color.
    pub fn new_matte(v_a: (i32, i32, i32), v_b: (i32, i32, i32), v_c: (i32, i32, i32), color: Color) -> (t: Triangle)
        ensures
            t.vertices@ == seq![
                Vec3 { x: v_a.0, y: v_a.1, z: v_a.2 },
                Vec3 { x: v_b.0, y: v_b.1, z: v_b.2 },
                Vec3 { x: v_c.0, y: v_c.1, z: v_c.2 },
            ],
            t.colors@ == seq![color_rgb(color), color_rgb(color), color_rgb(color)],
            t.tex_coords == zeros3(),
            t.normals == zeros3(),
    {
        let vertices = [
            Vec3::new(v_a.0, v_a.1, v_a.2),
            Vec3::new(v_b.0, v_b.1, v_b.2),
            Vec3::new(v_c.0, v_c.1, v_c.2),
        ];
        let r = TriangleBuilder::new().with_vertices(&vertices).with_color(color).build();
        match r {
            Ok(t) => {
                assert(t.vertices@ =~= vertices@);
                assert(t.colors@ =~= seq![color_rgb(color), color_rgb(color), color_rgb(color)]);
                t
            },
            Err(_) => {
                // Unreachable: the builder has vertices and a flat color.
                let c = color.rgb();
                let zero = Vec3::new(0, 0, 0);
                Triangle { vertices, colors: [c, c, c], tex_coords: [zero; 3], normals: [zero; 3] }
            },
        }
    }
}

/// Collects the parts of a triangle; `build` checks that the required ones
/// are there.
pub struct TriangleBuilder<'a> {
    pub vertices: Option<&'a [Vec3; 3]>,
    pub colors: Option<&'a [Rgb; 3]>,
    pub color: Option<Color>,
    pub tex_coords: Option<&'a [Vec3; 3]>,
    pub normals: Option<&'a [Vec3; 3]>,
}

/// What `build` makes of a builder, or the error it reports.
pub open spec fn build_spec(b: TriangleBuilder) -> Result<Triangle, BuildError> {
    if b.colors.is_none() && b.color.is_none() && b.tex_coords.is_none() {
        Err(BuildError::NoColorSource)
    } else if b.vertices.is_none() {
        Err(BuildError::NoVertices)
    } else {
        Ok(
            Triangle {
                vertices: *b.vertices.unwrap(),
                colors: match b.color {
                    Some(c) => [color_rgb(c), color_rgb(c), color_rgb(c)],
                    None => match b.colors {
                        Some(cs) => *cs,
                        None => blank3(),
                    },
                },
                tex_coords: match b.tex_coords {
                    Some(t) => *t,
                    None => zeros3(),
                },
                normals: match b.normals {
                    Some(n) => *n,
                    None => zeros3(),
                },
            },
        )
    }
}

impl<'a> TriangleBuilder<'a> {
    pub fn new() -> (b: Self)
        ensures
            b.vertices.is_none(),
            b.colors.is_none(),
            b.color.is_none(),
            b.tex_coords.is_none(),
            b.normals.is_none(),
    {
        TriangleBuilder { vertices: None, colors: None, color: None, tex_coords: None, normals: None }
    }

    pub fn with_vertices(self, vertices: &'a [Vec3; 3]) -> (b: Self)
        ensures
            b == (TriangleBuilder { vertices: Some(vertices), ..self }),
    {
        TriangleBuilder { vertices: Some(vertices), ..self }
    }

    pub fn with_colors(self, colors: &'a [Rgb; 3]) -> (b: Self)
        ensures
            b == (TriangleBuilder { colors: Some(colors), ..self }),
    {
        TriangleBuilder { colors: Some(colors), ..self }
    }

    pub fn with_color(self, color: Color) -> (b: Self)
        ensures
            b == (TriangleBuilder { color: Some(color), ..self }),
    {
        TriangleBuilder { color: Some(color), ..self }
    }

    pub fn with_tex_coords(self, tex_coords: &'a [Vec3; 3]) -> (b: Self)
        ensures
            b == (TriangleBuilder { tex_coords: Some(tex_coords), ..self }),
    {
        TriangleBuilder { tex_coords: Some(tex_coords), ..self }
    }

    pub fn with_normals(self, normals: &'a [Vec3; 3]) -> (b: Self)
        ensures
            b == (TriangleBuilder { normals: Some(normals), ..self }),
    {
        TriangleBuilder { normals: Some(normals), ..self }
    }

    /// Makes the triangle. A flat color, when given, wins over per-vertex
    /// colors; parts left out are zero.
    pub fn build(self) -> (r: Result<Triangle, BuildError>)
        ensures
            r == build_spec(self),
    {
        if self.colors.is_none() && self.color.is_none() && self.tex_coords.is_none() {
            return Err(BuildError::NoColorSource);
        }
        let vertices = match self.vertices {
            Some(v) => *v,
            None => {
                return Err(BuildError::NoVertices);
            },
        };
        let colors = match self.color {
            Some(c) => {
                let rgb = c.rgb();
                [rgb, rgb, rgb]
            },
            None => match self.colors {
                Some(cs) => *cs,
                None => [Rgb::blank(), Rgb::blank(), Rgb::blank()],
            },
        };
        let zero = Vec3::new(0, 0, 0);
        let tex_coords = match self.tex_coords {
            Some(t) => *t,
            None => [zero, zero, zero],
        };
        let normals = match self.normals {
            Some(n) => *n,
            None => [zero, zero, zero],
        };
        Ok(Triangle { vertices, colors, tex_coords, normals })
    }
}

impl<'a> Default for TriangleBuilder<'a> {
    fn default() -> (b: Self)
        ensures
            b.vertices.is_none(),
            b.colors.is_none(),
            b.color.is_none(),
            b.tex_coords.is_none(),
            b.normals.is_none(),
    {
        Self::new()
    }
}

} // verus!
