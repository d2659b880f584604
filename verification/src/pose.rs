//! Posing a mesh: the matrix of a transform, the normal of a triangle, a
//! mesh under a matrix, and a mesh under each transform of a set.

use vstd::prelude::*;
use crate::arith::Op;
use crate::geometry::{Mesh, Point, TransformSet, TransformSpec, Triangle, Vector};
use crate::matrix::{Matrix, apply, multiply, rotate_x, rotate_y, rotate_z, scale, translate};

verus! {

/// The matrices that the matrix of a transform is made from: those of its
/// five parts, and the products on the way.
pub struct CompositeTrace<S> {
    pub translation: Matrix<S>,
    pub about_z: Matrix<S>,
    pub about_y: Matrix<S>,
    pub about_x: Matrix<S>,
    pub scale: Matrix<S>,
    pub first: Matrix<S>,
    pub second: Matrix<S>,
    pub third: Matrix<S>,
}

/// `t` holds the parts of `spec`, and `m` is their product in the order
/// translation, rotation about z, about y, about x, scale, taken from the
/// left: ((((T Rz) Ry) Rx) S).
pub open spec fn is_composite_trace<S, E: Fn(Op<S>) -> S>(
    eval: &E,
    spec: TransformSpec<S>,
    t: CompositeTrace<S>,
    m: Matrix<S>,
) -> bool {
    &&& crate::matrix::is_translation(eval, spec.translation, t.translation)
    &&& crate::matrix::is_rotation_z(eval, spec.rotation.z, t.about_z)
    &&& crate::matrix::is_rotation_y(eval, spec.rotation.y, t.about_y)
    &&& crate::matrix::is_rotation_x(eval, spec.rotation.x, t.about_x)
    &&& crate::matrix::is_scale(eval, spec.scale, t.scale)
    &&& crate::matrix::is_product(eval, t.translation, t.about_z, t.first)
    &&& crate::matrix::is_product(eval, t.first, t.about_y, t.second)
    &&& crate::matrix::is_product(eval, t.second, t.about_x, t.third)
    &&& crate::matrix::is_product(eval, t.third, t.scale, m)
}

/// `m` is the matrix of `spec`: the scale is applied to a point first, then
/// the rotation about x, about y, about z, and last the translation.
pub open spec fn is_composite<S, E: Fn(Op<S>) -> S>(
    eval: &E,
    spec: TransformSpec<S>,
    m: Matrix<S>,
) -> bool {
    exists|t: CompositeTrace<S>| #[trigger] is_composite_trace(eval, spec, t, m)
}

/// `e` is `a` less `b`, in x, y and z.
pub open spec fn is_edge<S, E: Fn(Op<S>) -> S>(
    eval: &E,
    a: Point<S>,
    b: Point<S>,
    e: Vector<S>,
) -> bool {
    &&& crate::arith::gives(eval, Op::Sub(a.x, b.x), e.x)
    &&& crate::arith::gives(eval, Op::Sub(a.y, b.y), e.y)
    &&& crate::arith::gives(eval, Op::Sub(a.z, b.z), e.z)
}

/// `r` is `a * b - c * d`, by way of the products `ab` and `cd`.
pub open spec fn is_minor_trace<S, E: Fn(Op<S>) -> S>(
    eval: &E,
    a: S,
    b: S,
    c: S,
    d: S,
    ab: S,
    cd: S,
    r: S,
) -> bool {
    &&& crate::arith::gives(eval, Op::Mul(a, b), ab)
    &&& crate::arith::gives(eval, Op::Mul(c, d), cd)
    &&& crate::arith::gives(eval, Op::Sub(ab, cd), r)
}

/// `r` is `a * b - c * d`.
pub open spec fn is_minor<S, E: Fn(Op<S>) -> S>(eval: &E, a: S, b: S, c: S, d: S, r: S) -> bool {
    exists|ab: S, cd: S| #[trigger] is_minor_trace(eval, a, b, c, d, ab, cd, r)
}

/// `c` is the cross product of `a` and `b`.
pub open spec fn is_cross<S, E: Fn(Op<S>) -> S>(
    eval: &E,
    a: Vector<S>,
    b: Vector<S>,
    c: Vector<S>,
) -> bool {
    &&& is_minor(eval, a.y, b.z, a.z, b.y, c.x)
    &&& is_minor(eval, a.z, b.x, a.x, b.z, c.y)
    &&& is_minor(eval, a.x, b.y, a.y, b.x, c.z)
}

/// The squares of the components of a vector, and their sum as it grows.
pub struct LengthTrace<S> {
    pub xx: S,
    pub yy: S,
    pub zz: S,
    pub xx_yy: S,
    pub xx_yy_zz: S,
}

/// `len` is the root of `(x * x + y * y) + z * z`, by way of `t`.
pub open spec fn is_length_trace<S, E: Fn(Op<S>) -> S>(
    eval: &E,
    v: Vector<S>,
    t: LengthTrace<S>,
    len: S,
) -> bool {
    &&& crate::arith::gives(eval, Op::Mul(v.x, v.x), t.xx)
    &&& crate::arith::gives(eval, Op::Mul(v.y, v.y), t.yy)
    &&& crate::arith::gives(eval, Op::Mul(v.z, v.z), t.zz)
    &&& crate::arith::gives(eval, Op::Add(t.xx, t.yy), t.xx_yy)
    &&& crate::arith::gives(eval, Op::Add(t.xx_yy, t.zz), t.xx_yy_zz)
    &&& crate::arith::gives(eval, Op::Sqrt(t.xx_yy_zz), len)
}

/// `len` is the Euclidean length of `v`.
pub open spec fn is_length<S, E: Fn(Op<S>) -> S>(eval: &E, v: Vector<S>, len: S) -> bool {
    exists|t: LengthTrace<S>| #[trigger] is_length_trace(eval, v, t, len)
}

/// `n` is `v` with each component divided by `len`, and 1 for `w`.
pub open spec fn is_scaled_down<S, E: Fn(Op<S>) -> S>(
    eval: &E,
    v: Vector<S>,
    len: S,
    n: Point<S>,
) -> bool {
    &&& crate::arith::gives(eval, Op::Div(v.x, len), n.x)
    &&& crate::arith::gives(eval, Op::Div(v.y, len), n.y)
    &&& crate::arith::gives(eval, Op::Div(v.z, len), n.z)
    &&& crate::arith::gives(eval, Op::One, n.w)
}

/// What the normal of a triangle is made from: the two edges that leave its
/// first vertex, their cross product, and its length.
pub struct NormalTrace<S> {
    pub edge1: Vector<S>,
    pub edge2: Vector<S>,
    pub cross: Vector<S>,
    pub length: S,
}

/// `n` is the normal of the triangle `v0`, `v1`, `v2`, by way of `t`.
pub open spec fn is_normal_trace<S, E: Fn(Op<S>) -> S>(
    eval: &E,
    v0: Point<S>,
    v1: Point<S>,
    v2: Point<S>,
    t: NormalTrace<S>,
    n: Point<S>,
) -> bool {
    &&& is_edge(eval, v1, v0, t.edge1)
    &&& is_edge(eval, v2, v0, t.edge2)
    &&& is_cross(eval, t.edge1, t.edge2, t.cross)
    &&& is_length(eval, t.cross, t.length)
    &&& is_scaled_down(eval, t.cross, t.length, n)
}

/// `n` is the normal of the triangle `v0`, `v1`, `v2`: the cross product of
/// the edges from `v0` to `v1` and from `v0` to `v2`, divided by its length,
/// with 1 for `w`. The winding gives its direction. Nothing guards the
/// division: where the edges are parallel or one is of length 0, the normal
/// is what the evaluator makes of a division by 0.
pub open spec fn is_normal<S, E: Fn(Op<S>) -> S>(
    eval: &E,
    v0: Point<S>,
    v1: Point<S>,
    v2: Point<S>,
    n: Point<S>,
) -> bool {
    exists|t: NormalTrace<S>| #[trigger] is_normal_trace(eval, v0, v1, v2, t, n)
}

/// `to` is `from` under `m`: each vertex is `m` applied to the vertex in
/// its place, so the winding is kept, and the normal is that of the new
/// vertices.
pub open spec fn is_posed_triangle<S, E: Fn(Op<S>) -> S>(
    eval: &E,
    m: Matrix<S>,
    from: Triangle<S>,
    to: Triangle<S>,
) -> bool {
    &&& crate::matrix::is_applied(eval, m, from.vertex0, to.vertex0)
    &&& crate::matrix::is_applied(eval, m, from.vertex1, to.vertex1)
    &&& crate::matrix::is_applied(eval, m, from.vertex2, to.vertex2)
    &&& is_normal(eval, to.vertex0, to.vertex1, to.vertex2, to.normal)
}

/// `to` is the mesh `from` under `m`: triangle for triangle, in order.
pub open spec fn is_posed_mesh<S, E: Fn(Op<S>) -> S>(
    eval: &E,
    m: Matrix<S>,
    from: Seq<Triangle<S>>,
    to: Seq<Triangle<S>>,
) -> bool {
    &&& to.len() == from.len()
    &&& forall|i: int| 0 <= i < from.len() ==> is_posed_triangle(eval, m, from[i], #[trigger] to[i])
}

/// `to` is the mesh `from` under the matrix of `spec`.
pub open spec fn is_pose<S, E: Fn(Op<S>) -> S>(
    eval: &E,
    spec: TransformSpec<S>,
    from: Seq<Triangle<S>>,
    to: Seq<Triangle<S>>,
) -> bool {
    exists|m: Matrix<S>| #[trigger] is_composite(eval, spec, m) && is_posed_mesh(eval, m, from, to)
}

/// The matrix of a transform.
pub fn composite<S: Copy, E: Fn(Op<S>) -> S>(eval: &E, spec: &TransformSpec<S>) -> (m: Matrix<S>)
    requires
        crate::arith::total(eval),
    ensures
        is_composite(eval, *spec, m),
{
    let translation = translate(eval, &spec.translation);
    let about_z = rotate_z(eval, spec.rotation.z);
    let about_y = rotate_y(eval, spec.rotation.y);
    let about_x = rotate_x(eval, spec.rotation.x);
    let scale = scale(eval, &spec.scale);
    let first = multiply(eval, &translation, &about_z);
    let second = multiply(eval, &first, &about_y);
    let third = multiply(eval, &second, &about_x);
    let m = multiply(eval, &third, &scale);
    proof {
        let t = CompositeTrace {
            translation,
            about_z,
            about_y,
            about_x,
            scale,
            first,
            second,
            third,
        };
        assert(is_composite_trace(eval, *spec, t, m));
    }
    m
}

fn edge<S: Copy, E: Fn(Op<S>) -> S>(eval: &E, a: &Point<S>, b: &Point<S>) -> (e: Vector<S>)
    requires
        crate::arith::total(eval),
    ensures
        is_edge(eval, *a, *b, e),
{
    Vector {
        x: eval(Op::Sub(a.x, b.x)),
        y: eval(Op::Sub(a.y, b.y)),
        z: eval(Op::Sub(a.z, b.z)),
    }
}

fn minor<S: Copy, E: Fn(Op<S>) -> S>(eval: &E, a: S, b: S, c: S, d: S) -> (r: S)
    requires
        crate::arith::total(eval),
    ensures
        is_minor(eval, a, b, c, d, r),
{
    let ab = eval(Op::Mul(a, b));
    let cd = eval(Op::Mul(c, d));
    let r = eval(Op::Sub(ab, cd));
    proof {
        assert(is_minor_trace(eval, a, b, c, d, ab, cd, r));
    }
    r
}

fn cross<S: Copy, E: Fn(Op<S>) -> S>(eval: &E, a: &Vector<S>, b: &Vector<S>) -> (c: Vector<S>)
    requires
        crate::arith::total(eval),
    ensures
        is_cross(eval, *a, *b, c),
{
    Vector {
        x: minor(eval, a.y, b.z, a.z, b.y),
        y: minor(eval, a.z, b.x, a.x, b.z),
        z: minor(eval, a.x, b.y, a.y, b.x),
    }
}

fn length<S: Copy, E: Fn(Op<S>) -> S>(eval: &E, v: &Vector<S>) -> (len: S)
    requires
        crate::arith::total(eval),
    ensures
        is_length(eval, *v, len),
{
    let xx = eval(Op::Mul(v.x, v.x));
    let yy = eval(Op::Mul(v.y, v.y));
    let zz = eval(Op::Mul(v.z, v.z));
    let xx_yy = eval(Op::Add(xx, yy));
    let xx_yy_zz = eval(Op::Add(xx_yy, zz));
    let len = eval(Op::Sqrt(xx_yy_zz));
    proof {
        let t = LengthTrace { xx, yy, zz, xx_yy, xx_yy_zz };
        assert(is_length_trace(eval, *v, t, len));
    }
    len
}

/// The normal of the triangle `v0`, `v1`, `v2`.
pub fn normal<S: Copy, E: Fn(Op<S>) -> S>(
    eval: &E,
    v0: &Point<S>,
    v1: &Point<S>,
    v2: &Point<S>,
) -> (n: Point<S>)
    requires
        crate::arith::total(eval),
    ensures
        is_normal(eval, *v0, *v1, *v2, n),
{
    let edge1 = edge(eval, v1, v0);
    let edge2 = edge(eval, v2, v0);
    let cross = cross(eval, &edge1, &edge2);
    let length = length(eval, &cross);
    let n = Point {
        x: eval(Op::Div(cross.x, length)),
        y: eval(Op::Div(cross.y, length)),
        z: eval(Op::Div(cross.z, length)),
        w: eval(Op::One),
    };
    proof {
        let t = NormalTrace { edge1, edge2, cross, length };
        assert(is_normal_trace(eval, *v0, *v1, *v2, t, n));
    }
    n
}

/// The triangle under `m`.
pub fn transform_triangle<S: Copy, E: Fn(Op<S>) -> S>(
    eval: &E,
    m: &Matrix<S>,
    triangle: &Triangle<S>,
) -> (r: Triangle<S>)
    requires
        crate::arith::total(eval),
    ensures
        is_posed_triangle(eval, *m, *triangle, r),
{
    let vertex0 = apply(eval, m, &triangle.vertex0);
    let vertex1 = apply(eval, m, &triangle.vertex1);
    let vertex2 = apply(eval, m, &triangle.vertex2);
    let normal = normal(eval, &vertex0, &vertex1, &vertex2);
    Triangle { vertex0, vertex1, vertex2, normal }
}

/// The mesh under `m`: a new mesh with a triangle for each triangle of
/// `mesh`, in order.
pub fn transform<S: Copy, E: Fn(Op<S>) -> S>(eval: &E, mesh: &Mesh<S>, m: &Matrix<S>) -> (r: Mesh<
    S,
>)
    requires
        crate::arith::total(eval),
    ensures
        is_posed_mesh(eval, *m, mesh@, r@),
{
    let triangles = mesh.triangles();
    let mut r: Mesh<S> = Mesh::new();
    let mut i: usize = 0;
    while i < triangles.len()
        invariant
            crate::arith::total(eval),
            triangles@ == mesh@,
            i <= triangles@.len(),
            r@.len() == i,
            forall|k: int| 0 <= k < i ==> is_posed_triangle(eval, *m, mesh@[k], #[trigger] r@[k]),
        decreases triangles@.len() - i,
    {
        r.push(transform_triangle(eval, m, &triangles[i]));
        i += 1;
    }
    r
}

/// The mesh under each transform of the set: pose `i` is `base` under the
/// matrix of transform `i`.
pub fn pose_all<S: Copy, E: Fn(Op<S>) -> S>(
    eval: &E,
    base: &Mesh<S>,
    set: &TransformSet<S>,
) -> (r: Vec<Mesh<S>>)
    requires
        crate::arith::total(eval),
    ensures
        r@.len() == set@.len(),
        forall|i: int| 0 <= i < set@.len() ==> is_pose(eval, set@[i], base@, (#[trigger] r@[i])@),
{
    let specs = set.specs();
    let mut r: Vec<Mesh<S>> = Vec::new();
    let mut i: usize = 0;
    while i < specs.len()
        invariant
            crate::arith::total(eval),
            specs@ == set@,
            i <= specs@.len(),
            r@.len() == i,
            forall|k: int| 0 <= k < i ==> is_pose(eval, set@[k], base@, (#[trigger] r@[k])@),
        decreases specs@.len() - i,
    {
        let m = composite(eval, &specs[i]);
        let posed = transform(eval, base, &m);
        proof {
            assert(is_composite(eval, set@[i as int], m) && is_posed_mesh(eval, m, base@, posed@));
        }
        r.push(posed);
        i += 1;
    }
    r
}

} // verus!
