//! The geometric data: points in homogeneous coordinates, triangles with
//! their normals, meshes, and the parameters of a transform.
//!
//! The types are generic in the scalar `S` that a coordinate is held in.
//! Text that has been read holds `Number`s.

use vstd::prelude::*;
use crate::number::Number;

verus! {

/// Three components: a scale, a rotation in degrees, or a translation, one
/// value for each axis.
#[derive(Clone, Copy, Debug, PartialEq)]
pub struct Vector<S> {
    pub x: S,
    pub y: S,
    pub z: S,
}

/// A point in homogeneous coordinates. `w` is 1 for a position.
#[derive(Clone, Copy, Debug, PartialEq)]
pub struct Point<S> {
    pub x: S,
    pub y: S,
    pub z: S,
    pub w: S,
}

/// Three vertices, whose order is the winding, and the normal.
#[derive(Clone, Copy, Debug, PartialEq)]
pub struct Triangle<S> {
    pub vertex0: Point<S>,
    pub vertex1: Point<S>,
    pub vertex2: Point<S>,
    pub normal: Point<S>,
}

/// The parameters of one pose: scale, rotation in degrees and translation.
#[derive(Clone, Copy, Debug, PartialEq)]
pub struct TransformSpec<S> {
    pub scale: Vector<S>,
    pub rotation: Vector<S>,
    pub translation: Vector<S>,
}

impl<S> Vector<S> {
    /// Component `i`: `x`, `y` and `z` are 0, 1 and 2.
    pub open spec fn component(self, i: int) -> S {
        if i == 0 {
            self.x
        } else if i == 1 {
            self.y
        } else {
            self.z
        }
    }
}

impl<S> Point<S> {
    /// The four coordinates in the order x, y, z, w.
    pub open spec fn coordinates(self) -> Seq<S> {
        seq![self.x, self.y, self.z, self.w]
    }
}

impl Vector<Number> {
    /// The literals of the three components.
    pub open spec fn text(self) -> Vector<Seq<u8>> {
        Vector { x: self.x@, y: self.y@, z: self.z@ }
    }
}

impl Point<Number> {
    /// The literals of the four components.
    pub open spec fn text(self) -> Point<Seq<u8>> {
        Point { x: self.x@, y: self.y@, z: self.z@, w: self.w@ }
    }
}

impl Triangle<Number> {
    /// The triangle with each coordinate as its literal.
    pub open spec fn text(self) -> Triangle<Seq<u8>> {
        Triangle {
            vertex0: self.vertex0.text(),
            vertex1: self.vertex1.text(),
            vertex2: self.vertex2.text(),
            normal: self.normal.text(),
        }
    }
}

impl TransformSpec<Number> {
    /// The parameters with each component as its literal.
    pub open spec fn text(self) -> TransformSpec<Seq<u8>> {
        TransformSpec {
            scale: self.scale.text(),
            rotation: self.rotation.text(),
            translation: self.translation.text(),
        }
    }
}

/// An ordered sequence of triangles. Its triangle count is the length of
/// that sequence and nothing else.
#[derive(Clone, Debug, PartialEq)]
pub struct Mesh<S> {
    triangles: Vec<Triangle<S>>,
}

impl<S> View for Mesh<S> {
    type V = Seq<Triangle<S>>;

    closed spec fn view(&self) -> Seq<Triangle<S>> {
        self.triangles@
    }
}

impl<S> Mesh<S> {
    /// The mesh without a triangle.
    pub fn new() -> (m: Self)
        ensures
            m@ == Seq::<Triangle<S>>::empty(),
    {
        Mesh { triangles: Vec::new() }
    }

    /// The mesh of the given triangles, in their order.
    pub fn from_triangles(triangles: Vec<Triangle<S>>) -> (m: Self)
        ensures
            m@ == triangles@,
    {
        Mesh { triangles }
    }

    /// Appends a triangle.
    pub fn push(&mut self, triangle: Triangle<S>)
        ensures
            final(self)@ == old(self)@.push(triangle),
    {
        self.triangles.push(triangle);
    }

    /// How many triangles the mesh has.
    pub fn triangle_count(&self) -> (n: usize)
        ensures
            n == self@.len(),
    {
        self.triangles.len()
    }

    /// The triangles, in order.
    pub fn triangles(&self) -> (t: &Vec<Triangle<S>>)
        ensures
            t@ == self@,
    {
        &self.triangles
    }
}

impl Mesh<Number> {
    /// The mesh with each coordinate as its literal.
    pub open spec fn text(self) -> Seq<Triangle<Seq<u8>>> {
        self@.map_values(|t: Triangle<Number>| t.text())
    }
}

/// An ordered sequence of transforms: pose `i` of the output comes from
/// entry `i`.
#[derive(Clone, Debug, PartialEq)]
pub struct TransformSet<S> {
    specs: Vec<TransformSpec<S>>,
}

impl<S> View for TransformSet<S> {
    type V = Seq<TransformSpec<S>>;

    closed spec fn view(&self) -> Seq<TransformSpec<S>> {
        self.specs@
    }
}

impl<S> TransformSet<S> {
    /// The set without a transform.
    pub fn new() -> (t: Self)
        ensures
            t@ == Seq::<TransformSpec<S>>::empty(),
    {
        TransformSet { specs: Vec::new() }
    }

    /// Appends a transform.
    pub fn push(&mut self, spec: TransformSpec<S>)
        ensures
            final(self)@ == old(self)@.push(spec),
    {
        self.specs.push(spec);
    }

    /// How many transforms the set has.
    pub fn len(&self) -> (n: usize)
        ensures
            n == self@.len(),
    {
        self.specs.len()
    }

    /// The transforms, in order.
    pub fn specs(&self) -> (s: &Vec<TransformSpec<S>>)
        ensures
            s@ == self@,
    {
        &self.specs
    }
}

impl TransformSet<Number> {
    /// The set with each component as its literal.
    pub open spec fn text(self) -> Seq<TransformSpec<Seq<u8>>> {
        self@.map_values(|t: TransformSpec<Number>| t.text())
    }
}

/// `to` is `from` with each component converted by `f`.
pub open spec fn is_converted_vector<S, T, F: Fn(&S) -> T>(
    f: &F,
    from: Vector<S>,
    to: Vector<T>,
) -> bool {
    &&& f.ensures((&from.x,), to.x)
    &&& f.ensures((&from.y,), to.y)
    &&& f.ensures((&from.z,), to.z)
}

/// `to` is `from` with each coordinate converted by `f`.
pub open spec fn is_converted_point<S, T, F: Fn(&S) -> T>(
    f: &F,
    from: Point<S>,
    to: Point<T>,
) -> bool {
    &&& f.ensures((&from.x,), to.x)
    &&& f.ensures((&from.y,), to.y)
    &&& f.ensures((&from.z,), to.z)
    &&& f.ensures((&from.w,), to.w)
}

/// `to` is `from` with each coordinate converted by `f`: vertex for vertex,
/// and the normal.
pub open spec fn is_converted_triangle<S, T, F: Fn(&S) -> T>(
    f: &F,
    from: Triangle<S>,
    to: Triangle<T>,
) -> bool {
    &&& is_converted_point(f, from.vertex0, to.vertex0)
    &&& is_converted_point(f, from.vertex1, to.vertex1)
    &&& is_converted_point(f, from.vertex2, to.vertex2)
    &&& is_converted_point(f, from.normal, to.normal)
}

/// `to` is `from` with each coordinate converted by `f`: triangle for
/// triangle, in order.
pub open spec fn is_converted_mesh<S, T, F: Fn(&S) -> T>(
    f: &F,
    from: Seq<Triangle<S>>,
    to: Seq<Triangle<T>>,
) -> bool {
    &&& to.len() == from.len()
    &&& forall|i: int| 0 <= i < from.len() ==> is_converted_triangle(f, from[i], #[trigger] to[i])
}

/// `to` is `from` with each component converted by `f`.
pub open spec fn is_converted_spec<S, T, F: Fn(&S) -> T>(
    f: &F,
    from: TransformSpec<S>,
    to: TransformSpec<T>,
) -> bool {
    &&& is_converted_vector(f, from.scale, to.scale)
    &&& is_converted_vector(f, from.rotation, to.rotation)
    &&& is_converted_vector(f, from.translation, to.translation)
}

/// `to` is `from` with each component converted by `f`: transform for
/// transform, in order.
pub open spec fn is_converted_set<S, T, F: Fn(&S) -> T>(
    f: &F,
    from: Seq<TransformSpec<S>>,
    to: Seq<TransformSpec<T>>,
) -> bool {
    &&& to.len() == from.len()
    &&& forall|i: int| 0 <= i < from.len() ==> is_converted_spec(f, from[i], #[trigger] to[i])
}

/// `f` takes every scalar.
pub open spec fn converts_all<S, T, F: Fn(&S) -> T>(f: &F) -> bool {
    forall|s: &S| f.requires((s,))
}

impl<S> Vector<S> {
    /// The vector with each component converted by `f`.
    pub fn convert<T, F: Fn(&S) -> T>(&self, f: &F) -> (r: Vector<T>)
        requires
            converts_all(f),
        ensures
            is_converted_vector(f, *self, r),
    {
        Vector { x: f(&self.x), y: f(&self.y), z: f(&self.z) }
    }
}

impl<S> Point<S> {
    /// The point with each coordinate converted by `f`.
    pub fn convert<T, F: Fn(&S) -> T>(&self, f: &F) -> (r: Point<T>)
        requires
            converts_all(f),
        ensures
            is_converted_point(f, *self, r),
    {
        Point { x: f(&self.x), y: f(&self.y), z: f(&self.z), w: f(&self.w) }
    }
}

impl<S> Triangle<S> {
    /// The triangle with each coordinate converted by `f`.
    pub fn convert<T, F: Fn(&S) -> T>(&self, f: &F) -> (r: Triangle<T>)
        requires
            converts_all(f),
        ensures
            is_converted_triangle(f, *self, r),
    {
        Triangle {
            vertex0: self.vertex0.convert(f),
            vertex1: self.vertex1.convert(f),
            vertex2: self.vertex2.convert(f),
            normal: self.normal.convert(f),
        }
    }
}

impl<S> TransformSpec<S> {
    /// The transform with each component converted by `f`.
    pub fn convert<T, F: Fn(&S) -> T>(&self, f: &F) -> (r: TransformSpec<T>)
        requires
            converts_all(f),
        ensures
            is_converted_spec(f, *self, r),
    {
        TransformSpec {
            scale: self.scale.convert(f),
            rotation: self.rotation.convert(f),
            translation: self.translation.convert(f),
        }
    }
}

impl<S> Mesh<S> {
    /// The mesh with each coordinate converted by `f`.
    pub fn convert<T, F: Fn(&S) -> T>(&self, f: &F) -> (r: Mesh<T>)
        requires
            converts_all(f),
        ensures
            is_converted_mesh(f, self@, r@),
    {
        let mut r: Mesh<T> = Mesh::new();
        let mut i: usize = 0;
        while i < self.triangles.len()
            invariant
                converts_all(f),
                i <= self.triangles@.len(),
                r@.len() == i,
                forall|k: int|
                    0 <= k < i ==> is_converted_triangle(f, self.triangles@[k], #[trigger] r@[k]),
            decreases self.triangles@.len() - i,
        {
            r.push(self.triangles[i].convert(f));
            i += 1;
        }
        r
    }
}

impl<S> TransformSet<S> {
    /// The set with each component converted by `f`.
    pub fn convert<T, F: Fn(&S) -> T>(&self, f: &F) -> (r: TransformSet<T>)
        requires
            converts_all(f),
        ensures
            is_converted_set(f, self@, r@),
    {
        let mut r: TransformSet<T> = TransformSet::new();
        let mut i: usize = 0;
        while i < self.specs.len()
            invariant
                converts_all(f),
                i <= self.specs@.len(),
                r@.len() == i,
                forall|k: int|
                    0 <= k < i ==> is_converted_spec(f, self.specs@[k], #[trigger] r@[k]),
            decreases self.specs@.len() - i,
        {
            r.push(self.specs[i].convert(f));
            i += 1;
        }
        r
    }
}

} // verus!
