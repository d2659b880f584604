//! Matrices of four rows and four columns: the identity, the matrices of
//! scale, rotation and translation, the product, and a matrix applied to a
//! point.

use vstd::prelude::*;
use crate::arith::Op;
use crate::geometry::{Point, Vector};

verus! {

/// A matrix of four rows and four columns, row by row.
#[derive(Clone, Copy, Debug, PartialEq)]
pub struct Matrix<S> {
    pub rows: [[S; 4]; 4],
}

impl<S> Matrix<S> {
    /// The entry in row `i`, column `j`.
    pub open spec fn at(self, i: int, j: int) -> S {
        self.rows@[i]@[j]
    }

    /// Row `i`, from left to right.
    pub open spec fn row(self, i: int) -> Seq<S> {
        seq![self.at(i, 0), self.at(i, 1), self.at(i, 2), self.at(i, 3)]
    }

    /// Column `j`, from top to bottom.
    pub open spec fn column(self, j: int) -> Seq<S> {
        seq![self.at(0, j), self.at(1, j), self.at(2, j), self.at(3, j)]
    }
}

/// `x` can stand in row `i`, column `j` of the identity: a 1 on the
/// diagonal, a 0 elsewhere.
pub open spec fn is_unit_entry<S, E: Fn(Op<S>) -> S>(eval: &E, i: int, j: int, x: S) -> bool {
    crate::arith::gives(
        eval,
        if i == j {
            Op::One
        } else {
            Op::Zero
        },
        x,
    )
}

/// `m` is the identity.
pub open spec fn is_identity<S, E: Fn(Op<S>) -> S>(eval: &E, m: Matrix<S>) -> bool {
    forall|i: int, j: int|
        0 <= i < 4 && 0 <= j < 4 ==> is_unit_entry(eval, i, j, #[trigger] m.at(i, j))
}

/// `m` is the matrix of the scale `v`: the identity but for `v.x`, `v.y`
/// and `v.z` down the diagonal.
pub open spec fn is_scale<S, E: Fn(Op<S>) -> S>(eval: &E, v: Vector<S>, m: Matrix<S>) -> bool {
    forall|i: int, j: int|
        0 <= i < 4 && 0 <= j < 4 ==> if i == j && i < 3 {
            #[trigger] m.at(i, j) == v.component(i)
        } else {
            is_unit_entry(eval, i, j, m.at(i, j))
        }
}

/// `m` is the matrix of the translation `v`: the identity but for `v.x`,
/// `v.y` and `v.z` down the last column.
pub open spec fn is_translation<S, E: Fn(Op<S>) -> S>(
    eval: &E,
    v: Vector<S>,
    m: Matrix<S>,
) -> bool {
    forall|i: int, j: int|
        0 <= i < 4 && 0 <= j < 4 ==> if j == 3 && i < 3 {
            #[trigger] m.at(i, j) == v.component(i)
        } else {
            is_unit_entry(eval, i, j, m.at(i, j))
        }
}

/// `m` is the identity but for a rotation in the plane of the axes `p` and
/// `q`: `c` in both places of the diagonal, `s` in row `q`, column `p`, and
/// `n` in row `p`, column `q`.
pub open spec fn is_plane_rotation<S, E: Fn(Op<S>) -> S>(
    eval: &E,
    p: int,
    q: int,
    c: S,
    s: S,
    n: S,
    m: Matrix<S>,
) -> bool {
    forall|i: int, j: int|
        0 <= i < 4 && 0 <= j < 4 ==> if (i == p && j == p) || (i == q && j == q) {
            #[trigger] m.at(i, j) == c
        } else if i == q && j == p {
            m.at(i, j) == s
        } else if i == p && j == q {
            m.at(i, j) == n
        } else {
            is_unit_entry(eval, i, j, m.at(i, j))
        }
}

/// `c`, `s` and `n` are the cosine of the angle, its sine, and the sine
/// times -1.
pub open spec fn is_turn<S, E: Fn(Op<S>) -> S>(eval: &E, degrees: S, c: S, s: S, n: S) -> bool {
    &&& crate::arith::gives(eval, Op::CosDegrees(degrees), c)
    &&& crate::arith::gives(eval, Op::SinDegrees(degrees), s)
    &&& crate::arith::gives(eval, Op::Negate(s), n)
}

/// `m` is the rotation about the x axis: the cosine in rows 1 and 2 of the
/// diagonal, the sine in row 2, column 1, its negative in row 1, column 2.
pub open spec fn is_rotation_x<S, E: Fn(Op<S>) -> S>(eval: &E, degrees: S, m: Matrix<S>) -> bool {
    is_turn(eval, degrees, m.at(1, 1), m.at(2, 1), m.at(1, 2)) && is_plane_rotation(
        eval,
        1,
        2,
        m.at(1, 1),
        m.at(2, 1),
        m.at(1, 2),
        m,
    )
}

/// `m` is the rotation about the y axis: the cosine in rows 0 and 2 of the
/// diagonal, the sine in row 0, column 2, its negative in row 2, column 0.
pub open spec fn is_rotation_y<S, E: Fn(Op<S>) -> S>(eval: &E, degrees: S, m: Matrix<S>) -> bool {
    is_turn(eval, degrees, m.at(0, 0), m.at(0, 2), m.at(2, 0)) && is_plane_rotation(
        eval,
        2,
        0,
        m.at(0, 0),
        m.at(0, 2),
        m.at(2, 0),
        m,
    )
}

/// `m` is the rotation about the z axis: the cosine in rows 0 and 1 of the
/// diagonal, the sine in row 1, column 0, its negative in row 0, column 1.
pub open spec fn is_rotation_z<S, E: Fn(Op<S>) -> S>(eval: &E, degrees: S, m: Matrix<S>) -> bool {
    is_turn(eval, degrees, m.at(0, 0), m.at(1, 0), m.at(0, 1)) && is_plane_rotation(
        eval,
        0,
        1,
        m.at(0, 0),
        m.at(1, 0),
        m.at(0, 1),
        m,
    )
}

/// What the sum of four products is made from: the products, and the sum
/// as it grows.
pub struct DotTrace<S> {
    pub zero: S,
    pub product0: S,
    pub sum0: S,
    pub product1: S,
    pub sum1: S,
    pub product2: S,
    pub sum2: S,
    pub product3: S,
}

/// `r` is the sum of the products of `a` and `b`, place by place, by way of
/// `t`: the sum starts at 0, and each product is added to it in turn.
pub open spec fn is_dot_trace<S, E: Fn(Op<S>) -> S>(
    eval: &E,
    a: Seq<S>,
    b: Seq<S>,
    t: DotTrace<S>,
    r: S,
) -> bool {
    &&& crate::arith::gives(eval, Op::Zero, t.zero)
    &&& crate::arith::gives(eval, Op::Mul(a[0], b[0]), t.product0)
    &&& crate::arith::gives(eval, Op::Add(t.zero, t.product0), t.sum0)
    &&& crate::arith::gives(eval, Op::Mul(a[1], b[1]), t.product1)
    &&& crate::arith::gives(eval, Op::Add(t.sum0, t.product1), t.sum1)
    &&& crate::arith::gives(eval, Op::Mul(a[2], b[2]), t.product2)
    &&& crate::arith::gives(eval, Op::Add(t.sum1, t.product2), t.sum2)
    &&& crate::arith::gives(eval, Op::Mul(a[3], b[3]), t.product3)
    &&& crate::arith::gives(eval, Op::Add(t.sum2, t.product3), r)
}

/// `r` is the sum of the products of `a` and `b`, place by place, added up
/// from 0 in the order of the places.
pub open spec fn is_dot<S, E: Fn(Op<S>) -> S>(eval: &E, a: Seq<S>, b: Seq<S>, r: S) -> bool {
    exists|t: DotTrace<S>| #[trigger] is_dot_trace(eval, a, b, t, r)
}

/// `r` is the product of `a` and `b`: each entry is its row of `a` times its
/// column of `b`.
pub open spec fn is_product<S, E: Fn(Op<S>) -> S>(
    eval: &E,
    a: Matrix<S>,
    b: Matrix<S>,
    r: Matrix<S>,
) -> bool {
    forall|i: int, j: int|
        0 <= i < 4 && 0 <= j < 4 ==> is_dot(eval, a.row(i), b.column(j), #[trigger] r.at(i, j))
}

/// `r` is `m` applied to `p`: each coordinate is its row of `m` times the
/// four coordinates of `p`. Nothing is divided by `w`.
pub open spec fn is_applied<S, E: Fn(Op<S>) -> S>(
    eval: &E,
    m: Matrix<S>,
    p: Point<S>,
    r: Point<S>,
) -> bool {
    &&& is_dot(eval, m.row(0), p.coordinates(), r.x)
    &&& is_dot(eval, m.row(1), p.coordinates(), r.y)
    &&& is_dot(eval, m.row(2), p.coordinates(), r.z)
    &&& is_dot(eval, m.row(3), p.coordinates(), r.w)
}

/// The identity.
pub fn identity<S: Copy, E: Fn(Op<S>) -> S>(eval: &E) -> (m: Matrix<S>)
    requires
        crate::arith::total(eval),
    ensures
        is_identity(eval, m),
{
    let z = eval(Op::Zero);
    let o = eval(Op::One);
    Matrix { rows: [[o, z, z, z], [z, o, z, z], [z, z, o, z], [z, z, z, o]] }
}

/// The matrix of a scale.
pub fn scale<S: Copy, E: Fn(Op<S>) -> S>(eval: &E, v: &Vector<S>) -> (m: Matrix<S>)
    requires
        crate::arith::total(eval),
    ensures
        is_scale(eval, *v, m),
{
    let z = eval(Op::Zero);
    let o = eval(Op::One);
    Matrix { rows: [[v.x, z, z, z], [z, v.y, z, z], [z, z, v.z, z], [z, z, z, o]] }
}

/// The matrix of a translation.
pub fn translate<S: Copy, E: Fn(Op<S>) -> S>(eval: &E, v: &Vector<S>) -> (m: Matrix<S>)
    requires
        crate::arith::total(eval),
    ensures
        is_translation(eval, *v, m),
{
    let z = eval(Op::Zero);
    let o = eval(Op::One);
    Matrix { rows: [[o, z, z, v.x], [z, o, z, v.y], [z, z, o, v.z], [z, z, z, o]] }
}

/// The rotation about the x axis by an angle in degrees.
pub fn rotate_x<S: Copy, E: Fn(Op<S>) -> S>(eval: &E, degrees: S) -> (m: Matrix<S>)
    requires
        crate::arith::total(eval),
    ensures
        is_rotation_x(eval, degrees, m),
{
    let z = eval(Op::Zero);
    let o = eval(Op::One);
    let c = eval(Op::CosDegrees(degrees));
    let s = eval(Op::SinDegrees(degrees));
    let n = eval(Op::Negate(s));
    Matrix { rows: [[o, z, z, z], [z, c, n, z], [z, s, c, z], [z, z, z, o]] }
}

/// The rotation about the y axis by an angle in degrees.
pub fn rotate_y<S: Copy, E: Fn(Op<S>) -> S>(eval: &E, degrees: S) -> (m: Matrix<S>)
    requires
        crate::arith::total(eval),
    ensures
        is_rotation_y(eval, degrees, m),
{
    let z = eval(Op::Zero);
    let o = eval(Op::One);
    let c = eval(Op::CosDegrees(degrees));
    let s = eval(Op::SinDegrees(degrees));
    let n = eval(Op::Negate(s));
    Matrix { rows: [[c, z, s, z], [z, o, z, z], [n, z, c, z], [z, z, z, o]] }
}

/// The rotation about the z axis by an angle in degrees.
pub fn rotate_z<S: Copy, E: Fn(Op<S>) -> S>(eval: &E, degrees: S) -> (m: Matrix<S>)
    requires
        crate::arith::total(eval),
    ensures
        is_rotation_z(eval, degrees, m),
{
    let z = eval(Op::Zero);
    let o = eval(Op::One);
    let c = eval(Op::CosDegrees(degrees));
    let s = eval(Op::SinDegrees(degrees));
    let n = eval(Op::Negate(s));
    Matrix { rows: [[c, n, z, z], [s, c, z, z], [z, z, o, z], [z, z, z, o]] }
}

/// The sum of the products of two rows of four, place by place.
fn dot<S: Copy, E: Fn(Op<S>) -> S>(eval: &E, a: &[S; 4], b: &[S; 4]) -> (r: S)
    requires
        crate::arith::total(eval),
    ensures
        is_dot(eval, a@, b@, r),
{
    let zero = eval(Op::Zero);
    let product0 = eval(Op::Mul(a[0], b[0]));
    let sum0 = eval(Op::Add(zero, product0));
    let product1 = eval(Op::Mul(a[1], b[1]));
    let sum1 = eval(Op::Add(sum0, product1));
    let product2 = eval(Op::Mul(a[2], b[2]));
    let sum2 = eval(Op::Add(sum1, product2));
    let product3 = eval(Op::Mul(a[3], b[3]));
    let r = eval(Op::Add(sum2, product3));
    proof {
        let t = DotTrace { zero, product0, sum0, product1, sum1, product2, sum2, product3 };
        assert(is_dot_trace(eval, a@, b@, t, r));
    }
    r
}

/// Column `j` of `m`, from top to bottom.
fn column<S: Copy>(m: &Matrix<S>, j: usize) -> (c: [S; 4])
    requires
        j < 4,
    ensures
        c@ == m.column(j as int),
{
    let c = [m.rows[0][j], m.rows[1][j], m.rows[2][j], m.rows[3][j]];
    proof {
        assert(c@ =~= m.column(j as int));
    }
    c
}

/// Row `i` of the product of `a` and the matrix of the four columns.
fn product_row<S: Copy, E: Fn(Op<S>) -> S>(
    eval: &E,
    a: &[S; 4],
    c0: &[S; 4],
    c1: &[S; 4],
    c2: &[S; 4],
    c3: &[S; 4],
) -> (r: [S; 4])
    requires
        crate::arith::total(eval),
    ensures
        is_dot(eval, a@, c0@, r@[0]),
        is_dot(eval, a@, c1@, r@[1]),
        is_dot(eval, a@, c2@, r@[2]),
        is_dot(eval, a@, c3@, r@[3]),
{
    [dot(eval, a, c0), dot(eval, a, c1), dot(eval, a, c2), dot(eval, a, c3)]
}

/// The product of `a` and `b`, row by column.
pub fn multiply<S: Copy, E: Fn(Op<S>) -> S>(eval: &E, a: &Matrix<S>, b: &Matrix<S>) -> (r: Matrix<
    S,
>)
    requires
        crate::arith::total(eval),
    ensures
        is_product(eval, *a, *b, r),
{
    let c0 = column(b, 0);
    let c1 = column(b, 1);
    let c2 = column(b, 2);
    let c3 = column(b, 3);
    let r0 = product_row(eval, &a.rows[0], &c0, &c1, &c2, &c3);
    let r1 = product_row(eval, &a.rows[1], &c0, &c1, &c2, &c3);
    let r2 = product_row(eval, &a.rows[2], &c0, &c1, &c2, &c3);
    let r3 = product_row(eval, &a.rows[3], &c0, &c1, &c2, &c3);
    let r = Matrix { rows: [r0, r1, r2, r3] };
    proof {
        assert forall|i: int, j: int| 0 <= i < 4 && 0 <= j < 4 implies is_dot(
            eval,
            a.row(i),
            b.column(j),
            #[trigger] r.at(i, j),
        ) by {
            assert(a.rows@[i]@ =~= a.row(i));
        }
    }
    r
}

/// `m` applied to `p`.
pub fn apply<S: Copy, E: Fn(Op<S>) -> S>(eval: &E, m: &Matrix<S>, p: &Point<S>) -> (r: Point<S>)
    requires
        crate::arith::total(eval),
    ensures
        is_applied(eval, *m, *p, r),
{
    let v = [p.x, p.y, p.z, p.w];
    proof {
        assert(v@ =~= p.coordinates());
        assert(m.rows@[0]@ =~= m.row(0));
        assert(m.rows@[1]@ =~= m.row(1));
        assert(m.rows@[2]@ =~= m.row(2));
        assert(m.rows@[3]@ =~= m.row(3));
    }
    Point {
        x: dot(eval, &m.rows[0], &v),
        y: dot(eval, &m.rows[1], &v),
        z: dot(eval, &m.rows[2], &v),
        w: dot(eval, &m.rows[3], &v),
    }
}

} // verus!
