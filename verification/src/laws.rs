//! Laws of posing that hold under every evaluator that treats 0 and 1 as
//! numbers do.
//!
//! The library knows nothing of the scalars it moves, so a law about values
//! is stated over a reading of them: when two scalars are the same number,
//! which scalars are finite, and which stand for 0 and for 1. With
//! floating-point numbers "the same" is their `==`, under which 0 and -0 are
//! the same and a NaN is the same as nothing.

use vstd::prelude::*;
use crate::arith::Op;
use crate::geometry::{Point, TransformSpec, Triangle, Vector};
use crate::matrix::Matrix;

verus! {

/// A reading of scalars as numbers.
#[verifier::reject_recursive_types(S)]
pub struct Numbers<S> {
    /// When two scalars are the same number.
    pub same: spec_fn(S, S) -> bool,
    /// Which scalars are finite numbers.
    pub finite: spec_fn(S) -> bool,
    /// A scalar that stands for 0.
    pub zero: S,
    /// A scalar that stands for 1.
    pub one: S,
}

impl<S> Numbers<S> {
    /// `a` and `b` are the same number.
    pub open spec fn alike(self, a: S, b: S) -> bool {
        (self.same)(a, b)
    }

    /// `a` is a finite number.
    pub open spec fn is_finite(self, a: S) -> bool {
        (self.finite)(a)
    }

    /// `a` is 0.
    pub open spec fn is_zero(self, a: S) -> bool {
        self.alike(a, self.zero)
    }

    /// `a` is 1.
    pub open spec fn is_one(self, a: S) -> bool {
        self.alike(a, self.one)
    }
}

/// Being the same number is symmetric and transitive, holds of every finite
/// number with itself, and keeps finiteness; 0 and 1 are finite.
pub open spec fn is_equivalence<S>(n: Numbers<S>) -> bool {
    &&& n.is_finite(n.zero)
    &&& n.is_finite(n.one)
    &&& forall|a: S| #[trigger] n.is_finite(a) ==> n.alike(a, a)
    &&& forall|a: S, b: S| #[trigger] n.alike(a, b) ==> n.alike(b, a)
    &&& forall|a: S, b: S, c: S|
        #[trigger] n.alike(a, b) && #[trigger] n.alike(b, c) ==> n.alike(a, c)
    &&& forall|a: S, b: S| #[trigger] n.alike(a, b) && n.is_finite(a) ==> n.is_finite(b)
}

/// The evaluator gives 0 and 1 for `Zero` and `One`, 0 for a product with 0,
/// the other factor for a product with 1, and the other term for a sum with
/// 0; all of it on finite numbers.
pub open spec fn keeps_zero_and_one<S, E: Fn(Op<S>) -> S>(eval: &E, n: Numbers<S>) -> bool {
    &&& forall|r: S| #[trigger] crate::arith::gives(eval, Op::Zero, r) ==> n.is_zero(r)
    &&& forall|r: S| #[trigger] crate::arith::gives(eval, Op::One, r) ==> n.is_one(r)
    &&& forall|a: S, b: S, r: S| #[trigger]
        crate::arith::gives(eval, Op::Mul(a, b), r) && n.is_zero(a) && n.is_finite(b)
            ==> n.is_zero(r)
    &&& forall|a: S, b: S, r: S| #[trigger]
        crate::arith::gives(eval, Op::Mul(a, b), r) && n.is_finite(a) && n.is_zero(b)
            ==> n.is_zero(r)
    &&& forall|a: S, b: S, r: S| #[trigger]
        crate::arith::gives(eval, Op::Mul(a, b), r) && n.is_one(a) && n.is_finite(b) ==> n.alike(
            r,
            b,
        )
    &&& forall|a: S, b: S, r: S| #[trigger]
        crate::arith::gives(eval, Op::Mul(a, b), r) && n.is_finite(a) && n.is_one(b) ==> n.alike(
            r,
            a,
        )
    &&& forall|a: S, b: S, r: S| #[trigger]
        crate::arith::gives(eval, Op::Add(a, b), r) && n.is_zero(a) && n.is_finite(b) ==> n.alike(
            r,
            b,
        )
    &&& forall|a: S, b: S, r: S| #[trigger]
        crate::arith::gives(eval, Op::Add(a, b), r) && n.is_finite(a) && n.is_zero(b) ==> n.alike(
            r,
            a,
        )
}

/// The evaluator gives finite numbers for the cosine and the sine of a
/// finite angle and for a finite number times -1; for the angle 0 the cosine
/// is 1 and the sine 0, and 0 times -1 is 0.
pub open spec fn turns_as_numbers_do<S, E: Fn(Op<S>) -> S>(eval: &E, n: Numbers<S>) -> bool {
    &&& forall|d: S, r: S| #[trigger]
        crate::arith::gives(eval, Op::CosDegrees(d), r) && n.is_finite(d) ==> n.is_finite(r)
    &&& forall|d: S, r: S| #[trigger]
        crate::arith::gives(eval, Op::SinDegrees(d), r) && n.is_finite(d) ==> n.is_finite(r)
    &&& forall|a: S, r: S| #[trigger]
        crate::arith::gives(eval, Op::Negate(a), r) && n.is_finite(a) ==> n.is_finite(r)
    &&& forall|d: S, r: S| #[trigger]
        crate::arith::gives(eval, Op::CosDegrees(d), r) && n.is_zero(d) ==> n.is_one(r)
    &&& forall|d: S, r: S| #[trigger]
        crate::arith::gives(eval, Op::SinDegrees(d), r) && n.is_zero(d) ==> n.is_zero(r)
    &&& forall|a: S, r: S| #[trigger]
        crate::arith::gives(eval, Op::Negate(a), r) && n.is_zero(a) ==> n.is_zero(r)
}

/// What the laws ask of an evaluator and a reading of its scalars.
pub open spec fn obeys<S, E: Fn(Op<S>) -> S>(eval: &E, n: Numbers<S>) -> bool {
    &&& is_equivalence(n)
    &&& keeps_zero_and_one(eval, n)
    &&& turns_as_numbers_do(eval, n)
}

/// What stands for 0 or for 1 is finite.
proof fn lemma_zero_and_one_are_finite<S>(n: Numbers<S>, a: S)
    requires
        is_equivalence(n),
        n.is_zero(a) || n.is_one(a),
    ensures
        n.is_finite(a),
{
    if n.is_zero(a) {
        assert(n.alike(n.zero, a));
    } else {
        assert(n.alike(n.one, a));
    }
}

/// The product of a 0 or a 1 with a finite number: 0, or that number.
proof fn lemma_term<S, E: Fn(Op<S>) -> S>(eval: &E, n: Numbers<S>, a: S, b: S, p: S, here: bool)
    requires
        obeys(eval, n),
        crate::arith::gives(eval, Op::Mul(a, b), p),
        n.is_finite(b),
        if here {
            n.is_one(a)
        } else {
            n.is_zero(a)
        },
    ensures
        if here {
            n.alike(p, b)
        } else {
            n.is_zero(p)
        },
{
}

/// One step of a sum in which one term is `target` and all others are 0:
/// the sum is 0 until that term has come, and `target` from then on.
proof fn lemma_sum<S, E: Fn(Op<S>) -> S>(
    eval: &E,
    n: Numbers<S>,
    acc: S,
    p: S,
    r: S,
    target: S,
    seen: bool,
    here: bool,
)
    requires
        obeys(eval, n),
        crate::arith::gives(eval, Op::Add(acc, p), r),
        n.is_finite(target),
        !(seen && here),
        if seen {
            n.alike(acc, target)
        } else {
            n.is_zero(acc)
        },
        if here {
            n.alike(p, target)
        } else {
            n.is_zero(p)
        },
    ensures
        if seen || here {
            n.alike(r, target)
        } else {
            n.is_zero(r)
        },
{
    if seen {
        assert(n.alike(target, acc));
        assert(n.is_finite(acc));
        assert(n.alike(r, acc));
    } else if here {
        assert(n.alike(target, p));
        assert(n.is_finite(p));
        assert(n.alike(r, p));
    } else {
        lemma_zero_and_one_are_finite(n, p);
        assert(n.alike(r, p));
    }
}

/// Where one entry of `a` is 1, the others are 0 and `b` is finite, the sum
/// of their products is the entry of `b` that meets the 1.
pub proof fn lemma_dot_selects<S, E: Fn(Op<S>) -> S>(
    eval: &E,
    n: Numbers<S>,
    a: Seq<S>,
    b: Seq<S>,
    k: int,
    r: S,
)
    requires
        obeys(eval, n),
        a.len() == 4,
        b.len() == 4,
        0 <= k < 4,
        forall|j: int|
            0 <= j < 4 ==> if j == k {
                n.is_one(#[trigger] a[j])
            } else {
                n.is_zero(a[j])
            },
        forall|j: int| 0 <= j < 4 ==> n.is_finite(#[trigger] b[j]),
        crate::matrix::is_dot(eval, a, b, r),
    ensures
        n.alike(r, b[k]),
{
    let t = choose|t: crate::matrix::DotTrace<S>| #[trigger]
        crate::matrix::is_dot_trace(eval, a, b, t, r);
    let target = b[k];
    assert(n.is_finite(b[0]) && n.is_finite(b[1]) && n.is_finite(b[2]) && n.is_finite(b[3]));
    assert(n.alike(target, target));
    lemma_term(eval, n, a[0], b[0], t.product0, k == 0);
    lemma_term(eval, n, a[1], b[1], t.product1, k == 1);
    lemma_term(eval, n, a[2], b[2], t.product2, k == 2);
    lemma_term(eval, n, a[3], b[3], t.product3, k == 3);
    lemma_sum(eval, n, t.zero, t.product0, t.sum0, target, false, k == 0);
    lemma_sum(eval, n, t.sum0, t.product1, t.sum1, target, k < 1, k == 1);
    lemma_sum(eval, n, t.sum1, t.product2, t.sum2, target, k < 2, k == 2);
    lemma_sum(eval, n, t.sum2, t.product3, r, target, k < 3, k == 3);
}

/// The three components are finite.
pub open spec fn is_finite_vector<S>(n: Numbers<S>, v: Vector<S>) -> bool {
    n.is_finite(v.x) && n.is_finite(v.y) && n.is_finite(v.z)
}

/// The four coordinates are finite.
pub open spec fn is_finite_point<S>(n: Numbers<S>, p: Point<S>) -> bool {
    n.is_finite(p.x) && n.is_finite(p.y) && n.is_finite(p.z) && n.is_finite(p.w)
}

/// The coordinates of the three vertices are finite.
pub open spec fn is_finite_triangle<S>(n: Numbers<S>, t: Triangle<S>) -> bool {
    is_finite_point(n, t.vertex0) && is_finite_point(n, t.vertex1) && is_finite_point(
        n,
        t.vertex2,
    )
}

/// Every entry is finite.
pub open spec fn is_finite_matrix<S>(n: Numbers<S>, m: Matrix<S>) -> bool {
    forall|i: int, j: int| 0 <= i < 4 && 0 <= j < 4 ==> n.is_finite(#[trigger] m.at(i, j))
}

/// The two points are the same, coordinate for coordinate.
pub open spec fn alike_points<S>(n: Numbers<S>, a: Point<S>, b: Point<S>) -> bool {
    n.alike(a.x, b.x) && n.alike(a.y, b.y) && n.alike(a.z, b.z) && n.alike(a.w, b.w)
}

/// The matrix is affine: its last row is 0, 0, 0, 1.
pub open spec fn is_affine<S>(n: Numbers<S>, m: Matrix<S>) -> bool {
    n.is_zero(m.at(3, 0)) && n.is_zero(m.at(3, 1)) && n.is_zero(m.at(3, 2)) && n.is_one(
        m.at(3, 3),
    )
}

/// The matrix reads as the identity: 1 on the diagonal, 0 elsewhere.
pub open spec fn is_unit<S>(n: Numbers<S>, m: Matrix<S>) -> bool {
    forall|i: int, j: int|
        0 <= i < 4 && 0 <= j < 4 ==> if i == j {
            n.is_one(#[trigger] m.at(i, j))
        } else {
            n.is_zero(m.at(i, j))
        }
}

/// The transform is finite in all its parameters.
pub open spec fn is_finite_spec<S>(n: Numbers<S>, spec: TransformSpec<S>) -> bool {
    is_finite_vector(n, spec.scale) && is_finite_vector(n, spec.rotation) && is_finite_vector(
        n,
        spec.translation,
    )
}

/// The transform that changes nothing: scale 1, rotation 0, translation 0.
pub open spec fn is_identity_spec<S>(n: Numbers<S>, spec: TransformSpec<S>) -> bool {
    &&& n.is_one(spec.scale.x) && n.is_one(spec.scale.y) && n.is_one(spec.scale.z)
    &&& n.is_zero(spec.rotation.x) && n.is_zero(spec.rotation.y) && n.is_zero(spec.rotation.z)
    &&& n.is_zero(spec.translation.x) && n.is_zero(spec.translation.y) && n.is_zero(
        spec.translation.z,
    )
}

/// A matrix that reads as the identity is affine and finite.
proof fn lemma_unit_is_affine<S>(n: Numbers<S>, m: Matrix<S>)
    requires
        is_equivalence(n),
        is_unit(n, m),
    ensures
        is_affine(n, m),
        is_finite_matrix(n, m),
{
    assert(n.is_zero(m.at(3, 0)) && n.is_zero(m.at(3, 1)) && n.is_zero(m.at(3, 2)) && n.is_one(
        m.at(3, 3),
    ));
    assert forall|i: int, j: int| 0 <= i < 4 && 0 <= j < 4 implies n.is_finite(
        #[trigger] m.at(i, j),
    ) by {
        lemma_zero_and_one_are_finite(n, m.at(i, j));
    }
}

/// The last row of a product of affine matrices is that of an affine
/// matrix, where the right factor is finite.
proof fn lemma_product_is_affine<S, E: Fn(Op<S>) -> S>(
    eval: &E,
    n: Numbers<S>,
    a: Matrix<S>,
    b: Matrix<S>,
    r: Matrix<S>,
)
    requires
        obeys(eval, n),
        is_affine(n, a),
        is_affine(n, b),
        is_finite_matrix(n, b),
        crate::matrix::is_product(eval, a, b, r),
    ensures
        is_affine(n, r),
{
    let row = a.row(3);
    assert forall|j: int| 0 <= j < 4 implies n.alike(#[trigger] r.at(3, j), b.at(3, j)) by {
        let column = b.column(j);
        assert(n.is_finite(b.at(0, j)) && n.is_finite(b.at(1, j)) && n.is_finite(b.at(2, j))
            && n.is_finite(b.at(3, j)));
        assert(crate::matrix::is_dot(eval, row, column, r.at(3, j)));
        lemma_dot_selects(eval, n, row, column, 3, r.at(3, j));
    }
    assert(n.alike(r.at(3, 0), b.at(3, 0)));
    assert(n.alike(r.at(3, 1), b.at(3, 1)));
    assert(n.alike(r.at(3, 2), b.at(3, 2)));
    assert(n.alike(r.at(3, 3), b.at(3, 3)));
}

/// A product of matrices that read as the identity reads as the identity.
proof fn lemma_product_is_unit<S, E: Fn(Op<S>) -> S>(
    eval: &E,
    n: Numbers<S>,
    a: Matrix<S>,
    b: Matrix<S>,
    r: Matrix<S>,
)
    requires
        obeys(eval, n),
        is_unit(n, a),
        is_unit(n, b),
        crate::matrix::is_product(eval, a, b, r),
    ensures
        is_unit(n, r),
{
    lemma_unit_is_affine(n, b);
    assert forall|i: int, j: int| 0 <= i < 4 && 0 <= j < 4 implies if i == j {
        n.is_one(#[trigger] r.at(i, j))
    } else {
        n.is_zero(r.at(i, j))
    } by {
        let row = a.row(i);
        let column = b.column(j);
        assert(n.is_finite(b.at(0, j)) && n.is_finite(b.at(1, j)) && n.is_finite(b.at(2, j))
            && n.is_finite(b.at(3, j)));
        assert forall|k: int| 0 <= k < 4 implies if k == i {
            n.is_one(#[trigger] row[k])
        } else {
            n.is_zero(row[k])
        } by {
            assert(row[k] == a.at(i, k));
        }
        assert(crate::matrix::is_dot(eval, row, column, r.at(i, j)));
        lemma_dot_selects(eval, n, row, column, i, r.at(i, j));
        assert(column[i] == b.at(i, j));
        assert(n.alike(r.at(i, j), b.at(i, j)));
    }
}

/// An affine matrix applied to a finite point keeps its `w`.
proof fn lemma_applied_keeps_w<S, E: Fn(Op<S>) -> S>(
    eval: &E,
    n: Numbers<S>,
    m: Matrix<S>,
    p: Point<S>,
    r: Point<S>,
)
    requires
        obeys(eval, n),
        is_affine(n, m),
        is_finite_point(n, p),
        crate::matrix::is_applied(eval, m, p, r),
    ensures
        n.alike(r.w, p.w),
{
    lemma_dot_selects(eval, n, m.row(3), p.coordinates(), 3, r.w);
}

/// A matrix that reads as the identity, applied to a finite point, gives
/// the same point.
proof fn lemma_applied_unit<S, E: Fn(Op<S>) -> S>(
    eval: &E,
    n: Numbers<S>,
    m: Matrix<S>,
    p: Point<S>,
    r: Point<S>,
)
    requires
        obeys(eval, n),
        is_unit(n, m),
        is_finite_point(n, p),
        crate::matrix::is_applied(eval, m, p, r),
    ensures
        alike_points(n, r, p),
{
    assert forall|i: int, k: int| 0 <= i < 4 && 0 <= k < 4 implies if k == i {
        n.is_one(#[trigger] m.row(i)[k])
    } else {
        n.is_zero(m.row(i)[k])
    } by {
        assert(m.row(i)[k] == m.at(i, k));
    }
    lemma_dot_selects(eval, n, m.row(0), p.coordinates(), 0, r.x);
    lemma_dot_selects(eval, n, m.row(1), p.coordinates(), 1, r.y);
    lemma_dot_selects(eval, n, m.row(2), p.coordinates(), 2, r.z);
    lemma_dot_selects(eval, n, m.row(3), p.coordinates(), 3, r.w);
}

/// The matrix of a finite translation is affine and finite; that of the
/// translation 0 reads as the identity.
proof fn lemma_translation<S, E: Fn(Op<S>) -> S>(
    eval: &E,
    n: Numbers<S>,
    v: Vector<S>,
    m: Matrix<S>,
)
    requires
        obeys(eval, n),
        is_finite_vector(n, v),
        crate::matrix::is_translation(eval, v, m),
    ensures
        is_affine(n, m),
        is_finite_matrix(n, m),
        n.is_zero(v.x) && n.is_zero(v.y) && n.is_zero(v.z) ==> is_unit(n, m),
{
    assert forall|i: int, j: int| 0 <= i < 4 && 0 <= j < 4 implies n.is_finite(
        #[trigger] m.at(i, j),
    ) && (!(j == 3 && i < 3) ==> if i == j {
        n.is_one(m.at(i, j))
    } else {
        n.is_zero(m.at(i, j))
    }) by {
        if !(j == 3 && i < 3) {
            assert(crate::matrix::is_unit_entry(eval, i, j, m.at(i, j)));
            lemma_zero_and_one_are_finite(n, m.at(i, j));
        }
    }
    assert(n.is_zero(m.at(3, 0)) && n.is_zero(m.at(3, 1)) && n.is_zero(m.at(3, 2)) && n.is_one(
        m.at(3, 3),
    ));
    if n.is_zero(v.x) && n.is_zero(v.y) && n.is_zero(v.z) {
        assert forall|i: int, j: int| 0 <= i < 4 && 0 <= j < 4 implies if i == j {
            n.is_one(#[trigger] m.at(i, j))
        } else {
            n.is_zero(m.at(i, j))
        } by {
            if j == 3 && i < 3 {
                assert(m.at(i, j) == v.component(i));
            }
        }
    }
}

/// The matrix of a finite scale is affine and finite; that of the scale 1
/// reads as the identity.
proof fn lemma_scale<S, E: Fn(Op<S>) -> S>(eval: &E, n: Numbers<S>, v: Vector<S>, m: Matrix<S>)
    requires
        obeys(eval, n),
        is_finite_vector(n, v),
        crate::matrix::is_scale(eval, v, m),
    ensures
        is_affine(n, m),
        is_finite_matrix(n, m),
        n.is_one(v.x) && n.is_one(v.y) && n.is_one(v.z) ==> is_unit(n, m),
{
    assert forall|i: int, j: int| 0 <= i < 4 && 0 <= j < 4 implies n.is_finite(
        #[trigger] m.at(i, j),
    ) && (!(i == j && i < 3) ==> if i == j {
        n.is_one(m.at(i, j))
    } else {
        n.is_zero(m.at(i, j))
    }) by {
        if !(i == j && i < 3) {
            assert(crate::matrix::is_unit_entry(eval, i, j, m.at(i, j)));
            lemma_zero_and_one_are_finite(n, m.at(i, j));
        }
    }
    assert(n.is_zero(m.at(3, 0)) && n.is_zero(m.at(3, 1)) && n.is_zero(m.at(3, 2)) && n.is_one(
        m.at(3, 3),
    ));
    if n.is_one(v.x) && n.is_one(v.y) && n.is_one(v.z) {
        assert forall|i: int, j: int| 0 <= i < 4 && 0 <= j < 4 implies if i == j {
            n.is_one(#[trigger] m.at(i, j))
        } else {
            n.is_zero(m.at(i, j))
        } by {
            if i == j && i < 3 {
                assert(m.at(i, j) == v.component(i));
            }
        }
    }
}

/// The matrix of a rotation by a finite angle is affine and finite; that of
/// the rotation by 0 reads as the identity.
proof fn lemma_rotation<S, E: Fn(Op<S>) -> S>(
    eval: &E,
    n: Numbers<S>,
    p: int,
    q: int,
    degrees: S,
    m: Matrix<S>,
)
    requires
        obeys(eval, n),
        n.is_finite(degrees),
        0 <= p < 3,
        0 <= q < 3,
        p != q,
        crate::matrix::is_turn(eval, degrees, m.at(p, p), m.at(q, p), m.at(p, q)),
        crate::matrix::is_plane_rotation(eval, p, q, m.at(p, p), m.at(q, p), m.at(p, q), m),
    ensures
        is_affine(n, m),
        is_finite_matrix(n, m),
        n.is_zero(degrees) ==> is_unit(n, m),
{
    let c = m.at(p, p);
    let s = m.at(q, p);
    let t = m.at(p, q);
    assert(n.is_finite(c) && n.is_finite(s) && n.is_finite(t));
    assert forall|i: int, j: int| 0 <= i < 4 && 0 <= j < 4 implies n.is_finite(
        #[trigger] m.at(i, j),
    ) && (!((i == p || i == q) && (j == p || j == q)) ==> if i == j {
        n.is_one(m.at(i, j))
    } else {
        n.is_zero(m.at(i, j))
    }) by {
        if (i == p && j == p) || (i == q && j == q) {
            assert(m.at(i, j) == c);
        } else if i == q && j == p {
        } else if i == p && j == q {
        } else {
            assert(crate::matrix::is_unit_entry(eval, i, j, m.at(i, j)));
            lemma_zero_and_one_are_finite(n, m.at(i, j));
        }
    }
    assert(n.is_zero(m.at(3, 0)) && n.is_zero(m.at(3, 1)) && n.is_zero(m.at(3, 2)) && n.is_one(
        m.at(3, 3),
    ));
    if n.is_zero(degrees) {
        assert(n.is_one(c) && n.is_zero(s));
        assert(n.is_zero(t));
        assert forall|i: int, j: int| 0 <= i < 4 && 0 <= j < 4 implies if i == j {
            n.is_one(#[trigger] m.at(i, j))
        } else {
            n.is_zero(m.at(i, j))
        } by {
            if (i == p && j == p) || (i == q && j == q) {
                assert(m.at(i, j) == c);
            }
        }
    }
}

/// The matrix of a finite transform is affine; that of the transform that
/// changes nothing reads as the identity.
pub proof fn lemma_composite<S, E: Fn(Op<S>) -> S>(
    eval: &E,
    n: Numbers<S>,
    spec: TransformSpec<S>,
    m: Matrix<S>,
)
    requires
        obeys(eval, n),
        is_finite_spec(n, spec),
        crate::pose::is_composite(eval, spec, m),
    ensures
        is_affine(n, m),
        is_identity_spec(n, spec) ==> is_unit(n, m),
{
    let t = choose|t: crate::pose::CompositeTrace<S>| #[trigger]
        crate::pose::is_composite_trace(eval, spec, t, m);
    lemma_translation(eval, n, spec.translation, t.translation);
    lemma_rotation(eval, n, 0, 1, spec.rotation.z, t.about_z);
    lemma_rotation(eval, n, 2, 0, spec.rotation.y, t.about_y);
    lemma_rotation(eval, n, 1, 2, spec.rotation.x, t.about_x);
    lemma_scale(eval, n, spec.scale, t.scale);
    lemma_product_is_affine(eval, n, t.translation, t.about_z, t.first);
    lemma_product_is_affine(eval, n, t.first, t.about_y, t.second);
    lemma_product_is_affine(eval, n, t.second, t.about_x, t.third);
    lemma_product_is_affine(eval, n, t.third, t.scale, m);
    if is_identity_spec(n, spec) {
        lemma_product_is_unit(eval, n, t.translation, t.about_z, t.first);
        lemma_product_is_unit(eval, n, t.first, t.about_y, t.second);
        lemma_product_is_unit(eval, n, t.second, t.about_x, t.third);
        lemma_product_is_unit(eval, n, t.third, t.scale, m);
    }
}

/// Posing keeps `w`: under a finite transform, each vertex of a pose has the
/// `w` of the vertex it comes from, where that vertex is finite.
pub proof fn lemma_pose_keeps_w<S, E: Fn(Op<S>) -> S>(
    eval: &E,
    n: Numbers<S>,
    spec: TransformSpec<S>,
    from: Seq<Triangle<S>>,
    to: Seq<Triangle<S>>,
)
    requires
        obeys(eval, n),
        is_finite_spec(n, spec),
        forall|i: int| 0 <= i < from.len() ==> is_finite_triangle(n, #[trigger] from[i]),
        crate::pose::is_pose(eval, spec, from, to),
    ensures
        to.len() == from.len(),
        forall|i: int|
            0 <= i < from.len() ==> {
                &&& n.alike((#[trigger] to[i]).vertex0.w, from[i].vertex0.w)
                &&& n.alike(to[i].vertex1.w, from[i].vertex1.w)
                &&& n.alike(to[i].vertex2.w, from[i].vertex2.w)
            },
{
    let m = choose|m: Matrix<S>| #[trigger]
        crate::pose::is_composite(eval, spec, m) && crate::pose::is_posed_mesh(eval, m, from, to);
    lemma_composite(eval, n, spec, m);
    assert forall|i: int| 0 <= i < from.len() implies {
        &&& n.alike((#[trigger] to[i]).vertex0.w, from[i].vertex0.w)
        &&& n.alike(to[i].vertex1.w, from[i].vertex1.w)
        &&& n.alike(to[i].vertex2.w, from[i].vertex2.w)
    } by {
        assert(crate::pose::is_posed_triangle(eval, m, from[i], to[i]));
        assert(is_finite_triangle(n, from[i]));
        lemma_applied_keeps_w(eval, n, m, from[i].vertex0, to[i].vertex0);
        lemma_applied_keeps_w(eval, n, m, from[i].vertex1, to[i].vertex1);
        lemma_applied_keeps_w(eval, n, m, from[i].vertex2, to[i].vertex2);
    }
}

/// The transform that changes nothing changes nothing: under scale 1,
/// rotation 0 and translation 0 the pose of a finite mesh has the same
/// triangles in the same order, each with the same three vertices, and the
/// normal of each is the normal of those vertices.
pub proof fn lemma_identity_pose<S, E: Fn(Op<S>) -> S>(
    eval: &E,
    n: Numbers<S>,
    spec: TransformSpec<S>,
    from: Seq<Triangle<S>>,
    to: Seq<Triangle<S>>,
)
    requires
        obeys(eval, n),
        is_identity_spec(n, spec),
        forall|i: int| 0 <= i < from.len() ==> is_finite_triangle(n, #[trigger] from[i]),
        crate::pose::is_pose(eval, spec, from, to),
    ensures
        to.len() == from.len(),
        forall|i: int|
            0 <= i < from.len() ==> {
                &&& alike_points(n, (#[trigger] to[i]).vertex0, from[i].vertex0)
                &&& alike_points(n, to[i].vertex1, from[i].vertex1)
                &&& alike_points(n, to[i].vertex2, from[i].vertex2)
                &&& crate::pose::is_normal(
                    eval,
                    to[i].vertex0,
                    to[i].vertex1,
                    to[i].vertex2,
                    to[i].normal,
                )
            },
{
    let m = choose|m: Matrix<S>| #[trigger]
        crate::pose::is_composite(eval, spec, m) && crate::pose::is_posed_mesh(eval, m, from, to);
    lemma_zero_and_one_are_finite(n, spec.scale.x);
    lemma_zero_and_one_are_finite(n, spec.scale.y);
    lemma_zero_and_one_are_finite(n, spec.scale.z);
    lemma_zero_and_one_are_finite(n, spec.rotation.x);
    lemma_zero_and_one_are_finite(n, spec.rotation.y);
    lemma_zero_and_one_are_finite(n, spec.rotation.z);
    lemma_zero_and_one_are_finite(n, spec.translation.x);
    lemma_zero_and_one_are_finite(n, spec.translation.y);
    lemma_zero_and_one_are_finite(n, spec.translation.z);
    lemma_composite(eval, n, spec, m);
    assert forall|i: int| 0 <= i < from.len() implies {
        &&& alike_points(n, (#[trigger] to[i]).vertex0, from[i].vertex0)
        &&& alike_points(n, to[i].vertex1, from[i].vertex1)
        &&& alike_points(n, to[i].vertex2, from[i].vertex2)
        &&& crate::pose::is_normal(
            eval,
            to[i].vertex0,
            to[i].vertex1,
            to[i].vertex2,
            to[i].normal,
        )
    } by {
        assert(crate::pose::is_posed_triangle(eval, m, from[i], to[i]));
        assert(is_finite_triangle(n, from[i]));
        lemma_applied_unit(eval, n, m, from[i].vertex0, to[i].vertex0);
        lemma_applied_unit(eval, n, m, from[i].vertex1, to[i].vertex1);
        lemma_applied_unit(eval, n, m, from[i].vertex2, to[i].vertex2);
    }
}

} // verus!
