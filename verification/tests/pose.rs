use mesh_pose::arith::Op;
use mesh_pose::geometry::{Mesh, Point, TransformSet, TransformSpec, Triangle, Vector};
use mesh_pose::matrix::{apply, identity, multiply, rotate_x, rotate_y, rotate_z, scale, translate};
use mesh_pose::pose::{composite, normal, pose_all, transform};

fn eval(op: Op<f64>) -> f64 {
    match op {
        Op::Zero => 0.0,
        Op::One => 1.0,
        Op::Add(a, b) => a + b,
        Op::Sub(a, b) => a - b,
        Op::Mul(a, b) => a * b,
        Op::Div(a, b) => a / b,
        Op::Negate(a) => a * -1.0,
        Op::Sqrt(a) => a.sqrt(),
        Op::CosDegrees(a) => a.to_radians().cos(),
        Op::SinDegrees(a) => a.to_radians().sin(),
    }
}

fn point(x: f64, y: f64, z: f64) -> Point<f64> {
    Point { x, y, z, w: 1.0 }
}

fn vector(x: f64, y: f64, z: f64) -> Vector<f64> {
    Vector { x, y, z }
}

fn spec(scale: (f64, f64, f64), rotation: (f64, f64, f64), translation: (f64, f64, f64)) -> TransformSpec<f64> {
    TransformSpec {
        scale: vector(scale.0, scale.1, scale.2),
        rotation: vector(rotation.0, rotation.1, rotation.2),
        translation: vector(translation.0, translation.1, translation.2),
    }
}

fn close(a: f64, b: f64) -> bool {
    (a - b).abs() < 1e-9
}

fn close_point(a: &Point<f64>, b: &Point<f64>) -> bool {
    close(a.x, b.x) && close(a.y, b.y) && close(a.z, b.z) && close(a.w, b.w)
}

fn unit_triangle() -> Triangle<f64> {
    Triangle {
        vertex0: point(0.0, 0.0, 0.0),
        vertex1: point(1.0, 0.0, 0.0),
        vertex2: point(0.0, 1.0, 0.0),
        normal: point(0.0, 0.0, 1.0),
    }
}

fn mesh_of(triangles: Vec<Triangle<f64>>) -> Mesh<f64> {
    Mesh::from_triangles(triangles)
}

fn set_of(specs: Vec<TransformSpec<f64>>) -> TransformSet<f64> {
    let mut set = TransformSet::new();
    for s in specs {
        set.push(s);
    }
    set
}

#[test]
fn identity_has_ones_on_the_diagonal() {
    let m = identity(&eval);
    for i in 0..4 {
        for j in 0..4 {
            assert_eq!(m.rows[i][j], if i == j { 1.0 } else { 0.0 });
        }
    }
}

#[test]
fn scale_overrides_the_diagonal() {
    let m = scale(&eval, &vector(2.0, 3.0, 4.0));
    assert_eq!(m.rows, [[2.0, 0.0, 0.0, 0.0], [0.0, 3.0, 0.0, 0.0], [0.0, 0.0, 4.0, 0.0], [0.0, 0.0, 0.0, 1.0]]);
}

#[test]
fn zero_scale_is_taken() {
    let m = composite(&eval, &spec((0.0, 0.0, 0.0), (0.0, 0.0, 0.0), (0.0, 0.0, 0.0)));
    let p = apply(&eval, &m, &point(3.0, 4.0, 5.0));
    assert!(close_point(&p, &point(0.0, 0.0, 0.0)));
}

#[test]
fn translate_overrides_the_last_column() {
    let m = translate(&eval, &vector(5.0, 6.0, 7.0));
    assert_eq!(m.rows, [[1.0, 0.0, 0.0, 5.0], [0.0, 1.0, 0.0, 6.0], [0.0, 0.0, 1.0, 7.0], [0.0, 0.0, 0.0, 1.0]]);
}

#[test]
fn rotate_x_places_sine_below_the_diagonal() {
    let m = rotate_x(&eval, 30.0);
    let c = 30f64.to_radians().cos();
    let s = 30f64.to_radians().sin();
    assert_eq!(m.rows, [[1.0, 0.0, 0.0, 0.0], [0.0, c, -s, 0.0], [0.0, s, c, 0.0], [0.0, 0.0, 0.0, 1.0]]);
}

#[test]
fn rotate_y_places_sine_in_the_first_row() {
    let m = rotate_y(&eval, 30.0);
    let c = 30f64.to_radians().cos();
    let s = 30f64.to_radians().sin();
    assert_eq!(m.rows, [[c, 0.0, s, 0.0], [0.0, 1.0, 0.0, 0.0], [-s, 0.0, c, 0.0], [0.0, 0.0, 0.0, 1.0]]);
}

#[test]
fn rotate_z_places_sine_in_the_second_row() {
    let m = rotate_z(&eval, 30.0);
    let c = 30f64.to_radians().cos();
    let s = 30f64.to_radians().sin();
    assert_eq!(m.rows, [[c, -s, 0.0, 0.0], [s, c, 0.0, 0.0], [0.0, 0.0, 1.0, 0.0], [0.0, 0.0, 0.0, 1.0]]);
}

#[test]
fn product_is_row_by_column() {
    let a = mesh_pose::matrix::Matrix {
        rows: [[1.0, 2.0, 3.0, 4.0], [5.0, 6.0, 7.0, 8.0], [9.0, 10.0, 11.0, 12.0], [13.0, 14.0, 15.0, 16.0]],
    };
    let b = mesh_pose::matrix::Matrix {
        rows: [[1.0, 0.0, 2.0, 0.0], [0.0, 1.0, 0.0, 2.0], [3.0, 0.0, 1.0, 0.0], [0.0, 3.0, 0.0, 1.0]],
    };
    let r = multiply(&eval, &a, &b);
    assert_eq!(
        r.rows,
        [[10.0, 14.0, 5.0, 8.0], [26.0, 30.0, 17.0, 20.0], [42.0, 46.0, 29.0, 32.0], [58.0, 62.0, 41.0, 44.0]]
    );
}

#[test]
fn apply_keeps_w_under_an_affine_matrix() {
    let m = translate(&eval, &vector(1.0, 2.0, 3.0));
    let p = apply(&eval, &m, &point(10.0, 20.0, 30.0));
    assert_eq!(p, point(11.0, 22.0, 33.0));
}

#[test]
fn apply_does_not_divide_by_w() {
    let m = mesh_pose::matrix::Matrix {
        rows: [[1.0, 0.0, 0.0, 0.0], [0.0, 1.0, 0.0, 0.0], [0.0, 0.0, 1.0, 0.0], [0.0, 0.0, 0.0, 2.0]],
    };
    let p = apply(&eval, &m, &point(4.0, 6.0, 8.0));
    assert_eq!(p, Point { x: 4.0, y: 6.0, z: 8.0, w: 2.0 });
}

#[test]
fn identity_transform_keeps_the_mesh() {
    let base = mesh_of(vec![
        unit_triangle(),
        Triangle {
            vertex0: point(1.0, 2.0, 3.0),
            vertex1: point(4.0, 2.0, 3.0),
            vertex2: point(1.0, 2.0, 7.0),
            normal: point(0.0, -1.0, 0.0),
        },
    ]);
    let set = set_of(vec![spec((1.0, 1.0, 1.0), (0.0, 0.0, 0.0), (0.0, 0.0, 0.0))]);
    let posed = pose_all(&eval, &base, &set);
    assert_eq!(posed.len(), 1);
    assert_eq!(posed[0].triangle_count(), 2);
    for (a, b) in base.triangles().iter().zip(posed[0].triangles().iter()) {
        assert!(close_point(&a.vertex0, &b.vertex0));
        assert!(close_point(&a.vertex1, &b.vertex1));
        assert!(close_point(&a.vertex2, &b.vertex2));
        assert!(close_point(&a.normal, &b.normal));
    }
}

#[test]
fn normal_has_length_one() {
    let triangles = [
        (point(0.0, 0.0, 0.0), point(1.0, 0.0, 0.0), point(0.0, 1.0, 0.0)),
        (point(1.5, -2.0, 0.25), point(3.0, 4.0, 5.0), point(-7.0, 0.5, 2.0)),
        (point(100.0, 200.0, 300.0), point(100.5, 200.0, 300.0), point(100.0, 200.0, 299.0)),
    ];
    for (a, b, c) in triangles.iter() {
        let n = normal(&eval, a, b, c);
        let len = (n.x * n.x + n.y * n.y + n.z * n.z).sqrt();
        assert!(close(len, 1.0));
        assert_eq!(n.w, 1.0);
    }
}

#[test]
fn normal_is_the_cross_product_of_the_edges() {
    let n = normal(&eval, &point(0.0, 0.0, 0.0), &point(0.0, 0.0, 2.0), &point(3.0, 0.0, 0.0));
    assert!(close_point(&n, &point(0.0, 1.0, 0.0)));
    let n = normal(&eval, &point(0.0, 0.0, 0.0), &point(0.0, 2.0, 0.0), &point(0.0, 0.0, 3.0));
    assert!(close_point(&n, &point(1.0, 0.0, 0.0)));
    let n = normal(&eval, &point(0.0, 0.0, 0.0), &point(2.0, 0.0, 0.0), &point(0.0, 3.0, 0.0));
    assert!(close_point(&n, &point(0.0, 0.0, 1.0)));
}

#[test]
fn normal_follows_the_winding() {
    let a = point(0.0, 0.0, 0.0);
    let b = point(1.0, 0.0, 0.0);
    let c = point(0.0, 1.0, 0.0);
    let up = normal(&eval, &a, &b, &c);
    let down = normal(&eval, &a, &c, &b);
    assert!(close(up.z, 1.0));
    assert!(close(down.z, -1.0));
}

#[test]
fn degenerate_triangle_gives_a_normal_that_is_no_number() {
    let n = normal(&eval, &point(0.0, 0.0, 0.0), &point(1.0, 0.0, 0.0), &point(2.0, 0.0, 0.0));
    assert!(n.x.is_nan() && n.y.is_nan() && n.z.is_nan());
    assert_eq!(n.w, 1.0);
}

#[test]
fn rotations_do_not_commute() {
    let z = rotate_z(&eval, 90.0);
    let x = rotate_x(&eval, 90.0);
    let p = point(1.0, 0.0, 0.0);
    let z_then_x = apply(&eval, &x, &apply(&eval, &z, &p));
    let x_then_z = apply(&eval, &z, &apply(&eval, &x, &p));
    assert!(close_point(&z_then_x, &point(0.0, 0.0, 1.0)));
    assert!(close_point(&x_then_z, &point(0.0, 1.0, 0.0)));
    assert!(!close_point(&z_then_x, &x_then_z));
}

#[test]
fn product_applied_is_the_factors_applied_in_turn() {
    let z = rotate_z(&eval, 90.0);
    let x = rotate_x(&eval, 90.0);
    let p = point(1.0, 2.0, 3.0);
    let by_product = apply(&eval, &multiply(&eval, &x, &z), &p);
    let in_turn = apply(&eval, &x, &apply(&eval, &z, &p));
    assert!(close_point(&by_product, &in_turn));
}

#[test]
fn quarter_turn_about_z_maps_x_to_y() {
    let base = mesh_of(vec![unit_triangle()]);
    let set = set_of(vec![spec((1.0, 1.0, 1.0), (0.0, 0.0, 90.0), (0.0, 0.0, 0.0))]);
    let posed = pose_all(&eval, &base, &set);
    let t = &posed[0].triangles()[0];
    assert!(close_point(&t.vertex0, &point(0.0, 0.0, 0.0)));
    assert!(close_point(&t.vertex1, &point(0.0, 1.0, 0.0)));
    assert!(close_point(&t.vertex2, &point(-1.0, 0.0, 0.0)));
    assert!(close_point(&t.normal, &point(0.0, 0.0, 1.0)));
}

#[test]
fn scale_comes_before_translation() {
    let m = composite(&eval, &spec((2.0, 2.0, 2.0), (0.0, 0.0, 0.0), (5.0, 0.0, 0.0)));
    let p = apply(&eval, &m, &point(1.0, 0.0, 0.0));
    assert!(close_point(&p, &point(7.0, 0.0, 0.0)));
}

#[test]
fn rotation_about_x_comes_before_y_before_z() {
    let s = spec((1.0, 1.0, 1.0), (90.0, 90.0, 90.0), (0.0, 0.0, 0.0));
    let m = composite(&eval, &s);
    let p = point(0.0, 1.0, 0.0);
    let by_hand = apply(
        &eval,
        &rotate_z(&eval, 90.0),
        &apply(&eval, &rotate_y(&eval, 90.0), &apply(&eval, &rotate_x(&eval, 90.0), &p)),
    );
    assert!(close_point(&by_hand, &point(0.0, 1.0, 0.0)));
    assert!(close_point(&apply(&eval, &m, &p), &by_hand));
    let other_order = apply(
        &eval,
        &rotate_x(&eval, 90.0),
        &apply(&eval, &rotate_y(&eval, 90.0), &apply(&eval, &rotate_z(&eval, 90.0), &p)),
    );
    assert!(close_point(&other_order, &point(0.0, -1.0, 0.0)));
}

#[test]
fn transform_keeps_count_and_order() {
    let base = mesh_of(vec![
        unit_triangle(),
        Triangle {
            vertex0: point(0.0, 0.0, 1.0),
            vertex1: point(1.0, 0.0, 1.0),
            vertex2: point(0.0, 1.0, 1.0),
            normal: point(0.0, 0.0, 1.0),
        },
    ]);
    let m = translate(&eval, &vector(0.0, 0.0, 10.0));
    let moved = transform(&eval, &base, &m);
    assert_eq!(moved.triangle_count(), 2);
    assert_eq!(moved.triangles()[0].vertex0, point(0.0, 0.0, 10.0));
    assert_eq!(moved.triangles()[1].vertex0, point(0.0, 0.0, 11.0));
    assert_eq!(moved.triangles()[1].vertex1, point(1.0, 0.0, 11.0));
    assert_eq!(moved.triangles()[1].vertex2, point(0.0, 1.0, 11.0));
}

#[test]
fn transform_takes_the_normal_from_the_new_vertices() {
    let mut t = unit_triangle();
    t.normal = point(9.0, 9.0, 9.0);
    let base = mesh_of(vec![t]);
    let m = rotate_x(&eval, 90.0);
    let moved = transform(&eval, &base, &m);
    assert!(close_point(&moved.triangles()[0].normal, &point(0.0, -1.0, 0.0)));
}

#[test]
fn each_transform_gives_one_mesh_in_order() {
    let base = mesh_of(vec![unit_triangle()]);
    let set = set_of(vec![
        spec((1.0, 1.0, 1.0), (0.0, 0.0, 0.0), (1.0, 0.0, 0.0)),
        spec((1.0, 1.0, 1.0), (0.0, 0.0, 0.0), (2.0, 0.0, 0.0)),
        spec((1.0, 1.0, 1.0), (0.0, 0.0, 0.0), (3.0, 0.0, 0.0)),
    ]);
    let posed = pose_all(&eval, &base, &set);
    assert_eq!(posed.len(), 3);
    for (i, mesh) in posed.iter().enumerate() {
        assert_eq!(mesh.triangle_count(), 1);
        assert!(close(mesh.triangles()[0].vertex0.x, (i + 1) as f64));
    }
}

#[test]
fn no_transform_gives_no_mesh() {
    let base = mesh_of(vec![unit_triangle()]);
    let posed = pose_all(&eval, &base, &set_of(vec![]));
    assert!(posed.is_empty());
}

#[test]
fn pose_keeps_w() {
    let base = mesh_of(vec![
        unit_triangle(),
        Triangle {
            vertex0: point(1.5, -2.0, 0.25),
            vertex1: point(3.0, 4.0, 5.0),
            vertex2: point(-7.0, 0.5, 2.0),
            normal: point(0.0, 0.0, 1.0),
        },
    ]);
    let set = set_of(vec![
        spec((2.0, 3.0, 4.0), (10.0, 20.0, 30.0), (5.0, -6.0, 7.0)),
        spec((0.0, 0.0, 0.0), (90.0, 180.0, 270.0), (1e10, 1e-10, 0.0)),
        spec((-1.0, 1.0, 1.0), (-45.0, 0.0, 720.0), (0.0, 0.0, 0.0)),
    ]);
    for mesh in pose_all(&eval, &base, &set).iter() {
        for t in mesh.triangles().iter() {
            assert_eq!(t.vertex0.w, 1.0);
            assert_eq!(t.vertex1.w, 1.0);
            assert_eq!(t.vertex2.w, 1.0);
        }
    }
}

#[test]
fn matrix_of_a_transform_is_affine() {
    let m = composite(&eval, &spec((2.0, 3.0, 4.0), (10.0, 20.0, 30.0), (5.0, -6.0, 7.0)));
    assert_eq!(m.rows[3], [0.0, 0.0, 0.0, 1.0]);
}

#[test]
fn matrix_of_the_identity_transform_is_the_identity() {
    let m = composite(&eval, &spec((1.0, 1.0, 1.0), (0.0, 0.0, 0.0), (0.0, 0.0, 0.0)));
    assert_eq!(m, identity(&eval));
}

#[test]
fn identity_transform_gives_the_same_floats() {
    let base = mesh_of(vec![Triangle {
        vertex0: point(1.5, -2.0, 0.25),
        vertex1: point(-0.0, 4.0e300, 5.0e-300),
        vertex2: point(-7.0, 0.1 + 0.2, f64::MAX),
        normal: point(0.0, 0.0, 1.0),
    }]);
    let set = set_of(vec![spec((1.0, 1.0, 1.0), (0.0, -0.0, 0.0), (-0.0, 0.0, 0.0))]);
    let posed = pose_all(&eval, &base, &set);
    let a = &base.triangles()[0];
    let b = &posed[0].triangles()[0];
    assert_eq!(a.vertex0, b.vertex0);
    assert_eq!(a.vertex1, b.vertex1);
    assert_eq!(a.vertex2, b.vertex2);
}

#[test]
fn identity_transform_does_not_keep_an_infinite_coordinate() {
    let base = mesh_of(vec![Triangle {
        vertex0: point(f64::INFINITY, 0.0, 0.0),
        vertex1: point(1.0, 0.0, 0.0),
        vertex2: point(0.0, 1.0, 0.0),
        normal: point(0.0, 0.0, 1.0),
    }]);
    let set = set_of(vec![spec((1.0, 1.0, 1.0), (0.0, 0.0, 0.0), (0.0, 0.0, 0.0))]);
    let posed = pose_all(&eval, &base, &set);
    assert!(posed[0].triangles()[0].vertex0.y.is_nan());
}

#[test]
fn floats_treat_zero_and_one_as_numbers_do() {
    let finite = [
        0.0, -0.0, 1.0, -1.0, 0.5, 1e300, -1e300, 5e-324, f64::MAX, f64::MIN, 0.1, 90.0, 1e-17,
    ];
    let zeros = [0.0, -0.0];
    assert_eq!(eval(Op::Zero), 0.0);
    assert_eq!(eval(Op::One), 1.0);
    for z in zeros.iter() {
        assert_eq!(eval(Op::CosDegrees(*z)), 1.0);
        assert_eq!(eval(Op::SinDegrees(*z)), 0.0);
        assert_eq!(eval(Op::Negate(*z)), 0.0);
        for b in finite.iter() {
            assert_eq!(eval(Op::Mul(*z, *b)), 0.0);
            assert_eq!(eval(Op::Mul(*b, *z)), 0.0);
            assert_eq!(eval(Op::Add(*z, *b)), *b);
            assert_eq!(eval(Op::Add(*b, *z)), *b);
        }
    }
    for b in finite.iter() {
        assert_eq!(eval(Op::Mul(1.0, *b)), *b);
        assert_eq!(eval(Op::Mul(*b, 1.0)), *b);
        assert!(eval(Op::CosDegrees(*b)).is_finite());
        assert!(eval(Op::SinDegrees(*b)).is_finite());
        assert!(eval(Op::Negate(*b)).is_finite());
    }
}
