use mesh_pose::arith::Op;
use mesh_pose::error::{CodecError, ParseKind};
use mesh_pose::number::Number;
use mesh_pose::pipeline::{run, RunError};
use mesh_pose::solid::count_facets;

fn eval(op: Op<f64>) -> f64 {
    match op {
        Op::Zero => 0.0,
        Op::One => 1.0,
        Op::Add(a, b) => a + b,
        Op::Sub(a, b) => a - b,
        Op::Mul(a, b) => a * b,
        Op::Div(a, b) => a / b,
        Op::Negate(a) => a * -1.0,
        Op::Sqrt(a) => a.sqrt(),
        Op::CosDegrees(a) => a.to_radians().cos(),
        Op::SinDegrees(a) => a.to_radians().sin(),
    }
}

fn read(n: &Number) -> f64 {
    std::str::from_utf8(n.as_bytes()).unwrap().parse::<f64>().unwrap()
}

fn show(x: &f64) -> Number {
    Number::parse(format!("{}", x).as_bytes()).unwrap()
}

const TRIANGLE: &[u8] = b"1\n0,0,1\n0,0,0\n1,0,0\n0,1,0\n";

const TWO_TRIANGLES: &[u8] = b"2\n0,0,1\n0,0,0\n1,0,0\n0,1,0\n0,0,1\n0,0,1\n1,0,1\n0,1,1\n";

fn vertices(out: &[u8]) -> Vec<(f64, f64, f64)> {
    let text = std::str::from_utf8(out).unwrap();
    let mut found = Vec::new();
    for line in text.lines() {
        if let Some(rest) = line.strip_prefix("vertex ") {
            let parts: Vec<f64> = rest.split(' ').map(|p| p.parse::<f64>().unwrap()).collect();
            assert_eq!(parts.len(), 3);
            found.push((parts[0], parts[1], parts[2]));
        }
    }
    found
}

fn normals(out: &[u8]) -> Vec<(f64, f64, f64)> {
    let text = std::str::from_utf8(out).unwrap();
    let mut found = Vec::new();
    for line in text.lines() {
        if let Some(rest) = line.strip_prefix("facet normal ") {
            let parts: Vec<f64> = rest.split(' ').map(|p| p.parse::<f64>().unwrap()).collect();
            assert_eq!(parts.len(), 3);
            found.push((parts[0], parts[1], parts[2]));
        }
    }
    found
}

fn close(a: (f64, f64, f64), b: (f64, f64, f64)) -> bool {
    (a.0 - b.0).abs() < 1e-9 && (a.1 - b.1).abs() < 1e-9 && (a.2 - b.2).abs() < 1e-9
}

#[test]
fn run_with_the_identity_transform_writes_the_mesh_as_read() {
    let out = run(&eval, &read, &show, TRIANGLE, b"h\n1\nsame\n1,1,1\n0,0,0\n0,0,0\n", b"robo").unwrap();
    assert_eq!(
        String::from_utf8(out).unwrap(),
        "solid robo\n\
         facet normal 0 0 1\n\
         outer loop\n\
         vertex 0 0 0\n\
         vertex 1 0 0\n\
         vertex 0 1 0\n\
         endloop\n\
         endfacet\n\
         endsolid robo"
    );
}

#[test]
fn run_turns_x_to_y_by_a_quarter_turn_about_z() {
    let out = run(&eval, &read, &show, TRIANGLE, b"h\n1\nturn\n1,1,1\n0,0,90\n0,0,0\n", b"robo").unwrap();
    let v = vertices(&out);
    assert_eq!(v.len(), 3);
    assert!(close(v[0], (0.0, 0.0, 0.0)));
    assert!(close(v[1], (0.0, 1.0, 0.0)));
    assert!(close(v[2], (-1.0, 0.0, 0.0)));
    assert!(close(normals(&out)[0], (0.0, 0.0, 1.0)));
}

#[test]
fn run_scales_before_it_translates() {
    let out = run(&eval, &read, &show, TRIANGLE, b"h\n1\nmove\n2,2,2\n0,0,0\n5,0,0\n", b"robo").unwrap();
    let v = vertices(&out);
    assert!(close(v[0], (5.0, 0.0, 0.0)));
    assert!(close(v[1], (7.0, 0.0, 0.0)));
    assert!(close(v[2], (5.0, 2.0, 0.0)));
}

#[test]
fn run_writes_one_pose_for_each_transform_in_order() {
    let transforms = b"h\n3\na\n1,1,1\n0,0,0\n10,0,0\nb\n1,1,1\n0,0,0\n20,0,0\nc\n1,1,1\n0,0,0\n30,0,0\n";
    let out = run(&eval, &read, &show, TWO_TRIANGLES, transforms, b"robo").unwrap();
    assert_eq!(count_facets(&out), 6);
    let v = vertices(&out);
    assert_eq!(v.len(), 18);
    assert!(close(v[0], (10.0, 0.0, 0.0)));
    assert!(close(v[3], (10.0, 0.0, 1.0)));
    assert!(close(v[6], (20.0, 0.0, 0.0)));
    assert!(close(v[12], (30.0, 0.0, 0.0)));
    assert!(close(v[15], (30.0, 0.0, 1.0)));
}

#[test]
fn run_keeps_the_triangle_count_of_the_mesh() {
    let out = run(&eval, &read, &show, TWO_TRIANGLES, b"h\n1\nturn\n3,1,2\n10,20,30\n1,2,3\n", b"robo").unwrap();
    assert_eq!(count_facets(&out), 2);
}

#[test]
fn run_without_a_transform_writes_an_empty_solid() {
    let out = run(&eval, &read, &show, TRIANGLE, b"h\n0\n", b"robo").unwrap();
    assert_eq!(String::from_utf8(out).unwrap(), "solid robo\nendsolid robo");
}

#[test]
fn run_recomputes_the_normal_that_was_read() {
    let polygons = b"1\n9,9,9\n0,0,0\n1,0,0\n0,1,0\n";
    let out = run(&eval, &read, &show, polygons, b"h\n1\nsame\n1,1,1\n0,0,0\n0,0,0\n", b"robo").unwrap();
    assert!(close(normals(&out)[0], (0.0, 0.0, 1.0)));
}

#[test]
fn run_writes_a_flattened_mesh_with_a_normal_that_is_no_number() {
    let out = run(&eval, &read, &show, TRIANGLE, b"h\n1\nflat\n0,0,0\n0,0,0\n0,0,0\n", b"robo").unwrap();
    let text = String::from_utf8(out).unwrap();
    assert!(text.contains("facet normal NaN NaN NaN\n"));
    assert_eq!(count_facets(text.as_bytes()), 1);
}

#[test]
fn run_fails_for_a_malformed_triangle_count() {
    let r = run(&eval, &read, &show, b"abc\n", b"h\n0\n", b"robo");
    assert_eq!(r, Err(RunError::Polygons(CodecError::Parse { line: 1, kind: ParseKind::Count })));
}

#[test]
fn run_fails_for_a_short_polygon_list() {
    let r = run(&eval, &read, &show, b"2\n0,0,1\n0,0,0\n1,0,0\n0,1,0\n", b"h\n0\n", b"robo");
    assert_eq!(r, Err(RunError::Polygons(CodecError::Shape { declared: 2, lines: 5 })));
}

#[test]
fn run_fails_for_a_malformed_transform_list() {
    let r = run(&eval, &read, &show, TRIANGLE, b"h\n1\na\n1,1,1\n0,0\n0,0,0\n", b"robo");
    assert_eq!(r, Err(RunError::Transforms(CodecError::Parse { line: 5, kind: ParseKind::FieldCount })));
}

#[test]
fn run_reports_the_polygon_list_where_both_are_malformed() {
    let r = run(&eval, &read, &show, b"1\n0,0,x\n", b"", b"robo");
    assert_eq!(r, Err(RunError::Polygons(CodecError::Parse { line: 2, kind: ParseKind::Number })));
}
