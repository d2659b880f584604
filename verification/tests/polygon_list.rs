use mesh_pose::error::{CodecError, ParseKind};
use mesh_pose::geometry::{Mesh, Point};
use mesh_pose::number::Number;
use mesh_pose::polygon_list::parse_mesh;

fn coordinates(p: &Point<Number>) -> Vec<String> {
    vec![
        String::from_utf8(p.x.as_bytes().to_vec()).unwrap(),
        String::from_utf8(p.y.as_bytes().to_vec()).unwrap(),
        String::from_utf8(p.z.as_bytes().to_vec()).unwrap(),
        String::from_utf8(p.w.as_bytes().to_vec()).unwrap(),
    ]
}

fn parse_error(line: usize, kind: ParseKind) -> Result<Mesh<Number>, CodecError> {
    Err(CodecError::Parse { line, kind })
}

#[test]
fn single_triangle_is_read_in_winding_order() {
    let mesh = parse_mesh(b"1\n0,0,1\n0,0,0\n1,0,0\n0,1,0\n").unwrap();
    assert_eq!(mesh.triangle_count(), 1);
    let t = &mesh.triangles()[0];
    assert_eq!(coordinates(&t.normal), ["0", "0", "1", "1"]);
    assert_eq!(coordinates(&t.vertex0), ["0", "0", "0", "1"]);
    assert_eq!(coordinates(&t.vertex1), ["1", "0", "0", "1"]);
    assert_eq!(coordinates(&t.vertex2), ["0", "1", "0", "1"]);
}

#[test]
fn triangles_keep_the_order_of_the_text() {
    let text = b"3\n0,0,1\n1,1,1\n1,1,2\n1,1,3\n0,0,1\n2,1,1\n2,1,2\n2,1,3\n0,0,1\n3,1,1\n3,1,2\n3,1,3\n";
    let mesh = parse_mesh(text).unwrap();
    assert_eq!(mesh.triangle_count(), 3);
    for (i, t) in mesh.triangles().iter().enumerate() {
        let first = format!("{}", i + 1);
        assert_eq!(coordinates(&t.vertex0), [first.as_str(), "1", "1", "1"]);
        assert_eq!(coordinates(&t.vertex1), [first.as_str(), "1", "2", "1"]);
        assert_eq!(coordinates(&t.vertex2), [first.as_str(), "1", "3", "1"]);
    }
}

#[test]
fn count_of_zero_gives_the_empty_mesh() {
    assert_eq!(parse_mesh(b"0\n").unwrap().triangle_count(), 0);
    assert_eq!(parse_mesh(b"0").unwrap().triangle_count(), 0);
    assert_eq!(parse_mesh(b"0\nnot read\n").unwrap().triangle_count(), 0);
}

#[test]
fn last_line_needs_no_line_feed() {
    let mesh = parse_mesh(b"1\n0,0,1\n0,0,0\n1,0,0\n0,1,0").unwrap();
    assert_eq!(coordinates(&mesh.triangles()[0].vertex2), ["0", "1", "0", "1"]);
}

#[test]
fn carriage_returns_and_blanks_are_trimmed() {
    let mesh = parse_mesh(b" 1 \r\n0 , 0 , 1\r\n\t0,0,0\r\n1,0,0 \r\n 0,1,0\r\n").unwrap();
    let t = &mesh.triangles()[0];
    assert_eq!(coordinates(&t.normal), ["0", "0", "1", "1"]);
    assert_eq!(coordinates(&t.vertex1), ["1", "0", "0", "1"]);
}

#[test]
fn numbers_keep_their_spelling() {
    let mesh = parse_mesh(b"1\n0.0,-0.0,1e0\n+1.50,2.,.5\n1E3,inf,NaN\n-12.5e-3,007,0\n").unwrap();
    let t = &mesh.triangles()[0];
    assert_eq!(coordinates(&t.normal), ["0.0", "-0.0", "1e0", "1"]);
    assert_eq!(coordinates(&t.vertex0), ["+1.50", "2.", ".5", "1"]);
    assert_eq!(coordinates(&t.vertex1), ["1E3", "inf", "NaN", "1"]);
    assert_eq!(coordinates(&t.vertex2), ["-12.5e-3", "007", "0", "1"]);
}

#[test]
fn lines_after_the_last_triangle_are_not_read() {
    let mesh = parse_mesh(b"1\n0,0,1\n0,0,0\n1,0,0\n0,1,0\nthis is not read\n1,2\n").unwrap();
    assert_eq!(mesh.triangle_count(), 1);
}

#[test]
fn count_that_is_no_number_is_a_parse_error() {
    let r = parse_mesh(b"abc\n0,0,1\n0,0,0\n1,0,0\n0,1,0\n");
    assert_eq!(r, parse_error(1, ParseKind::Count));
}

#[test]
fn count_that_is_negative_or_broken_is_a_parse_error() {
    assert_eq!(parse_mesh(b"-1\n"), parse_error(1, ParseKind::Count));
    assert_eq!(parse_mesh(b"1.0\n"), parse_error(1, ParseKind::Count));
    assert_eq!(parse_mesh(b"1 2\n"), parse_error(1, ParseKind::Count));
    assert_eq!(parse_mesh(b"\n1\n"), parse_error(1, ParseKind::Count));
    assert_eq!(parse_mesh(b"18446744073709551616\n"), parse_error(1, ParseKind::Count));
}

#[test]
fn empty_text_is_a_parse_error() {
    assert_eq!(parse_mesh(b""), parse_error(1, ParseKind::Count));
}

#[test]
fn missing_lines_are_a_shape_error() {
    let r = parse_mesh(b"2\n0,0,1\n0,0,0\n1,0,0\n0,1,0\n0,0,1\n");
    assert_eq!(r, Err(CodecError::Shape { declared: 2, lines: 6 }));
}

#[test]
fn count_without_any_triangle_is_a_shape_error() {
    assert_eq!(parse_mesh(b"1\n"), Err(CodecError::Shape { declared: 1, lines: 1 }));
    assert_eq!(parse_mesh(b"1"), Err(CodecError::Shape { declared: 1, lines: 1 }));
}

#[test]
fn largest_count_is_a_shape_error() {
    let r = parse_mesh(b"18446744073709551615\n0,0,1\n0,0,0\n1,0,0\n0,1,0\n");
    assert_eq!(r, Err(CodecError::Shape { declared: u64::MAX, lines: 5 }));
}

#[test]
fn field_that_is_no_number_is_a_parse_error_at_its_line() {
    let r = parse_mesh(b"1\n0,0,1\n0,0,0\n1,zero,0\n0,1,0\n");
    assert_eq!(r, parse_error(4, ParseKind::Number));
}

#[test]
fn wrong_field_count_is_a_parse_error_at_its_line() {
    assert_eq!(parse_mesh(b"1\n0,0\n0,0,0\n1,0,0\n0,1,0\n"), parse_error(2, ParseKind::FieldCount));
    assert_eq!(parse_mesh(b"1\n0,0,1\n0,0,0\n1,0,0\n0,1,0,1\n"), parse_error(5, ParseKind::FieldCount));
}

#[test]
fn empty_line_among_the_lines_is_a_parse_error() {
    assert_eq!(parse_mesh(b"1\n0,0,1\n\n0,0,0\n1,0,0\n0,1,0\n"), parse_error(3, ParseKind::FieldCount));
}

#[test]
fn first_fault_from_the_top_decides() {
    let r = parse_mesh(b"2\n0,0,1\n0,0,0\n1,x,0\n0,1\n0,0,1\n");
    assert_eq!(r, parse_error(4, ParseKind::Number));
    let r = parse_mesh(b"3\n0,0,1\n0,0,0\n1,0,0\n0,1,0\n0,0,1\n1,2\n");
    assert_eq!(r, parse_error(7, ParseKind::FieldCount));
}

#[test]
fn fault_after_the_last_triangle_does_not_count() {
    assert!(parse_mesh(b"1\n0,0,1\n0,0,0\n1,0,0\n0,1,0\nx,y\n").is_ok());
}

#[test]
fn white_space_of_other_scripts_is_trimmed() {
    let text = "1\n0,\u{3000}0\u{a0},1\n0,0,0\n1,0,0\n0,1,0\u{2003}\n";
    let mesh = parse_mesh(text.as_bytes()).unwrap();
    assert_eq!(coordinates(&mesh.triangles()[0].normal), ["0", "0", "1", "1"]);
}
