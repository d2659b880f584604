use mesh_pose::error::{CodecError, ParseKind};
use mesh_pose::geometry::{TransformSet, Vector};
use mesh_pose::number::Number;
use mesh_pose::transform_list::parse_transforms;

fn components(v: &Vector<Number>) -> Vec<String> {
    vec![
        String::from_utf8(v.x.as_bytes().to_vec()).unwrap(),
        String::from_utf8(v.y.as_bytes().to_vec()).unwrap(),
        String::from_utf8(v.z.as_bytes().to_vec()).unwrap(),
    ]
}

fn parse_error(line: usize, kind: ParseKind) -> Result<TransformSet<Number>, CodecError> {
    Err(CodecError::Parse { line, kind })
}

#[test]
fn transform_is_scale_then_rotation_then_translation() {
    let set = parse_transforms(b"poses\n1\nbase\n2,2,2\n0,0,90\n5,0,0\n").unwrap();
    assert_eq!(set.len(), 1);
    let s = &set.specs()[0];
    assert_eq!(components(&s.scale), ["2", "2", "2"]);
    assert_eq!(components(&s.rotation), ["0", "0", "90"]);
    assert_eq!(components(&s.translation), ["5", "0", "0"]);
}

#[test]
fn rotation_is_read_in_the_order_x_y_z() {
    let set = parse_transforms(b"h\n1\nl\n1,1,1\n10,20,30\n0,0,0\n").unwrap();
    let r = &set.specs()[0].rotation;
    assert_eq!(r.x.as_bytes(), b"10");
    assert_eq!(r.y.as_bytes(), b"20");
    assert_eq!(r.z.as_bytes(), b"30");
}

#[test]
fn transforms_keep_the_order_of_the_text() {
    let text = b"h\n3\na\n1,1,1\n0,0,0\n1,0,0\nb\n1,1,1\n0,0,0\n2,0,0\nc\n1,1,1\n0,0,0\n3,0,0\n";
    let set = parse_transforms(text).unwrap();
    assert_eq!(set.len(), 3);
    for (i, s) in set.specs().iter().enumerate() {
        assert_eq!(s.translation.x.as_bytes(), format!("{}", i + 1).as_bytes());
    }
}

#[test]
fn header_and_labels_may_hold_anything() {
    let set = parse_transforms(b"1,2,3,4,x\n1\n\n1,1,1\n0,0,0\n0,0,0\n").unwrap();
    assert_eq!(set.len(), 1);
    let set = parse_transforms(b"\n 2 \nlabel, with, commas, in it\n1,1,1\n0,0,0\n0,0,0\n7\n1,1,1\n0,0,0\n0,0,0").unwrap();
    assert_eq!(set.len(), 2);
}

#[test]
fn count_of_zero_gives_the_empty_set() {
    assert_eq!(parse_transforms(b"h\n0\n").unwrap().len(), 0);
    assert_eq!(parse_transforms(b"h\n0\nnot read").unwrap().len(), 0);
}

#[test]
fn zero_scale_is_read() {
    let set = parse_transforms(b"h\n1\nflat\n0,0,0\n0,0,0\n0,0,0\n").unwrap();
    assert_eq!(components(&set.specs()[0].scale), ["0", "0", "0"]);
}

#[test]
fn transform_count_that_is_no_number_is_a_parse_error() {
    assert_eq!(parse_transforms(b"h\nabc\n"), parse_error(2, ParseKind::Count));
    assert_eq!(parse_transforms(b"1\nh\n"), parse_error(2, ParseKind::Count));
}

#[test]
fn missing_transform_count_is_a_parse_error() {
    assert_eq!(parse_transforms(b""), parse_error(2, ParseKind::Count));
    assert_eq!(parse_transforms(b"header only\n"), parse_error(2, ParseKind::Count));
    assert_eq!(parse_transforms(b"header only"), parse_error(2, ParseKind::Count));
}

#[test]
fn missing_transform_lines_are_a_shape_error() {
    let r = parse_transforms(b"h\n2\na\n1,1,1\n0,0,0\n0,0,0\nb\n1,1,1\n");
    assert_eq!(r, Err(CodecError::Shape { declared: 2, lines: 8 }));
}

#[test]
fn missing_label_is_a_shape_error() {
    let r = parse_transforms(b"h\n2\na\n1,1,1\n0,0,0\n0,0,0\n");
    assert_eq!(r, Err(CodecError::Shape { declared: 2, lines: 6 }));
    let r = parse_transforms(b"h\n1\n");
    assert_eq!(r, Err(CodecError::Shape { declared: 1, lines: 2 }));
}

#[test]
fn malformed_transform_line_is_a_parse_error_at_its_line() {
    assert_eq!(parse_transforms(b"h\n1\na\n1,1\n0,0,0\n0,0,0\n"), parse_error(4, ParseKind::FieldCount));
    assert_eq!(parse_transforms(b"h\n1\na\n1,1,1\n0,deg,0\n0,0,0\n"), parse_error(5, ParseKind::Number));
    assert_eq!(parse_transforms(b"h\n1\na\n1,1,1\n0,0,0\n0,0,0,0\n"), parse_error(6, ParseKind::FieldCount));
}

#[test]
fn label_of_the_second_transform_is_not_read_as_numbers() {
    let r = parse_transforms(b"h\n2\na\n1,1,1\n0,0,0\n0,0,0\nx,y\n1,1,1\n0,0,0\n0,0,0\n");
    assert_eq!(r.unwrap().len(), 2);
}

#[test]
fn first_fault_of_the_transforms_decides() {
    let r = parse_transforms(b"h\n2\na\n1,1,1\n0,0,0\n0,0\nb\n");
    assert_eq!(r, parse_error(6, ParseKind::FieldCount));
}
