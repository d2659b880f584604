use mesh_pose::geometry::{Mesh, Point, Triangle};
use mesh_pose::number::Number;
use mesh_pose::polygon_list::parse_mesh;
use mesh_pose::solid::{count_facets, write_solid};

fn number(text: &str) -> Number {
    Number::parse(text.as_bytes()).unwrap()
}

fn point(x: &str, y: &str, z: &str) -> Point<Number> {
    Point { x: number(x), y: number(y), z: number(z), w: Number::one() }
}

fn triangle(normal: [&str; 3], v0: [&str; 3], v1: [&str; 3], v2: [&str; 3]) -> Triangle<Number> {
    Triangle {
        vertex0: point(v0[0], v0[1], v0[2]),
        vertex1: point(v1[0], v1[1], v1[2]),
        vertex2: point(v2[0], v2[1], v2[2]),
        normal: point(normal[0], normal[1], normal[2]),
    }
}

fn sample(shift: &str) -> Triangle<Number> {
    triangle(["0", "0", "1"], [shift, "0", "0"], ["1", "0", "0"], ["0", "1", "0"])
}

fn text(bytes: Vec<u8>) -> String {
    String::from_utf8(bytes).unwrap()
}

#[test]
fn solid_of_one_triangle_is_written_line_by_line() {
    let mesh = Mesh::from_triangles(vec![triangle(
        ["0", "0", "1"],
        ["0", "0", "0"],
        ["1.5", "0", "0"],
        ["0", "-2e3", "0"],
    )]);
    let out = write_solid(b"robo", &vec![mesh]);
    assert_eq!(
        text(out),
        "solid robo\n\
         facet normal 0 0 1\n\
         outer loop\n\
         vertex 0 0 0\n\
         vertex 1.5 0 0\n\
         vertex 0 -2e3 0\n\
         endloop\n\
         endfacet\n\
         endsolid robo"
    );
}

#[test]
fn solid_without_a_mesh_is_two_lines() {
    assert_eq!(text(write_solid(b"empty", &vec![])), "solid empty\nendsolid empty");
    let none: Mesh<Number> = Mesh::new();
    assert_eq!(text(write_solid(b"empty", &vec![none])), "solid empty\nendsolid empty");
}

#[test]
fn solid_holds_the_meshes_in_the_order_given() {
    let first = Mesh::from_triangles(vec![sample("10"), sample("11")]);
    let second = Mesh::from_triangles(vec![sample("20")]);
    let out = text(write_solid(b"n", &vec![first, second]));
    let firsts: Vec<&str> = out
        .lines()
        .filter(|l| l.starts_with("vertex ") && l.ends_with(" 0 0") && !l.starts_with("vertex 1 "))
        .collect();
    assert_eq!(firsts, ["vertex 10 0 0", "vertex 11 0 0", "vertex 20 0 0"]);
}

#[test]
fn solid_does_not_write_w() {
    let mut t = sample("0");
    t.vertex0.w = number("7");
    let out = text(write_solid(b"n", &vec![Mesh::from_triangles(vec![t])]));
    assert!(!out.contains('7'));
}

#[test]
fn solid_has_no_line_feed_at_its_end() {
    let out = write_solid(b"n", &vec![Mesh::from_triangles(vec![sample("0")])]);
    assert_eq!(out.last(), Some(&b'n'));
}

#[test]
fn facets_of_a_written_solid_are_its_triangles() {
    let meshes = vec![
        Mesh::from_triangles(vec![sample("1"), sample("2"), sample("3")]),
        Mesh::new(),
        Mesh::from_triangles(vec![sample("4"), sample("5")]),
    ];
    let out = write_solid(b"robo", &meshes);
    assert_eq!(count_facets(&out), 5);
}

#[test]
fn facets_are_counted_under_any_name_of_one_line() {
    let meshes = vec![Mesh::from_triangles(vec![sample("1")])];
    assert_eq!(count_facets(&write_solid(b"facet normal 1 2 3", &meshes)), 1);
    assert_eq!(count_facets(&write_solid(b"", &meshes)), 1);
    assert_eq!(count_facets(&write_solid(b"", &vec![])), 0);
}

#[test]
fn name_of_two_lines_can_add_a_facet() {
    let out = write_solid(b"x\nfacet normal 0 0 1", &vec![]);
    assert_eq!(count_facets(&out), 2);
}

#[test]
fn facets_are_the_lines_that_open_one() {
    assert_eq!(count_facets(b""), 0);
    assert_eq!(count_facets(b"facet normal 0 0 1"), 1);
    assert_eq!(count_facets(b"facet normal \nfacet normal\nfacet normal x\n facet normal 0 0 1\n"), 2);
    assert_eq!(count_facets(b"endfacet\nfacet\nvertex 1 2 3\n"), 0);
}

#[test]
fn mesh_that_was_read_is_written_with_the_same_spelling() {
    let mesh = parse_mesh(b"1\n0.0,0.0,1.0\n0.5,0,0\n1,0,0\n0,1e0,0\n").unwrap();
    let out = text(write_solid(b"same", &vec![mesh]));
    assert!(out.contains("facet normal 0.0 0.0 1.0\n"));
    assert!(out.contains("vertex 0.5 0 0\n"));
    assert!(out.contains("vertex 0 1e0 0\n"));
}
