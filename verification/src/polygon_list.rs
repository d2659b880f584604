//! The polygon list: the text that a mesh is read from.
//!
//! Line 1 holds the triangle count. Each triangle takes four lines of three
//! comma-separated numbers: the normal, then the three vertices in winding
//! order. Lines after the last triangle are not read.

use vstd::prelude::*;
use crate::bytes::LineCursor;
use crate::error::CodecError;
use crate::geometry::{Mesh, Point, Triangle, Vector};
use crate::number::Number;
use crate::records::{take_count, take_triple};

verus! {

/// The position that a line of three numbers gives: `w` is 1.
pub open spec fn position_of(line: Seq<u8>) -> Point<Seq<u8>> {
    let v = crate::records::triple_of(line);
    Point { x: v.x, y: v.y, z: v.z, w: crate::number::one_literal() }
}

/// The triangle that the four lines from line `i` on give.
pub open spec fn triangle_at(l: Seq<Seq<u8>>, i: int) -> Triangle<Seq<u8>> {
    Triangle {
        normal: position_of(l[i]),
        vertex0: position_of(l[i + 1]),
        vertex1: position_of(l[i + 2]),
        vertex2: position_of(l[i + 3]),
    }
}

/// What a polygon list holds: its triangles in order, or the reason why it
/// is refused.
///
/// It is refused for a count that is missing or malformed; else for the
/// first of the lines that the count calls for that is missing or
/// malformed.
pub open spec fn polygon_list(s: Seq<u8>) -> Result<Seq<Triangle<Seq<u8>>>, CodecError> {
    let l = crate::bytes::lines(s);
    match crate::records::count_at_line(l, 0) {
        None => Err(crate::records::count_fault(0)),
        Some(n) => {
            let bad = crate::records::first_fault(l, 1, false, 0, 4 * n);
            if bad == 4 * n {
                Ok(Seq::new(n as nat, |k: int| triangle_at(l, 1 + 4 * k)))
            } else {
                Err(crate::records::fault(l, 1 + bad, n))
            }
        },
    }
}

fn position(v: Vector<Number>) -> (p: Point<Number>)
    ensures
        p.text() == (Point { x: v.x@, y: v.y@, z: v.z@, w: crate::number::one_literal() }),
{
    Point { x: v.x, y: v.y, z: v.z, w: Number::one() }
}

/// Reads a mesh from a polygon list.
pub fn parse_mesh(text: &[u8]) -> (r: Result<Mesh<Number>, CodecError>)
    ensures
        match r {
            Ok(m) => polygon_list(text@) == Ok::<Seq<Triangle<Seq<u8>>>, CodecError>(m.text()),
            Err(e) => polygon_list(text@) == Err::<Seq<Triangle<Seq<u8>>>, CodecError>(e),
        },
{
    let ghost l = crate::bytes::lines(text@);
    let mut cursor = LineCursor::new(text);
    let n = match take_count(&mut cursor) {
        Ok(n) => n,
        Err(e) => {
            return Err(e);
        },
    };
    let mut mesh: Mesh<Number> = Mesh::new();
    let mut i: u64 = 0;
    while i < n
        invariant
            cursor.wf(),
            cursor.text() == text@,
            l == crate::bytes::lines(text@),
            i <= n,
            cursor.taken() == 1 + 4 * i,
            crate::records::count_at_line(l, 0) == Some(n),
            crate::records::first_fault(l, 1, false, 0, 4 * n) == crate::records::first_fault(
                l,
                1,
                false,
                4 * i,
                4 * n,
            ),
            mesh@.len() == i,
            forall|k: int| 0 <= k < i ==> (#[trigger] mesh@[k]).text() == triangle_at(l, 1 + 4 * k),
        decreases n - i,
    {
        let ghost t = 4 * i;
        let normal = match take_triple(&mut cursor, n) {
            Ok(v) => v,
            Err(e) => {
                return Err(e);
            },
        };
        assert(crate::records::sound(l, 1, false, t));
        let vertex0 = match take_triple(&mut cursor, n) {
            Ok(v) => v,
            Err(e) => {
                assert(!crate::records::sound(l, 1, false, t + 1));
                assert(crate::records::first_fault(l, 1, false, t + 1, 4 * n) == t + 1);
                return Err(e);
            },
        };
        assert(crate::records::sound(l, 1, false, t + 1));
        let vertex1 = match take_triple(&mut cursor, n) {
            Ok(v) => v,
            Err(e) => {
                assert(!crate::records::sound(l, 1, false, t + 2));
                assert(crate::records::first_fault(l, 1, false, t + 2, 4 * n) == t + 2);
                assert(crate::records::first_fault(l, 1, false, t + 1, 4 * n) == t + 2);
                return Err(e);
            },
        };
        assert(crate::records::sound(l, 1, false, t + 2));
        let vertex2 = match take_triple(&mut cursor, n) {
            Ok(v) => v,
            Err(e) => {
                assert(!crate::records::sound(l, 1, false, t + 3));
                assert(crate::records::first_fault(l, 1, false, t + 3, 4 * n) == t + 3);
                assert(crate::records::first_fault(l, 1, false, t + 2, 4 * n) == t + 3);
                assert(crate::records::first_fault(l, 1, false, t + 1, 4 * n) == t + 3);
                return Err(e);
            },
        };
        assert(crate::records::sound(l, 1, false, t + 3));
        proof {
            assert(crate::records::first_fault(l, 1, false, t + 3, 4 * n)
                == crate::records::first_fault(l, 1, false, t + 4, 4 * n));
            assert(crate::records::first_fault(l, 1, false, t + 2, 4 * n)
                == crate::records::first_fault(l, 1, false, t + 4, 4 * n));
            assert(crate::records::first_fault(l, 1, false, t + 1, 4 * n)
                == crate::records::first_fault(l, 1, false, t + 4, 4 * n));
            assert(crate::records::first_fault(l, 1, false, t, 4 * n)
                == crate::records::first_fault(l, 1, false, t + 4, 4 * n));
        }
        let triangle = Triangle {
            vertex0: position(vertex0),
            vertex1: position(vertex1),
            vertex2: position(vertex2),
            normal: position(normal),
        };
        assert(triangle.text() == triangle_at(l, 1 + t));
        mesh.push(triangle);
        i += 1;
    }
    proof {
        assert(mesh.text() =~= Seq::new(n as nat, |k: int| triangle_at(l, 1 + 4 * k)));
    }
    Ok(mesh)
}

} // verus!
