//! The whole run: from the two input texts to the solid model.
//!
//! A run reads the mesh, reads the transforms, poses the mesh under each
//! transform, and writes the poses in the order of the transforms. It fails
//! as a whole where either text is refused; nothing is written then.

use vstd::prelude::*;
use crate::arith::Op;
use crate::error::CodecError;
use crate::geometry::{Mesh, TransformSpec, Triangle};
use crate::number::Number;
use crate::polygon_list::parse_mesh;
use crate::pose::pose_all;
use crate::solid::write_solid;
use crate::transform_list::parse_transforms;

verus! {

/// Why a run failed: which text was refused, and why.
#[derive(Clone, Copy, Debug, PartialEq, Eq, Structural)]
pub enum RunError {
    /// The polygon list was refused.
    Polygons(CodecError),
    /// The polygon list was read, and the transform list was refused.
    Transforms(CodecError),
}

/// What a run goes through between its texts and its output.
pub struct RunTrace<S> {
    /// The mesh as read.
    pub base: Seq<Triangle<Number>>,
    /// The transforms as read.
    pub set: Seq<TransformSpec<Number>>,
    /// The mesh in scalars.
    pub base_scalars: Seq<Triangle<S>>,
    /// The transforms in scalars.
    pub set_scalars: Seq<TransformSpec<S>>,
    /// The poses, one for each transform.
    pub posed: Seq<Seq<Triangle<S>>>,
    /// The poses as written.
    pub written: Seq<Mesh<Number>>,
}

/// Each triangle with every coordinate as its literal.
pub open spec fn mesh_text_of(m: Seq<Triangle<Number>>) -> Seq<Triangle<Seq<u8>>> {
    m.map_values(|t: Triangle<Number>| t.text())
}

/// Each transform with every component as its literal.
pub open spec fn set_text_of(s: Seq<TransformSpec<Number>>) -> Seq<TransformSpec<Seq<u8>>> {
    s.map_values(|t: TransformSpec<Number>| t.text())
}

/// `out` is the solid model that the two texts give under `name`, by way of
/// `t`: the mesh and the transforms are what the texts hold, `read` makes
/// scalars of their numbers, pose `i` is the mesh under transform `i`,
/// `show` makes numbers of the scalars of each pose, and `out` holds the
/// poses in order.
pub open spec fn is_run_trace<
    S,
    E: Fn(Op<S>) -> S,
    R: Fn(&Number) -> S,
    W: Fn(&S) -> Number,
>(
    eval: &E,
    read: &R,
    show: &W,
    polygons: Seq<u8>,
    transforms: Seq<u8>,
    name: Seq<u8>,
    t: RunTrace<S>,
    out: Seq<u8>,
) -> bool {
    &&& crate::polygon_list::polygon_list(polygons) == Ok::<
        Seq<Triangle<Seq<u8>>>,
        CodecError,
    >(mesh_text_of(t.base))
    &&& crate::transform_list::transform_list(transforms) == Ok::<
        Seq<TransformSpec<Seq<u8>>>,
        CodecError,
    >(set_text_of(t.set))
    &&& crate::geometry::is_converted_mesh(read, t.base, t.base_scalars)
    &&& crate::geometry::is_converted_set(read, t.set, t.set_scalars)
    &&& t.posed.len() == t.set_scalars.len()
    &&& forall|i: int|
        0 <= i < t.posed.len() ==> crate::pose::is_pose(
            eval,
            t.set_scalars[i],
            t.base_scalars,
            #[trigger] t.posed[i],
        )
    &&& t.written.len() == t.posed.len()
    &&& forall|i: int|
        0 <= i < t.posed.len() ==> crate::geometry::is_converted_mesh(
            show,
            t.posed[i],
            (#[trigger] t.written[i])@,
        )
    &&& out == crate::solid::solid_text(name, crate::solid::texts_of(t.written))
}

/// `out` is the solid model that the two texts give under `name`.
pub open spec fn is_run<S, E: Fn(Op<S>) -> S, R: Fn(&Number) -> S, W: Fn(&S) -> Number>(
    eval: &E,
    read: &R,
    show: &W,
    polygons: Seq<u8>,
    transforms: Seq<u8>,
    name: Seq<u8>,
    out: Seq<u8>,
) -> bool {
    exists|t: RunTrace<S>| #[trigger]
        is_run_trace(eval, read, show, polygons, transforms, name, t, out)
}

/// How many triangles a polygon list holds; 0 where it is refused.
pub open spec fn triangles_in(polygons: Seq<u8>) -> nat {
    match crate::polygon_list::polygon_list(polygons) {
        Ok(m) => m.len(),
        Err(_) => 0,
    }
}

/// How many transforms a transform list holds; 0 where it is refused.
pub open spec fn transforms_in(transforms: Seq<u8>) -> nat {
    match crate::transform_list::transform_list(transforms) {
        Ok(s) => s.len(),
        Err(_) => 0,
    }
}

/// Meshes of `n` triangles each have `n` triangles for each mesh together.
proof fn lemma_total_of_equals(ms: Seq<Seq<Triangle<Seq<u8>>>>, n: nat)
    requires
        forall|i: int| 0 <= i < ms.len() ==> (#[trigger] ms[i]).len() == n,
    ensures
        crate::solid::triangle_total(ms) == ms.len() * n,
    decreases ms.len(),
{
    if ms.len() > 0 {
        let head = ms.drop_last();
        assert forall|i: int| 0 <= i < head.len() implies (#[trigger] head[i]).len() == n by {
            assert(head[i] == ms[i]);
        }
        lemma_total_of_equals(head, n);
        assert(ms.len() * n == head.len() * n + n) by (nonlinear_arith)
            requires
                ms.len() == head.len() + 1,
        ;
    } else {
        assert(ms.len() * n == 0) by (nonlinear_arith)
            requires
                ms.len() == 0,
        ;
    }
}

/// Runs the pipeline on the text of a polygon list and the text of a
/// transform list, and gives the text of the solid model.
///
/// `eval` does the arithmetic, `read` makes a scalar of a number that was
/// read, and `show` makes the number that is written of a scalar.
///
/// The polygon list is read first: where both texts are malformed, the
/// error is that of the polygon list. Under a name of one line the output
/// holds one facet for each triangle of the mesh and each transform.
pub fn run<S: Copy, E: Fn(Op<S>) -> S, R: Fn(&Number) -> S, W: Fn(&S) -> Number>(
    eval: &E,
    read: &R,
    show: &W,
    polygons: &[u8],
    transforms: &[u8],
    name: &[u8],
) -> (r: Result<Vec<u8>, RunError>)
    requires
        crate::arith::total(eval),
        crate::geometry::converts_all(read),
        crate::geometry::converts_all(show),
    ensures
        match r {
            Ok(out) => {
                &&& is_run(eval, read, show, polygons@, transforms@, name@, out@)
                &&& crate::solid::one_line(name@) ==> crate::solid::facet_count(out@)
                    == transforms_in(transforms@) * triangles_in(polygons@)
            },
            Err(RunError::Polygons(e)) => crate::polygon_list::polygon_list(polygons@) == Err::<
                Seq<Triangle<Seq<u8>>>,
                CodecError,
            >(e),
            Err(RunError::Transforms(e)) => {
                &&& crate::polygon_list::polygon_list(polygons@) is Ok
                &&& crate::transform_list::transform_list(transforms@) == Err::<
                    Seq<TransformSpec<Seq<u8>>>,
                    CodecError,
                >(e)
            },
        },
{
    let base = match parse_mesh(polygons) {
        Ok(m) => m,
        Err(e) => {
            return Err(RunError::Polygons(e));
        },
    };
    let set = match parse_transforms(transforms) {
        Ok(s) => s,
        Err(e) => {
            return Err(RunError::Transforms(e));
        },
    };
    let base_scalars = base.convert(read);
    let set_scalars = set.convert(read);
    let posed = pose_all(eval, &base_scalars, &set_scalars);
    let mut written: Vec<Mesh<Number>> = Vec::new();
    let mut i: usize = 0;
    while i < posed.len()
        invariant
            crate::geometry::converts_all(show),
            i <= posed@.len(),
            written@.len() == i,
            forall|k: int|
                0 <= k < i ==> crate::geometry::is_converted_mesh(
                    show,
                    posed@[k]@,
                    (#[trigger] written@[k])@,
                ),
        decreases posed@.len() - i,
    {
        written.push(posed[i].convert(show));
        i += 1;
    }
    let out = write_solid(name, &written);
    proof {
        let t = RunTrace {
            base: base@,
            set: set@,
            base_scalars: base_scalars@,
            set_scalars: set_scalars@,
            posed: posed@.map_values(|m: Mesh<S>| m@),
            written: written@,
        };
        assert(mesh_text_of(t.base) == base.text());
        assert(set_text_of(t.set) == set.text());
        assert(is_run_trace(eval, read, show, polygons@, transforms@, name@, t, out@));
        let ms = crate::solid::texts_of(written@);
        let n = base@.len();
        assert forall|k: int| 0 <= k < ms.len() implies (#[trigger] ms[k]).len() == n by {
            assert(ms[k] == written@[k].text());
            assert(written@[k]@.len() == posed@[k]@.len());
            assert(crate::pose::is_pose(eval, set_scalars@[k], base_scalars@, posed@[k]@));
        }
        lemma_total_of_equals(ms, n);
        assert(triangles_in(polygons@) == n);
        assert(transforms_in(transforms@) == ms.len());
    }
    Ok(out)
}

} // verus!
