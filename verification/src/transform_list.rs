//! The transform list: the text that the poses are read from.
//!
//! Line 1 is a header and is not read. Line 2 holds the number of
//! transforms. Each transform takes four lines: a label, which is not read,
//! then scale, rotation in degrees and translation, three comma-separated
//! numbers each. Lines after the last transform are not read.

use vstd::prelude::*;
use crate::bytes::LineCursor;
use crate::error::{CodecError, ParseKind};
use crate::geometry::{TransformSet, TransformSpec};
use crate::number::Number;
use crate::records::{take_count, take_label, take_triple};

verus! {

/// The transform that the four lines from line `i` on give. Line `i` is the
/// label.
pub open spec fn transform_at(l: Seq<Seq<u8>>, i: int) -> TransformSpec<Seq<u8>> {
    TransformSpec {
        scale: crate::records::triple_of(l[i + 1]),
        rotation: crate::records::triple_of(l[i + 2]),
        translation: crate::records::triple_of(l[i + 3]),
    }
}

/// What a transform list holds: its transforms in order, or the reason why
/// it is refused.
///
/// It is refused for a count that is missing or malformed; else for the
/// first of the lines that the count calls for that is missing or, unless
/// it is a label, malformed.
pub open spec fn transform_list(s: Seq<u8>) -> Result<Seq<TransformSpec<Seq<u8>>>, CodecError> {
    let l = crate::bytes::lines(s);
    match crate::records::count_at_line(l, 1) {
        None => Err(crate::records::count_fault(1)),
        Some(n) => {
            let bad = crate::records::first_fault(l, 2, true, 0, 4 * n);
            if bad == 4 * n {
                Ok(Seq::new(n as nat, |k: int| transform_at(l, 2 + 4 * k)))
            } else {
                Err(crate::records::fault(l, 2 + bad, n))
            }
        },
    }
}

/// Reads the transforms from a transform list.
pub fn parse_transforms(text: &[u8]) -> (r: Result<TransformSet<Number>, CodecError>)
    ensures
        match r {
            Ok(t) => transform_list(text@) == Ok::<Seq<TransformSpec<Seq<u8>>>, CodecError>(
                t.text(),
            ),
            Err(e) => transform_list(text@) == Err::<Seq<TransformSpec<Seq<u8>>>, CodecError>(e),
        },
{
    let ghost l = crate::bytes::lines(text@);
    let mut cursor = LineCursor::new(text);
    if cursor.next().is_none() {
        return Err(CodecError::Parse { line: 2, kind: ParseKind::Count });
    }
    let n = match take_count(&mut cursor) {
        Ok(n) => n,
        Err(e) => {
            return Err(e);
        },
    };
    let mut set: TransformSet<Number> = TransformSet::new();
    let mut i: u64 = 0;
    while i < n
        invariant
            cursor.wf(),
            cursor.text() == text@,
            l == crate::bytes::lines(text@),
            i <= n,
            cursor.taken() == 2 + 4 * i,
            crate::records::count_at_line(l, 1) == Some(n),
            crate::records::first_fault(l, 2, true, 0, 4 * n) == crate::records::first_fault(
                l,
                2,
                true,
                4 * i,
                4 * n,
            ),
            set@.len() == i,
            forall|k: int| 0 <= k < i ==> (#[trigger] set@[k]).text() == transform_at(l, 2 + 4 * k),
        decreases n - i,
    {
        let ghost t = 4 * i;
        match take_label(&mut cursor, n) {
            Ok(_) => {},
            Err(e) => {
                return Err(e);
            },
        };
        assert(crate::records::sound(l, 2, true, t));
        let scale = match take_triple(&mut cursor, n) {
            Ok(v) => v,
            Err(e) => {
                assert(!crate::records::sound(l, 2, true, t + 1));
                assert(crate::records::first_fault(l, 2, true, t + 1, 4 * n) == t + 1);
                return Err(e);
            },
        };
        assert(crate::records::sound(l, 2, true, t + 1));
        let rotation = match take_triple(&mut cursor, n) {
            Ok(v) => v,
            Err(e) => {
                assert(!crate::records::sound(l, 2, true, t + 2));
                assert(crate::records::first_fault(l, 2, true, t + 2, 4 * n) == t + 2);
                assert(crate::records::first_fault(l, 2, true, t + 1, 4 * n) == t + 2);
                return Err(e);
            },
        };
        assert(crate::records::sound(l, 2, true, t + 2));
        let translation = match take_triple(&mut cursor, n) {
            Ok(v) => v,
            Err(e) => {
                assert(!crate::records::sound(l, 2, true, t + 3));
                assert(crate::records::first_fault(l, 2, true, t + 3, 4 * n) == t + 3);
                assert(crate::records::first_fault(l, 2, true, t + 2, 4 * n) == t + 3);
                assert(crate::records::first_fault(l, 2, true, t + 1, 4 * n) == t + 3);
                return Err(e);
            },
        };
        assert(crate::records::sound(l, 2, true, t + 3));
        proof {
            assert(crate::records::first_fault(l, 2, true, t + 3, 4 * n)
                == crate::records::first_fault(l, 2, true, t + 4, 4 * n));
            assert(crate::records::first_fault(l, 2, true, t + 2, 4 * n)
                == crate::records::first_fault(l, 2, true, t + 4, 4 * n));
            assert(crate::records::first_fault(l, 2, true, t + 1, 4 * n)
                == crate::records::first_fault(l, 2, true, t + 4, 4 * n));
            assert(crate::records::first_fault(l, 2, true, t, 4 * n)
                == crate::records::first_fault(l, 2, true, t + 4, 4 * n));
        }
        let spec = TransformSpec { scale, rotation, translation };
        assert(spec.text() == transform_at(l, 2 + t));
        set.push(spec);
        i += 1;
    }
    proof {
        assert(set.text() =~= Seq::new(n as nat, |k: int| transform_at(l, 2 + 4 * k)));
    }
    Ok(set)
}

} // verus!
