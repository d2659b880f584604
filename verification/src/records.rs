//! What the two input formats share: a line that holds a count, followed by
//! records of four lines, of which three or four hold three numbers each.
//!
//! The lines after the count are the data lines, counted from 0. A text is
//! read from the top, so it is refused for the first data line that is
//! missing or malformed.

use vstd::prelude::*;
use vstd::slice::slice_subrange;
use crate::bytes::{COMMA, LineCursor, find_byte, trim_range};
use crate::error::{CodecError, ParseKind};
use crate::geometry::Vector;
use crate::number::{Number, count_at};

verus! {

/// What is wrong with a line that should hold three numbers: it does not
/// have three fields, or a field, trimmed, is not a number literal. `None`
/// where nothing is wrong.
pub open spec fn triple_fault(line: Seq<u8>) -> Option<ParseKind> {
    let f = crate::bytes::fields(line);
    if f.len() != 3 {
        Some(ParseKind::FieldCount)
    } else if !(crate::number::is_literal(crate::bytes::trim(f[0])) && crate::number::is_literal(
        crate::bytes::trim(f[1]),
    ) && crate::number::is_literal(crate::bytes::trim(f[2]))) {
        Some(ParseKind::Number)
    } else {
        None
    }
}

/// The three numbers of a line: its fields, trimmed.
pub open spec fn triple_of(line: Seq<u8>) -> Vector<Seq<u8>> {
    let f = crate::bytes::fields(line);
    Vector { x: crate::bytes::trim(f[0]), y: crate::bytes::trim(f[1]), z: crate::bytes::trim(f[2]) }
}

/// Whether data line `t` holds numbers. In a labelled list the first line of
/// each record is a label, which may hold anything.
pub open spec fn holds_numbers(labelled: bool, t: int) -> bool {
    !(labelled && t % 4 == 0)
}

/// Data line `t` is there and, where it holds numbers, holds three. `first`
/// is the place of data line 0 among the lines `l`.
pub open spec fn sound(l: Seq<Seq<u8>>, first: int, labelled: bool, t: int) -> bool {
    first + t < l.len() && (holds_numbers(labelled, t) ==> triple_fault(l[first + t]) is None)
}

/// The first data line from `t` on that is not sound; `limit` where all
/// before `limit` are.
pub open spec fn first_fault(
    l: Seq<Seq<u8>>,
    first: int,
    labelled: bool,
    t: int,
    limit: int,
) -> int
    decreases limit - t,
{
    if t >= limit {
        limit
    } else if sound(l, first, labelled, t) {
        first_fault(l, first, labelled, t + 1, limit)
    } else {
        t
    }
}

/// The error for line `k` of `l`, counted from 0, that should hold three
/// numbers and does not: the text ends before it, or it is malformed.
pub open spec fn fault(l: Seq<Seq<u8>>, k: int, declared: u64) -> CodecError {
    if k >= l.len() {
        CodecError::Shape { declared, lines: l.len() as usize }
    } else {
        CodecError::Parse { line: (k + 1) as usize, kind: triple_fault(l[k])->0 }
    }
}

/// The error for a count at line `k` of `l` that is missing or malformed.
pub open spec fn count_fault(k: int) -> CodecError {
    CodecError::Parse { line: (k + 1) as usize, kind: ParseKind::Count }
}

/// The count at line `k` of `l`: what the line, trimmed, denotes.
pub open spec fn count_at_line(l: Seq<Seq<u8>>, k: int) -> Option<u64> {
    if k < l.len() {
        crate::number::count_of(crate::bytes::trim(l[k]))
    } else {
        None
    }
}

proof fn lemma_fields_nonempty(s: Seq<u8>)
    ensures
        crate::bytes::fields(s).len() >= 1,
{
}

/// Reads `text[from..to]`, trimmed, as a number.
fn number_at(text: &[u8], from: usize, to: usize) -> (r: Option<Number>)
    requires
        from <= to <= text@.len(),
    ensures
        r is Some <==> crate::number::is_literal(
            crate::bytes::trim(text@.subrange(from as int, to as int)),
        ),
        r matches Some(n) ==> n@ == crate::bytes::trim(text@.subrange(from as int, to as int)),
{
    let (a, b) = trim_range(text, from, to);
    Number::parse(slice_subrange(text, a, b))
}

/// Reads a line as three numbers.
pub fn parse_triple(line: &[u8]) -> (r: Result<Vector<Number>, ParseKind>)
    ensures
        match r {
            Ok(v) => triple_fault(line@) is None && v.text() == triple_of(line@),
            Err(kind) => triple_fault(line@) == Some(kind),
        },
{
    proof {
        assert(line@.subrange(0, line@.len() as int) =~= line@);
    }
    triple_at(line, 0, line.len())
}

/// Reads `text[from..to]` as a line of three numbers.
pub(crate) fn triple_at(text: &[u8], from: usize, to: usize) -> (r: Result<Vector<Number>, ParseKind>)
    requires
        from <= to <= text@.len(),
    ensures
        match r {
            Ok(v) => {
                &&& triple_fault(text@.subrange(from as int, to as int)) is None
                &&& v.text() == triple_of(text@.subrange(from as int, to as int))
            },
            Err(kind) => triple_fault(text@.subrange(from as int, to as int)) == Some(kind),
        },
{
    let ghost s = text@.subrange(from as int, to as int);
    let c1 = find_byte(text, from, to, COMMA);
    if c1 == to {
        return Err(ParseKind::FieldCount);
    }
    let ghost s1 = text@.subrange(c1 + 1, to as int);
    proof {
        assert(s.subrange(0, c1 - from) =~= text@.subrange(from as int, c1 as int));
        assert(s.skip(c1 - from + 1) =~= s1);
        assert(crate::bytes::fields(s) == seq![text@.subrange(from as int, c1 as int)]
            + crate::bytes::fields(s1));
    }
    let c2 = find_byte(text, c1 + 1, to, COMMA);
    if c2 == to {
        return Err(ParseKind::FieldCount);
    }
    let ghost s2 = text@.subrange(c2 + 1, to as int);
    proof {
        assert(s1.subrange(0, c2 - c1 - 1) =~= text@.subrange(c1 + 1, c2 as int));
        assert(s1.skip(c2 - c1) =~= s2);
        assert(crate::bytes::fields(s1) == seq![text@.subrange(c1 + 1, c2 as int)]
            + crate::bytes::fields(s2));
    }
    let c3 = find_byte(text, c2 + 1, to, COMMA);
    if c3 != to {
        proof {
            lemma_fields_nonempty(s2.skip(c3 - c2));
        }
        return Err(ParseKind::FieldCount);
    }
    proof {
        assert(crate::bytes::fields(s2) == seq![s2]);
        assert(crate::bytes::fields(s) =~= seq![
            text@.subrange(from as int, c1 as int),
            text@.subrange(c1 + 1, c2 as int),
            s2,
        ]);
    }
    let x = number_at(text, from, c1);
    let y = number_at(text, c1 + 1, c2);
    let z = number_at(text, c2 + 1, to);
    match (x, y, z) {
        (Some(x), Some(y), Some(z)) => Ok(Vector { x, y, z }),
        _ => Err(ParseKind::Number),
    }
}

/// Takes the next line as the count.
pub(crate) fn take_count(cursor: &mut LineCursor) -> (r: Result<u64, CodecError>)
    requires
        old(cursor).wf(),
        old(cursor).taken() <= 1,
    ensures
        final(cursor).wf(),
        final(cursor).text() == old(cursor).text(),
        match r {
            Ok(n) => {
                &&& count_at_line(
                    crate::bytes::lines(old(cursor).text()),
                    old(cursor).taken() as int,
                ) == Some(n)
                &&& final(cursor).taken() == old(cursor).taken() + 1
            },
            Err(e) => {
                &&& count_at_line(
                    crate::bytes::lines(old(cursor).text()),
                    old(cursor).taken() as int,
                ) is None
                &&& e == count_fault(old(cursor).taken() as int)
            },
        },
{
    let k = cursor.count();
    match cursor.next() {
        None => Err(CodecError::Parse { line: k + 1, kind: ParseKind::Count }),
        Some((a, b)) => {
            let (ta, tb) = trim_range(cursor.source(), a, b);
            match count_at(cursor.source(), ta, tb) {
                Some(n) => Ok(n),
                None => Err(CodecError::Parse { line: k + 1, kind: ParseKind::Count }),
            }
        },
    }
}

/// Takes the next line as a label: it has to be there, and may hold
/// anything.
pub(crate) fn take_label(cursor: &mut LineCursor, declared: u64) -> (r: Result<(), CodecError>)
    requires
        old(cursor).wf(),
    ensures
        final(cursor).wf(),
        final(cursor).text() == old(cursor).text(),
        match r {
            Ok(_) => {
                &&& old(cursor).taken() < crate::bytes::lines(old(cursor).text()).len()
                &&& final(cursor).taken() == old(cursor).taken() + 1
            },
            Err(e) => {
                &&& old(cursor).taken() >= crate::bytes::lines(old(cursor).text()).len()
                &&& e == fault(
                    crate::bytes::lines(old(cursor).text()),
                    old(cursor).taken() as int,
                    declared,
                )
            },
        },
{
    match cursor.next() {
        None => Err(CodecError::Shape { declared, lines: cursor.count() }),
        Some(_) => Ok(()),
    }
}

/// Takes the next line as three numbers.
pub(crate) fn take_triple(cursor: &mut LineCursor, declared: u64) -> (r: Result<
    Vector<Number>,
    CodecError,
>)
    requires
        old(cursor).wf(),
    ensures
        final(cursor).wf(),
        final(cursor).text() == old(cursor).text(),
        match r {
            Ok(v) => {
                &&& old(cursor).taken() < crate::bytes::lines(old(cursor).text()).len()
                &&& triple_fault(
                    crate::bytes::lines(old(cursor).text())[old(cursor).taken() as int],
                ) is None
                &&& v.text() == triple_of(
                    crate::bytes::lines(old(cursor).text())[old(cursor).taken() as int],
                )
                &&& final(cursor).taken() == old(cursor).taken() + 1
            },
            Err(e) => {
                &&& old(cursor).taken() < crate::bytes::lines(old(cursor).text()).len()
                    ==> triple_fault(
                    crate::bytes::lines(old(cursor).text())[old(cursor).taken() as int],
                ) is Some
                &&& e == fault(
                    crate::bytes::lines(old(cursor).text()),
                    old(cursor).taken() as int,
                    declared,
                )
            },
        },
{
    match cursor.next() {
        None => Err(CodecError::Shape { declared, lines: cursor.count() }),
        Some((a, b)) => {
            match triple_at(cursor.source(), a, b) {
                Ok(v) => Ok(v),
                Err(kind) => Err(CodecError::Parse { line: cursor.count(), kind }),
            }
        },
    }
}

} // verus!
