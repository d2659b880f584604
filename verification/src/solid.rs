//! The solid model: the text that posed meshes are written to.
//!
//! ```text
//! solid <name>
//! facet normal <nx> <ny> <nz>
//! outer loop
//! vertex <x> <y> <z>
//! vertex <x> <y> <z>
//! vertex <x> <y> <z>
//! endloop
//! endfacet
//! endsolid <name>
//! ```
//!
//! The seven lines from `facet` to `endfacet` stand once for each triangle,
//! mesh after mesh in the order given. Each line ends with a line feed but
//! the last.

use vstd::prelude::*;
use crate::bytes::{LINE_FEED, LineCursor, SPACE};
use crate::geometry::{Mesh, Point, Triangle};
use crate::number::Number;

verus! {

/// The bytes of a text of ASCII characters.
pub open spec fn ascii(s: Seq<char>) -> Seq<u8> {
    s.map_values(|c: char| c as u8)
}

/// A line that holds a word and three numbers: the word, which brings its
/// own space, and the numbers with a space between them.
pub open spec fn numbers_line(word: Seq<u8>, x: Seq<u8>, y: Seq<u8>, z: Seq<u8>) -> Seq<u8> {
    word + x + seq![SPACE] + y + seq![SPACE] + z + seq![LINE_FEED]
}

/// The line of a vertex. `w` is not written.
pub open spec fn vertex_line(p: Point<Seq<u8>>) -> Seq<u8> {
    numbers_line(ascii("vertex "@), p.x, p.y, p.z)
}

/// The seven lines of a triangle.
pub open spec fn facet_text(t: Triangle<Seq<u8>>) -> Seq<u8> {
    numbers_line(ascii("facet normal "@), t.normal.x, t.normal.y, t.normal.z) + ascii(
        "outer loop\n"@,
    ) + vertex_line(t.vertex0) + vertex_line(t.vertex1) + vertex_line(t.vertex2) + ascii(
        "endloop\n"@,
    ) + ascii("endfacet\n"@)
}

/// The triangles of a mesh, one after the other.
pub open spec fn mesh_text(m: Seq<Triangle<Seq<u8>>>) -> Seq<u8>
    decreases m.len(),
{
    if m.len() == 0 {
        Seq::empty()
    } else {
        mesh_text(m.drop_last()) + facet_text(m.last())
    }
}

/// The triangles of several meshes, mesh after mesh.
pub open spec fn meshes_text(ms: Seq<Seq<Triangle<Seq<u8>>>>) -> Seq<u8>
    decreases ms.len(),
{
    if ms.len() == 0 {
        Seq::empty()
    } else {
        meshes_text(ms.drop_last()) + mesh_text(ms.last())
    }
}

/// The solid model of several meshes under a name.
pub open spec fn solid_text(name: Seq<u8>, ms: Seq<Seq<Triangle<Seq<u8>>>>) -> Seq<u8> {
    ascii("solid "@) + name + seq![LINE_FEED] + meshes_text(ms) + ascii("endsolid "@) + name
}

/// How many triangles several meshes have together.
pub open spec fn triangle_total(ms: Seq<Seq<Triangle<Seq<u8>>>>) -> nat
    decreases ms.len(),
{
    if ms.len() == 0 {
        0
    } else {
        triangle_total(ms.drop_last()) + ms.last().len()
    }
}

/// Each mesh with every coordinate as its literal.
pub open spec fn texts_of(meshes: Seq<Mesh<Number>>) -> Seq<Seq<Triangle<Seq<u8>>>> {
    meshes.map_values(|m: Mesh<Number>| m.text())
}

/// `s` starts with `w`.
pub open spec fn starts_with(s: Seq<u8>, w: Seq<u8>) -> bool {
    s.len() >= w.len() && s.take(w.len() as int) == w
}

/// A line that opens a facet.
pub open spec fn is_facet_line(line: Seq<u8>) -> bool {
    starts_with(line, ascii("facet normal "@))
}

/// How many of the lines open a facet.
pub open spec fn facet_lines(l: Seq<Seq<u8>>) -> nat
    decreases l.len(),
{
    if l.len() == 0 {
        0
    } else {
        (if is_facet_line(l[0]) {
            1nat
        } else {
            0nat
        }) + facet_lines(l.skip(1))
    }
}

/// How many facets a solid model holds: the lines of it that open one.
pub open spec fn facet_count(s: Seq<u8>) -> nat {
    facet_lines(crate::bytes::lines(s))
}

/// No line feed stands in `s`.
pub open spec fn one_line(s: Seq<u8>) -> bool {
    forall|k: int| 0 <= k < s.len() ==> s[k] != LINE_FEED
}

/// The three numbers that are written of a point are number literals.
pub open spec fn point_is_written(p: Point<Seq<u8>>) -> bool {
    &&& crate::number::is_literal(p.x)
    &&& crate::number::is_literal(p.y)
    &&& crate::number::is_literal(p.z)
}

/// The numbers that are written of a triangle are number literals.
pub open spec fn triangle_is_written(t: Triangle<Seq<u8>>) -> bool {
    &&& point_is_written(t.normal)
    &&& point_is_written(t.vertex0)
    &&& point_is_written(t.vertex1)
    &&& point_is_written(t.vertex2)
}

/// The numbers that are written of the meshes are number literals.
pub open spec fn meshes_are_written(ms: Seq<Seq<Triangle<Seq<u8>>>>) -> bool {
    forall|i: int, j: int|
        0 <= i < ms.len() && 0 <= j < ms[i].len() ==> triangle_is_written(#[trigger] ms[i][j])
}

/// A first line and its line feed count for themselves: what follows them
/// counts as it would alone.
proof fn lemma_count_after_line(x: Seq<u8>, rest: Seq<u8>)
    requires
        one_line(x),
    ensures
        facet_count(x + seq![LINE_FEED] + rest) == (if is_facet_line(x) {
            1nat
        } else {
            0nat
        }) + facet_count(rest),
{
    let s = x + seq![LINE_FEED] + rest;
    crate::bytes::lemma_first_index(s, LINE_FEED, x.len() as int);
    assert(s.subrange(0, x.len() as int) =~= x);
    assert(s.skip(x.len() as int + 1) =~= rest);
    let l = crate::bytes::lines(s);
    assert(l == seq![x] + crate::bytes::lines(rest));
    assert(l[0] == x);
    assert(l.skip(1) =~= crate::bytes::lines(rest));
}

/// A last line without a line feed is a line, and nothing where it is
/// empty.
proof fn lemma_count_last_line(x: Seq<u8>)
    requires
        one_line(x),
    ensures
        facet_count(x) == if is_facet_line(x) {
            1nat
        } else {
            0nat
        },
{
    if x.len() == 0 {
        reveal_strlit("facet normal ");
        assert(ascii("facet normal "@).len() > 0);
    } else {
        crate::bytes::lemma_first_index(x, LINE_FEED, x.len() as int);
        let l = crate::bytes::lines(x);
        assert(l == seq![x]);
        assert(l.skip(1) =~= Seq::<Seq<u8>>::empty());
        assert(facet_lines(l.skip(1)) == 0);
    }
}

/// A number literal holds no line feed.
proof fn lemma_literal_one_line(s: Seq<u8>)
    requires
        crate::number::is_literal(s),
    ensures
        one_line(s),
{
    crate::number::lemma_literal_bytes(s);
}

/// What writing relies on of the words of the format: none holds a line
/// feed but as its last byte, and only `facet normal ` starts with `f`.
proof fn lemma_words()
    ensures
        one_line(ascii("facet normal "@)),
        one_line(ascii("vertex "@)),
        one_line(ascii("solid "@)),
        one_line(ascii("endsolid "@)),
        one_line(ascii("outer loop"@)),
        one_line(ascii("endloop"@)),
        one_line(ascii("endfacet"@)),
        ascii("outer loop\n"@) == ascii("outer loop"@) + seq![LINE_FEED],
        ascii("endloop\n"@) == ascii("endloop"@) + seq![LINE_FEED],
        ascii("endfacet\n"@) == ascii("endfacet"@) + seq![LINE_FEED],
        opens_no_facet(ascii("vertex "@)),
        opens_no_facet(ascii("solid "@)),
        opens_no_facet(ascii("endsolid "@)),
        opens_no_facet(ascii("outer loop"@)),
        opens_no_facet(ascii("endloop"@)),
        opens_no_facet(ascii("endfacet"@)),
{
    reveal_strlit("facet normal ");
    reveal_strlit("vertex ");
    reveal_strlit("solid ");
    reveal_strlit("endsolid ");
    reveal_strlit("outer loop");
    reveal_strlit("endloop");
    reveal_strlit("endfacet");
    reveal_strlit("outer loop\n");
    reveal_strlit("endloop\n");
    reveal_strlit("endfacet\n");
    assert(ascii("outer loop\n"@) =~= ascii("outer loop"@) + seq![LINE_FEED]);
    assert(ascii("endloop\n"@) =~= ascii("endloop"@) + seq![LINE_FEED]);
    assert(ascii("endfacet\n"@) =~= ascii("endfacet"@) + seq![LINE_FEED]);
}

/// A word that no line which opens a facet starts with: its first byte is
/// not `f`.
pub open spec fn opens_no_facet(word: Seq<u8>) -> bool {
    word.len() > 0 && word[0] != 'f' as u8
}

/// A line that starts with such a word opens no facet.
proof fn lemma_other_word(line: Seq<u8>, word: Seq<u8>)
    requires
        starts_with(line, word),
        opens_no_facet(word),
    ensures
        !is_facet_line(line),
{
    reveal_strlit("facet normal ");
    let w = ascii("facet normal "@);
    assert(w[0] == 'f' as u8);
    if is_facet_line(line) {
        assert(line.take(w.len() as int)[0] == w[0]);
        assert(line.take(word.len() as int)[0] == word[0]);
    }
}

/// A line of a word and three numbers that stands first counts for itself:
/// as a facet where the word opens one, not at all where it cannot.
proof fn lemma_count_numbers_line(
    word: Seq<u8>,
    x: Seq<u8>,
    y: Seq<u8>,
    z: Seq<u8>,
    rest: Seq<u8>,
)
    requires
        one_line(word),
        crate::number::is_literal(x),
        crate::number::is_literal(y),
        crate::number::is_literal(z),
    ensures
        word == ascii("facet normal "@) ==> facet_count(numbers_line(word, x, y, z) + rest) == 1
            + facet_count(rest),
        opens_no_facet(word) ==> facet_count(numbers_line(word, x, y, z) + rest) == facet_count(
            rest,
        ),
{
    lemma_literal_one_line(x);
    lemma_literal_one_line(y);
    lemma_literal_one_line(z);
    let body = word + x + seq![SPACE] + y + seq![SPACE] + z;
    assert(body.take(word.len() as int) =~= word);
    assert(numbers_line(word, x, y, z) + rest =~= body + seq![LINE_FEED] + rest);
    lemma_count_after_line(body, rest);
    if opens_no_facet(word) {
        lemma_other_word(body, word);
    }
}

/// A line of one word that stands first and opens no facet does not count.
proof fn lemma_count_word_line(word: Seq<u8>, rest: Seq<u8>)
    requires
        one_line(word),
        opens_no_facet(word),
    ensures
        facet_count(word + seq![LINE_FEED] + rest) == facet_count(rest),
{
    assert(word.take(word.len() as int) =~= word);
    lemma_count_after_line(word, rest);
    lemma_other_word(word, word);
}

/// The seven lines of a triangle count as one facet.
proof fn lemma_count_facet(t: Triangle<Seq<u8>>, rest: Seq<u8>)
    requires
        triangle_is_written(t),
    ensures
        facet_count(facet_text(t) + rest) == 1 + facet_count(rest),
{
    lemma_words();
    let nl = seq![LINE_FEED];
    let l1 = numbers_line(ascii("facet normal "@), t.normal.x, t.normal.y, t.normal.z);
    let l2 = ascii("outer loop"@) + nl;
    let l3 = vertex_line(t.vertex0);
    let l4 = vertex_line(t.vertex1);
    let l5 = vertex_line(t.vertex2);
    let l6 = ascii("endloop"@) + nl;
    let l7 = ascii("endfacet"@) + nl;
    let r6 = l7 + rest;
    let r5 = l6 + r6;
    let r4 = l5 + r5;
    let r3 = l4 + r4;
    let r2 = l3 + r3;
    let r1 = l2 + r2;
    assert(facet_text(t) + rest == l1 + r1) by {
        assert(l1 + l2 + l3 + l4 + l5 + l6 + l7 + rest =~= l1 + l2 + l3 + l4 + l5 + l6 + r6);
        assert(l1 + l2 + l3 + l4 + l5 + l6 + r6 =~= l1 + l2 + l3 + l4 + l5 + r5);
        assert(l1 + l2 + l3 + l4 + l5 + r5 =~= l1 + l2 + l3 + l4 + r4);
        assert(l1 + l2 + l3 + l4 + r4 =~= l1 + l2 + l3 + r3);
        assert(l1 + l2 + l3 + r3 =~= l1 + l2 + r2);
        assert(l1 + l2 + r2 =~= l1 + r1);
    }
    lemma_count_numbers_line(ascii("facet normal "@), t.normal.x, t.normal.y, t.normal.z, r1);
    lemma_count_word_line(ascii("outer loop"@), r2);
    lemma_count_numbers_line(ascii("vertex "@), t.vertex0.x, t.vertex0.y, t.vertex0.z, r3);
    lemma_count_numbers_line(ascii("vertex "@), t.vertex1.x, t.vertex1.y, t.vertex1.z, r4);
    lemma_count_numbers_line(ascii("vertex "@), t.vertex2.x, t.vertex2.y, t.vertex2.z, r5);
    lemma_count_word_line(ascii("endloop"@), r6);
    lemma_count_word_line(ascii("endfacet"@), rest);
}

/// The lines of a mesh count as one facet for each triangle.
proof fn lemma_count_mesh(m: Seq<Triangle<Seq<u8>>>, rest: Seq<u8>)
    requires
        forall|j: int| 0 <= j < m.len() ==> triangle_is_written(#[trigger] m[j]),
    ensures
        facet_count(mesh_text(m) + rest) == m.len() + facet_count(rest),
    decreases m.len(),
{
    if m.len() == 0 {
        assert(mesh_text(m) + rest =~= rest);
    } else {
        let head = m.drop_last();
        let tail = facet_text(m.last()) + rest;
        assert(mesh_text(m) + rest =~= mesh_text(head) + tail);
        assert forall|j: int| 0 <= j < head.len() implies triangle_is_written(
            #[trigger] head[j],
        ) by {
            assert(head[j] == m[j]);
        }
        lemma_count_mesh(head, tail);
        lemma_count_facet(m.last(), rest);
    }
}

/// The lines of several meshes count as one facet for each triangle.
proof fn lemma_count_meshes(ms: Seq<Seq<Triangle<Seq<u8>>>>, rest: Seq<u8>)
    requires
        meshes_are_written(ms),
    ensures
        facet_count(meshes_text(ms) + rest) == triangle_total(ms) + facet_count(rest),
    decreases ms.len(),
{
    if ms.len() == 0 {
        assert(meshes_text(ms) + rest =~= rest);
    } else {
        let head = ms.drop_last();
        let tail = mesh_text(ms.last()) + rest;
        assert(meshes_text(ms) + rest =~= meshes_text(head) + tail);
        assert forall|i: int, j: int|
            0 <= i < head.len() && 0 <= j < head[i].len() implies triangle_is_written(
            #[trigger] head[i][j],
        ) by {
            assert(head[i] == ms[i]);
            assert(triangle_is_written(ms[i][j]));
        }
        lemma_count_meshes(head, tail);
        let last = ms.last();
        assert forall|j: int| 0 <= j < last.len() implies triangle_is_written(
            #[trigger] last[j],
        ) by {
            assert(triangle_is_written(ms[ms.len() - 1][j]));
        }
        lemma_count_mesh(last, rest);
    }
}

/// Writing keeps every triangle and adds none: a solid model under a name
/// of one line holds as many facets as the meshes written have triangles.
pub proof fn lemma_solid_holds_every_triangle(name: Seq<u8>, ms: Seq<Seq<Triangle<Seq<u8>>>>)
    requires
        one_line(name),
        meshes_are_written(ms),
    ensures
        facet_count(solid_text(name, ms)) == triangle_total(ms),
{
    lemma_words();
    let first = ascii("solid "@) + name;
    let last = ascii("endsolid "@) + name;
    let rest = meshes_text(ms) + last;
    assert(solid_text(name, ms) =~= first + seq![LINE_FEED] + rest);
    lemma_count_after_line(first, rest);
    lemma_count_meshes(ms, last);
    lemma_count_last_line(last);
    assert(first.take(ascii("solid "@).len() as int) =~= ascii("solid "@));
    assert(last.take(ascii("endsolid "@).len() as int) =~= ascii("endsolid "@));
    lemma_other_word(first, ascii("solid "@));
    lemma_other_word(last, ascii("endsolid "@));
}

fn keyword(s: &str) -> (b: &[u8])
    requires
        s.is_ascii(),
    ensures
        b@ == ascii(s@),
{
    let b = s.as_bytes();
    proof {
        vstd::utf8::is_ascii_chars_encode_utf8(s@);
        assert(b@ =~= ascii(s@));
    }
    b
}

fn push_all(out: &mut Vec<u8>, bytes: &[u8])
    ensures
        final(out)@ == old(out)@ + bytes@,
{
    let mut i: usize = 0;
    while i < bytes.len()
        invariant
            i <= bytes@.len(),
            out@ == old(out)@ + bytes@.take(i as int),
        decreases bytes@.len() - i,
    {
        out.push(bytes[i]);
        proof {
            assert(bytes@.take(i + 1) =~= bytes@.take(i as int).push(bytes@[i as int]));
        }
        i += 1;
    }
    proof {
        assert(bytes@.take(i as int) =~= bytes@);
    }
}

fn push_numbers_line(out: &mut Vec<u8>, word: &[u8], x: &Number, y: &Number, z: &Number)
    ensures
        final(out)@ == old(out)@ + numbers_line(word@, x@, y@, z@),
        crate::number::is_literal(x@),
        crate::number::is_literal(y@),
        crate::number::is_literal(z@),
{
    push_all(out, word);
    push_all(out, x.as_bytes());
    out.push(SPACE);
    push_all(out, y.as_bytes());
    out.push(SPACE);
    push_all(out, z.as_bytes());
    out.push(LINE_FEED);
    proof {
        assert(out@ =~= old(out)@ + numbers_line(word@, x@, y@, z@));
    }
}

fn push_facet(out: &mut Vec<u8>, t: &Triangle<Number>)
    ensures
        final(out)@ == old(out)@ + facet_text(t.text()),
        triangle_is_written(t.text()),
{
    proof {
        reveal_strlit("facet normal ");
        reveal_strlit("outer loop\n");
        reveal_strlit("vertex ");
        reveal_strlit("endloop\n");
        reveal_strlit("endfacet\n");
    }
    push_numbers_line(out, keyword("facet normal "), &t.normal.x, &t.normal.y, &t.normal.z);
    push_all(out, keyword("outer loop\n"));
    push_numbers_line(out, keyword("vertex "), &t.vertex0.x, &t.vertex0.y, &t.vertex0.z);
    push_numbers_line(out, keyword("vertex "), &t.vertex1.x, &t.vertex1.y, &t.vertex1.z);
    push_numbers_line(out, keyword("vertex "), &t.vertex2.x, &t.vertex2.y, &t.vertex2.z);
    push_all(out, keyword("endloop\n"));
    push_all(out, keyword("endfacet\n"));
    proof {
        assert(out@ =~= old(out)@ + facet_text(t.text()));
    }
}

/// Writes the meshes as one solid model under `name`, mesh after mesh and
/// triangle after triangle in the order given.
///
/// Under a name of one line, the model holds one facet for each triangle.
pub fn write_solid(name: &[u8], meshes: &Vec<Mesh<Number>>) -> (out: Vec<u8>)
    ensures
        out@ == solid_text(name@, texts_of(meshes@)),
        meshes_are_written(texts_of(meshes@)),
        one_line(name@) ==> facet_count(out@) == triangle_total(texts_of(meshes@)),
{
    let ghost ms = texts_of(meshes@);
    let mut out: Vec<u8> = Vec::new();
    proof {
        reveal_strlit("solid ");
        reveal_strlit("endsolid ");
    }
    push_all(&mut out, keyword("solid "));
    push_all(&mut out, name);
    out.push(LINE_FEED);
    let ghost head = out@;
    proof {
        assert(head =~= ascii("solid "@) + name@ + seq![LINE_FEED]);
        assert(ms.take(0) =~= Seq::<Seq<Triangle<Seq<u8>>>>::empty());
    }
    let mut i: usize = 0;
    while i < meshes.len()
        invariant
            i <= meshes@.len(),
            ms == texts_of(meshes@),
            out@ == head + meshes_text(ms.take(i as int)),
            forall|a: int, b: int|
                0 <= a < i && 0 <= b < ms[a].len() ==> triangle_is_written(#[trigger] ms[a][b]),
        decreases meshes@.len() - i,
    {
        let triangles = meshes[i].triangles();
        let ghost m = ms[i as int];
        let ghost before = out@;
        proof {
            assert(m.take(0) =~= Seq::<Triangle<Seq<u8>>>::empty());
            assert(before + mesh_text(m.take(0)) =~= before);
        }
        let mut j: usize = 0;
        while j < triangles.len()
            invariant
                j <= triangles@.len(),
                m.len() == triangles@.len(),
                forall|b: int| 0 <= b < m.len() ==> m[b] == (#[trigger] triangles@[b]).text(),
                out@ == before + mesh_text(m.take(j as int)),
                forall|b: int| 0 <= b < j ==> triangle_is_written(#[trigger] m[b]),
            decreases triangles@.len() - j,
        {
            push_facet(&mut out, &triangles[j]);
            proof {
                assert(m.take(j + 1).drop_last() =~= m.take(j as int));
                assert(m.take(j + 1).last() == m[j as int]);
            }
            j += 1;
        }
        proof {
            assert(m.take(j as int) =~= m);
            assert(ms.take(i + 1).drop_last() =~= ms.take(i as int));
            assert(ms.take(i + 1).last() == m);
            assert(out@ =~= head + meshes_text(ms.take(i + 1)));
        }
        i += 1;
    }
    push_all(&mut out, keyword("endsolid "));
    push_all(&mut out, name);
    proof {
        assert(ms.take(i as int) =~= ms);
        assert(out@ =~= solid_text(name@, ms));
        if one_line(name@) {
            lemma_solid_holds_every_triangle(name@, ms);
        }
    }
    out
}

/// Counts the facets of a solid model: the lines that open one.
pub fn count_facets(text: &[u8]) -> (n: usize)
    ensures
        n == facet_count(text@),
{
    let ghost l = crate::bytes::lines(text@);
    proof {
        reveal_strlit("facet normal ");
        assert(l.skip(0) =~= l);
    }
    let word = keyword("facet normal ");
    let mut cursor = LineCursor::new(text);
    let mut n: usize = 0;
    loop
        invariant
            cursor.wf(),
            cursor.text() == text@,
            l == crate::bytes::lines(text@),
            word@ == ascii("facet normal "@),
            n <= cursor.taken(),
            n + facet_lines(l.skip(cursor.taken() as int)) == facet_lines(l),
        decreases l.len() - cursor.taken(),
    {
        let ghost k = cursor.taken() as int;
        match cursor.next() {
            None => {
                return n;
            },
            Some((a, b)) => {
                proof {
                    assert(l.skip(k)[0] == l[k]);
                    assert(l.skip(k).skip(1) =~= l.skip(k + 1));
                }
                if starts_with_at(text, a, b, word) {
                    n += 1;
                }
            },
        }
    }
}

fn starts_with_at(text: &[u8], from: usize, to: usize, word: &[u8]) -> (r: bool)
    requires
        from <= to <= text@.len(),
    ensures
        r == starts_with(text@.subrange(from as int, to as int), word@),
{
    let ghost s = text@.subrange(from as int, to as int);
    if to - from < word.len() {
        return false;
    }
    let mut i: usize = 0;
    while i < word.len()
        invariant
            i <= word@.len() <= to - from,
            from <= to <= text@.len(),
            s == text@.subrange(from as int, to as int),
            forall|k: int| 0 <= k < i ==> s[k] == word@[k],
        decreases word@.len() - i,
    {
        if text[from + i] != word[i] {
            proof {
                assert(s.take(word@.len() as int)[i as int] != word@[i as int]);
            }
            return false;
        }
        i += 1;
    }
    proof {
        assert(s.take(word@.len() as int) =~= word@);
    }
    true
}

} // verus!
