//! Scanning of byte text: finding a byte, cutting text into lines and
//! comma-separated fields, and trimming white space.
//!
//! Text is UTF-8. Every byte that the formats give a meaning to is ASCII, so
//! the scanners work on bytes and never split a character.

use vstd::prelude::*;
use vstd::slice::slice_subrange;

verus! {

pub const LINE_FEED: u8 = 10;

pub const SPACE: u8 = ' ' as u8;

pub const COMMA: u8 = ',' as u8;

/// The position of the first `b` in `s`, or `s.len()` where `s` holds none.
pub open spec fn first_index(s: Seq<u8>, b: u8) -> nat
    decreases s.len(),
{
    if s.len() == 0 {
        0
    } else if s[0] == b {
        0
    } else {
        1 + first_index(s.skip(1), b)
    }
}

/// `first_index` is the one position before which no `b` stands and at which
/// either a `b` stands or the text ends.
pub proof fn lemma_first_index(s: Seq<u8>, b: u8, p: int)
    requires
        0 <= p <= s.len(),
        forall|k: int| 0 <= k < p ==> s[k] != b,
        p < s.len() ==> s[p] == b,
    ensures
        first_index(s, b) == p,
    decreases s.len(),
{
    if s.len() == 0 {
    } else if p == 0 {
    } else {
        let t = s.skip(1);
        assert forall|k: int| 0 <= k < p - 1 implies t[k] != b by {
            assert(t[k] == s[k + 1]);
        }
        lemma_first_index(t, b, p - 1);
    }
}

/// Finds the first `b` in `text[from..to]`; `to` where there is none.
pub(crate) fn find_byte(text: &[u8], from: usize, to: usize, b: u8) -> (at: usize)
    requires
        from <= to <= text@.len(),
    ensures
        from <= at <= to,
        at == from + first_index(text@.subrange(from as int, to as int), b),
{
    let mut i: usize = from;
    while i < to && text[i] != b
        invariant
            from <= i <= to <= text@.len(),
            forall|k: int| from <= k < i ==> text@[k] != b,
        decreases to - i,
    {
        i += 1;
    }
    proof {
        lemma_first_index(text@.subrange(from as int, to as int), b, i - from);
    }
    i
}

/// The lines of a text. A line ends at a line feed, which is not part of it,
/// or at the end of the text; what follows the last line feed is a line only
/// where it is not empty.
pub open spec fn lines(s: Seq<u8>) -> Seq<Seq<u8>>
    decreases s.len(),
{
    if s.len() == 0 {
        Seq::empty()
    } else {
        let e = first_index(s, LINE_FEED) as int;
        if e >= s.len() {
            seq![s]
        } else {
            seq![s.subrange(0, e)] + lines(s.skip(e + 1))
        }
    }
}

/// The fields of a line: the pieces between its commas. A line without a
/// comma is one field, an empty line one empty field.
pub open spec fn fields(s: Seq<u8>) -> Seq<Seq<u8>>
    decreases s.len(),
{
    let e = first_index(s, COMMA) as int;
    if e >= s.len() {
        seq![s]
    } else {
        seq![s.subrange(0, e)] + fields(s.skip(e + 1))
    }
}

/// A one-byte white-space character: tab, line feed, vertical tab, form
/// feed, carriage return or space.
pub open spec fn is_space1(a: u8) -> bool {
    (9 <= a <= 13) || a == 32
}

/// A two-byte white-space character: U+0085 or U+00A0.
pub open spec fn is_space2(a: u8, b: u8) -> bool {
    a == 0xC2 && (b == 0x85 || b == 0xA0)
}

/// A three-byte white-space character: U+1680, U+2000 to U+200A, U+2028,
/// U+2029, U+202F, U+205F or U+3000.
pub open spec fn is_space3(a: u8, b: u8, c: u8) -> bool {
    ||| a == 0xE1 && b == 0x9A && c == 0x80
    ||| a == 0xE2 && b == 0x80 && (0x80 <= c <= 0x8A || c == 0xA8 || c == 0xA9 || c == 0xAF)
    ||| a == 0xE2 && b == 0x81 && c == 0x9F
    ||| a == 0xE3 && b == 0x80 && c == 0x80
}

/// How many bytes the white-space character takes that `s` starts with; 0
/// where `s` starts with none.
pub open spec fn space_prefix(s: Seq<u8>) -> nat {
    if s.len() >= 1 && is_space1(s[0]) {
        1
    } else if s.len() >= 2 && is_space2(s[0], s[1]) {
        2
    } else if s.len() >= 3 && is_space3(s[0], s[1], s[2]) {
        3
    } else {
        0
    }
}

/// How many bytes the white-space character takes that `s` ends with; 0
/// where `s` ends with none.
pub open spec fn space_suffix(s: Seq<u8>) -> nat {
    let n = s.len() as int;
    if n >= 1 && is_space1(s[n - 1]) {
        1
    } else if n >= 2 && is_space2(s[n - 2], s[n - 1]) {
        2
    } else if n >= 3 && is_space3(s[n - 3], s[n - 2], s[n - 1]) {
        3
    } else {
        0
    }
}

/// `s` without the white space it starts with.
pub open spec fn trim_start(s: Seq<u8>) -> Seq<u8>
    decreases s.len(),
{
    let n = space_prefix(s);
    if n == 0 {
        s
    } else {
        trim_start(s.skip(n as int))
    }
}

/// `s` without the white space it ends with.
pub open spec fn trim_end(s: Seq<u8>) -> Seq<u8>
    decreases s.len(),
{
    let n = space_suffix(s);
    if n == 0 {
        s
    } else {
        trim_end(s.take(s.len() - n))
    }
}

/// `s` without the white space around it.
pub open spec fn trim(s: Seq<u8>) -> Seq<u8> {
    trim_end(trim_start(s))
}

fn space_prefix_at(text: &[u8], from: usize, to: usize) -> (n: usize)
    requires
        from <= to <= text@.len(),
    ensures
        n == space_prefix(text@.subrange(from as int, to as int)),
        from + n <= to,
{
    let len = to - from;
    if len >= 1 {
        let a = text[from];
        if (9 <= a && a <= 13) || a == 32 {
            return 1;
        }
        if len >= 2 {
            let b = text[from + 1];
            if a == 0xC2 && (b == 0x85 || b == 0xA0) {
                return 2;
            }
            if len >= 3 {
                let c = text[from + 2];
                if (a == 0xE1 && b == 0x9A && c == 0x80) || (a == 0xE2 && b == 0x80 && ((0x80 <= c
                    && c <= 0x8A) || c == 0xA8 || c == 0xA9 || c == 0xAF)) || (a == 0xE2 && b
                    == 0x81 && c == 0x9F) || (a == 0xE3 && b == 0x80 && c == 0x80) {
                    return 3;
                }
            }
        }
    }
    0
}

fn space_suffix_at(text: &[u8], from: usize, to: usize) -> (n: usize)
    requires
        from <= to <= text@.len(),
    ensures
        n == space_suffix(text@.subrange(from as int, to as int)),
        from + n <= to,
{
    let len = to - from;
    if len >= 1 {
        let c = text[to - 1];
        if (9 <= c && c <= 13) || c == 32 {
            return 1;
        }
        if len >= 2 {
            let b = text[to - 2];
            if b == 0xC2 && (c == 0x85 || c == 0xA0) {
                return 2;
            }
            if len >= 3 {
                let a = text[to - 3];
                if (a == 0xE1 && b == 0x9A && c == 0x80) || (a == 0xE2 && b == 0x80 && ((0x80 <= c
                    && c <= 0x8A) || c == 0xA8 || c == 0xA9 || c == 0xAF)) || (a == 0xE2 && b
                    == 0x81 && c == 0x9F) || (a == 0xE3 && b == 0x80 && c == 0x80) {
                    return 3;
                }
            }
        }
    }
    0
}

/// Trims `text[from..to]`: the result is the range of what is left.
pub(crate) fn trim_range(text: &[u8], from: usize, to: usize) -> (r: (usize, usize))
    requires
        from <= to <= text@.len(),
    ensures
        from <= r.0 <= r.1 <= to,
        text@.subrange(r.0 as int, r.1 as int) == trim(text@.subrange(from as int, to as int)),
{
    let mut a: usize = from;
    let mut n: usize = space_prefix_at(text, a, to);
    while n > 0
        invariant
            from <= a <= to <= text@.len(),
            a + n <= to,
            n == space_prefix(text@.subrange(a as int, to as int)),
            trim_start(text@.subrange(from as int, to as int)) == trim_start(
                text@.subrange(a as int, to as int),
            ),
        decreases to - a,
    {
        proof {
            assert(text@.subrange(a as int, to as int).skip(n as int) =~= text@.subrange(
                a + n,
                to as int,
            ));
        }
        a += n;
        n = space_prefix_at(text, a, to);
    }
    let mut b: usize = to;
    let mut m: usize = space_suffix_at(text, a, b);
    while m > 0
        invariant
            a <= b <= to <= text@.len(),
            a + m <= b,
            m == space_suffix(text@.subrange(a as int, b as int)),
            trim_end(text@.subrange(a as int, to as int)) == trim_end(
                text@.subrange(a as int, b as int),
            ),
        decreases b - a,
    {
        proof {
            let s = text@.subrange(a as int, b as int);
            assert(s.take(s.len() - m) =~= text@.subrange(a as int, b - m));
        }
        b -= m;
        m = space_suffix_at(text, a, b);
    }
    (a, b)
}

/// The text without the white space around it.
pub fn trim_bytes(text: &[u8]) -> (r: &[u8])
    ensures
        r@ == trim(text@),
{
    proof {
        assert(text@.subrange(0, text@.len() as int) =~= text@);
    }
    let (a, b) = trim_range(text, 0, text.len());
    slice_subrange(text, a, b)
}

/// A cursor over the lines of a text.
pub(crate) struct LineCursor<'a> {
    text: &'a [u8],
    pos: usize,
    taken: usize,
}

impl<'a> LineCursor<'a> {
    /// The text that the cursor runs over.
    pub closed spec fn text(&self) -> Seq<u8> {
        self.text@
    }

    /// How many lines have been taken.
    pub closed spec fn taken(&self) -> usize {
        self.taken
    }

    /// The cursor stands at the start of a line, and has counted the lines
    /// before it.
    pub closed spec fn wf(&self) -> bool {
        &&& self.taken <= self.pos <= self.text@.len()
        &&& lines(self.text@.skip(self.pos as int)) == lines(self.text@).skip(self.taken as int)
        &&& self.taken <= lines(self.text@).len()
    }

    pub fn new(text: &'a [u8]) -> (c: Self)
        ensures
            c.wf(),
            c.text() == text@,
            c.taken() == 0,
    {
        proof {
            assert(text@.skip(0) =~= text@);
            assert(lines(text@).skip(0) =~= lines(text@));
        }
        LineCursor { text, pos: 0, taken: 0 }
    }

    /// Takes the next line: the range of its bytes in the text, or `None`
    /// where no line is left.
    pub fn next(&mut self) -> (r: Option<(usize, usize)>)
        requires
            old(self).wf(),
        ensures
            final(self).wf(),
            final(self).text() == old(self).text(),
            match r {
                Some((a, b)) => {
                    &&& old(self).taken() < lines(old(self).text()).len()
                    &&& final(self).taken() == old(self).taken() + 1
                    &&& a <= b <= old(self).text().len()
                    &&& old(self).text().subrange(a as int, b as int) == lines(
                        old(self).text(),
                    )[old(self).taken() as int]
                },
                None => {
                    &&& old(self).taken() == lines(old(self).text()).len()
                    &&& final(self).taken() == old(self).taken()
                },
            },
    {
        let len = self.text.len();
        if self.pos >= len {
            proof {
                assert(self.text@.skip(self.pos as int).len() == 0);
            }
            return None;
        }
        let start = self.pos;
        let end = find_byte(self.text, start, len, LINE_FEED);
        let next = if end < len {
            end + 1
        } else {
            len
        };
        proof {
            let t = self.text@;
            let s = t.skip(start as int);
            let l = lines(t);
            assert(t.subrange(start as int, len as int) =~= s);
            assert(s.len() > 0);
            let e = first_index(s, LINE_FEED) as int;
            assert(e == end - start);
            if end < len {
                assert(s.subrange(0, e) =~= t.subrange(start as int, end as int));
                assert(s.skip(e + 1) =~= t.skip(next as int));
                assert(lines(s) == seq![t.subrange(start as int, end as int)] + lines(
                    t.skip(next as int),
                ));
            } else {
                assert(t.skip(next as int).len() == 0);
                assert(lines(s) =~= seq![t.subrange(start as int, end as int)] + lines(
                    t.skip(next as int),
                ));
            }
            let k = self.taken as int;
            assert(lines(s) == l.skip(k));
            assert(l.skip(k).len() > 0);
            assert(l.skip(k)[0] == t.subrange(start as int, end as int));
            assert(l.skip(k + 1) =~= l.skip(k).skip(1));
            assert(l.skip(k).skip(1) =~= lines(t.skip(next as int)));
        }
        self.pos = next;
        self.taken = self.taken + 1;
        Some((start, end))
    }

    /// How many lines have been taken.
    pub fn count(&self) -> (n: usize)
        ensures
            n == self.taken(),
    {
        self.taken
    }

    /// The text that the cursor runs over.
    pub fn source(&self) -> (t: &'a [u8])
        ensures
            t@ == self.text(),
    {
        self.text
    }
}

} // verus!
