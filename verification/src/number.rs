//! Numbers as they are written: the grammar of a decimal literal, the
//! grammar of a count, and `Number`, a literal that has been checked.
//!
//! A coordinate is kept as the text that denotes it. Equal text denotes an
//! equal value, so a mesh that is read and written again has not moved.

use vstd::prelude::*;
use vstd::slice::slice_to_vec;

verus! {

pub const PLUS: u8 = '+' as u8;

pub const MINUS: u8 = '-' as u8;

pub const DOT: u8 = '.' as u8;

pub const ZERO: u8 = '0' as u8;

pub const NINE: u8 = '9' as u8;

pub open spec fn is_digit(b: u8) -> bool {
    ZERO <= b <= NINE
}

/// The upper-case letter for a lower-case ASCII letter, any other byte
/// unchanged.
pub open spec fn upper(b: u8) -> u8 {
    if 'a' as u8 <= b <= 'z' as u8 {
        (b - 32) as u8
    } else {
        b
    }
}

/// How many digits `s` starts with.
pub open spec fn digits_prefix(s: Seq<u8>) -> nat
    decreases s.len(),
{
    if s.len() > 0 && is_digit(s[0]) {
        1 + digits_prefix(s.skip(1))
    } else {
        0
    }
}

/// `digits_prefix` is the one position before which all are digits and at
/// which either no digit stands or the text ends.
pub proof fn lemma_digits_prefix(s: Seq<u8>, p: int)
    requires
        0 <= p <= s.len(),
        forall|k: int| 0 <= k < p ==> is_digit(s[k]),
        p < s.len() ==> !is_digit(s[p]),
    ensures
        digits_prefix(s) == p,
    decreases s.len(),
{
    if p > 0 {
        let t = s.skip(1);
        assert forall|k: int| 0 <= k < p - 1 implies is_digit(t[k]) by {
            assert(t[k] == s[k + 1]);
        }
        lemma_digits_prefix(t, p - 1);
    }
}

/// Whether `s` starts with a sign, as 1 or 0.
pub open spec fn sign_prefix(s: Seq<u8>) -> nat {
    if s.len() > 0 && (s[0] == PLUS || s[0] == MINUS) {
        1
    } else {
        0
    }
}

/// An exponent: `e` or `E`, an optional sign, one digit or more.
pub open spec fn is_exponent(s: Seq<u8>) -> bool {
    &&& s.len() >= 1
    &&& upper(s[0]) == 'E' as u8
    &&& {
        let t = s.skip(1);
        let u = t.skip(sign_prefix(t) as int);
        u.len() >= 1 && digits_prefix(u) == u.len()
    }
}

/// A decimal number without its sign: digits, optionally a dot and more
/// digits, with a digit on at least one side of the dot; then optionally an
/// exponent.
pub open spec fn is_decimal(s: Seq<u8>) -> bool {
    let i = digits_prefix(s);
    let t = s.skip(i as int);
    if t.len() > 0 && t[0] == DOT {
        let j = digits_prefix(t.skip(1));
        let u = t.skip(1 + j as int);
        i + j >= 1 && (u.len() == 0 || is_exponent(u))
    } else {
        i >= 1 && (t.len() == 0 || is_exponent(t))
    }
}

/// One of the words `inf`, `infinity` and `nan`, in any mix of cases.
pub open spec fn is_special(s: Seq<u8>) -> bool {
    let u = s.map_values(|b: u8| upper(b));
    ||| u == seq!['I' as u8, 'N' as u8, 'F' as u8]
    ||| u == seq![
        'I' as u8,
        'N' as u8,
        'F' as u8,
        'I' as u8,
        'N' as u8,
        'I' as u8,
        'T' as u8,
        'Y' as u8,
    ]
    ||| u == seq!['N' as u8, 'A' as u8, 'N' as u8]
}

/// A number literal: an optional sign, then a decimal number or one of the
/// words for infinity and not-a-number. No white space, nothing else.
pub open spec fn is_literal(s: Seq<u8>) -> bool {
    let t = s.skip(sign_prefix(s) as int);
    is_special(t) || is_decimal(t)
}

/// The literal `1`.
pub open spec fn one_literal() -> Seq<u8> {
    seq!['1' as u8]
}

/// A byte that a number literal can hold: a digit, a sign, a dot or an
/// ASCII letter.
pub open spec fn is_literal_byte(b: u8) -> bool {
    ||| is_digit(b)
    ||| b == PLUS
    ||| b == MINUS
    ||| b == DOT
    ||| 'A' as u8 <= b <= 'Z' as u8
    ||| 'a' as u8 <= b <= 'z' as u8
}

/// The digits that `s` starts with are digits, and end within `s`.
pub proof fn lemma_digits_prefix_bounds(s: Seq<u8>)
    ensures
        digits_prefix(s) <= s.len(),
        forall|k: int| 0 <= k < digits_prefix(s) ==> is_digit(s[k]),
    decreases s.len(),
{
    if s.len() > 0 && is_digit(s[0]) {
        let t = s.skip(1);
        lemma_digits_prefix_bounds(t);
        assert forall|k: int| 0 <= k < digits_prefix(s) implies is_digit(s[k]) by {
            if k > 0 {
                assert(s[k] == t[k - 1]);
            }
        }
    }
}

proof fn lemma_exponent_bytes(s: Seq<u8>)
    requires
        is_exponent(s),
    ensures
        forall|k: int| 0 <= k < s.len() ==> is_literal_byte(s[k]),
{
    let t = s.skip(1);
    let n = sign_prefix(t) as int;
    let u = t.skip(n);
    lemma_digits_prefix_bounds(u);
    assert forall|k: int| 0 <= k < s.len() implies is_literal_byte(s[k]) by {
        if k == 0 {
        } else if k < 1 + n {
            assert(s[k] == t[0]);
        } else {
            assert(s[k] == u[k - 1 - n]);
        }
    }
}

proof fn lemma_decimal_bytes(s: Seq<u8>)
    requires
        is_decimal(s),
    ensures
        forall|k: int| 0 <= k < s.len() ==> is_literal_byte(s[k]),
{
    let i = digits_prefix(s) as int;
    lemma_digits_prefix_bounds(s);
    let t = s.skip(i);
    if t.len() > 0 && t[0] == DOT {
        let f = t.skip(1);
        let j = digits_prefix(f) as int;
        lemma_digits_prefix_bounds(f);
        let u = t.skip(1 + j);
        if u.len() > 0 {
            lemma_exponent_bytes(u);
        }
        assert forall|k: int| 0 <= k < s.len() implies is_literal_byte(s[k]) by {
            if k < i {
            } else if k == i {
                assert(s[k] == t[0]);
            } else if k < i + 1 + j {
                assert(s[k] == f[k - i - 1]);
            } else {
                assert(s[k] == u[k - i - 1 - j]);
            }
        }
    } else {
        if t.len() > 0 {
            lemma_exponent_bytes(t);
        }
        assert forall|k: int| 0 <= k < s.len() implies is_literal_byte(s[k]) by {
            if k >= i {
                assert(s[k] == t[k - i]);
            }
        }
    }
}

proof fn lemma_special_bytes(s: Seq<u8>)
    requires
        is_special(s),
    ensures
        forall|k: int| 0 <= k < s.len() ==> is_literal_byte(s[k]),
{
    let u = s.map_values(|b: u8| upper(b));
    let inf = seq!['I' as u8, 'N' as u8, 'F' as u8];
    let infinity = seq![
        'I' as u8,
        'N' as u8,
        'F' as u8,
        'I' as u8,
        'N' as u8,
        'I' as u8,
        'T' as u8,
        'Y' as u8,
    ];
    let nan = seq!['N' as u8, 'A' as u8, 'N' as u8];
    assert(forall|k: int| 0 <= k < 3 ==> 'A' as u8 <= #[trigger] inf[k] <= 'Z' as u8);
    assert(forall|k: int| 0 <= k < 8 ==> 'A' as u8 <= #[trigger] infinity[k] <= 'Z' as u8);
    assert(forall|k: int| 0 <= k < 3 ==> 'A' as u8 <= #[trigger] nan[k] <= 'Z' as u8);
    assert(u.len() == s.len());
    assert(inf.len() == 3 && infinity.len() == 8 && nan.len() == 3);
    assert forall|k: int| 0 <= k < s.len() implies is_literal_byte(s[k]) by {
        assert(u[k] == upper(s[k]));
        if u == inf {
            assert('A' as u8 <= inf[k] <= 'Z' as u8);
        } else if u == infinity {
            assert('A' as u8 <= infinity[k] <= 'Z' as u8);
        } else {
            assert('A' as u8 <= nan[k] <= 'Z' as u8);
        }
    }
}

/// Every byte of a number literal is a digit, a sign, a dot or an ASCII
/// letter: no white space stands in one, and no line feed.
pub proof fn lemma_literal_bytes(s: Seq<u8>)
    requires
        is_literal(s),
    ensures
        forall|k: int| 0 <= k < s.len() ==> is_literal_byte(s[k]),
{
    let n = sign_prefix(s) as int;
    let t = s.skip(n);
    if is_special(t) {
        lemma_special_bytes(t);
    } else {
        lemma_decimal_bytes(t);
    }
    assert forall|k: int| 0 <= k < s.len() implies is_literal_byte(s[k]) by {
        if k >= n {
            assert(s[k] == t[k - n]);
        }
    }
}

/// The number that a text of digits denotes.
pub open spec fn digits_value(s: Seq<u8>) -> nat
    decreases s.len(),
{
    if s.len() == 0 {
        0
    } else {
        digits_value(s.drop_last()) * 10 + (s.last() - ZERO) as nat
    }
}

/// More digits never denote less.
pub proof fn lemma_digits_value_grows(s: Seq<u8>, k: int)
    requires
        0 <= k <= s.len(),
        digits_prefix(s) == s.len(),
    ensures
        digits_value(s.take(k)) <= digits_value(s),
    decreases s.len(),
{
    if k == s.len() {
        assert(s.take(k) =~= s);
    } else {
        let t = s.drop_last();
        lemma_digits_prefix_bounds(s);
        assert forall|i: int| 0 <= i < t.len() implies is_digit(t[i]) by {
            assert(t[i] == s[i]);
        }
        lemma_digits_prefix(t, t.len() as int);
        lemma_digits_value_grows(t, k);
        assert(t.take(k) =~= s.take(k));
    }
}

/// The count that a text denotes: an optional `+`, then one digit or more,
/// read in base ten; none where the text has another form or the number
/// does not fit.
pub open spec fn count_of(s: Seq<u8>) -> Option<u64> {
    let d = if s.len() > 0 && s[0] == PLUS {
        s.skip(1)
    } else {
        s
    };
    if d.len() >= 1 && digits_prefix(d) == d.len() && digits_value(d) <= u64::MAX {
        Some(digits_value(d) as u64)
    } else {
        None
    }
}

/// Counts the digits that `text[from..to]` starts with.
pub(crate) fn count_digits(text: &[u8], from: usize, to: usize) -> (n: usize)
    requires
        from <= to <= text@.len(),
    ensures
        n == digits_prefix(text@.subrange(from as int, to as int)),
        from + n <= to,
{
    let mut i: usize = from;
    while i < to && ZERO <= text[i] && text[i] <= NINE
        invariant
            from <= i <= to <= text@.len(),
            forall|k: int| from <= k < i ==> is_digit(text@[k]),
        decreases to - i,
    {
        i += 1;
    }
    proof {
        lemma_digits_prefix(text@.subrange(from as int, to as int), i - from);
    }
    i - from
}

fn to_upper(b: u8) -> (u: u8)
    ensures
        u == upper(b),
{
    if 'a' as u8 <= b && b <= 'z' as u8 {
        b - 32
    } else {
        b
    }
}

fn exponent_at(text: &[u8], from: usize, to: usize) -> (r: bool)
    requires
        from <= to <= text@.len(),
    ensures
        r == is_exponent(text@.subrange(from as int, to as int)),
{
    if from == to || to_upper(text[from]) != 'E' as u8 {
        return false;
    }
    let mut p: usize = from + 1;
    if p < to && (text[p] == PLUS || text[p] == MINUS) {
        p += 1;
    }
    let n = count_digits(text, p, to);
    proof {
        let s = text@.subrange(from as int, to as int);
        let t = s.skip(1);
        assert(t =~= text@.subrange(from + 1, to as int));
        assert(t.skip(sign_prefix(t) as int) =~= text@.subrange(p as int, to as int));
    }
    n >= 1 && p + n == to
}

fn decimal_at(text: &[u8], from: usize, to: usize) -> (r: bool)
    requires
        from <= to <= text@.len(),
    ensures
        r == is_decimal(text@.subrange(from as int, to as int)),
{
    let i = count_digits(text, from, to);
    let p = from + i;
    proof {
        let s = text@.subrange(from as int, to as int);
        assert(s.skip(i as int) =~= text@.subrange(p as int, to as int));
    }
    if p < to && text[p] == DOT {
        let j = count_digits(text, p + 1, to);
        let q = p + 1 + j;
        proof {
            let t = text@.subrange(p as int, to as int);
            assert(t.skip(1) =~= text@.subrange(p + 1, to as int));
            assert(t.skip(1 + j) =~= text@.subrange(q as int, to as int));
        }
        (i >= 1 || j >= 1) && (q == to || exponent_at(text, q, to))
    } else {
        i >= 1 && (p == to || exponent_at(text, p, to))
    }
}

fn special_at(text: &[u8], from: usize, to: usize) -> (r: bool)
    requires
        from <= to <= text@.len(),
    ensures
        r == is_special(text@.subrange(from as int, to as int)),
{
    let ghost s = text@.subrange(from as int, to as int);
    let ghost u = s.map_values(|b: u8| upper(b));
    let len = to - from;
    if len == 3 {
        let a = to_upper(text[from]);
        let b = to_upper(text[from + 1]);
        let c = to_upper(text[from + 2]);
        proof {
            assert(u[0] == a && u[1] == b && u[2] == c);
            assert(u =~= seq![a, b, c]);
        }
        (a == 'I' as u8 && b == 'N' as u8 && c == 'F' as u8) || (a == 'N' as u8 && b == 'A' as u8
            && c == 'N' as u8)
    } else if len == 8 {
        let a = to_upper(text[from]);
        let b = to_upper(text[from + 1]);
        let c = to_upper(text[from + 2]);
        let d = to_upper(text[from + 3]);
        let e = to_upper(text[from + 4]);
        let f = to_upper(text[from + 5]);
        let g = to_upper(text[from + 6]);
        let h = to_upper(text[from + 7]);
        proof {
            assert(u[0] == a && u[1] == b && u[2] == c && u[3] == d);
            assert(u[4] == e && u[5] == f && u[6] == g && u[7] == h);
            assert(u =~= seq![a, b, c, d, e, f, g, h]);
        }
        a == 'I' as u8 && b == 'N' as u8 && c == 'F' as u8 && d == 'I' as u8 && e == 'N' as u8
            && f == 'I' as u8 && g == 'T' as u8 && h == 'Y' as u8
    } else {
        proof {
            assert(u.len() == len);
        }
        false
    }
}

/// Whether `text[from..to]` is a number literal.
pub(crate) fn literal_at(text: &[u8], from: usize, to: usize) -> (r: bool)
    requires
        from <= to <= text@.len(),
    ensures
        r == is_literal(text@.subrange(from as int, to as int)),
{
    let mut p: usize = from;
    if p < to && (text[p] == PLUS || text[p] == MINUS) {
        p += 1;
    }
    proof {
        let s = text@.subrange(from as int, to as int);
        assert(s.skip(sign_prefix(s) as int) =~= text@.subrange(p as int, to as int));
    }
    special_at(text, p, to) || decimal_at(text, p, to)
}

/// Reads a text as a count. White space around it is not taken.
pub fn parse_count(text: &[u8]) -> (r: Option<u64>)
    ensures
        r == count_of(text@),
{
    proof {
        assert(text@.subrange(0, text@.len() as int) =~= text@);
    }
    count_at(text, 0, text.len())
}

/// Reads `text[from..to]` as a count.
pub(crate) fn count_at(text: &[u8], from: usize, to: usize) -> (r: Option<u64>)
    requires
        from <= to <= text@.len(),
    ensures
        r == count_of(text@.subrange(from as int, to as int)),
{
    let mut p: usize = from;
    if p < to && text[p] == PLUS {
        p += 1;
    }
    let ghost s = text@.subrange(from as int, to as int);
    let ghost d = text@.subrange(p as int, to as int);
    proof {
        if p > from {
            assert(s.skip(1) =~= d);
        } else {
            assert(s =~= d);
        }
    }
    let n = count_digits(text, p, to);
    if n == 0 || p + n != to {
        return None;
    }
    let mut acc: u64 = 0;
    let mut i: usize = p;
    proof {
        assert(d.take(0) =~= Seq::<u8>::empty());
    }
    while i < to
        invariant
            p <= i <= to <= text@.len(),
            d == text@.subrange(p as int, to as int),
            digits_prefix(d) == d.len(),
            acc == digits_value(d.take(i - p)),
            count_of(text@.subrange(from as int, to as int)) == if digits_value(d) <= u64::MAX {
                Some(digits_value(d) as u64)
            } else {
                None
            },
        decreases to - i,
    {
        proof {
            lemma_digits_prefix_bounds(d);
            assert(is_digit(d[i - p]));
            assert(d.take(i - p + 1).drop_last() =~= d.take(i - p));
            assert(d.take(i - p + 1).last() == text@[i as int]);
            assert(digits_value(d.take(i - p + 1)) == acc * 10 + (text@[i as int] - ZERO));
            lemma_digits_value_grows(d, i - p + 1);
        }
        let digit: u64 = (text[i] - ZERO) as u64;
        if acc > (u64::MAX - digit) / 10 {
            return None;
        }
        acc = acc * 10 + digit;
        i += 1;
    }
    proof {
        assert(d.take(to - p) =~= d);
    }
    Some(acc)
}

/// A number literal that has been checked against the grammar.
#[derive(Debug, PartialEq, Eq)]
pub struct Number {
    text: Vec<u8>,
}

impl Clone for Number {
    fn clone(&self) -> (n: Self)
        ensures
            n@ == self@,
    {
        proof {
            use_type_invariant(self);
        }
        Number { text: slice_to_vec(self.text.as_slice()) }
    }
}

impl View for Number {
    type V = Seq<u8>;

    /// The bytes of the literal.
    closed spec fn view(&self) -> Seq<u8> {
        self.text@
    }
}

impl Number {
    #[verifier::type_invariant]
    spec fn well_formed(self) -> bool {
        is_literal(self.text@)
    }

    /// Checks `text` against the grammar of a number literal, and keeps it
    /// where it follows it.
    pub fn parse(text: &[u8]) -> (r: Option<Number>)
        ensures
            r is Some <==> is_literal(text@),
            r matches Some(n) ==> n@ == text@,
    {
        proof {
            assert(text@.subrange(0, text@.len() as int) =~= text@);
        }
        if literal_at(text, 0, text.len()) {
            Some(Number { text: slice_to_vec(text) })
        } else {
            None
        }
    }

    /// The literal `1`.
    pub fn one() -> (n: Number)
        ensures
            n@ == one_literal(),
    {
        let mut text: Vec<u8> = Vec::new();
        text.push('1' as u8);
        proof {
            let s = text@;
            assert(s =~= one_literal());
            assert(s.skip(0) =~= s);
            assert(s.skip(1) =~= Seq::<u8>::empty());
            assert(digits_prefix(s.skip(1)) == 0);
            assert(digits_prefix(s) == 1);
            assert(is_decimal(s));
        }
        Number { text }
    }

    /// The bytes of the literal.
    pub fn as_bytes(&self) -> (b: &[u8])
        ensures
            b@ == self@,
            is_literal(b@),
    {
        proof {
            use_type_invariant(self);
        }
        self.text.as_slice()
    }
}

} // verus!
