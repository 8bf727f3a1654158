//! Reading the vertices and faces of a mesh from the text of an OBJ file.
//!
//! The text is taken line by line. A line is trimmed and split at single
//! blanks. Four fields of which the first is `v` make a vertex, whose three
//! coordinates are handed on as the places of their text; four fields of
//! which the first is `f` make a triangle of three vertex numbers, counted
//! from one, each of which may be followed by a slash and more. Every other
//! line is passed over.
use vstd::prelude::*;

verus! {

/// The byte is white space.
pub open spec fn is_blank(b: u8) -> bool {
    b == 32 || (9 <= b && b <= 13)
}

/// The byte is a decimal digit.
pub open spec fn is_digit(b: u8) -> bool {
    48 <= b && b <= 57
}

/// The first index from `from` up to `to` at which `s` holds `sep`, or `to`
/// if there is none.
pub open spec fn first_index(s: Seq<u8>, from: int, to: int, sep: u8) -> int
    decreases to - from,
{
    if from >= to {
        to
    } else if s[from] == sep {
        from
    } else {
        first_index(s, from + 1, to, sep)
    }
}

/// The first index from `from` up to `to` at which `s` holds no white space,
/// or `to` if there is none.
pub open spec fn skip_blanks(s: Seq<u8>, from: int, to: int) -> int
    decreases to - from,
{
    if from >= to {
        to
    } else if !is_blank(s[from]) {
        from
    } else {
        skip_blanks(s, from + 1, to)
    }
}

/// The end of the range from `from` to `to` once the white space at its end
/// is cut off.
pub open spec fn trim_end(s: Seq<u8>, from: int, to: int) -> int
    decreases to - from,
{
    if to <= from {
        from
    } else if !is_blank(s[to - 1]) {
        to
    } else {
        trim_end(s, from, to - 1)
    }
}

/// The first index from `from` up to `to` at which `s` holds no digit, or
/// `to` if there is none.
pub open spec fn digits_end(s: Seq<u8>, from: int, to: int) -> int
    decreases to - from,
{
    if from >= to {
        to
    } else if !is_digit(s[from]) {
        from
    } else {
        digits_end(s, from + 1, to)
    }
}

/// The number that the digits of `s` from `from` up to `to` spell.
pub open spec fn digits_value(s: Seq<u8>, from: int, to: int) -> nat
    decreases to - from,
{
    if to <= from {
        0
    } else {
        digits_value(s, from, to - 1) * 10 + (s[to - 1] - 48) as nat
    }
}

/// A stretch of the text: the bytes from `start` up to `end`.
#[derive(Clone, Copy, Debug, PartialEq, Eq, Structural)]
pub struct Span {
    pub start: usize,
    pub end: usize,
}

impl Span {
    /// The stretch is in order and lies between `lo` and `hi`.
    pub open spec fn within(self, lo: int, hi: int) -> bool {
        lo <= self.start <= self.end <= hi
    }
}

/// The three coordinates of a vertex, each as the stretch of text that
/// spells it.
#[derive(Clone, Copy, Debug, PartialEq, Eq, Structural)]
pub struct VertexText {
    pub x: Span,
    pub y: Span,
    pub z: Span,
}

impl VertexText {
    /// All three stretches are in order and lie between `lo` and `hi`.
    pub open spec fn within(self, lo: int, hi: int) -> bool {
        self.x.within(lo, hi) && self.y.within(lo, hi) && self.z.within(lo, hi)
    }
}

/// The vertex index that the bytes of `s` from `lo` up to `hi` spell: what
/// stands before the first slash is a number of at least one, written in
/// digits after an optional plus sign, and the index is one less. There is
/// no index where the bytes are of another form or the number is too large.
pub open spec fn index_spec(s: Seq<u8>, lo: int, hi: int) -> Option<usize> {
    let end = first_index(s, lo, hi, 47);
    let start = if lo < end && s[lo] == 43 {
        lo + 1
    } else {
        lo
    };
    let value = digits_value(s, start, end);
    if start >= end || digits_end(s, start, end) != end || value == 0 || value > usize::MAX {
        None
    } else {
        Some((value - 1) as usize)
    }
}

/// What one line holds.
#[derive(Clone, Copy, Debug, PartialEq, Eq, Structural)]
pub enum Record {
    /// A vertex.
    Vertex(VertexText),
    /// A triangle, as three indices into the vertices.
    Face(usize, usize, usize),
    /// Anything that is neither.
    Other,
    /// A triangle that cannot be read.
    Malformed,
}

/// What the line that `s` holds from `lo` up to `hi` says.
pub open spec fn record_spec(s: Seq<u8>, lo: int, hi: int) -> Record {
    let a = skip_blanks(s, lo, hi);
    let b = trim_end(s, a, hi);
    let e0 = first_index(s, a, b, 32);
    let e1 = first_index(s, e0 + 1, b, 32);
    let e2 = first_index(s, e1 + 1, b, 32);
    let e3 = first_index(s, e2 + 1, b, 32);
    if !(e0 < b && e1 < b && e2 < b && e3 >= b) || e0 != a + 1 {
        Record::Other
    } else if s[a] == 118 {
        Record::Vertex(
            VertexText {
                x: Span { start: (e0 + 1) as usize, end: e1 as usize },
                y: Span { start: (e1 + 1) as usize, end: e2 as usize },
                z: Span { start: (e2 + 1) as usize, end: b as usize },
            },
        )
    } else if s[a] == 102 {
        match (index_spec(s, e0 + 1, e1), index_spec(s, e1 + 1, e2), index_spec(s, e2 + 1, b)) {
            (Some(i), Some(j), Some(k)) => Record::Face(i, j, k),
            _ => Record::Malformed,
        }
    } else {
        Record::Other
    }
}

/// The vertices and the indices that the lines of `s` from `start` on add
/// to `verts` and `indicies`; nothing if one of the lines is a triangle that
/// cannot be read.
pub open spec fn parse_from(s: Seq<u8>, start: int, verts: Seq<VertexText>, indicies: Seq<usize>)
    -> Option<(Seq<VertexText>, Seq<usize>)>
    decreases s.len() + 1 - start,
    via parse_from_decreases
{
    if start >= s.len() {
        Some((verts, indicies))
    } else {
        let end = first_index(s, start, s.len() as int, 10);
        match record_spec(s, start, end) {
            Record::Vertex(v) => parse_from(s, end + 1, verts.push(v), indicies),
            Record::Face(i, j, k) => parse_from(s, end + 1, verts, indicies.push(i).push(j).push(k)),
            Record::Other => parse_from(s, end + 1, verts, indicies),
            Record::Malformed => None,
        }
    }
}

#[via_fn]
proof fn parse_from_decreases(s: Seq<u8>, start: int, verts: Seq<VertexText>, indicies: Seq<usize>) {
    if start < s.len() {
        lemma_first_index_bounds(s, start, s.len() as int, 10);
    }
}

/// The vertices and the indices of a whole text.
pub open spec fn parse_spec(s: Seq<u8>) -> Option<(Seq<VertexText>, Seq<usize>)> {
    parse_from(s, 0, Seq::empty(), Seq::empty())
}

/// A search finds its byte within the range it was given.
pub proof fn lemma_first_index_bounds(s: Seq<u8>, from: int, to: int, sep: u8)
    requires
        from <= to,
    ensures
        from <= first_index(s, from, to, sep) <= to,
    decreases to - from,
{
    if from < to && s[from] != sep {
        lemma_first_index_bounds(s, from + 1, to, sep);
    }
}

fn find(s: &[u8], from: usize, to: usize, sep: u8) -> (r: usize)
    requires
        to <= s.len(),
    ensures
        r == first_index(s@, from as int, to as int, sep),
        from <= to ==> from <= r <= to,
        from > to ==> r == to,
{
    if from >= to {
        return to;
    }
    let mut i: usize = from;
    while i < to && s[i] != sep
        invariant
            from <= i <= to <= s.len(),
            first_index(s@, from as int, to as int, sep) == first_index(s@, i as int, to as int, sep),
        decreases to - i,
    {
        i += 1;
    }
    i
}

fn is_blank_byte(b: u8) -> (r: bool)
    ensures
        r == is_blank(b),
{
    b == 32 || (9 <= b && b <= 13)
}

fn is_digit_byte(b: u8) -> (r: bool)
    ensures
        r == is_digit(b),
{
    48 <= b && b <= 57
}

fn trim_bounds(s: &[u8], lo: usize, hi: usize) -> (r: (usize, usize))
    requires
        lo <= hi <= s.len(),
    ensures
        r.0 == skip_blanks(s@, lo as int, hi as int),
        r.1 == trim_end(s@, r.0 as int, hi as int),
        lo <= r.0 <= r.1 <= hi,
{
    let mut a: usize = lo;
    while a < hi && is_blank_byte(s[a])
        invariant
            lo <= a <= hi <= s.len(),
            skip_blanks(s@, lo as int, hi as int) == skip_blanks(s@, a as int, hi as int),
        decreases hi - a,
    {
        a += 1;
    }
    let mut b: usize = hi;
    while b > a && is_blank_byte(s[b - 1])
        invariant
            a <= b <= hi <= s.len(),
            trim_end(s@, a as int, hi as int) == trim_end(s@, a as int, b as int),
        decreases b - a,
    {
        b -= 1;
    }
    (a, b)
}

fn scan_digits(s: &[u8], from: usize, to: usize) -> (r: usize)
    requires
        to <= s.len(),
    ensures
        r == digits_end(s@, from as int, to as int),
        from <= to ==> from <= r <= to,
        from <= to ==> forall|i: int| from <= i < r ==> is_digit(#[trigger] s@[i]),
{
    if from >= to {
        return to;
    }
    let mut i: usize = from;
    while i < to && is_digit_byte(s[i])
        invariant
            from <= i <= to <= s.len(),
            digits_end(s@, from as int, to as int) == digits_end(s@, i as int, to as int),
            forall|k: int| from <= k < i ==> is_digit(#[trigger] s@[k]),
        decreases to - i,
    {
        i += 1;
    }
    i
}

/// The number that the digits from `from` up to `to` spell, or `cap` if it
/// is more than `cap`.
fn read_digits(s: &[u8], from: usize, to: usize, cap: u128) -> (r: u128)
    requires
        from <= to <= s.len(),
        cap <= 0x1_0000_0000_0000_0000_0000,
        forall|i: int| from <= i < to ==> is_digit(#[trigger] s@[i]),
    ensures
        r == (if digits_value(s@, from as int, to as int) > cap {
            cap as nat
        } else {
            digits_value(s@, from as int, to as int)
        }),
{
    let mut acc: u128 = 0;
    let mut i: usize = from;
    while i < to
        invariant
            from <= i <= to <= s.len(),
            cap <= 0x1_0000_0000_0000_0000_0000,
            forall|k: int| from <= k < to ==> is_digit(#[trigger] s@[k]),
            acc == (if digits_value(s@, from as int, i as int) > cap {
                cap as nat
            } else {
                digits_value(s@, from as int, i as int)
            }),
        decreases to - i,
    {
        let d: u128 = (s[i] - 48) as u128;
        let next: u128 = acc * 10 + d;
        acc = if next > cap {
            cap
        } else {
            next
        };
        i += 1;
    }
    acc
}

/// Reads a vertex index.
pub fn parse_index(s: &[u8], lo: usize, hi: usize) -> (r: Option<usize>)
    requires
        lo <= hi <= s.len(),
    ensures
        r == index_spec(s@, lo as int, hi as int),
{
    let end: usize = find(s, lo, hi, 47);
    let start: usize = if lo < end && s[lo] == 43 {
        lo + 1
    } else {
        lo
    };
    if start >= end {
        return None;
    }
    let digits: usize = scan_digits(s, start, end);
    if digits != end {
        return None;
    }
    let cap: u128 = usize::MAX as u128 + 1;
    let value: u128 = read_digits(s, start, end, cap);
    if value == 0 || value >= cap {
        None
    } else {
        Some((value - 1) as usize)
    }
}

/// Reads one line.
pub fn parse_record(s: &[u8], lo: usize, hi: usize) -> (r: Record)
    requires
        lo <= hi <= s.len(),
    ensures
        r == record_spec(s@, lo as int, hi as int),
        r matches Record::Vertex(v) ==> v.within(lo as int, hi as int),
{
    let (a, b) = trim_bounds(s, lo, hi);
    let e0: usize = find(s, a, b, 32);
    if e0 >= b {
        return Record::Other;
    }
    let e1: usize = find(s, e0 + 1, b, 32);
    if e1 >= b {
        return Record::Other;
    }
    let e2: usize = find(s, e1 + 1, b, 32);
    if e2 >= b {
        return Record::Other;
    }
    let e3: usize = find(s, e2 + 1, b, 32);
    if e3 < b || e0 != a + 1 {
        return Record::Other;
    }
    if s[a] == 118 {
        proof {
            lemma_first_index_bounds(s@, e0 + 1, b as int, 32);
            lemma_first_index_bounds(s@, e1 + 1, b as int, 32);
        }
        Record::Vertex(
            VertexText {
                x: Span { start: e0 + 1, end: e1 },
                y: Span { start: e1 + 1, end: e2 },
                z: Span { start: e2 + 1, end: b },
            },
        )
    } else if s[a] == 102 {
        let i: Option<usize> = parse_index(s, e0 + 1, e1);
        let j: Option<usize> = parse_index(s, e1 + 1, e2);
        let k: Option<usize> = parse_index(s, e2 + 1, b);
        match (i, j, k) {
            (Some(i), Some(j), Some(k)) => Record::Face(i, j, k),
            _ => Record::Malformed,
        }
    } else {
        Record::Other
    }
}

/// Reads a whole text: its vertices in order, each as the places of its
/// three coordinates in the text, and the indices of its triangles, three
/// for each, in order.
pub fn parse(s: &[u8]) -> (r: Option<(Vec<VertexText>, Vec<usize>)>)
    ensures
        match r {
            Some((verts, indicies)) => {
                &&& parse_spec(s@) == Some((verts@, indicies@))
                &&& forall|k: int|
                    0 <= k < verts.len() ==> (#[trigger] verts@[k]).within(0, s.len() as int)
            },
            None => parse_spec(s@) is None,
        },
{
    let mut verts: Vec<VertexText> = Vec::new();
    let mut indicies: Vec<usize> = Vec::new();
    let mut start: usize = 0;
    let mut done: bool = false;
    let ghost mut pos: int = 0;
    while !done
        invariant
            start <= s.len(),
            !done ==> pos == start,
            done ==> pos >= s.len(),
            parse_spec(s@) == parse_from(s@, pos, verts@, indicies@),
            forall|k: int| 0 <= k < verts.len() ==> (#[trigger] verts@[k]).within(0, s.len() as int),
        decreases s.len() - start + (if done { 0int } else { 1int }),
    {
        if start >= s.len() {
            done = true;
        } else {
            let end: usize = find(s, start, s.len(), 10);
            match parse_record(s, start, end) {
                Record::Vertex(v) => {
                    verts.push(v);
                },
                Record::Face(i, j, k) => {
                    indicies.push(i);
                    indicies.push(j);
                    indicies.push(k);
                },
                Record::Other => {},
                Record::Malformed => {
                    return None;
                },
            }
            proof {
                pos = end + 1;
            }
            if end >= s.len() {
                done = true;
            } else {
                start = end + 1;
            }
        }
    }
    Some((verts, indicies))
}

} // verus!
