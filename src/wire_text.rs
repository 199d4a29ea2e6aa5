//! Reading wires from text: one wire per line, each a comma-separated list of
//! steps such as `R75` or `D30`, a direction letter followed by a distance.
//! Each wire starts at the origin and each step starts where the last ended.

use vstd::prelude::*;
use vstd::string::StringSliceAdditionalSpecFns;
use crate::wires::{line_wf, Line, Point};

verus! {

/// Whether `i` is the index of the first `c` in `s`.
pub open spec fn is_first(s: Seq<u8>, c: u8, i: int) -> bool {
    &&& 0 <= i < s.len()
    &&& s[i] == c
    &&& forall|j: int| 0 <= j < i ==> s[j] != c
}

/// The index of the first `c` in `s`, or the length of `s` when there is none.
pub open spec fn first_of(s: Seq<u8>, c: u8) -> int {
    if exists|i: int| is_first(s, c, i) {
        choose|i: int| is_first(s, c, i)
    } else {
        s.len() as int
    }
}

/// The pieces of `s` between occurrences of `sep`; `s` without `sep` is one
/// piece, and the empty sequence is one empty piece.
pub open spec fn split_on(s: Seq<u8>, sep: u8) -> Seq<Seq<u8>>
    decreases s.len(),
{
    let k = first_of(s, sep);
    if 0 <= k < s.len() {
        seq![s.subrange(0, k)] + split_on(s.subrange(k + 1, s.len() as int), sep)
    } else {
        seq![s]
    }
}

/// `line` without one carriage return at its end.
pub open spec fn strip_cr(line: Seq<u8>) -> Seq<u8> {
    if line.len() > 0 && line.last() == 13 {
        line.drop_last()
    } else {
        line
    }
}

/// The lines of `s`: split at each line feed, with a carriage return before
/// the line feed dropped; a final line feed ends the last line rather than
/// starting an empty one.
pub open spec fn text_lines(s: Seq<u8>) -> Seq<Seq<u8>>
    decreases s.len(),
{
    if s.len() == 0 {
        Seq::empty()
    } else {
        let k = first_of(s, 10);
        if 0 <= k < s.len() {
            seq![strip_cr(s.subrange(0, k))] + text_lines(s.subrange(k + 1, s.len() as int))
        } else {
            seq![s]
        }
    }
}

/// Whether every byte of `d` is an ASCII decimal digit.
pub open spec fn all_digits(d: Seq<u8>) -> bool {
    forall|i: int| 0 <= i < d.len() ==> 48 <= #[trigger] d[i] <= 57
}

/// The number that the decimal digits `d` spell, most significant first.
pub open spec fn digits_value(d: Seq<u8>) -> int
    decreases d.len(),
{
    if d.len() == 0 {
        0
    } else {
        digits_value(d.drop_last()) * 10 + (d.last() - 48)
    }
}

/// The `i32` that `t` spells: an optional `+` or `-`, then one or more
/// decimal digits, with a value in range.
pub open spec fn parse_i32(t: Seq<u8>) -> Option<i32> {
    let negative = t.len() > 0 && t[0] == 45;
    let signed = t.len() > 0 && (t[0] == 45 || t[0] == 43);
    let d = if signed {
        t.drop_first()
    } else {
        t
    };
    let v = if negative {
        -digits_value(d)
    } else {
        digits_value(d)
    };
    if d.len() == 0 || !all_digits(d) || v < i32::MIN || v > i32::MAX {
        None
    } else {
        Some(v as i32)
    }
}

/// The step that `field` spells: a direction letter `U`, `R`, `D` or `L`
/// followed by a distance.
pub open spec fn parse_step(field: Seq<u8>) -> Option<(u8, i32)> {
    if field.len() == 0 {
        None
    } else {
        let dir = field[0];
        if dir != 85 && dir != 82 && dir != 68 && dir != 76 {
            None
        } else {
            match parse_i32(field.drop_first()) {
                Some(n) => Some((dir, n)),
                None => None,
            }
        }
    }
}

/// The line that step `(dir, n)` lays from `p`, if it is well formed: up and
/// right go the signed distance, down and left its negation. A step whose
/// distance is `i32::MIN`, or whose far end leaves the `i32` grid, lays none.
pub open spec fn line_from(p: Point, dir: u8, n: i32) -> Option<Line> {
    let l = if dir == 85 {
        Line::Vertical(p, n)
    } else if dir == 82 {
        Line::Horizontal(p, n)
    } else if dir == 68 {
        Line::Vertical(p, (-n) as i32)
    } else {
        Line::Horizontal(p, (-n) as i32)
    };
    if n != i32::MIN && line_wf(l) {
        Some(l)
    } else {
        None
    }
}

/// The far end of `l`.
pub open spec fn end_of(l: Line) -> Point {
    match l {
        Line::Vertical(o, d) => Point { x: o.x, y: (o.y + d) as i32 },
        Line::Horizontal(o, d) => Point { x: (o.x + d) as i32, y: o.y },
    }
}

/// The lines laid by the first `n` of `fields`, starting at the origin, with
/// the point where the last one ends; `None` if a field is not a step or a
/// line is not well formed.
pub open spec fn lay(fields: Seq<Seq<u8>>, n: int) -> Option<(Seq<Line>, Point)>
    decreases n,
{
    if n <= 0 {
        Some((Seq::empty(), Point { x: 0, y: 0 }))
    } else {
        match lay(fields, n - 1) {
            None => None,
            Some((lines, p)) => match parse_step(fields[n - 1]) {
                None => None,
                Some((dir, d)) => match line_from(p, dir, d) {
                    None => None,
                    Some(l) => Some((lines.push(l), end_of(l))),
                },
            },
        }
    }
}

/// The wire that one line of text describes.
pub open spec fn parse_wire(line: Seq<u8>) -> Option<Seq<Line>> {
    let fields = split_on(line, 44);
    match lay(fields, fields.len() as int) {
        Some((lines, _)) => Some(lines),
        None => None,
    }
}


/// The wires that the lines of `s` describe, one per line; `None` if any line
/// does not describe a wire.
pub open spec fn parse_wires(s: Seq<u8>) -> Option<Seq<Seq<Line>>> {
    let lines = text_lines(s);
    if forall|i: int| 0 <= i < lines.len() ==> (#[trigger] parse_wire(lines[i])) is Some {
        Some(Seq::new(lines.len(), |i: int| parse_wire(lines[i])->Some_0))
    } else {
        None
    }
}

/// The index of the first `c` in `s[start..end]`, or `end` when there is none.
fn find_byte(s: &[u8], start: usize, end: usize, c: u8) -> (k: usize)
    requires
        start <= end <= s@.len(),
    ensures
        start <= k <= end,
        k - start == first_of(s@.subrange(start as int, end as int), c),
{
    let ghost t = s@.subrange(start as int, end as int);
    let mut k = start;
    while k < end
        invariant
            start <= k <= end <= s@.len(),
            t == s@.subrange(start as int, end as int),
            forall|j: int| 0 <= j < k - start ==> t[j] != c,
        decreases end - k,
    {
        if s[k] == c {
            assert(is_first(t, c, k - start));
            assert forall|i: int| is_first(t, c, i) implies i == k - start by {
                if i < k - start {
                    assert(t[i] != c);
                } else if i > k - start {
                    assert(t[k - start] != c);
                }
            }
            return k;
        }
        k = k + 1;
    }
    assert(!exists|i: int| is_first(t, c, i));
    k
}

/// Digits after a prefix never make the value smaller.
proof fn lemma_digits_value_grows(d: Seq<u8>, k: int)
    requires
        0 <= k <= d.len(),
        all_digits(d),
    ensures
        0 <= digits_value(d.subrange(0, k)) <= digits_value(d),
    decreases d.len(),
{
    if d.len() > 0 {
        let e = d.drop_last();
        assert forall|i: int| 0 <= i < e.len() implies 48 <= #[trigger] e[i] <= 57 by {
            assert(e[i] == d[i]);
        }
        assert(d.last() == d[d.len() - 1]);
        lemma_digits_value_grows(e, e.len() as int);
        assert(e.subrange(0, e.len() as int) =~= e);
        if k == d.len() {
            assert(d.subrange(0, k) =~= d);
        } else {
            lemma_digits_value_grows(e, k);
            assert(e.subrange(0, k) =~= d.subrange(0, k));
        }
    } else {
        assert(d.subrange(0, k) =~= d);
    }
}

/// The `i32` that `s[start..end]` spells.
fn parse_number(s: &[u8], start: usize, end: usize) -> (r: Option<i32>)
    requires
        start <= end <= s@.len(),
    ensures
        r == parse_i32(s@.subrange(start as int, end as int)),
{
    let ghost t = s@.subrange(start as int, end as int);
    let negative = start < end && s[start] == 45;
    let signed = start < end && (s[start] == 45 || s[start] == 43);
    let first = if signed {
        start + 1
    } else {
        start
    };
    let ghost d = s@.subrange(first as int, end as int);
    assert(negative == (t.len() > 0 && t[0] == 45));
    assert(signed == (t.len() > 0 && (t[0] == 45 || t[0] == 43)));
    assert(d =~= if signed {
        t.drop_first()
    } else {
        t
    });
    if first == end {
        return None;
    }
    let mut value: i64 = 0;
    let mut k = first;
    while k < end
        invariant
            first <= k <= end <= s@.len(),
            t == s@.subrange(start as int, end as int),
            negative == (t.len() > 0 && t[0] == 45),
            signed == (t.len() > 0 && (t[0] == 45 || t[0] == 43)),
            d == (if signed {
                t.drop_first()
            } else {
                t
            }),
            d == s@.subrange(first as int, end as int),
            forall|j: int| 0 <= j < k - first ==> 48 <= #[trigger] d[j] <= 57,
            value == digits_value(d.subrange(0, k - first)),
            0 <= value <= 0x8000_0000,
        decreases end - k,
    {
        let b = s[k];
        if b < 48 || b > 57 {
            assert(d[k - first] == b);
            assert(!all_digits(d));
            return None;
        }
        assert(d.subrange(0, k + 1 - first).drop_last() =~= d.subrange(0, k - first));
        value = value * 10 + (b - 48) as i64;
        k = k + 1;
        if value > 0x8000_0000 {
            proof {
                if all_digits(d) {
                    lemma_digits_value_grows(d, k - first);
                }
            }
            return None;
        }
    }
    assert(d.subrange(0, k - first) =~= d);
    if negative {
        Some((-value) as i32)
    } else if value > 0x7fff_ffff {
        None
    } else {
        Some(value as i32)
    }
}

/// The step that `s[start..end]` spells.
fn read_step(s: &[u8], start: usize, end: usize) -> (r: Option<(u8, i32)>)
    requires
        start <= end <= s@.len(),
    ensures
        r == parse_step(s@.subrange(start as int, end as int)),
{
    if start == end {
        return None;
    }
    let dir = s[start];
    if dir != 85 && dir != 82 && dir != 68 && dir != 76 {
        return None;
    }
    assert(s@.subrange(start as int, end as int).drop_first() =~= s@.subrange(
        start as int + 1,
        end as int,
    ));
    match parse_number(s, start + 1, end) {
        Some(n) => Some((dir, n)),
        None => None,
    }
}

/// The line that step `(dir, n)` lays from `p`, if it is well formed.
fn make_line(p: Point, dir: u8, n: i32) -> (r: Option<Line>)
    ensures
        r == line_from(p, dir, n),
{
    if n == i32::MIN {
        return None;
    }
    let d: i32 = if dir == 85 || dir == 82 {
        n
    } else {
        -n
    };
    let vertical = dir == 85 || dir == 68;
    let from: i64 = if vertical {
        p.y as i64
    } else {
        p.x as i64
    };
    let to: i64 = from + d as i64;
    if to < i32::MIN as i64 || to > i32::MAX as i64 || d == i32::MIN {
        return None;
    }
    if vertical {
        Some(Line::Vertical(p, d))
    } else {
        Some(Line::Horizontal(p, d))
    }
}

/// The far end of a well-formed line.
fn line_end(l: &Line) -> (r: Point)
    requires
        line_wf(*l),
    ensures
        r == end_of(*l),
{
    match l {
        Line::Vertical(o, d) => Point { x: o.x, y: o.y + *d },
        Line::Horizontal(o, d) => Point { x: o.x + *d, y: o.y },
    }
}

/// Once a field fails to lay a line, every longer prefix fails too.
proof fn lemma_lay_fails_on(fields: Seq<Seq<u8>>, n: int, m: int)
    requires
        0 <= n <= m,
        lay(fields, n) is None,
    ensures
        lay(fields, m) is None,
    decreases m,
{
    if n < m {
        lemma_lay_fails_on(fields, n, m - 1);
    }
}

/// The wire that the text `s[start..end]` describes.
fn read_wire(s: &[u8], start: usize, end: usize) -> (r: Option<Vec<Line>>)
    requires
        start <= end <= s@.len(),
    ensures
        match r {
            Some(lines) => parse_wire(s@.subrange(start as int, end as int)) == Some(lines@),
            None => parse_wire(s@.subrange(start as int, end as int)) is None,
        },
{
    let ghost fields = split_on(s@.subrange(start as int, end as int), 44);
    let mut lines: Vec<Line> = Vec::new();
    let mut p = Point { x: 0, y: 0 };
    let mut pos = start;
    let ghost mut count: int = 0;
    loop
        invariant
            start <= pos <= end <= s@.len(),
            0 <= count < fields.len(),
            fields == split_on(s@.subrange(start as int, end as int), 44),
            fields.subrange(count, fields.len() as int) == split_on(
                s@.subrange(pos as int, end as int),
                44,
            ),
            lay(fields, count) == Some((lines@, p)),
        decreases end - pos,
    {
        let k = find_byte(s, pos, end, 44);
        let ghost rest = s@.subrange(pos as int, end as int);
        proof {
            assert(rest.subrange(0, k - pos) =~= s@.subrange(pos as int, k as int));
            if k < end {
                assert(rest.subrange(k - pos + 1, rest.len() as int) =~= s@.subrange(
                    k + 1,
                    end as int,
                ));
            }
            assert(fields[count] == fields.subrange(count, fields.len() as int)[0]);
            if k == end {
                assert(rest.subrange(0, k - pos) =~= rest);
            }
        }
        assert(fields[count] == s@.subrange(pos as int, k as int));
        let step = read_step(s, pos, k);
        proof {
            if k < end {
                assert(split_on(s@.subrange(k + 1, end as int), 44).len() >= 1);
            }
        }
        let (dir, n) = match step {
            Some(st) => st,
            None => {
                proof {
                    lemma_lay_fails_on(fields, count + 1, fields.len() as int);
                }
                return None;
            },
        };
        let line = match make_line(p, dir, n) {
            Some(l) => l,
            None => {
                proof {
                    lemma_lay_fails_on(fields, count + 1, fields.len() as int);
                }
                return None;
            },
        };
        p = line_end(&line);
        lines.push(line);
        proof {
            count = count + 1;
        }
        if k == end {
            assert(count == fields.len());
            return Some(lines);
        }
        assert(fields.subrange(count, fields.len() as int) =~= fields.subrange(
            count - 1,
            fields.len() as int,
        ).drop_first());
        pos = k + 1;
    }
}


/// The first line of `s[pos..]` runs to the first line feed `k` (or to the end),
/// less a carriage return just before that line feed; the lines after it are
/// those of the text after the line feed.
proof fn lemma_next_line(s: Seq<u8>, pos: int, k: int)
    requires
        0 <= pos < s.len(),
        pos <= k <= s.len(),
        k - pos == first_of(s.subrange(pos, s.len() as int), 10),
    ensures
        ({
            let end = if k < s.len() && k > pos && s[k - 1] == 13 {
                k - 1
            } else {
                k
            };
            let next = if k < s.len() {
                k + 1
            } else {
                k
            };
            text_lines(s.subrange(pos, s.len() as int)) == seq![s.subrange(pos, end)] + text_lines(
                s.subrange(next, s.len() as int),
            )
        }),
{
    let rest = s.subrange(pos, s.len() as int);
    assert(rest.subrange(0, k - pos) =~= s.subrange(pos, k));
    if k < s.len() {
        assert(rest.subrange(k - pos + 1, rest.len() as int) =~= s.subrange(k + 1, s.len() as int));
        if k > pos {
            assert(s.subrange(pos, k).drop_last() =~= s.subrange(pos, k - 1));
        }
    } else {
        assert(rest.subrange(0, k - pos) =~= rest);
        assert(s.subrange(k, s.len() as int) =~= Seq::<u8>::empty());
        assert(seq![rest] + Seq::<Seq<u8>>::empty() =~= seq![rest]);
    }
}

/// Whether the steps of `line` before step `n` lay lines, and step `n` is a
/// valid step that lays none: its far end leaves the `i32` grid, or its
/// distance is `i32::MIN`.
pub open spec fn leaves_grid_at(line: Seq<u8>, n: int) -> bool {
    let fields = split_on(line, 44);
    &&& 0 <= n < fields.len()
    &&& lay(fields, n) is Some
    &&& parse_step(fields[n]) is Some
    &&& line_from(
        lay(fields, n)->Some_0.1,
        parse_step(fields[n])->Some_0.0,
        parse_step(fields[n])->Some_0.1,
    ) is None
}

/// A line of text with a step that leaves the `i32` grid describes no wire,
/// even when that step is the last one.
pub proof fn lemma_off_grid_step_refused(line: Seq<u8>, n: int)
    requires
        leaves_grid_at(line, n),
    ensures
        parse_wire(line) is None,
{
    let fields = split_on(line, 44);
    assert(lay(fields, n + 1) is None);
    lemma_lay_fails_on(fields, n + 1, fields.len() as int);
}

/// The wires that `input` describes, one per line; `None` if a line does not
/// describe a wire: a step without a direction letter `U`, `R`, `D` or `L` or
/// without a distance that fits in an `i32`, or a step whose far end leaves
/// the `i32` grid, the last step of a line included.
pub fn convert_to_lines(input: &str) -> (r: Option<Vec<Vec<Line>>>)
    ensures
        match r {
            Some(wires) => parse_wires(input.spec_bytes()) == Some(
                wires@.map_values(|w: Vec<Line>| w@),
            ),
            None => parse_wires(input.spec_bytes()) is None,
        },
        forall|k: int, n: int|
            0 <= k < text_lines(input.spec_bytes()).len() && #[trigger] leaves_grid_at(
                text_lines(input.spec_bytes())[k],
                n,
            ) ==> r is None,
{
    let s = input.as_bytes();
    let ghost lines = text_lines(s@);
    let mut wires: Vec<Vec<Line>> = Vec::new();
    let mut pos: usize = 0;
    let ghost mut done: Seq<Seq<u8>> = Seq::empty();
    assert(s@.subrange(0, s@.len() as int) =~= s@);
    assert(done + lines =~= lines);
    while pos < s.len()
        invariant
            pos <= s@.len(),
            s@ == input.spec_bytes(),
            lines == text_lines(s@),
            lines == done + text_lines(s@.subrange(pos as int, s@.len() as int)),
            wires@.len() == done.len(),
            forall|i: int|
                0 <= i < done.len() ==> parse_wire(#[trigger] done[i]) == Some(wires@[i]@),
        decreases s.len() - pos,
    {
        let k = find_byte(s, pos, s.len(), 10);
        let mut end = k;
        if k < s.len() && k > pos && s[k - 1] == 13 {
            end = k - 1;
        }
        let next = if k < s.len() {
            k + 1
        } else {
            k
        };
        let ghost line = s@.subrange(pos as int, end as int);
        let ghost later = text_lines(s@.subrange(next as int, s@.len() as int));
        proof {
            lemma_next_line(s@, pos as int, k as int);
            assert(lines == done + (seq![line] + later));
            assert(lines[done.len() as int] == line);
        }
        match read_wire(s, pos, end) {
            Some(w) => {
                wires.push(w);
            },
            None => {
                assert(parse_wire(lines[done.len() as int]) is None);
                return None;
            },
        }
        proof {
            assert(done + (seq![line] + later) =~= done.push(line) + later);
            done = done.push(line);
        }
        pos = next;
    }
    assert(s@.subrange(pos as int, s@.len() as int) =~= Seq::<u8>::empty());
    assert(lines =~= done);
    assert(Seq::new(lines.len(), |i: int| parse_wire(lines[i])->Some_0) =~= wires@.map_values(
        |w: Vec<Line>| w@,
    ));
    assert forall|k: int, n: int|
        0 <= k < lines.len() && #[trigger] leaves_grid_at(lines[k], n) implies false by {
        lemma_off_grid_step_refused(lines[k], n);
        assert(parse_wire(done[k]) is Some);
    }
    Some(wires)
}

} // verus!
