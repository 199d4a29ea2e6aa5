//! Wires laid on a grid as runs of axis-parallel segments, and the points
//! where two wires cross.

use vstd::prelude::*;

verus! {

/// A point on the grid.
#[derive(Debug, Clone, Copy, PartialEq, Eq, Structural)]
pub struct Point {
    pub x: i32,
    pub y: i32,
}

/// A segment from an origin, running a signed distance along one axis.
#[derive(Debug, Clone, Copy, PartialEq, Eq, Structural)]
pub enum Line {
    /// Runs along the y axis; a positive distance goes up.
    Vertical(Point, i32),
    /// Runs along the x axis; a positive distance goes right.
    Horizontal(Point, i32),
}

/// The absolute value of `n`.
pub open spec fn abs(n: int) -> int {
    if n < 0 {
        -n
    } else {
        n
    }
}

/// Whether `value` lies strictly between `a` and `b`, in either order.
pub open spec fn strictly_between(value: int, a: int, b: int) -> bool {
    (a < value && value < b) || (b < value && value < a)
}

/// Whether the far end of `line` lies on the grid and its length fits in an `i32`.
pub open spec fn line_wf(line: Line) -> bool {
    match line {
        Line::Vertical(o, d) => d != i32::MIN && i32::MIN <= o.y + d <= i32::MAX,
        Line::Horizontal(o, d) => d != i32::MIN && i32::MIN <= o.x + d <= i32::MAX,
    }
}

/// Whether `p` lies on `line`, strictly inside it: the two ends excluded.
pub open spec fn on_line(line: Line, p: Point) -> bool {
    match line {
        Line::Vertical(o, d) => p.x == o.x && strictly_between(p.y as int, o.y as int, o.y + d),
        Line::Horizontal(o, d) => p.y == o.y && strictly_between(p.x as int, o.x as int, o.x + d),
    }
}

/// The length of `line`.
pub open spec fn length(line: Line) -> int {
    match line {
        Line::Vertical(_, d) => abs(d as int),
        Line::Horizontal(_, d) => abs(d as int),
    }
}

/// The signed distance from the origin of `line` to `p`, along the line's axis.
pub open spec fn offset(line: Line, p: Point) -> int {
    match line {
        Line::Vertical(o, _) => p.y - o.y,
        Line::Horizontal(o, _) => p.x - o.x,
    }
}

/// The point where `a` and `b` cross, if they do: one must be vertical and the
/// other horizontal, and the crossing must lie strictly inside both.
pub open spec fn crossing(a: Line, b: Line) -> Option<Point> {
    let p = match (a, b) {
        (Line::Vertical(o, _), Line::Horizontal(other, _)) => Some(Point { x: o.x, y: other.y }),
        (Line::Horizontal(o, _), Line::Vertical(other, _)) => Some(Point { x: other.x, y: o.y }),
        _ => None,
    };
    match p {
        Some(p) => if on_line(a, p) && on_line(b, p) {
            Some(p)
        } else {
            None
        },
        None => None,
    }
}

/// Whether `value` lies strictly between `a` and `b`, in either order.
pub fn between(value: i32, a: i32, b: i32) -> (r: bool)
    ensures
        r == strictly_between(value as int, a as int, b as int),
{
    let low = if a < b { a } else { b };
    let high = if a < b { b } else { a };
    low < value && value < high
}

impl Line {
    /// Whether `p` lies on this line, strictly inside it: the two ends excluded.
    pub fn contains(&self, p: &Point) -> (r: bool)
        requires
            line_wf(*self),
        ensures
            r == on_line(*self, *p),
    {
        match self {
            Line::Vertical(o, d) => p.x == o.x && between(p.y, o.y, o.y + *d),
            Line::Horizontal(o, d) => p.y == o.y && between(p.x, o.x, o.x + *d),
        }
    }

    /// The length of this line.
    pub fn distance(&self) -> (r: i32)
        requires
            line_wf(*self),
        ensures
            r == length(*self),
    {
        match self {
            Line::Vertical(_, d) | Line::Horizontal(_, d) => if *d < 0 {
                -*d
            } else {
                *d
            },
        }
    }

    /// The distance from the origin of this line to `point`, along its axis.
    pub fn distance_to_point(&self, point: &Point) -> (r: i32)
        requires
            -i32::MAX <= offset(*self, *point) <= i32::MAX,
        ensures
            r == abs(offset(*self, *point)),
    {
        let delta: i32 = match self {
            Line::Vertical(o, _) => point.y - o.y,
            Line::Horizontal(o, _) => point.x - o.x,
        };
        if delta < 0 {
            -delta
        } else {
            delta
        }
    }

    /// The point where this line and `other` cross, if they do.
    pub fn intersection(&self, other: &Line) -> (r: Option<Point>)
        requires
            line_wf(*self),
            line_wf(*other),
        ensures
            r == crossing(*self, *other),
    {
        match (self, other) {
            (Line::Vertical(origin, _), Line::Horizontal(other_origin, _)) => {
                let point = Point { x: origin.x, y: other_origin.y };
                if self.contains(&point) && other.contains(&point) {
                    Some(point)
                } else {
                    None
                }
            },
            (Line::Horizontal(origin, _), Line::Vertical(other_origin, _)) => {
                let point = Point { x: other_origin.x, y: origin.y };
                if self.contains(&point) && other.contains(&point) {
                    Some(point)
                } else {
                    None
                }
            },
            _ => None,
        }
    }
}


/// The total length of the first `n` lines of `lines`.
pub open spec fn path_length(lines: Seq<Line>, n: int) -> int
    decreases n,
{
    if n <= 0 || n > lines.len() {
        0
    } else {
        path_length(lines, n - 1) + length(lines[n - 1])
    }
}

/// Whether every line of `lines` is well formed.
pub open spec fn all_wf(lines: Seq<Line>) -> bool {
    forall|i: int| 0 <= i < lines.len() ==> line_wf(#[trigger] lines[i])
}

/// The number of steps both wires take to reach point `p` on line `i` of `a`
/// and line `j` of `b`: along each wire, the length of the lines before the
/// one holding `p` plus the distance along that line.
pub open spec fn combined_steps(a: Seq<Line>, b: Seq<Line>, i: int, j: int, p: Point) -> int {
    path_length(a, i) + abs(offset(a[i], p)) + path_length(b, j) + abs(offset(b[j], p))
}

/// The crossing of line `i` of wire `a` with line `j` of wire `b`, if any,
/// with the number of steps both wires take to reach it.
pub open spec fn crossing_entry(a: Seq<Line>, b: Seq<Line>, i: int, j: int) -> Seq<(Point, i32)> {
    match crossing(a[i], b[j]) {
        Some(p) => seq![(p, combined_steps(a, b, i, j, p) as i32)],
        None => Seq::empty(),
    }
}

/// Whether the step count of every crossing of `a` with `b` fits in an `i32`.
pub open spec fn crossing_steps_fit(a: Seq<Line>, b: Seq<Line>) -> bool {
    forall|i: int, j: int|
        0 <= i < a.len() && 0 <= j < b.len() && (#[trigger] crossing(a[i], b[j])) is Some
            ==> combined_steps(a, b, i, j, crossing(a[i], b[j])->Some_0) <= i32::MAX
}

/// The crossings of line `i` of `a` with the first `j` lines of `b`, in order.
pub open spec fn row_crossings(a: Seq<Line>, b: Seq<Line>, i: int, j: int) -> Seq<(Point, i32)>
    decreases j,
{
    if j <= 0 {
        Seq::empty()
    } else {
        row_crossings(a, b, i, j - 1) + crossing_entry(a, b, i, j - 1)
    }
}

/// The crossings of the first `i` lines of `a` with all of `b`: line by line
/// of `a`, and for each, line by line of `b`.
pub open spec fn all_crossings(a: Seq<Line>, b: Seq<Line>, i: int) -> Seq<(Point, i32)>
    decreases i,
{
    if i <= 0 {
        Seq::empty()
    } else {
        all_crossings(a, b, i - 1) + row_crossings(a, b, i - 1, b.len() as int)
    }
}

/// The length of a prefix of a wire never exceeds the length of a longer prefix.
proof fn lemma_path_length_monotone(lines: Seq<Line>, m: int, n: int)
    requires
        0 <= m <= n <= lines.len(),
    ensures
        0 <= path_length(lines, m) <= path_length(lines, n),
    decreases n,
{
    if m < n {
        lemma_path_length_monotone(lines, m, n - 1);
    } else if n > 0 {
        lemma_path_length_monotone(lines, n - 1, n - 1);
    }
}

/// The crossings of wire `a` with wire `b`, each with the total number of
/// steps both wires take to reach it, in the order of the lines of `a` and then
/// of `b`.
pub fn find_intersections(a: &Vec<Line>, b: &Vec<Line>) -> (r: Vec<(Point, i32)>)
    requires
        all_wf(a@),
        all_wf(b@),
        path_length(a@, a@.len() as int) <= i32::MAX,
        path_length(b@, b@.len() as int) <= i32::MAX,
        crossing_steps_fit(a@, b@),
    ensures
        r@ == all_crossings(a@, b@, a@.len() as int),
{
    let mut intersections: Vec<(Point, i32)> = Vec::new();
    let mut a_total_distance: i32 = 0;
    let mut i: usize = 0;
    proof {
        lemma_path_length_monotone(b@, 0, b@.len() as int);
    }
    while i < a.len()
        invariant
            i <= a@.len(),
            all_wf(a@),
            all_wf(b@),
            path_length(a@, a@.len() as int) <= i32::MAX,
            path_length(b@, b@.len() as int) <= i32::MAX,
            crossing_steps_fit(a@, b@),
            0 <= path_length(b@, b@.len() as int),
            a_total_distance == path_length(a@, i as int),
            intersections@ == all_crossings(a@, b@, i as int),
        decreases a.len() - i,
    {
        let line_a = &a[i];
        proof {
            lemma_path_length_monotone(a@, i as int + 1, a@.len() as int);
        }
        let mut b_total_distance: i32 = 0;
        let mut j: usize = 0;
        while j < b.len()
            invariant
                i < a@.len(),
                j <= b@.len(),
                *line_a == a@[i as int],
                all_wf(a@),
                all_wf(b@),
                path_length(a@, i as int + 1) <= i32::MAX,
                path_length(b@, b@.len() as int) <= i32::MAX,
                crossing_steps_fit(a@, b@),
                a_total_distance == path_length(a@, i as int),
                b_total_distance == path_length(b@, j as int),
                intersections@ == all_crossings(a@, b@, i as int) + row_crossings(
                    a@,
                    b@,
                    i as int,
                    j as int,
                ),
            decreases b.len() - j,
        {
            let line_b = &b[j];
            proof {
                lemma_path_length_monotone(b@, j as int + 1, b@.len() as int);
                lemma_path_length_monotone(a@, i as int, i as int + 1);
                lemma_path_length_monotone(b@, j as int, j as int + 1);
                assert(line_wf(a@[i as int]));
                assert(line_wf(b@[j as int]));
            }
            let ghost before = intersections@;
            match line_a.intersection(line_b) {
                Some(point) => {
                    let a_intersect_distance = a_total_distance + line_a.distance_to_point(&point);
                    let b_intersect_distance = b_total_distance + line_b.distance_to_point(&point);
                    intersections.push((point, a_intersect_distance + b_intersect_distance));
                },
                None => {},
            }
            proof {
                assert(intersections@ =~= all_crossings(a@, b@, i as int) + row_crossings(
                    a@,
                    b@,
                    i as int,
                    j as int + 1,
                ));
            }
            b_total_distance = b_total_distance + line_b.distance();
            j = j + 1;
        }
        a_total_distance = a_total_distance + line_a.distance();
        i = i + 1;
    }
    intersections
}


/// Whether `steps` is the least step count among `crossings`.
pub open spec fn is_fewest(crossings: Seq<(Point, i32)>, steps: i32) -> bool {
    &&& exists|i: int| 0 <= i < crossings.len() && (#[trigger] crossings[i]).1 == steps
    &&& forall|i: int| 0 <= i < crossings.len() ==> steps <= (#[trigger] crossings[i]).1
}

/// The fewest combined steps to any of `crossings`, or `None` when there are none.
pub fn fewest_steps(crossings: &Vec<(Point, i32)>) -> (r: Option<i32>)
    ensures
        match r {
            Some(steps) => is_fewest(crossings@, steps),
            None => crossings@.len() == 0,
        },
{
    if crossings.len() == 0 {
        return None;
    }
    let mut best: i32 = crossings[0].1;
    let mut i: usize = 1;
    while i < crossings.len()
        invariant
            1 <= i <= crossings@.len(),
            exists|j: int| 0 <= j < i && (#[trigger] crossings@[j]).1 == best,
            forall|j: int| 0 <= j < i ==> best <= (#[trigger] crossings@[j]).1,
        decreases crossings.len() - i,
    {
        if crossings[i].1 < best {
            best = crossings[i].1;
        }
        i = i + 1;
    }
    Some(best)
}

} // verus!
