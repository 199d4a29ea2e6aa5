use advent::wires::{between, find_intersections, Line, Point};

#[test]
fn test_intersection() {
    let a = Line::Horizontal(Point { x: 100, y: -100 }, -200);
    let b = Line::Vertical(Point { x: -50, y: 100 }, -600);

    assert_eq!(a.intersection(&b), Some(Point { x: -50, y: -100 }));
}

#[test]
fn test_intersection_no_intersect() {
    let a = Line::Horizontal(Point { x: -32, y: 20 }, -98);
    let b = Line::Vertical(Point { x: 25, y: 10 }, 100);

    assert_eq!(a.intersection(&b), None);
}

#[test]
fn test_intersection_same_direction() {
    let a = Line::Horizontal(Point { x: -32, y: 20 }, -98);
    let b = Line::Horizontal(Point { x: 25, y: 10 }, 100);

    assert_eq!(a.intersection(&b), None);
}

#[test]
fn intersection_excludes_line_ends() {
    let a = Line::Horizontal(Point { x: 0, y: 0 }, 10);
    let b = Line::Vertical(Point { x: 10, y: -5 }, 10);
    assert_eq!(a.intersection(&b), None);
    assert_eq!(b.intersection(&a), None);
}

#[test]
fn between_is_strict_and_symmetric() {
    assert!(between(5, 0, 10));
    assert!(between(5, 10, 0));
    assert!(!between(0, 0, 10));
    assert!(!between(10, 0, 10));
    assert!(!between(11, 10, 0));
}

#[test]
fn line_distances() {
    let v = Line::Vertical(Point { x: 3, y: 4 }, -7);
    assert_eq!(v.distance(), 7);
    assert_eq!(v.distance_to_point(&Point { x: 3, y: 0 }), 4);
    let h = Line::Horizontal(Point { x: 3, y: 4 }, 6);
    assert_eq!(h.distance(), 6);
    assert_eq!(h.distance_to_point(&Point { x: 8, y: 4 }), 5);
    assert!(h.contains(&Point { x: 8, y: 4 }));
    assert!(!h.contains(&Point { x: 8, y: 5 }));
}

fn wire(start: Point, steps: &[(char, i32)]) -> Vec<Line> {
    let mut lines = Vec::new();
    let mut at = start;
    for &(dir, n) in steps {
        let line = match dir {
            'U' => Line::Vertical(at, n),
            'D' => Line::Vertical(at, -n),
            'R' => Line::Horizontal(at, n),
            _ => Line::Horizontal(at, -n),
        };
        at = match line {
            Line::Vertical(p, d) => Point { x: p.x, y: p.y + d },
            Line::Horizontal(p, d) => Point { x: p.x + d, y: p.y },
        };
        lines.push(line);
    }
    lines
}

#[test]
fn find_intersections_counts_steps() {
    let origin = Point { x: 0, y: 0 };
    let a = wire(origin, &[('R', 8), ('U', 5), ('L', 5), ('D', 3)]);
    let b = wire(origin, &[('U', 7), ('R', 6), ('D', 4), ('L', 4)]);
    let found = find_intersections(&a, &b);
    assert_eq!(found, vec![(Point { x: 6, y: 5 }, 30), (Point { x: 3, y: 3 }, 40)]);
}

#[test]
fn find_intersections_long_wires_that_do_not_cross() {
    let a = vec![Line::Horizontal(Point { x: 0, y: 0 }, 1_500_000_000)];
    let b = vec![Line::Vertical(Point { x: 0, y: 10 }, 1_500_000_000)];
    assert_eq!(find_intersections(&a, &b), vec![]);
}
