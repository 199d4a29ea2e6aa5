use advent::wire_text::convert_to_lines;
use advent::wires::{find_intersections, fewest_steps, Line, Point};

#[test]
fn convert_to_lines_reads_each_wire() {
    let wires = convert_to_lines("R8,U5,L5,D3\nU7,R6,D4,L4\n").unwrap();
    assert_eq!(wires.len(), 2);
    assert_eq!(
        wires[0],
        vec![
            Line::Horizontal(Point { x: 0, y: 0 }, 8),
            Line::Vertical(Point { x: 8, y: 0 }, 5),
            Line::Horizontal(Point { x: 8, y: 5 }, -5),
            Line::Vertical(Point { x: 3, y: 5 }, -3),
        ]
    );
    assert_eq!(wires[1][3], Line::Horizontal(Point { x: 6, y: 3 }, -4));
    let crossings = find_intersections(&wires[0], &wires[1]);
    assert_eq!(fewest_steps(&crossings), Some(30));
}

#[test]
fn convert_to_lines_line_endings() {
    let crlf = convert_to_lines("U1,R2\r\nL3").unwrap();
    assert_eq!(
        crlf,
        vec![
            vec![
                Line::Vertical(Point { x: 0, y: 0 }, 1),
                Line::Horizontal(Point { x: 0, y: 1 }, 2),
            ],
            vec![Line::Horizontal(Point { x: 0, y: 0 }, -3)],
        ]
    );
    assert_eq!(convert_to_lines(""), Some(vec![]));
    assert_eq!(convert_to_lines("U+4"), Some(vec![vec![Line::Vertical(Point { x: 0, y: 0 }, 4)]]));
}

#[test]
fn convert_to_lines_rejects_malformed_text() {
    assert_eq!(convert_to_lines("X5"), None);
    assert_eq!(convert_to_lines("U"), None);
    assert_eq!(convert_to_lines("U5,"), None);
    assert_eq!(convert_to_lines("U5\n\nR2"), None);
    assert_eq!(convert_to_lines("U1x"), None);
    assert_eq!(convert_to_lines("U2147483648"), None);
    assert_eq!(convert_to_lines("U2147483647,U1"), None);
    assert_eq!(convert_to_lines("R1\nD2147483647,D2"), None);
    assert_eq!(convert_to_lines("U-2147483648"), None);
}

#[test]
fn fewest_steps_picks_minimum() {
    let p = Point { x: 1, y: 1 };
    assert_eq!(fewest_steps(&vec![]), None);
    assert_eq!(fewest_steps(&vec![(p, 40), (p, 30), (p, 35)]), Some(30));
}
