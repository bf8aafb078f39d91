use bevy_msdf::geometry::Point;
use bevy_msdf::outline::{decompose, Edge, OutlineError, PathCommand};

fn pt(x: i32, y: i32) -> Point {
    Point { x, y }
}

#[test]
fn square_becomes_one_closed_contour() {
    let cmds = vec![
        PathCommand::MoveTo(pt(0, 0)),
        PathCommand::LineTo(pt(640, 0)),
        PathCommand::LineTo(pt(640, 640)),
        PathCommand::LineTo(pt(0, 640)),
        PathCommand::Close,
    ];
    let outline = decompose(&cmds).unwrap();
    assert_eq!(outline.contours.len(), 1);
    let edges = &outline.contours[0].edges;
    assert_eq!(
        edges,
        &vec![
            Edge::Line { from: pt(0, 0), to: pt(640, 0) },
            Edge::Line { from: pt(640, 0), to: pt(640, 640) },
            Edge::Line { from: pt(640, 640), to: pt(0, 640) },
            Edge::Line { from: pt(0, 640), to: pt(0, 0) },
        ]
    );
}

#[test]
fn explicit_return_to_start_adds_no_edge() {
    let cmds = vec![
        PathCommand::MoveTo(pt(0, 0)),
        PathCommand::LineTo(pt(64, 0)),
        PathCommand::LineTo(pt(0, 64)),
        PathCommand::LineTo(pt(0, 0)),
        PathCommand::Close,
    ];
    let outline = decompose(&cmds).unwrap();
    assert_eq!(outline.contours[0].edges.len(), 3);
}

#[test]
fn curves_stay_curves() {
    let cmds = vec![
        PathCommand::MoveTo(pt(0, 0)),
        PathCommand::QuadTo(pt(64, 128), pt(128, 0)),
        PathCommand::CurveTo(pt(96, -64), pt(32, -64), pt(0, 0)),
        PathCommand::Close,
    ];
    let outline = decompose(&cmds).unwrap();
    assert_eq!(
        outline.contours[0].edges,
        vec![
            Edge::Quad { from: pt(0, 0), ctrl: pt(64, 128), to: pt(128, 0) },
            Edge::Cubic { from: pt(128, 0), ctrl1: pt(96, -64), ctrl2: pt(32, -64), to: pt(0, 0) },
        ]
    );
}

#[test]
fn zero_length_edges_and_empty_contours_are_dropped() {
    let cmds = vec![
        PathCommand::MoveTo(pt(5, 5)),
        PathCommand::LineTo(pt(5, 5)),
        PathCommand::QuadTo(pt(5, 5), pt(5, 5)),
        PathCommand::Close,
        PathCommand::MoveTo(pt(0, 0)),
        PathCommand::LineTo(pt(0, 0)),
        PathCommand::LineTo(pt(64, 0)),
        PathCommand::LineTo(pt(64, 64)),
        PathCommand::Close,
    ];
    let outline = decompose(&cmds).unwrap();
    assert_eq!(outline.contours.len(), 1);
    assert_eq!(outline.contours[0].edges.len(), 3);
    assert_eq!(outline.contours[0].edges[0], Edge::Line { from: pt(0, 0), to: pt(64, 0) });
}

#[test]
fn no_commands_give_an_empty_outline() {
    let outline = decompose(&Vec::new()).unwrap();
    assert!(outline.is_empty());
}

#[test]
fn an_open_contour_is_closed_at_the_end_and_at_the_next_move() {
    let cmds = vec![
        PathCommand::MoveTo(pt(0, 0)),
        PathCommand::LineTo(pt(64, 0)),
        PathCommand::LineTo(pt(64, 64)),
        PathCommand::MoveTo(pt(100, 100)),
        PathCommand::LineTo(pt(200, 100)),
        PathCommand::LineTo(pt(200, 200)),
    ];
    let outline = decompose(&cmds).unwrap();
    assert_eq!(outline.contours.len(), 2);
    assert_eq!(
        outline.contours[0].edges[2],
        Edge::Line { from: pt(64, 64), to: pt(0, 0) }
    );
    assert_eq!(
        outline.contours[1].edges[2],
        Edge::Line { from: pt(200, 200), to: pt(100, 100) }
    );
}

#[test]
fn drawing_without_a_contour_is_refused() {
    assert_eq!(
        decompose(&vec![PathCommand::LineTo(pt(1, 1))]),
        Err(OutlineError::NoCurrentPoint)
    );
    assert_eq!(decompose(&vec![PathCommand::Close]), Err(OutlineError::NoCurrentPoint));
    let cmds = vec![
        PathCommand::MoveTo(pt(0, 0)),
        PathCommand::LineTo(pt(64, 0)),
        PathCommand::Close,
        PathCommand::QuadTo(pt(1, 1), pt(2, 2)),
    ];
    assert_eq!(decompose(&cmds), Err(OutlineError::NoCurrentPoint));
}

#[test]
fn coordinates_beyond_the_limit_are_refused() {
    let cmds = vec![PathCommand::MoveTo(pt(0, 0)), PathCommand::LineTo(pt(4194305, 0))];
    assert_eq!(decompose(&cmds), Err(OutlineError::OutOfRange));
    let cmds = vec![PathCommand::MoveTo(pt(0, 0)), PathCommand::LineTo(pt(4194304, -4194304))];
    assert!(decompose(&cmds).is_ok());
}

#[test]
fn every_contour_is_closed_and_connected() {
    let cmds = vec![
        PathCommand::MoveTo(pt(0, 0)),
        PathCommand::QuadTo(pt(10, 50), pt(70, 20)),
        PathCommand::LineTo(pt(70, 20)),
        PathCommand::CurveTo(pt(80, 0), pt(60, -30), pt(30, -10)),
        PathCommand::MoveTo(pt(5, 5)),
        PathCommand::LineTo(pt(9, 5)),
        PathCommand::LineTo(pt(9, 9)),
        PathCommand::Close,
    ];
    let outline = decompose(&cmds).unwrap();
    assert_eq!(outline.contours.len(), 2);
    for contour in &outline.contours {
        let n = contour.edges.len();
        assert!(n > 0);
        for i in 0..n {
            let a = contour.edges[i];
            let b = contour.edges[(i + 1) % n];
            assert_eq!(a.end_point(), b.start_point());
            assert!(!a.is_zero_length());
        }
    }
}
