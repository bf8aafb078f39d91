use bevy_msdf::coloring::{
    color_contour, color_outline, palette_entry, turns_corner, ChannelMask, ColoredEdge,
};
use bevy_msdf::geometry::{Point, Vector};
use bevy_msdf::outline::{decompose, Contour, Edge, PathCommand};

const MAGENTA: ChannelMask = ChannelMask { red: true, green: false, blue: true };
const CYAN: ChannelMask = ChannelMask { red: false, green: true, blue: true };
const YELLOW: ChannelMask = ChannelMask { red: true, green: true, blue: false };

fn pt(x: i32, y: i32) -> Point {
    Point { x, y }
}

fn polygon(points: &[(i32, i32)]) -> Contour {
    let n = points.len();
    let edges = (0..n)
        .map(|i| {
            let a = points[i];
            let b = points[(i + 1) % n];
            Edge::Line { from: pt(a.0, a.1), to: pt(b.0, b.1) }
        })
        .collect();
    Contour { edges }
}

fn masks(colored: &[ColoredEdge]) -> Vec<ChannelMask> {
    colored.iter().map(|c| c.mask).collect()
}

fn shared(a: ChannelMask, b: ChannelMask) -> usize {
    (a.red && b.red) as usize + (a.green && b.green) as usize + (a.blue && b.blue) as usize
}

/// Four quadratic curves that join without a corner.
fn round_contour() -> Contour {
    Contour {
        edges: vec![
            Edge::Quad { from: pt(6400, 0), ctrl: pt(6400, 6400), to: pt(0, 6400) },
            Edge::Quad { from: pt(0, 6400), ctrl: pt(-6400, 6400), to: pt(-6400, 0) },
            Edge::Quad { from: pt(-6400, 0), ctrl: pt(-6400, -6400), to: pt(0, -6400) },
            Edge::Quad { from: pt(0, -6400), ctrl: pt(6400, -6400), to: pt(6400, 0) },
        ],
    }
}

#[test]
fn the_palette_has_three_masks_of_two_channels() {
    assert_eq!(palette_entry(0), MAGENTA);
    assert_eq!(palette_entry(1), CYAN);
    assert_eq!(palette_entry(2), YELLOW);
}

#[test]
fn a_turn_is_a_corner_beyond_the_threshold() {
    let east = Vector { dx: 1000, dy: 0 };
    // straight on
    assert!(!turns_corner(&east, &Vector { dx: 500, dy: 0 }));
    // sine 0.1676: about 9.6 degrees
    assert!(!turns_corner(&east, &Vector { dx: 1000, dy: 170 }));
    assert!(!turns_corner(&east, &Vector { dx: 1000, dy: -170 }));
    // sine 0.1772: about 10.2 degrees
    assert!(turns_corner(&east, &Vector { dx: 1000, dy: 180 }));
    assert!(turns_corner(&east, &Vector { dx: 1000, dy: -180 }));
    // a right angle and a turn back
    assert!(turns_corner(&east, &Vector { dx: 0, dy: 1 }));
    assert!(turns_corner(&east, &Vector { dx: -1000, dy: 0 }));
    // a direction of no length
    assert!(turns_corner(&east, &Vector { dx: 0, dy: 0 }));
    // the largest spans
    let far = Vector { dx: 8388608, dy: -8388608 };
    assert!(!turns_corner(&far, &far));
    assert!(turns_corner(&far, &Vector { dx: 8388608, dy: 8388608 }));
}

#[test]
fn a_triangle_takes_the_three_masks_in_turn() {
    let colored = color_contour(&polygon(&[(0, 0), (640, 0), (0, 640)]));
    assert_eq!(masks(&colored), vec![MAGENTA, CYAN, YELLOW]);
    assert_eq!(colored[1].edge, Edge::Line { from: pt(640, 0), to: pt(0, 640) });
}

#[test]
fn the_last_arc_of_a_square_avoids_the_mask_of_the_first() {
    let colored = color_contour(&polygon(&[(0, 0), (640, 0), (640, 640), (0, 640)]));
    assert_eq!(masks(&colored), vec![MAGENTA, CYAN, YELLOW, CYAN]);
}

#[test]
fn arcs_across_a_corner_never_share_their_mask() {
    for n in 2..40usize {
        // a fan of points on a parabola, closed by its chord: every vertex is a corner
        let points: Vec<(i32, i32)> =
            (0..n as i32).map(|i| (i * 640, (i - n as i32 / 2) * (i - n as i32 / 2) * 64)).collect();
        let contour = polygon(&points);
        let colored = color_contour(&contour);
        let m = colored.len();
        assert_eq!(m, n);
        for i in 0..m {
            let before = colored[(i + m - 1) % m];
            let after = colored[i];
            let arrive = before.edge.end_direction();
            let leave = after.edge.start_direction();
            if turns_corner(&arrive, &leave) && m >= 2 {
                let corners = (0..m)
                    .filter(|&j| {
                        turns_corner(
                            &colored[(j + m - 1) % m].edge.end_direction(),
                            &colored[j].edge.start_direction(),
                        )
                    })
                    .count();
                if corners >= 2 {
                    assert_ne!(before.mask, after.mask);
                    assert_eq!(shared(before.mask, after.mask), 1);
                }
            }
        }
    }
}

#[test]
fn edges_between_two_corners_share_their_mask() {
    // a half disc: two curves without a corner between them, and a chord
    let contour = Contour {
        edges: vec![
            Edge::Quad { from: pt(6400, 0), ctrl: pt(6400, 6400), to: pt(0, 6400) },
            Edge::Quad { from: pt(0, 6400), ctrl: pt(-6400, 6400), to: pt(-6400, 0) },
            Edge::Line { from: pt(-6400, 0), to: pt(6400, 0) },
        ],
    };
    let colored = color_contour(&contour);
    assert_eq!(masks(&colored), vec![MAGENTA, MAGENTA, CYAN]);
}

#[test]
fn edges_before_the_first_corner_belong_to_the_last_arc() {
    // the same half disc, drawn from the middle of the arc
    let contour = Contour {
        edges: vec![
            Edge::Quad { from: pt(0, 6400), ctrl: pt(-6400, 6400), to: pt(-6400, 0) },
            Edge::Line { from: pt(-6400, 0), to: pt(6400, 0) },
            Edge::Quad { from: pt(6400, 0), ctrl: pt(6400, 6400), to: pt(0, 6400) },
        ],
    };
    let colored = color_contour(&contour);
    assert_eq!(masks(&colored), vec![CYAN, MAGENTA, CYAN]);
}

#[test]
fn a_contour_without_corners_is_split_in_three() {
    let colored = color_contour(&round_contour());
    assert_eq!(masks(&colored), vec![MAGENTA, MAGENTA, CYAN, YELLOW]);
}

#[test]
fn a_contour_with_one_corner_is_split_in_three_from_the_corner() {
    // a drop: the round contour with its fourth curve bent to a point
    let mut contour = round_contour();
    contour.edges[2] = Edge::Quad { from: pt(-6400, 0), ctrl: pt(-6400, -6400), to: pt(6400, -12800) };
    contour.edges[3] = Edge::Quad { from: pt(6400, -12800), ctrl: pt(6400, -6400), to: pt(6400, 0) };
    let colored = color_contour(&contour);
    // the one corner lies where edge 3 begins
    assert_eq!(masks(&colored), vec![MAGENTA, CYAN, YELLOW, MAGENTA]);
}

#[test]
fn short_contours() {
    assert_eq!(color_contour(&Contour { edges: Vec::new() }), Vec::new());
    // two curves that meet in two corners
    let lens = Contour {
        edges: vec![
            Edge::Quad { from: pt(0, 0), ctrl: pt(3200, 3200), to: pt(6400, 0) },
            Edge::Quad { from: pt(6400, 0), ctrl: pt(3200, -3200), to: pt(0, 0) },
        ],
    };
    assert_eq!(masks(&color_contour(&lens)), vec![MAGENTA, CYAN]);
}

#[test]
fn a_contour_of_one_edge_is_cut_in_three() {
    // one curve that comes back to its start
    let drop = Contour {
        edges: vec![Edge::Cubic {
            from: pt(0, 0),
            ctrl1: pt(6400, 6400),
            ctrl2: pt(-6400, 6400),
            to: pt(0, 0),
        }],
    };
    let colored = color_contour(&drop);
    assert_eq!(masks(&colored), vec![MAGENTA, CYAN, YELLOW]);
    assert_eq!(
        colored[0].edge,
        Edge::Cubic {
            from: pt(0, 0),
            ctrl1: pt(2133, 2133),
            ctrl2: pt(2133, 3555),
            to: pt(1423, 4266),
        }
    );
    assert_eq!(colored[0].edge.end_point(), colored[1].edge.start_point());
    assert_eq!(colored[1].edge.end_point(), colored[2].edge.start_point());
    assert_eq!(colored[2].edge.end_point(), pt(0, 0));
    // the curve is even, and so are its parts, to the sub-unit
    let middle = colored[1].edge;
    assert!((middle.start_point().x + middle.end_point().x).abs() <= 2);
    assert!((middle.start_point().y - middle.end_point().y).abs() <= 2);

    let line = Contour { edges: vec![Edge::Line { from: pt(0, 0), to: pt(10, -10) }] };
    let colored = color_contour(&line);
    assert_eq!(
        colored,
        vec![
            ColoredEdge { edge: Edge::Line { from: pt(0, 0), to: pt(3, -3) }, mask: MAGENTA },
            ColoredEdge { edge: Edge::Line { from: pt(3, -3), to: pt(6, -6) }, mask: CYAN },
            ColoredEdge { edge: Edge::Line { from: pt(6, -6), to: pt(10, -10) }, mask: YELLOW },
        ]
    );

    let quad = Contour {
        edges: vec![Edge::Quad { from: pt(0, 0), ctrl: pt(900, 900), to: pt(1800, 0) }],
    };
    let colored = color_contour(&quad);
    assert_eq!(
        colored,
        vec![
            ColoredEdge {
                edge: Edge::Quad { from: pt(0, 0), ctrl: pt(300, 300), to: pt(600, 400) },
                mask: MAGENTA
            },
            ColoredEdge {
                edge: Edge::Quad { from: pt(600, 400), ctrl: pt(900, 500), to: pt(1200, 400) },
                mask: CYAN
            },
            ColoredEdge {
                edge: Edge::Quad { from: pt(1200, 400), ctrl: pt(1500, 300), to: pt(1800, 0) },
                mask: YELLOW
            },
        ]
    );
}

#[test]
fn coloring_is_the_same_every_time() {
    let contour = polygon(&[(0, 0), (640, 0), (900, 300), (640, 640), (0, 640)]);
    assert_eq!(color_contour(&contour), color_contour(&contour));
}

#[test]
fn directions_skip_control_points_that_coincide() {
    let e = Edge::Cubic { from: pt(0, 0), ctrl1: pt(0, 0), ctrl2: pt(5, 5), to: pt(9, 5) };
    assert_eq!(e.start_direction(), Vector { dx: 5, dy: 5 });
    assert_eq!(e.end_direction(), Vector { dx: 4, dy: 0 });
    let e = Edge::Quad { from: pt(1, 1), ctrl: pt(7, 1), to: pt(7, 1) };
    assert_eq!(e.start_direction(), Vector { dx: 6, dy: 0 });
    assert_eq!(e.end_direction(), Vector { dx: 6, dy: 0 });
    assert_eq!(Vector::from_points(&pt(3, -4), &pt(-1, 6)), Vector { dx: -4, dy: 10 });
}

#[test]
fn every_contour_of_an_outline_is_colored_by_itself() {
    let cmds = vec![
        PathCommand::MoveTo(pt(0, 0)),
        PathCommand::LineTo(pt(640, 0)),
        PathCommand::LineTo(pt(0, 640)),
        PathCommand::Close,
        PathCommand::MoveTo(pt(1000, 1000)),
        PathCommand::LineTo(pt(2000, 1000)),
        PathCommand::LineTo(pt(2000, 2000)),
        PathCommand::LineTo(pt(1000, 2000)),
        PathCommand::Close,
    ];
    let outline = decompose(&cmds).unwrap();
    let colored = color_outline(&outline);
    assert_eq!(colored.len(), 2);
    assert_eq!(masks(&colored[0].edges), vec![MAGENTA, CYAN, YELLOW]);
    assert_eq!(masks(&colored[1].edges), vec![MAGENTA, CYAN, YELLOW, CYAN]);
    assert_eq!(colored[1].edges[3].edge, outline.contours[1].edges[3]);
}
