use virtua_grotesk_figures::glyph::{glif_name, plan_contour, ContourPoint, PointKind, PtRole, Segment};

fn pt(kind: PointKind, smooth: bool) -> ContourPoint {
    ContourPoint { kind, smooth }
}

#[test]
fn glif_names_mark_uppercase_letters() {
    assert_eq!(glif_name("a"), "a.glif");
    assert_eq!(glif_name("H"), "H_.glif");
    assert_eq!(glif_name("R_"), "R__.glif");
    assert_eq!(glif_name("heh-ar.medi"), "heh-ar.medi.glif");
    assert_eq!(glif_name("AE"), "A_E_.glif");
    assert_eq!(glif_name("\u{c9}t\u{e9}"), "\u{c9}_t\u{e9}.glif");
}

#[test]
fn contour_without_on_curve_points_is_skipped() {
    assert!(plan_contour(&vec![]).is_none());
    let all_off = vec![pt(PointKind::OffCurve, false), pt(PointKind::OffCurve, false)];
    assert!(plan_contour(&all_off).is_none());
}

#[test]
fn square_walks_four_lines() {
    let pts = vec![
        pt(PointKind::Line, false),
        pt(PointKind::Line, false),
        pt(PointKind::Line, false),
        pt(PointKind::Line, false),
    ];
    let plan = plan_contour(&pts).unwrap();
    assert_eq!(plan.start, 0);
    assert_eq!(
        plan.segments,
        vec![
            Segment::Line { end: 1 },
            Segment::Line { end: 2 },
            Segment::Line { end: 3 },
            Segment::Line { end: 0 }
        ]
    );
    assert_eq!(
        plan.markers,
        vec![(0, PtRole::Corner), (1, PtRole::Corner), (2, PtRole::Corner), (3, PtRole::Corner)]
    );
    assert!(plan.handles.is_empty());
}

#[test]
fn leading_off_curve_points_move_the_start() {
    // off, off, curve(smooth), line, off, off, curve(smooth): the contour
    // starts at the first on-curve point and closes through the leading
    // off-curve points
    let pts = vec![
        pt(PointKind::OffCurve, false),
        pt(PointKind::OffCurve, false),
        pt(PointKind::Curve, true),
        pt(PointKind::Line, false),
        pt(PointKind::OffCurve, false),
        pt(PointKind::OffCurve, false),
        pt(PointKind::Curve, true),
    ];
    let plan = plan_contour(&pts).unwrap();
    assert_eq!(plan.start, 2);
    assert_eq!(
        plan.segments,
        vec![
            Segment::Line { end: 3 },
            Segment::Curve { c1: 4, c2: 5, end: 6 },
            Segment::Curve { c1: 0, c2: 1, end: 2 }
        ]
    );
    assert_eq!(
        plan.markers,
        vec![
            (2, PtRole::Smooth),
            (3, PtRole::Corner),
            (4, PtRole::Off),
            (5, PtRole::Off),
            (6, PtRole::Smooth),
            (0, PtRole::Off),
            (1, PtRole::Off)
        ]
    );
    assert_eq!(plan.handles, vec![(3, 4), (6, 5), (6, 0), (2, 1)]);
}

#[test]
fn curve_without_two_controls_becomes_a_line() {
    // one off-curve point before a curve point: a line, and no handles
    let pts = vec![
        pt(PointKind::Move, false),
        pt(PointKind::OffCurve, false),
        pt(PointKind::Curve, false),
        pt(PointKind::QCurve, true),
    ];
    let plan = plan_contour(&pts).unwrap();
    assert_eq!(
        plan.segments,
        vec![Segment::Line { end: 2 }, Segment::Line { end: 3 }, Segment::Line { end: 0 }]
    );
    assert!(plan.handles.is_empty());
    assert_eq!(
        plan.markers,
        vec![(0, PtRole::Corner), (1, PtRole::Off), (2, PtRole::Corner), (3, PtRole::Smooth)]
    );
}

#[test]
fn markers_list_every_point_once() {
    let kinds = [
        PointKind::OffCurve,
        PointKind::Curve,
        PointKind::OffCurve,
        PointKind::OffCurve,
        PointKind::Curve,
        PointKind::Line,
        PointKind::OffCurve,
    ];
    let pts: Vec<ContourPoint> = kinds.iter().map(|k| pt(*k, false)).collect();
    let plan = plan_contour(&pts).unwrap();
    let mut seen: Vec<usize> = plan.markers.iter().map(|(i, _)| *i).collect();
    seen.sort();
    assert_eq!(seen, (0..pts.len()).collect::<Vec<_>>());
    assert_eq!(plan.markers[0].0, plan.start);
}
