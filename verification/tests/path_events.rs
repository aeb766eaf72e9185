use bevy_svg::path_events::{convert_path, held_back_begins, PathConvIter, PathEvent, PathSegment};

type P = (i32, i32);

const O: P = (0, 0);

#[test]
fn empty_path_has_no_events() {
    let events = convert_path::<P>(Vec::new(), O);
    assert!(events.is_empty());
}

#[test]
fn closed_triangle() {
    let segs = vec![
        PathSegment::MoveTo((1, 1)),
        PathSegment::LineTo((5, 1)),
        PathSegment::LineTo((3, 4)),
        PathSegment::Close,
    ];
    let events = convert_path(segs, O);
    assert_eq!(
        events,
        vec![
            PathEvent::Begin { at: (1, 1) },
            // A move that begins the first subpath does not move the current
            // point, so the first edge starts at the origin.
            PathEvent::Line { from: (0, 0), to: (5, 1) },
            PathEvent::Line { from: (5, 1), to: (3, 4) },
            PathEvent::End { last: (1, 1), first: (1, 1), close: true },
        ]
    );
}

#[test]
fn open_subpath_gets_an_end() {
    let segs = vec![PathSegment::MoveTo((2, 2)), PathSegment::QuadTo((3, 3), (4, 2))];
    let events = convert_path(segs, O);
    assert_eq!(
        events,
        vec![
            PathEvent::Begin { at: (2, 2) },
            PathEvent::Quadratic { from: (0, 0), ctrl: (3, 3), to: (4, 2) },
            PathEvent::End { last: (4, 2), first: (2, 2), close: false },
        ]
    );
}

#[test]
fn move_after_open_subpath_ends_it_first() {
    let segs = vec![
        PathSegment::MoveTo((0, 0)),
        PathSegment::CubicTo((1, 1), (2, 1), (3, 0)),
        PathSegment::MoveTo((10, 10)),
        PathSegment::LineTo((11, 10)),
    ];
    let events = convert_path(segs, (7, 7));
    assert_eq!(
        events,
        vec![
            PathEvent::Begin { at: (0, 0) },
            PathEvent::Cubic { from: (7, 7), ctrl1: (1, 1), ctrl2: (2, 1), to: (3, 0) },
            PathEvent::End { last: (3, 0), first: (0, 0), close: false },
            PathEvent::Begin { at: (10, 10) },
            PathEvent::Line { from: (10, 10), to: (11, 10) },
            PathEvent::End { last: (11, 10), first: (10, 10), close: false },
        ]
    );
}

#[test]
fn iterator_defers_the_begin_of_a_second_subpath() {
    let segs = vec![
        PathSegment::MoveTo((0, 0)),
        PathSegment::LineTo((1, 0)),
        PathSegment::MoveTo((5, 5)),
        PathSegment::Close,
    ];
    let mut it = PathConvIter::new(segs, O);
    assert_eq!(it.next(), Some(PathEvent::Begin { at: (0, 0) }));
    assert_eq!(it.next(), Some(PathEvent::Line { from: (0, 0), to: (1, 0) }));
    assert_eq!(it.next(), Some(PathEvent::End { last: (1, 0), first: (0, 0), close: false }));
    assert_eq!(it.next(), Some(PathEvent::Begin { at: (5, 5) }));
    assert_eq!(it.next(), Some(PathEvent::End { last: (5, 5), first: (5, 5), close: true }));
    assert_eq!(it.next(), None);
    assert_eq!(it.next(), None);
}

#[test]
fn well_formed_segments_give_bracketed_events() {
    // Law: every Begin is followed by edges and an End naming its point.
    let segs = vec![
        PathSegment::MoveTo((0, 0)),
        PathSegment::LineTo((1, 0)),
        PathSegment::Close,
        PathSegment::MoveTo((2, 2)),
        PathSegment::LineTo((3, 3)),
        PathSegment::MoveTo((4, 4)),
        PathSegment::LineTo((5, 5)),
    ];
    let events = convert_path(segs, O);
    let mut open: Option<P> = None;
    for e in &events {
        match e {
            PathEvent::Begin { at } => {
                assert!(open.is_none());
                open = Some(*at);
            }
            PathEvent::End { first, .. } => {
                assert_eq!(open, Some(*first));
                open = None;
            }
            _ => assert!(open.is_some()),
        }
    }
    assert!(open.is_none());
}

#[test]
fn float_points_pass_through_unchanged() {
    let segs = vec![PathSegment::MoveTo((0.5f32, 1.25f32)), PathSegment::LineTo((2.0f32, 3.0f32))];
    let events = convert_path(segs, (0.0f32, 0.0f32));
    assert_eq!(events[0], PathEvent::Begin { at: (0.5, 1.25) });
    assert_eq!(events[2], PathEvent::End { last: (2.0, 3.0), first: (0.5, 1.25), close: false });
}

#[test]
fn edges_chain_within_a_subpath() {
    let segs = vec![
        PathSegment::MoveTo((1, 1)),
        PathSegment::LineTo((2, 1)),
        PathSegment::QuadTo((3, 2), (3, 3)),
        PathSegment::CubicTo((2, 4), (1, 4), (0, 3)),
        PathSegment::MoveTo((9, 9)),
    ];
    let events = convert_path(segs, O);
    let mut prev_end: Option<P> = None;
    for e in &events {
        match *e {
            PathEvent::Line { from, to } | PathEvent::Quadratic { from, to, .. } | PathEvent::Cubic { from, to, .. } => {
                if let Some(p) = prev_end {
                    assert_eq!(from, p);
                }
                prev_end = Some(to);
            }
            PathEvent::End { last, close, .. } => {
                if let (Some(p), false) = (prev_end, close) {
                    assert_eq!(last, p);
                }
                prev_end = None;
            }
            PathEvent::Begin { .. } => prev_end = None,
        }
    }
    assert_eq!(
        events,
        vec![
            PathEvent::Begin { at: (1, 1) },
            PathEvent::Line { from: (0, 0), to: (2, 1) },
            PathEvent::Quadratic { from: (2, 1), ctrl: (3, 2), to: (3, 3) },
            PathEvent::Cubic { from: (3, 3), ctrl1: (2, 4), ctrl2: (1, 4), to: (0, 3) },
            PathEvent::End { last: (0, 3), first: (1, 1), close: false },
            PathEvent::Begin { at: (9, 9) },
        ]
    );
}

#[test]
fn each_subpath_ends_once_and_closes_when_it_ends_with_close() {
    let segs = vec![
        PathSegment::MoveTo((0, 0)),
        PathSegment::LineTo((1, 0)),
        PathSegment::Close,
        PathSegment::MoveTo((5, 5)),
        PathSegment::LineTo((6, 5)),
    ];
    let events = convert_path(segs, O);
    let flags: Vec<bool> = events
        .iter()
        .filter_map(|e| match e {
            PathEvent::End { close, .. } => Some(*close),
            _ => None,
        })
        .collect();
    assert_eq!(flags, vec![true, false]);
    let begins = events.iter().filter(|e| matches!(e, PathEvent::Begin { .. })).count();
    assert_eq!(begins, 2);
}

#[test]
fn held_back_begin_is_flagged() {
    let segs = vec![
        PathSegment::MoveTo((0, 0)),
        PathSegment::LineTo((1, 0)),
        PathSegment::MoveTo((5, 5)),
        PathSegment::LineTo((6, 5)),
        PathSegment::Close,
        PathSegment::MoveTo((8, 8)),
        PathSegment::LineTo((9, 8)),
    ];
    let events = convert_path(segs, O);
    // Begin, Line, End(open), Begin (held back), Line, End(close), Begin, Line, End(open)
    assert_eq!(
        held_back_begins(&events),
        vec![false, false, false, true, false, false, false, false, false]
    );
}
