//! Conversion of a path's segment list (move/line/quad/cubic/close) into the
//! begin/edge/end event stream that a tessellator consumes.
//!
//! The point type is a parameter: the conversion only moves points around,
//! it never computes with them. The caller maps the affine transform over the
//! produced events.
use vstd::prelude::*;

verus! {

/// One segment of a path as it is stored by the SVG tree.
#[derive(Clone, Copy, Debug, PartialEq)]
pub enum PathSegment<P> {
    MoveTo(P),
    LineTo(P),
    QuadTo(P, P),
    CubicTo(P, P, P),
    Close,
}

/// One event of a path as a tessellator consumes it.
#[derive(Clone, Copy, Debug, PartialEq)]
pub enum PathEvent<P> {
    Begin { at: P },
    Line { from: P, to: P },
    Quadratic { from: P, ctrl: P, to: P },
    Cubic { from: P, ctrl1: P, ctrl2: P, to: P },
    End { last: P, first: P, close: bool },
}

/// The converter's state between two segments.
pub struct ConvState<P> {
    pub prev: P,
    pub first: P,
    pub needs_end: bool,
}

/// What one segment turns into: the next state and the one or two events
/// it emits.
pub open spec fn seg_step<P>(st: ConvState<P>, seg: PathSegment<P>) -> (ConvState<P>, Seq<PathEvent<P>>) {
    match seg {
        PathSegment::MoveTo(p) => {
            if st.needs_end {
                (
                    ConvState { prev: p, first: p, needs_end: false },
                    seq![
                        PathEvent::End { last: st.prev, first: st.first, close: false },
                        PathEvent::Begin { at: p },
                    ],
                )
            } else {
                (ConvState { prev: st.prev, first: p, needs_end: false }, seq![PathEvent::Begin { at: p }])
            }
        },
        PathSegment::LineTo(p) => (
            ConvState { prev: p, first: st.first, needs_end: true },
            seq![PathEvent::Line { from: st.prev, to: p }],
        ),
        PathSegment::QuadTo(c, p) => (
            ConvState { prev: p, first: st.first, needs_end: true },
            seq![PathEvent::Quadratic { from: st.prev, ctrl: c, to: p }],
        ),
        PathSegment::CubicTo(c1, c2, p) => (
            ConvState { prev: p, first: st.first, needs_end: true },
            seq![PathEvent::Cubic { from: st.prev, ctrl1: c1, ctrl2: c2, to: p }],
        ),
        PathSegment::Close => (
            ConvState { prev: st.first, first: st.first, needs_end: false },
            seq![PathEvent::End { last: st.first, first: st.first, close: true }],
        ),
    }
}

/// What remains when the segments run out: a closing `End` for a subpath
/// that has edges and no `End` yet.
pub open spec fn finish_events<P>(st: ConvState<P>) -> Seq<PathEvent<P>> {
    if st.needs_end {
        seq![PathEvent::End { last: st.prev, first: st.first, close: false }]
    } else {
        seq![]
    }
}

/// The whole event stream produced from state `st` by the segments `segs`.
pub open spec fn events_from<P>(st: ConvState<P>, segs: Seq<PathSegment<P>>) -> Seq<PathEvent<P>>
    decreases segs.len(),
{
    if segs.len() == 0 {
        finish_events(st)
    } else {
        let (st2, evs) = seg_step(st, segs[0]);
        evs + events_from(st2, segs.drop_first())
    }
}

/// The state a conversion starts in: both points at `origin`, no open subpath.
pub open spec fn initial_state<P>(origin: P) -> ConvState<P> {
    ConvState { prev: origin, first: origin, needs_end: false }
}

/// The event stream of a whole segment list.
pub open spec fn path_events<P>(segs: Seq<PathSegment<P>>, origin: P) -> Seq<PathEvent<P>> {
    events_from(initial_state(origin), segs)
}

/// Where a segment list stands between two segments: no subpath open, a
/// subpath just begun by a move, or a subpath with at least one edge.
pub enum SegmentPhase {
    Outside,
    JustMoved,
    Open,
}

/// The segment lists that the SVG tree hands out: every subpath begins with a
/// move, a move never directly follows another move, edges and closes only
/// stand inside a subpath, and the list does not end right after a move.
pub open spec fn segments_wf_from<P>(phase: SegmentPhase, segs: Seq<PathSegment<P>>) -> bool
    decreases segs.len(),
{
    if segs.len() == 0 {
        !(phase is JustMoved)
    } else {
        match segs[0] {
            PathSegment::MoveTo(_) => !(phase is JustMoved) && segments_wf_from(SegmentPhase::JustMoved, segs.drop_first()),
            PathSegment::Close => !(phase is Outside) && segments_wf_from(SegmentPhase::Outside, segs.drop_first()),
            _ => !(phase is Outside) && segments_wf_from(SegmentPhase::Open, segs.drop_first()),
        }
    }
}

pub open spec fn well_formed_segments<P>(segs: Seq<PathSegment<P>>) -> bool {
    segments_wf_from(SegmentPhase::Outside, segs)
}

/// An event stream is well formed from `open` (the `Begin` point of the
/// subpath in progress, if any) when every `Begin` stands outside a subpath,
/// every edge inside one, every `End` closes the subpath in progress and names
/// its `Begin` point as `first`, and no subpath is left open at the end.
pub open spec fn events_wf_from<P>(open: Option<P>, evs: Seq<PathEvent<P>>) -> bool
    decreases evs.len(),
{
    if evs.len() == 0 {
        open is None
    } else {
        match evs[0] {
            PathEvent::Begin { at } => open is None && events_wf_from(Some(at), evs.drop_first()),
            PathEvent::End { last, first, close } => open == Some(first) && events_wf_from(None, evs.drop_first()),
            _ => open is Some && events_wf_from(open, evs.drop_first()),
        }
    }
}

pub open spec fn well_formed_events<P>(evs: Seq<PathEvent<P>>) -> bool {
    events_wf_from(None, evs)
}

spec fn phase_matches<P>(st: ConvState<P>, phase: SegmentPhase, open: Option<P>) -> bool {
    match phase {
        SegmentPhase::Outside => !st.needs_end && open is None,
        SegmentPhase::JustMoved => !st.needs_end && open == Some(st.first),
        SegmentPhase::Open => st.needs_end && open == Some(st.first),
    }
}

proof fn lemma_events_wf<P>(st: ConvState<P>, phase: SegmentPhase, open: Option<P>, segs: Seq<PathSegment<P>>)
    requires
        phase_matches(st, phase, open),
        segments_wf_from(phase, segs),
    ensures
        events_wf_from(open, events_from(st, segs)),
    decreases segs.len(),
{
    if segs.len() == 0 {
        if st.needs_end {
            let evs = finish_events(st);
            assert(evs.drop_first() =~= Seq::<PathEvent<P>>::empty());
            assert(events_wf_from(None::<P>, evs.drop_first()));
        }
    } else {
        let (st2, evs) = seg_step(st, segs[0]);
        let rest = events_from(st2, segs.drop_first());
        assert(events_from(st, segs) == evs + rest);
        match segs[0] {
            PathSegment::MoveTo(p) => {
                lemma_events_wf(st2, SegmentPhase::JustMoved, Some(p), segs.drop_first());
                let tail = seq![PathEvent::Begin { at: p }] + rest;
                assert(tail.drop_first() =~= rest);
                assert(events_wf_from(None, tail));
                if st.needs_end {
                    assert((evs + rest).drop_first() =~= tail);
                } else {
                    assert(evs + rest =~= tail);
                }
            },
            PathSegment::Close => {
                lemma_events_wf(st2, SegmentPhase::Outside, None, segs.drop_first());
                assert((evs + rest).drop_first() =~= rest);
            },
            _ => {
                lemma_events_wf(st2, SegmentPhase::Open, open, segs.drop_first());
                assert((evs + rest).drop_first() =~= rest);
            },
        }
    }
}

/// Law: a segment list in which every subpath begins with a move (as the SVG
/// tree's path data always does) converts into a well-formed event stream:
/// `Begin` and `End` alternate around the edges, every `End` names the
/// `Begin` point of its own subpath, and nothing is left open.
pub proof fn law_well_formed_events<P>(segs: Seq<PathSegment<P>>, origin: P)
    requires
        well_formed_segments(segs),
    ensures
        well_formed_events(path_events(segs, origin)),
{
    lemma_events_wf(initial_state(origin), SegmentPhase::Outside, None, segs);
}

/// Law: how each segment moves the converter's points. A move makes its
/// point the subpath's first point; an edge makes its end point the current
/// point and leaves the first point; a close returns the current point to the
/// first point of the subpath it closes.
pub proof fn law_segment_points<P>(st: ConvState<P>, p: P, c1: P, c2: P)
    ensures
        seg_step(st, PathSegment::MoveTo(p)).0.first == p,
        seg_step(st, PathSegment::LineTo(p)).0.prev == p,
        seg_step(st, PathSegment::LineTo(p)).0.first == st.first,
        seg_step(st, PathSegment::QuadTo(c1, p)).0.prev == p,
        seg_step(st, PathSegment::QuadTo(c1, p)).0.first == st.first,
        seg_step(st, PathSegment::CubicTo(c1, c2, p)).0.prev == p,
        seg_step(st, PathSegment::CubicTo(c1, c2, p)).0.first == st.first,
        seg_step(st, PathSegment::Close).0.prev == st.first,
        seg_step(st, PathSegment::Close).0.first == st.first,
{
}

/// Law: the events of one segment as the last one of a path, from any
/// converter state. An edge runs from the current point through its control
/// points, in order, to its end point, and the open subpath then ends there;
/// a move begins a subpath at its point, first ending an open one; a close
/// ends the subpath at its first point.
pub proof fn law_single_segment_events<P>(st: ConvState<P>, p: P, c1: P, c2: P)
    ensures
        events_from(st, seq![PathSegment::LineTo(p)]) == seq![
            PathEvent::Line { from: st.prev, to: p },
            PathEvent::End { last: p, first: st.first, close: false },
        ],
        events_from(st, seq![PathSegment::QuadTo(c1, p)]) == seq![
            PathEvent::Quadratic { from: st.prev, ctrl: c1, to: p },
            PathEvent::End { last: p, first: st.first, close: false },
        ],
        events_from(st, seq![PathSegment::CubicTo(c1, c2, p)]) == seq![
            PathEvent::Cubic { from: st.prev, ctrl1: c1, ctrl2: c2, to: p },
            PathEvent::End { last: p, first: st.first, close: false },
        ],
        events_from(st, seq![PathSegment::Close]) == seq![
            PathEvent::End { last: st.first, first: st.first, close: true },
        ],
        st.needs_end ==> events_from(st, seq![PathSegment::MoveTo(p)]) == seq![
            PathEvent::End { last: st.prev, first: st.first, close: false },
            PathEvent::Begin { at: p },
        ],
        !st.needs_end ==> events_from(st, seq![PathSegment::MoveTo(p)]) == seq![PathEvent::Begin { at: p }],
{
    let e = Seq::<PathSegment<P>>::empty();
    assert(seq![PathSegment::LineTo(p)].drop_first() =~= e);
    assert(seq![PathSegment::QuadTo(c1, p)].drop_first() =~= e);
    assert(seq![PathSegment::CubicTo(c1, c2, p)].drop_first() =~= e);
    assert(seq![PathSegment::Close].drop_first() =~= e);
    assert(seq![PathSegment::MoveTo(p)].drop_first() =~= e);
    let no = Seq::<PathEvent<P>>::empty();
    let fin = seq![PathEvent::End { last: p, first: st.first, close: false }];
    assert(events_from(ConvState { prev: p, first: st.first, needs_end: true }, e) == fin);
    assert(events_from(st, seq![PathSegment::LineTo(p)])
        == seq![PathEvent::Line { from: st.prev, to: p }] + fin);
    assert(events_from(st, seq![PathSegment::QuadTo(c1, p)])
        == seq![PathEvent::Quadratic { from: st.prev, ctrl: c1, to: p }] + fin);
    assert(seq![PathEvent::Line { from: st.prev, to: p }] + fin =~= seq![
        PathEvent::Line { from: st.prev, to: p },
        PathEvent::End { last: p, first: st.first, close: false },
    ]);
    assert(seq![PathEvent::Quadratic { from: st.prev, ctrl: c1, to: p }] + fin =~= seq![
        PathEvent::Quadratic { from: st.prev, ctrl: c1, to: p },
        PathEvent::End { last: p, first: st.first, close: false },
    ]);
    assert(seq![PathEvent::Cubic { from: st.prev, ctrl1: c1, ctrl2: c2, to: p }] + fin =~= seq![
        PathEvent::Cubic { from: st.prev, ctrl1: c1, ctrl2: c2, to: p },
        PathEvent::End { last: p, first: st.first, close: false },
    ]);
    assert(events_from(ConvState { prev: st.first, first: st.first, needs_end: false }, e) == no);
    assert(events_from(ConvState { prev: p, first: p, needs_end: false }, e) == no);
    assert(events_from(ConvState { prev: st.prev, first: p, needs_end: false }, e) == no);
    assert(events_from(st, seq![PathSegment::Close])
        == seq![PathEvent::End { last: st.first, first: st.first, close: true }] + no);
    if !st.needs_end {
        assert(events_from(st, seq![PathSegment::MoveTo(p)]) == seq![PathEvent::Begin { at: p }] + no);
    }
    assert(seq![PathEvent::End { last: st.first, first: st.first, close: true }] + no
        =~= seq![PathEvent::End { last: st.first, first: st.first, close: true }]);
    assert(seq![
        PathEvent::End { last: st.prev, first: st.first, close: false },
        PathEvent::Begin { at: p },
    ] + no =~= seq![
        PathEvent::End { last: st.prev, first: st.first, close: false },
        PathEvent::Begin { at: p },
    ]);
    assert(seq![PathEvent::Begin { at: p }] + no =~= seq![PathEvent::Begin { at: p }]);
}

/// Law: after a `Close`, the next subpath's first edge starts at the first
/// point of the closed subpath. From any converter state, closing, moving to
/// `p` and drawing a line to `q` gives: the closing `End` (last and first
/// both the closed subpath's first point), `Begin` at `p`, a line from the
/// closed subpath's first point to `q`, and the `End` of the open subpath.
pub proof fn law_close_then_move<P>(st: ConvState<P>, p: P, q: P)
    ensures
        events_from(st, seq![PathSegment::Close, PathSegment::MoveTo(p), PathSegment::LineTo(q)]) == seq![
            PathEvent::End { last: st.first, first: st.first, close: true },
            PathEvent::Begin { at: p },
            PathEvent::Line { from: st.first, to: q },
            PathEvent::End { last: q, first: p, close: false },
        ],
{
    let segs = seq![PathSegment::Close, PathSegment::MoveTo(p), PathSegment::LineTo(q)];
    let s1 = segs.drop_first();
    let s2 = s1.drop_first();
    let s3 = s2.drop_first();
    assert(s1 =~= seq![PathSegment::MoveTo(p), PathSegment::LineTo(q)]);
    assert(s2 =~= seq![PathSegment::LineTo(q)]);
    assert(s3 =~= Seq::<PathSegment<P>>::empty());
    let st1 = ConvState { prev: st.first, first: st.first, needs_end: false };
    let st2 = ConvState { prev: st.first, first: p, needs_end: false };
    let st3 = ConvState { prev: q, first: p, needs_end: true };
    assert(events_from(st3, s3) == seq![PathEvent::End { last: q, first: p, close: false }]);
    assert(events_from(st2, s2) == seq![PathEvent::Line { from: st.first, to: q }] + events_from(st3, s3));
    assert(events_from(st1, s1) == seq![PathEvent::Begin { at: p }] + events_from(st2, s2));
    assert(events_from(st, segs) == seq![PathEvent::End { last: st.first, first: st.first, close: true }]
        + events_from(st1, s1));
    assert(events_from(st, segs) =~= seq![
        PathEvent::End { last: st.first, first: st.first, close: true },
        PathEvent::Begin { at: p },
        PathEvent::Line { from: st.first, to: q },
        PathEvent::End { last: q, first: p, close: false },
    ]);
}

/// The `close` flags of the `End` events of a stream, in order.
pub open spec fn end_flags<P>(evs: Seq<PathEvent<P>>) -> Seq<bool>
    decreases evs.len(),
{
    if evs.len() == 0 {
        seq![]
    } else {
        match evs[0] {
            PathEvent::End { last, first, close } => seq![close] + end_flags(evs.drop_first()),
            _ => end_flags(evs.drop_first()),
        }
    }
}

/// For each subpath of a segment list, in order, whether it ends with a
/// `Close` segment; `begun` says whether a subpath is in progress before
/// `segs`.
pub open spec fn subpath_closes<P>(begun: bool, segs: Seq<PathSegment<P>>) -> Seq<bool>
    decreases segs.len(),
{
    if segs.len() == 0 {
        if begun { seq![false] } else { seq![] }
    } else {
        match segs[0] {
            PathSegment::MoveTo(_) => (if begun { seq![false] } else { seq![] }) + subpath_closes(true, segs.drop_first()),
            PathSegment::Close => seq![true] + subpath_closes(false, segs.drop_first()),
            _ => subpath_closes(true, segs.drop_first()),
        }
    }
}

proof fn lemma_end_flags<P>(st: ConvState<P>, phase: SegmentPhase, open: Option<P>, segs: Seq<PathSegment<P>>)
    requires
        phase_matches(st, phase, open),
        segments_wf_from(phase, segs),
    ensures
        end_flags(events_from(st, segs)) == subpath_closes(!(phase is Outside), segs),
    decreases segs.len(),
{
    if segs.len() == 0 {
        if st.needs_end {
            let evs = finish_events(st);
            assert(evs.drop_first() =~= Seq::<PathEvent<P>>::empty());
            assert(end_flags(evs.drop_first()) == Seq::<bool>::empty());
            assert(end_flags(evs) == seq![false] + Seq::<bool>::empty());
            assert(seq![false] + Seq::<bool>::empty() =~= seq![false]);
        }
    } else {
        let (st2, evs) = seg_step(st, segs[0]);
        let rest = events_from(st2, segs.drop_first());
        assert(events_from(st, segs) == evs + rest);
        match segs[0] {
            PathSegment::MoveTo(p) => {
                lemma_end_flags(st2, SegmentPhase::JustMoved, Some(p), segs.drop_first());
                let tail = seq![PathEvent::Begin { at: p }] + rest;
                assert(tail.drop_first() =~= rest);
                assert(end_flags(tail) == end_flags(rest));
                if st.needs_end {
                    assert((evs + rest).drop_first() =~= tail);
                    assert((evs + rest)[0] == evs[0]);
                    assert(end_flags(evs + rest) == seq![false] + end_flags(tail));
                    assert(seq![false] + subpath_closes(true, segs.drop_first())
                        =~= subpath_closes(true, segs));
                } else {
                    assert(evs + rest =~= tail);
                    assert(Seq::<bool>::empty() + subpath_closes(true, segs.drop_first())
                        =~= subpath_closes(false, segs));
                }
            },
            PathSegment::Close => {
                lemma_end_flags(st2, SegmentPhase::Outside, None, segs.drop_first());
                assert((evs + rest).drop_first() =~= rest);
                assert((evs + rest)[0] == evs[0]);
            },
            _ => {
                lemma_end_flags(st2, SegmentPhase::Open, open, segs.drop_first());
                assert((evs + rest).drop_first() =~= rest);
                assert((evs + rest)[0] == evs[0]);
            },
        }
    }
}

/// Law: every subpath of a well-formed segment list ends in exactly one
/// `End` event, and that `End` closes the subpath exactly when the subpath's
/// last segment is `Close`. (With `law_well_formed_events`, the stream has the
/// shape `(Begin, edge*, End)*`, one group per subpath.)
pub proof fn law_end_closes<P>(segs: Seq<PathSegment<P>>, origin: P)
    requires
        well_formed_segments(segs),
    ensures
        end_flags(path_events(segs, origin)) == subpath_closes(false, segs),
{
    lemma_end_flags(initial_state(origin), SegmentPhase::Outside, None, segs);
}

/// The end point of an edge event.
pub open spec fn edge_end<P>(e: PathEvent<P>) -> Option<P> {
    match e {
        PathEvent::Line { from, to } => Some(to),
        PathEvent::Quadratic { from, ctrl, to } => Some(to),
        PathEvent::Cubic { from, ctrl1, ctrl2, to } => Some(to),
        _ => None,
    }
}

/// The start point of an edge event.
pub open spec fn edge_start<P>(e: PathEvent<P>) -> Option<P> {
    match e {
        PathEvent::Line { from, to } => Some(from),
        PathEvent::Quadratic { from, ctrl, to } => Some(from),
        PathEvent::Cubic { from, ctrl1, ctrl2, to } => Some(from),
        _ => None,
    }
}

/// The edges of an event stream are chained, given the end point of the
/// edge just before it (if the stream continues right after an edge): an
/// edge that follows an edge starts where that edge ended, and an `End` that
/// follows an edge without closing the subpath names that edge's end point
/// as `last`.
pub open spec fn edges_chained_from<P>(prev_end: Option<P>, evs: Seq<PathEvent<P>>) -> bool
    decreases evs.len(),
{
    if evs.len() == 0 {
        true
    } else {
        match evs[0] {
            PathEvent::Begin { at } => edges_chained_from(None, evs.drop_first()),
            PathEvent::End { last, first, close } => (prev_end is Some && !close ==> prev_end == Some(last))
                && edges_chained_from(None, evs.drop_first()),
            _ => (prev_end is Some ==> prev_end == edge_start(evs[0]))
                && edges_chained_from(edge_end(evs[0]), evs.drop_first()),
        }
    }
}

pub open spec fn edges_chained<P>(evs: Seq<PathEvent<P>>) -> bool {
    edges_chained_from(None, evs)
}

proof fn lemma_edges_chained<P>(st: ConvState<P>, segs: Seq<PathSegment<P>>)
    ensures
        edges_chained_from(if st.needs_end { Some(st.prev) } else { None }, events_from(st, segs)),
    decreases segs.len(),
{
    if segs.len() == 0 {
        if st.needs_end {
            let evs = finish_events(st);
            assert(evs.drop_first() =~= Seq::<PathEvent<P>>::empty());
            assert(edges_chained_from(None, evs.drop_first()));
            assert(edges_chained_from(Some(st.prev), evs));
        }
    } else {
        let (st2, evs) = seg_step(st, segs[0]);
        let rest = events_from(st2, segs.drop_first());
        lemma_edges_chained(st2, segs.drop_first());
        assert(events_from(st, segs) == evs + rest);
        match segs[0] {
            PathSegment::MoveTo(p) => {
                let tail = seq![PathEvent::Begin { at: p }] + rest;
                assert(tail.drop_first() =~= rest);
                assert(edges_chained_from(None, tail));
                if st.needs_end {
                    assert((evs + rest).drop_first() =~= tail);
                    assert((evs + rest)[0] == evs[0]);
                    assert(edges_chained_from(Some(st.prev), evs + rest));
                } else {
                    assert(evs + rest =~= tail);
                }
            },
            _ => {
                assert((evs + rest).drop_first() =~= rest);
                assert((evs + rest)[0] == evs[0]);
                assert(edges_chained_from(if st.needs_end { Some(st.prev) } else { None }, evs + rest));
            },
        }
    }
}

/// Law: the edges of every converted path are chained. Within a subpath
/// each edge starts where the edge before it ended, and an `End` that does
/// not close the subpath names the end point of the last edge. (The first
/// edge after a `Begin` starts at the converter's current point, which a
/// move that opens the first subpath does not update.)
pub proof fn law_edges_chained<P>(segs: Seq<PathSegment<P>>, origin: P)
    ensures
        edges_chained(path_events(segs, origin)),
{
    lemma_edges_chained(initial_state(origin), segs);
}

/// Whether the event at `i` is a `Begin` right after an `End` that does not
/// close its subpath: the `Begin` of a move that ended an open subpath, which
/// the iterator holds back and hands out on the following call.
pub open spec fn held_back_at<P>(evs: Seq<PathEvent<P>>, i: int) -> bool {
    &&& 0 < i < evs.len()
    &&& evs[i] is Begin
    &&& match evs[i - 1] {
        PathEvent::End { last, first, close } => !close,
        _ => false,
    }
}

/// For each event that the segments produce from state `st`, whether the
/// iterator hands it out from its held-back slot: the `Begin` of a move that
/// ends an open subpath (the move's `End` is handed out first).
pub open spec fn held_flags_from<P>(st: ConvState<P>, segs: Seq<PathSegment<P>>) -> Seq<bool>
    decreases segs.len(),
{
    if segs.len() == 0 {
        if st.needs_end { seq![false] } else { seq![] }
    } else {
        let here = match segs[0] {
            PathSegment::MoveTo(_) => if st.needs_end { seq![false, true] } else { seq![false] },
            _ => seq![false],
        };
        here + held_flags_from(seg_step(st, segs[0]).0, segs.drop_first())
    }
}

proof fn lemma_held_back<P>(st: ConvState<P>, segs: Seq<PathSegment<P>>)
    ensures
        held_flags_from(st, segs).len() == events_from(st, segs).len(),
        forall|i: int| 0 <= i < held_flags_from(st, segs).len()
            ==> held_flags_from(st, segs)[i] == held_back_at(events_from(st, segs), i),
    decreases segs.len(),
{
    if segs.len() > 0 {
        let (st2, h) = seg_step(st, segs[0]);
        let rest = events_from(st2, segs.drop_first());
        let rf = held_flags_from(st2, segs.drop_first());
        lemma_held_back(st2, segs.drop_first());
        let evs = events_from(st, segs);
        let fl = held_flags_from(st, segs);
        assert(evs == h + rest);
        let hf = match segs[0] {
            PathSegment::MoveTo(_) => if st.needs_end { seq![false, true] } else { seq![false] },
            _ => seq![false],
        };
        assert(fl == hf + rf);
        assert(hf.len() == h.len());
        assert forall|i: int| 0 <= i < fl.len() implies fl[i] == held_back_at(evs, i) by {
            let n = h.len() as int;
            if i >= n {
                let j = i - n;
                assert(evs[i] == rest[j]);
                assert(fl[i] == rf[j]);
                if j > 0 {
                    assert(evs[i - 1] == rest[j - 1]);
                } else if i > 0 {
                    assert(evs[i - 1] == h[n - 1]);
                }
            } else {
                assert(evs[i] == h[i]);
                if i > 0 {
                    assert(evs[i - 1] == h[i - 1]);
                }
            }
        }
    }
}

/// Law: the positional rule of `held_back_at` picks out exactly the events
/// that the iterator hands out from its held-back slot.
pub proof fn law_held_back_begins<P>(segs: Seq<PathSegment<P>>, origin: P)
    ensures
        held_flags_from(initial_state(origin), segs).len() == path_events(segs, origin).len(),
        forall|i: int| 0 <= i < path_events(segs, origin).len()
            ==> held_flags_from(initial_state(origin), segs)[i] == held_back_at(path_events(segs, origin), i),
{
    lemma_held_back(initial_state(origin), segs);
}

/// For each event, whether it is a held-back `Begin` (see `held_back_at`).
pub fn held_back_begins<P: Copy>(events: &Vec<PathEvent<P>>) -> (r: Vec<bool>)
    ensures
        r@.len() == events@.len(),
        forall|i: int| 0 <= i < r@.len() ==> r@[i] == held_back_at(events@, i),
{
    let mut r: Vec<bool> = Vec::new();
    let mut after_open_end = false;
    let mut i: usize = 0;
    while i < events.len()
        invariant
            i <= events@.len(),
            r@.len() == i,
            forall|k: int| 0 <= k < i ==> r@[k] == held_back_at(events@, k),
            after_open_end == (i > 0 && match events@[i - 1] {
                PathEvent::End { last, first, close } => !close,
                _ => false,
            }),
        decreases events@.len() - i,
    {
        let e = events[i];
        let is_begin = match e {
            PathEvent::Begin { .. } => true,
            _ => false,
        };
        r.push(after_open_end && is_begin);
        after_open_end = match e {
            PathEvent::End { close, .. } => !close,
            _ => false,
        };
        i = i + 1;
    }
    r
}

/// Iterator over the events of a path. It hands out one event per call of
/// `next`; a move that follows an open subpath yields its `End` first and
/// keeps the new `Begin` for the following call.
pub struct PathConvIter<P> {
    segments: Vec<PathSegment<P>>,
    pos: usize,
    prev: P,
    first: P,
    needs_end: bool,
    deferred: Option<PathEvent<P>>,
}

impl<P: Copy> PathConvIter<P> {
    /// The converter's state, without the deferred event.
    pub closed spec fn state(&self) -> ConvState<P> {
        ConvState { prev: self.prev, first: self.first, needs_end: self.needs_end }
    }

    /// The events this iterator will still hand out, in order.
    pub closed spec fn remaining(&self) -> Seq<PathEvent<P>> {
        let rest = events_from(self.state(), self.segments@.skip(self.pos as int));
        match self.deferred {
            Some(e) => seq![e] + rest,
            None => rest,
        }
    }

    pub closed spec fn wf(&self) -> bool {
        self.pos <= self.segments@.len()
    }

    /// Starts the conversion of `segments`; `origin` is the point the
    /// converter holds before the first move.
    pub fn new(segments: Vec<PathSegment<P>>, origin: P) -> (it: Self)
        ensures
            it.wf(),
            it.remaining() == path_events(segments@, origin),
    {
        let it = PathConvIter { segments, pos: 0, prev: origin, first: origin, needs_end: false, deferred: None };
        assert(it.segments@.skip(0) =~= it.segments@);
        it
    }

    /// Hands out the next event, or `None` once the stream is exhausted.
    pub fn next(&mut self) -> (r: Option<PathEvent<P>>)
        requires
            old(self).wf(),
        ensures
            final(self).wf(),
            old(self).remaining().len() == 0 ==> r is None && final(self).remaining().len() == 0,
            old(self).remaining().len() > 0 ==> r == Some(old(self).remaining()[0])
                && final(self).remaining() == old(self).remaining().drop_first(),
    {
        if self.deferred.is_some() {
            let d = self.deferred.take();
            proof {
                let rest = events_from(self.state(), self.segments@.skip(self.pos as int));
                assert((seq![d.unwrap()] + rest).drop_first() =~= rest);
            }
            return d;
        }
        let ghost segs = self.segments@.skip(self.pos as int);
        if self.pos >= self.segments.len() {
            assert(segs.len() == 0);
            if self.needs_end {
                self.needs_end = false;
                return Some(PathEvent::End { last: self.prev, first: self.first, close: false });
            }
            return None;
        }
        let seg = self.segments[self.pos];
        self.pos = self.pos + 1;
        proof {
            assert(segs[0] == seg);
            assert(segs.drop_first() =~= self.segments@.skip(self.pos as int));
        }
        let ghost st0 = ConvState { prev: self.prev, first: self.first, needs_end: self.needs_end };
        let ghost rest_events = events_from(seg_step(st0, seg).0, segs.drop_first());
        match seg {
            PathSegment::MoveTo(p) => {
                if self.needs_end {
                    let last = self.prev;
                    let first = self.first;
                    self.needs_end = false;
                    self.prev = p;
                    self.deferred = Some(PathEvent::Begin { at: p });
                    self.first = p;
                    let r = PathEvent::End { last, first, close: false };
                    proof {
                        let evs = seg_step(st0, seg).1;
                        assert((evs + rest_events).drop_first() =~= seq![PathEvent::Begin { at: p }] + rest_events);
                    }
                    Some(r)
                } else {
                    self.first = p;
                    proof {
                        let evs = seg_step(st0, seg).1;
                        assert((evs + rest_events).drop_first() =~= rest_events);
                    }
                    Some(PathEvent::Begin { at: p })
                }
            },
            PathSegment::LineTo(p) => {
                self.needs_end = true;
                let from = self.prev;
                self.prev = p;
                proof {
                    let evs = seg_step(st0, seg).1;
                    assert((evs + rest_events).drop_first() =~= rest_events);
                }
                Some(PathEvent::Line { from, to: p })
            },
            PathSegment::CubicTo(c1, c2, p) => {
                self.needs_end = true;
                let from = self.prev;
                self.prev = p;
                proof {
                    let evs = seg_step(st0, seg).1;
                    assert((evs + rest_events).drop_first() =~= rest_events);
                }
                Some(PathEvent::Cubic { from, ctrl1: c1, ctrl2: c2, to: p })
            },
            PathSegment::QuadTo(c, p) => {
                self.needs_end = true;
                let from = self.prev;
                self.prev = p;
                proof {
                    let evs = seg_step(st0, seg).1;
                    assert((evs + rest_events).drop_first() =~= rest_events);
                }
                Some(PathEvent::Quadratic { from, ctrl: c, to: p })
            },
            PathSegment::Close => {
                self.needs_end = false;
                self.prev = self.first;
                proof {
                    let evs = seg_step(st0, seg).1;
                    assert((evs + rest_events).drop_first() =~= rest_events);
                }
                Some(PathEvent::End { last: self.first, first: self.first, close: true })
            },
        }
    }
}

/// Converts a whole segment list into its event stream, starting from
/// `origin` as the converter's current point.
pub fn convert_path<P: Copy>(segments: Vec<PathSegment<P>>, origin: P) -> (events: Vec<PathEvent<P>>)
    ensures
        events@ == path_events(segments@, origin),
{
    let ghost all = path_events(segments@, origin);
    let mut it = PathConvIter::new(segments, origin);
    let mut events: Vec<PathEvent<P>> = Vec::new();
    loop
        invariant
            it.wf(),
            events@ + it.remaining() == all,
            all == path_events(segments@, origin),
        decreases it.remaining().len(),
    {
        let ghost before = it.remaining();
        let r = it.next();
        match r {
            Some(e) => {
                proof {
                    assert(events@.push(e) + it.remaining() =~= events@ + before);
                }
                events.push(e);
            },
            None => {
                assert(before.len() == 0);
                assert(events@ + before =~= events@);
                return events;
            },
        }
    }
}

} // verus!
