//! The walk over a parsed SVG tree that turns every visible path into the
//! fill and stroke descriptors that get tessellated.
//!
//! The tree holds, per path, what the walk decides on: visibility, paint
//! order, whether the path encloses an area, and the fill and stroke paints.
//! Points (`P`) and the path's numeric attributes (`T`: transform, stroke
//! width) are carried through unchanged.
use vstd::prelude::*;

use crate::path_events::{PathSegment, PathEvent, path_events, convert_path};
use crate::Convert;

verus! {

/// An sRGB color with 8-bit channels and 8-bit alpha.
#[derive(Clone, Copy, Debug, PartialEq, Eq, Structural)]
pub struct Rgba8 {
    pub red: u8,
    pub green: u8,
    pub blue: u8,
    pub alpha: u8,
}

/// The transparent color that stands for "no color".
pub open spec fn transparent() -> Rgba8 {
    Rgba8 { red: 0, green: 0, blue: 0, alpha: 0 }
}

/// How a path is painted, as the SVG tree describes it. A gradient is known
/// by the colors (with the stop opacity as alpha) of its first and last stop.
#[derive(Clone, Copy, Debug, PartialEq, Eq, Structural)]
pub enum Paint {
    Color { red: u8, green: u8, blue: u8 },
    LinearGradient { first_stop: Option<Rgba8>, last_stop: Option<Rgba8> },
    RadialGradient { first_stop: Option<Rgba8>, last_stop: Option<Rgba8> },
    Pattern,
}

/// The fill of a path: its paint and its opacity scaled to 0..=255.
#[derive(Clone, Copy, Debug, PartialEq, Eq, Structural)]
pub struct FillPaint {
    pub paint: Paint,
    pub opacity: u8,
}

/// Line caps as the SVG tree names them.
#[derive(Clone, Copy, Debug, PartialEq, Eq, Structural)]
pub enum SvgLineCap {
    Butt,
    Square,
    Round,
}

/// Line joins as the SVG tree names them.
#[derive(Clone, Copy, Debug, PartialEq, Eq, Structural)]
pub enum SvgLineJoin {
    Miter,
    MiterClip,
    Bevel,
    Round,
}

/// The stroke of a path: paint, opacity scaled to 0..=255, cap and join.
#[derive(Clone, Copy, Debug, PartialEq, Eq, Structural)]
pub struct StrokePaint {
    pub paint: Paint,
    pub opacity: u8,
    pub linecap: SvgLineCap,
    pub linejoin: SvgLineJoin,
}

/// In which order a path's fill and stroke are painted.
#[derive(Clone, Copy, Debug, PartialEq, Eq, Structural)]
pub enum PaintOrder {
    FillAndStroke,
    StrokeAndFill,
}

/// A path of the SVG tree.
pub struct SvgPath<P, T> {
    /// The path's segments, before its transform.
    pub segments: Vec<PathSegment<P>>,
    /// The numeric attributes handed on to the descriptors (transform, stroke width).
    pub attributes: T,
    pub visible: bool,
    pub paint_order: PaintOrder,
    /// Whether the bounding box of the path data has zero width or zero height.
    pub zero_area: bool,
    pub fill: Option<FillPaint>,
    pub stroke: Option<StrokePaint>,
}

/// A node of the SVG tree. A text node holds the children of its flattened
/// group.
pub enum SvgNode<P, T> {
    Group { isolate: bool, children: Vec<SvgNode<P, T>> },
    Text { flattened: Vec<SvgNode<P, T>> },
    Path(SvgPath<P, T>),
    Image,
}

/// The color a descriptor is drawn with.
#[derive(Clone, Copy, Debug, PartialEq, Eq, Structural)]
pub enum DrawColor {
    /// An 8-bit sRGB color with alpha.
    Srgba(Rgba8),
    /// The channel-wise average of two colors (stand-in for a gradient).
    Average(Rgba8, Rgba8),
}

/// Line caps of the tessellator.
#[derive(Clone, Copy, Debug, PartialEq, Eq, Structural)]
pub enum LineCap {
    Butt,
    Square,
    Round,
}

/// Line joins of the tessellator.
#[derive(Clone, Copy, Debug, PartialEq, Eq, Structural)]
pub enum LineJoin {
    Miter,
    MiterClip,
    Round,
    Bevel,
}

/// Whether a descriptor is filled or stroked (and with which cap and join;
/// the tolerance and the line width are added when tessellating).
#[derive(Clone, Copy, Debug, PartialEq, Eq, Structural)]
pub enum DrawType {
    Fill,
    Stroke { line_cap: LineCap, line_join: LineJoin },
}

/// One fill or stroke of one path, ready to be tessellated.
pub struct PathDescriptor<P, T> {
    pub segments: Vec<PathEvent<P>>,
    pub attributes: T,
    pub color: DrawColor,
    pub draw_type: DrawType,
}

/// The mathematical content of a descriptor.
pub struct DescriptorView<P, T> {
    pub segments: Seq<PathEvent<P>>,
    pub attributes: T,
    pub color: DrawColor,
    pub draw_type: DrawType,
}

impl<P, T> View for PathDescriptor<P, T> {
    type V = DescriptorView<P, T>;

    open spec fn view(&self) -> DescriptorView<P, T> {
        DescriptorView {
            segments: self.segments@,
            attributes: self.attributes,
            color: self.color,
            draw_type: self.draw_type,
        }
    }
}

pub open spec fn descriptor_views<P, T>(ds: Seq<PathDescriptor<P, T>>) -> Seq<DescriptorView<P, T>> {
    ds.map_values(|d: PathDescriptor<P, T>| d@)
}

/// The color of a paint with the given opacity: a plain color takes the
/// opacity as alpha, a gradient the average of its first and last stop
/// (a missing stop counts as transparent), a pattern is transparent.
pub open spec fn paint_color(paint: Paint, opacity: u8) -> DrawColor {
    match paint {
        Paint::Color { red, green, blue } => DrawColor::Srgba(Rgba8 { red, green, blue, alpha: opacity }),
        Paint::LinearGradient { first_stop, last_stop } => DrawColor::Average(
            first_stop.unwrap_or(transparent()),
            last_stop.unwrap_or(transparent()),
        ),
        Paint::RadialGradient { first_stop, last_stop } => DrawColor::Average(
            first_stop.unwrap_or(transparent()),
            last_stop.unwrap_or(transparent()),
        ),
        Paint::Pattern => DrawColor::Srgba(transparent()),
    }
}

pub open spec fn line_cap_of(cap: SvgLineCap) -> LineCap {
    match cap {
        SvgLineCap::Butt => LineCap::Butt,
        SvgLineCap::Square => LineCap::Square,
        SvgLineCap::Round => LineCap::Round,
    }
}

pub open spec fn line_join_of(join: SvgLineJoin) -> LineJoin {
    match join {
        SvgLineJoin::Miter => LineJoin::Miter,
        SvgLineJoin::MiterClip => LineJoin::MiterClip,
        SvgLineJoin::Bevel => LineJoin::Bevel,
        SvgLineJoin::Round => LineJoin::Round,
    }
}

/// The fill descriptor of a path, if it gets one: a path whose bounds have
/// zero width or height is not filled, nor is a path without fill.
pub open spec fn fill_descriptors<P, T>(path: SvgPath<P, T>, origin: P) -> Seq<DescriptorView<P, T>> {
    if path.zero_area {
        seq![]
    } else {
        match path.fill {
            None => seq![],
            Some(f) => seq![DescriptorView {
                segments: path_events(path.segments@, origin),
                attributes: path.attributes,
                color: paint_color(f.paint, f.opacity),
                draw_type: DrawType::Fill,
            }],
        }
    }
}

/// The stroke descriptor of a path, if it has a stroke.
pub open spec fn stroke_descriptors<P, T>(path: SvgPath<P, T>, origin: P) -> Seq<DescriptorView<P, T>> {
    match path.stroke {
        None => seq![],
        Some(s) => seq![DescriptorView {
            segments: path_events(path.segments@, origin),
            attributes: path.attributes,
            color: paint_color(s.paint, s.opacity),
            draw_type: DrawType::Stroke { line_cap: line_cap_of(s.linecap), line_join: line_join_of(s.linejoin) },
        }],
    }
}

/// The descriptors of a path in the order the walk produces them: nothing
/// for an invisible path, else fill and stroke in paint order.
pub open spec fn path_descriptors<P, T>(path: SvgPath<P, T>, origin: P) -> Seq<DescriptorView<P, T>> {
    if !path.visible {
        seq![]
    } else {
        match path.paint_order {
            PaintOrder::FillAndStroke => fill_descriptors(path, origin) + stroke_descriptors(path, origin),
            PaintOrder::StrokeAndFill => stroke_descriptors(path, origin) + fill_descriptors(path, origin),
        }
    }
}

/// What the walk produces for a node, before the final reversal: the walk
/// visits the children of a group from the last one to the first.
pub open spec fn walk_node<P, T>(node: SvgNode<P, T>, origin: P) -> Seq<DescriptorView<P, T>>
    decreases node,
{
    match node {
        SvgNode::Group { isolate, children } => walk_nodes(children@, origin),
        SvgNode::Text { flattened } => walk_nodes(flattened@, origin),
        SvgNode::Path(p) => path_descriptors(p, origin),
        SvgNode::Image => seq![],
    }
}

/// The walk over a list of sibling nodes, last sibling first.
pub open spec fn walk_nodes<P, T>(nodes: Seq<SvgNode<P, T>>, origin: P) -> Seq<DescriptorView<P, T>>
    decreases nodes,
{
    if nodes.len() == 0 {
        seq![]
    } else {
        walk_node(nodes.last(), origin) + walk_nodes(nodes.drop_last(), origin)
    }
}

/// The descriptors of a node in document order: the descriptors of a
/// path, then those of the nodes after it. Within one path the walk's order
/// is reversed.
pub open spec fn document_node<P, T>(node: SvgNode<P, T>, origin: P) -> Seq<DescriptorView<P, T>>
    decreases node,
{
    match node {
        SvgNode::Group { isolate, children } => document_nodes(children@, origin),
        SvgNode::Text { flattened } => document_nodes(flattened@, origin),
        SvgNode::Path(p) => path_descriptors(p, origin).reverse(),
        SvgNode::Image => seq![],
    }
}

pub open spec fn document_nodes<P, T>(nodes: Seq<SvgNode<P, T>>, origin: P) -> Seq<DescriptorView<P, T>>
    decreases nodes,
{
    if nodes.len() == 0 {
        seq![]
    } else {
        document_nodes(nodes.drop_last(), origin) + document_node(nodes.last(), origin)
    }
}

/// No group of the tree asks to be rendered in isolation (the walk does not
/// support isolated groups).
pub open spec fn without_isolation<P, T>(node: SvgNode<P, T>) -> bool
    decreases node,
{
    match node {
        SvgNode::Group { isolate, children } => !isolate && all_without_isolation(children@),
        SvgNode::Text { flattened } => all_without_isolation(flattened@),
        _ => true,
    }
}

pub open spec fn all_without_isolation<P, T>(nodes: Seq<SvgNode<P, T>>) -> bool
    decreases nodes,
{
    if nodes.len() == 0 {
        true
    } else {
        without_isolation(nodes.last()) && all_without_isolation(nodes.drop_last())
    }
}

pub open spec fn node_size<P, T>(node: SvgNode<P, T>) -> nat
    decreases node,
{
    match node {
        SvgNode::Group { isolate, children } => 1 + nodes_size(children@),
        SvgNode::Text { flattened } => 1 + nodes_size(flattened@),
        _ => 1,
    }
}

pub open spec fn nodes_size<P, T>(nodes: Seq<SvgNode<P, T>>) -> nat
    decreases nodes,
{
    if nodes.len() == 0 {
        0
    } else {
        node_size(nodes.last()) + nodes_size(nodes.drop_last())
    }
}

proof fn lemma_concat_last<A>(a: Seq<A>, b: Seq<A>)
    requires
        b.len() > 0,
    ensures
        (a + b).last() == b.last(),
        (a + b).drop_last() == a + b.drop_last(),
{
    assert((a + b).drop_last() =~= a + b.drop_last());
}

proof fn lemma_walk_concat<P, T>(a: Seq<SvgNode<P, T>>, b: Seq<SvgNode<P, T>>, origin: P)
    ensures
        walk_nodes(a + b, origin) == walk_nodes(b, origin) + walk_nodes(a, origin),
        nodes_size(a + b) == nodes_size(a) + nodes_size(b),
        all_without_isolation(a + b) == (all_without_isolation(a) && all_without_isolation(b)),
    decreases b.len(),
{
    if b.len() == 0 {
        assert(a + b =~= a);
        assert(walk_nodes(b, origin) + walk_nodes(a, origin) =~= walk_nodes(a, origin));
    } else {
        lemma_concat_last(a, b);
        lemma_walk_concat(a, b.drop_last(), origin);
        let w = walk_node(b.last(), origin);
        assert(w + (walk_nodes(b.drop_last(), origin) + walk_nodes(a, origin))
            =~= (w + walk_nodes(b.drop_last(), origin)) + walk_nodes(a, origin));
    }
}

proof fn lemma_reverse_concat<A>(a: Seq<A>, b: Seq<A>)
    ensures
        (a + b).reverse() == b.reverse() + a.reverse(),
{
    assert((a + b).reverse() =~= b.reverse() + a.reverse());
}

proof fn lemma_walk_document_node<P, T>(node: SvgNode<P, T>, origin: P)
    ensures
        walk_node(node, origin).reverse() == document_node(node, origin),
    decreases node,
{
    match node {
        SvgNode::Group { isolate, children } => lemma_walk_document_nodes(children@, origin),
        SvgNode::Text { flattened } => lemma_walk_document_nodes(flattened@, origin),
        SvgNode::Path(p) => {},
        SvgNode::Image => {
            assert(Seq::<DescriptorView<P, T>>::empty().reverse() =~= Seq::<DescriptorView<P, T>>::empty());
        },
    }
}

proof fn lemma_walk_document_nodes<P, T>(nodes: Seq<SvgNode<P, T>>, origin: P)
    ensures
        walk_nodes(nodes, origin).reverse() == document_nodes(nodes, origin),
    decreases nodes,
{
    if nodes.len() == 0 {
        assert(Seq::<DescriptorView<P, T>>::empty().reverse() =~= Seq::<DescriptorView<P, T>>::empty());
    } else {
        lemma_walk_document_node(nodes.last(), origin);
        lemma_walk_document_nodes(nodes.drop_last(), origin);
        lemma_reverse_concat(walk_node(nodes.last(), origin), walk_nodes(nodes.drop_last(), origin));
    }
}

/// Law: the descriptors come out in document order. The walk visits the
/// tree last sibling first and reverses its output at the end; the result is
/// the document-order list of paths, each contributing its descriptors in
/// the reverse of its paint order.
pub proof fn law_document_order<P, T>(nodes: Seq<SvgNode<P, T>>, origin: P)
    ensures
        walk_nodes(nodes, origin).reverse() == document_nodes(nodes, origin),
{
    lemma_walk_document_nodes(nodes, origin);
}

/// Law: a plain-color paint keeps its channels and takes the opacity as its
/// alpha; a gradient is drawn as the average of its first and last stop (a
/// missing stop counts as transparent black); a pattern is transparent.
pub proof fn law_paint_colors(red: u8, green: u8, blue: u8, opacity: u8, first: Option<Rgba8>, last: Option<Rgba8>)
    ensures
        paint_color(Paint::Color { red, green, blue }, opacity)
            == DrawColor::Srgba(Rgba8 { red, green, blue, alpha: opacity }),
        paint_color(Paint::LinearGradient { first_stop: first, last_stop: last }, opacity)
            == DrawColor::Average(
                match first { Some(c) => c, None => Rgba8 { red: 0, green: 0, blue: 0, alpha: 0 } },
                match last { Some(c) => c, None => Rgba8 { red: 0, green: 0, blue: 0, alpha: 0 } },
            ),
        paint_color(Paint::RadialGradient { first_stop: first, last_stop: last }, opacity)
            == paint_color(Paint::LinearGradient { first_stop: first, last_stop: last }, opacity),
        paint_color(Paint::Pattern, opacity) == DrawColor::Srgba(Rgba8 { red: 0, green: 0, blue: 0, alpha: 0 }),
{
}

/// Law: a visible path filled with a plain color, without stroke, gives
/// exactly one fill descriptor: drawn with that color (opacity as alpha),
/// carrying the path's attributes and its converted events.
pub proof fn law_filled_path<P, T>(path: SvgPath<P, T>, origin: P, red: u8, green: u8, blue: u8, opacity: u8)
    requires
        path.visible,
        !path.zero_area,
        path.fill == Some(FillPaint { paint: Paint::Color { red, green, blue }, opacity }),
        path.stroke is None,
    ensures
        path_descriptors(path, origin).len() == 1,
        path_descriptors(path, origin)[0].color == DrawColor::Srgba(Rgba8 { red, green, blue, alpha: opacity }),
        path_descriptors(path, origin)[0].draw_type == DrawType::Fill,
        path_descriptors(path, origin)[0].attributes == path.attributes,
        path_descriptors(path, origin)[0].segments == path_events(path.segments@, origin),
{
    assert(seq![] + fill_descriptors(path, origin) =~= fill_descriptors(path, origin));
    assert(fill_descriptors(path, origin) + seq![] =~= fill_descriptors(path, origin));
}

/// Law: a visible path stroked with a plain color, without fill, gives
/// exactly one stroke descriptor: drawn with that color (opacity as alpha),
/// with the stroke's cap and join of the same names.
pub proof fn law_stroked_path<P, T>(path: SvgPath<P, T>, origin: P, red: u8, green: u8, blue: u8, opacity: u8)
    requires
        path.visible,
        path.fill is None,
        path.stroke matches Some(s) && s.paint == (Paint::Color { red, green, blue }) && s.opacity == opacity,
    ensures
        path_descriptors(path, origin).len() == 1,
        path_descriptors(path, origin)[0].color == DrawColor::Srgba(Rgba8 { red, green, blue, alpha: opacity }),
        path_descriptors(path, origin)[0].segments == path_events(path.segments@, origin),
        path.stroke.unwrap().linecap == SvgLineCap::Butt ==> path_descriptors(path, origin)[0].draw_type->line_cap == LineCap::Butt,
        path.stroke.unwrap().linecap == SvgLineCap::Square ==> path_descriptors(path, origin)[0].draw_type->line_cap == LineCap::Square,
        path.stroke.unwrap().linecap == SvgLineCap::Round ==> path_descriptors(path, origin)[0].draw_type->line_cap == LineCap::Round,
        path.stroke.unwrap().linejoin == SvgLineJoin::Miter ==> path_descriptors(path, origin)[0].draw_type->line_join == LineJoin::Miter,
        path.stroke.unwrap().linejoin == SvgLineJoin::MiterClip ==> path_descriptors(path, origin)[0].draw_type->line_join == LineJoin::MiterClip,
        path.stroke.unwrap().linejoin == SvgLineJoin::Bevel ==> path_descriptors(path, origin)[0].draw_type->line_join == LineJoin::Bevel,
        path.stroke.unwrap().linejoin == SvgLineJoin::Round ==> path_descriptors(path, origin)[0].draw_type->line_join == LineJoin::Round,
        path_descriptors(path, origin)[0].draw_type is Stroke,
{
    assert(seq![] + stroke_descriptors(path, origin) =~= stroke_descriptors(path, origin));
    assert(stroke_descriptors(path, origin) + seq![] =~= stroke_descriptors(path, origin));
}

/// Law: which descriptors a path gets. An invisible path gets none; a path
/// without fill and stroke gets none; a path whose bounds have zero width or
/// height is never filled; a visible path with both a fill (and nonzero
/// bounds) and a stroke gets two descriptors, in its paint order.
pub proof fn law_path_descriptor_kinds<P, T>(path: SvgPath<P, T>, origin: P)
    ensures
        !path.visible ==> path_descriptors(path, origin).len() == 0,
        path.fill is None && path.stroke is None ==> path_descriptors(path, origin).len() == 0,
        path.zero_area ==> forall|i: int| 0 <= i < path_descriptors(path, origin).len()
            ==> (#[trigger] path_descriptors(path, origin)[i]).draw_type is Stroke,
        path.visible && !path.zero_area && path.fill is Some && path.stroke is Some ==> {
            &&& path_descriptors(path, origin).len() == 2
            &&& path.paint_order == PaintOrder::FillAndStroke ==> path_descriptors(path, origin)[0].draw_type is Fill
                && path_descriptors(path, origin)[1].draw_type is Stroke
            &&& path.paint_order == PaintOrder::StrokeAndFill ==> path_descriptors(path, origin)[0].draw_type is Stroke
                && path_descriptors(path, origin)[1].draw_type is Fill
        },
{
    let f = fill_descriptors(path, origin);
    let s = stroke_descriptors(path, origin);
    if path.fill is None && path.stroke is None {
        assert(f + s =~= Seq::<DescriptorView<P, T>>::empty());
        assert(s + f =~= Seq::<DescriptorView<P, T>>::empty());
    }
    if path.zero_area {
        assert(f + s =~= s);
        assert(s + f =~= s);
    }
}

proof fn lemma_node_size_le<P, T>(nodes: Seq<SvgNode<P, T>>, i: int)
    requires
        0 <= i < nodes.len(),
    ensures
        node_size(nodes[i]) <= nodes_size(nodes),
    decreases nodes.len(),
{
    if i < nodes.len() - 1 {
        assert(nodes.drop_last()[i] == nodes[i]);
        lemma_node_size_le(nodes.drop_last(), i);
    }
}

/// Whether the node and all nodes below it leave isolation off.
pub fn without_isolated_group<P, T>(node: &SvgNode<P, T>) -> (r: bool)
    ensures
        r == without_isolation(*node),
    decreases node_size(*node), 0nat,
{
    match node {
        SvgNode::Group { isolate, children } => !*isolate && without_isolated_groups(children),
        SvgNode::Text { flattened } => without_isolated_groups(flattened),
        _ => true,
    }
}

/// Whether no node of the list, nor any node below them, asks for isolation
/// (what `from_tree` requires).
pub fn without_isolated_groups<P, T>(nodes: &Vec<SvgNode<P, T>>) -> (r: bool)
    ensures
        r == all_without_isolation(nodes@),
    decreases nodes_size(nodes@), 1nat,
{
    let mut i: usize = 0;
    assert(nodes@.take(0) =~= Seq::<SvgNode<P, T>>::empty());
    while i < nodes.len()
        invariant
            i <= nodes@.len(),
            all_without_isolation(nodes@.take(i as int)),
        decreases nodes@.len() - i,
    {
        proof {
            lemma_node_size_le(nodes@, i as int);
            let next = nodes@.take(i + 1);
            assert(next.drop_last() =~= nodes@.take(i as int));
            assert(next.last() == nodes@[i as int]);
        }
        if !without_isolated_group(&nodes[i]) {
            proof {
                lemma_all_take(nodes@, i as int);
            }
            return false;
        }
        i = i + 1;
    }
    assert(nodes@.take(i as int) =~= nodes@);
    true
}

proof fn lemma_all_take<P, T>(nodes: Seq<SvgNode<P, T>>, i: int)
    requires
        0 <= i < nodes.len(),
        !without_isolation(nodes[i]),
    ensures
        !all_without_isolation(nodes),
    decreases nodes.len(),
{
    if i < nodes.len() - 1 {
        assert(nodes.drop_last()[i] == nodes[i]);
        lemma_all_take(nodes.drop_last(), i);
    }
}

fn copy_segments<P: Copy>(segments: &Vec<PathSegment<P>>) -> (r: Vec<PathSegment<P>>)
    ensures
        r@ == segments@,
{
    let mut r: Vec<PathSegment<P>> = Vec::new();
    let mut i: usize = 0;
    while i < segments.len()
        invariant
            i <= segments@.len(),
            r@ == segments@.take(i as int),
        decreases segments@.len() - i,
    {
        r.push(segments[i]);
        i = i + 1;
        assert(r@ =~= segments@.take(i as int));
    }
    assert(segments@.take(i as int) =~= segments@);
    r
}

fn paint_to_color(paint: &Paint, opacity: u8) -> (c: DrawColor)
    ensures
        c == paint_color(*paint, opacity),
{
    match paint {
        Paint::Color { red, green, blue } => DrawColor::Srgba(Rgba8 { red: *red, green: *green, blue: *blue, alpha: opacity }),
        Paint::LinearGradient { first_stop, last_stop } => DrawColor::Average(stop_or_transparent(first_stop), stop_or_transparent(last_stop)),
        Paint::RadialGradient { first_stop, last_stop } => DrawColor::Average(stop_or_transparent(first_stop), stop_or_transparent(last_stop)),
        Paint::Pattern => DrawColor::Srgba(Rgba8 { red: 0, green: 0, blue: 0, alpha: 0 }),
    }
}

fn stop_or_transparent(stop: &Option<Rgba8>) -> (c: Rgba8)
    ensures
        c == stop.unwrap_or(transparent()),
{
    match stop {
        Some(s) => *s,
        None => Rgba8 { red: 0, green: 0, blue: 0, alpha: 0 },
    }
}

/// Maps a line cap of the SVG tree to the tessellator's.
pub fn convert_line_cap(cap: SvgLineCap) -> (r: LineCap)
    ensures
        r == line_cap_of(cap),
{
    match cap {
        SvgLineCap::Butt => LineCap::Butt,
        SvgLineCap::Square => LineCap::Square,
        SvgLineCap::Round => LineCap::Round,
    }
}

/// Maps a line join of the SVG tree to the tessellator's.
pub fn convert_line_join(join: SvgLineJoin) -> (r: LineJoin)
    ensures
        r == line_join_of(join),
{
    match join {
        SvgLineJoin::Miter => LineJoin::Miter,
        SvgLineJoin::MiterClip => LineJoin::MiterClip,
        SvgLineJoin::Bevel => LineJoin::Bevel,
        SvgLineJoin::Round => LineJoin::Round,
    }
}

impl Convert<LineCap> for SvgLineCap {
    fn convert(self) -> (r: LineCap)
        ensures
            r == line_cap_of(self),
    {
        convert_line_cap(self)
    }
}

impl Convert<LineJoin> for SvgLineJoin {
    fn convert(self) -> (r: LineJoin)
        ensures
            r == line_join_of(self),
    {
        convert_line_join(self)
    }
}

impl<'a> Convert<(DrawColor, DrawType)> for &'a StrokePaint {
    fn convert(self) -> (r: (DrawColor, DrawType))
        ensures
            r.0 == paint_color(self.paint, self.opacity),
            r.1 == (DrawType::Stroke { line_cap: line_cap_of(self.linecap), line_join: line_join_of(self.linejoin) }),
    {
        convert_stroke(self)
    }
}

/// The color and draw type of a stroke.
pub fn convert_stroke(stroke: &StrokePaint) -> (r: (DrawColor, DrawType))
    ensures
        r.0 == paint_color(stroke.paint, stroke.opacity),
        r.1 == (DrawType::Stroke { line_cap: line_cap_of(stroke.linecap), line_join: line_join_of(stroke.linejoin) }),
{
    let color = paint_to_color(&stroke.paint, stroke.opacity);
    let line_cap = convert_line_cap(stroke.linecap);
    let line_join = convert_line_join(stroke.linejoin);
    (color, DrawType::Stroke { line_cap, line_join })
}

/// Appends the fill descriptor of `path`, if it has one.
pub fn process_fill<P: Copy, T: Copy>(descriptors: &mut Vec<PathDescriptor<P, T>>, path: &SvgPath<P, T>, origin: P)
    ensures
        descriptor_views(final(descriptors)@) == descriptor_views(old(descriptors)@) + fill_descriptors(*path, origin),
{
    let ghost before = descriptors@;
    if path.zero_area {
        return;
    }
    match &path.fill {
        None => {},
        Some(fill) => {
            let color = paint_to_color(&fill.paint, fill.opacity);
            let segments = convert_path(copy_segments(&path.segments), origin);
            let d = PathDescriptor { segments, attributes: path.attributes, color, draw_type: DrawType::Fill };
            descriptors.push(d);
            assert(descriptor_views(descriptors@) =~= descriptor_views(before) + seq![d@]);
        },
    }
    assert(descriptor_views(descriptors@) =~= descriptor_views(before) + fill_descriptors(*path, origin));
}

/// Appends the stroke descriptor of `path`, if it has a stroke.
pub fn process_stroke<P: Copy, T: Copy>(descriptors: &mut Vec<PathDescriptor<P, T>>, path: &SvgPath<P, T>, origin: P)
    ensures
        descriptor_views(final(descriptors)@) == descriptor_views(old(descriptors)@) + stroke_descriptors(*path, origin),
{
    let ghost before = descriptors@;
    match &path.stroke {
        None => {},
        Some(stroke) => {
            let (color, draw_type) = convert_stroke(stroke);
            let segments = convert_path(copy_segments(&path.segments), origin);
            let d = PathDescriptor { segments, attributes: path.attributes, color, draw_type };
            descriptors.push(d);
            assert(descriptor_views(descriptors@) =~= descriptor_views(before) + seq![d@]);
        },
    }
    assert(descriptor_views(descriptors@) =~= descriptor_views(before) + stroke_descriptors(*path, origin));
}

fn reversed<A>(v: Vec<A>) -> (r: Vec<A>)
    ensures
        r@ == v@.reverse(),
{
    let ghost orig = v@;
    let mut v = v;
    let mut r: Vec<A> = Vec::new();
    while v.len() > 0
        invariant
            r@ + v@.reverse() == orig.reverse(),
        decreases v@.len(),
    {
        let ghost before = v@;
        let x = v.pop().unwrap();
        assert(before == v@.push(x));
        assert(before.reverse() =~= seq![x] + v@.reverse());
        r.push(x);
        assert(r@ + v@.reverse() =~= (r@.drop_last() + seq![x]) + v@.reverse());
    }
    assert(v@.reverse() =~= Seq::<A>::empty());
    assert(r@ + v@.reverse() =~= r@);
    r
}

/// The paths of an SVG tree: every visible path of the tree, in document
/// order, contributes its fill and stroke descriptors.
pub fn from_tree<P: Copy, T: Copy>(roots: Vec<SvgNode<P, T>>, origin: P) -> (paths: Vec<PathDescriptor<P, T>>)
    requires
        all_without_isolation(roots@),
    ensures
        descriptor_views(paths@) == walk_nodes(roots@, origin).reverse(),
        descriptor_views(paths@) == document_nodes(roots@, origin),
{
    let ghost all = walk_nodes(roots@, origin);
    let mut stack = roots;
    let mut descriptors: Vec<PathDescriptor<P, T>> = Vec::new();
    while stack.len() > 0
        invariant
            descriptor_views(descriptors@) + walk_nodes(stack@, origin) == all,
            all_without_isolation(stack@),
        decreases nodes_size(stack@),
    {
        let ghost before = stack@;
        let node = stack.pop().unwrap();
        proof {
            assert(before == stack@.push(node));
            assert(before.last() == node);
            assert(before.drop_last() =~= stack@);
            assert(walk_nodes(before, origin) == walk_node(node, origin) + walk_nodes(stack@, origin));
            assert(without_isolation(node) && all_without_isolation(stack@));
            assert(nodes_size(before) == node_size(node) + nodes_size(stack@));
        }
        let ghost done = descriptor_views(descriptors@);
        let ghost rest = stack@;
        assert(done + (walk_node(node, origin) + walk_nodes(rest, origin)) == all);
        match node {
            SvgNode::Group { isolate, children } => {
                let mut children = children;
                proof { lemma_walk_concat(stack@, children@, origin); }
                stack.append(&mut children);
                assert(done + walk_nodes(stack@, origin) =~= done + (walk_node(node, origin) + walk_nodes(rest, origin)));
            },
            SvgNode::Text { flattened } => {
                let mut flattened = flattened;
                proof { lemma_walk_concat(stack@, flattened@, origin); }
                stack.append(&mut flattened);
                assert(done + walk_nodes(stack@, origin) =~= done + (walk_node(node, origin) + walk_nodes(rest, origin)));
            },
            SvgNode::Path(path) => {
                if path.visible {
                    match path.paint_order {
                        PaintOrder::FillAndStroke => {
                            process_fill(&mut descriptors, &path, origin);
                            process_stroke(&mut descriptors, &path, origin);
                        },
                        PaintOrder::StrokeAndFill => {
                            process_stroke(&mut descriptors, &path, origin);
                            process_fill(&mut descriptors, &path, origin);
                        },
                    }
                }
                assert(descriptor_views(descriptors@) =~= done + path_descriptors(path, origin));
                assert(descriptor_views(descriptors@) + walk_nodes(stack@, origin) =~= done + (walk_node(node, origin) + walk_nodes(rest, origin)));
            },
            SvgNode::Image => {
                assert(descriptor_views(descriptors@) + walk_nodes(stack@, origin) =~= done + (walk_node(node, origin) + walk_nodes(rest, origin)));
            },
        }
    }
    assert(walk_nodes(stack@, origin) =~= Seq::<DescriptorView<P, T>>::empty());
    assert(descriptor_views(descriptors@) + walk_nodes(stack@, origin) =~= descriptor_views(descriptors@));
    let paths = reversed(descriptors);
    proof {
        assert(descriptor_views(paths@) =~= descriptor_views(descriptors@).reverse());
        lemma_walk_document_nodes(roots@, origin);
    }
    paths
}

} // verus!
