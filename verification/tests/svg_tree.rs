use bevy_svg::path_events::{PathEvent, PathSegment};
use bevy_svg::svg_tree::{
    convert_line_cap, convert_line_join, convert_stroke, from_tree, DrawColor, DrawType, FillPaint, LineCap, LineJoin,
    Paint, PaintOrder, PathDescriptor, Rgba8, StrokePaint, SvgLineCap, SvgLineJoin, SvgNode, SvgPath,
};
use bevy_svg::Convert;

type P = (i32, i32);

fn red() -> Paint {
    Paint::Color { red: 255, green: 0, blue: 0 }
}

fn path(id: u32, order: PaintOrder, fill: bool, stroke: bool) -> SvgNode<P, u32> {
    SvgNode::Path(SvgPath {
        segments: vec![PathSegment::MoveTo((id as i32, 0)), PathSegment::LineTo((id as i32, 1)), PathSegment::Close],
        attributes: id,
        visible: true,
        paint_order: order,
        zero_area: false,
        fill: if fill { Some(FillPaint { paint: red(), opacity: 200 }) } else { None },
        stroke: if stroke {
            Some(StrokePaint { paint: red(), opacity: 100, linecap: SvgLineCap::Round, linejoin: SvgLineJoin::Bevel })
        } else {
            None
        },
    })
}

fn summary(ds: &[PathDescriptor<P, u32>]) -> Vec<(u32, bool)> {
    ds.iter().map(|d| (d.attributes, d.draw_type == DrawType::Fill)).collect()
}

#[test]
fn descriptors_follow_document_order() {
    let tree = vec![
        path(1, PaintOrder::StrokeAndFill, true, false),
        SvgNode::Group {
            isolate: false,
            children: vec![path(2, PaintOrder::StrokeAndFill, true, false), SvgNode::Image, path(3, PaintOrder::StrokeAndFill, true, false)],
        },
        SvgNode::Text { flattened: vec![path(4, PaintOrder::StrokeAndFill, true, false)] },
        path(5, PaintOrder::StrokeAndFill, true, false),
    ];
    let ds = from_tree(tree, (0, 0));
    assert_eq!(summary(&ds), vec![(1, true), (2, true), (3, true), (4, true), (5, true)]);
}

#[test]
fn paint_order_is_reversed_within_a_path() {
    let ds = from_tree(vec![path(7, PaintOrder::FillAndStroke, true, true)], (0, 0));
    assert_eq!(summary(&ds), vec![(7, false), (7, true)]);
    let ds = from_tree(vec![path(8, PaintOrder::StrokeAndFill, true, true)], (0, 0));
    assert_eq!(summary(&ds), vec![(8, true), (8, false)]);
}

#[test]
fn invisible_and_unpainted_paths_give_nothing() {
    let mut invisible = path(1, PaintOrder::FillAndStroke, true, true);
    if let SvgNode::Path(p) = &mut invisible {
        p.visible = false;
    }
    let ds = from_tree(vec![invisible, path(2, PaintOrder::FillAndStroke, false, false)], (0, 0));
    assert!(ds.is_empty());
}

#[test]
fn zero_area_path_is_stroked_but_not_filled() {
    let mut line = path(3, PaintOrder::FillAndStroke, true, true);
    if let SvgNode::Path(p) = &mut line {
        p.zero_area = true;
    }
    let ds = from_tree(vec![line], (0, 0));
    assert_eq!(summary(&ds), vec![(3, false)]);
    assert_eq!(ds[0].draw_type, DrawType::Stroke { line_cap: LineCap::Round, line_join: LineJoin::Bevel });
    assert_eq!(ds[0].color, DrawColor::Srgba(Rgba8 { red: 255, green: 0, blue: 0, alpha: 100 }));
}

#[test]
fn descriptor_carries_converted_events() {
    let ds = from_tree(vec![path(2, PaintOrder::FillAndStroke, true, false)], (9, 9));
    assert_eq!(ds[0].color, DrawColor::Srgba(Rgba8 { red: 255, green: 0, blue: 0, alpha: 200 }));
    assert_eq!(
        ds[0].segments,
        vec![
            PathEvent::Begin { at: (2, 0) },
            PathEvent::Line { from: (9, 9), to: (2, 1) },
            PathEvent::End { last: (2, 0), first: (2, 0), close: true },
        ]
    );
}

#[test]
fn gradient_color_is_average_of_end_stops() {
    let first = Rgba8 { red: 0, green: 0, blue: 255, alpha: 255 };
    let stroke = StrokePaint {
        paint: Paint::LinearGradient { first_stop: Some(first), last_stop: None },
        opacity: 10,
        linecap: SvgLineCap::Butt,
        linejoin: SvgLineJoin::MiterClip,
    };
    let (color, draw_type) = convert_stroke(&stroke);
    assert_eq!(color, DrawColor::Average(first, Rgba8 { red: 0, green: 0, blue: 0, alpha: 0 }));
    assert_eq!(draw_type, DrawType::Stroke { line_cap: LineCap::Butt, line_join: LineJoin::MiterClip });
    let pattern = StrokePaint { paint: Paint::Pattern, ..stroke };
    assert_eq!((&pattern).convert().0, DrawColor::Srgba(Rgba8 { red: 0, green: 0, blue: 0, alpha: 0 }));
    let radial = FillPaint { paint: Paint::RadialGradient { first_stop: None, last_stop: Some(first) }, opacity: 1 };
    let ds = from_tree(
        vec![SvgNode::Path(SvgPath {
            segments: vec![PathSegment::MoveTo((0, 0)), PathSegment::LineTo((1, 1))],
            attributes: 0u32,
            visible: true,
            paint_order: PaintOrder::FillAndStroke,
            zero_area: false,
            fill: Some(radial),
            stroke: None,
        })],
        (0, 0),
    );
    assert_eq!(ds[0].color, DrawColor::Average(Rgba8 { red: 0, green: 0, blue: 0, alpha: 0 }, first));
}

#[test]
fn caps_and_joins_map_one_to_one() {
    assert_eq!(convert_line_cap(SvgLineCap::Butt), LineCap::Butt);
    assert_eq!(convert_line_cap(SvgLineCap::Square), LineCap::Square);
    assert_eq!(SvgLineCap::Round.convert(), LineCap::Round);
    assert_eq!(convert_line_join(SvgLineJoin::Miter), LineJoin::Miter);
    assert_eq!(convert_line_join(SvgLineJoin::MiterClip), LineJoin::MiterClip);
    assert_eq!(convert_line_join(SvgLineJoin::Bevel), LineJoin::Bevel);
    assert_eq!(SvgLineJoin::Round.convert(), LineJoin::Round);
}
