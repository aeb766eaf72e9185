use bevy_svg::style::{parse_style, Color, Fill, FillRule, LengthText, NumberText, Stroke, StyleError};
use bevy_svg::svg_tree::{LineCap, LineJoin};

fn err(s: &str) -> StyleError {
    match parse_style(s) {
        Ok(_) => panic!("accepted {s:?}"),
        Err(e) => e,
    }
}

#[test]
fn fill_and_stroke_properties() {
    let style = parse_style("fill:#ff0000;fill-opacity:0.5;fill-rule:EvenOdd;stroke:blue;stroke-width:2px;stroke-opacity:1;stroke-miterlimit:4;stroke-linejoin:round;stroke-linecap:square").ok().unwrap();
    let fill = style.fill.unwrap();
    assert_eq!(fill.color, Some(Color { red: 255, green: 0, blue: 0 }));
    assert_eq!(fill.opacity.unwrap().as_str(), "0.5");
    assert_eq!(fill.rule, Some(FillRule::EvenOdd));
    let stroke = style.stroke.unwrap();
    assert_eq!(stroke.color, Some(Color { red: 0, green: 0, blue: 255 }));
    assert_eq!(stroke.width.as_ref().unwrap().as_str(), "2px");
    assert_eq!(stroke.opacity.as_ref().unwrap().as_str(), "1");
    assert_eq!(stroke.miter_limit.as_ref().unwrap().as_str(), "4");
    assert_eq!(stroke.line_join, Some(LineJoin::Round));
    // `stroke-linecap` sets the cap at both ends.
    assert_eq!(stroke.start_cap, Some(LineCap::Square));
    assert_eq!(stroke.end_cap, Some(LineCap::Square));
}

#[test]
fn surrounding_semicolons_and_case_are_ignored() {
    let style = parse_style(";;FILL:red;Fill-Rule:NONZERO;;").ok().unwrap();
    let fill = style.fill.unwrap();
    assert_eq!(fill.color, Some(Color { red: 255, green: 0, blue: 0 }));
    assert_eq!(fill.rule, Some(FillRule::NonZero));
    assert!(style.stroke.is_none());
}

#[test]
fn later_declarations_override_earlier_ones() {
    let style = parse_style("stroke:red;stroke:#00ff00;clip-rule:whatever").ok().unwrap();
    assert_eq!(style.stroke.unwrap().color, Some(Color { red: 0, green: 255, blue: 0 }));
    assert!(style.fill.is_none());
}

#[test]
fn malformed_declarations() {
    assert_eq!(err(""), StyleError::MalformedDeclaration(String::new()));
    assert_eq!(err("fill:red;;stroke:blue"), StyleError::MalformedDeclaration(String::new()));
    assert_eq!(err("fill"), StyleError::MalformedDeclaration("fill".to_string()));
    assert_eq!(err("fill:url(#a):b"), StyleError::MalformedDeclaration("fill".to_string()));
}

#[test]
fn invalid_values() {
    assert_eq!(err("fill:notacolor"), StyleError::InvalidColor("notacolor".to_string()));
    assert_eq!(err("stroke:#12"), StyleError::InvalidColor("#12".to_string()));
    assert_eq!(err("fill-opacity:half"), StyleError::InvalidNumber("half".to_string()));
    assert_eq!(err("stroke-opacity: 1"), StyleError::InvalidNumber(" 1".to_string()));
    assert_eq!(err("stroke-miterlimit:"), StyleError::InvalidNumber(String::new()));
    assert_eq!(err("stroke-width:wide"), StyleError::InvalidLength("wide".to_string()));
    assert_eq!(err("Fill-Rule:odd"), StyleError::InvalidFillRule("Fill-Rule".to_string()));
    assert_eq!(err("stroke-linecap:flat"), StyleError::InvalidLineCap("stroke-linecap".to_string()));
    assert_eq!(err("stroke-linejoin:sharp"), StyleError::InvalidLineJoin("stroke-linejoin".to_string()));
    assert_eq!(err("opacity:1"), StyleError::UnsupportedAttribute("opacity".to_string()));
}

#[test]
fn first_refused_declaration_decides() {
    assert_eq!(err("fill:nope;stroke-width:wide"), StyleError::InvalidColor("nope".to_string()));
    assert_eq!(err("fill:red;font:x;stroke:nope"), StyleError::UnsupportedAttribute("font".to_string()));
}

#[test]
fn fill_builders_and_override() {
    let a = Fill::default().with_color(Color { red: 1, green: 2, blue: 3 }).with_rule(FillRule::NonZero);
    let b = Fill::default().with_opacity(NumberText::parse("0.25").unwrap()).with_rule(FillRule::EvenOdd);
    let c = a.override_with(b);
    assert_eq!(c.color, Some(Color { red: 1, green: 2, blue: 3 }));
    assert_eq!(c.opacity.as_ref().unwrap().as_str(), "0.25");
    assert_eq!(c.rule, Some(FillRule::EvenOdd));
    let d = c.clone_fill().override_with(Fill::default());
    assert_eq!(d.color, c.color);
    assert_eq!(d.rule, c.rule);
    assert_eq!(Fill::default().fill_rule(), FillRule::EvenOdd);
    assert_eq!(d.fill_rule(), FillRule::EvenOdd);
}

#[test]
fn stroke_builders_and_override() {
    let s = Stroke::default().with_line_caps(LineCap::Round);
    assert_eq!((s.start_cap, s.end_cap), (Some(LineCap::Round), None));
    let s = s.with_start_cap(LineCap::Butt);
    assert_eq!((s.start_cap, s.end_cap), (Some(LineCap::Butt), Some(LineCap::Butt)));
    let s = s.with_end_cap(LineCap::Square).with_line_join(LineJoin::Bevel);
    assert_eq!((s.start_cap, s.end_cap, s.line_join), (Some(LineCap::Butt), Some(LineCap::Square), Some(LineJoin::Bevel)));
    let s = s.with_width(LengthText::parse("3").unwrap()).with_miter_limit(NumberText::parse("2").unwrap());
    let t = Stroke::default().with_color(Color { red: 9, green: 9, blue: 9 }).with_opacity(NumberText::parse("1e0").unwrap());
    let u = s.clone_stroke().override_with(t);
    assert_eq!(u.color, Some(Color { red: 9, green: 9, blue: 9 }));
    assert_eq!(u.opacity.as_ref().unwrap().as_str(), "1e0");
    assert_eq!(u.width.as_ref().unwrap().as_str(), "3");
    assert_eq!(u.miter_limit.as_ref().unwrap().as_str(), "2");
    assert_eq!(u.start_cap, Some(LineCap::Butt));
    assert_eq!(Stroke::default().caps_and_join(), (LineCap::Butt, LineCap::Butt, LineJoin::Miter));
    assert_eq!(s.caps_and_join(), (LineCap::Butt, LineCap::Square, LineJoin::Bevel));
}

#[test]
fn number_and_length_texts() {
    assert!(NumberText::parse("x").is_none());
    assert_eq!(NumberText::parse("-1.5").unwrap().clone_number().as_str(), "-1.5");
    assert!(LengthText::parse("1em").is_some());
    assert!(LengthText::parse("1 em x").is_none());
}

#[test]
fn stroke_linecap_sets_both_ends() {
    let stroke = parse_style("stroke-linecap:round").ok().unwrap().stroke.unwrap();
    assert_eq!((stroke.start_cap, stroke.end_cap), (Some(LineCap::Round), Some(LineCap::Round)));
    assert!(stroke.color.is_none());
}

#[test]
fn joined_style_texts_override() {
    let joined = parse_style("fill:red;fill-rule:nonzero;fill:blue;stroke-width:2").ok().unwrap();
    let first = parse_style("fill:red;fill-rule:nonzero").ok().unwrap();
    let second = parse_style("fill:blue;stroke-width:2").ok().unwrap();
    let fill = first.fill.unwrap().override_with(second.fill.unwrap());
    let jf = joined.fill.unwrap();
    assert_eq!((jf.color, jf.rule), (fill.color, fill.rule));
    assert_eq!(jf.color, Some(Color { red: 0, green: 0, blue: 255 }));
    assert_eq!(jf.rule, Some(FillRule::NonZero));
    assert!(first.stroke.is_none());
    assert_eq!(joined.stroke.unwrap().width.unwrap().as_str(), second.stroke.unwrap().width.unwrap().as_str());
    assert_eq!(err("fill:nope;stroke:bad"), StyleError::InvalidColor("nope".to_string()));
    assert_eq!(err("fill:red;stroke:bad"), StyleError::InvalidColor("bad".to_string()));
}
