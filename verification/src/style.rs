//! The SVG `style` attribute: fill and stroke settings, how one set of
//! settings overrides another, and the parser of `style="..."` texts.
//!
//! Numeric values (opacities, miter limits, stroke widths) are kept as the
//! text they were written with; the parser accepts exactly the texts that the
//! numeric parsers accept.
use vstd::prelude::*;

use crate::number::{is_float, is_float_text};
use crate::svg_tree::{LineCap, LineJoin};
use crate::text::{
    lemma_split_joined, lemma_split_without_sep, lemma_trim_untouched, lowercase, split_at_char, split_char, str_eq, to_lowercase, trim_char,
    trim_matches_char,
};

verus! {

/// An sRGB color without alpha, as an SVG color value denotes it.
#[derive(Clone, Copy, Debug, PartialEq, Eq, Structural)]
pub struct Color {
    pub red: u8,
    pub green: u8,
    pub blue: u8,
}

/// How the inside of a self-intersecting shape is decided.
#[derive(Clone, Copy, Debug, PartialEq, Eq, Structural)]
pub enum FillRule {
    EvenOdd,
    NonZero,
}

/// The color that `lyon_svg::parser::Color::from_str` reads from a text,
/// if it reads one.
pub uninterp spec fn svg_color(s: Seq<char>) -> Option<(u8, u8, u8)>;

/// Whether `lyon_svg::parser::Length::from_str` reads a length from a text.
pub uninterp spec fn svg_length_parses(s: Seq<char>) -> bool;

/// `lyon_svg::parser::Color::from_str` (the SVG color parser of the
/// `svgtypes` crate that `lyon_svg` re-exports). Stated: the result is
/// `svg_color` of the text, `None` exactly when the parser returns an error.
#[verifier::external_body]
fn parse_svg_color(s: &str) -> (r: Option<Color>)
    ensures
        match r {
            Some(c) => svg_color(s@) == Some((c.red, c.green, c.blue)),
            None => svg_color(s@) is None,
        },
{
    match s.parse::<lyon_svg::parser::Color>() {
        Ok(c) => Some(Color { red: c.red, green: c.green, blue: c.blue }),
        Err(_) => None,
    }
}

/// `lyon_svg::parser::Length::from_str`. Stated: whether it returns `Ok`,
/// as `svg_length_parses` of the text. Not stated: the length it reads
/// (kept as text here and read again where it is used).
#[verifier::external_body]
fn is_svg_length(s: &str) -> (r: bool)
    ensures
        r == svg_length_parses(s@),
{
    s.parse::<lyon_svg::parser::Length>().is_ok()
}

/// `lyon_tessellation::FillOptions::DEFAULT_FILL_RULE`; its source sets it
/// to `FillRule::EvenOdd`.
#[verifier::external_body]
fn default_fill_rule() -> (r: FillRule)
    ensures
        r == FillRule::EvenOdd,
{
    match lyon_tessellation::FillOptions::DEFAULT_FILL_RULE {
        lyon_tessellation::FillRule::EvenOdd => FillRule::EvenOdd,
        lyon_tessellation::FillRule::NonZero => FillRule::NonZero,
    }
}

/// `lyon_tessellation::StrokeOptions::DEFAULT_LINE_CAP`; its source sets it
/// to `LineCap::Butt`.
#[verifier::external_body]
fn default_line_cap() -> (r: LineCap)
    ensures
        r == LineCap::Butt,
{
    match lyon_tessellation::StrokeOptions::DEFAULT_LINE_CAP {
        lyon_tessellation::LineCap::Butt => LineCap::Butt,
        lyon_tessellation::LineCap::Square => LineCap::Square,
        lyon_tessellation::LineCap::Round => LineCap::Round,
    }
}

/// `lyon_tessellation::StrokeOptions::DEFAULT_LINE_JOIN`; its source sets it
/// to `LineJoin::Miter`.
#[verifier::external_body]
fn default_line_join() -> (r: LineJoin)
    ensures
        r == LineJoin::Miter,
{
    match lyon_tessellation::StrokeOptions::DEFAULT_LINE_JOIN {
        lyon_tessellation::LineJoin::Miter => LineJoin::Miter,
        lyon_tessellation::LineJoin::MiterClip => LineJoin::MiterClip,
        lyon_tessellation::LineJoin::Round => LineJoin::Round,
        lyon_tessellation::LineJoin::Bevel => LineJoin::Bevel,
    }
}

/// A number kept as the text it was written with; the text is one that
/// `str::parse::<f32>` reads.
pub struct NumberText {
    text: String,
}

impl View for NumberText {
    type V = Seq<char>;

    closed spec fn view(&self) -> Seq<char> {
        self.text@
    }
}

impl NumberText {
    #[verifier::type_invariant]
    closed spec fn inv(self) -> bool {
        is_float_text(self.text@)
    }

    /// Keeps `s` as a number if `str::parse::<f32>` reads it.
    pub fn parse(s: &str) -> (r: Option<NumberText>)
        ensures
            r is Some <==> is_float_text(s@),
            r matches Some(n) ==> n@ == s@,
    {
        if is_float(s) {
            Some(NumberText { text: String::from_str(s) })
        } else {
            None
        }
    }

    /// The number's text.
    pub fn as_str(&self) -> (r: &str)
        ensures
            r@ == self@,
            is_float_text(r@),
    {
        proof {
            use_type_invariant(self);
        }
        self.text.as_str()
    }

    pub fn clone_number(&self) -> (r: NumberText)
        ensures
            r@ == self@,
    {
        proof {
            use_type_invariant(self);
        }
        NumberText { text: self.text.clone() }
    }
}

/// A length kept as the text it was written with; the text is one that the
/// SVG length parser reads.
pub struct LengthText {
    text: String,
}

impl View for LengthText {
    type V = Seq<char>;

    closed spec fn view(&self) -> Seq<char> {
        self.text@
    }
}

impl LengthText {
    #[verifier::type_invariant]
    closed spec fn inv(self) -> bool {
        svg_length_parses(self.text@)
    }

    /// Keeps `s` as a length if the SVG length parser reads it.
    pub fn parse(s: &str) -> (r: Option<LengthText>)
        ensures
            r is Some <==> svg_length_parses(s@),
            r matches Some(n) ==> n@ == s@,
    {
        if is_svg_length(s) {
            Some(LengthText { text: String::from_str(s) })
        } else {
            None
        }
    }

    /// The length's text.
    pub fn as_str(&self) -> (r: &str)
        ensures
            r@ == self@,
            svg_length_parses(r@),
    {
        proof {
            use_type_invariant(self);
        }
        self.text.as_str()
    }

    pub fn clone_length(&self) -> (r: LengthText)
        ensures
            r@ == self@,
    {
        proof {
            use_type_invariant(self);
        }
        LengthText { text: self.text.clone() }
    }
}

fn clone_opt_number(n: &Option<NumberText>) -> (r: Option<NumberText>)
    ensures
        opt_view(r) == opt_view(*n),
{
    match n {
        Some(x) => Some(x.clone_number()),
        None => None,
    }
}

fn clone_opt_length(n: &Option<LengthText>) -> (r: Option<LengthText>)
    ensures
        opt_len_view(r) == opt_len_view(*n),
{
    match n {
        Some(x) => Some(x.clone_length()),
        None => None,
    }
}

pub open spec fn opt_view(n: Option<NumberText>) -> Option<Seq<char>> {
    match n {
        Some(x) => Some(x@),
        None => None,
    }
}

pub open spec fn opt_len_view(n: Option<LengthText>) -> Option<Seq<char>> {
    match n {
        Some(x) => Some(x@),
        None => None,
    }
}

/// `a` if it is set, else `b`.
pub open spec fn or_else<A>(a: Option<A>, b: Option<A>) -> Option<A> {
    match a {
        Some(x) => Some(x),
        None => b,
    }
}

/// Fill settings of a shape; each one may be unset.
pub struct Fill {
    pub color: Option<Color>,
    pub opacity: Option<NumberText>,
    pub rule: Option<FillRule>,
}

/// The mathematical content of fill settings.
pub struct FillView {
    pub color: Option<Color>,
    pub opacity: Option<Seq<char>>,
    pub rule: Option<FillRule>,
}

impl View for Fill {
    type V = FillView;

    open spec fn view(&self) -> FillView {
        FillView { color: self.color, opacity: opt_view(self.opacity), rule: self.rule }
    }
}

pub open spec fn unset_fill() -> FillView {
    FillView { color: None, opacity: None, rule: None }
}

/// The settings of `other` where it sets them, else those of `base`.
pub open spec fn fill_override(base: FillView, other: FillView) -> FillView {
    FillView {
        color: or_else(other.color, base.color),
        opacity: or_else(other.opacity, base.opacity),
        rule: or_else(other.rule, base.rule),
    }
}

impl Default for Fill {
    fn default() -> (f: Fill)
        ensures
            f@ == unset_fill(),
    {
        Fill { color: None, opacity: None, rule: None }
    }
}

impl Fill {
    pub fn clone_fill(&self) -> (r: Fill)
        ensures
            r@ == self@,
    {
        Fill { color: self.color, opacity: clone_opt_number(&self.opacity), rule: self.rule }
    }

    /// Sets the color.
    pub fn with_color(self, color: Color) -> (r: Fill)
        ensures
            r@ == (FillView { color: Some(color), ..self@ }),
    {
        let mut s = self;
        s.color = Some(color);
        s
    }

    /// Sets the opacity.
    pub fn with_opacity(self, opacity: NumberText) -> (r: Fill)
        ensures
            r@ == (FillView { opacity: Some(opacity@), ..self@ }),
    {
        let mut s = self;
        s.opacity = Some(opacity);
        s
    }

    /// Sets the fill rule.
    pub fn with_rule(self, rule: FillRule) -> (r: Fill)
        ensures
            r@ == (FillView { rule: Some(rule), ..self@ }),
    {
        let mut s = self;
        s.rule = Some(rule);
        s
    }

    /// The settings of `other` that are set override those of `self`.
    pub fn override_with(self, other: Fill) -> (r: Fill)
        ensures
            r@ == fill_override(self@, other@),
    {
        let mut s = self;
        if other.color.is_some() {
            s.color = other.color;
        }
        if other.opacity.is_some() {
            s.opacity = other.opacity;
        }
        if other.rule.is_some() {
            s.rule = other.rule;
        }
        s
    }

    /// The fill rule for tessellation: the one set, else the tessellator's
    /// default (even-odd).
    pub fn fill_rule(&self) -> (r: FillRule)
        ensures
            r == self.rule.unwrap_or(FillRule::EvenOdd),
    {
        match self.rule {
            Some(r) => r,
            None => default_fill_rule(),
        }
    }
}

/// Stroke settings of a shape; each one may be unset.
pub struct Stroke {
    pub color: Option<Color>,
    pub opacity: Option<NumberText>,
    pub width: Option<LengthText>,
    pub start_cap: Option<LineCap>,
    pub end_cap: Option<LineCap>,
    pub line_join: Option<LineJoin>,
    pub miter_limit: Option<NumberText>,
}

/// The mathematical content of stroke settings.
pub struct StrokeView {
    pub color: Option<Color>,
    pub opacity: Option<Seq<char>>,
    pub width: Option<Seq<char>>,
    pub start_cap: Option<LineCap>,
    pub end_cap: Option<LineCap>,
    pub line_join: Option<LineJoin>,
    pub miter_limit: Option<Seq<char>>,
}

impl View for Stroke {
    type V = StrokeView;

    open spec fn view(&self) -> StrokeView {
        StrokeView {
            color: self.color,
            opacity: opt_view(self.opacity),
            width: opt_len_view(self.width),
            start_cap: self.start_cap,
            end_cap: self.end_cap,
            line_join: self.line_join,
            miter_limit: opt_view(self.miter_limit),
        }
    }
}

pub open spec fn unset_stroke() -> StrokeView {
    StrokeView {
        color: None,
        opacity: None,
        width: None,
        start_cap: None,
        end_cap: None,
        line_join: None,
        miter_limit: None,
    }
}

/// The settings of `other` where it sets them, else those of `base`.
pub open spec fn stroke_override(base: StrokeView, other: StrokeView) -> StrokeView {
    StrokeView {
        color: or_else(other.color, base.color),
        opacity: or_else(other.opacity, base.opacity),
        width: or_else(other.width, base.width),
        start_cap: or_else(other.start_cap, base.start_cap),
        end_cap: or_else(other.end_cap, base.end_cap),
        line_join: or_else(other.line_join, base.line_join),
        miter_limit: or_else(other.miter_limit, base.miter_limit),
    }
}

impl Default for Stroke {
    fn default() -> (s: Stroke)
        ensures
            s@ == unset_stroke(),
    {
        Stroke {
            color: None,
            opacity: None,
            width: None,
            start_cap: None,
            end_cap: None,
            line_join: None,
            miter_limit: None,
        }
    }
}

impl Stroke {
    pub fn clone_stroke(&self) -> (r: Stroke)
        ensures
            r@ == self@,
    {
        Stroke {
            color: self.color,
            opacity: clone_opt_number(&self.opacity),
            width: clone_opt_length(&self.width),
            start_cap: self.start_cap,
            end_cap: self.end_cap,
            line_join: self.line_join,
            miter_limit: clone_opt_number(&self.miter_limit),
        }
    }

    /// Sets the color.
    pub fn with_color(self, color: Color) -> (r: Stroke)
        ensures
            r@ == (StrokeView { color: Some(color), ..self@ }),
    {
        let mut s = self;
        s.color = Some(color);
        s
    }

    /// Sets the opacity.
    pub fn with_opacity(self, opacity: NumberText) -> (r: Stroke)
        ensures
            r@ == (StrokeView { opacity: Some(opacity@), ..self@ }),
    {
        let mut s = self;
        s.opacity = Some(opacity);
        s
    }

    /// Sets the line width.
    pub fn with_width(self, width: LengthText) -> (r: Stroke)
        ensures
            r@ == (StrokeView { width: Some(width@), ..self@ }),
    {
        let mut s = self;
        s.width = Some(width);
        s
    }

    /// Sets the start cap; the end cap is left as it is.
    pub fn with_line_caps(self, cap: LineCap) -> (r: Stroke)
        ensures
            r@ == (StrokeView { start_cap: Some(cap), ..self@ }),
    {
        let mut s = self;
        s.start_cap = Some(cap);
        s
    }

    /// Sets the start cap, and the end cap with it.
    pub fn with_start_cap(self, cap: LineCap) -> (r: Stroke)
        ensures
            r@ == (StrokeView { start_cap: Some(cap), end_cap: Some(cap), ..self@ }),
    {
        let mut s = self;
        s.start_cap = Some(cap);
        s.end_cap = Some(cap);
        s
    }

    /// Sets the end cap.
    pub fn with_end_cap(self, cap: LineCap) -> (r: Stroke)
        ensures
            r@ == (StrokeView { end_cap: Some(cap), ..self@ }),
    {
        let mut s = self;
        s.end_cap = Some(cap);
        s
    }

    /// Sets the line join.
    pub fn with_line_join(self, line_join: LineJoin) -> (r: Stroke)
        ensures
            r@ == (StrokeView { line_join: Some(line_join), ..self@ }),
    {
        let mut s = self;
        s.line_join = Some(line_join);
        s
    }

    /// Sets the miter limit.
    pub fn with_miter_limit(self, miter_limit: NumberText) -> (r: Stroke)
        ensures
            r@ == (StrokeView { miter_limit: Some(miter_limit@), ..self@ }),
    {
        let mut s = self;
        s.miter_limit = Some(miter_limit);
        s
    }

    /// The settings of `other` that are set override those of `self`.
    pub fn override_with(self, other: Stroke) -> (r: Stroke)
        ensures
            r@ == stroke_override(self@, other@),
    {
        let mut s = self;
        if other.color.is_some() {
            s.color = other.color;
        }
        if other.opacity.is_some() {
            s.opacity = other.opacity;
        }
        if other.width.is_some() {
            s.width = other.width;
        }
        if other.start_cap.is_some() {
            s.start_cap = other.start_cap;
        }
        if other.end_cap.is_some() {
            s.end_cap = other.end_cap;
        }
        if other.line_join.is_some() {
            s.line_join = other.line_join;
        }
        if other.miter_limit.is_some() {
            s.miter_limit = other.miter_limit;
        }
        s
    }

    /// The caps and join for tessellation: those set, else the tessellator's
    /// defaults (butt caps, miter join).
    pub fn caps_and_join(&self) -> (r: (LineCap, LineCap, LineJoin))
        ensures
            r.0 == self.start_cap.unwrap_or(LineCap::Butt),
            r.1 == self.end_cap.unwrap_or(LineCap::Butt),
            r.2 == self.line_join.unwrap_or(LineJoin::Miter),
    {
        let start = match self.start_cap {
            Some(c) => c,
            None => default_line_cap(),
        };
        let end = match self.end_cap {
            Some(c) => c,
            None => default_line_cap(),
        };
        let join = match self.line_join {
            Some(j) => j,
            None => default_line_join(),
        };
        (start, end, join)
    }
}

/// The style of a shape: its fill and stroke settings, each possibly absent.
pub struct Style {
    pub fill: Option<Fill>,
    pub stroke: Option<Stroke>,
}

/// The mathematical content of a style.
pub struct StyleView {
    pub fill: Option<FillView>,
    pub stroke: Option<StrokeView>,
}

impl View for Style {
    type V = StyleView;

    open spec fn view(&self) -> StyleView {
        StyleView {
            fill: match self.fill {
                Some(f) => Some(f@),
                None => None,
            },
            stroke: match self.stroke {
                Some(s) => Some(s@),
                None => None,
            },
        }
    }
}

impl Default for Style {
    fn default() -> (s: Style)
        ensures
            s@ == (StyleView { fill: None, stroke: None }),
    {
        Style { fill: None, stroke: None }
    }
}

/// Why a style text is refused. Each error carries the text it is about:
/// the whole declaration's first piece, the value, or the property name.
#[derive(Debug, PartialEq, Eq)]
pub enum StyleError {
    /// A declaration that is not exactly one `name:value` pair (carries the
    /// text before the first `:`).
    MalformedDeclaration(String),
    /// A color value the SVG color parser refuses.
    InvalidColor(String),
    /// A number value that is no `f32` text.
    InvalidNumber(String),
    /// A length value the SVG length parser refuses.
    InvalidLength(String),
    /// A `fill-rule` with an unknown value (carries the property name).
    InvalidFillRule(String),
    /// A `stroke-linecap` with an unknown value (carries the property name).
    InvalidLineCap(String),
    /// A `stroke-linejoin` with an unknown value (carries the property name).
    InvalidLineJoin(String),
    /// A property that is not supported (carries the property name).
    UnsupportedAttribute(String),
}

pub enum StyleErrorView {
    MalformedDeclaration(Seq<char>),
    InvalidColor(Seq<char>),
    InvalidNumber(Seq<char>),
    InvalidLength(Seq<char>),
    InvalidFillRule(Seq<char>),
    InvalidLineCap(Seq<char>),
    InvalidLineJoin(Seq<char>),
    UnsupportedAttribute(Seq<char>),
}

impl View for StyleError {
    type V = StyleErrorView;

    open spec fn view(&self) -> StyleErrorView {
        match self {
            StyleError::MalformedDeclaration(t) => StyleErrorView::MalformedDeclaration(t@),
            StyleError::InvalidColor(t) => StyleErrorView::InvalidColor(t@),
            StyleError::InvalidNumber(t) => StyleErrorView::InvalidNumber(t@),
            StyleError::InvalidLength(t) => StyleErrorView::InvalidLength(t@),
            StyleError::InvalidFillRule(t) => StyleErrorView::InvalidFillRule(t@),
            StyleError::InvalidLineCap(t) => StyleErrorView::InvalidLineCap(t@),
            StyleError::InvalidLineJoin(t) => StyleErrorView::InvalidLineJoin(t@),
            StyleError::UnsupportedAttribute(t) => StyleErrorView::UnsupportedAttribute(t@),
        }
    }
}

pub open spec fn style_result_view(r: Result<Style, StyleError>) -> Result<StyleView, StyleErrorView> {
    match r {
        Ok(s) => Ok(s@),
        Err(e) => Err(e@),
    }
}

pub open spec fn fill_or_unset(f: Option<FillView>) -> FillView {
    match f {
        Some(x) => x,
        None => unset_fill(),
    }
}

pub open spec fn stroke_or_unset(s: Option<StrokeView>) -> StrokeView {
    match s {
        Some(x) => x,
        None => unset_stroke(),
    }
}

pub open spec fn with_fill(style: StyleView, f: FillView) -> StyleView {
    StyleView { fill: Some(f), stroke: style.stroke }
}

pub open spec fn with_stroke(style: StyleView, s: StrokeView) -> StyleView {
    StyleView { fill: style.fill, stroke: Some(s) }
}

/// The effect of one `name:value` property on a style. The name is matched
/// after lowercasing; so are the keyword values of `fill-rule`,
/// `stroke-linecap` and `stroke-linejoin`.
pub open spec fn apply_property(style: StyleView, key: Seq<char>, value: Seq<char>) -> Result<StyleView, StyleErrorView> {
    let name = lowercase(key);
    let fill = fill_or_unset(style.fill);
    let stroke = stroke_or_unset(style.stroke);
    if name == "fill"@ {
        match svg_color(value) {
            Some((r, g, b)) => Ok(with_fill(style, FillView { color: Some(Color { red: r, green: g, blue: b }), ..fill })),
            None => Err(StyleErrorView::InvalidColor(value)),
        }
    } else if name == "fill-rule"@ {
        let v = lowercase(value);
        if v == "evenodd"@ {
            Ok(with_fill(style, FillView { rule: Some(FillRule::EvenOdd), ..fill }))
        } else if v == "nonzero"@ {
            Ok(with_fill(style, FillView { rule: Some(FillRule::NonZero), ..fill }))
        } else {
            Err(StyleErrorView::InvalidFillRule(key))
        }
    } else if name == "fill-opacity"@ {
        if is_float_text(value) {
            Ok(with_fill(style, FillView { opacity: Some(value), ..fill }))
        } else {
            Err(StyleErrorView::InvalidNumber(value))
        }
    } else if name == "stroke"@ {
        match svg_color(value) {
            Some((r, g, b)) => Ok(with_stroke(style, StrokeView { color: Some(Color { red: r, green: g, blue: b }), ..stroke })),
            None => Err(StyleErrorView::InvalidColor(value)),
        }
    } else if name == "stroke-opacity"@ {
        if is_float_text(value) {
            Ok(with_stroke(style, StrokeView { opacity: Some(value), ..stroke }))
        } else {
            Err(StyleErrorView::InvalidNumber(value))
        }
    } else if name == "stroke-linecap"@ {
        let v = lowercase(value);
        if v == "butt"@ {
            Ok(with_stroke(style, StrokeView { start_cap: Some(LineCap::Butt), end_cap: Some(LineCap::Butt), ..stroke }))
        } else if v == "square"@ {
            Ok(with_stroke(style, StrokeView { start_cap: Some(LineCap::Square), end_cap: Some(LineCap::Square), ..stroke }))
        } else if v == "round"@ {
            Ok(with_stroke(style, StrokeView { start_cap: Some(LineCap::Round), end_cap: Some(LineCap::Round), ..stroke }))
        } else {
            Err(StyleErrorView::InvalidLineCap(key))
        }
    } else if name == "stroke-linejoin"@ {
        let v = lowercase(value);
        if v == "miter"@ {
            Ok(with_stroke(style, StrokeView { line_join: Some(LineJoin::Miter), ..stroke }))
        } else if v == "miterclip"@ {
            Ok(with_stroke(style, StrokeView { line_join: Some(LineJoin::MiterClip), ..stroke }))
        } else if v == "round"@ {
            Ok(with_stroke(style, StrokeView { line_join: Some(LineJoin::Round), ..stroke }))
        } else if v == "bevel"@ {
            Ok(with_stroke(style, StrokeView { line_join: Some(LineJoin::Bevel), ..stroke }))
        } else {
            Err(StyleErrorView::InvalidLineJoin(key))
        }
    } else if name == "stroke-miterlimit"@ {
        if is_float_text(value) {
            Ok(with_stroke(style, StrokeView { miter_limit: Some(value), ..stroke }))
        } else {
            Err(StyleErrorView::InvalidNumber(value))
        }
    } else if name == "stroke-width"@ {
        if svg_length_parses(value) {
            Ok(with_stroke(style, StrokeView { width: Some(value), ..stroke }))
        } else {
            Err(StyleErrorView::InvalidLength(value))
        }
    } else if name == "clip-rule"@ {
        Ok(style)
    } else {
        Err(StyleErrorView::UnsupportedAttribute(key))
    }
}

/// The effect of one declaration: it must split at `:` into exactly a name
/// and a value.
pub open spec fn apply_declaration(style: StyleView, decl: Seq<char>) -> Result<StyleView, StyleErrorView> {
    let kv = split_char(decl, ':');
    if kv.len() != 2 {
        Err(StyleErrorView::MalformedDeclaration(kv[0]))
    } else {
        apply_property(style, kv[0], kv[1])
    }
}

/// The declarations applied one after the other; the first refused one
/// decides the error.
pub open spec fn apply_declarations(style: StyleView, decls: Seq<Seq<char>>) -> Result<StyleView, StyleErrorView>
    decreases decls.len(),
{
    if decls.len() == 0 {
        Ok(style)
    } else {
        match apply_declaration(style, decls[0]) {
            Ok(s) => apply_declarations(s, decls.drop_first()),
            Err(e) => Err(e),
        }
    }
}

/// The style a `style` attribute text denotes: the text without leading and
/// trailing `;`, split at `;` into declarations, applied to an empty style.
pub open spec fn style_from_text(s: Seq<char>) -> Result<StyleView, StyleErrorView> {
    apply_declarations(StyleView { fill: None, stroke: None }, split_char(trim_char(s, ';'), ';'))
}

fn take_fill(f: Option<Fill>) -> (r: Fill)
    ensures
        r@ == fill_or_unset(match f { Some(x) => Some(x@), None => None }),
{
    match f {
        Some(x) => x,
        None => Fill::default(),
    }
}

fn take_stroke(s: Option<Stroke>) -> (r: Stroke)
    ensures
        r@ == stroke_or_unset(match s { Some(x) => Some(x@), None => None }),
{
    match s {
        Some(x) => x,
        None => Stroke::default(),
    }
}

/// Applies one `name:value` property to a style.
pub fn apply_style_property(style: Style, key: &str, value: &str) -> (r: Result<Style, StyleError>)
    ensures
        style_result_view(r) == apply_property(style@, key@, value@),
{
    let ghost sv = style@;
    let name = to_lowercase(key);
    let Style { fill, stroke } = style;
    if str_eq(name.as_str(), "fill") {
        match parse_svg_color(value) {
            Some(c) => Ok(Style { fill: Some(take_fill(fill).with_color(c)), stroke }),
            None => Err(StyleError::InvalidColor(String::from_str(value))),
        }
    } else if str_eq(name.as_str(), "fill-rule") {
        let v = to_lowercase(value);
        if str_eq(v.as_str(), "evenodd") {
            Ok(Style { fill: Some(take_fill(fill).with_rule(FillRule::EvenOdd)), stroke })
        } else if str_eq(v.as_str(), "nonzero") {
            Ok(Style { fill: Some(take_fill(fill).with_rule(FillRule::NonZero)), stroke })
        } else {
            Err(StyleError::InvalidFillRule(String::from_str(key)))
        }
    } else if str_eq(name.as_str(), "fill-opacity") {
        match NumberText::parse(value) {
            Some(n) => Ok(Style { fill: Some(take_fill(fill).with_opacity(n)), stroke }),
            None => Err(StyleError::InvalidNumber(String::from_str(value))),
        }
    } else if str_eq(name.as_str(), "stroke") {
        match parse_svg_color(value) {
            Some(c) => Ok(Style { fill, stroke: Some(take_stroke(stroke).with_color(c)) }),
            None => Err(StyleError::InvalidColor(String::from_str(value))),
        }
    } else if str_eq(name.as_str(), "stroke-opacity") {
        match NumberText::parse(value) {
            Some(n) => Ok(Style { fill, stroke: Some(take_stroke(stroke).with_opacity(n)) }),
            None => Err(StyleError::InvalidNumber(String::from_str(value))),
        }
    } else if str_eq(name.as_str(), "stroke-linecap") {
        let v = to_lowercase(value);
        let cap = if str_eq(v.as_str(), "butt") {
            LineCap::Butt
        } else if str_eq(v.as_str(), "square") {
            LineCap::Square
        } else if str_eq(v.as_str(), "round") {
            LineCap::Round
        } else {
            return Err(StyleError::InvalidLineCap(String::from_str(key)));
        };
        Ok(Style { fill, stroke: Some(take_stroke(stroke).with_start_cap(cap)) })
    } else if str_eq(name.as_str(), "stroke-linejoin") {
        let v = to_lowercase(value);
        let join = if str_eq(v.as_str(), "miter") {
            LineJoin::Miter
        } else if str_eq(v.as_str(), "miterclip") {
            LineJoin::MiterClip
        } else if str_eq(v.as_str(), "round") {
            LineJoin::Round
        } else if str_eq(v.as_str(), "bevel") {
            LineJoin::Bevel
        } else {
            return Err(StyleError::InvalidLineJoin(String::from_str(key)));
        };
        Ok(Style { fill, stroke: Some(take_stroke(stroke).with_line_join(join)) })
    } else if str_eq(name.as_str(), "stroke-miterlimit") {
        match NumberText::parse(value) {
            Some(n) => Ok(Style { fill, stroke: Some(take_stroke(stroke).with_miter_limit(n)) }),
            None => Err(StyleError::InvalidNumber(String::from_str(value))),
        }
    } else if str_eq(name.as_str(), "stroke-width") {
        match LengthText::parse(value) {
            Some(w) => Ok(Style { fill, stroke: Some(take_stroke(stroke).with_width(w)) }),
            None => Err(StyleError::InvalidLength(String::from_str(value))),
        }
    } else if str_eq(name.as_str(), "clip-rule") {
        Ok(Style { fill, stroke })
    } else {
        Err(StyleError::UnsupportedAttribute(String::from_str(key)))
    }
}

/// Applies one declaration (`name:value`) to a style.
pub fn apply_style_declaration(style: Style, decl: &str) -> (r: Result<Style, StyleError>)
    ensures
        style_result_view(r) == apply_declaration(style@, decl@),
{
    let kv = split_at_char(decl, ':');
    proof {
        assert(kv@.map_values(|p: &str| p@)[0] == kv@[0]@);
    }
    if kv.len() != 2 {
        return Err(StyleError::MalformedDeclaration(String::from_str(kv[0])));
    }
    proof {
        assert(kv@.map_values(|p: &str| p@)[1] == kv@[1]@);
    }
    apply_style_property(style, kv[0], kv[1])
}

/// Reads a `style` attribute text such as `fill:#ff0000;stroke-width:2px`:
/// leading and trailing `;` are dropped, the rest is split at `;` into
/// declarations, and each declaration is applied in turn to an empty style.
/// The first declaration that is refused decides the error.
pub fn parse_style(s: &str) -> (r: Result<Style, StyleError>)
    ensures
        style_result_view(r) == style_from_text(s@),
{
    let trimmed = trim_matches_char(s, ';');
    let decls = split_at_char(trimmed, ';');
    let ghost views = decls@.map_values(|p: &str| p@);
    let mut style = Style::default();
    let mut i: usize = 0;
    assert(views.skip(0) =~= views);
    while i < decls.len()
        invariant
            i <= decls@.len(),
            views == decls@.map_values(|p: &str| p@),
            views == split_char(trim_char(s@, ';'), ';'),
            style_from_text(s@) == apply_declarations(style@, views.skip(i as int)),
        decreases decls@.len() - i,
    {
        proof {
            assert(views.skip(i as int)[0] == decls@[i as int]@);
            assert(views.skip(i as int).drop_first() =~= views.skip(i + 1));
        }
        match apply_style_declaration(style, decls[i]) {
            Ok(next) => {
                style = next;
            },
            Err(e) => {
                return Err(e);
            },
        }
        i = i + 1;
    }
    assert(views.skip(i as int) =~= Seq::<Seq<char>>::empty());
    Ok(style)
}

/// Law: overriding is associative, unset settings override nothing, and
/// overriding settings with themselves changes nothing.
pub proof fn law_fill_override(a: FillView, b: FillView, c: FillView)
    ensures
        fill_override(fill_override(a, b), c) == fill_override(a, fill_override(b, c)),
        fill_override(a, unset_fill()) == a,
        fill_override(unset_fill(), a) == a,
        fill_override(a, a) == a,
{
}

/// Law: overriding is associative, unset settings override nothing, and
/// overriding settings with themselves changes nothing.
pub proof fn law_stroke_override(a: StrokeView, b: StrokeView, c: StrokeView)
    ensures
        stroke_override(stroke_override(a, b), c) == stroke_override(a, stroke_override(b, c)),
        stroke_override(a, unset_stroke()) == a,
        stroke_override(unset_stroke(), a) == a,
        stroke_override(a, a) == a,
{
}


/// Fill settings merged: `b`'s set values override `a`'s; a side without
/// fill leaves the other as it is.
pub open spec fn fill_merge(a: Option<FillView>, b: Option<FillView>) -> Option<FillView> {
    match b {
        None => a,
        Some(y) => match a {
            Some(x) => Some(fill_override(x, y)),
            None => Some(y),
        },
    }
}

/// Stroke settings merged like `fill_merge`.
pub open spec fn stroke_merge(a: Option<StrokeView>, b: Option<StrokeView>) -> Option<StrokeView> {
    match b {
        None => a,
        Some(y) => match a {
            Some(x) => Some(stroke_override(x, y)),
            None => Some(y),
        },
    }
}

/// Style `a` overridden by style `b`, fill and stroke each.
pub open spec fn style_override(a: StyleView, b: StyleView) -> StyleView {
    StyleView { fill: fill_merge(a.fill, b.fill), stroke: stroke_merge(a.stroke, b.stroke) }
}

/// A result computed from the empty style, taken as an override of `a`.
pub open spec fn over(a: StyleView, r: Result<StyleView, StyleErrorView>) -> Result<StyleView, StyleErrorView> {
    match r {
        Ok(b) => Ok(style_override(a, b)),
        Err(e) => Err(e),
    }
}

pub open spec fn empty_style() -> StyleView {
    StyleView { fill: None, stroke: None }
}

proof fn lemma_override_assoc(a: StyleView, b: StyleView, c: StyleView)
    ensures
        style_override(style_override(a, b), c) == style_override(a, style_override(b, c)),
        style_override(empty_style(), a) == a,
{
    match (a.fill, b.fill, c.fill) {
        (Some(x), Some(y), Some(z)) => law_fill_override(x, y, z),
        _ => {},
    }
    match (a.stroke, b.stroke, c.stroke) {
        (Some(x), Some(y), Some(z)) => law_stroke_override(x, y, z),
        _ => {},
    }
}

proof fn lemma_property_from_empty(a: StyleView, key: Seq<char>, value: Seq<char>)
    ensures
        apply_property(a, key, value) == over(a, apply_property(empty_style(), key, value)),
{
}

proof fn lemma_declarations_from_empty(a: StyleView, decls: Seq<Seq<char>>)
    ensures
        apply_declarations(a, decls) == over(a, apply_declarations(empty_style(), decls)),
    decreases decls.len(),
{
    if decls.len() > 0 {
        let d = decls[0];
        let kv = split_char(d, ':');
        if kv.len() == 2 {
            lemma_property_from_empty(a, kv[0], kv[1]);
        }
        match apply_declaration(empty_style(), d) {
            Ok(b) => {
                let a2 = style_override(a, b);
                lemma_declarations_from_empty(a2, decls.drop_first());
                lemma_declarations_from_empty(b, decls.drop_first());
                match apply_declarations(empty_style(), decls.drop_first()) {
                    Ok(c) => lemma_override_assoc(a, b, c),
                    Err(_) => {},
                }
            },
            Err(_) => {},
        }
    }
}

proof fn lemma_declarations_concat(a: StyleView, d1: Seq<Seq<char>>, d2: Seq<Seq<char>>)
    ensures
        apply_declarations(a, d1 + d2) == match apply_declarations(a, d1) {
            Ok(b) => apply_declarations(b, d2),
            Err(e) => Err(e),
        },
    decreases d1.len(),
{
    if d1.len() == 0 {
        assert(d1 + d2 =~= d2);
    } else {
        assert((d1 + d2)[0] == d1[0]);
        assert((d1 + d2).drop_first() =~= d1.drop_first() + d2);
        match apply_declaration(a, d1[0]) {
            Ok(b) => lemma_declarations_concat(b, d1.drop_first(), d2),
            Err(_) => {},
        }
    }
}

/// Law: a style text made of two texts joined by `;` denotes the style of
/// the first overridden by the style of the second: later declarations win,
/// the others accumulate. The join is refused exactly when one of the parts
/// is, with the first part's error if it is refused, else the second's.
/// (Each part is non-empty and neither starts nor ends with `;`: an empty
/// part, or a `;` at the joint, would make an empty declaration.)
pub proof fn law_style_join(s1: Seq<char>, s2: Seq<char>)
    requires
        s1.len() > 0,
        s2.len() > 0,
        s1[0] != ';',
        s1.last() != ';',
        s2[0] != ';',
        s2.last() != ';',
    ensures
        style_from_text(s1 + seq![';'] + s2) == match style_from_text(s1) {
            Ok(a) => match style_from_text(s2) {
                Ok(b) => Ok(style_override(a, b)),
                Err(e) => Err(e),
            },
            Err(e) => Err(e),
        },
{
    let j = s1 + seq![';'] + s2;
    assert(j[0] == s1[0]);
    assert(j.last() == s2.last());
    lemma_trim_untouched(j, ';');
    lemma_trim_untouched(s1, ';');
    lemma_trim_untouched(s2, ';');
    lemma_split_joined(s1, s2, ';');
    let d1 = split_char(s1, ';');
    let d2 = split_char(s2, ';');
    lemma_declarations_concat(empty_style(), d1, d2);
    match apply_declarations(empty_style(), d1) {
        Ok(a) => lemma_declarations_from_empty(a, d2),
        Err(_) => {},
    }
}


/// The style of a successful result (unused for an error).
pub open spec fn ok_style(r: Result<StyleView, StyleErrorView>) -> StyleView {
    match r {
        Ok(s) => s,
        Err(_) => empty_style(),
    }
}

/// The stroke settings of `s`'s stroke with the join set to `join` and
/// every other setting kept.
pub open spec fn stroke_with_join(s: StyleView, join: LineJoin) -> StrokeView {
    let old = stroke_or_unset(s.stroke);
    StrokeView {
        color: old.color,
        opacity: old.opacity,
        width: old.width,
        start_cap: old.start_cap,
        end_cap: old.end_cap,
        line_join: Some(join),
        miter_limit: old.miter_limit,
    }
}

/// The stroke settings of `s`'s stroke with both caps set to `cap` and
/// every other setting kept.
pub open spec fn stroke_with_caps(s: StyleView, cap: LineCap) -> StrokeView {
    let old = stroke_or_unset(s.stroke);
    StrokeView {
        color: old.color,
        opacity: old.opacity,
        width: old.width,
        start_cap: Some(cap),
        end_cap: Some(cap),
        line_join: old.line_join,
        miter_limit: old.miter_limit,
    }
}

/// Law: each `stroke-linejoin` keyword (in any letter case) selects the join
/// of the same name, keeps the fill and every other stroke setting; any
/// other keyword is refused with the property's name.
pub proof fn law_linejoin_keywords(s: StyleView, key: Seq<char>, value: Seq<char>)
    requires
        lowercase(key) == "stroke-linejoin"@,
    ensures
        lowercase(value) == "miter"@ ==> apply_property(s, key, value) is Ok
            && ok_style(apply_property(s, key, value)).fill == s.fill
            && ok_style(apply_property(s, key, value)).stroke == Some(stroke_with_join(s, LineJoin::Miter)),
        lowercase(value) == "miterclip"@ ==> apply_property(s, key, value) is Ok
            && ok_style(apply_property(s, key, value)).fill == s.fill
            && ok_style(apply_property(s, key, value)).stroke == Some(stroke_with_join(s, LineJoin::MiterClip)),
        lowercase(value) == "round"@ ==> apply_property(s, key, value) is Ok
            && ok_style(apply_property(s, key, value)).fill == s.fill
            && ok_style(apply_property(s, key, value)).stroke == Some(stroke_with_join(s, LineJoin::Round)),
        lowercase(value) == "bevel"@ ==> apply_property(s, key, value) is Ok
            && ok_style(apply_property(s, key, value)).fill == s.fill
            && ok_style(apply_property(s, key, value)).stroke == Some(stroke_with_join(s, LineJoin::Bevel)),
        lowercase(value) != "miter"@ && lowercase(value) != "miterclip"@ && lowercase(value) != "round"@
            && lowercase(value) != "bevel"@ ==> apply_property(s, key, value) == Err::<StyleView, StyleErrorView>(
            StyleErrorView::InvalidLineJoin(key)),
{
    assert("stroke-linejoin"@ != "fill"@) by {
        reveal_strlit("stroke-linejoin");
        reveal_strlit("fill");
        assert("stroke-linejoin"@.len() != "fill"@.len());
    }
    assert("stroke-linejoin"@ != "fill-rule"@) by {
        reveal_strlit("stroke-linejoin");
        reveal_strlit("fill-rule");
        assert("stroke-linejoin"@.len() != "fill-rule"@.len());
    }
    assert("stroke-linejoin"@ != "fill-opacity"@) by {
        reveal_strlit("stroke-linejoin");
        reveal_strlit("fill-opacity");
        assert("stroke-linejoin"@.len() != "fill-opacity"@.len());
    }
    assert("stroke-linejoin"@ != "stroke"@) by {
        reveal_strlit("stroke-linejoin");
        reveal_strlit("stroke");
        assert("stroke-linejoin"@.len() != "stroke"@.len());
    }
    assert("stroke-linejoin"@ != "stroke-opacity"@) by {
        reveal_strlit("stroke-linejoin");
        reveal_strlit("stroke-opacity");
        assert("stroke-linejoin"@.len() != "stroke-opacity"@.len());
    }
    assert("stroke-linejoin"@ != "stroke-linecap"@) by {
        reveal_strlit("stroke-linejoin");
        reveal_strlit("stroke-linecap");
        assert("stroke-linejoin"@.len() != "stroke-linecap"@.len());
    }
    assert("miterclip"@ != "miter"@) by {
        reveal_strlit("miterclip");
        reveal_strlit("miter");
        assert("miterclip"@.len() != "miter"@.len());
    }
    assert("round"@ != "miter"@) by {
        reveal_strlit("round");
        reveal_strlit("miter");
        assert("round"@[0] != "miter"@[0]);
    }
    assert("round"@ != "miterclip"@) by {
        reveal_strlit("round");
        reveal_strlit("miterclip");
        assert("round"@.len() != "miterclip"@.len());
    }
    assert("bevel"@ != "miter"@) by {
        reveal_strlit("bevel");
        reveal_strlit("miter");
        assert("bevel"@[0] != "miter"@[0]);
    }
    assert("bevel"@ != "miterclip"@) by {
        reveal_strlit("bevel");
        reveal_strlit("miterclip");
        assert("bevel"@.len() != "miterclip"@.len());
    }
    assert("bevel"@ != "round"@) by {
        reveal_strlit("bevel");
        reveal_strlit("round");
        assert("bevel"@[0] != "round"@[0]);
    }
}

/// Law: each `stroke-linecap` keyword (in any letter case) sets the cap of
/// the same name at both ends, keeps the fill and every other stroke
/// setting; any other keyword is refused with the property's name.
pub proof fn law_linecap_keywords(s: StyleView, key: Seq<char>, value: Seq<char>)
    requires
        lowercase(key) == "stroke-linecap"@,
    ensures
        lowercase(value) == "butt"@ ==> apply_property(s, key, value) is Ok
            && ok_style(apply_property(s, key, value)).fill == s.fill
            && ok_style(apply_property(s, key, value)).stroke == Some(stroke_with_caps(s, LineCap::Butt)),
        lowercase(value) == "square"@ ==> apply_property(s, key, value) is Ok
            && ok_style(apply_property(s, key, value)).fill == s.fill
            && ok_style(apply_property(s, key, value)).stroke == Some(stroke_with_caps(s, LineCap::Square)),
        lowercase(value) == "round"@ ==> apply_property(s, key, value) is Ok
            && ok_style(apply_property(s, key, value)).fill == s.fill
            && ok_style(apply_property(s, key, value)).stroke == Some(stroke_with_caps(s, LineCap::Round)),
        lowercase(value) != "butt"@ && lowercase(value) != "square"@ && lowercase(value) != "round"@
            ==> apply_property(s, key, value) == Err::<StyleView, StyleErrorView>(StyleErrorView::InvalidLineCap(key)),
{
    assert("stroke-linecap"@ != "fill"@) by {
        reveal_strlit("stroke-linecap");
        reveal_strlit("fill");
        assert("stroke-linecap"@.len() != "fill"@.len());
    }
    assert("stroke-linecap"@ != "fill-rule"@) by {
        reveal_strlit("stroke-linecap");
        reveal_strlit("fill-rule");
        assert("stroke-linecap"@.len() != "fill-rule"@.len());
    }
    assert("stroke-linecap"@ != "fill-opacity"@) by {
        reveal_strlit("stroke-linecap");
        reveal_strlit("fill-opacity");
        assert("stroke-linecap"@.len() != "fill-opacity"@.len());
    }
    assert("stroke-linecap"@ != "stroke"@) by {
        reveal_strlit("stroke-linecap");
        reveal_strlit("stroke");
        assert("stroke-linecap"@.len() != "stroke"@.len());
    }
    assert("stroke-linecap"@ != "stroke-opacity"@) by {
        reveal_strlit("stroke-linecap");
        reveal_strlit("stroke-opacity");
        assert("stroke-linecap"@[7] != "stroke-opacity"@[7]);
    }
    assert("square"@ != "butt"@) by {
        reveal_strlit("square");
        reveal_strlit("butt");
        assert("square"@.len() != "butt"@.len());
    }
    assert("round"@ != "butt"@) by {
        reveal_strlit("round");
        reveal_strlit("butt");
        assert("round"@.len() != "butt"@.len());
    }
    assert("round"@ != "square"@) by {
        reveal_strlit("round");
        reveal_strlit("square");
        assert("round"@.len() != "square"@.len());
    }
}

/// Law: what each fill property (any letter case in its name and keywords)
/// does to a style: `fill` sets the color the SVG color parser reads,
/// `fill-rule` the rule named by its keyword, `fill-opacity` the opacity
/// when it is a float text; each keeps every other setting and the stroke,
/// and a value they cannot read is refused with the error naming it.
/// `clip-rule` changes nothing; a property of no known name is refused.
pub proof fn law_fill_properties(s: StyleView, key: Seq<char>, value: Seq<char>)
    ensures
        lowercase(key) == "fill"@ && svg_color(value) is Some ==> apply_property(s, key, value) is Ok
            && ok_style(apply_property(s, key, value)).fill is Some
            && ok_style(apply_property(s, key, value)).fill.unwrap().color == Some(Color { red: svg_color(value).unwrap().0, green: svg_color(value).unwrap().1, blue: svg_color(value).unwrap().2 })
            && ok_style(apply_property(s, key, value)).fill.unwrap().opacity == fill_or_unset(s.fill).opacity
            && ok_style(apply_property(s, key, value)).fill.unwrap().rule == fill_or_unset(s.fill).rule
            && ok_style(apply_property(s, key, value)).stroke == s.stroke,
        lowercase(key) == "fill"@ && svg_color(value) is None ==> apply_property(s, key, value) == Err::<StyleView, StyleErrorView>(StyleErrorView::InvalidColor(value)),
        lowercase(key) == "fill-rule"@ && lowercase(value) == "evenodd"@ ==> apply_property(s, key, value) is Ok
            && ok_style(apply_property(s, key, value)).fill is Some
            && ok_style(apply_property(s, key, value)).fill.unwrap().rule == Some(FillRule::EvenOdd)
            && ok_style(apply_property(s, key, value)).fill.unwrap().color == fill_or_unset(s.fill).color
            && ok_style(apply_property(s, key, value)).fill.unwrap().opacity == fill_or_unset(s.fill).opacity
            && ok_style(apply_property(s, key, value)).stroke == s.stroke,
        lowercase(key) == "fill-rule"@ && lowercase(value) == "nonzero"@ ==> apply_property(s, key, value) is Ok
            && ok_style(apply_property(s, key, value)).fill is Some
            && ok_style(apply_property(s, key, value)).fill.unwrap().rule == Some(FillRule::NonZero)
            && ok_style(apply_property(s, key, value)).fill.unwrap().color == fill_or_unset(s.fill).color
            && ok_style(apply_property(s, key, value)).fill.unwrap().opacity == fill_or_unset(s.fill).opacity
            && ok_style(apply_property(s, key, value)).stroke == s.stroke,
        lowercase(key) == "fill-rule"@ && lowercase(value) != "evenodd"@ && lowercase(value) != "nonzero"@
            ==> apply_property(s, key, value) == Err::<StyleView, StyleErrorView>(StyleErrorView::InvalidFillRule(key)),
        lowercase(key) == "fill-opacity"@ && is_float_text(value) ==> apply_property(s, key, value) is Ok
            && ok_style(apply_property(s, key, value)).fill is Some
            && ok_style(apply_property(s, key, value)).fill.unwrap().opacity == Some(value)
            && ok_style(apply_property(s, key, value)).fill.unwrap().color == fill_or_unset(s.fill).color
            && ok_style(apply_property(s, key, value)).fill.unwrap().rule == fill_or_unset(s.fill).rule
            && ok_style(apply_property(s, key, value)).stroke == s.stroke,
        lowercase(key) == "fill-opacity"@ && !is_float_text(value) ==> apply_property(s, key, value) == Err::<StyleView, StyleErrorView>(StyleErrorView::InvalidNumber(value)),
        lowercase(key) == "clip-rule"@ ==> apply_property(s, key, value) == Ok::<StyleView, StyleErrorView>(s),
        lowercase(key) != "fill"@ && lowercase(key) != "fill-rule"@ && lowercase(key) != "fill-opacity"@ && lowercase(key) != "stroke"@ && lowercase(key) != "stroke-opacity"@ && lowercase(key) != "stroke-linecap"@ && lowercase(key) != "stroke-linejoin"@ && lowercase(key) != "stroke-miterlimit"@ && lowercase(key) != "stroke-width"@ && lowercase(key) != "clip-rule"@
            ==> apply_property(s, key, value) == Err::<StyleView, StyleErrorView>(StyleErrorView::UnsupportedAttribute(key)),
{
    assert("fill-rule"@ != "fill"@) by {
        reveal_strlit("fill-rule");
        reveal_strlit("fill");
        assert("fill-rule"@.len() != "fill"@.len());
    }
    assert("fill-opacity"@ != "fill"@) by {
        reveal_strlit("fill-opacity");
        reveal_strlit("fill");
        assert("fill-opacity"@.len() != "fill"@.len());
    }
    assert("fill-opacity"@ != "fill-rule"@) by {
        reveal_strlit("fill-opacity");
        reveal_strlit("fill-rule");
        assert("fill-opacity"@.len() != "fill-rule"@.len());
    }
    assert("stroke"@ != "fill"@) by {
        reveal_strlit("stroke");
        reveal_strlit("fill");
        assert("stroke"@.len() != "fill"@.len());
    }
    assert("stroke"@ != "fill-rule"@) by {
        reveal_strlit("stroke");
        reveal_strlit("fill-rule");
        assert("stroke"@.len() != "fill-rule"@.len());
    }
    assert("stroke"@ != "fill-opacity"@) by {
        reveal_strlit("stroke");
        reveal_strlit("fill-opacity");
        assert("stroke"@.len() != "fill-opacity"@.len());
    }
    assert("stroke-opacity"@ != "fill"@) by {
        reveal_strlit("stroke-opacity");
        reveal_strlit("fill");
        assert("stroke-opacity"@.len() != "fill"@.len());
    }
    assert("stroke-opacity"@ != "fill-rule"@) by {
        reveal_strlit("stroke-opacity");
        reveal_strlit("fill-rule");
        assert("stroke-opacity"@.len() != "fill-rule"@.len());
    }
    assert("stroke-opacity"@ != "fill-opacity"@) by {
        reveal_strlit("stroke-opacity");
        reveal_strlit("fill-opacity");
        assert("stroke-opacity"@.len() != "fill-opacity"@.len());
    }
    assert("stroke-opacity"@ != "stroke"@) by {
        reveal_strlit("stroke-opacity");
        reveal_strlit("stroke");
        assert("stroke-opacity"@.len() != "stroke"@.len());
    }
    assert("stroke-linecap"@ != "fill"@) by {
        reveal_strlit("stroke-linecap");
        reveal_strlit("fill");
        assert("stroke-linecap"@.len() != "fill"@.len());
    }
    assert("stroke-linecap"@ != "fill-rule"@) by {
        reveal_strlit("stroke-linecap");
        reveal_strlit("fill-rule");
        assert("stroke-linecap"@.len() != "fill-rule"@.len());
    }
    assert("stroke-linecap"@ != "fill-opacity"@) by {
        reveal_strlit("stroke-linecap");
        reveal_strlit("fill-opacity");
        assert("stroke-linecap"@.len() != "fill-opacity"@.len());
    }
    assert("stroke-linecap"@ != "stroke"@) by {
        reveal_strlit("stroke-linecap");
        reveal_strlit("stroke");
        assert("stroke-linecap"@.len() != "stroke"@.len());
    }
    assert("stroke-linecap"@ != "stroke-opacity"@) by {
        reveal_strlit("stroke-linecap");
        reveal_strlit("stroke-opacity");
        assert("stroke-linecap"@[7] != "stroke-opacity"@[7]);
    }
    assert("stroke-linejoin"@ != "fill"@) by {
        reveal_strlit("stroke-linejoin");
        reveal_strlit("fill");
        assert("stroke-linejoin"@.len() != "fill"@.len());
    }
    assert("stroke-linejoin"@ != "fill-rule"@) by {
        reveal_strlit("stroke-linejoin");
        reveal_strlit("fill-rule");
        assert("stroke-linejoin"@.len() != "fill-rule"@.len());
    }
    assert("stroke-linejoin"@ != "fill-opacity"@) by {
        reveal_strlit("stroke-linejoin");
        reveal_strlit("fill-opacity");
        assert("stroke-linejoin"@.len() != "fill-opacity"@.len());
    }
    assert("stroke-linejoin"@ != "stroke"@) by {
        reveal_strlit("stroke-linejoin");
        reveal_strlit("stroke");
        assert("stroke-linejoin"@.len() != "stroke"@.len());
    }
    assert("stroke-linejoin"@ != "stroke-opacity"@) by {
        reveal_strlit("stroke-linejoin");
        reveal_strlit("stroke-opacity");
        assert("stroke-linejoin"@.len() != "stroke-opacity"@.len());
    }
    assert("stroke-linejoin"@ != "stroke-linecap"@) by {
        reveal_strlit("stroke-linejoin");
        reveal_strlit("stroke-linecap");
        assert("stroke-linejoin"@.len() != "stroke-linecap"@.len());
    }
    assert("stroke-miterlimit"@ != "fill"@) by {
        reveal_strlit("stroke-miterlimit");
        reveal_strlit("fill");
        assert("stroke-miterlimit"@.len() != "fill"@.len());
    }
    assert("stroke-miterlimit"@ != "fill-rule"@) by {
        reveal_strlit("stroke-miterlimit");
        reveal_strlit("fill-rule");
        assert("stroke-miterlimit"@.len() != "fill-rule"@.len());
    }
    assert("stroke-miterlimit"@ != "fill-opacity"@) by {
        reveal_strlit("stroke-miterlimit");
        reveal_strlit("fill-opacity");
        assert("stroke-miterlimit"@.len() != "fill-opacity"@.len());
    }
    assert("stroke-miterlimit"@ != "stroke"@) by {
        reveal_strlit("stroke-miterlimit");
        reveal_strlit("stroke");
        assert("stroke-miterlimit"@.len() != "stroke"@.len());
    }
    assert("stroke-miterlimit"@ != "stroke-opacity"@) by {
        reveal_strlit("stroke-miterlimit");
        reveal_strlit("stroke-opacity");
        assert("stroke-miterlimit"@.len() != "stroke-opacity"@.len());
    }
    assert("stroke-miterlimit"@ != "stroke-linecap"@) by {
        reveal_strlit("stroke-miterlimit");
        reveal_strlit("stroke-linecap");
        assert("stroke-miterlimit"@.len() != "stroke-linecap"@.len());
    }
    assert("stroke-miterlimit"@ != "stroke-linejoin"@) by {
        reveal_strlit("stroke-miterlimit");
        reveal_strlit("stroke-linejoin");
        assert("stroke-miterlimit"@.len() != "stroke-linejoin"@.len());
    }
    assert("stroke-width"@ != "fill"@) by {
        reveal_strlit("stroke-width");
        reveal_strlit("fill");
        assert("stroke-width"@.len() != "fill"@.len());
    }
    assert("stroke-width"@ != "fill-rule"@) by {
        reveal_strlit("stroke-width");
        reveal_strlit("fill-rule");
        assert("stroke-width"@.len() != "fill-rule"@.len());
    }
    assert("stroke-width"@ != "fill-opacity"@) by {
        reveal_strlit("stroke-width");
        reveal_strlit("fill-opacity");
        assert("stroke-width"@[0] != "fill-opacity"@[0]);
    }
    assert("stroke-width"@ != "stroke"@) by {
        reveal_strlit("stroke-width");
        reveal_strlit("stroke");
        assert("stroke-width"@.len() != "stroke"@.len());
    }
    assert("stroke-width"@ != "stroke-opacity"@) by {
        reveal_strlit("stroke-width");
        reveal_strlit("stroke-opacity");
        assert("stroke-width"@.len() != "stroke-opacity"@.len());
    }
    assert("stroke-width"@ != "stroke-linecap"@) by {
        reveal_strlit("stroke-width");
        reveal_strlit("stroke-linecap");
        assert("stroke-width"@.len() != "stroke-linecap"@.len());
    }
    assert("stroke-width"@ != "stroke-linejoin"@) by {
        reveal_strlit("stroke-width");
        reveal_strlit("stroke-linejoin");
        assert("stroke-width"@.len() != "stroke-linejoin"@.len());
    }
    assert("stroke-width"@ != "stroke-miterlimit"@) by {
        reveal_strlit("stroke-width");
        reveal_strlit("stroke-miterlimit");
        assert("stroke-width"@.len() != "stroke-miterlimit"@.len());
    }
    assert("clip-rule"@ != "fill"@) by {
        reveal_strlit("clip-rule");
        reveal_strlit("fill");
        assert("clip-rule"@.len() != "fill"@.len());
    }
    assert("clip-rule"@ != "fill-rule"@) by {
        reveal_strlit("clip-rule");
        reveal_strlit("fill-rule");
        assert("clip-rule"@[0] != "fill-rule"@[0]);
    }
    assert("clip-rule"@ != "fill-opacity"@) by {
        reveal_strlit("clip-rule");
        reveal_strlit("fill-opacity");
        assert("clip-rule"@.len() != "fill-opacity"@.len());
    }
    assert("clip-rule"@ != "stroke"@) by {
        reveal_strlit("clip-rule");
        reveal_strlit("stroke");
        assert("clip-rule"@.len() != "stroke"@.len());
    }
    assert("clip-rule"@ != "stroke-opacity"@) by {
        reveal_strlit("clip-rule");
        reveal_strlit("stroke-opacity");
        assert("clip-rule"@.len() != "stroke-opacity"@.len());
    }
    assert("clip-rule"@ != "stroke-linecap"@) by {
        reveal_strlit("clip-rule");
        reveal_strlit("stroke-linecap");
        assert("clip-rule"@.len() != "stroke-linecap"@.len());
    }
    assert("clip-rule"@ != "stroke-linejoin"@) by {
        reveal_strlit("clip-rule");
        reveal_strlit("stroke-linejoin");
        assert("clip-rule"@.len() != "stroke-linejoin"@.len());
    }
    assert("clip-rule"@ != "stroke-miterlimit"@) by {
        reveal_strlit("clip-rule");
        reveal_strlit("stroke-miterlimit");
        assert("clip-rule"@.len() != "stroke-miterlimit"@.len());
    }
    assert("clip-rule"@ != "stroke-width"@) by {
        reveal_strlit("clip-rule");
        reveal_strlit("stroke-width");
        assert("clip-rule"@.len() != "stroke-width"@.len());
    }
    assert("nonzero"@ != "evenodd"@) by {
        reveal_strlit("nonzero");
        reveal_strlit("evenodd");
        assert("nonzero"@[0] != "evenodd"@[0]);
    }
}

/// Law: what each stroke property (any letter case in its name) does to a
/// style: `stroke` sets the color the SVG color parser reads, the opacity
/// and miter limit take a float text, the width a text the SVG length
/// parser reads; each keeps every other setting and the fill, and a value
/// they cannot read is refused with the error naming it.
pub proof fn law_stroke_properties(s: StyleView, key: Seq<char>, value: Seq<char>)
    ensures
        lowercase(key) == "stroke"@ && svg_color(value) is Some ==> apply_property(s, key, value) is Ok
            && ok_style(apply_property(s, key, value)).stroke is Some
            && ok_style(apply_property(s, key, value)).stroke.unwrap().color == Some(Color { red: svg_color(value).unwrap().0, green: svg_color(value).unwrap().1, blue: svg_color(value).unwrap().2 })
            && ok_style(apply_property(s, key, value)).stroke.unwrap().opacity == stroke_or_unset(s.stroke).opacity
            && ok_style(apply_property(s, key, value)).stroke.unwrap().width == stroke_or_unset(s.stroke).width
            && ok_style(apply_property(s, key, value)).stroke.unwrap().start_cap == stroke_or_unset(s.stroke).start_cap
            && ok_style(apply_property(s, key, value)).stroke.unwrap().end_cap == stroke_or_unset(s.stroke).end_cap
            && ok_style(apply_property(s, key, value)).stroke.unwrap().line_join == stroke_or_unset(s.stroke).line_join
            && ok_style(apply_property(s, key, value)).stroke.unwrap().miter_limit == stroke_or_unset(s.stroke).miter_limit
            && ok_style(apply_property(s, key, value)).fill == s.fill,
        lowercase(key) == "stroke"@ && svg_color(value) is None ==> apply_property(s, key, value) == Err::<StyleView, StyleErrorView>(StyleErrorView::InvalidColor(value)),
        lowercase(key) == "stroke-opacity"@ && is_float_text(value) ==> apply_property(s, key, value) is Ok
            && ok_style(apply_property(s, key, value)).stroke is Some
            && ok_style(apply_property(s, key, value)).stroke.unwrap().opacity == Some(value)
            && ok_style(apply_property(s, key, value)).stroke.unwrap().color == stroke_or_unset(s.stroke).color
            && ok_style(apply_property(s, key, value)).stroke.unwrap().width == stroke_or_unset(s.stroke).width
            && ok_style(apply_property(s, key, value)).stroke.unwrap().start_cap == stroke_or_unset(s.stroke).start_cap
            && ok_style(apply_property(s, key, value)).stroke.unwrap().end_cap == stroke_or_unset(s.stroke).end_cap
            && ok_style(apply_property(s, key, value)).stroke.unwrap().line_join == stroke_or_unset(s.stroke).line_join
            && ok_style(apply_property(s, key, value)).stroke.unwrap().miter_limit == stroke_or_unset(s.stroke).miter_limit
            && ok_style(apply_property(s, key, value)).fill == s.fill,
        lowercase(key) == "stroke-opacity"@ && !is_float_text(value) ==> apply_property(s, key, value) == Err::<StyleView, StyleErrorView>(StyleErrorView::InvalidNumber(value)),
        lowercase(key) == "stroke-miterlimit"@ && is_float_text(value) ==> apply_property(s, key, value) is Ok
            && ok_style(apply_property(s, key, value)).stroke is Some
            && ok_style(apply_property(s, key, value)).stroke.unwrap().miter_limit == Some(value)
            && ok_style(apply_property(s, key, value)).stroke.unwrap().color == stroke_or_unset(s.stroke).color
            && ok_style(apply_property(s, key, value)).stroke.unwrap().opacity == stroke_or_unset(s.stroke).opacity
            && ok_style(apply_property(s, key, value)).stroke.unwrap().width == stroke_or_unset(s.stroke).width
            && ok_style(apply_property(s, key, value)).stroke.unwrap().start_cap == stroke_or_unset(s.stroke).start_cap
            && ok_style(apply_property(s, key, value)).stroke.unwrap().end_cap == stroke_or_unset(s.stroke).end_cap
            && ok_style(apply_property(s, key, value)).stroke.unwrap().line_join == stroke_or_unset(s.stroke).line_join
            && ok_style(apply_property(s, key, value)).fill == s.fill,
        lowercase(key) == "stroke-miterlimit"@ && !is_float_text(value) ==> apply_property(s, key, value) == Err::<StyleView, StyleErrorView>(StyleErrorView::InvalidNumber(value)),
        lowercase(key) == "stroke-width"@ && svg_length_parses(value) ==> apply_property(s, key, value) is Ok
            && ok_style(apply_property(s, key, value)).stroke is Some
            && ok_style(apply_property(s, key, value)).stroke.unwrap().width == Some(value)
            && ok_style(apply_property(s, key, value)).stroke.unwrap().color == stroke_or_unset(s.stroke).color
            && ok_style(apply_property(s, key, value)).stroke.unwrap().opacity == stroke_or_unset(s.stroke).opacity
            && ok_style(apply_property(s, key, value)).stroke.unwrap().start_cap == stroke_or_unset(s.stroke).start_cap
            && ok_style(apply_property(s, key, value)).stroke.unwrap().end_cap == stroke_or_unset(s.stroke).end_cap
            && ok_style(apply_property(s, key, value)).stroke.unwrap().line_join == stroke_or_unset(s.stroke).line_join
            && ok_style(apply_property(s, key, value)).stroke.unwrap().miter_limit == stroke_or_unset(s.stroke).miter_limit
            && ok_style(apply_property(s, key, value)).fill == s.fill,
        lowercase(key) == "stroke-width"@ && !svg_length_parses(value) ==> apply_property(s, key, value) == Err::<StyleView, StyleErrorView>(StyleErrorView::InvalidLength(value)),
{
    assert("fill-rule"@ != "fill"@) by {
        reveal_strlit("fill-rule");
        reveal_strlit("fill");
        assert("fill-rule"@.len() != "fill"@.len());
    }
    assert("fill-opacity"@ != "fill"@) by {
        reveal_strlit("fill-opacity");
        reveal_strlit("fill");
        assert("fill-opacity"@.len() != "fill"@.len());
    }
    assert("fill-opacity"@ != "fill-rule"@) by {
        reveal_strlit("fill-opacity");
        reveal_strlit("fill-rule");
        assert("fill-opacity"@.len() != "fill-rule"@.len());
    }
    assert("stroke"@ != "fill"@) by {
        reveal_strlit("stroke");
        reveal_strlit("fill");
        assert("stroke"@.len() != "fill"@.len());
    }
    assert("stroke"@ != "fill-rule"@) by {
        reveal_strlit("stroke");
        reveal_strlit("fill-rule");
        assert("stroke"@.len() != "fill-rule"@.len());
    }
    assert("stroke"@ != "fill-opacity"@) by {
        reveal_strlit("stroke");
        reveal_strlit("fill-opacity");
        assert("stroke"@.len() != "fill-opacity"@.len());
    }
    assert("stroke-opacity"@ != "fill"@) by {
        reveal_strlit("stroke-opacity");
        reveal_strlit("fill");
        assert("stroke-opacity"@.len() != "fill"@.len());
    }
    assert("stroke-opacity"@ != "fill-rule"@) by {
        reveal_strlit("stroke-opacity");
        reveal_strlit("fill-rule");
        assert("stroke-opacity"@.len() != "fill-rule"@.len());
    }
    assert("stroke-opacity"@ != "fill-opacity"@) by {
        reveal_strlit("stroke-opacity");
        reveal_strlit("fill-opacity");
        assert("stroke-opacity"@.len() != "fill-opacity"@.len());
    }
    assert("stroke-opacity"@ != "stroke"@) by {
        reveal_strlit("stroke-opacity");
        reveal_strlit("stroke");
        assert("stroke-opacity"@.len() != "stroke"@.len());
    }
    assert("stroke-linecap"@ != "fill"@) by {
        reveal_strlit("stroke-linecap");
        reveal_strlit("fill");
        assert("stroke-linecap"@.len() != "fill"@.len());
    }
    assert("stroke-linecap"@ != "fill-rule"@) by {
        reveal_strlit("stroke-linecap");
        reveal_strlit("fill-rule");
        assert("stroke-linecap"@.len() != "fill-rule"@.len());
    }
    assert("stroke-linecap"@ != "fill-opacity"@) by {
        reveal_strlit("stroke-linecap");
        reveal_strlit("fill-opacity");
        assert("stroke-linecap"@.len() != "fill-opacity"@.len());
    }
    assert("stroke-linecap"@ != "stroke"@) by {
        reveal_strlit("stroke-linecap");
        reveal_strlit("stroke");
        assert("stroke-linecap"@.len() != "stroke"@.len());
    }
    assert("stroke-linecap"@ != "stroke-opacity"@) by {
        reveal_strlit("stroke-linecap");
        reveal_strlit("stroke-opacity");
        assert("stroke-linecap"@[7] != "stroke-opacity"@[7]);
    }
    assert("stroke-linejoin"@ != "fill"@) by {
        reveal_strlit("stroke-linejoin");
        reveal_strlit("fill");
        assert("stroke-linejoin"@.len() != "fill"@.len());
    }
    assert("stroke-linejoin"@ != "fill-rule"@) by {
        reveal_strlit("stroke-linejoin");
        reveal_strlit("fill-rule");
        assert("stroke-linejoin"@.len() != "fill-rule"@.len());
    }
    assert("stroke-linejoin"@ != "fill-opacity"@) by {
        reveal_strlit("stroke-linejoin");
        reveal_strlit("fill-opacity");
        assert("stroke-linejoin"@.len() != "fill-opacity"@.len());
    }
    assert("stroke-linejoin"@ != "stroke"@) by {
        reveal_strlit("stroke-linejoin");
        reveal_strlit("stroke");
        assert("stroke-linejoin"@.len() != "stroke"@.len());
    }
    assert("stroke-linejoin"@ != "stroke-opacity"@) by {
        reveal_strlit("stroke-linejoin");
        reveal_strlit("stroke-opacity");
        assert("stroke-linejoin"@.len() != "stroke-opacity"@.len());
    }
    assert("stroke-linejoin"@ != "stroke-linecap"@) by {
        reveal_strlit("stroke-linejoin");
        reveal_strlit("stroke-linecap");
        assert("stroke-linejoin"@.len() != "stroke-linecap"@.len());
    }
    assert("stroke-miterlimit"@ != "fill"@) by {
        reveal_strlit("stroke-miterlimit");
        reveal_strlit("fill");
        assert("stroke-miterlimit"@.len() != "fill"@.len());
    }
    assert("stroke-miterlimit"@ != "fill-rule"@) by {
        reveal_strlit("stroke-miterlimit");
        reveal_strlit("fill-rule");
        assert("stroke-miterlimit"@.len() != "fill-rule"@.len());
    }
    assert("stroke-miterlimit"@ != "fill-opacity"@) by {
        reveal_strlit("stroke-miterlimit");
        reveal_strlit("fill-opacity");
        assert("stroke-miterlimit"@.len() != "fill-opacity"@.len());
    }
    assert("stroke-miterlimit"@ != "stroke"@) by {
        reveal_strlit("stroke-miterlimit");
        reveal_strlit("stroke");
        assert("stroke-miterlimit"@.len() != "stroke"@.len());
    }
    assert("stroke-miterlimit"@ != "stroke-opacity"@) by {
        reveal_strlit("stroke-miterlimit");
        reveal_strlit("stroke-opacity");
        assert("stroke-miterlimit"@.len() != "stroke-opacity"@.len());
    }
    assert("stroke-miterlimit"@ != "stroke-linecap"@) by {
        reveal_strlit("stroke-miterlimit");
        reveal_strlit("stroke-linecap");
        assert("stroke-miterlimit"@.len() != "stroke-linecap"@.len());
    }
    assert("stroke-miterlimit"@ != "stroke-linejoin"@) by {
        reveal_strlit("stroke-miterlimit");
        reveal_strlit("stroke-linejoin");
        assert("stroke-miterlimit"@.len() != "stroke-linejoin"@.len());
    }
    assert("stroke-width"@ != "fill"@) by {
        reveal_strlit("stroke-width");
        reveal_strlit("fill");
        assert("stroke-width"@.len() != "fill"@.len());
    }
    assert("stroke-width"@ != "fill-rule"@) by {
        reveal_strlit("stroke-width");
        reveal_strlit("fill-rule");
        assert("stroke-width"@.len() != "fill-rule"@.len());
    }
    assert("stroke-width"@ != "fill-opacity"@) by {
        reveal_strlit("stroke-width");
        reveal_strlit("fill-opacity");
        assert("stroke-width"@[0] != "fill-opacity"@[0]);
    }
    assert("stroke-width"@ != "stroke"@) by {
        reveal_strlit("stroke-width");
        reveal_strlit("stroke");
        assert("stroke-width"@.len() != "stroke"@.len());
    }
    assert("stroke-width"@ != "stroke-opacity"@) by {
        reveal_strlit("stroke-width");
        reveal_strlit("stroke-opacity");
        assert("stroke-width"@.len() != "stroke-opacity"@.len());
    }
    assert("stroke-width"@ != "stroke-linecap"@) by {
        reveal_strlit("stroke-width");
        reveal_strlit("stroke-linecap");
        assert("stroke-width"@.len() != "stroke-linecap"@.len());
    }
    assert("stroke-width"@ != "stroke-linejoin"@) by {
        reveal_strlit("stroke-width");
        reveal_strlit("stroke-linejoin");
        assert("stroke-width"@.len() != "stroke-linejoin"@.len());
    }
    assert("stroke-width"@ != "stroke-miterlimit"@) by {
        reveal_strlit("stroke-width");
        reveal_strlit("stroke-miterlimit");
        assert("stroke-width"@.len() != "stroke-miterlimit"@.len());
    }
    assert("clip-rule"@ != "fill"@) by {
        reveal_strlit("clip-rule");
        reveal_strlit("fill");
        assert("clip-rule"@.len() != "fill"@.len());
    }
    assert("clip-rule"@ != "fill-rule"@) by {
        reveal_strlit("clip-rule");
        reveal_strlit("fill-rule");
        assert("clip-rule"@[0] != "fill-rule"@[0]);
    }
    assert("clip-rule"@ != "fill-opacity"@) by {
        reveal_strlit("clip-rule");
        reveal_strlit("fill-opacity");
        assert("clip-rule"@.len() != "fill-opacity"@.len());
    }
    assert("clip-rule"@ != "stroke"@) by {
        reveal_strlit("clip-rule");
        reveal_strlit("stroke");
        assert("clip-rule"@.len() != "stroke"@.len());
    }
    assert("clip-rule"@ != "stroke-opacity"@) by {
        reveal_strlit("clip-rule");
        reveal_strlit("stroke-opacity");
        assert("clip-rule"@.len() != "stroke-opacity"@.len());
    }
    assert("clip-rule"@ != "stroke-linecap"@) by {
        reveal_strlit("clip-rule");
        reveal_strlit("stroke-linecap");
        assert("clip-rule"@.len() != "stroke-linecap"@.len());
    }
    assert("clip-rule"@ != "stroke-linejoin"@) by {
        reveal_strlit("clip-rule");
        reveal_strlit("stroke-linejoin");
        assert("clip-rule"@.len() != "stroke-linejoin"@.len());
    }
    assert("clip-rule"@ != "stroke-miterlimit"@) by {
        reveal_strlit("clip-rule");
        reveal_strlit("stroke-miterlimit");
        assert("clip-rule"@.len() != "stroke-miterlimit"@.len());
    }
    assert("clip-rule"@ != "stroke-width"@) by {
        reveal_strlit("clip-rule");
        reveal_strlit("stroke-width");
        assert("clip-rule"@.len() != "stroke-width"@.len());
    }
}

/// Law: a declaration `name:value` (neither part holding `:`) has the effect
/// of its property; a declaration without `:` is refused as malformed,
/// carrying the whole declaration.
pub proof fn law_declaration(s: StyleView, name: Seq<char>, value: Seq<char>, bare: Seq<char>)
    ensures
        (forall|k: int| 0 <= k < name.len() ==> name[k] != ':') && (forall|k: int| 0 <= k < value.len() ==> value[k] != ':')
            ==> apply_declaration(s, name + seq![':'] + value) == apply_property(s, name, value),
        (forall|k: int| 0 <= k < bare.len() ==> bare[k] != ':')
            ==> apply_declaration(s, bare) == Err::<StyleView, StyleErrorView>(StyleErrorView::MalformedDeclaration(bare)),
{
    if (forall|k: int| 0 <= k < name.len() ==> name[k] != ':') && (forall|k: int| 0 <= k < value.len() ==> value[k] != ':') {
        lemma_split_joined(name, value, ':');
        lemma_split_without_sep(name, ':');
        lemma_split_without_sep(value, ':');
        assert(seq![name] + seq![value] =~= seq![name, value]);
    }
    if forall|k: int| 0 <= k < bare.len() ==> bare[k] != ':' {
        lemma_split_without_sep(bare, ':');
    }
}

} // verus!
