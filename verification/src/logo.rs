//! The emblem as a whole.
//!
//! An emblem is a canvas filled with the background colour, a hexagon in the
//! foreground colour standing in its middle, five strokes in the background
//! colour inside the hexagon, and any labels, in this order: what comes later
//! is drawn over what comes earlier.

use crate::decimal::decimal1;
use crate::fixed::{half, halve, lemma_scaled_bound, magnitude, scale, scaled, UNIT};
use crate::geometry::{
    apothem, create_path_points, decoration, decoration_offset_coeff, decoration_segments,
    hexagon, is_bounding_box, lemma_apothem, lemma_apothem_strictly_increases,
    lemma_bounding_box_unique, lemma_decoration_within, lemma_hexagon_bounding_box,
    lemma_hexagon_within, offset_coeff, point_within, strictly_inside, stroke_fits,
    stroke_within, strokes_fit, Extent, Point, Position, Segment,
};
use crate::markup::{
    add_child, element_text, markup_of, markup_text, new_element, set_attribute, Markup,
};
use crate::palette::{Palette, PaletteView};
use crate::root::{is_floor_sqrt, lemma_floor_sqrt_is};
use crate::shapes::{
    create_svg_line, create_svg_path, create_svg_rect, create_svg_text, line_markup, path_markup,
    rect_markup, set_decimal1, text_markup, Font, FontView,
};
use domrs::HtmlElement;
use vstd::prelude::*;

verus! {

/// The largest magnitude, a million units, that a width, a height or a
/// radius coefficient of an emblem may have: within it no coordinate of the
/// emblem leaves the range of an `i64`.
pub const MAX_EXTENT: i64 = 1_000_000_000_000;

/// A line of text on the emblem.
#[derive(Clone, Debug, PartialEq, Eq)]
pub struct Label {
    pub x: i64,
    pub y: i64,
    pub content: String,
    pub font: Font,
    pub fill: String,
    pub stroke: String,
}

/// What a label says, as mathematics sees it.
pub struct LabelView {
    pub at: Position,
    pub content: Seq<char>,
    pub font: FontView,
    pub fill: Seq<char>,
    pub stroke: Seq<char>,
}

impl View for Label {
    type V = LabelView;

    open spec fn view(&self) -> LabelView {
        LabelView {
            at: Position { x: self.x as int, y: self.y as int },
            content: self.content@,
            font: self.font@,
            fill: self.fill@,
            stroke: self.stroke@,
        }
    }
}

impl DeepView for Label {
    type V = LabelView;

    open spec fn deep_view(&self) -> LabelView {
        self@
    }
}

/// The smaller of two quantities.
pub open spec fn lesser(a: int, b: int) -> int {
    if a < b {
        a
    } else {
        b
    }
}

/// The circumradius of the hexagon: the given share of half the canvas's
/// smaller side.
pub open spec fn logo_radius(width: int, height: int, radius_coeff: int) -> int {
    scaled(lesser(half(width), half(height)), radius_coeff)
}

/// The vertices of the hexagon, which stands in the middle of the canvas.
pub open spec fn logo_vertices(width: int, height: int, radius_coeff: int) -> Seq<Position> {
    hexagon(half(width), half(height), logo_radius(width, height, radius_coeff))
}

/// The root element of an emblem, still without children.
pub open spec fn frame_markup(width: int, height: int) -> Markup {
    Markup::leaf(
        "svg"@,
        seq![
            ("width"@, decimal1(width)),
            ("height"@, decimal1(height)),
            ("xmlns"@, "http://www.w3.org/2000/svg"@),
        ],
    )
}

/// One of the inner strokes as an element.
pub open spec fn stroke_markup(s: (Position, Position), colour: Seq<char>, width: int) -> Markup {
    line_markup(s.0, s.1, colour, width)
}

/// The shapes of an emblem from the bottom up: canvas, hexagon, strokes.
pub open spec fn artwork(
    width: int,
    height: int,
    line_width: int,
    palette: PaletteView,
    radius_coeff: int,
) -> Seq<Markup> {
    let v = logo_vertices(width, height, radius_coeff);
    let s = decoration(v, offset_coeff(v));
    seq![
        rect_markup(0, 0, width, height, palette.background),
        path_markup(v, palette.foreground),
        stroke_markup(s[0], palette.background, line_width),
        stroke_markup(s[1], palette.background, line_width),
        stroke_markup(s[2], palette.background, line_width),
        stroke_markup(s[3], palette.background, line_width),
        stroke_markup(s[4], palette.background, line_width),
    ]
}

/// A label as an element.
pub open spec fn label_markup(l: LabelView) -> Markup {
    text_markup(l.at, l.content, l.font, l.fill, l.stroke)
}

/// An emblem: the root element with the artwork and then the labels, in the
/// order given, as its children.
pub open spec fn logo_markup(
    width: int,
    height: int,
    line_width: int,
    palette: PaletteView,
    radius_coeff: int,
    labels: Seq<LabelView>,
) -> Markup {
    Markup {
        children: artwork(width, height, line_width, palette, radius_coeff) + labels.map_values(
            |l: LabelView| label_markup(l),
        ),
        ..frame_markup(width, height)
    }
}

/// Whether `v` is within the magnitude allowed to the measures of an emblem.
pub open spec fn within_extent(v: int) -> bool {
    magnitude(v) <= MAX_EXTENT
}

/// Within the allowed magnitudes the radius is at most half a million
/// million units long.
pub proof fn lemma_radius_bound(width: int, height: int, radius_coeff: int)
    requires
        within_extent(width),
        within_extent(height),
        within_extent(radius_coeff),
    ensures
        magnitude(half(width)) <= 500_000_000_000,
        magnitude(half(height)) <= 500_000_000_000,
        magnitude(logo_radius(width, height, radius_coeff)) <= 500_000_000_000_000_000,
{
    let m: int = lesser(half(width), half(height));
    lemma_scaled_bound(m, radius_coeff, 1_000_000);
    assert(magnitude(m) * 1_000_000 <= 500_000_000_000 * 1_000_000) by (nonlinear_arith)
        requires
            magnitude(m) <= 500_000_000_000,
    ;
}

/// Within the allowed magnitudes every coordinate of the artwork can be
/// held in an `i64`: the vertices, the stroke unit and the strokes.
pub proof fn lemma_artwork_fits(width: int, height: int, radius_coeff: int)
    requires
        within_extent(width),
        within_extent(height),
        within_extent(radius_coeff),
    ensures
        logo_vertices(width, height, radius_coeff).len() == 6,
        forall|i: int|
            0 <= i < 6 ==> point_within(
                #[trigger] logo_vertices(width, height, radius_coeff)[i],
                500_000_500_000_000_000,
            ),
        magnitude(offset_coeff(logo_vertices(width, height, radius_coeff)))
            <= 500_000_000_000_000_000,
        strokes_fit(
            decoration(
                logo_vertices(width, height, radius_coeff),
                offset_coeff(logo_vertices(width, height, radius_coeff)),
            ),
        ),
{
    let r: int = logo_radius(width, height, radius_coeff);
    let v: Seq<Position> = logo_vertices(width, height, radius_coeff);
    let c: int = offset_coeff(v);
    let d: Seq<(Position, Position)> = decoration(v, c);
    lemma_radius_bound(width, height, radius_coeff);
    lemma_hexagon_within(
        half(width),
        half(height),
        r,
        500_000_000_000,
        500_000_000_000_000_000,
    );
    lemma_decoration_within(v, c, 500_000_500_000_000_000);
    assert forall|i: int| 0 <= i < d.len() implies stroke_fits(#[trigger] d[i]) by {
        assert(stroke_within(d[i], 500_000_500_000_000_000 + magnitude(c) + 2 * UNIT));
    }
}

/// The apothems of the radii of two, three, four and five millionths.
proof fn lemma_least_apothems()
    ensures
        apothem(2) == 1,
        apothem(3) == 2,
        apothem(4) == 3,
        apothem(5) == 4,
{
    assert(is_floor_sqrt(1, 3));
    assert(is_floor_sqrt(2, 6));
    assert(is_floor_sqrt(3, 12));
    assert(is_floor_sqrt(4, 18));
    lemma_floor_sqrt_is(3, 1);
    lemma_floor_sqrt_is(6, 2);
    lemma_floor_sqrt_is(12, 3);
    lemma_floor_sqrt_is(18, 4);
}

/// Nine tenths of a length of four millionths or more are longer than seven
/// tenths of it, and so is the apothem that goes with them.
proof fn lemma_nine_tenths_exceed_seven(m: int)
    requires
        4 <= m,
    ensures
        0 <= scaled(m, 700_000) < scaled(m, 900_000),
        0 <= apothem(scaled(m, 700_000)) < apothem(scaled(m, 900_000)),
{
    let small: int = scaled(m, 700_000);
    let large: int = scaled(m, 900_000);
    assert(small == (m * 700_000) / 1_000_000);
    assert(large == (m * 900_000) / 1_000_000);
    lemma_apothem(small);
    if m >= 7 {
        assert(small + 2 <= large);
        lemma_apothem_strictly_increases(small, large);
    } else {
        lemma_least_apothems();
    }
}

/// On a canvas whose smaller half-side is four millionths long or longer,
/// the hexagon at nine tenths has the longer radius and the longer apothem
/// than the hexagon at seven tenths.
proof fn lemma_radii_ordered(width: int, height: int)
    requires
        magnitude(lesser(half(width), half(height))) >= 4,
    ensures
        magnitude(logo_radius(width, height, 700_000)) < magnitude(
            logo_radius(width, height, 900_000),
        ),
        magnitude(apothem(logo_radius(width, height, 700_000))) < magnitude(
            apothem(logo_radius(width, height, 900_000)),
        ),
{
    let m: int = lesser(half(width), half(height));
    let r9: int = logo_radius(width, height, 900_000);
    let r7: int = logo_radius(width, height, 700_000);
    lemma_nine_tenths_exceed_seven(magnitude(m));
    lemma_scaled_bound(m, 900_000, 1);
    lemma_scaled_bound(m, 700_000, 1);
    lemma_apothem(r9);
    lemma_apothem(r7);
    if m < 0 {
        assert(r9 == -scaled(-m, 900_000));
        assert(r7 == -scaled(-m, 700_000));
        lemma_apothem(-r9);
        lemma_apothem(-r7);
    }
}

/// The children of an emblem are its seven shapes and then its labels, each
/// in its place.
pub proof fn lemma_logo_children(
    width: int,
    height: int,
    line_width: int,
    palette: PaletteView,
    radius_coeff: int,
    labels: Seq<LabelView>,
)
    ensures
        artwork(width, height, line_width, palette, radius_coeff).len() == 7,
        logo_markup(width, height, line_width, palette, radius_coeff, labels).children.len() == 7
            + labels.len(),
        forall|i: int|
            0 <= i < 7 ==> #[trigger] logo_markup(
                width,
                height,
                line_width,
                palette,
                radius_coeff,
                labels,
            ).children[i] == artwork(width, height, line_width, palette, radius_coeff)[i],
        forall|i: int|
            0 <= i < labels.len() ==> logo_markup(
                width,
                height,
                line_width,
                palette,
                radius_coeff,
                labels,
            ).children[7 + i] == label_markup(#[trigger] labels[i]),
{
    let shapes: Seq<Markup> = artwork(width, height, line_width, palette, radius_coeff);
    let texts: Seq<Markup> = labels.map_values(|l: LabelView| label_markup(l));
    let children: Seq<Markup> = logo_markup(
        width,
        height,
        line_width,
        palette,
        radius_coeff,
        labels,
    ).children;
    assert(shapes.len() == 7);
    assert(children == shapes + texts);
    assert forall|i: int| 0 <= i < 7 implies #[trigger] children[i] == shapes[i] by {}
    assert forall|i: int| 0 <= i < labels.len() implies children[7 + i] == label_markup(
        #[trigger] labels[i],
    ) by {
        assert(children[7 + i] == texts[i]);
    }
}

/// The root element and the rectangle of an emblem do not depend on the
/// radius coefficient.
proof fn lemma_canvas_apart_from_radius(
    width: int,
    height: int,
    line_width: int,
    palette: PaletteView,
    radius_coeff: int,
    labels: Seq<LabelView>,
)
    ensures
        logo_markup(width, height, line_width, palette, radius_coeff, labels).name == "svg"@,
        logo_markup(width, height, line_width, palette, radius_coeff, labels).attributes
            == frame_markup(width, height).attributes,
        logo_markup(width, height, line_width, palette, radius_coeff, labels).children[0]
            == rect_markup(0, 0, width, height, palette.background),
{
    lemma_logo_children(width, height, line_width, palette, radius_coeff, labels);
}

/// Taking the radius coefficient from nine tenths down to seven tenths, all
/// else left as it is, shrinks the bounding box of the hexagon on all four
/// sides and leaves the canvas as it was: the root element keeps its name
/// and attributes, and the rectangle, its first child, is the same.  This
/// holds of every canvas whose smaller half-side is four millionths long or
/// longer.
pub proof fn lemma_smaller_coefficient_shrinks_hexagon(
    width: int,
    height: int,
    line_width: int,
    palette: PaletteView,
    labels: Seq<LabelView>,
    large: Extent,
    small: Extent,
)
    requires
        magnitude(lesser(half(width), half(height))) >= 4,
        is_bounding_box(large, logo_vertices(width, height, 900_000)),
        is_bounding_box(small, logo_vertices(width, height, 700_000)),
    ensures
        strictly_inside(small, large),
        logo_markup(width, height, line_width, palette, 700_000, labels).name == logo_markup(
            width,
            height,
            line_width,
            palette,
            900_000,
            labels,
        ).name,
        logo_markup(width, height, line_width, palette, 700_000, labels).attributes
            == logo_markup(width, height, line_width, palette, 900_000, labels).attributes,
        logo_markup(width, height, line_width, palette, 700_000, labels).children[0]
            == logo_markup(width, height, line_width, palette, 900_000, labels).children[0],
        logo_markup(width, height, line_width, palette, 900_000, labels).children[0]
            == rect_markup(0, 0, width, height, palette.background),
{
    let r9: int = logo_radius(width, height, 900_000);
    let r7: int = logo_radius(width, height, 700_000);
    lemma_radii_ordered(width, height);
    lemma_canvas_apart_from_radius(width, height, line_width, palette, 900_000, labels);
    lemma_canvas_apart_from_radius(width, height, line_width, palette, 700_000, labels);
    lemma_hexagon_bounding_box(half(width), half(height), r9);
    lemma_hexagon_bounding_box(half(width), half(height), r7);
    lemma_bounding_box_unique(
        large,
        Extent {
            left: half(width) - magnitude(apothem(r9)),
            right: half(width) + magnitude(apothem(r9)),
            top: half(height) - magnitude(r9),
            bottom: half(height) + magnitude(r9),
        },
        logo_vertices(width, height, 900_000),
    );
    lemma_bounding_box_unique(
        small,
        Extent {
            left: half(width) - magnitude(apothem(r7)),
            right: half(width) + magnitude(apothem(r7)),
            top: half(height) - magnitude(r7),
            bottom: half(height) + magnitude(r7),
        },
        logo_vertices(width, height, 700_000),
    );
}

/// Composing is repeatable: two emblems made from the same measures, colours
/// and labels hold the same markup, and are written out as the same text.
pub proof fn lemma_same_inputs_same_text(
    first: HtmlElement,
    second: HtmlElement,
    width: int,
    height: int,
    line_width: int,
    palette: PaletteView,
    radius_coeff: int,
    labels: Seq<LabelView>,
)
    requires
        markup_of(first) == logo_markup(width, height, line_width, palette, radius_coeff, labels),
        markup_of(second) == logo_markup(
            width,
            height,
            line_width,
            palette,
            radius_coeff,
            labels,
        ),
    ensures
        markup_of(first) == markup_of(second),
        markup_text(markup_of(first), 0, 2) == markup_text(markup_of(second), 0, 2),
{
}

/// Lays out the hexagon and the strokes of an emblem.
fn layout(width: i64, height: i64, radius_coeff: i64) -> (plan: (Vec<Point>, Vec<Segment>))
    requires
        within_extent(width as int),
        within_extent(height as int),
        within_extent(radius_coeff as int),
    ensures
        plan.0.deep_view() == logo_vertices(width as int, height as int, radius_coeff as int),
        plan.1.deep_view() == decoration(
            logo_vertices(width as int, height as int, radius_coeff as int),
            offset_coeff(logo_vertices(width as int, height as int, radius_coeff as int)),
        ),
{
    proof {
        lemma_radius_bound(width as int, height as int, radius_coeff as int);
        lemma_artwork_fits(width as int, height as int, radius_coeff as int);
    }
    let w_2: i64 = halve(width);
    let h_2: i64 = halve(height);
    let radius: i64 = scale(
        if w_2 < h_2 {
            w_2
        } else {
            h_2
        },
        radius_coeff,
    );
    let points: Vec<Point> = create_path_points(w_2, h_2, radius);
    assert(points@.len() == points.deep_view().len());
    let coeff: i64 = decoration_offset_coeff(points.as_slice());
    let strokes: Vec<Segment> = decoration_segments(points.as_slice(), coeff);
    (points, strokes)
}

/// Makes the root element of an emblem.
fn create_frame(width: i64, height: i64) -> (svg: HtmlElement)
    ensures
        markup_of(svg) == frame_markup(width as int, height as int),
{
    let mut svg: HtmlElement = new_element("svg");
    set_decimal1(&mut svg, "width", width);
    set_decimal1(&mut svg, "height", height);
    set_attribute(&mut svg, "xmlns", "http://www.w3.org/2000/svg");
    assert(markup_of(svg) =~= frame_markup(width as int, height as int));
    svg
}

fn add_stroke(svg: &mut HtmlElement, s: Segment, colour: &str, line_width: i64)
    ensures
        markup_of(*final(svg)) == markup_of(*old(svg)).with_child(
            stroke_markup(s@, colour@, line_width as int),
        ),
{
    add_child(svg, create_svg_line(s.start.x, s.start.y, s.end.x, s.end.y, colour, line_width));
}

/// Puts the labels on an emblem, in the order given.
fn add_labels(svg: &mut HtmlElement, labels: &[Label])
    ensures
        markup_of(*final(svg)) == (Markup {
            children: markup_of(*old(svg)).children + labels.deep_view().map_values(
                |l: LabelView| label_markup(l),
            ),
            ..markup_of(*old(svg))
        }),
{
    let ghost before: Markup = markup_of(*svg);
    let ghost texts: Seq<LabelView> = labels.deep_view();
    assert(markup_of(*svg) =~= (Markup {
        children: before.children + texts.take(0).map_values(|l: LabelView| label_markup(l)),
        ..before
    }));
    let mut i: usize = 0;
    while i < labels.len()
        invariant
            i <= labels.len(),
            texts == labels.deep_view(),
            texts.len() == labels@.len(),
            markup_of(*svg) == (Markup {
                children: before.children + texts.take(i as int).map_values(
                    |l: LabelView| label_markup(l),
                ),
                ..before
            }),
        decreases labels.len() - i,
    {
        let label: &Label = &labels[i];
        assert(texts[i as int] == label@);
        let text: HtmlElement = create_svg_text(
            label.x,
            label.y,
            label.content.as_str(),
            &label.font,
            label.fill.as_str(),
            label.stroke.as_str(),
        );
        add_child(svg, text);
        assert(texts.take(i + 1).map_values(|l: LabelView| label_markup(l)) =~= texts.take(
            i as int,
        ).map_values(|l: LabelView| label_markup(l)).push(label_markup(texts[i as int])));
        assert(markup_of(*svg) =~= (Markup {
            children: before.children + texts.take(i + 1).map_values(
                |l: LabelView| label_markup(l),
            ),
            ..before
        }));
        i = i + 1;
    }
    assert(texts.take(i as int) =~= texts);
}

/// Composes the emblem for a canvas `width` by `height`, with strokes
/// `line_width` wide, in the colours of `palette`, the hexagon reaching
/// `radius_coeff` of the way from the middle of the canvas to its nearer
/// edge, and with the given labels on top.
pub fn create_svg(
    width: i64,
    height: i64,
    line_width: i64,
    palette: Palette,
    radius_coeff: i64,
    labels: &[Label],
) -> (svg: HtmlElement)
    requires
        within_extent(width as int),
        within_extent(height as int),
        within_extent(radius_coeff as int),
    ensures
        markup_of(svg) == logo_markup(
            width as int,
            height as int,
            line_width as int,
            palette@,
            radius_coeff as int,
            labels.deep_view(),
        ),
{
    let ghost shapes: Seq<Markup> = artwork(
        width as int,
        height as int,
        line_width as int,
        palette@,
        radius_coeff as int,
    );
    let mut svg: HtmlElement = create_frame(width, height);
    let (points, strokes) = layout(width, height, radius_coeff);
    assert(points@.len() == points.deep_view().len());
    assert(strokes@.len() == strokes.deep_view().len());
    assert(strokes.deep_view()[0] == strokes@[0]@);
    assert(strokes.deep_view()[1] == strokes@[1]@);
    assert(strokes.deep_view()[2] == strokes@[2]@);
    assert(strokes.deep_view()[3] == strokes@[3]@);
    assert(strokes.deep_view()[4] == strokes@[4]@);
    proof {
        lemma_artwork_fits(width as int, height as int, radius_coeff as int);
    }
    add_child(&mut svg, create_svg_rect(0, 0, width, height, palette.background));
    add_child(&mut svg, create_svg_path(points.as_slice(), palette.foreground));
    add_stroke(&mut svg, strokes[0], palette.background, line_width);
    add_stroke(&mut svg, strokes[1], palette.background, line_width);
    add_stroke(&mut svg, strokes[2], palette.background, line_width);
    add_stroke(&mut svg, strokes[3], palette.background, line_width);
    add_stroke(&mut svg, strokes[4], palette.background, line_width);
    assert(markup_of(svg).children =~= shapes);
    add_labels(&mut svg, labels);
    svg
}

/// Writes an emblem out as text, level with the margin, each child indented
/// by two spaces.
pub fn svg_text(svg: &HtmlElement) -> (text: String)
    ensures
        text@ == markup_text(markup_of(*svg), 0, 2),
{
    element_text(svg, 0, 2)
}

} // verus!
