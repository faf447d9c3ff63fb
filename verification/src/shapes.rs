//! The shapes of the emblem as markup elements.
//!
//! Coordinates, lengths and stroke widths are written with one digit after
//! the point; a font size is written as it is.

use crate::decimal::{
    decimal1, has_one_decimal_place, lemma_decimal1_shape, lemma_occurrences_concat,
    lemma_occurrences_single, numeral, occurrences, push_decimal1, push_numeral, to_decimal1,
};
use crate::geometry::{Point, Position};
use crate::markup::{markup_of, new_element, set_attribute, set_content, Attribute, Markup};
use domrs::HtmlElement;
use vstd::prelude::*;
use vstd::string::StringExecFns;

verus! {

/// The lettering of a label.
#[derive(Clone, Debug, PartialEq, Eq)]
pub struct Font {
    pub family: String,
    pub weight: String,
    pub size: u32,
}

/// What a font says, as mathematics sees it.
pub struct FontView {
    pub family: Seq<char>,
    pub weight: Seq<char>,
    pub size: nat,
}

impl View for Font {
    type V = FontView;

    open spec fn view(&self) -> FontView {
        FontView { family: self.family@, weight: self.weight@, size: self.size as nat }
    }
}

/// A filled rectangle without an outline.
pub open spec fn rect_markup(x: int, y: int, width: int, height: int, fill: Seq<char>) -> Markup {
    Markup::leaf(
        "rect"@,
        seq![
            ("x"@, decimal1(x)),
            ("y"@, decimal1(y)),
            ("width"@, decimal1(width)),
            ("height"@, decimal1(height)),
            ("stroke"@, "none"@),
            ("fill"@, fill),
        ],
    )
}

/// The two coordinates of `p`, with a comma between them.
pub open spec fn coordinates(p: Position) -> Seq<char> {
    decimal1(p.x) + ","@ + decimal1(p.y)
}

/// The closed outline through the six points `v`: a move to the first, a
/// line to each of the others in turn, and the closing command.
pub open spec fn path_data(v: Seq<Position>) -> Seq<char> {
    "M "@ + coordinates(v[0]) + " L "@ + coordinates(v[1]) + " L "@ + coordinates(v[2]) + " L "@
        + coordinates(v[3]) + " L "@ + coordinates(v[4]) + " L "@ + coordinates(v[5]) + " Z"@
}

/// A filled hexagon without an outline.
pub open spec fn path_markup(v: Seq<Position>, fill: Seq<char>) -> Markup {
    Markup::leaf("path"@, seq![("d"@, path_data(v)), ("stroke"@, "none"@), ("fill"@, fill)])
}

/// A stroke with square ends.
pub open spec fn line_markup(
    start: Position,
    end: Position,
    stroke: Seq<char>,
    width: int,
) -> Markup {
    Markup::leaf(
        "line"@,
        seq![
            ("x1"@, decimal1(start.x)),
            ("y1"@, decimal1(start.y)),
            ("x2"@, decimal1(end.x)),
            ("y2"@, decimal1(end.y)),
            ("stroke"@, stroke),
            ("stroke-width"@, decimal1(width)),
            ("stroke-linecap"@, "square"@),
        ],
    )
}

/// A line of text, outlined four wide.
pub open spec fn text_markup(
    at: Position,
    content: Seq<char>,
    font: FontView,
    fill: Seq<char>,
    stroke: Seq<char>,
) -> Markup {
    Markup::leaf(
        "text"@,
        seq![
            ("x"@, decimal1(at.x)),
            ("y"@, decimal1(at.y)),
            ("font-family"@, font.family),
            ("font-weight"@, font.weight),
            ("font-size"@, numeral(font.size)),
            ("fill"@, fill),
            ("stroke"@, stroke),
            ("stroke-width"@, "4"@),
        ],
    ).with_content(content)
}

/// How often a character occurs in a pair of coordinates, for the comma, the
/// point and the three letters of an outline.
proof fn lemma_coordinates_counts(p: Position)
    ensures
        occurrences(coordinates(p), ',') == 1,
        occurrences(coordinates(p), '.') == 2,
        occurrences(coordinates(p), 'M') == 0,
        occurrences(coordinates(p), 'L') == 0,
        occurrences(coordinates(p), 'Z') == 0,
        coordinates(p).len() >= 7,
{
    reveal_strlit(",");
    assert(","@ =~= seq![',']);
    lemma_decimal1_shape(p.x);
    lemma_decimal1_shape(p.y);
    lemma_occurrences_single(',', ',');
    lemma_occurrences_single(',', '.');
    lemma_occurrences_single(',', 'M');
    lemma_occurrences_single(',', 'L');
    lemma_occurrences_single(',', 'Z');
    assert forall|c: char| true implies occurrences(coordinates(p), c) == occurrences(
        decimal1(p.x),
        c,
    ) + occurrences(seq![','], c) + occurrences(decimal1(p.y), c) by {
        lemma_occurrences_concat(decimal1(p.x), ","@, c);
        lemma_occurrences_concat(decimal1(p.x) + ","@, decimal1(p.y), c);
    }
}

/// How often a character occurs in a command of an outline, a letter with
/// the blanks about it.
proof fn lemma_command_counts(c: char)
    ensures
        occurrences("M "@, c) == if c == 'M' {
            1nat
        } else if c == ' ' {
            1nat
        } else {
            0nat
        },
        occurrences(" L "@, c) == if c == 'L' {
            1nat
        } else if c == ' ' {
            2nat
        } else {
            0nat
        },
        occurrences(" Z"@, c) == if c == 'Z' {
            1nat
        } else if c == ' ' {
            1nat
        } else {
            0nat
        },
{
    reveal_strlit("M ");
    reveal_strlit(" L ");
    reveal_strlit(" Z");
    assert("M "@ =~= seq!['M'] + seq![' ']);
    assert(" L "@ =~= seq![' '] + seq!['L'] + seq![' ']);
    assert(" Z"@ =~= seq![' '] + seq!['Z']);
    lemma_occurrences_single('M', c);
    lemma_occurrences_single('L', c);
    lemma_occurrences_single('Z', c);
    lemma_occurrences_single(' ', c);
    lemma_occurrences_concat(seq!['M'], seq![' '], c);
    lemma_occurrences_concat(seq![' '], seq!['L'], c);
    lemma_occurrences_concat(seq![' '] + seq!['L'], seq![' '], c);
    lemma_occurrences_concat(seq![' '], seq!['Z'], c);
}

/// How often a character occurs in an outline: as often as in its thirteen
/// parts together.
proof fn lemma_path_data_counts(v: Seq<Position>, c: char)
    ensures
        occurrences(path_data(v), c) == occurrences("M "@, c) + 5 * occurrences(" L "@, c)
            + occurrences(" Z"@, c) + occurrences(coordinates(v[0]), c) + occurrences(
            coordinates(v[1]),
            c,
        ) + occurrences(coordinates(v[2]), c) + occurrences(coordinates(v[3]), c) + occurrences(
            coordinates(v[4]),
            c,
        ) + occurrences(coordinates(v[5]), c),
{
    let s0: Seq<char> = "M "@;
    let s1: Seq<char> = s0 + coordinates(v[0]);
    let s2: Seq<char> = s1 + " L "@;
    let s3: Seq<char> = s2 + coordinates(v[1]);
    let s4: Seq<char> = s3 + " L "@;
    let s5: Seq<char> = s4 + coordinates(v[2]);
    let s6: Seq<char> = s5 + " L "@;
    let s7: Seq<char> = s6 + coordinates(v[3]);
    let s8: Seq<char> = s7 + " L "@;
    let s9: Seq<char> = s8 + coordinates(v[4]);
    let s10: Seq<char> = s9 + " L "@;
    let s11: Seq<char> = s10 + coordinates(v[5]);
    lemma_occurrences_concat(s0, coordinates(v[0]), c);
    lemma_occurrences_concat(s1, " L "@, c);
    lemma_occurrences_concat(s2, coordinates(v[1]), c);
    lemma_occurrences_concat(s3, " L "@, c);
    lemma_occurrences_concat(s4, coordinates(v[2]), c);
    lemma_occurrences_concat(s5, " L "@, c);
    lemma_occurrences_concat(s6, coordinates(v[3]), c);
    lemma_occurrences_concat(s7, " L "@, c);
    lemma_occurrences_concat(s8, coordinates(v[4]), c);
    lemma_occurrences_concat(s9, " L "@, c);
    lemma_occurrences_concat(s10, coordinates(v[5]), c);
    lemma_occurrences_concat(s11, " Z"@, c);
    assert(path_data(v) == s11 + " Z"@);
}

/// The outline of a hexagon begins with its one move, holds five lines, and
/// ends with its one closing command.  It holds six pairs of coordinates,
/// one behind each move or line, with a comma in each pair; and each of the
/// twelve coordinates is written with exactly one digit after the point.
pub proof fn lemma_path_data_shape(v: Seq<Position>)
    ensures
        path_data(v).first() == 'M',
        path_data(v).last() == 'Z',
        occurrences(path_data(v), 'M') == 1,
        occurrences(path_data(v), 'L') == 5,
        occurrences(path_data(v), 'Z') == 1,
        occurrences(path_data(v), ',') == 6,
        occurrences(path_data(v), '.') == 12,
        forall|i: int|
            0 <= i < 6 ==> has_one_decimal_place(decimal1(#[trigger] v[i].x))
                && has_one_decimal_place(decimal1(v[i].y)),
{
    lemma_coordinates_counts(v[0]);
    lemma_coordinates_counts(v[1]);
    lemma_coordinates_counts(v[2]);
    lemma_coordinates_counts(v[3]);
    lemma_coordinates_counts(v[4]);
    lemma_coordinates_counts(v[5]);
    lemma_command_counts('M');
    lemma_command_counts('L');
    lemma_command_counts('Z');
    lemma_command_counts(',');
    lemma_command_counts('.');
    lemma_path_data_counts(v, 'M');
    lemma_path_data_counts(v, 'L');
    lemma_path_data_counts(v, 'Z');
    lemma_path_data_counts(v, ',');
    lemma_path_data_counts(v, '.');
    reveal_strlit("M ");
    reveal_strlit(" Z");
    assert forall|i: int| 0 <= i < 6 implies has_one_decimal_place(decimal1(#[trigger] v[i].x))
        && has_one_decimal_place(decimal1(v[i].y)) by {
        lemma_decimal1_shape(v[i].x);
        lemma_decimal1_shape(v[i].y);
    }
}

/// Sets an attribute to a quantity written with one digit after the point.
pub(crate) fn set_decimal1(e: &mut HtmlElement, name: &str, v: i64)
    ensures
        markup_of(*final(e)) == markup_of(*old(e)).with_attribute(name@, decimal1(v as int)),
{
    let value: String = to_decimal1(v);
    set_attribute(e, name, value.as_str());
}

/// Makes the rectangle with its corner at `(x, y)`, filled with `bg_color`.
pub fn create_svg_rect(x: i64, y: i64, width: i64, height: i64, bg_color: &str) -> (rect:
    HtmlElement)
    ensures
        markup_of(rect) == rect_markup(
            x as int,
            y as int,
            width as int,
            height as int,
            bg_color@,
        ),
{
    let mut rect: HtmlElement = new_element("rect");
    set_decimal1(&mut rect, "x", x);
    set_decimal1(&mut rect, "y", y);
    set_decimal1(&mut rect, "width", width);
    set_decimal1(&mut rect, "height", height);
    set_attribute(&mut rect, "stroke", "none");
    set_attribute(&mut rect, "fill", bg_color);
    assert(markup_of(rect) =~= rect_markup(
        x as int,
        y as int,
        width as int,
        height as int,
        bg_color@,
    ));
    rect
}

fn push_coordinates(out: &mut String, p: Point)
    ensures
        final(out)@ == old(out)@ + coordinates(p@),
{
    push_decimal1(out, p.x as i128);
    out.append(",");
    push_decimal1(out, p.y as i128);
    assert(out@ =~= old(out)@ + coordinates(p@));
}

/// Makes the closed outline through six points, filled with `fg_color`.
pub fn create_svg_path(points: &[Point], fg_color: &str) -> (path: HtmlElement)
    requires
        points@.len() == 6,
    ensures
        markup_of(path) == path_markup(points.deep_view(), fg_color@),
{
    let ghost v: Seq<Position> = points.deep_view();
    proof {
        assert forall|i: int| 0 <= i < 6 implies #[trigger] v[i] == points@[i]@ by {}
    }
    let mut d: String = String::new();
    d.append("M ");
    push_coordinates(&mut d, points[0]);
    d.append(" L ");
    push_coordinates(&mut d, points[1]);
    d.append(" L ");
    push_coordinates(&mut d, points[2]);
    d.append(" L ");
    push_coordinates(&mut d, points[3]);
    d.append(" L ");
    push_coordinates(&mut d, points[4]);
    d.append(" L ");
    push_coordinates(&mut d, points[5]);
    d.append(" Z");
    assert(d@ =~= path_data(v));
    let mut path: HtmlElement = new_element("path");
    set_attribute(&mut path, "d", d.as_str());
    set_attribute(&mut path, "stroke", "none");
    set_attribute(&mut path, "fill", fg_color);
    assert(markup_of(path) =~= path_markup(v, fg_color@));
    path
}

/// Makes the stroke from `(x1, y1)` to `(x2, y2)`, drawn in `bg_color` and
/// `line_width` wide.
pub fn create_svg_line(
    x1: i64,
    y1: i64,
    x2: i64,
    y2: i64,
    bg_color: &str,
    line_width: i64,
) -> (line: HtmlElement)
    ensures
        markup_of(line) == line_markup(
            Position { x: x1 as int, y: y1 as int },
            Position { x: x2 as int, y: y2 as int },
            bg_color@,
            line_width as int,
        ),
{
    let mut line: HtmlElement = new_element("line");
    set_decimal1(&mut line, "x1", x1);
    set_decimal1(&mut line, "y1", y1);
    set_decimal1(&mut line, "x2", x2);
    set_decimal1(&mut line, "y2", y2);
    set_attribute(&mut line, "stroke", bg_color);
    set_decimal1(&mut line, "stroke-width", line_width);
    set_attribute(&mut line, "stroke-linecap", "square");
    assert(markup_of(line) =~= line_markup(
        Position { x: x1 as int, y: y1 as int },
        Position { x: x2 as int, y: y2 as int },
        bg_color@,
        line_width as int,
    ));
    line
}

/// Makes the line of text `content` at `(x, y)`, filled with `fill_color` and
/// outlined in `stroke_color`.
pub fn create_svg_text(
    x: i64,
    y: i64,
    content: &str,
    font: &Font,
    fill_color: &str,
    stroke_color: &str,
) -> (text: HtmlElement)
    ensures
        markup_of(text) == text_markup(
            Position { x: x as int, y: y as int },
            content@,
            font@,
            fill_color@,
            stroke_color@,
        ),
{
    let mut size: String = String::new();
    push_numeral(&mut size, font.size as u128);
    assert(size@ =~= numeral(font.size as nat));
    let mut text: HtmlElement = new_element("text");
    set_decimal1(&mut text, "x", x);
    set_decimal1(&mut text, "y", y);
    set_attribute(&mut text, "font-family", font.family.as_str());
    set_attribute(&mut text, "font-weight", font.weight.as_str());
    set_attribute(&mut text, "font-size", size.as_str());
    set_attribute(&mut text, "fill", fill_color);
    set_attribute(&mut text, "stroke", stroke_color);
    set_attribute(&mut text, "stroke-width", "4");
    set_content(&mut text, content);
    assert(markup_of(text) =~= text_markup(
        Position { x: x as int, y: y as int },
        content@,
        font@,
        fill_color@,
        stroke_color@,
    ));
    text
}

} // verus!
