//! Drawings of a life as vector graphics: what a drawing holds, and how one is begun.
//!
//! A drawing is a document of the `svg` crate: an element with attributes that holds
//! other elements, in the order in which they were appended, which is the order in
//! which they are painted. The contracts speak of a drawing as a canvas with shapes on
//! it, and say which element stands for a shape.

use crate::text::{append_digits, digits_text};
use vstd::prelude::*;

pub mod grid;
pub mod logarithmic;
pub mod weeks;

verus! {

/// The number of rows of the grid: one for each week of a year.
pub const WEEKS_IN_A_YEAR: u32 = 52;

/// A shape of a drawing. Lengths are in pixels; colours are written as in a style sheet.
pub enum Shape {
    /// The rectangle that covers the whole canvas, behind everything else.
    Background { width: int, height: int, fill: Seq<char> },
    /// A rectangle with its top left corner at (`x`, `y`).
    Rectangle {
        x: int,
        y: int,
        width: int,
        height: int,
        fill: Seq<char>,
        stroke: Seq<char>,
        stroke_width: int,
    },
    /// A circle with its centre at (`cx`, `cy`).
    Circle { cx: int, cy: int, r: int, fill: Seq<char>, stroke: Seq<char>, stroke_width: int },
}

/// The canvas of a drawing: the size of its view box, whose corner is the origin, and
/// the colour of the page behind it.
pub struct Canvas {
    pub width: int,
    pub height: int,
    pub page_color: Seq<char>,
}

/// An element as a document holds it: its tag and its attributes.
pub struct ElementModel {
    pub name: Seq<char>,
    pub attributes: Map<Seq<char>, Seq<char>>,
}

/// The element that stands for a shape.
pub open spec fn shape_element(shape: Shape) -> ElementModel {
    match shape {
        Shape::Background { width, height, fill } => ElementModel {
            name: "rect"@,
            attributes: no_attributes()
                .insert("x"@, digits_text(0))
                .insert("y"@, digits_text(0))
                .insert("width"@, digits_text(width as nat))
                .insert("height"@, digits_text(height as nat))
                .insert("fill"@, fill),
        },
        Shape::Rectangle { x, y, width, height, fill, stroke, stroke_width } => ElementModel {
            name: "rect"@,
            attributes: no_attributes()
                .insert("x"@, digits_text(x as nat))
                .insert("y"@, digits_text(y as nat))
                .insert("width"@, digits_text(width as nat))
                .insert("height"@, digits_text(height as nat))
                .insert("fill"@, fill)
                .insert("stroke"@, stroke)
                .insert("stroke-width"@, digits_text(stroke_width as nat)),
        },
        Shape::Circle { cx, cy, r, fill, stroke, stroke_width } => ElementModel {
            name: "circle"@,
            attributes: no_attributes()
                .insert("cx"@, digits_text(cx as nat))
                .insert("cy"@, digits_text(cy as nat))
                .insert("r"@, digits_text(r as nat))
                .insert("fill"@, fill)
                .insert("stroke"@, stroke)
                .insert("stroke-width"@, digits_text(stroke_width as nat)),
        },
    }
}

/// No attributes.
pub open spec fn no_attributes() -> Map<Seq<char>, Seq<char>> {
    Map::empty()
}

/// The one attribute of a new document: the name space of vector graphics.
pub open spec fn name_space_attribute() -> Map<Seq<char>, Seq<char>> {
    no_attributes().insert("xmlns"@, "http://www.w3.org/2000/svg"@)
}

/// The attributes of the document that stands for a canvas: the name space of vector
/// graphics, the view box, and a style that gives the page its colour.
pub open spec fn canvas_attributes(canvas: Canvas) -> Map<Seq<char>, Seq<char>> {
    name_space_attribute()
        .insert("viewBox"@, view_box_text(canvas.width, canvas.height))
        .insert("style"@, "background-color:"@ + canvas.page_color)
}

/// A view box with its corner at the origin, as it is written.
pub open spec fn view_box_text(width: int, height: int) -> Seq<char> {
    "0 0 "@ + digits_text(width as nat) + " "@ + digits_text(height as nat)
}

#[verifier::external_type_specification]
#[verifier::external_body]
pub struct ExDocument(svg::node::element::SVG);

#[verifier::external_type_specification]
#[verifier::external_body]
pub struct ExElement(svg::node::element::Element);

/// The elements that a document holds, in the order in which they were appended.
pub uninterp spec fn document_children(document: svg::node::element::SVG) -> Seq<ElementModel>;

/// The attributes of a document.
pub uninterp spec fn document_attributes(document: svg::node::element::SVG) -> Map<
    Seq<char>,
    Seq<char>,
>;

/// The attributes of an element.
pub uninterp spec fn element_attributes(element: svg::node::element::Element) -> Map<
    Seq<char>,
    Seq<char>,
>;

/// The tag of an element.
pub uninterp spec fn element_name(element: svg::node::element::Element) -> Seq<char>;

/// An element as a document will hold it.
pub open spec fn element_model(element: svg::node::element::Element) -> ElementModel {
    ElementModel { name: element_name(element), attributes: element_attributes(element) }
}

/// The document is the drawing of these shapes on this canvas.
pub open spec fn draws(
    document: svg::node::element::SVG,
    canvas: Canvas,
    shapes: Seq<Shape>,
) -> bool {
    &&& document_attributes(document) == canvas_attributes(canvas)
    &&& document_children(document) == shapes.map_values(|shape: Shape| shape_element(shape))
}

/// `svg::Document::new`: a document without children, whose one attribute names the name
/// space of vector graphics.
#[verifier::external_body]
pub(crate) fn new_document() -> (document: svg::node::element::SVG)
    ensures
        document_children(document) == Seq::<ElementModel>::empty(),
        document_attributes(document) == name_space_attribute(),
{
    svg::Document::new()
}

/// `svg::Node::assign`, on a document: the attribute `name` is `value` from now on, and
/// nothing else changes.
#[verifier::external_body]
pub(crate) fn assign_to_document(document: &mut svg::node::element::SVG, name: &str, value: &str)
    ensures
        document_attributes(*final(document)) == document_attributes(*old(document)).insert(
            name@,
            value@,
        ),
        document_children(*final(document)) == document_children(*old(document)),
{
    svg::Node::assign(document, name, value);
}

/// `svg::Node::append`: the document holds one element more, the last, and nothing else
/// changes.
#[verifier::external_body]
pub(crate) fn append(document: &mut svg::node::element::SVG, element: svg::node::element::Element)
    ensures
        document_children(*final(document)) == document_children(*old(document)).push(
            element_model(element),
        ),
        document_attributes(*final(document)) == document_attributes(*old(document)),
{
    svg::Node::append(document, element);
}

/// `svg::node::element::Rectangle::new`: an element with the tag `rect` and no
/// attributes.
#[verifier::external_body]
pub(crate) fn new_rectangle() -> (element: svg::node::element::Element)
    ensures
        element_name(element) == "rect"@,
        element_attributes(element) == no_attributes(),
{
    svg::node::element::Rectangle::new().into()
}

/// `svg::node::element::Circle::new`: an element with the tag `circle` and no
/// attributes.
#[verifier::external_body]
pub(crate) fn new_circle() -> (element: svg::node::element::Element)
    ensures
        element_name(element) == "circle"@,
        element_attributes(element) == no_attributes(),
{
    svg::node::element::Circle::new().into()
}

/// `svg::Node::assign`, on an element: the attribute `name` is `value` from now on, and
/// nothing else changes.
#[verifier::external_body]
pub(crate) fn assign(element: &mut svg::node::element::Element, name: &str, value: &str)
    ensures
        element_attributes(*final(element)) == element_attributes(*old(element)).insert(
            name@,
            value@,
        ),
        element_name(*final(element)) == element_name(*old(element)),
{
    svg::Node::assign(element, name, value);
}

/// Give an element a number as an attribute, written in decimal.
pub(crate) fn assign_number(element: &mut svg::node::element::Element, name: &str, value: u64)
    ensures
        element_attributes(*final(element)) == element_attributes(*old(element)).insert(
            name@,
            digits_text(value as nat),
        ),
        element_name(*final(element)) == element_name(*old(element)),
{
    let mut text = String::new();
    append_digits(&mut text, value);
    assert(text@ =~= digits_text(value as nat));
    assign(element, name, text.as_str());
}

/// The element for the background of a canvas.
fn background_element(width: u32, height: u32, fill: &str) -> (element:
    svg::node::element::Element)
    ensures
        element_model(element) == shape_element(
            Shape::Background { width: width as int, height: height as int, fill: fill@ },
        ),
{
    let mut element = new_rectangle();
    assign_number(&mut element, "x", 0);
    assign_number(&mut element, "y", 0);
    assign_number(&mut element, "width", width as u64);
    assign_number(&mut element, "height", height as u64);
    assign(&mut element, "fill", fill);
    element
}

/// The element for a rectangle.
pub(crate) fn rectangle_element(
    x: u64,
    y: u64,
    width: u32,
    height: u32,
    fill: &str,
    stroke: &str,
    stroke_width: u32,
) -> (element: svg::node::element::Element)
    ensures
        element_model(element) == shape_element(
            Shape::Rectangle {
                x: x as int,
                y: y as int,
                width: width as int,
                height: height as int,
                fill: fill@,
                stroke: stroke@,
                stroke_width: stroke_width as int,
            },
        ),
{
    let mut element = new_rectangle();
    assign_number(&mut element, "x", x);
    assign_number(&mut element, "y", y);
    assign_number(&mut element, "width", width as u64);
    assign_number(&mut element, "height", height as u64);
    assign(&mut element, "fill", fill);
    assign(&mut element, "stroke", stroke);
    assign_number(&mut element, "stroke-width", stroke_width as u64);
    element
}

/// The element for a circle.
pub(crate) fn circle_element(
    cx: u64,
    cy: u64,
    r: u32,
    fill: &str,
    stroke: &str,
    stroke_width: u32,
) -> (element: svg::node::element::Element)
    ensures
        element_model(element) == shape_element(
            Shape::Circle {
                cx: cx as int,
                cy: cy as int,
                r: r as int,
                fill: fill@,
                stroke: stroke@,
                stroke_width: stroke_width as int,
            },
        ),
{
    let mut element = new_circle();
    assign_number(&mut element, "cx", cx);
    assign_number(&mut element, "cy", cy);
    assign_number(&mut element, "r", r as u64);
    assign(&mut element, "fill", fill);
    assign(&mut element, "stroke", stroke);
    assign_number(&mut element, "stroke-width", stroke_width as u64);
    element
}

/// Draw one shape more, over those that are there.
pub(crate) fn append_shape(
    document: &mut svg::node::element::SVG,
    element: svg::node::element::Element,
    Ghost(canvas): Ghost<Canvas>,
    Ghost(shapes): Ghost<Seq<Shape>>,
    Ghost(shape): Ghost<Shape>,
)
    requires
        draws(*old(document), canvas, shapes),
        element_model(element) == shape_element(shape),
    ensures
        draws(*final(document), canvas, shapes.push(shape)),
{
    append(document, element);
    assert(shapes.push(shape).map_values(|shape: Shape| shape_element(shape)) =~= shapes.map_values(
        |shape: Shape| shape_element(shape),
    ).push(shape_element(shape)));
}

/// Begin a drawing: a document with a canvas of the given size on a page of the primary
/// colour, and on it one shape, a background of the secondary colour that covers the
/// canvas, so that what is not drawn over shows that colour.
pub fn init_document(
    viewbox_width: u32,
    viewbox_height: u32,
    color_primary: &str,
    color_secondary: &str,
) -> (document: svg::node::element::SVG)
    ensures
        draws(
            document,
            Canvas {
                width: viewbox_width as int,
                height: viewbox_height as int,
                page_color: color_primary@,
            },
            seq![
                Shape::Background {
                    width: viewbox_width as int,
                    height: viewbox_height as int,
                    fill: color_secondary@,
                },
            ],
        ),
{
    let mut document = new_document();
    let mut view_box = "0 0 ".to_owned();
    append_digits(&mut view_box, viewbox_width as u64);
    view_box.append(" ");
    append_digits(&mut view_box, viewbox_height as u64);
    assign_to_document(&mut document, "viewBox", view_box.as_str());
    let style = "background-color:".to_owned().concat(color_primary);
    assign_to_document(&mut document, "style", style.as_str());
    let background = background_element(viewbox_width, viewbox_height, color_secondary);
    append(&mut document, background);
    proof {
        let shapes = seq![
            Shape::Background {
                width: viewbox_width as int,
                height: viewbox_height as int,
                fill: color_secondary@,
            },
        ];
        assert(shapes.map_values(|shape: Shape| shape_element(shape)) =~= Seq::<
            ElementModel,
        >::empty().push(shape_element(shapes[0])));
    }
    document
}

} // verus!
