//! What is drawn onto an image, as data.

use vstd::prelude::*;

use crate::fixed::to_pixel;
use crate::pipeline::stage::Line;

verus! {

/// A color as its blue, green and red parts.
#[derive(Debug, Clone, Copy, PartialEq, Eq, Structural)]
pub struct Color {
    pub blue: u8,
    pub green: u8,
    pub red: u8,
}

/// A shape to draw. A negative thickness fills it.
#[derive(Debug, PartialEq, Eq)]
pub enum Shape {
    Circle { x: i32, y: i32, radius: i32, color: Color, thickness: i32, smooth: bool },
    Line { x1: i32, y1: i32, x2: i32, y2: i32, color: Color, thickness: i32 },
    Rectangle { x: i32, y: i32, width: i32, height: i32, color: Color, thickness: i32 },
    /// A text in a size of so many hundredths of the font's own.
    Text { text: String, x: i32, y: i32, size: i32, color: Color, thickness: i32, smooth: bool },
}

/// What a [`Shape`] is.
#[verifier::ext_equal]
pub enum ShapeView {
    Circle { x: int, y: int, radius: int, color: Color, thickness: int, smooth: bool },
    Line { x1: int, y1: int, x2: int, y2: int, color: Color, thickness: int },
    Rectangle { x: int, y: int, width: int, height: int, color: Color, thickness: int },
    Text { text: Seq<char>, x: int, y: int, size: int, color: Color, thickness: int, smooth: bool },
}

impl View for Shape {
    type V = ShapeView;

    open spec fn view(&self) -> ShapeView {
        match *self {
            Shape::Circle { x, y, radius, color, thickness, smooth } => ShapeView::Circle {
                x: x as int,
                y: y as int,
                radius: radius as int,
                color,
                thickness: thickness as int,
                smooth,
            },
            Shape::Line { x1, y1, x2, y2, color, thickness } => ShapeView::Line {
                x1: x1 as int,
                y1: y1 as int,
                x2: x2 as int,
                y2: y2 as int,
                color,
                thickness: thickness as int,
            },
            Shape::Rectangle { x, y, width, height, color, thickness } => ShapeView::Rectangle {
                x: x as int,
                y: y as int,
                width: width as int,
                height: height as int,
                color,
                thickness: thickness as int,
            },
            Shape::Text { text, x, y, size, color, thickness, smooth } => ShapeView::Text {
                text: text@,
                x: x as int,
                y: y as int,
                size: size as int,
                color,
                thickness: thickness as int,
                smooth,
            },
        }
    }
}

/// What a list of shapes is.
pub open spec fn drawing(shapes: Seq<Shape>) -> Seq<ShapeView> {
    shapes.map_values(|s: Shape| s@)
}

/// The color with these parts.
pub open spec fn bgr(blue: u8, green: u8, red: u8) -> Color {
    Color { blue, green, red }
}

/// The line between the pixels of its ends, two pixels thick.
pub open spec fn line_shape(line: Line, color: Color) -> ShapeView {
    ShapeView::Line {
        x1: crate::fixed::pixel(line.x1 as int),
        y1: crate::fixed::pixel(line.y1 as int),
        x2: crate::fixed::pixel(line.x2 as int),
        y2: crate::fixed::pixel(line.y2 as int),
        color,
        thickness: 2,
    }
}

/// The line between the pixels of its ends, two pixels thick.
pub fn draw_line(line: &Line, color: Color) -> (r: Shape)
    ensures
        r@ == line_shape(*line, color),
{
    Shape::Line {
        x1: to_pixel(line.x1),
        y1: to_pixel(line.y1),
        x2: to_pixel(line.x2),
        y2: to_pixel(line.y2),
        color,
        thickness: 2,
    }
}

} // verus!
