//! Rendering: the pixels that make up the circle of a view.

use crate::view::{Position, View};
use embedded_graphics::geometry::Point;
use embedded_graphics::pixelcolor::BinaryColor;
use embedded_graphics::primitives::Circle;
use embedded_graphics::style::WithStyle;
use vstd::prelude::*;
use vstd::view::View as _;

verus! {

/// Radius of the circle in pixels.
pub const RADIUS: u32 = 8;

/// Largest radius the rasteriser is asked for.
pub const MAX_RADIUS: u32 = 255;

/// The two colours of a monochrome display.
#[derive(Debug, Clone, Copy, PartialEq, Eq, Structural)]
pub enum Color {
    Off,
    On,
}

/// One pixel to set. Coordinates left of or above the canvas are negative.
#[derive(Debug, Clone, Copy, PartialEq, Eq, Structural)]
pub struct Pixel {
    pub x: i32,
    pub y: i32,
    pub color: Color,
}

/// The pixels `embedded_graphics` yields for a circle that has no stroke
/// and is filled with `color`, in the order in which its pixel iterator
/// yields them.
pub uninterp spec fn filled_circle(center_x: int, center_y: int, radius: int, color: Color) -> Seq<
    Pixel,
>;

/// Rasterises a filled circle with `embedded_graphics`: builds
/// `Circle::new(Point::new(center_x, center_y), radius).fill(Some(color))`
/// and collects what its pixel iterator yields.
///
/// Trusted, not proved: the result is `filled_circle` of the arguments;
/// every pixel carries the fill colour; and every pixel lies within
/// `radius` of the centre on both axes, since the iterator walks the
/// offsets `-radius ..= radius`. The bounds on the arguments keep the
/// iterator's `i32` arithmetic (squares of the offsets, centre plus
/// offset) from overflowing.
#[verifier::external_body]
fn circle_pixels(center_x: i32, center_y: i32, radius: u32, color: Color) -> (pixels: Vec<Pixel>)
    requires
        radius <= MAX_RADIUS,
        i32::MIN + radius <= center_x <= i32::MAX - radius,
        i32::MIN + radius <= center_y <= i32::MAX - radius,
    ensures
        pixels@ == filled_circle(center_x as int, center_y as int, radius as int, color),
        forall|i: int|
            0 <= i < pixels@.len() ==> {
                &&& (#[trigger] pixels@[i]).color == color
                &&& center_x - radius <= pixels@[i].x <= center_x + radius
                &&& center_y - radius <= pixels@[i].y <= center_y + radius
            },
{
    let fill = match color {
        Color::Off => BinaryColor::Off,
        Color::On => BinaryColor::On,
    };
    let circle = Circle::new(Point::new(center_x, center_y), radius).fill(Some(fill));
    circle.into_iter().map(|drawn| Pixel {
        x: drawn.0.x,
        y: drawn.0.y,
        color: match drawn.1 {
            BinaryColor::Off => Color::Off,
            BinaryColor::On => Color::On,
        },
    }).collect()
}

/// The pixels of the circle of a view at `position`, in `color`.
pub open spec fn circle_at(position: Position, color: Color) -> Seq<Pixel> {
    filled_circle(position.x, position.y, RADIUS as int, color)
}

/// Every pixel has the given colour and lies within [`RADIUS`] of
/// `position` on both axes.
pub open spec fn painted_around(pixels: Seq<Pixel>, position: Position, color: Color) -> bool {
    forall|i: int|
        0 <= i < pixels.len() ==> {
            &&& (#[trigger] pixels[i]).color == color
            &&& position.x - RADIUS <= pixels[i].x <= position.x + RADIUS
            &&& position.y - RADIUS <= pixels[i].y <= position.y + RADIUS
        }
}

impl View {
    /// The pixels of the circle, in the given colour: a filled circle of
    /// radius [`RADIUS`] around the view's position, as the graphics crate
    /// rasterises it.
    pub fn draw(&self, color: Color) -> (pixels: Vec<Pixel>)
        ensures
            pixels@ == circle_at(self@, color),
            painted_around(pixels@, self@, color),
    {
        proof {
            use_type_invariant(self);
        }
        circle_pixels(self.circle_x(), self.circle_y(), RADIUS, color)
    }
}

} // verus!
