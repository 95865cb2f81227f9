use vstd::prelude::*;

use crate::buffer::{buffer_inv, height_of, paint, pixels_of, plot, width_of};
use crate::color::Color;
use crate::random_color::RandomColor;
use crate::rng::rand_i32;

verus! {

// ---------------------------------------------------------------------------
// The shape model: each geometric entity is a data aggregate of points,
// centers and radii plus a paint color.  Construction is either explicit
// (the caller supplies exact coordinates; the paint color starts out opaque
// white) or randomized (fields drawn uniformly from [0, bound] out of an
// explicitly passed, seedable random source).  Every shape can have its
// paint color reassigned after construction through `Drawable::color`.
// ---------------------------------------------------------------------------

/// A closed interface over all shape variants: each knows the pixel path it
/// rasterizes to, the color it paints with, and how recoloring changes it.
pub trait Drawable: Sized {
    /// The pixel path this shape rasterizes to, in plotting order.
    spec fn draw_points(&self) -> Seq<(int, int)>;

    /// The four channel bytes this shape paints with.
    spec fn paint_rgba(&self) -> (u8, u8, u8, u8);

    /// This shape with its paint color replaced and all geometry unchanged.
    spec fn recolored(&self, color: Color) -> Self;

    /// Rasterize the shape onto the buffer: every pixel of the shape's path
    /// that lies inside the buffer is painted with the shape's color, and
    /// nothing else changes.
    fn draw(&mut self, image: &mut raster::Image)
        requires
            buffer_inv(*old(image)),
        ensures
            buffer_inv(*final(image)),
            width_of(*final(image)) == width_of(*old(image)),
            height_of(*final(image)) == height_of(*old(image)),
            pixels_of(*final(image)) == paint(
                pixels_of(*old(image)),
                old(self).draw_points(),
                old(self).paint_rgba(),
                width_of(*old(image)),
                height_of(*old(image)),
            ),
            *final(self) == *old(self),
    ;

    /// Reassign the paint color in place.
    fn color(&mut self, color: &Color)
        ensures
            *final(self) == old(self).recolored(*color),
    ;
}

/// A single pixel at (x, y) with its own color.
#[derive(Clone, Copy)]
pub struct Point {
    pub x: i32,
    pub y: i32,
    pub color: Color,
}

impl Point {
    pub fn new(x: i32, y: i32) -> (p: Point)
        ensures
            p == (Point { x, y, color: Color { r: 255, g: 255, b: 255, a: 255 } }),
    {
        Point { x, y, color: Color::white() }
    }

    /// A point drawn uniformly from [0, max_width] x [0, max_height], with a
    /// random opaque color.
    pub fn random(rng: &mut rand::rngs::StdRng, max_width: i32, max_height: i32) -> (p: Point)
        requires
            max_width >= 0,
            max_height >= 0,
        ensures
            0 <= p.x <= max_width,
            0 <= p.y <= max_height,
            p.color.a == 255,
    {
        let x = rand_i32(rng, max_width);
        let y = rand_i32(rng, max_height);
        let color = Color::random(rng);
        Point { x, y, color }
    }
}

/// The segment between two points.  Coinciding endpoints degenerate to a
/// single pixel.
#[derive(Clone, Copy)]
pub struct Line {
    pub point_a: Point,
    pub point_b: Point,
    pub color: Color,
}

impl Line {
    pub fn new(point_a: &Point, point_b: &Point) -> (l: Line)
        ensures
            l == (Line {
                point_a: *point_a,
                point_b: *point_b,
                color: Color { r: 255, g: 255, b: 255, a: 255 },
            }),
    {
        Line { point_a: *point_a, point_b: *point_b, color: Color::white() }
    }

    /// A line with both endpoints drawn uniformly from
    /// [0, max_width] x [0, max_height], with a random opaque color.
    pub fn random(rng: &mut rand::rngs::StdRng, max_width: i32, max_height: i32) -> (l: Line)
        requires
            max_width >= 0,
            max_height >= 0,
        ensures
            0 <= l.point_a.x <= max_width,
            0 <= l.point_a.y <= max_height,
            0 <= l.point_b.x <= max_width,
            0 <= l.point_b.y <= max_height,
            l.color.a == 255,
    {
        let point_a = Point::random(rng, max_width, max_height);
        let point_b = Point::random(rng, max_width, max_height);
        let color = Color::random(rng);
        Line { point_a, point_b, color }
    }
}

/// Three corner points; drawn as the outline of their triangle.
#[derive(Clone, Copy)]
pub struct Triangle {
    pub point_a: Point,
    pub point_b: Point,
    pub point_c: Point,
    pub color: Color,
}

impl Triangle {
    pub fn new(point_a: &Point, point_b: &Point, point_c: &Point) -> (t: Triangle)
        ensures
            t == (Triangle {
                point_a: *point_a,
                point_b: *point_b,
                point_c: *point_c,
                color: Color { r: 255, g: 255, b: 255, a: 255 },
            }),
    {
        Triangle {
            point_a: *point_a,
            point_b: *point_b,
            point_c: *point_c,
            color: Color::white(),
        }
    }
}

/// An axis-aligned rectangle given by two opposite corners `point_a` and
/// `point_c`; the two other corners are derived at construction, which makes
/// the quadrilateral axis-aligned whatever the relative position of the
/// given corners.
#[derive(Clone, Copy)]
pub struct Rectangle {
    pub point_a: Point,
    pub point_b: Point,
    pub point_c: Point,
    pub point_d: Point,
    pub color: Color,
}

impl Rectangle {
    pub fn new(point_a: &Point, point_c: &Point) -> (r: Rectangle)
        ensures
            r.point_a == (Point {
                x: point_a.x,
                y: point_a.y,
                color: Color { r: 255, g: 255, b: 255, a: 255 },
            }),
            r.point_b == (Point {
                x: point_c.x,
                y: point_a.y,
                color: Color { r: 255, g: 255, b: 255, a: 255 },
            }),
            r.point_c == (Point {
                x: point_c.x,
                y: point_c.y,
                color: Color { r: 255, g: 255, b: 255, a: 255 },
            }),
            r.point_d == (Point {
                x: point_a.x,
                y: point_c.y,
                color: Color { r: 255, g: 255, b: 255, a: 255 },
            }),
            r.color == (Color { r: 255, g: 255, b: 255, a: 255 }),
    {
        Rectangle {
            point_a: Point::new(point_a.x, point_a.y),
            point_b: Point::new(point_c.x, point_a.y),
            point_c: Point::new(point_c.x, point_c.y),
            point_d: Point::new(point_a.x, point_c.y),
            color: Color::white(),
        }
    }
}

/// A circle around `center` with non-negative radius; drawn as its outline.
#[derive(Clone, Copy)]
pub struct Circle {
    pub center: Point,
    pub radius: i32,
    pub color: Color,
}

impl Circle {
    pub fn new(center: &Point, radius: i32) -> (c: Circle)
        requires
            radius >= 0,
        ensures
            c == (Circle {
                center: *center,
                radius,
                color: Color { r: 255, g: 255, b: 255, a: 255 },
            }),
    {
        Circle { center: *center, radius, color: Color::white() }
    }

    /// A circle with its center drawn uniformly from
    /// [0, max_width] x [0, max_height] and its radius drawn uniformly from
    /// [0, max(max_width, max_height)], with a random opaque color.  The
    /// radius may make the circle's extent exceed the buffer; drawing clips.
    pub fn random(rng: &mut rand::rngs::StdRng, max_width: i32, max_height: i32) -> (c: Circle)
        requires
            max_width >= 0,
            max_height >= 0,
        ensures
            0 <= c.center.x <= max_width,
            0 <= c.center.y <= max_height,
            0 <= c.radius <= (if max_width >= max_height {
                max_width
            } else {
                max_height
            }),
            c.color.a == 255,
    {
        let max_range: i32 = if max_width >= max_height {
            max_width
        } else {
            max_height
        };
        let center = Point::random(rng, max_width, max_height);
        let radius = rand_i32(rng, max_range);
        let color = Color::random(rng);
        Circle { center, radius, color }
    }
}

/// A regular pentagon around `center`: five vertices at 72-degree spacing,
/// rotated by `rotation` degrees, computed at draw time; the first vertex
/// sits at the top when the rotation is zero.
#[derive(Clone, Copy)]
pub struct Pentagon {
    pub center: Point,
    pub radius: i32,
    pub rotation: i32,
    pub color: Color,
}

impl Pentagon {
    pub fn new(center: &Point, radius: i32, rotation: i32, color: &Color) -> (p: Pentagon)
        ensures
            p == (Pentagon { center: *center, radius, rotation, color: *color }),
    {
        Pentagon { center: *center, radius, rotation, color: *color }
    }
}

/// An isometric wireframe cube: a front axis-aligned square with side
/// `width` at `top_left`, a rear square offset by half the side in both
/// axes, and four connecting edges.
#[derive(Clone, Copy)]
pub struct Cube {
    pub top_left: Point,
    pub width: i32,
    pub color: Color,
}

impl Cube {
    pub fn new(p: &Point, width: i32, color: &Color) -> (c: Cube)
        requires
            width >= 1,
        ensures
            c == (Cube { top_left: *p, width, color: *color }),
    {
        Cube { top_left: *p, width, color: *color }
    }
}

/// The pixel buffer abstraction the rasterizer needs: a bounds-checked single
/// pixel store.
pub trait Displayable {
    /// The buffer is fit to write to.
    spec fn ready(&self) -> bool;

    /// Store `color` at (x, y) if that coordinate is inside the buffer; do
    /// nothing otherwise.
    fn display(&mut self, x: i32, y: i32, color: Color)
        requires
            old(self).ready(),
        ensures
            final(self).ready(),
    ;
}

impl Displayable for raster::Image {
    open spec fn ready(&self) -> bool {
        buffer_inv(*self)
    }

    fn display(&mut self, x: i32, y: i32, color: Color) {
        plot(self, x as i64, y as i64, color);
    }
}

} // verus!
