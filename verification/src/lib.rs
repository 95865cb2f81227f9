pub mod buffer;
pub mod color;
pub mod draw;
pub mod geometrical_shapes;
pub mod random_color;
pub mod rng;
pub mod trig;

pub use color::Color;
