use vstd::prelude::*;

use crate::color::Color;
use crate::rng::rand_i32;

verus! {

/// Uniformly random colors.  The policy fixed here: the three color channels
/// are sampled independently and the alpha channel is always fully opaque.
pub trait RandomColor: Sized {
    /// The produced value is fully opaque.
    spec fn opaque(&self) -> bool;

    /// Produce a color with uniformly random red, green and blue channels
    /// and a fixed, fully opaque alpha channel.
    fn random(rng: &mut rand::rngs::StdRng) -> (c: Self)
        ensures
            c.opaque(),
    ;
}

impl RandomColor for Color {
    open spec fn opaque(&self) -> bool {
        self.a == 255
    }

    fn random(rng: &mut rand::rngs::StdRng) -> (c: Color)
        ensures
            c.a == 255,
    {
        let r = rand_i32(rng, 255);
        let g = rand_i32(rng, 255);
        let b = rand_i32(rng, 255);
        Color { r: r as u8, g: g as u8, b: b as u8, a: 255 }
    }
}

} // verus!
