use rand::rngs::StdRng;
use rand::SeedableRng;

use shape_raster::random_color::RandomColor;
use shape_raster::Color;

#[test]
fn random_color_is_opaque() {
    let mut rng = StdRng::seed_from_u64(3);
    for _ in 0..100 {
        let c = Color::random(&mut rng);
        assert_eq!(c.a, 255);
    }
}

#[test]
fn random_color_varies() {
    let mut rng = StdRng::seed_from_u64(5);
    let first = Color::random(&mut rng);
    let mut differs = false;
    for _ in 0..50 {
        let c = Color::random(&mut rng);
        if (c.r, c.g, c.b) != (first.r, first.g, first.b) {
            differs = true;
        }
    }
    assert!(differs);
}

#[test]
fn color_new_keeps_channels() {
    let c = Color::new(1, 2, 3, 4);
    assert_eq!((c.r, c.g, c.b, c.a), (1, 2, 3, 4));
    let w = Color::white();
    assert_eq!((w.r, w.g, w.b, w.a), (255, 255, 255, 255));
}
