use rand::rngs::StdRng;
use rand::SeedableRng;

use shape_raster::buffer::blank_image;
use shape_raster::geometrical_shapes::{Circle, Cube, Drawable, Line, Pentagon, Point, Rectangle, Triangle};
use shape_raster::Color;

fn pixel(img: &raster::Image, x: i32, y: i32) -> (u8, u8, u8, u8) {
    let c = img.get_pixel(x, y).unwrap();
    (c.r, c.g, c.b, c.a)
}

const BLACK: (u8, u8, u8, u8) = (0, 0, 0, 255);
const RED: (u8, u8, u8, u8) = (200, 10, 10, 255);

fn red() -> Color {
    Color::new(200, 10, 10, 255)
}

#[test]
fn blank_buffer_is_black() {
    let img = blank_image(4, 3);
    assert_eq!(img.width, 4);
    assert_eq!(img.height, 3);
    for y in 0..3 {
        for x in 0..4 {
            assert_eq!(pixel(&img, x, y), BLACK);
        }
    }
}

#[test]
fn point_draw_sets_single_pixel() {
    let mut img = blank_image(5, 5);
    let mut p = Point::new(2, 3);
    p.color(&red());
    p.draw(&mut img);
    for y in 0..5 {
        for x in 0..5 {
            let want = if (x, y) == (2, 3) { RED } else { BLACK };
            assert_eq!(pixel(&img, x, y), want);
        }
    }
}

#[test]
fn point_outside_buffer_writes_nothing() {
    let mut img = blank_image(5, 5);
    let mut p = Point::new(7, -1);
    p.draw(&mut img);
    for y in 0..5 {
        for x in 0..5 {
            assert_eq!(pixel(&img, x, y), BLACK);
        }
    }
}

#[test]
fn line_diagonal_exact() {
    let mut img = blank_image(10, 10);
    let mut line = Line::new(&Point::new(0, 0), &Point::new(3, 3));
    line.color(&red());
    line.draw(&mut img);
    for y in 0..10 {
        for x in 0..10 {
            let want = if x == y && x <= 3 { RED } else { BLACK };
            assert_eq!(pixel(&img, x, y), want, "at ({}, {})", x, y);
        }
    }
}

#[test]
fn line_horizontal_symmetric() {
    let mut img_ab = blank_image(8, 8);
    let mut img_ba = blank_image(8, 8);
    let a = Point::new(1, 2);
    let b = Point::new(6, 2);
    let mut l1 = Line::new(&a, &b);
    l1.color(&red());
    l1.draw(&mut img_ab);
    let mut l2 = Line::new(&b, &a);
    l2.color(&red());
    l2.draw(&mut img_ba);
    for y in 0..8 {
        for x in 0..8 {
            assert_eq!(pixel(&img_ab, x, y), pixel(&img_ba, x, y));
            let want = if y == 2 && 1 <= x && x <= 6 { RED } else { BLACK };
            assert_eq!(pixel(&img_ab, x, y), want);
        }
    }
}

#[test]
fn line_endpoints_inclusive_and_connected() {
    let mut img = blank_image(12, 12);
    let mut line = Line::new(&Point::new(2, 3), &Point::new(9, 6));
    line.color(&red());
    line.draw(&mut img);
    assert_eq!(pixel(&img, 2, 3), RED);
    assert_eq!(pixel(&img, 9, 6), RED);
    // Every plotted pixel except the endpoints has two plotted 8-neighbours,
    // and the whole plot is an 8-connected chain from one endpoint to the other.
    let mut set: Vec<(i32, i32)> = Vec::new();
    for y in 0..12 {
        for x in 0..12 {
            if pixel(&img, x, y) == RED {
                set.push((x, y));
            }
        }
    }
    for &(x, y) in &set {
        let mut neighbours = 0;
        for &(nx, ny) in &set {
            if (nx, ny) != (x, y) && (nx - x).abs() <= 1 && (ny - y).abs() <= 1 {
                neighbours += 1;
            }
        }
        let expected = if (x, y) == (2, 3) || (x, y) == (9, 6) { 1 } else { 2 };
        assert_eq!(neighbours, expected, "at ({}, {})", x, y);
    }
}

#[test]
fn line_outside_buffer_writes_nothing() {
    let mut img = blank_image(8, 8);
    let mut line = Line::new(&Point::new(-20, -5), &Point::new(-3, -9));
    line.color(&red());
    line.draw(&mut img);
    for y in 0..8 {
        for x in 0..8 {
            assert_eq!(pixel(&img, x, y), BLACK);
        }
    }
}

#[test]
fn line_straddling_buffer_clips() {
    let mut img = blank_image(5, 5);
    let mut line = Line::new(&Point::new(-3, 2), &Point::new(4, 2));
    line.color(&red());
    line.draw(&mut img);
    for y in 0..5 {
        for x in 0..5 {
            let want = if y == 2 { RED } else { BLACK };
            assert_eq!(pixel(&img, x, y), want);
        }
    }
}

#[test]
fn rectangle_corners_derived_all_quadrants() {
    let quadrants = vec![
        ((150, 450), (50, 50)),
        ((50, 50), (150, 450)),
        ((50, 450), (150, 50)),
        ((150, 50), (50, 450)),
    ];
    for ((ax, ay), (cx, cy)) in quadrants {
        let r = Rectangle::new(&Point::new(ax, ay), &Point::new(cx, cy));
        assert_eq!((r.point_a.x, r.point_a.y), (ax, ay));
        assert_eq!((r.point_b.x, r.point_b.y), (cx, ay));
        assert_eq!((r.point_c.x, r.point_c.y), (cx, cy));
        assert_eq!((r.point_d.x, r.point_d.y), (ax, cy));
    }
}

#[test]
fn rectangle_outline_exact() {
    let mut img = blank_image(10, 10);
    let mut rect = Rectangle::new(&Point::new(0, 0), &Point::new(4, 4));
    rect.color(&red());
    rect.draw(&mut img);
    for y in 0..10 {
        for x in 0..10 {
            let on_outline = (x <= 4 && y <= 4) && (x == 0 || x == 4 || y == 0 || y == 4);
            let want = if on_outline { RED } else { BLACK };
            assert_eq!(pixel(&img, x, y), want, "at ({}, {})", x, y);
        }
    }
}

#[test]
fn triangle_outline() {
    let mut img = blank_image(12, 12);
    let mut tri = Triangle::new(&Point::new(1, 1), &Point::new(9, 1), &Point::new(1, 8));
    tri.color(&red());
    tri.draw(&mut img);
    assert_eq!(pixel(&img, 1, 1), RED);
    assert_eq!(pixel(&img, 9, 1), RED);
    assert_eq!(pixel(&img, 1, 8), RED);
    assert_eq!(pixel(&img, 5, 1), RED);
    assert_eq!(pixel(&img, 1, 4), RED);
    // No fill: a pixel well inside the triangle stays black.
    assert_eq!(pixel(&img, 3, 3), BLACK);
}

#[test]
fn circle_zero_radius_draws_nothing() {
    let mut img = blank_image(10, 10);
    let mut c = Circle::new(&Point::new(5, 5), 0);
    c.color(&red());
    c.draw(&mut img);
    for y in 0..10 {
        for x in 0..10 {
            assert_eq!(pixel(&img, x, y), BLACK);
        }
    }
}

#[test]
fn circle_radius_one_exact() {
    let mut img = blank_image(11, 11);
    let mut c = Circle::new(&Point::new(5, 5), 1);
    c.color(&red());
    c.draw(&mut img);
    let ring = vec![
        (6, 5), (4, 5), (5, 6), (5, 4), (6, 4), (4, 4), (6, 6), (4, 6),
    ];
    for y in 0..11 {
        for x in 0..11 {
            let want = if ring.contains(&(x, y)) { RED } else { BLACK };
            assert_eq!(pixel(&img, x, y), want, "at ({}, {})", x, y);
        }
    }
}

#[test]
fn circle_pixels_stay_near_radius_and_symmetric() {
    let mut img = blank_image(41, 41);
    let mut c = Circle::new(&Point::new(20, 20), 10);
    c.color(&red());
    c.draw(&mut img);
    let mut any = false;
    for y in 0..41 {
        for x in 0..41 {
            if pixel(&img, x, y) == RED {
                any = true;
                let dx = x - 20;
                let dy = y - 20;
                let d2 = dx * dx + dy * dy;
                assert!(81 <= d2 && d2 <= 121, "({}, {}) has squared distance {}", x, y, d2);
                // The plotted set is closed under the eight reflections.
                assert_eq!(pixel(&img, 20 - dx, y), RED);
                assert_eq!(pixel(&img, x, 20 - dy), RED);
                assert_eq!(pixel(&img, 20 + dy, 20 + dx), RED);
            }
        }
    }
    assert!(any);
    // The four axis-extremal points are always plotted.
    assert_eq!(pixel(&img, 30, 20), RED);
    assert_eq!(pixel(&img, 10, 20), RED);
    assert_eq!(pixel(&img, 20, 30), RED);
    assert_eq!(pixel(&img, 20, 10), RED);
}

#[test]
fn circle_outside_buffer_writes_nothing() {
    let mut img = blank_image(8, 8);
    let mut c = Circle::new(&Point::new(-50, -50), 5);
    c.color(&red());
    c.draw(&mut img);
    for y in 0..8 {
        for x in 0..8 {
            assert_eq!(pixel(&img, x, y), BLACK);
        }
    }
}

#[test]
fn pentagon_top_vertex_at_rotation_zero() {
    let mut img = blank_image(101, 101);
    let mut p = Pentagon::new(&Point::new(50, 50), 20, 0, &red());
    p.draw(&mut img);
    // Vertex 0 sits exactly at (center.x, center.y - radius).
    assert_eq!(pixel(&img, 50, 30), RED);
    // The center itself is not on the outline.
    assert_eq!(pixel(&img, 50, 50), BLACK);
}

#[test]
fn cube_wireframe_corners() {
    let mut img = blank_image(30, 30);
    let mut cube = Cube::new(&Point::new(10, 10), 4, &red());
    cube.draw(&mut img);
    // Front square corners.
    assert_eq!(pixel(&img, 10, 10), RED);
    assert_eq!(pixel(&img, 14, 10), RED);
    assert_eq!(pixel(&img, 14, 14), RED);
    assert_eq!(pixel(&img, 10, 14), RED);
    // Rear square corners, offset by half the side.
    assert_eq!(pixel(&img, 12, 12), RED);
    assert_eq!(pixel(&img, 16, 12), RED);
    assert_eq!(pixel(&img, 16, 16), RED);
    assert_eq!(pixel(&img, 12, 16), RED);
    // Front square edges.
    assert_eq!(pixel(&img, 12, 10), RED);
    assert_eq!(pixel(&img, 10, 12), RED);
    // A pixel far from the wireframe stays black.
    assert_eq!(pixel(&img, 25, 25), BLACK);
}

#[test]
fn color_setter_changes_paint_color_only() {
    let mut line = Line::new(&Point::new(1, 1), &Point::new(4, 4));
    let before_a = (line.point_a.x, line.point_a.y);
    line.color(&Color::new(9, 8, 7, 6));
    assert_eq!((line.color.r, line.color.g, line.color.b, line.color.a), (9, 8, 7, 6));
    assert_eq!((line.point_a.x, line.point_a.y), before_a);
}

#[test]
fn random_point_within_bounds() {
    let mut rng = StdRng::seed_from_u64(7);
    for _ in 0..50 {
        let p = Point::random(&mut rng, 5, 9);
        assert!(0 <= p.x && p.x <= 5);
        assert!(0 <= p.y && p.y <= 9);
        assert_eq!(p.color.a, 255);
    }
    let p0 = Point::random(&mut rng, 0, 0);
    assert_eq!((p0.x, p0.y), (0, 0));
}

#[test]
fn random_line_and_circle_within_bounds() {
    let mut rng = StdRng::seed_from_u64(11);
    for _ in 0..20 {
        let l = Line::random(&mut rng, 100, 50);
        assert!(0 <= l.point_a.x && l.point_a.x <= 100);
        assert!(0 <= l.point_a.y && l.point_a.y <= 50);
        assert!(0 <= l.point_b.x && l.point_b.x <= 100);
        assert!(0 <= l.point_b.y && l.point_b.y <= 50);
        let c = Circle::random(&mut rng, 100, 50);
        assert!(0 <= c.center.x && c.center.x <= 100);
        assert!(0 <= c.center.y && c.center.y <= 50);
        assert!(0 <= c.radius && c.radius <= 100);
    }
}

#[test]
fn line_diagonal_symmetric() {
    let mut img_ab = blank_image(9, 9);
    let mut img_ba = blank_image(9, 9);
    let a = Point::new(1, 7);
    let b = Point::new(6, 2);
    let mut l1 = Line::new(&a, &b);
    l1.color(&red());
    l1.draw(&mut img_ab);
    let mut l2 = Line::new(&b, &a);
    l2.color(&red());
    l2.draw(&mut img_ba);
    for y in 0..9 {
        for x in 0..9 {
            assert_eq!(pixel(&img_ab, x, y), pixel(&img_ba, x, y));
            let want = if x + y == 8 && 1 <= x && x <= 6 { RED } else { BLACK };
            assert_eq!(pixel(&img_ab, x, y), want);
        }
    }
}
