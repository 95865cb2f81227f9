use vstd::prelude::*;

use crate::buffer::{buffer_inv, height_of, paint, pixels_of, plot, width_of};
use crate::buffer::{lemma_paint_concat, lemma_paint_push, lemma_paint_single};
use crate::color::{rgba_of, Color};
use crate::geometrical_shapes::{Circle, Cube, Drawable, Line, Pentagon, Point, Rectangle, Triangle};
use crate::trig::{penta_vertex, penta_vertex_x};

verus! {

// ---------------------------------------------------------------------------
// Line rasterization: Bresenham's algorithm.
//
// The algorithm walks from (x, y) toward (x1, y1), keeping dx = |x1 - x0|,
// dy = |y1 - y0|, unit steps sx, sy toward the target, and an error term.
// After u steps in x and v steps in y the error term equals
// dx - dy + (dx - u)·dy - (dy - v)·dx expressed through the remaining
// distances rx = sx·(x1 - x) and ry = sy·(y1 - y); that identity is the
// well-formedness predicate below and carries the whole proof: the walk
// never oversteps the target and reaches it exactly.
// ---------------------------------------------------------------------------

pub open spec fn abs_i(v: int) -> int {
    if v >= 0 {
        v
    } else {
        -v
    }
}

/// The number of unit steps of sign `s` still needed to move `from` to `to`.
/// For the signs Bresenham picks it is non-negative until the target is passed.
pub open spec fn rem_toward(s: int, from: int, to: int) -> int {
    if s == 1 {
        to - from
    } else {
        from - to
    }
}

/// Well-formedness of a Bresenham walk state.
pub open spec fn bres_inv(
    x: int,
    y: int,
    x1: int,
    y1: int,
    dx: int,
    dy: int,
    sx: int,
    sy: int,
    err: int,
) -> bool {
    &&& dx >= 0
    &&& dy >= 0
    &&& (sx == 1 || sx == -1)
    &&& (sy == 1 || sy == -1)
    &&& 0 <= rem_toward(sx, x, x1) <= dx
    &&& 0 <= rem_toward(sy, y, y1) <= dy
    &&& err == dx - dy + rem_toward(sx, x, x1) * dy - rem_toward(sy, y, y1) * dx
}

/// One Bresenham step: the coordinates after the current pixel, and the new
/// error term.  Both branches may fire in the same step (a diagonal move).
pub open spec fn bres_next(
    x: int,
    y: int,
    dx: int,
    dy: int,
    sx: int,
    sy: int,
    err: int,
) -> (int, int, int) {
    let e2: int = 2 * err;
    let x2: int = if e2 > -dy {
        x + sx
    } else {
        x
    };
    let y2: int = if e2 < dx {
        y + sy
    } else {
        y
    };
    let err2: int = err + (if e2 > -dy {
        -dy
    } else {
        0
    }) + (if e2 < dx {
        dx
    } else {
        0
    });
    (x2, y2, err2)
}

/// A Bresenham step from a well-formed state that has not reached the target
/// moves at least one coordinate, never past the target, keeps the state
/// well-formed, and keeps the error term within [-2·dy, 2·dx].
pub proof fn lemma_bres_step(
    x: int,
    y: int,
    x1: int,
    y1: int,
    dx: int,
    dy: int,
    sx: int,
    sy: int,
    err: int,
)
    requires
        bres_inv(x, y, x1, y1, dx, dy, sx, sy, err),
        !(x == x1 && y == y1),
    ensures
        ({
            let n = bres_next(x, y, dx, dy, sx, sy, err);
            &&& bres_inv(n.0, n.1, x1, y1, dx, dy, sx, sy, n.2)
            &&& 0 <= rem_toward(sx, n.0, x1) + rem_toward(sy, n.1, y1) < rem_toward(sx, x, x1)
                + rem_toward(sy, y, y1)
            &&& (-2 * dy <= err <= 2 * dx ==> -2 * dy <= n.2 <= 2 * dx)
        }),
{
    let rx = rem_toward(sx, x, x1);
    let ry = rem_toward(sy, y, y1);
    assert(rx != 0 || ry != 0);
    let e2: int = 2 * err;
    let g1 = e2 > -dy;
    let g2 = e2 < dx;
    // The walk never steps past the target in x.
    assert(rx == 0 ==> !(e2 > -dy)) by (nonlinear_arith)
        requires
            err == dx - dy + rx * dy - ry * dx,
            e2 == 2 * err,
            dx >= 0,
            dy >= 0,
            0 <= ry <= dy,
            rx == 0 ==> ry >= 1,
    ;
    assert(rx == 0 ==> !g1);
    // Nor in y.
    assert(ry == 0 ==> !(e2 < dx)) by (nonlinear_arith)
        requires
            err == dx - dy + rx * dy - ry * dx,
            e2 == 2 * err,
            dx >= 0,
            dy >= 0,
            0 <= rx <= dx,
            ry == 0 ==> rx >= 1,
    ;
    assert(ry == 0 ==> !g2);
    // And it always takes a step.
    assert(g1 || g2) by {
        if !g1 && !g2 {
            assert(dx <= e2 <= -dy);
            assert(dx == 0 && dy == 0);
            assert(rx == 0 && ry == 0);
        }
    }
    let n = bres_next(x, y, dx, dy, sx, sy, err);
    let rx2 = rem_toward(sx, n.0, x1);
    let ry2 = rem_toward(sy, n.1, y1);
    assert(rx2 == if g1 {
        rx - 1
    } else {
        rx
    });
    assert(ry2 == if g2 {
        ry - 1
    } else {
        ry
    });
    // The error-term identity survives the step.
    assert(n.2 == dx - dy + rx2 * dy - ry2 * dx) by (nonlinear_arith)
        requires
            err == dx - dy + rx * dy - ry * dx,
            n.2 == err + (if g1 {
                -dy
            } else {
                0
            }) + (if g2 {
                dx
            } else {
                0
            }),
            rx2 == if g1 {
                rx - 1
            } else {
                rx
            },
            ry2 == if g2 {
                ry - 1
            } else {
                ry
            },
    ;
}

/// The pixels Bresenham's algorithm visits from (x, y) to (x1, y1),
/// both inclusive, in visiting order.
pub open spec fn bres_path(
    x: int,
    y: int,
    x1: int,
    y1: int,
    dx: int,
    dy: int,
    sx: int,
    sy: int,
    err: int,
) -> Seq<(int, int)>
    decreases rem_toward(sx, x, x1) + rem_toward(sy, y, y1),
        when bres_inv(x, y, x1, y1, dx, dy, sx, sy, err)
        via bres_path_decreases
{
    if x == x1 && y == y1 {
        seq![(x, y)]
    } else {
        let n = bres_next(x, y, dx, dy, sx, sy, err);
        seq![(x, y)] + bres_path(n.0, n.1, x1, y1, dx, dy, sx, sy, n.2)
    }
}

#[via_fn]
proof fn bres_path_decreases(
    x: int,
    y: int,
    x1: int,
    y1: int,
    dx: int,
    dy: int,
    sx: int,
    sy: int,
    err: int,
) {
    if !(x == x1 && y == y1) {
        lemma_bres_step(x, y, x1, y1, dx, dy, sx, sy, err);
    }
}

/// The pixel path of the line from (ax, ay) to (bx, by): Bresenham's walk
/// started with dx = |bx - ax|, dy = |by - ay|, steps toward the target, and
/// error term dx - dy.
pub open spec fn line_points(ax: int, ay: int, bx: int, by: int) -> Seq<(int, int)> {
    let dx: int = abs_i(bx - ax);
    let dy: int = abs_i(by - ay);
    let sx: int = if ax < bx {
        1
    } else {
        -1
    };
    let sy: int = if ay < by {
        1
    } else {
        -1
    };
    bres_path(ax, ay, bx, by, dx, dy, sx, sy, dx - dy)
}

/// The starting state of a line's walk is well-formed.
pub proof fn lemma_line_start_inv(ax: int, ay: int, bx: int, by: int)
    ensures
        ({
            let dx: int = abs_i(bx - ax);
            let dy: int = abs_i(by - ay);
            let sx: int = if ax < bx {
                1
            } else {
                -1
            };
            let sy: int = if ay < by {
                1
            } else {
                -1
            };
            bres_inv(ax, ay, bx, by, dx, dy, sx, sy, dx - dy)
        }),
{
    let dx: int = abs_i(bx - ax);
    let dy: int = abs_i(by - ay);
    let sx: int = if ax < bx {
        1
    } else {
        -1
    };
    let sy: int = if ay < by {
        1
    } else {
        -1
    };
    assert(rem_toward(sx, ax, bx) == dx);
    assert(rem_toward(sy, ay, by) == dy);
    assert(dx - dy + rem_toward(sx, ax, bx) * dy - rem_toward(sy, ay, by) * dx == dx - dy)
        by (nonlinear_arith)
        requires
            rem_toward(sx, ax, bx) == dx,
            rem_toward(sy, ay, by) == dy,
    ;
}

/// Draw the line from (x0, y0) to (x1, y1) onto the buffer, clipped to the
/// buffer's bounds.  The coordinate bound keeps every intermediate value of
/// the walk well inside `i64`.
pub(crate) fn draw_line_raw(
    img: &mut raster::Image,
    x0: i64,
    y0: i64,
    x1: i64,
    y1: i64,
    color: Color,
)
    requires
        buffer_inv(*old(img)),
        -0x100_0000_0000 <= x0 <= 0x100_0000_0000,
        -0x100_0000_0000 <= y0 <= 0x100_0000_0000,
        -0x100_0000_0000 <= x1 <= 0x100_0000_0000,
        -0x100_0000_0000 <= y1 <= 0x100_0000_0000,
    ensures
        buffer_inv(*final(img)),
        width_of(*final(img)) == width_of(*old(img)),
        height_of(*final(img)) == height_of(*old(img)),
        pixels_of(*final(img)) == paint(
            pixels_of(*old(img)),
            line_points(x0 as int, y0 as int, x1 as int, y1 as int),
            rgba_of(color),
            width_of(*old(img)),
            height_of(*old(img)),
        ),
{
    let ghost pix0 = pixels_of(*img);
    let ghost w = width_of(*img);
    let ghost h = height_of(*img);
    let ghost c4 = rgba_of(color);
    let ghost total = line_points(x0 as int, y0 as int, x1 as int, y1 as int);

    let dx: i64 = if x1 >= x0 {
        x1 - x0
    } else {
        x0 - x1
    };
    let dy: i64 = if y1 >= y0 {
        y1 - y0
    } else {
        y0 - y1
    };
    let sx: i64 = if x0 < x1 {
        1
    } else {
        -1
    };
    let sy: i64 = if y0 < y1 {
        1
    } else {
        -1
    };
    let mut x: i64 = x0;
    let mut y: i64 = y0;
    let mut err: i64 = dx - dy;
    let ghost mut visited: Seq<(int, int)> = Seq::empty();

    proof {
        lemma_line_start_inv(x0 as int, y0 as int, x1 as int, y1 as int);
        assert(total =~= visited + total);
    }

    loop
        invariant_except_break
            buffer_inv(*img),
            width_of(*img) == w,
            height_of(*img) == h,
            0 <= dx <= 0x200_0000_0000,
            0 <= dy <= 0x200_0000_0000,
            -0x100_0000_0000 <= x1 <= 0x100_0000_0000,
            -0x100_0000_0000 <= y1 <= 0x100_0000_0000,
            bres_inv(
                x as int,
                y as int,
                x1 as int,
                y1 as int,
                dx as int,
                dy as int,
                sx as int,
                sy as int,
                err as int,
            ),
            -2 * dy <= err <= 2 * dx,
            c4 == rgba_of(color),
            total == visited + bres_path(
                x as int,
                y as int,
                x1 as int,
                y1 as int,
                dx as int,
                dy as int,
                sx as int,
                sy as int,
                err as int,
            ),
            pixels_of(*img) == paint(pix0, visited, c4, w, h),
        ensures
            buffer_inv(*img),
            width_of(*img) == w,
            height_of(*img) == h,
            pixels_of(*img) == paint(pix0, total, c4, w, h),
        decreases rem_toward(sx as int, x as int, x1 as int) + rem_toward(
            sy as int,
            y as int,
            y1 as int,
        ),
    {
        plot(img, x, y, color);
        let ghost q = (x as int, y as int);
        let ghost rest = bres_path(
            x as int,
            y as int,
            x1 as int,
            y1 as int,
            dx as int,
            dy as int,
            sx as int,
            sy as int,
            err as int,
        );
        proof {
            lemma_paint_push(pix0, visited, q, c4, w, h);
            assert(visited + seq![q] =~= visited.push(q));
        }
        if x == x1 && y == y1 {
            proof {
                assert(rest == seq![q]);
                visited = visited.push(q);
                assert(total == visited);
            }
            break ;
        }
        proof {
            lemma_bres_step(
                x as int,
                y as int,
                x1 as int,
                y1 as int,
                dx as int,
                dy as int,
                sx as int,
                sy as int,
                err as int,
            );
            let n = bres_next(x as int, y as int, dx as int, dy as int, sx as int, sy as int, err as int);
            let tail = bres_path(n.0, n.1, x1 as int, y1 as int, dx as int, dy as int, sx as int, sy as int, n.2);
            assert(rest == seq![q] + tail);
            assert(visited + (seq![q] + tail) =~= visited.push(q) + tail);
            visited = visited.push(q);
            assert(total == visited + tail);
        }
        let e2: i64 = 2 * err;
        if e2 > -dy {
            err = err - dy;
            x = x + sx;
        }
        if e2 < dx {
            err = err + dx;
            y = y + sy;
        }
    }
}

// ---------------------------------------------------------------------------
// Circle rasterization: the midpoint circle algorithm.
//
// Starting from the axis point (r, 0) the walk climbs in y; the decision
// parameter p tells whether the midpoint of the next candidate pair lies
// inside the ideal circle, and r shrinks when it does not.  Every accepted
// (r, y) pair is plotted in all eight octants around the center.
// ---------------------------------------------------------------------------

/// The eight symmetric reflections of the offset pair (r, y) around the
/// center, skipping the swapped four exactly on the diagonal r == y where
/// they would repeat the first four.
pub open spec fn mirror8(cx: int, cy: int, r: int, y: int) -> Seq<(int, int)> {
    let base = seq![(cx + r, cy - y), (cx - r, cy - y), (cx + r, cy + y), (cx - r, cy + y)];
    if r != y {
        base + seq![(cx + y, cy - r), (cx - y, cy - r), (cx + y, cy + r), (cx - y, cy + r)]
    } else {
        base
    }
}

/// The pixels the midpoint walk plots after state (r, y, p), in plotting
/// order.  The walk stops when r crosses below y.
pub open spec fn circle_arc(cx: int, cy: int, r: int, y: int, p: int) -> Seq<(int, int)>
    decreases r - y,
{
    if r <= y {
        Seq::<(int, int)>::empty()
    } else {
        let y2: int = y + 1;
        let r2: int = if p <= 0 {
            r
        } else {
            r - 1
        };
        let p2: int = if p <= 0 {
            p + 2 * y2 + 1
        } else {
            p + 2 * y2 - 2 * r2 + 1
        };
        if r2 < y2 {
            Seq::<(int, int)>::empty()
        } else {
            mirror8(cx, cy, r2, y2) + circle_arc(cx, cy, r2, y2, p2)
        }
    }
}

/// The pixels of the circle around (cx, cy) with radius r: the four
/// axis-extremal points, then the eight-way symmetric walk.  A circle with
/// non-positive radius plots nothing.
pub open spec fn circle_points(cx: int, cy: int, r: int) -> Seq<(int, int)> {
    if r <= 0 {
        Seq::<(int, int)>::empty()
    } else {
        seq![(cx + r, cy), (cx - r, cy), (cx, cy + r), (cx, cy - r)] + circle_arc(
            cx,
            cy,
            r,
            0,
            1 - r,
        )
    }
}

/// Draw the circle around (cx, cy) with radius r0 onto the buffer, clipped
/// to the buffer's bounds.
pub(crate) fn draw_circle_raw(img: &mut raster::Image, cx: i64, cy: i64, r0: i64, color: Color)
    requires
        buffer_inv(*old(img)),
        -0x8000_0000 <= cx <= 0x8000_0000,
        -0x8000_0000 <= cy <= 0x8000_0000,
        r0 <= 0x8000_0000,
    ensures
        buffer_inv(*final(img)),
        width_of(*final(img)) == width_of(*old(img)),
        height_of(*final(img)) == height_of(*old(img)),
        pixels_of(*final(img)) == paint(
            pixels_of(*old(img)),
            circle_points(cx as int, cy as int, r0 as int),
            rgba_of(color),
            width_of(*old(img)),
            height_of(*old(img)),
        ),
{
    let ghost pix0 = pixels_of(*img);
    let ghost w = width_of(*img);
    let ghost h = height_of(*img);
    let ghost c4 = rgba_of(color);
    let ghost total = circle_points(cx as int, cy as int, r0 as int);

    if r0 <= 0 {
        return ;
    }
    let ghost mut visited: Seq<(int, int)> = Seq::empty();
    plot(img, cx + r0, cy, color);
    proof {
        lemma_paint_push(pix0, visited, ((cx + r0) as int, cy as int), c4, w, h);
        visited = visited.push(((cx + r0) as int, cy as int));
    }
    plot(img, cx - r0, cy, color);
    proof {
        lemma_paint_push(pix0, visited, ((cx - r0) as int, cy as int), c4, w, h);
        visited = visited.push(((cx - r0) as int, cy as int));
    }
    plot(img, cx, cy + r0, color);
    proof {
        lemma_paint_push(pix0, visited, (cx as int, (cy + r0) as int), c4, w, h);
        visited = visited.push((cx as int, (cy + r0) as int));
    }
    plot(img, cx, cy - r0, color);
    proof {
        lemma_paint_push(pix0, visited, (cx as int, (cy - r0) as int), c4, w, h);
        visited = visited.push((cx as int, (cy - r0) as int));
    }

    let mut r: i64 = r0;
    let mut y: i64 = 0;
    let mut p: i64 = 1 - r0;
    proof {
        assert(total =~= visited + circle_arc(cx as int, cy as int, r as int, y as int, p as int));
    }

    while r > y
        invariant_except_break
            buffer_inv(*img),
            width_of(*img) == w,
            height_of(*img) == h,
            c4 == rgba_of(color),
            -0x8000_0000 <= cx <= 0x8000_0000,
            -0x8000_0000 <= cy <= 0x8000_0000,
            0 < r0 <= 0x8000_0000,
            0 <= y <= r <= r0,
            1 - 2 * r0 <= p <= 2 * y + 1,
            total == visited + circle_arc(cx as int, cy as int, r as int, y as int, p as int),
            pixels_of(*img) == paint(pix0, visited, c4, w, h),
        ensures
            buffer_inv(*img),
            width_of(*img) == w,
            height_of(*img) == h,
            pixels_of(*img) == paint(pix0, total, c4, w, h),
        decreases r - y,
    {
        let ghost arc0 = circle_arc(cx as int, cy as int, r as int, y as int, p as int);
        y = y + 1;
        if p <= 0 {
            p = p + 2 * y + 1;
        } else {
            r = r - 1;
            p = p + 2 * y - 2 * r + 1;
        }
        if r < y {
            proof {
                assert(arc0 == Seq::<(int, int)>::empty());
                assert(total == visited);
            }
            break ;
        }
        let ghost m8 = mirror8(cx as int, cy as int, r as int, y as int);
        let ghost tail = circle_arc(cx as int, cy as int, r as int, y as int, p as int);
        proof {
            assert(arc0 == m8 + tail);
        }
        let ghost mut added: Seq<(int, int)> = Seq::empty();
        plot(img, cx + r, cy - y, color);
        proof {
            lemma_paint_push(pix0, visited, ((cx + r) as int, (cy - y) as int), c4, w, h);
            visited = visited.push(((cx + r) as int, (cy - y) as int));
            added = added.push(((cx + r) as int, (cy - y) as int));
        }
        plot(img, cx - r, cy - y, color);
        proof {
            lemma_paint_push(pix0, visited, ((cx - r) as int, (cy - y) as int), c4, w, h);
            visited = visited.push(((cx - r) as int, (cy - y) as int));
            added = added.push(((cx - r) as int, (cy - y) as int));
        }
        plot(img, cx + r, cy + y, color);
        proof {
            lemma_paint_push(pix0, visited, ((cx + r) as int, (cy + y) as int), c4, w, h);
            visited = visited.push(((cx + r) as int, (cy + y) as int));
            added = added.push(((cx + r) as int, (cy + y) as int));
        }
        plot(img, cx - r, cy + y, color);
        proof {
            lemma_paint_push(pix0, visited, ((cx - r) as int, (cy + y) as int), c4, w, h);
            visited = visited.push(((cx - r) as int, (cy + y) as int));
            added = added.push(((cx - r) as int, (cy + y) as int));
        }
        if r != y {
            plot(img, cx + y, cy - r, color);
            proof {
                lemma_paint_push(pix0, visited, ((cx + y) as int, (cy - r) as int), c4, w, h);
                visited = visited.push(((cx + y) as int, (cy - r) as int));
                added = added.push(((cx + y) as int, (cy - r) as int));
            }
            plot(img, cx - y, cy - r, color);
            proof {
                lemma_paint_push(pix0, visited, ((cx - y) as int, (cy - r) as int), c4, w, h);
                visited = visited.push(((cx - y) as int, (cy - r) as int));
                added = added.push(((cx - y) as int, (cy - r) as int));
            }
            plot(img, cx + y, cy + r, color);
            proof {
                lemma_paint_push(pix0, visited, ((cx + y) as int, (cy + r) as int), c4, w, h);
                visited = visited.push(((cx + y) as int, (cy + r) as int));
                added = added.push(((cx + y) as int, (cy + r) as int));
            }
            plot(img, cx - y, cy + r, color);
            proof {
                lemma_paint_push(pix0, visited, ((cx - y) as int, (cy + r) as int), c4, w, h);
                visited = visited.push(((cx - y) as int, (cy + r) as int));
                added = added.push(((cx - y) as int, (cy + r) as int));
            }
        }
        proof {
            assert(added =~= m8);
            assert(total == visited + tail);
        }
    }
}

// ---------------------------------------------------------------------------
// The rasterizer: one drawing operation per shape variant.  Composite shapes
// decompose into line draws; every write is bounds-checked in `plot`.
// ---------------------------------------------------------------------------

impl Drawable for Point {
    open spec fn draw_points(&self) -> Seq<(int, int)> {
        seq![(self.x as int, self.y as int)]
    }

    open spec fn paint_rgba(&self) -> (u8, u8, u8, u8) {
        rgba_of(self.color)
    }

    open spec fn recolored(&self, color: Color) -> Point {
        Point { x: self.x, y: self.y, color }
    }

    fn draw(&mut self, image: &mut raster::Image) {
        let ghost pix0 = pixels_of(*image);
        let ghost w = width_of(*image);
        let ghost h = height_of(*image);
        plot(image, self.x as i64, self.y as i64, self.color);
        proof {
            lemma_paint_single(
                pix0,
                (self.x as int, self.y as int),
                rgba_of(self.color),
                w,
                h,
            );
        }
    }

    fn color(&mut self, color: &Color) {
        self.color = *color;
    }
}

impl Drawable for Line {
    open spec fn draw_points(&self) -> Seq<(int, int)> {
        line_points(
            self.point_a.x as int,
            self.point_a.y as int,
            self.point_b.x as int,
            self.point_b.y as int,
        )
    }

    open spec fn paint_rgba(&self) -> (u8, u8, u8, u8) {
        rgba_of(self.color)
    }

    open spec fn recolored(&self, color: Color) -> Line {
        Line { point_a: self.point_a, point_b: self.point_b, color }
    }

    fn draw(&mut self, image: &mut raster::Image) {
        draw_line_raw(
            image,
            self.point_a.x as i64,
            self.point_a.y as i64,
            self.point_b.x as i64,
            self.point_b.y as i64,
            self.color,
        );
    }

    fn color(&mut self, color: &Color) {
        self.color = *color;
    }
}

impl Drawable for Triangle {
    open spec fn draw_points(&self) -> Seq<(int, int)> {
        let ax = self.point_a.x as int;
        let ay = self.point_a.y as int;
        let bx = self.point_b.x as int;
        let by = self.point_b.y as int;
        let cx = self.point_c.x as int;
        let cy = self.point_c.y as int;
        line_points(ax, ay, bx, by) + line_points(bx, by, cx, cy) + line_points(ax, ay, cx, cy)
    }

    open spec fn paint_rgba(&self) -> (u8, u8, u8, u8) {
        rgba_of(self.color)
    }

    open spec fn recolored(&self, color: Color) -> Triangle {
        Triangle {
            point_a: self.point_a,
            point_b: self.point_b,
            point_c: self.point_c,
            color,
        }
    }

    fn draw(&mut self, image: &mut raster::Image) {
        let ghost pix0 = pixels_of(*image);
        let ghost w = width_of(*image);
        let ghost h = height_of(*image);
        let ghost c4 = rgba_of(self.color);
        let ghost s1 = line_points(
            self.point_a.x as int,
            self.point_a.y as int,
            self.point_b.x as int,
            self.point_b.y as int,
        );
        let ghost s2 = line_points(
            self.point_b.x as int,
            self.point_b.y as int,
            self.point_c.x as int,
            self.point_c.y as int,
        );
        let ghost s3 = line_points(
            self.point_a.x as int,
            self.point_a.y as int,
            self.point_c.x as int,
            self.point_c.y as int,
        );
        draw_line_raw(
            image,
            self.point_a.x as i64,
            self.point_a.y as i64,
            self.point_b.x as i64,
            self.point_b.y as i64,
            self.color,
        );
        draw_line_raw(
            image,
            self.point_b.x as i64,
            self.point_b.y as i64,
            self.point_c.x as i64,
            self.point_c.y as i64,
            self.color,
        );
        draw_line_raw(
            image,
            self.point_a.x as i64,
            self.point_a.y as i64,
            self.point_c.x as i64,
            self.point_c.y as i64,
            self.color,
        );
        proof {
            lemma_paint_concat(pix0, s1, s2, c4, w, h);
            lemma_paint_concat(pix0, s1 + s2, s3, c4, w, h);
        }
    }

    fn color(&mut self, color: &Color) {
        self.color = *color;
    }
}

impl Drawable for Rectangle {
    open spec fn draw_points(&self) -> Seq<(int, int)> {
        let ax = self.point_a.x as int;
        let ay = self.point_a.y as int;
        let bx = self.point_b.x as int;
        let by = self.point_b.y as int;
        let cx = self.point_c.x as int;
        let cy = self.point_c.y as int;
        let dx = self.point_d.x as int;
        let dy = self.point_d.y as int;
        line_points(ax, ay, bx, by) + line_points(bx, by, cx, cy) + line_points(cx, cy, dx, dy)
            + line_points(dx, dy, ax, ay)
    }

    open spec fn paint_rgba(&self) -> (u8, u8, u8, u8) {
        rgba_of(self.color)
    }

    open spec fn recolored(&self, color: Color) -> Rectangle {
        Rectangle {
            point_a: self.point_a,
            point_b: self.point_b,
            point_c: self.point_c,
            point_d: self.point_d,
            color,
        }
    }

    fn draw(&mut self, image: &mut raster::Image) {
        let ghost pix0 = pixels_of(*image);
        let ghost w = width_of(*image);
        let ghost h = height_of(*image);
        let ghost c4 = rgba_of(self.color);
        let ghost s1 = line_points(
            self.point_a.x as int,
            self.point_a.y as int,
            self.point_b.x as int,
            self.point_b.y as int,
        );
        let ghost s2 = line_points(
            self.point_b.x as int,
            self.point_b.y as int,
            self.point_c.x as int,
            self.point_c.y as int,
        );
        let ghost s3 = line_points(
            self.point_c.x as int,
            self.point_c.y as int,
            self.point_d.x as int,
            self.point_d.y as int,
        );
        let ghost s4 = line_points(
            self.point_d.x as int,
            self.point_d.y as int,
            self.point_a.x as int,
            self.point_a.y as int,
        );
        draw_line_raw(
            image,
            self.point_a.x as i64,
            self.point_a.y as i64,
            self.point_b.x as i64,
            self.point_b.y as i64,
            self.color,
        );
        draw_line_raw(
            image,
            self.point_b.x as i64,
            self.point_b.y as i64,
            self.point_c.x as i64,
            self.point_c.y as i64,
            self.color,
        );
        draw_line_raw(
            image,
            self.point_c.x as i64,
            self.point_c.y as i64,
            self.point_d.x as i64,
            self.point_d.y as i64,
            self.color,
        );
        draw_line_raw(
            image,
            self.point_d.x as i64,
            self.point_d.y as i64,
            self.point_a.x as i64,
            self.point_a.y as i64,
            self.color,
        );
        proof {
            lemma_paint_concat(pix0, s1, s2, c4, w, h);
            lemma_paint_concat(pix0, s1 + s2, s3, c4, w, h);
            lemma_paint_concat(pix0, s1 + s2 + s3, s4, c4, w, h);
        }
    }

    fn color(&mut self, color: &Color) {
        self.color = *color;
    }
}

impl Drawable for Circle {
    open spec fn draw_points(&self) -> Seq<(int, int)> {
        circle_points(self.center.x as int, self.center.y as int, self.radius as int)
    }

    open spec fn paint_rgba(&self) -> (u8, u8, u8, u8) {
        rgba_of(self.color)
    }

    open spec fn recolored(&self, color: Color) -> Circle {
        Circle { center: self.center, radius: self.radius, color }
    }

    fn draw(&mut self, image: &mut raster::Image) {
        draw_circle_raw(
            image,
            self.center.x as i64,
            self.center.y as i64,
            self.radius as i64,
            self.color,
        );
    }

    fn color(&mut self, color: &Color) {
        self.color = *color;
    }
}

// ---------------------------------------------------------------------------
// Pentagon and cube decompositions.
// ---------------------------------------------------------------------------

/// The pixel path of the pentagon around (cx, cy): the five edges between
/// consecutive vertices, the last edge closing back on the first vertex.
pub open spec fn penta_points(cx: int, cy: int, r: int, rot: int) -> Seq<(int, int)> {
    let v0 = penta_vertex(cx, cy, r, rot, 0);
    let v1 = penta_vertex(cx, cy, r, rot, 1);
    let v2 = penta_vertex(cx, cy, r, rot, 2);
    let v3 = penta_vertex(cx, cy, r, rot, 3);
    let v4 = penta_vertex(cx, cy, r, rot, 4);
    let v5 = penta_vertex(cx, cy, r, rot, 5);
    line_points(v0.0, v0.1, v1.0, v1.1) + line_points(v1.0, v1.1, v2.0, v2.1) + line_points(
        v2.0,
        v2.1,
        v3.0,
        v3.1,
    ) + line_points(v3.0, v3.1, v4.0, v4.1) + line_points(v4.0, v4.1, v5.0, v5.1)
}

impl Drawable for Pentagon {
    open spec fn draw_points(&self) -> Seq<(int, int)> {
        penta_points(
            self.center.x as int,
            self.center.y as int,
            self.radius as int,
            self.rotation as int,
        )
    }

    open spec fn paint_rgba(&self) -> (u8, u8, u8, u8) {
        rgba_of(self.color)
    }

    open spec fn recolored(&self, color: Color) -> Pentagon {
        Pentagon {
            center: self.center,
            radius: self.radius,
            rotation: self.rotation,
            color,
        }
    }

    fn draw(&mut self, image: &mut raster::Image) {
        let ghost pix0 = pixels_of(*image);
        let ghost w = width_of(*image);
        let ghost h = height_of(*image);
        let ghost c4 = rgba_of(self.color);
        let v0 = penta_vertex_x(self.center.x, self.center.y, self.radius, self.rotation, 0);
        let v1 = penta_vertex_x(self.center.x, self.center.y, self.radius, self.rotation, 1);
        let v2 = penta_vertex_x(self.center.x, self.center.y, self.radius, self.rotation, 2);
        let v3 = penta_vertex_x(self.center.x, self.center.y, self.radius, self.rotation, 3);
        let v4 = penta_vertex_x(self.center.x, self.center.y, self.radius, self.rotation, 4);
        let v5 = penta_vertex_x(self.center.x, self.center.y, self.radius, self.rotation, 5);
        let ghost s1 = line_points(v0.0 as int, v0.1 as int, v1.0 as int, v1.1 as int);
        let ghost s2 = line_points(v1.0 as int, v1.1 as int, v2.0 as int, v2.1 as int);
        let ghost s3 = line_points(v2.0 as int, v2.1 as int, v3.0 as int, v3.1 as int);
        let ghost s4 = line_points(v3.0 as int, v3.1 as int, v4.0 as int, v4.1 as int);
        let ghost s5 = line_points(v4.0 as int, v4.1 as int, v5.0 as int, v5.1 as int);
        draw_line_raw(image, v0.0, v0.1, v1.0, v1.1, self.color);
        draw_line_raw(image, v1.0, v1.1, v2.0, v2.1, self.color);
        draw_line_raw(image, v2.0, v2.1, v3.0, v3.1, self.color);
        draw_line_raw(image, v3.0, v3.1, v4.0, v4.1, self.color);
        draw_line_raw(image, v4.0, v4.1, v5.0, v5.1, self.color);
        proof {
            lemma_paint_concat(pix0, s1, s2, c4, w, h);
            lemma_paint_concat(pix0, s1 + s2, s3, c4, w, h);
            lemma_paint_concat(pix0, s1 + s2 + s3, s4, c4, w, h);
            lemma_paint_concat(pix0, s1 + s2 + s3 + s4, s5, c4, w, h);
        }
    }

    fn color(&mut self, color: &Color) {
        self.color = *color;
    }
}

/// Half of `w`, rounded toward zero, as the cube's rear offset.
pub open spec fn half_toward_zero(w: int) -> int {
    if w >= 0 {
        w / 2
    } else {
        -((-w) / 2)
    }
}

/// The outline of the axis-aligned square with top-left corner (x, y) and
/// side s, drawn corner to corner all the way around.
pub open spec fn square_points(x: int, y: int, s: int) -> Seq<(int, int)> {
    line_points(x, y, x + s, y) + line_points(x + s, y, x + s, y + s) + line_points(
        x + s,
        y + s,
        x,
        y + s,
    ) + line_points(x, y + s, x, y)
}

/// The pixel path of the isometric wireframe cube: the front square, the
/// rear square offset by half the side in both axes, and the four edges
/// joining corresponding corners.
pub open spec fn cube_points(x: int, y: int, w: int) -> Seq<(int, int)> {
    let hw = half_toward_zero(w);
    square_points(x, y, w) + square_points(x + hw, y + hw, w) + line_points(x, y, x + hw, y + hw)
        + line_points(x + w, y + w, x + w + hw, y + w + hw) + line_points(
        x + w,
        y,
        x + w + hw,
        y + hw,
    ) + line_points(x, y + w, x + hw, y + w + hw)
}

impl Drawable for Cube {
    open spec fn draw_points(&self) -> Seq<(int, int)> {
        cube_points(self.top_left.x as int, self.top_left.y as int, self.width as int)
    }

    open spec fn paint_rgba(&self) -> (u8, u8, u8, u8) {
        rgba_of(self.color)
    }

    open spec fn recolored(&self, color: Color) -> Cube {
        Cube { top_left: self.top_left, width: self.width, color }
    }

    #[verifier::rlimit(60)]
    fn draw(&mut self, image: &mut raster::Image) {
        let ghost pix0 = pixels_of(*image);
        let ghost ww = width_of(*image);
        let ghost hh = height_of(*image);
        let ghost c4 = rgba_of(self.color);
        let x: i64 = self.top_left.x as i64;
        let y: i64 = self.top_left.y as i64;
        let w: i64 = self.width as i64;
        let hw: i64 = if w >= 0 {
            w / 2
        } else {
            -((-w) / 2)
        };
        let ghost s1 = line_points(x as int, y as int, x as int + w as int, y as int);
        let ghost s2 = line_points(
            x as int + w as int,
            y as int,
            x as int + w as int,
            y as int + w as int,
        );
        let ghost s3 = line_points(
            x as int + w as int,
            y as int + w as int,
            x as int,
            y as int + w as int,
        );
        let ghost s4 = line_points(x as int, y as int + w as int, x as int, y as int);
        let ghost rx = x as int + hw as int;
        let ghost ry = y as int + hw as int;
        let ghost s5 = line_points(rx, ry, rx + w as int, ry);
        let ghost s6 = line_points(rx + w as int, ry, rx + w as int, ry + w as int);
        let ghost s7 = line_points(rx + w as int, ry + w as int, rx, ry + w as int);
        let ghost s8 = line_points(rx, ry + w as int, rx, ry);
        let ghost s9 = line_points(x as int, y as int, rx, ry);
        let ghost s10 = line_points(
            x as int + w as int,
            y as int + w as int,
            rx + w as int,
            ry + w as int,
        );
        let ghost s11 = line_points(x as int + w as int, y as int, rx + w as int, ry);
        let ghost s12 = line_points(x as int, y as int + w as int, rx, ry + w as int);
        draw_line_raw(image, x, y, x + w, y, self.color);
        draw_line_raw(image, x + w, y, x + w, y + w, self.color);
        draw_line_raw(image, x + w, y + w, x, y + w, self.color);
        draw_line_raw(image, x, y + w, x, y, self.color);
        draw_line_raw(image, x + hw, y + hw, x + hw + w, y + hw, self.color);
        draw_line_raw(image, x + hw + w, y + hw, x + hw + w, y + hw + w, self.color);
        draw_line_raw(image, x + hw + w, y + hw + w, x + hw, y + hw + w, self.color);
        draw_line_raw(image, x + hw, y + hw + w, x + hw, y + hw, self.color);
        draw_line_raw(image, x, y, x + hw, y + hw, self.color);
        draw_line_raw(image, x + w, y + w, x + w + hw, y + w + hw, self.color);
        draw_line_raw(image, x + w, y, x + w + hw, y + hw, self.color);
        draw_line_raw(image, x, y + w, x + hw, y + w + hw, self.color);
        proof {
            lemma_paint_concat(pix0, s1, s2, c4, ww, hh);
            lemma_paint_concat(pix0, s1 + s2, s3, c4, ww, hh);
            lemma_paint_concat(pix0, s1 + s2 + s3, s4, c4, ww, hh);
            lemma_paint_concat(pix0, s1 + s2 + s3 + s4, s5, c4, ww, hh);
            lemma_paint_concat(pix0, s1 + s2 + s3 + s4 + s5, s6, c4, ww, hh);
            lemma_paint_concat(pix0, s1 + s2 + s3 + s4 + s5 + s6, s7, c4, ww, hh);
            lemma_paint_concat(pix0, s1 + s2 + s3 + s4 + s5 + s6 + s7, s8, c4, ww, hh);
            lemma_paint_concat(pix0, s1 + s2 + s3 + s4 + s5 + s6 + s7 + s8, s9, c4, ww, hh);
            lemma_paint_concat(pix0, s1 + s2 + s3 + s4 + s5 + s6 + s7 + s8 + s9, s10, c4, ww, hh);
            lemma_paint_concat(
                pix0,
                s1 + s2 + s3 + s4 + s5 + s6 + s7 + s8 + s9 + s10,
                s11,
                c4,
                ww,
                hh,
            );
            lemma_paint_concat(
                pix0,
                s1 + s2 + s3 + s4 + s5 + s6 + s7 + s8 + s9 + s10 + s11,
                s12,
                c4,
                ww,
                hh,
            );
            assert(cube_points(
                self.top_left.x as int,
                self.top_left.y as int,
                self.width as int,
            ) =~= s1 + s2 + s3 + s4 + s5 + s6 + s7 + s8 + s9 + s10 + s11 + s12);
        }
    }

    fn color(&mut self, color: &Color) {
        self.color = *color;
    }
}

// ---------------------------------------------------------------------------
// Line laws: the plotted path is an 8-connected walk from one endpoint to
// the other, inclusive, with no gaps.
// ---------------------------------------------------------------------------

/// Two pixels are 8-connected neighbours: distinct, and at most one apart in
/// each coordinate.
pub open spec fn adjacent8(p: (int, int), q: (int, int)) -> bool {
    &&& p != q
    &&& -1 <= q.0 - p.0 <= 1
    &&& -1 <= q.1 - p.1 <= 1
}

proof fn lemma_bres_path_shape(
    x: int,
    y: int,
    x1: int,
    y1: int,
    dx: int,
    dy: int,
    sx: int,
    sy: int,
    err: int,
)
    requires
        bres_inv(x, y, x1, y1, dx, dy, sx, sy, err),
    ensures
        ({
            let s = bres_path(x, y, x1, y1, dx, dy, sx, sy, err);
            &&& s.len() >= 1
            &&& s[0] == (x, y)
            &&& s[s.len() - 1] == (x1, y1)
            &&& forall|i: int| 0 <= i < s.len() - 1 ==> adjacent8(#[trigger] s[i], s[i + 1])
        }),
    decreases rem_toward(sx, x, x1) + rem_toward(sy, y, y1),
{
    let s = bres_path(x, y, x1, y1, dx, dy, sx, sy, err);
    if x == x1 && y == y1 {
        assert(s == seq![(x, y)]);
    } else {
        lemma_bres_step(x, y, x1, y1, dx, dy, sx, sy, err);
        let n = bres_next(x, y, dx, dy, sx, sy, err);
        let t = bres_path(n.0, n.1, x1, y1, dx, dy, sx, sy, n.2);
        lemma_bres_path_shape(n.0, n.1, x1, y1, dx, dy, sx, sy, n.2);
        assert(s == seq![(x, y)] + t);
        assert(s[0] == (x, y));
        assert(s[s.len() - 1] == t[t.len() - 1]);
        assert(adjacent8(s[0], s[1])) by {
            assert(s[1] == t[0]);
            assert(t[0] == (n.0, n.1));
            assert((n.0, n.1) != (x, y));
        }
        assert forall|i: int| 0 <= i < s.len() - 1 implies adjacent8(#[trigger] s[i], s[i + 1]) by {
            if i >= 1 {
                assert(s[i] == t[i - 1]);
                assert(s[i + 1] == t[i]);
                assert(adjacent8(t[i - 1], t[i - 1 + 1]));
            }
        }
    }
}

/// Drawing a line plots a connected path of 8-connected pixels from one
/// endpoint to the other, both inclusive, with no gaps: the path starts at
/// (ax, ay), ends at (bx, by), and consecutive plotted pixels are distinct
/// 8-neighbours.
pub proof fn lemma_line_connected(ax: int, ay: int, bx: int, by: int)
    ensures
        ({
            let s = line_points(ax, ay, bx, by);
            &&& s.len() >= 1
            &&& s[0] == (ax, ay)
            &&& s[s.len() - 1] == (bx, by)
            &&& forall|i: int| 0 <= i < s.len() - 1 ==> adjacent8(#[trigger] s[i], s[i + 1])
        }),
{
    lemma_line_start_inv(ax, ay, bx, by);
    let dx: int = abs_i(bx - ax);
    let dy: int = abs_i(by - ay);
    let sx: int = if ax < bx {
        1
    } else {
        -1
    };
    let sy: int = if ay < by {
        1
    } else {
        -1
    };
    lemma_bres_path_shape(ax, ay, bx, by, dx, dy, sx, sy, dx - dy);
}

// ---------------------------------------------------------------------------
// Circle laws: every plotted pixel lies within one pixel of the ideal
// circle, and the plotted set is symmetric under the eight reflections
// around the center.
// ---------------------------------------------------------------------------

/// The squared distance of q from (cx, cy) lies between (r0 - 1)^2 and
/// (r0 + 1)^2: the midpoint algorithm's tolerance band.
pub open spec fn in_ring(cx: int, cy: int, r0: int, q: (int, int)) -> bool {
    let ox = q.0 - cx;
    let oy = q.1 - cy;
    (r0 - 1) * (r0 - 1) <= ox * ox + oy * oy <= (r0 + 1) * (r0 + 1)
}

/// Well-formedness of a midpoint walk state at the loop head: the decision
/// parameter carries the identity p = (y+1)^2 + r(r-1) - r0^2 and stays
/// within its narrow band.
pub open spec fn circ_inv(r0: int, r: int, y: int, p: int) -> bool {
    &&& 1 <= r <= r0
    &&& 0 <= y <= r
    &&& p == (y + 1) * (y + 1) + r * r - r - r0 * r0
    &&& 1 - 2 * r0 <= p <= 2 * y + 1
}

proof fn lemma_circle_arc_ring(cx: int, cy: int, r0: int, r: int, y: int, p: int)
    requires
        circ_inv(r0, r, y, p),
    ensures
        ({
            let s = circle_arc(cx, cy, r, y, p);
            forall|i: int| 0 <= i < s.len() ==> in_ring(cx, cy, r0, #[trigger] s[i])
        }),
    decreases r - y,
{
    let s = circle_arc(cx, cy, r, y, p);
    if r <= y {
    } else {
        let y2: int = y + 1;
        let r2: int = if p <= 0 {
            r
        } else {
            r - 1
        };
        let p2: int = if p <= 0 {
            p + 2 * y2 + 1
        } else {
            p + 2 * y2 - 2 * r2 + 1
        };
        if r2 < y2 {
        } else {
            // The identity survives the step.
            assert(p2 == (y2 + 1) * (y2 + 1) + r2 * r2 - r2 - r0 * r0) by (nonlinear_arith)
                requires
                    p == (y + 1) * (y + 1) + r * r - r - r0 * r0,
                    y2 == y + 1,
                    r2 == if p <= 0 {
                        r
                    } else {
                        r - 1
                    },
                    p2 == if p <= 0 {
                        p + 2 * y2 + 1
                    } else {
                        p + 2 * y2 - 2 * r2 + 1
                    },
            ;
            // The accepted pair stays within one pixel of the ideal circle.
            let v = r2 * r2 + y2 * y2 - r0 * r0;
            assert(v == p2 - 2 * y2 - 1 + r2) by (nonlinear_arith)
                requires
                    p2 == (y2 + 1) * (y2 + 1) + r2 * r2 - r2 - r0 * r0,
                    v == r2 * r2 + y2 * y2 - r0 * r0,
            ;
            if p <= 0 {
                assert(p2 <= 2 * y2 + 1);
                assert(p2 >= 2 * y2 + 2 - 2 * r0);
            } else {
                assert(p2 <= 4 * y2 - 2 * r2);
                assert(p2 >= 2 * y2 - 2 * r2 + 2);
            }
            assert(2 - 2 * r0 <= v <= r0);
            assert((r0 - 1) * (r0 - 1) == r0 * r0 - 2 * r0 + 1) by (nonlinear_arith);
            assert((r0 + 1) * (r0 + 1) == r0 * r0 + 2 * r0 + 1) by (nonlinear_arith);
            assert((r0 - 1) * (r0 - 1) <= r2 * r2 + y2 * y2 <= (r0 + 1) * (r0 + 1));
            let m8 = mirror8(cx, cy, r2, y2);
            assert forall|i: int| 0 <= i < m8.len() implies in_ring(cx, cy, r0, #[trigger] m8[i]) by {
                let q = m8[i];
                let ox = q.0 - cx;
                let oy = q.1 - cy;
                assert(ox * ox + oy * oy == r2 * r2 + y2 * y2) by (nonlinear_arith)
                    requires
                        (ox == r2 || ox == -r2 || ox == y2 || ox == -y2),
                        (oy == r2 || oy == -r2 || oy == y2 || oy == -y2),
                        (ox == r2 || ox == -r2) <==> (oy == y2 || oy == -y2),
                        (ox == y2 || ox == -y2) ==> (oy == r2 || oy == -r2),
                ;
            }
            // The narrow band survives to the next loop head.
            assert(circ_inv(r0, r2, y2, p2));
            lemma_circle_arc_ring(cx, cy, r0, r2, y2, p2);
            let t = circle_arc(cx, cy, r2, y2, p2);
            assert(s == m8 + t);
            assert forall|i: int| 0 <= i < s.len() implies in_ring(cx, cy, r0, #[trigger] s[i]) by {
                if i < m8.len() {
                    assert(s[i] == m8[i]);
                } else {
                    assert(s[i] == t[i - m8.len()]);
                }
            }
        }
    }
}

/// Every pixel a circle of positive radius plots lies within one pixel of
/// the ideal circle: its squared distance from the center is between
/// (radius - 1)^2 and (radius + 1)^2.
pub proof fn lemma_circle_ring(cx: int, cy: int, r0: int)
    requires
        r0 >= 1,
    ensures
        ({
            let s = circle_points(cx, cy, r0);
            forall|i: int| 0 <= i < s.len() ==> in_ring(cx, cy, r0, #[trigger] s[i])
        }),
{
    let s = circle_points(cx, cy, r0);
    let axis = seq![(cx + r0, cy), (cx - r0, cy), (cx, cy + r0), (cx, cy - r0)];
    assert((r0 - 1) * (r0 - 1) <= r0 * r0 <= (r0 + 1) * (r0 + 1)) by (nonlinear_arith)
        requires
            r0 >= 1,
    ;
    assert forall|i: int| 0 <= i < axis.len() implies in_ring(cx, cy, r0, #[trigger] axis[i]) by {
        let q = axis[i];
        let ox = q.0 - cx;
        let oy = q.1 - cy;
        assert(ox * ox + oy * oy == r0 * r0) by (nonlinear_arith)
            requires
                (ox == r0 || ox == -r0) <==> oy == 0,
                (ox == r0 || ox == -r0 || ox == 0),
                (oy == r0 || oy == -r0 || oy == 0),
        ;
    }
    assert(circ_inv(r0, r0, 0, 1 - r0)) by (nonlinear_arith)
        requires
            r0 >= 1,
    ;
    lemma_circle_arc_ring(cx, cy, r0, r0, 0, 1 - r0);
    let t = circle_arc(cx, cy, r0, 0, 1 - r0);
    assert(s == axis + t);
    assert forall|i: int| 0 <= i < s.len() implies in_ring(cx, cy, r0, #[trigger] s[i]) by {
        if i < axis.len() {
            assert(s[i] == axis[i]);
        } else {
            assert(s[i] == t[i - axis.len()]);
        }
    }
}

/// Reflection of a point across the vertical axis through the center.
pub open spec fn refl_x(cx: int, q: (int, int)) -> (int, int) {
    (2 * cx - q.0, q.1)
}

/// Reflection of a point across the horizontal axis through the center.
pub open spec fn refl_y(cy: int, q: (int, int)) -> (int, int) {
    (q.0, 2 * cy - q.1)
}

/// Reflection of a point across the rising diagonal through the center:
/// the two offsets from the center swap.
pub open spec fn refl_d(cx: int, cy: int, q: (int, int)) -> (int, int) {
    (cx + (q.1 - cy), cy + (q.0 - cx))
}

proof fn lemma_mirror8_sym(cx: int, cy: int, r: int, y: int, q: (int, int))
    requires
        mirror8(cx, cy, r, y).contains(q),
    ensures
        mirror8(cx, cy, r, y).contains(refl_x(cx, q)),
        mirror8(cx, cy, r, y).contains(refl_y(cy, q)),
        mirror8(cx, cy, r, y).contains(refl_d(cx, cy, q)),
{
    let m = mirror8(cx, cy, r, y);
    let i = choose|i: int| 0 <= i < m.len() && m[i] == q;
    if r != y {
        if i == 0 {
            assert(m[1] == refl_x(cx, q));
            assert(m[2] == refl_y(cy, q));
            assert(m[7] == refl_d(cx, cy, q));
        } else if i == 1 {
            assert(m[0] == refl_x(cx, q));
            assert(m[3] == refl_y(cy, q));
            assert(m[5] == refl_d(cx, cy, q));
        } else if i == 2 {
            assert(m[3] == refl_x(cx, q));
            assert(m[0] == refl_y(cy, q));
            assert(m[6] == refl_d(cx, cy, q));
        } else if i == 3 {
            assert(m[2] == refl_x(cx, q));
            assert(m[1] == refl_y(cy, q));
            assert(m[4] == refl_d(cx, cy, q));
        } else if i == 4 {
            assert(m[5] == refl_x(cx, q));
            assert(m[6] == refl_y(cy, q));
            assert(m[3] == refl_d(cx, cy, q));
        } else if i == 5 {
            assert(m[4] == refl_x(cx, q));
            assert(m[7] == refl_y(cy, q));
            assert(m[1] == refl_d(cx, cy, q));
        } else if i == 6 {
            assert(m[7] == refl_x(cx, q));
            assert(m[4] == refl_y(cy, q));
            assert(m[2] == refl_d(cx, cy, q));
        } else if i == 7 {
            assert(m[6] == refl_x(cx, q));
            assert(m[5] == refl_y(cy, q));
            assert(m[0] == refl_d(cx, cy, q));
        }
    } else {
        if i == 0 {
            assert(m[1] == refl_x(cx, q));
            assert(m[2] == refl_y(cy, q));
            assert(m[3] == refl_d(cx, cy, q));
        } else if i == 1 {
            assert(m[0] == refl_x(cx, q));
            assert(m[3] == refl_y(cy, q));
            assert(m[1] == refl_d(cx, cy, q));
        } else if i == 2 {
            assert(m[3] == refl_x(cx, q));
            assert(m[0] == refl_y(cy, q));
            assert(m[2] == refl_d(cx, cy, q));
        } else if i == 3 {
            assert(m[2] == refl_x(cx, q));
            assert(m[1] == refl_y(cy, q));
            assert(m[0] == refl_d(cx, cy, q));
        }
    }
}

proof fn lemma_concat_contains(a: Seq<(int, int)>, t: Seq<(int, int)>, q: (int, int))
    ensures
        (a + t).contains(q) <==> (a.contains(q) || t.contains(q)),
{
    if (a + t).contains(q) {
        let i = choose|i: int| 0 <= i < (a + t).len() && (a + t)[i] == q;
        if i < a.len() {
            assert(a[i] == q);
        } else {
            assert(t[i - a.len()] == q);
        }
    }
    if a.contains(q) {
        let i = choose|i: int| 0 <= i < a.len() && a[i] == q;
        assert((a + t)[i] == q);
    }
    if t.contains(q) {
        let i = choose|i: int| 0 <= i < t.len() && t[i] == q;
        assert((a + t)[a.len() + i] == q);
    }
}

proof fn lemma_circle_arc_sym(cx: int, cy: int, r: int, y: int, p: int, q: (int, int))
    requires
        circle_arc(cx, cy, r, y, p).contains(q),
    ensures
        circle_arc(cx, cy, r, y, p).contains(refl_x(cx, q)),
        circle_arc(cx, cy, r, y, p).contains(refl_y(cy, q)),
        circle_arc(cx, cy, r, y, p).contains(refl_d(cx, cy, q)),
    decreases r - y,
{
    let s = circle_arc(cx, cy, r, y, p);
    if r <= y {
        assert(!s.contains(q));
    } else {
        let y2: int = y + 1;
        let r2: int = if p <= 0 {
            r
        } else {
            r - 1
        };
        let p2: int = if p <= 0 {
            p + 2 * y2 + 1
        } else {
            p + 2 * y2 - 2 * r2 + 1
        };
        if r2 < y2 {
            assert(!s.contains(q));
        } else {
            let m8 = mirror8(cx, cy, r2, y2);
            let t = circle_arc(cx, cy, r2, y2, p2);
            assert(s == m8 + t);
            lemma_concat_contains(m8, t, q);
            if m8.contains(q) {
                lemma_mirror8_sym(cx, cy, r2, y2, q);
            } else {
                lemma_circle_arc_sym(cx, cy, r2, y2, p2, q);
            }
            lemma_concat_contains(m8, t, refl_x(cx, q));
            lemma_concat_contains(m8, t, refl_y(cy, q));
            lemma_concat_contains(m8, t, refl_d(cx, cy, q));
        }
    }
}

/// The plotted set of a circle is symmetric under the eight reflections
/// about the horizontal, vertical and diagonal axes through the center:
/// it is closed under the three generating reflections.
pub proof fn lemma_circle_symmetry(cx: int, cy: int, r0: int, q: (int, int))
    requires
        circle_points(cx, cy, r0).contains(q),
    ensures
        circle_points(cx, cy, r0).contains(refl_x(cx, q)),
        circle_points(cx, cy, r0).contains(refl_y(cy, q)),
        circle_points(cx, cy, r0).contains(refl_d(cx, cy, q)),
{
    let s = circle_points(cx, cy, r0);
    if r0 <= 0 {
        assert(!s.contains(q));
    } else {
        let axis = seq![(cx + r0, cy), (cx - r0, cy), (cx, cy + r0), (cx, cy - r0)];
        let t = circle_arc(cx, cy, r0, 0, 1 - r0);
        assert(s == axis + t);
        lemma_concat_contains(axis, t, q);
        if axis.contains(q) {
            let i = choose|i: int| 0 <= i < axis.len() && axis[i] == q;
            if i == 0 {
                assert(axis[1] == refl_x(cx, q));
                assert(axis[0] == refl_y(cy, q));
                assert(axis[2] == refl_d(cx, cy, q));
            } else if i == 1 {
                assert(axis[0] == refl_x(cx, q));
                assert(axis[1] == refl_y(cy, q));
                assert(axis[3] == refl_d(cx, cy, q));
            } else if i == 2 {
                assert(axis[2] == refl_x(cx, q));
                assert(axis[3] == refl_y(cy, q));
                assert(axis[0] == refl_d(cx, cy, q));
            } else {
                assert(axis[3] == refl_x(cx, q));
                assert(axis[2] == refl_y(cy, q));
                assert(axis[1] == refl_d(cx, cy, q));
            }
        } else {
            lemma_circle_arc_sym(cx, cy, r0, 0, 1 - r0, q);
        }
        lemma_concat_contains(axis, t, refl_x(cx, q));
        lemma_concat_contains(axis, t, refl_y(cy, q));
        lemma_concat_contains(axis, t, refl_d(cx, cy, q));
    }
}

// ---------------------------------------------------------------------------
// Line symmetry.  Bresenham's walk is not symmetric in general: drawing a
// line from B to A may pick different intermediate pixels than drawing it
// from A to B.  For axis-aligned and exact-diagonal lines the plotted set
// is the same in both directions, and that is proved here.
// ---------------------------------------------------------------------------

/// v lies between a and b, whichever of the two is smaller.
pub open spec fn between(a: int, v: int, b: int) -> bool {
    (a <= v <= b) || (b <= v <= a)
}

proof fn lemma_singleton_contains(p: (int, int), q: (int, int))
    ensures
        seq![p].contains(q) <==> q == p,
{
    if seq![p].contains(q) {
        let i = choose|i: int| 0 <= i < seq![p].len() && seq![p][i] == q;
        assert(seq![p][i] == q);
    }
    if q == p {
        assert(seq![p][0] == q);
    }
}

proof fn lemma_hpath_char(x: int, y: int, x1: int, dx: int, sx: int, sy: int, err: int)
    requires
        bres_inv(x, y, x1, y, dx, 0, sx, sy, err),
    ensures
        forall|q: (int, int)|
            #[trigger] bres_path(x, y, x1, y, dx, 0, sx, sy, err).contains(q) <==> (q.1 == y
                && between(x, q.0, x1)),
    decreases rem_toward(sx, x, x1),
{
    let s = bres_path(x, y, x1, y, dx, 0, sx, sy, err);
    if x == x1 {
        assert(s == seq![(x, y)]);
        assert forall|q: (int, int)|
            #[trigger] s.contains(q) <==> (q.1 == y && between(x, q.0, x1)) by {
            lemma_singleton_contains((x, y), q);
        }
    } else {
        lemma_bres_step(x, y, x1, y, dx, 0, sx, sy, err);
        let n = bres_next(x, y, dx, 0, sx, sy, err);
        assert(rem_toward(sx, x, x1) >= 1);
        assert(err == dx + rem_toward(sx, x, x1) * 0 - 0 * dx);
        assert(rem_toward(sx, x, x1) * 0 == 0) by (nonlinear_arith);
        assert(0 * dx == 0) by (nonlinear_arith);
        assert(err == dx);
        assert(dx >= 1);
        assert(n.0 == x + sx && n.1 == y && n.2 == err);
        lemma_hpath_char(x + sx, y, x1, dx, sx, sy, err);
        let t = bres_path(x + sx, y, x1, y, dx, 0, sx, sy, err);
        assert(s == seq![(x, y)] + t);
        assert forall|q: (int, int)|
            #[trigger] s.contains(q) <==> (q.1 == y && between(x, q.0, x1)) by {
            lemma_concat_contains(seq![(x, y)], t, q);
            lemma_singleton_contains((x, y), q);
            assert(t.contains(q) <==> (q.1 == y && between(x + sx, q.0, x1)));
        }
    }
}

proof fn lemma_vpath_char(x: int, y: int, y1: int, dy: int, sx: int, sy: int, err: int)
    requires
        bres_inv(x, y, x, y1, 0, dy, sx, sy, err),
    ensures
        forall|q: (int, int)|
            #[trigger] bres_path(x, y, x, y1, 0, dy, sx, sy, err).contains(q) <==> (q.0 == x
                && between(y, q.1, y1)),
    decreases rem_toward(sy, y, y1),
{
    let s = bres_path(x, y, x, y1, 0, dy, sx, sy, err);
    if y == y1 {
        assert(s == seq![(x, y)]);
        assert forall|q: (int, int)|
            #[trigger] s.contains(q) <==> (q.0 == x && between(y, q.1, y1)) by {
            lemma_singleton_contains((x, y), q);
        }
    } else {
        lemma_bres_step(x, y, x, y1, 0, dy, sx, sy, err);
        let n = bres_next(x, y, 0, dy, sx, sy, err);
        assert(rem_toward(sy, y, y1) >= 1);
        assert(err == -dy + rem_toward(sx, x, x) * dy - rem_toward(sy, y, y1) * 0);
        assert(rem_toward(sy, y, y1) * 0 == 0) by (nonlinear_arith);
        assert(0 * dy == 0) by (nonlinear_arith);
        assert(err == -dy);
        assert(dy >= 1);
        assert(n.0 == x && n.1 == y + sy && n.2 == err);
        lemma_vpath_char(x, y + sy, y1, dy, sx, sy, err);
        let t = bres_path(x, y + sy, x, y1, 0, dy, sx, sy, err);
        assert(s == seq![(x, y)] + t);
        assert forall|q: (int, int)|
            #[trigger] s.contains(q) <==> (q.0 == x && between(y, q.1, y1)) by {
            lemma_concat_contains(seq![(x, y)], t, q);
            lemma_singleton_contains((x, y), q);
            assert(t.contains(q) <==> (q.0 == x && between(y + sy, q.1, y1)));
        }
    }
}

proof fn lemma_dpath_char(x: int, y: int, x1: int, y1: int, dx: int, sx: int, sy: int)
    requires
        bres_inv(x, y, x1, y1, dx, dx, sx, sy, 0),
    ensures
        forall|q: (int, int)|
            #[trigger] bres_path(x, y, x1, y1, dx, dx, sx, sy, 0).contains(q) <==> (between(
                x,
                q.0,
                x1,
            ) && between(y, q.1, y1) && rem_toward(sx, x, q.0) == rem_toward(sy, y, q.1)),
    decreases rem_toward(sx, x, x1) + rem_toward(sy, y, y1),
{
    let s = bres_path(x, y, x1, y1, dx, dx, sx, sy, 0);
    let rx = rem_toward(sx, x, x1);
    let ry = rem_toward(sy, y, y1);
    if x == x1 && y == y1 {
        assert(s == seq![(x, y)]);
        assert forall|q: (int, int)|
            #[trigger] s.contains(q) <==> (between(x, q.0, x1) && between(y, q.1, y1)
                && rem_toward(sx, x, q.0) == rem_toward(sy, y, q.1)) by {
            lemma_singleton_contains((x, y), q);
        }
    } else {
        assert(0 == dx - dx + rx * dx - ry * dx);
        assert(rx >= 1 && ry >= 1 && rx == ry) by (nonlinear_arith)
            requires
                rx * dx == ry * dx,
                0 <= rx <= dx,
                0 <= ry <= dx,
                rx != 0 || ry != 0,
        ;
        assert(dx >= 1);
        lemma_bres_step(x, y, x1, y1, dx, dx, sx, sy, 0);
        let n = bres_next(x, y, dx, dx, sx, sy, 0);
        assert(n.0 == x + sx && n.1 == y + sy && n.2 == 0);
        lemma_dpath_char(x + sx, y + sy, x1, y1, dx, sx, sy);
        let t = bres_path(x + sx, y + sy, x1, y1, dx, dx, sx, sy, 0);
        assert(s == seq![(x, y)] + t);
        assert forall|q: (int, int)|
            #[trigger] s.contains(q) <==> (between(x, q.0, x1) && between(y, q.1, y1)
                && rem_toward(sx, x, q.0) == rem_toward(sy, y, q.1)) by {
            lemma_concat_contains(seq![(x, y)], t, q);
            lemma_singleton_contains((x, y), q);
            assert(t.contains(q) <==> (between(x + sx, q.0, x1) && between(y + sy, q.1, y1)
                && rem_toward(sx, x + sx, q.0) == rem_toward(sy, y + sy, q.1)));
        }
    }
}

/// For axis-aligned and exact-diagonal lines, drawing from B to A plots the
/// same pixel set as drawing from A to B.  (For other slopes the two walks
/// may round differently, so this is stated only of these lines.)
pub proof fn lemma_line_symmetric(ax: int, ay: int, bx: int, by: int)
    requires
        ax == bx || ay == by || abs_i(bx - ax) == abs_i(by - ay),
    ensures
        forall|q: (int, int)|
            #[trigger] line_points(ax, ay, bx, by).contains(q) <==> #[trigger] line_points(
                bx,
                by,
                ax,
                ay,
            ).contains(q),
{
    lemma_line_start_inv(ax, ay, bx, by);
    lemma_line_start_inv(bx, by, ax, ay);
    let sxf: int = if ax < bx {
        1
    } else {
        -1
    };
    let syf: int = if ay < by {
        1
    } else {
        -1
    };
    let sxr: int = if bx < ax {
        1
    } else {
        -1
    };
    let syr: int = if by < ay {
        1
    } else {
        -1
    };
    let dx: int = abs_i(bx - ax);
    let dy: int = abs_i(by - ay);
    if ay == by {
        lemma_hpath_char(ax, ay, bx, dx, sxf, syf, dx);
        lemma_hpath_char(bx, by, ax, dx, sxr, syr, dx);
    } else if ax == bx {
        lemma_vpath_char(ax, ay, by, dy, sxf, syf, -dy);
        lemma_vpath_char(bx, by, ay, dy, sxr, syr, -dy);
    } else {
        lemma_dpath_char(ax, ay, bx, by, dx, sxf, syf);
        lemma_dpath_char(bx, by, ax, ay, dx, sxr, syr);
        assert forall|q: (int, int)|
            #[trigger] line_points(ax, ay, bx, by).contains(q) <==> #[trigger] line_points(
                bx,
                by,
                ax,
                ay,
            ).contains(q) by {
            assert(rem_toward(sxf, ax, q.0) + rem_toward(sxr, bx, q.0) == dx);
            assert(rem_toward(syf, ay, q.1) + rem_toward(syr, by, q.1) == dx);
        }
    }
}

} // verus!
