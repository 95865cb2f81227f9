use vstd::prelude::*;

use crate::color::{rgba_of, Color};

verus! {

// ---------------------------------------------------------------------------
// The pixel buffer collaborator.
//
// The buffer itself — allocation, byte layout, bounds-checked stores — is the
// outside crate's business.  Here it is declared opaque and modelled by a map
// from coordinates to channel bytes, together with its dimensions and a
// well-formedness predicate saying that the storage matches the dimensions.
// ---------------------------------------------------------------------------

#[verifier::external_type_specification]
#[verifier::external_body]
pub struct ExImage(raster::Image);

/// The pixels the buffer holds: each in-bounds coordinate maps to the four
/// channel bytes stored there.
pub uninterp spec fn pixels_of(img: raster::Image) -> Map<(int, int), (u8, u8, u8, u8)>;

/// The buffer's width in pixels.
pub uninterp spec fn width_of(img: raster::Image) -> int;

/// The buffer's height in pixels.
pub uninterp spec fn height_of(img: raster::Image) -> int;

/// The buffer's byte storage matches its dimensions, so that an in-bounds
/// store neither fails nor touches memory out of range.
pub uninterp spec fn buffer_inv(img: raster::Image) -> bool;

/// The pixel map of a freshly created blank buffer: every in-bounds
/// coordinate holds opaque black.
pub open spec fn blank_pixels(w: int, h: int) -> Map<(int, int), (u8, u8, u8, u8)> {
    Map::new(|q: (int, int)| 0 <= q.0 < w && 0 <= q.1 < h, |q: (int, int)| (0u8, 0u8, 0u8, 255u8))
}

/// Relies on `raster::Image::blank`: it builds a `w` by `h` image, four bytes
/// per pixel, every pixel opaque black.
#[verifier::external_body]
pub fn blank_image(w: i32, h: i32) -> (img: raster::Image)
    requires
        0 <= w,
        0 <= h,
        4 * w * h <= i32::MAX,
    ensures
        buffer_inv(img),
        width_of(img) == w as int,
        height_of(img) == h as int,
        pixels_of(img) == blank_pixels(w as int, h as int),
{
    raster::Image::blank(w, h)
}

/// Relies on the public `width` field of `raster::Image`.
#[verifier::external_body]
pub fn image_width(img: &raster::Image) -> (w: i32)
    ensures
        w as int == width_of(*img),
{
    img.width
}

/// Relies on the public `height` field of `raster::Image`.
#[verifier::external_body]
pub fn image_height(img: &raster::Image) -> (h: i32)
    ensures
        h as int == height_of(*img),
{
    img.height
}

/// Relies on `raster::Image::set_pixel`: on a well-formed buffer and
/// coordinates inside it, the call stores the four channel bytes of `color`
/// at pixel (x, y), changes nothing else, and succeeds.
#[verifier::external_body]
pub(crate) fn set_pixel_raw(img: &mut raster::Image, x: i32, y: i32, color: Color)
    requires
        buffer_inv(*old(img)),
        0 <= x < width_of(*old(img)),
        0 <= y < height_of(*old(img)),
    ensures
        buffer_inv(*final(img)),
        width_of(*final(img)) == width_of(*old(img)),
        height_of(*final(img)) == height_of(*old(img)),
        pixels_of(*final(img)) == pixels_of(*old(img)).insert(
            (x as int, y as int),
            (color.r, color.g, color.b, color.a),
        ),
{
    let _ = img.set_pixel(x, y, raster::Color { r: color.r, g: color.g, b: color.b, a: color.a });
}

// ---------------------------------------------------------------------------
// The verified clipping layer: every write the rasterizer makes goes through
// `plot`, which skips out-of-bounds coordinates instead of failing.
// ---------------------------------------------------------------------------

/// A coordinate lies inside a `w` by `h` buffer.
pub open spec fn pix_in_bounds(q: (int, int), w: int, h: int) -> bool {
    0 <= q.0 < w && 0 <= q.1 < h
}

/// One clipped pixel write: out-of-bounds coordinates leave the map unchanged.
pub open spec fn write_pixel(
    m: Map<(int, int), (u8, u8, u8, u8)>,
    q: (int, int),
    c: (u8, u8, u8, u8),
    w: int,
    h: int,
) -> Map<(int, int), (u8, u8, u8, u8)> {
    if pix_in_bounds(q, w, h) {
        m.insert(q, c)
    } else {
        m
    }
}

/// A whole sequence of clipped writes of one color, first to last.
pub open spec fn paint(
    m: Map<(int, int), (u8, u8, u8, u8)>,
    pts: Seq<(int, int)>,
    c: (u8, u8, u8, u8),
    w: int,
    h: int,
) -> Map<(int, int), (u8, u8, u8, u8)>
    decreases pts.len(),
{
    if pts.len() == 0 {
        m
    } else {
        paint(write_pixel(m, pts[0], c, w, h), pts.drop_first(), c, w, h)
    }
}

/// Bounds-checked pixel write: writes (x, y) if it lies inside the buffer and
/// silently skips it otherwise.
pub fn plot(img: &mut raster::Image, x: i64, y: i64, color: Color)
    requires
        buffer_inv(*old(img)),
    ensures
        buffer_inv(*final(img)),
        width_of(*final(img)) == width_of(*old(img)),
        height_of(*final(img)) == height_of(*old(img)),
        pixels_of(*final(img)) == write_pixel(
            pixels_of(*old(img)),
            (x as int, y as int),
            rgba_of(color),
            width_of(*old(img)),
            height_of(*old(img)),
        ),
{
    let w = image_width(img);
    let h = image_height(img);
    if 0 <= x && x < w as i64 && 0 <= y && y < h as i64 {
        set_pixel_raw(img, x as i32, y as i32, color);
    }
}

// ---------------------------------------------------------------------------
// What a sequence of clipped writes does, stated point by point.  These are
// the clipping laws: a shape entirely outside the buffer writes nothing, and
// a shape straddling the edge writes only its in-bounds pixels.
// ---------------------------------------------------------------------------

/// Painting `pts.push(q)` is painting `pts` and then writing `q`.
pub proof fn lemma_paint_push(
    m: Map<(int, int), (u8, u8, u8, u8)>,
    pts: Seq<(int, int)>,
    q: (int, int),
    c: (u8, u8, u8, u8),
    w: int,
    h: int,
)
    ensures
        paint(m, pts.push(q), c, w, h) == write_pixel(paint(m, pts, c, w, h), q, c, w, h),
    decreases pts.len(),
{
    if pts.len() == 0 {
        assert(pts.push(q)[0] == q);
        assert(pts.push(q).drop_first() =~= Seq::<(int, int)>::empty());
        assert(paint(m, pts.push(q), c, w, h) == paint(
            write_pixel(m, q, c, w, h),
            Seq::<(int, int)>::empty(),
            c,
            w,
            h,
        ));
        assert(paint(m, pts, c, w, h) == m);
    } else {
        let m1 = write_pixel(m, pts[0], c, w, h);
        assert(pts.push(q)[0] == pts[0]);
        assert(pts.push(q).drop_first() =~= pts.drop_first().push(q));
        assert(paint(m, pts.push(q), c, w, h) == paint(m1, pts.drop_first().push(q), c, w, h));
        lemma_paint_push(m1, pts.drop_first(), q, c, w, h);
        assert(paint(m, pts, c, w, h) == paint(m1, pts.drop_first(), c, w, h));
    }
}

/// Painting a single point is one clipped write.
pub proof fn lemma_paint_single(
    m: Map<(int, int), (u8, u8, u8, u8)>,
    q: (int, int),
    c: (u8, u8, u8, u8),
    w: int,
    h: int,
)
    ensures
        paint(m, seq![q], c, w, h) == write_pixel(m, q, c, w, h),
{
    let s = seq![q];
    assert(s[0] == q);
    assert(s.drop_first() =~= Seq::<(int, int)>::empty());
    assert(paint(m, s, c, w, h) == paint(write_pixel(m, q, c, w, h), s.drop_first(), c, w, h));
}

/// Painting `s + t` is painting `s` and then painting `t`.
pub proof fn lemma_paint_concat(
    m: Map<(int, int), (u8, u8, u8, u8)>,
    s: Seq<(int, int)>,
    t: Seq<(int, int)>,
    c: (u8, u8, u8, u8),
    w: int,
    h: int,
)
    ensures
        paint(m, s + t, c, w, h) == paint(paint(m, s, c, w, h), t, c, w, h),
    decreases s.len(),
{
    if s.len() == 0 {
        assert(s + t =~= t);
    } else {
        assert((s + t).drop_first() =~= s.drop_first() + t);
        assert((s + t)[0] == s[0]);
        lemma_paint_concat(write_pixel(m, s[0], c, w, h), s.drop_first(), t, c, w, h);
    }
}

/// What painting does to one coordinate: an in-bounds coordinate among the
/// painted points gets the color; every other coordinate keeps its old value,
/// and no other coordinate enters the map.
pub proof fn lemma_paint_at(
    m: Map<(int, int), (u8, u8, u8, u8)>,
    pts: Seq<(int, int)>,
    c: (u8, u8, u8, u8),
    w: int,
    h: int,
    q: (int, int),
)
    ensures
        paint(m, pts, c, w, h).contains_key(q) <==> (m.contains_key(q) || (pts.contains(q)
            && pix_in_bounds(q, w, h))),
        pts.contains(q) && pix_in_bounds(q, w, h) ==> paint(m, pts, c, w, h)[q] == c,
        m.contains_key(q) && !(pts.contains(q) && pix_in_bounds(q, w, h)) ==> paint(
            m,
            pts,
            c,
            w,
            h,
        )[q] == m[q],
    decreases pts.len(),
{
    if pts.len() == 0 {
        assert(!pts.contains(q));
    } else {
        let m1 = write_pixel(m, pts[0], c, w, h);
        lemma_paint_at(m1, pts.drop_first(), c, w, h, q);
        if pts.contains(q) {
            let i = choose|i: int| 0 <= i < pts.len() && pts[i] == q;
            if i > 0 {
                assert(pts.drop_first()[i - 1] == q);
            }
        }
        if pts.drop_first().contains(q) {
            let i = choose|i: int| 0 <= i < pts.drop_first().len() && pts.drop_first()[i] == q;
            assert(pts[i + 1] == q);
        }
        if q == pts[0] {
            assert(pts.contains(q));
        }
    }
}

/// `lemma_paint_at`, stated over every coordinate at once.
pub proof fn lemma_paint_frame(
    m: Map<(int, int), (u8, u8, u8, u8)>,
    pts: Seq<(int, int)>,
    c: (u8, u8, u8, u8),
    w: int,
    h: int,
)
    ensures
        forall|q: (int, int)|
            #[trigger] paint(m, pts, c, w, h).contains_key(q) <==> (m.contains_key(q) || (
            pts.contains(q) && pix_in_bounds(q, w, h))),
        forall|q: (int, int)|
            #[trigger] pts.contains(q) && pix_in_bounds(q, w, h) ==> paint(m, pts, c, w, h)[q]
                == c,
        forall|q: (int, int)|
            m.contains_key(q) && !(#[trigger] pts.contains(q) && pix_in_bounds(q, w, h)) ==> paint(
                m,
                pts,
                c,
                w,
                h,
            )[q] == m[q],
{
    assert forall|q: (int, int)|
        #[trigger] paint(m, pts, c, w, h).contains_key(q) <==> (m.contains_key(q) || (
        pts.contains(q) && pix_in_bounds(q, w, h))) by {
        lemma_paint_at(m, pts, c, w, h, q);
    }
    assert forall|q: (int, int)| #[trigger] pts.contains(q) && pix_in_bounds(q, w, h) implies paint(
        m,
        pts,
        c,
        w,
        h,
    )[q] == c by {
        lemma_paint_at(m, pts, c, w, h, q);
    }
    assert forall|q: (int, int)|
        m.contains_key(q) && !(#[trigger] pts.contains(q) && pix_in_bounds(q, w, h)) implies paint(
        m,
        pts,
        c,
        w,
        h,
    )[q] == m[q] by {
        lemma_paint_at(m, pts, c, w, h, q);
    }
}

/// A shape entirely outside the buffer writes nothing at all.
pub proof fn lemma_paint_outside(
    m: Map<(int, int), (u8, u8, u8, u8)>,
    pts: Seq<(int, int)>,
    c: (u8, u8, u8, u8),
    w: int,
    h: int,
)
    requires
        forall|i: int| 0 <= i < pts.len() ==> !pix_in_bounds(#[trigger] pts[i], w, h),
    ensures
        paint(m, pts, c, w, h) == m,
{
    assert forall|q: (int, int)|
        #[trigger] paint(m, pts, c, w, h).contains_key(q) == m.contains_key(q) && (m.contains_key(
            q,
        ) ==> paint(m, pts, c, w, h)[q] == m[q]) by {
        lemma_paint_at(m, pts, c, w, h, q);
        if pts.contains(q) && pix_in_bounds(q, w, h) {
            let i = choose|i: int| 0 <= i < pts.len() && pts[i] == q;
            assert(!pix_in_bounds(pts[i], w, h));
        }
    }
    assert(paint(m, pts, c, w, h) =~= m);
}

} // verus!
