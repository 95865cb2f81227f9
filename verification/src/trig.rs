use vstd::prelude::*;

use vstd::arithmetic::div_mod::{
    lemma_fundamental_div_mod,
    lemma_fundamental_div_mod_converse,
    lemma_mod_bound,
    lemma_mod_multiples_vanish,
};

verus! {

// ---------------------------------------------------------------------------
// Integer trigonometry for the pentagon's vertices.
//
// Rather than floating-point trigonometry, vertices come from a fixed-point
// sine table: sin_milli_q(d) is the sine of d degrees scaled by 1000 and
// rounded to the nearest integer, tabulated for the first quadrant and
// extended to the full circle by symmetry.  Offsets are rounded to the
// nearest pixel, halves away from zero.
// ---------------------------------------------------------------------------

/// 1000·sin(d°), rounded to nearest, for 0 <= d <= 90.
pub open spec fn sin_milli_q(d: int) -> int {
    if d == 0 {
        0
    } else     if d == 1 {
        17
    } else     if d == 2 {
        35
    } else     if d == 3 {
        52
    } else     if d == 4 {
        70
    } else     if d == 5 {
        87
    } else     if d == 6 {
        105
    } else     if d == 7 {
        122
    } else     if d == 8 {
        139
    } else     if d == 9 {
        156
    } else     if d == 10 {
        174
    } else     if d == 11 {
        191
    } else     if d == 12 {
        208
    } else     if d == 13 {
        225
    } else     if d == 14 {
        242
    } else     if d == 15 {
        259
    } else     if d == 16 {
        276
    } else     if d == 17 {
        292
    } else     if d == 18 {
        309
    } else     if d == 19 {
        326
    } else     if d == 20 {
        342
    } else     if d == 21 {
        358
    } else     if d == 22 {
        375
    } else     if d == 23 {
        391
    } else     if d == 24 {
        407
    } else     if d == 25 {
        423
    } else     if d == 26 {
        438
    } else     if d == 27 {
        454
    } else     if d == 28 {
        469
    } else     if d == 29 {
        485
    } else     if d == 30 {
        500
    } else     if d == 31 {
        515
    } else     if d == 32 {
        530
    } else     if d == 33 {
        545
    } else     if d == 34 {
        559
    } else     if d == 35 {
        574
    } else     if d == 36 {
        588
    } else     if d == 37 {
        602
    } else     if d == 38 {
        616
    } else     if d == 39 {
        629
    } else     if d == 40 {
        643
    } else     if d == 41 {
        656
    } else     if d == 42 {
        669
    } else     if d == 43 {
        682
    } else     if d == 44 {
        695
    } else     if d == 45 {
        707
    } else     if d == 46 {
        719
    } else     if d == 47 {
        731
    } else     if d == 48 {
        743
    } else     if d == 49 {
        755
    } else     if d == 50 {
        766
    } else     if d == 51 {
        777
    } else     if d == 52 {
        788
    } else     if d == 53 {
        799
    } else     if d == 54 {
        809
    } else     if d == 55 {
        819
    } else     if d == 56 {
        829
    } else     if d == 57 {
        839
    } else     if d == 58 {
        848
    } else     if d == 59 {
        857
    } else     if d == 60 {
        866
    } else     if d == 61 {
        875
    } else     if d == 62 {
        883
    } else     if d == 63 {
        891
    } else     if d == 64 {
        899
    } else     if d == 65 {
        906
    } else     if d == 66 {
        914
    } else     if d == 67 {
        921
    } else     if d == 68 {
        927
    } else     if d == 69 {
        934
    } else     if d == 70 {
        940
    } else     if d == 71 {
        946
    } else     if d == 72 {
        951
    } else     if d == 73 {
        956
    } else     if d == 74 {
        961
    } else     if d == 75 {
        966
    } else     if d == 76 {
        970
    } else     if d == 77 {
        974
    } else     if d == 78 {
        978
    } else     if d == 79 {
        982
    } else     if d == 80 {
        985
    } else     if d == 81 {
        988
    } else     if d == 82 {
        990
    } else     if d == 83 {
        993
    } else     if d == 84 {
        995
    } else     if d == 85 {
        996
    } else     if d == 86 {
        998
    } else     if d == 87 {
        999
    } else     if d == 88 {
        999
    } else     if d == 89 {
        1000
    } else {
        1000
    }
}

fn sin_milli_q_x(d: i32) -> (r: i32)
    requires
        0 <= d <= 90,
    ensures
        r as int == sin_milli_q(d as int),
{
    match d {
        0 => 0,
        1 => 17,
        2 => 35,
        3 => 52,
        4 => 70,
        5 => 87,
        6 => 105,
        7 => 122,
        8 => 139,
        9 => 156,
        10 => 174,
        11 => 191,
        12 => 208,
        13 => 225,
        14 => 242,
        15 => 259,
        16 => 276,
        17 => 292,
        18 => 309,
        19 => 326,
        20 => 342,
        21 => 358,
        22 => 375,
        23 => 391,
        24 => 407,
        25 => 423,
        26 => 438,
        27 => 454,
        28 => 469,
        29 => 485,
        30 => 500,
        31 => 515,
        32 => 530,
        33 => 545,
        34 => 559,
        35 => 574,
        36 => 588,
        37 => 602,
        38 => 616,
        39 => 629,
        40 => 643,
        41 => 656,
        42 => 669,
        43 => 682,
        44 => 695,
        45 => 707,
        46 => 719,
        47 => 731,
        48 => 743,
        49 => 755,
        50 => 766,
        51 => 777,
        52 => 788,
        53 => 799,
        54 => 809,
        55 => 819,
        56 => 829,
        57 => 839,
        58 => 848,
        59 => 857,
        60 => 866,
        61 => 875,
        62 => 883,
        63 => 891,
        64 => 899,
        65 => 906,
        66 => 914,
        67 => 921,
        68 => 927,
        69 => 934,
        70 => 940,
        71 => 946,
        72 => 951,
        73 => 956,
        74 => 961,
        75 => 966,
        76 => 970,
        77 => 974,
        78 => 978,
        79 => 982,
        80 => 985,
        81 => 988,
        82 => 990,
        83 => 993,
        84 => 995,
        85 => 996,
        86 => 998,
        87 => 999,
        88 => 999,
        89 => 1000,
        _ => 1000,
    }
}

/// A degree value normalized into [0, 360).
pub open spec fn norm_deg(a: int) -> int {
    a % 360
}

/// Normalize a degree value into [0, 360).
fn norm_deg_x(a: i64) -> (d: i32)
    requires
        -0x8000_0000_0000 <= a <= 0x8000_0000_0000,
    ensures
        0 <= d < 360,
        d as int == norm_deg(a as int),
{
    let b: i64 = a + 288_000_000_000_000;
    let m: i64 = b % 360;
    proof {
        lemma_mod_multiples_vanish(800_000_000_000, a as int, 360);
        lemma_fundamental_div_mod(b as int, 360);
        lemma_mod_bound(b as int, 360);
    }
    m as i32
}

/// 1000·sin(d°), rounded to nearest, for 0 <= d < 360: the first-quadrant
/// table extended by the sine symmetries.
pub open spec fn sin_milli(d: int) -> int {
    if d <= 90 {
        sin_milli_q(d)
    } else if d <= 180 {
        sin_milli_q(180 - d)
    } else if d <= 270 {
        -sin_milli_q(d - 180)
    } else {
        -sin_milli_q(360 - d)
    }
}

/// 1000·cos(d°), rounded to nearest: the sine shifted by a quarter turn.
pub open spec fn cos_milli(d: int) -> int {
    sin_milli(norm_deg(d + 90))
}

fn sin_milli_x(d: i32) -> (r: i32)
    requires
        0 <= d < 360,
    ensures
        r as int == sin_milli(d as int),
{
    if d <= 90 {
        sin_milli_q_x(d)
    } else if d <= 180 {
        sin_milli_q_x(180 - d)
    } else if d <= 270 {
        -sin_milli_q_x(d - 180)
    } else {
        -sin_milli_q_x(360 - d)
    }
}

fn cos_milli_x(d: i32) -> (r: i32)
    requires
        0 <= d < 360,
    ensures
        r as int == cos_milli(d as int),
{
    let d2 = norm_deg_x(d as i64 + 90);
    sin_milli_x(d2)
}

/// radius·c/1000, rounded to the nearest integer with halves away from
/// zero: the pixel offset of a vertex at scaled cosine or sine c.
pub open spec fn scaled_offset(r: int, c: int) -> int {
    if r * c >= 0 {
        (r * c + 500) / 1000
    } else {
        -((-(r * c) + 500) / 1000)
    }
}

fn scaled_offset_x(r: i64, c: i64) -> (o: i64)
    requires
        -0x8000_0000 <= r <= 0x8000_0000,
        -1000 <= c <= 1000,
    ensures
        o as int == scaled_offset(r as int, c as int),
        -0x8000_0001 <= o <= 0x8000_0001,
{
    proof {
        assert(-0x1f4_0000_0000 <= r * c <= 0x1f4_0000_0000) by (nonlinear_arith)
            requires
                -0x8000_0000 <= r <= 0x8000_0000,
                -1000 <= c <= 1000,
        ;
    }
    let p: i64 = r * c;
    if p >= 0 {
        let o: i64 = (p + 500) / 1000;
        proof {
            lemma_fundamental_div_mod(p as int + 500, 1000);
            lemma_mod_bound(p as int + 500, 1000);
            assert(1000 * (o as int) == p as int + 500 - ((p as int + 500) % 1000));
            assert(1000 * (o as int) <= 0x1f4_0000_01f4);
            assert(o <= 0x8000_0000) by (nonlinear_arith)
                requires
                    1000 * (o as int) <= 0x1f4_0000_01f4,
            ;
            assert(1000 * (o as int) >= -499);
            assert(o >= 0);
        }
        o
    } else {
        let o: i64 = -((-p + 500) / 1000);
        proof {
            lemma_fundamental_div_mod(-(p as int) + 500, 1000);
            lemma_mod_bound(-(p as int) + 500, 1000);
            assert(1000 * (-(o as int)) == -(p as int) + 500 - ((-(p as int) + 500) % 1000));
            assert(1000 * (-(o as int)) <= 0x1f4_0000_01f4);
            assert(-(o as int) <= 0x8000_0000) by (nonlinear_arith)
                requires
                    1000 * (-(o as int)) <= 0x1f4_0000_01f4,
            ;
            assert(1000 * (-(o as int)) >= -499);
            assert(o <= 0);
        }
        o
    }
}

/// The angle of pentagon vertex k: vertices sit 72 degrees apart, shifted by
/// the pentagon's rotation, with vertex 0 at the top for rotation zero.
pub open spec fn penta_angle(rot: int, k: int) -> int {
    norm_deg(72 * k + rot - 90)
}

/// Pentagon vertex k around (cx, cy) with the given radius and rotation.
pub open spec fn penta_vertex(cx: int, cy: int, r: int, rot: int, k: int) -> (int, int) {
    let a = penta_angle(rot, k);
    (cx + scaled_offset(r, cos_milli(a)), cy + scaled_offset(r, sin_milli(a)))
}

pub(crate) fn penta_vertex_x(cx: i32, cy: i32, r: i32, rot: i32, k: i32) -> (v: (i64, i64))
    requires
        0 <= k <= 5,
    ensures
        v.0 as int == penta_vertex(cx as int, cy as int, r as int, rot as int, k as int).0,
        v.1 as int == penta_vertex(cx as int, cy as int, r as int, rot as int, k as int).1,
        -0x1_0000_0001 <= v.0 <= 0x1_0000_0001,
        -0x1_0000_0001 <= v.1 <= 0x1_0000_0001,
{
    let a64: i64 = 72 * (k as i64) + (rot as i64) - 90;
    let a = norm_deg_x(a64);
    let c = cos_milli_x(a);
    let s = sin_milli_x(a);
    proof {
        assert(-1000 <= sin_milli_q(norm_deg(a as int + 90)) <= 1000);
        assert(-1000 <= cos_milli(a as int) <= 1000);
        assert(-1000 <= sin_milli(a as int) <= 1000);
    }
    let ox = scaled_offset_x(r as i64, c as i64);
    let oy = scaled_offset_x(r as i64, s as i64);
    ((cx as i64) + ox, (cy as i64) + oy)
}

/// With rotation zero, vertex 0 sits exactly at the top of the pentagon:
/// at (center.x, center.y - radius).
pub proof fn lemma_penta_top(cx: int, cy: int, r: int)
    requires
        r >= 0,
    ensures
        penta_vertex(cx, cy, r, 0, 0) == (cx, cy - r),
{
    lemma_fundamental_div_mod_converse(-90, 360, -1, 270);
    assert(penta_angle(0, 0) == 270);
    lemma_fundamental_div_mod_converse(360, 360, 1, 0);
    assert(norm_deg(360int) == 0);
    assert(cos_milli(270int) == 0);
    assert(sin_milli(270int) == -1000);
    assert(r * 0 == 0) by (nonlinear_arith);
    lemma_fundamental_div_mod_converse(500, 1000, 0, 500);
    assert(scaled_offset(r, 0) == 0);
    assert(r * -1000 == -(1000 * r)) by (nonlinear_arith);
    lemma_fundamental_div_mod_converse(1000 * r + 500, 1000, r, 500);
    assert(scaled_offset(r, -1000) == -r);
}

} // verus!
