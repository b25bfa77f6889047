//! Circle, ellipse, arc and rounded-rectangle drawing.
//!
//! Fills work row by row from the implicit equation, using an exact integer
//! square root, so a filled circle is precisely the integer disk
//! `(px-cx)^2 + (py-cy)^2 <= r^2`.  Outlines step a parametric angle in whole
//! degrees through a fixed-point cosine table and connect successive points
//! with line segments — an approximation by design, whose error grows with
//! the radius and the angular step.

use vstd::arithmetic::div_mod::lemma_div_is_ordered;
use vstd::math::abs;
use vstd::prelude::*;

use crate::buffer::{
    fill_rect_wide, spec_buf_ok, spec_frame_rect, spec_in_bounds, spec_only_color, spec_pix,
    spec_pixel_is, spec_pixel_same, spec_rect_covers,
};
use crate::lines::{draw_line_wide, spec_th};

verus! {

/// Exact integer square root: the largest `r` with `r * r <= v`.
pub fn isqrt64(v: u64) -> (r: u64)
    ensures
        r * r <= v,
        v < (r + 1) * (r + 1),
{
    let mut lo: u64 = 0;
    let mut hi: u64 = 0x1_0000_0000;
    while lo + 1 < hi
        invariant
            0 <= lo < hi <= 0x1_0000_0000,
            lo * lo <= v,
            v < hi * hi || hi == 0x1_0000_0000,
        decreases hi - lo,
    {
        let mid = lo + (hi - lo) / 2;
        proof {
            assert((mid as int) * (mid as int) <= 0x1_0000_0000 * 0x1_0000_0000) by (nonlinear_arith)
                requires
                    0 <= mid <= 0x1_0000_0000,
            ;
        }
        let sq: u128 = (mid as u128) * (mid as u128);
        if sq <= v as u128 {
            lo = mid;
        } else {
            hi = mid;
        }
    }
    proof {
        if hi == 0x1_0000_0000 && !(v < hi * hi) {
            assert(v < 0x1_0000_0000 * 0x1_0000_0000) by (nonlinear_arith)
                requires
                    v <= u64::MAX,
            ;
        }
    }
    lo
}

/// The fixed-point cosine table the outlines step through, as a
/// specification: one value per whole degree of the first quadrant.
#[verifier::opaque]
pub open spec fn spec_cos_table_q16(d: int) -> int {
    if d == 0 {
        65536
    } else if d == 1 {
        65526
    } else if d == 2 {
        65496
    } else if d == 3 {
        65446
    } else if d == 4 {
        65376
    } else if d == 5 {
        65287
    } else if d == 6 {
        65177
    } else if d == 7 {
        65048
    } else if d == 8 {
        64898
    } else if d == 9 {
        64729
    } else if d == 10 {
        64540
    } else if d == 11 {
        64332
    } else if d == 12 {
        64104
    } else if d == 13 {
        63856
    } else if d == 14 {
        63589
    } else if d == 15 {
        63303
    } else if d == 16 {
        62997
    } else if d == 17 {
        62672
    } else if d == 18 {
        62328
    } else if d == 19 {
        61966
    } else if d == 20 {
        61584
    } else if d == 21 {
        61183
    } else if d == 22 {
        60764
    } else if d == 23 {
        60326
    } else if d == 24 {
        59870
    } else if d == 25 {
        59396
    } else if d == 26 {
        58903
    } else if d == 27 {
        58393
    } else if d == 28 {
        57865
    } else if d == 29 {
        57319
    } else if d == 30 {
        56756
    } else if d == 31 {
        56175
    } else if d == 32 {
        55578
    } else if d == 33 {
        54963
    } else if d == 34 {
        54332
    } else if d == 35 {
        53684
    } else if d == 36 {
        53020
    } else if d == 37 {
        52339
    } else if d == 38 {
        51643
    } else if d == 39 {
        50931
    } else if d == 40 {
        50203
    } else if d == 41 {
        49461
    } else if d == 42 {
        48703
    } else if d == 43 {
        47930
    } else if d == 44 {
        47143
    } else if d == 45 {
        46341
    } else if d == 46 {
        45525
    } else if d == 47 {
        44695
    } else if d == 48 {
        43852
    } else if d == 49 {
        42995
    } else if d == 50 {
        42126
    } else if d == 51 {
        41243
    } else if d == 52 {
        40348
    } else if d == 53 {
        39441
    } else if d == 54 {
        38521
    } else if d == 55 {
        37590
    } else if d == 56 {
        36647
    } else if d == 57 {
        35693
    } else if d == 58 {
        34729
    } else if d == 59 {
        33754
    } else if d == 60 {
        32768
    } else if d == 61 {
        31772
    } else if d == 62 {
        30767
    } else if d == 63 {
        29753
    } else if d == 64 {
        28729
    } else if d == 65 {
        27697
    } else if d == 66 {
        26656
    } else if d == 67 {
        25607
    } else if d == 68 {
        24550
    } else if d == 69 {
        23486
    } else if d == 70 {
        22415
    } else if d == 71 {
        21336
    } else if d == 72 {
        20252
    } else if d == 73 {
        19161
    } else if d == 74 {
        18064
    } else if d == 75 {
        16962
    } else if d == 76 {
        15855
    } else if d == 77 {
        14742
    } else if d == 78 {
        13626
    } else if d == 79 {
        12505
    } else if d == 80 {
        11380
    } else if d == 81 {
        10252
    } else if d == 82 {
        9121
    } else if d == 83 {
        7987
    } else if d == 84 {
        6850
    } else if d == 85 {
        5712
    } else if d == 86 {
        4572
    } else if d == 87 {
        3430
    } else if d == 88 {
        2287
    } else if d == 89 {
        1144
    } else {
        0
    }
}

/// Fixed-point cosine of a whole number of degrees, scaled by 65536.
pub open spec fn spec_cos_q16(deg: int) -> int {
    let m = deg % 360;
    if m <= 90 {
        spec_cos_table_q16(m)
    } else if m <= 180 {
        -spec_cos_table_q16(180 - m)
    } else if m <= 270 {
        -spec_cos_table_q16(m - 180)
    } else {
        spec_cos_table_q16(360 - m)
    }
}

/// Fixed-point sine of a whole number of degrees, scaled by 65536.
pub open spec fn spec_sin_q16(deg: int) -> int {
    spec_cos_q16(deg - 90)
}

/// `radius * c / 65536`, rounded half away from zero.
pub open spec fn spec_round_radius_q16(radius: int, c: int) -> int {
    let prod = radius * c;
    if prod >= 0 {
        (prod + 32768) / 65536
    } else {
        -((-prod + 32768) / 65536)
    }
}

#[verifier::rlimit(100)]
fn cos_table_q16(d: u64) -> (r: i64)
    requires
        d <= 90,
    ensures
        0 <= r <= 65536,
        r == spec_cos_table_q16(d as int),
{
    proof {
        reveal(spec_cos_table_q16);
    }
    match d {
        0 => 65536,
        1 => 65526,
        2 => 65496,
        3 => 65446,
        4 => 65376,
        5 => 65287,
        6 => 65177,
        7 => 65048,
        8 => 64898,
        9 => 64729,
        10 => 64540,
        11 => 64332,
        12 => 64104,
        13 => 63856,
        14 => 63589,
        15 => 63303,
        16 => 62997,
        17 => 62672,
        18 => 62328,
        19 => 61966,
        20 => 61584,
        21 => 61183,
        22 => 60764,
        23 => 60326,
        24 => 59870,
        25 => 59396,
        26 => 58903,
        27 => 58393,
        28 => 57865,
        29 => 57319,
        30 => 56756,
        31 => 56175,
        32 => 55578,
        33 => 54963,
        34 => 54332,
        35 => 53684,
        36 => 53020,
        37 => 52339,
        38 => 51643,
        39 => 50931,
        40 => 50203,
        41 => 49461,
        42 => 48703,
        43 => 47930,
        44 => 47143,
        45 => 46341,
        46 => 45525,
        47 => 44695,
        48 => 43852,
        49 => 42995,
        50 => 42126,
        51 => 41243,
        52 => 40348,
        53 => 39441,
        54 => 38521,
        55 => 37590,
        56 => 36647,
        57 => 35693,
        58 => 34729,
        59 => 33754,
        60 => 32768,
        61 => 31772,
        62 => 30767,
        63 => 29753,
        64 => 28729,
        65 => 27697,
        66 => 26656,
        67 => 25607,
        68 => 24550,
        69 => 23486,
        70 => 22415,
        71 => 21336,
        72 => 20252,
        73 => 19161,
        74 => 18064,
        75 => 16962,
        76 => 15855,
        77 => 14742,
        78 => 13626,
        79 => 12505,
        80 => 11380,
        81 => 10252,
        82 => 9121,
        83 => 7987,
        84 => 6850,
        85 => 5712,
        86 => 4572,
        87 => 3430,
        88 => 2287,
        89 => 1144,
        _ => 0,
    }
}

/// Fixed-point cosine, scaled by 65536, for a whole number of degrees.
#[verifier::rlimit(100)]
pub fn cos_q16(deg: i64) -> (r: i64)
    requires
        -0x2_0000_0000_0000 <= deg <= 0x2_0000_0000_0000,
    ensures
        -65536 <= r <= 65536,
        r == spec_cos_q16(deg as int),
{
    let mut m = deg % 360;
    if m < 0 {
        m = m + 360;
    }
    proof {
        assert(m == (deg as int) % 360);
    }
    if m <= 90 {
        cos_table_q16(m as u64)
    } else if m <= 180 {
        -cos_table_q16((180 - m) as u64)
    } else if m <= 270 {
        -cos_table_q16((m - 180) as u64)
    } else {
        cos_table_q16((360 - m) as u64)
    }
}

/// Fixed-point sine, scaled by 65536, for a whole number of degrees.
pub fn sin_q16(deg: i64) -> (r: i64)
    requires
        -0x1_0000_0000_0000 <= deg <= 0x1_0000_0000_0000,
    ensures
        -65536 <= r <= 65536,
        r == spec_sin_q16(deg as int),
{
    cos_q16(deg - 90)
}

/// `radius * c / 65536`, rounded half away from zero; never larger in
/// magnitude than the radius itself.
pub fn round_radius_q16(radius: i64, c: i64) -> (r: i64)
    requires
        0 <= radius <= 0x8000_0000,
        -65536 <= c <= 65536,
    ensures
        -radius <= r <= radius,
        r == spec_round_radius_q16(radius as int, c as int),
{
    proof {
        assert(-0x8000_0000 * 65536 <= radius * c <= 0x8000_0000 * 65536) by (nonlinear_arith)
            requires
                0 <= radius <= 0x8000_0000,
                -65536 <= c <= 65536,
        ;
    }
    let prod: i64 = radius * c;
    if prod >= 0 {
        let q = (prod + 32768) / 65536;
        proof {
            assert(prod <= radius * 65536) by (nonlinear_arith)
                requires
                    0 <= radius,
                    c <= 65536,
                    prod == radius * c,
            ;
            lemma_div_is_ordered(prod + 32768, radius * 65536 + 32768, 65536);
            assert((radius * 65536 + 32768) / 65536 == radius) by (nonlinear_arith)
                requires
                    0 <= radius,
            ;
        }
        q
    } else {
        let q = (-prod + 32768) / 65536;
        proof {
            assert(-prod <= radius * 65536) by (nonlinear_arith)
                requires
                    0 <= radius,
                    -65536 <= c,
                    prod == radius * c,
            ;
            lemma_div_is_ordered(-prod + 32768, radius * 65536 + 32768, 65536);
            assert((radius * 65536 + 32768) / 65536 == radius) by (nonlinear_arith)
                requires
                    0 <= radius,
            ;
        }
        -q
    }
}

/// The integer disk: `(px, py)` lies within distance `r` of `(cx, cy)`.
pub open spec fn spec_circle_covers(cx: int, cy: int, r: int, px: int, py: int) -> bool {
    r >= 0 && (px - cx) * (px - cx) + (py - cy) * (py - cy) <= r * r
}

/// A row of the disk spans exactly the columns within the row's half-width.
proof fn lemma_row_span(r2: int, dy2: int, dx: int, d: int)
    requires
        0 <= dx,
        0 <= dy2,
        dx * dx <= r2 - dy2,
        r2 - dy2 < (dx + 1) * (dx + 1),
    ensures
        (d * d + dy2 <= r2) <==> (-dx <= d <= dx),
{
    if -dx <= d <= dx {
        assert(d * d <= dx * dx) by (nonlinear_arith)
            requires
                -dx <= d <= dx,
        ;
    }
    if d * d + dy2 <= r2 {
        assert(-dx <= d <= dx) by (nonlinear_arith)
            requires
                d * d < (dx + 1) * (dx + 1),
                dx >= 0,
        ;
    }
}

/// Fills the disk of radius `r` centered at `(cx, cy)` row by row from the
/// implicit equation: exactly the pixels of the integer disk are painted.
#[verifier::loop_isolation(false)]
pub fn fill_circle(
    p: &mut Vec<u8>,
    pw: usize,
    ph: usize,
    cx: i32,
    cy: i32,
    r: i32,
    rgb: (u8, u8, u8),
)
    requires
        spec_buf_ok(old(p)@, pw as int, ph as int),
    ensures
        final(p)@.len() == old(p)@.len(),
        forall|px: int, py: int|
            #![trigger spec_pix(pw as int, px, py)]
            spec_in_bounds(pw as int, ph as int, px, py) ==> if spec_circle_covers(
                cx as int,
                cy as int,
                r as int,
                px,
                py,
            ) {
                spec_pixel_is(final(p)@, pw as int, px, py, rgb)
            } else {
                spec_pixel_same(final(p)@, old(p)@, pw as int, px, py)
            },
{
    if r < 0 {
        return ;
    }
    let cx64 = cx as i64;
    let cy64 = cy as i64;
    let r64 = r as i64;
    proof {
        assert(r64 * r64 <= 0x8000_0000 * 0x8000_0000) by (nonlinear_arith)
            requires
                0 <= r64 <= 0x8000_0000,
        ;
    }
    let r2: i64 = r64 * r64;
    proof {
        assert forall|px: int, py: int|
            spec_circle_covers(cx as int, cy as int, r as int, px, py) implies cy - r64 <= py <= cy
            + r64 by {
            assert(-r64 <= py - cy <= r64) by (nonlinear_arith)
                requires
                    (px - cx) * (px - cx) + (py - cy) * (py - cy) <= r64 * r64,
                    r64 >= 0,
            ;
        }
    }
    let mut dy: i64 = -r64;
    while dy <= r64
        invariant
            -r64 <= dy <= r64 + 1,
            p@.len() == old(p)@.len(),
            forall|px: int, py: int|
                #![trigger spec_pix(pw as int, px, py)]
                spec_in_bounds(pw as int, ph as int, px, py) ==> if spec_circle_covers(
                    cx as int,
                    cy as int,
                    r as int,
                    px,
                    py,
                ) && py < cy + dy {
                    spec_pixel_is(p@, pw as int, px, py, rgb)
                } else {
                    spec_pixel_same(p@, old(p)@, pw as int, px, py)
                },
        decreases r64 + 1 - dy,
    {
        proof {
            assert(0 <= dy * dy <= r2) by (nonlinear_arith)
                requires
                    -r64 <= dy <= r64,
                    r2 == r64 * r64,
            ;
        }
        let dy2: i64 = dy * dy;
        let v: u64 = (r2 - dy2) as u64;
        let dxw = isqrt64(v);
        proof {
            assert(dxw <= 0x1_0000_0000) by (nonlinear_arith)
                requires
                    dxw * dxw <= 0x4000_0000_0000_0000,
            ;
        }
        let dx = dxw as i64;
        let ghost pre = p@;
        fill_rect_wide(p, pw, ph, cx64 - dx, cy64 + dy, 2 * dx + 1, 1, rgb);
        proof {
            assert forall|px: int, py: int|
                spec_in_bounds(pw as int, ph as int, px, py) implies (if spec_circle_covers(
                cx as int,
                cy as int,
                r as int,
                px,
                py,
            ) && py < cy + dy + 1 {
                spec_pixel_is(p@, pw as int, px, py, rgb)
            } else {
                spec_pixel_same(p@, old(p)@, pw as int, px, py)
            }) by {
                lemma_row_span(r2 as int, dy2 as int, dx as int, px - cx);
                assert(spec_pix(pw as int, px, py) == spec_pix(pw as int, px, py));
            }
        }
        dy = dy + 1;
    }
    proof {
        assert forall|px: int, py: int|
            spec_circle_covers(cx as int, cy as int, r as int, px, py) implies py < cy + dy by {
            assert(-r64 <= py - cy <= r64) by (nonlinear_arith)
                requires
                    (px - cx) * (px - cx) + (py - cy) * (py - cy) <= r64 * r64,
                    r64 >= 0,
            ;
        }
    }
}

/// The quarter disk reached from `(cx, cy)` in the directions `(sx, sy)`.
pub open spec fn spec_quadrant_covers(
    cx: int,
    cy: int,
    r: int,
    sx: int,
    sy: int,
    px: int,
    py: int,
) -> bool {
    let dx = if sx < 0 {
        cx - px
    } else {
        px - cx
    };
    let dy = if sy < 0 {
        cy - py
    } else {
        py - cy
    };
    r >= 0 && 0 <= dx && 0 <= dy && dx * dx + dy * dy <= r * r
}

/// Fills one quarter of the disk of radius `r` centered at `(cx, cy)`,
/// growing in the directions given by the signs `sx`, `sy`: exactly the
/// pixels of the integer quarter disk are painted.
#[verifier::loop_isolation(false)]
pub fn fill_circle_quadrant_wide(
    p: &mut Vec<u8>,
    pw: usize,
    ph: usize,
    cx: i64,
    cy: i64,
    r: i64,
    rgb: (u8, u8, u8),
    sx: i64,
    sy: i64,
)
    requires
        spec_buf_ok(old(p)@, pw as int, ph as int),
        sx == 1 || sx == -1,
        sy == 1 || sy == -1,
        -0x2_0000_0000 <= cx <= 0x2_0000_0000,
        -0x2_0000_0000 <= cy <= 0x2_0000_0000,
        r <= 0x8000_0000,
    ensures
        final(p)@.len() == old(p)@.len(),
        forall|px: int, py: int|
            #![trigger spec_pix(pw as int, px, py)]
            spec_in_bounds(pw as int, ph as int, px, py) ==> if spec_quadrant_covers(
                cx as int,
                cy as int,
                r as int,
                sx as int,
                sy as int,
                px,
                py,
            ) {
                spec_pixel_is(final(p)@, pw as int, px, py, rgb)
            } else {
                spec_pixel_same(final(p)@, old(p)@, pw as int, px, py)
            },
{
    if r < 0 {
        return ;
    }
    proof {
        assert(r * r <= 0x8000_0000 * 0x8000_0000) by (nonlinear_arith)
            requires
                0 <= r <= 0x8000_0000,
        ;
    }
    let r2: i64 = r * r;
    proof {
        assert forall|px: int, py: int|
            spec_quadrant_covers(cx as int, cy as int, r as int, sx as int, sy as int, px, py)
            implies (if sy < 0 {
            cy - py
        } else {
            py - cy
        }) <= r by {
            let dyv = if sy < 0 {
                cy - py
            } else {
                py - cy
            };
            let dxv = if sx < 0 {
                cx - px
            } else {
                px - cx
            };
            assert(dyv <= r) by (nonlinear_arith)
                requires
                    dxv * dxv + dyv * dyv <= r * r,
                    r >= 0,
                    dyv >= 0,
                    dxv >= 0,
            ;
        }
    }
    let mut dy: i64 = 0;
    while dy <= r
        invariant
            0 <= dy <= r + 1,
            p@.len() == old(p)@.len(),
            forall|px: int, py: int|
                #![trigger spec_pix(pw as int, px, py)]
                spec_in_bounds(pw as int, ph as int, px, py) ==> if spec_quadrant_covers(
                    cx as int,
                    cy as int,
                    r as int,
                    sx as int,
                    sy as int,
                    px,
                    py,
                ) && (if sy < 0 {
                    cy - py
                } else {
                    py - cy
                }) < dy {
                    spec_pixel_is(p@, pw as int, px, py, rgb)
                } else {
                    spec_pixel_same(p@, old(p)@, pw as int, px, py)
                },
        decreases r + 1 - dy,
    {
        proof {
            assert(0 <= dy * dy <= r2) by (nonlinear_arith)
                requires
                    0 <= dy <= r,
                    r2 == r * r,
            ;
        }
        let dy2: i64 = dy * dy;
        let v: u64 = (r2 - dy2) as u64;
        let dxw = isqrt64(v);
        proof {
            assert(dxw <= 0x1_0000_0000) by (nonlinear_arith)
                requires
                    dxw * dxw <= 0x4000_0000_0000_0000,
            ;
        }
        let dx = dxw as i64;
        let yy: i64 = cy + sy * dy;
        let x_start: i64 = if sx < 0 {
            cx - dx
        } else {
            cx
        };
        fill_rect_wide(p, pw, ph, x_start, yy, dx + 1, 1, rgb);
        proof {
            assert forall|px: int, py: int|
                spec_in_bounds(pw as int, ph as int, px, py) implies (if spec_quadrant_covers(
                cx as int,
                cy as int,
                r as int,
                sx as int,
                sy as int,
                px,
                py,
            ) && (if sy < 0 {
                cy - py
            } else {
                py - cy
            }) < dy + 1 {
                spec_pixel_is(p@, pw as int, px, py, rgb)
            } else {
                spec_pixel_same(p@, old(p)@, pw as int, px, py)
            }) by {
                let dv = if sx < 0 {
                    cx - px
                } else {
                    px - cx
                };
                lemma_row_span(r2 as int, dy2 as int, dx as int, dv);
                assert(spec_pix(pw as int, px, py) == spec_pix(pw as int, px, py));
            }
        }
        dy = dy + 1;
    }
}

/// The integer ellipse with radii `rx`, `ry`: the per-row half-width is the
/// circle equation scaled per axis.
pub open spec fn spec_ellipse_covers(
    cx: int,
    cy: int,
    rx: int,
    ry: int,
    px: int,
    py: int,
) -> bool {
    let dx = px - cx;
    let dy = py - cy;
    &&& rx >= 0
    &&& ry > 0
    &&& dy * dy <= ry * ry
    &&& dx * dx * (ry * ry) <= (rx * rx) * (ry * ry - dy * dy)
}

/// A row of the ellipse spans exactly the columns within the row's computed
/// half-width.
proof fn lemma_ell_span(rx2: int, ry2: int, t: int, val: int, dx: int, d: int)
    requires
        ry2 > 0,
        0 <= t <= ry2,
        0 <= rx2,
        val == (rx2 * t) / ry2,
        0 <= dx,
        dx * dx <= val,
        val < (dx + 1) * (dx + 1),
    ensures
        (d * d * ry2 <= rx2 * t) <==> (-dx <= d <= dx),
{
    let a = rx2 * t;
    assert(rx2 * t >= 0) by (nonlinear_arith)
        requires
            rx2 >= 0,
            t >= 0,
    ;
    vstd::arithmetic::div_mod::lemma_fundamental_div_mod(a, ry2);
    if -dx <= d <= dx {
        assert(d * d <= dx * dx) by (nonlinear_arith)
            requires
                -dx <= d <= dx,
        ;
        vstd::arithmetic::mul::lemma_mul_inequality(d * d, val, ry2);
        assert(d * d * ry2 <= a);
    }
    if d * d * ry2 <= a {
        assert(d * d <= val) by (nonlinear_arith)
            requires
                d * d * ry2 <= a,
                a == ry2 * val + a % ry2,
                0 <= a % ry2 < ry2,
                ry2 > 0,
        ;
        assert(-dx <= d <= dx) by (nonlinear_arith)
            requires
                d * d < (dx + 1) * (dx + 1),
                dx >= 0,
        ;
    }
}

/// Fills the ellipse with radii `rx`, `ry` centered at `(cx, cy)` row by row
/// from the implicit equation: exactly the integer-ellipse pixels are
/// painted.  Degenerate radii (negative, or a zero `ry`) paint nothing.
#[verifier::loop_isolation(false)]
pub fn fill_ellipse(
    p: &mut Vec<u8>,
    pw: usize,
    ph: usize,
    cx: i32,
    cy: i32,
    rx: i32,
    ry: i32,
    rgb: (u8, u8, u8),
)
    requires
        spec_buf_ok(old(p)@, pw as int, ph as int),
    ensures
        final(p)@.len() == old(p)@.len(),
        forall|px: int, py: int|
            #![trigger spec_pix(pw as int, px, py)]
            spec_in_bounds(pw as int, ph as int, px, py) ==> if spec_ellipse_covers(
                cx as int,
                cy as int,
                rx as int,
                ry as int,
                px,
                py,
            ) {
                spec_pixel_is(final(p)@, pw as int, px, py, rgb)
            } else {
                spec_pixel_same(final(p)@, old(p)@, pw as int, px, py)
            },
{
    if rx < 0 || ry <= 0 {
        return ;
    }
    let cx64 = cx as i64;
    let cy64 = cy as i64;
    let rx64 = rx as i64;
    let ry64 = ry as i64;
    proof {
        assert(rx64 * rx64 <= 0x8000_0000 * 0x8000_0000 && ry64 * ry64 <= 0x8000_0000
            * 0x8000_0000) by (nonlinear_arith)
            requires
                0 <= rx64 <= 0x8000_0000,
                0 <= ry64 <= 0x8000_0000,
        ;
    }
    let rx2: i64 = rx64 * rx64;
    let ry2: i64 = ry64 * ry64;
    proof {
        assert(ry2 >= 1) by (nonlinear_arith)
            requires
                ry64 >= 1,
                ry2 == ry64 * ry64,
        ;
        assert forall|px: int, py: int|
            spec_ellipse_covers(cx as int, cy as int, rx as int, ry as int, px, py) implies cy
            - ry64 <= py <= cy + ry64 by {
            assert(-ry64 <= py - cy <= ry64) by (nonlinear_arith)
                requires
                    (py - cy) * (py - cy) <= ry64 * ry64,
                    ry64 >= 0,
            ;
        }
    }
    let mut dy: i64 = -ry64;
    while dy <= ry64
        invariant
            -ry64 <= dy <= ry64 + 1,
            p@.len() == old(p)@.len(),
            forall|px: int, py: int|
                #![trigger spec_pix(pw as int, px, py)]
                spec_in_bounds(pw as int, ph as int, px, py) ==> if spec_ellipse_covers(
                    cx as int,
                    cy as int,
                    rx as int,
                    ry as int,
                    px,
                    py,
                ) && py < cy + dy {
                    spec_pixel_is(p@, pw as int, px, py, rgb)
                } else {
                    spec_pixel_same(p@, old(p)@, pw as int, px, py)
                },
        decreases ry64 + 1 - dy,
    {
        proof {
            assert(0 <= dy * dy <= ry2) by (nonlinear_arith)
                requires
                    -ry64 <= dy <= ry64,
                    ry2 == ry64 * ry64,
            ;
        }
        let t: i64 = ry2 - dy * dy;
        proof {
            assert(0 <= (rx2 as int) * (t as int) <= (rx2 as int) * (ry2 as int) && (rx2 as int) * (
            ry2 as int) <= 0x4000_0000_0000_0000 * 0x4000_0000_0000_0000) by (nonlinear_arith)
                requires
                    0 <= rx2 <= 0x4000_0000_0000_0000,
                    0 <= t <= ry2,
                    ry2 <= 0x4000_0000_0000_0000,
            ;
            vstd::arithmetic::div_mod::lemma_div_is_ordered(
                (rx2 as int) * (t as int),
                (rx2 as int) * (ry2 as int),
                ry2 as int,
            );
            vstd::arithmetic::div_mod::lemma_fundamental_div_mod_converse_div(
                (rx2 as int) * (ry2 as int),
                ry2 as int,
                rx2 as int,
                0,
            );
            assert((rx2 as int) * (t as int) / (ry2 as int) <= rx2 as int);
        }
        let prod: u128 = (rx2 as u128) * (t as u128);
        let val: u64 = (prod / (ry2 as u128)) as u64;
        let dxw = isqrt64(val);
        proof {
            assert(dxw <= 0x1_0000_0000) by (nonlinear_arith)
                requires
                    dxw * dxw <= 0x4000_0000_0000_0000,
            ;
        }
        let dx = dxw as i64;
        fill_rect_wide(p, pw, ph, cx64 - dx, cy64 + dy, 2 * dx + 1, 1, rgb);
        proof {
            assert forall|px: int, py: int|
                spec_in_bounds(pw as int, ph as int, px, py) implies (if spec_ellipse_covers(
                cx as int,
                cy as int,
                rx as int,
                ry as int,
                px,
                py,
            ) && py < cy + dy + 1 {
                spec_pixel_is(p@, pw as int, px, py, rgb)
            } else {
                spec_pixel_same(p@, old(p)@, pw as int, px, py)
            }) by {
                lemma_ell_span(rx2 as int, ry2 as int, t as int, val as int, dx as int, px - cx);
                assert(spec_pix(pw as int, px, py) == spec_pix(pw as int, px, py));
            }
        }
        dy = dy + 1;
    }
}

/// Quarter-disk fill in the protocol's 32-bit coordinates.
pub fn fill_circle_quadrant(
    p: &mut Vec<u8>,
    pw: usize,
    ph: usize,
    cx: i32,
    cy: i32,
    r: i32,
    rgb: (u8, u8, u8),
    sx: i32,
    sy: i32,
)
    requires
        spec_buf_ok(old(p)@, pw as int, ph as int),
        sx == 1 || sx == -1,
        sy == 1 || sy == -1,
    ensures
        final(p)@.len() == old(p)@.len(),
        forall|px: int, py: int|
            #![trigger spec_pix(pw as int, px, py)]
            spec_in_bounds(pw as int, ph as int, px, py) ==> if spec_quadrant_covers(
                cx as int,
                cy as int,
                r as int,
                sx as int,
                sy as int,
                px,
                py,
            ) {
                spec_pixel_is(final(p)@, pw as int, px, py, rgb)
            } else {
                spec_pixel_same(final(p)@, old(p)@, pw as int, px, py)
            },
{
    fill_circle_quadrant_wide(p, pw, ph, cx as i64, cy as i64, r as i64, rgb, sx as i64, sy as i64);
}

/// The corner radius a rounded rectangle really uses: clamped to half the
/// smaller side.
pub open spec fn spec_rr_rad(w: int, h: int, r: int) -> int {
    let hm = (if w < h {
        w
    } else {
        h
    }) / 2;
    if r < hm {
        r
    } else {
        hm
    }
}

/// A corner radius past half the smaller side clamps to exactly half the
/// smaller side, so by the fill's exact contract an oversized radius and the
/// clamped radius produce identical buffers.
pub proof fn lemma_corner_radius_clamps(w: int, h: int, r: int)
    requires
        r >= (if w < h {
            w
        } else {
            h
        }) / 2,
    ensures
        spec_rr_rad(w, h, r) == spec_rr_rad(
            w,
            h,
            (if w < h {
                w
            } else {
                h
            }) / 2,
        ),
{
}

/// Whether the rounded-rectangle fill paints `(px, py)`: the central band,
/// one of the two side bands, or one of the four quarter-disk corners, with
/// the corner radius clamped to half the smaller side.
pub open spec fn spec_round_rect_covers(
    x: int,
    y: int,
    w: int,
    h: int,
    r: int,
    px: int,
    py: int,
) -> bool {
    let rc = spec_rr_rad(w, h, r);
    &&& w > 0
    &&& h > 0
    &&& {
        ||| (x + rc <= px < x + w - rc && y <= py < y + h)
        ||| (x <= px < x + rc && y + rc <= py < y + h - rc)
        ||| (x + w - rc <= px < x + w && y + rc <= py < y + h - rc)
        ||| spec_quadrant_covers(x + rc, y + rc, rc, -1, -1, px, py)
        ||| spec_quadrant_covers(x + w - rc - 1, y + rc, rc, 1, -1, px, py)
        ||| spec_quadrant_covers(x + rc, y + h - rc - 1, rc, -1, 1, px, py)
        ||| spec_quadrant_covers(x + w - rc - 1, y + h - rc - 1, rc, 1, 1, px, py)
    }
}

/// Fills a rounded rectangle: two straight spans plus four quarter-disk
/// corners.  Every change stays inside the declared rectangle and writes the
/// fill color; the central band between the rounded corners and each of the
/// four quarter-disk corners are painted flat.  Degenerate sizes (zero width
/// or height) paint nothing.
#[verifier::loop_isolation(false)]
pub fn fill_round_rect(
    p: &mut Vec<u8>,
    pw: usize,
    ph: usize,
    x: i32,
    y: i32,
    w: u32,
    h: u32,
    r: u32,
    rgb: (u8, u8, u8),
)
    requires
        spec_buf_ok(old(p)@, pw as int, ph as int),
    ensures
        final(p)@.len() == old(p)@.len(),
        spec_only_color(final(p)@, old(p)@, pw as int, ph as int, rgb),
        spec_frame_rect(final(p)@, old(p)@, pw as int, ph as int, x as int, y as int, w as int, h as int),
        forall|px: int, py: int|
            #![trigger spec_pix(pw as int, px, py)]
            spec_in_bounds(pw as int, ph as int, px, py) && w > 0 && h > 0 && x + spec_rr_rad(
                w as int,
                h as int,
                r as int,
            ) <= px < x + w - spec_rr_rad(w as int, h as int, r as int) && y <= py < y + h
                ==> spec_pixel_is(final(p)@, pw as int, px, py, rgb),
        forall|px: int, py: int|
            #![trigger spec_pix(pw as int, px, py)]
            spec_in_bounds(pw as int, ph as int, px, py) && w > 0 && h > 0 && {
                let rc = spec_rr_rad(w as int, h as int, r as int);
                ||| spec_quadrant_covers(x + rc, y + rc, rc, -1, -1, px, py)
                ||| spec_quadrant_covers(x + w - rc - 1, y + rc, rc, 1, -1, px, py)
                ||| spec_quadrant_covers(x + rc, y + h - rc - 1, rc, -1, 1, px, py)
                ||| spec_quadrant_covers(x + w - rc - 1, y + h - rc - 1, rc, 1, 1, px, py)
            } ==> spec_pixel_is(final(p)@, pw as int, px, py, rgb),
        forall|px: int, py: int|
            #![trigger spec_pix(pw as int, px, py)]
            spec_in_bounds(pw as int, ph as int, px, py) ==> if spec_round_rect_covers(
                x as int,
                y as int,
                w as int,
                h as int,
                r as int,
                px,
                py,
            ) {
                spec_pixel_is(final(p)@, pw as int, px, py, rgb)
            } else {
                spec_pixel_same(final(p)@, old(p)@, pw as int, px, py)
            },
{
    if w == 0 || h == 0 {
        return ;
    }
    let x64 = x as i64;
    let y64 = y as i64;
    let w64 = w as i64;
    let h64 = h as i64;
    let half_min: i64 = (if w64 < h64 {
        w64
    } else {
        h64
    }) / 2;
    let rc: i64 = if (r as i64) < half_min {
        r as i64
    } else {
        half_min
    };
    fill_rect_wide(p, pw, ph, x64 + rc, y64, w64 - 2 * rc, h64, rgb);
    fill_rect_wide(p, pw, ph, x64, y64 + rc, rc, h64 - 2 * rc, rgb);
    fill_rect_wide(p, pw, ph, x64 + w64 - rc, y64 + rc, rc, h64 - 2 * rc, rgb);
    fill_circle_quadrant_wide(p, pw, ph, x64 + rc, y64 + rc, rc, rgb, -1, -1);
    fill_circle_quadrant_wide(p, pw, ph, x64 + w64 - rc - 1, y64 + rc, rc, rgb, 1, -1);
    fill_circle_quadrant_wide(p, pw, ph, x64 + rc, y64 + h64 - rc - 1, rc, rgb, -1, 1);
    fill_circle_quadrant_wide(p, pw, ph, x64 + w64 - rc - 1, y64 + h64 - rc - 1, rc, rgb, 1, 1);
    proof {
        assert forall|px: int, py: int|
            spec_quadrant_covers(x64 + rc, y64 + rc, rc as int, -1, -1, px, py)
                || spec_quadrant_covers(x64 + w64 - rc - 1, y64 + rc, rc as int, 1, -1, px, py)
                || spec_quadrant_covers(x64 + rc, y64 + h64 - rc - 1, rc as int, -1, 1, px, py)
                || spec_quadrant_covers(
                x64 + w64 - rc - 1,
                y64 + h64 - rc - 1,
                rc as int,
                1,
                1,
                px,
                py,
            ) implies spec_rect_covers(x as int, y as int, w as int, h as int, px, py) by {
            if spec_quadrant_covers(x64 + rc, y64 + rc, rc as int, -1, -1, px, py) {
                assert(x64 + rc - px <= rc && y64 + rc - py <= rc) by (nonlinear_arith)
                    requires
                        0 <= x64 + rc - px,
                        0 <= y64 + rc - py,
                        (x64 + rc - px) * (x64 + rc - px) + (y64 + rc - py) * (y64 + rc - py) <= rc
                            * rc,
                        rc >= 0,
                ;
            }
            if spec_quadrant_covers(x64 + w64 - rc - 1, y64 + rc, rc as int, 1, -1, px, py) {
                assert(px - (x64 + w64 - rc - 1) <= rc && y64 + rc - py <= rc) by (nonlinear_arith)
                    requires
                        0 <= px - (x64 + w64 - rc - 1),
                        0 <= y64 + rc - py,
                        (px - (x64 + w64 - rc - 1)) * (px - (x64 + w64 - rc - 1)) + (y64 + rc - py)
                            * (y64 + rc - py) <= rc * rc,
                        rc >= 0,
                ;
            }
            if spec_quadrant_covers(x64 + rc, y64 + h64 - rc - 1, rc as int, -1, 1, px, py) {
                assert(x64 + rc - px <= rc && py - (y64 + h64 - rc - 1) <= rc) by (nonlinear_arith)
                    requires
                        0 <= x64 + rc - px,
                        0 <= py - (y64 + h64 - rc - 1),
                        (x64 + rc - px) * (x64 + rc - px) + (py - (y64 + h64 - rc - 1)) * (py - (y64
                            + h64 - rc - 1)) <= rc * rc,
                        rc >= 0,
                ;
            }
            if spec_quadrant_covers(x64 + w64 - rc - 1, y64 + h64 - rc - 1, rc as int, 1, 1, px, py) {
                assert(px - (x64 + w64 - rc - 1) <= rc && py - (y64 + h64 - rc - 1) <= rc)
                    by (nonlinear_arith)
                    requires
                        0 <= px - (x64 + w64 - rc - 1),
                        0 <= py - (y64 + h64 - rc - 1),
                        (px - (x64 + w64 - rc - 1)) * (px - (x64 + w64 - rc - 1)) + (py - (y64 + h64
                            - rc - 1)) * (py - (y64 + h64 - rc - 1)) <= rc * rc,
                        rc >= 0,
                ;
            }
        }
        assert forall|px: int, py: int|
            #![trigger spec_pix(pw as int, px, py)]
            spec_in_bounds(pw as int, ph as int, px, py) implies (if spec_round_rect_covers(
            x as int,
            y as int,
            w as int,
            h as int,
            r as int,
            px,
            py,
        ) {
            spec_pixel_is(p@, pw as int, px, py, rgb)
        } else {
            spec_pixel_same(p@, old(p)@, pw as int, px, py)
        }) by {
            crate::buffer::lemma_pix_in_buf(pw as int, ph as int, px, py);
        }
    }
}

/// The parametric point an arc of signed radius `r` steps to at angle
/// `deg`.
pub open spec fn spec_arc_point(cx: int, cy: int, r: int, deg: int) -> (int, int) {
    let ra = abs(r) as int;
    let sgn: int = if r >= 0 {
        1
    } else {
        -1
    };
    (
        cx + sgn * spec_round_radius_q16(ra, spec_cos_q16(deg)),
        cy + sgn * spec_round_radius_q16(ra, spec_sin_q16(deg)),
    )
}

/// The angle of step `k`: one degree at a time, downwards when the end
/// angle lies below the start.
pub open spec fn spec_arc_angle(start: int, end: int, k: int) -> int {
    if end >= start {
        start + k
    } else {
        start - k
    }
}

/// Whether the arc stroke covers `(px, py)`: some segment between
/// consecutive step points does.
pub open spec fn spec_arc_covers(
    cx: int,
    cy: int,
    r: int,
    start: int,
    end: int,
    t: int,
    px: int,
    py: int,
) -> bool {
    exists|k: int|
        1 <= k <= abs(end - start) && {
            let a = spec_arc_point(cx, cy, r, spec_arc_angle(start, end, k - 1));
            let b = spec_arc_point(cx, cy, r, #[trigger] spec_arc_angle(start, end, k));
            crate::lines::spec_line_covers(a.0, a.1, b.0, b.1, t, px, py)
        }
}

/// The parametric point an ellipse outline of signed radii steps to.
pub open spec fn spec_ellipse_point(cx: int, cy: int, rx: int, ry: int, deg: int) -> (int, int) {
    let sgx: int = if rx >= 0 {
        1
    } else {
        -1
    };
    let sgy: int = if ry >= 0 {
        1
    } else {
        -1
    };
    (
        cx + sgx * spec_round_radius_q16(abs(rx) as int, spec_cos_q16(deg)),
        cy + sgy * spec_round_radius_q16(abs(ry) as int, spec_sin_q16(deg)),
    )
}

/// Whether the ellipse outline covers `(px, py)`: some segment between the
/// two-degree step points does.
pub open spec fn spec_ellipse_outline_covers(
    cx: int,
    cy: int,
    rx: int,
    ry: int,
    t: int,
    px: int,
    py: int,
) -> bool {
    exists|k: int|
        1 <= k <= 180 && {
            let a = spec_ellipse_point(cx, cy, rx, ry, 2 * (k - 1));
            let b = #[trigger] spec_ellipse_point(cx, cy, rx, ry, 2 * k);
            crate::lines::spec_line_covers(a.0, a.1, b.0, b.1, t, px, py)
        }
}

/// The square around `(cx, cy)` that an arc or outline stroke of radius `r`
/// and thickness `t` may touch.
pub open spec fn spec_disk_region(cx: int, cy: int, rx: int, ry: int, t: int) -> (
    int,
    int,
    int,
    int,
) {
    (
        cx - abs(rx) - 2 * spec_th(t) - 2,
        cy - abs(ry) - 2 * spec_th(t) - 2,
        2 * abs(rx) + 4 * spec_th(t) + 4,
        2 * abs(ry) + 4 * spec_th(t) + 4,
    )
}

/// Strokes the arc of radius `r` around `(cx, cy)` from `start_deg` to
/// `end_deg`, stepping one degree at a time (downwards when the end angle is
/// below the start) and connecting successive step points with line
/// segments: exactly the pixels of `spec_arc_covers` are painted, and every
/// other pixel keeps its bytes.
#[verifier::loop_isolation(false)]
#[verifier::rlimit(100)]
pub fn draw_arc_wide(
    p: &mut Vec<u8>,
    pw: usize,
    ph: usize,
    cx: i64,
    cy: i64,
    r: i64,
    start_deg: i64,
    end_deg: i64,
    rgb: (u8, u8, u8),
    t: u32,
)
    requires
        spec_buf_ok(old(p)@, pw as int, ph as int),
        -0x2_0000_0000 <= cx <= 0x2_0000_0000,
        -0x2_0000_0000 <= cy <= 0x2_0000_0000,
        -0x8000_0000 <= r <= 0x8000_0000,
        -0x8000_0000 <= start_deg <= 0x8000_0000,
        -0x8000_0000 <= end_deg <= 0x8000_0000,
    ensures
        final(p)@.len() == old(p)@.len(),
        spec_only_color(final(p)@, old(p)@, pw as int, ph as int, rgb),
        spec_frame_rect(
            final(p)@,
            old(p)@,
            pw as int,
            ph as int,
            spec_disk_region(cx as int, cy as int, r as int, r as int, t as int).0,
            spec_disk_region(cx as int, cy as int, r as int, r as int, t as int).1,
            spec_disk_region(cx as int, cy as int, r as int, r as int, t as int).2,
            spec_disk_region(cx as int, cy as int, r as int, r as int, t as int).3,
        ),
        forall|px: int, py: int|
            #![trigger spec_pix(pw as int, px, py)]
            spec_in_bounds(pw as int, ph as int, px, py) ==> if spec_arc_covers(
                cx as int,
                cy as int,
                r as int,
                start_deg as int,
                end_deg as int,
                t as int,
                px,
                py,
            ) {
                spec_pixel_is(final(p)@, pw as int, px, py, rgb)
            } else {
                spec_pixel_same(final(p)@, old(p)@, pw as int, px, py)
            },
{
    let ghost reg = spec_disk_region(cx as int, cy as int, r as int, r as int, t as int);
    let ra: i64 = if r >= 0 {
        r
    } else {
        -r
    };
    let sgn: i64 = if r >= 0 {
        1
    } else {
        -1
    };
    let step: i64 = if end_deg >= start_deg {
        1
    } else {
        -1
    };
    let span: i64 = if end_deg >= start_deg {
        end_deg - start_deg
    } else {
        start_deg - end_deg
    };
    proof {
        assert(span as int == abs(end_deg as int - start_deg as int));
    }
    let mut prevx: i64 = 0;
    let mut prevy: i64 = 0;
    let mut k: i64 = 0;
    while k <= span
        invariant
            0 <= k <= span + 1,
            span as int == abs(end_deg as int - start_deg as int),
            p@.len() == old(p)@.len(),
            spec_only_color(p@, old(p)@, pw as int, ph as int, rgb),
            spec_frame_rect(p@, old(p)@, pw as int, ph as int, reg.0, reg.1, reg.2, reg.3),
            k > 0 ==> cx - ra <= prevx <= cx + ra && cy - ra <= prevy <= cy + ra,
            k > 0 ==> (prevx as int, prevy as int) == spec_arc_point(
                cx as int,
                cy as int,
                r as int,
                spec_arc_angle(start_deg as int, end_deg as int, k - 1),
            ),
            forall|px: int, py: int|
                #![trigger spec_pix(pw as int, px, py)]
                spec_in_bounds(pw as int, ph as int, px, py) ==> if (exists|j: int|
                    1 <= j <= k - 1 && {
                        let a = spec_arc_point(
                            cx as int,
                            cy as int,
                            r as int,
                            spec_arc_angle(start_deg as int, end_deg as int, j - 1),
                        );
                        let b = spec_arc_point(
                            cx as int,
                            cy as int,
                            r as int,
                            #[trigger] spec_arc_angle(start_deg as int, end_deg as int, j),
                        );
                        crate::lines::spec_line_covers(a.0, a.1, b.0, b.1, t as int, px, py)
                    }) {
                    spec_pixel_is(p@, pw as int, px, py, rgb)
                } else {
                    spec_pixel_same(p@, old(p)@, pw as int, px, py)
                },
        decreases span + 1 - k,
    {
        let angle: i64 = start_deg + step * k;
        proof {
            assert(angle as int == spec_arc_angle(start_deg as int, end_deg as int, k as int));
        }
        let c = cos_q16(angle);
        let s = sin_q16(angle);
        let xx: i64 = cx + sgn * round_radius_q16(ra, c);
        let yy: i64 = cy + sgn * round_radius_q16(ra, s);
        proof {
            assert((xx as int, yy as int) == spec_arc_point(
                cx as int,
                cy as int,
                r as int,
                angle as int,
            ));
        }
        if k > 0 {
            draw_line_wide(p, pw, ph, prevx, prevy, xx, yy, rgb, t);
            proof {
                assert forall|px: int, py: int|
                    #![trigger spec_pix(pw as int, px, py)]
                    spec_in_bounds(pw as int, ph as int, px, py) implies (if (exists|j: int|
                    1 <= j <= k && {
                        let a = spec_arc_point(
                            cx as int,
                            cy as int,
                            r as int,
                            spec_arc_angle(start_deg as int, end_deg as int, j - 1),
                        );
                        let b = spec_arc_point(
                            cx as int,
                            cy as int,
                            r as int,
                            #[trigger] spec_arc_angle(start_deg as int, end_deg as int, j),
                        );
                        crate::lines::spec_line_covers(a.0, a.1, b.0, b.1, t as int, px, py)
                    }) {
                    spec_pixel_is(p@, pw as int, px, py, rgb)
                } else {
                    spec_pixel_same(p@, old(p)@, pw as int, px, py)
                }) by {
                    crate::buffer::lemma_pix_in_buf(pw as int, ph as int, px, py);
                    if crate::lines::spec_line_covers(
                        prevx as int,
                        prevy as int,
                        xx as int,
                        yy as int,
                        t as int,
                        px,
                        py,
                    ) {
                        assert(1 <= (k as int) && (k as int) <= k && {
                            let a = spec_arc_point(
                                cx as int,
                                cy as int,
                                r as int,
                                spec_arc_angle(start_deg as int, end_deg as int, k - 1),
                            );
                            let b = spec_arc_point(
                                cx as int,
                                cy as int,
                                r as int,
                                spec_arc_angle(start_deg as int, end_deg as int, k as int),
                            );
                            crate::lines::spec_line_covers(a.0, a.1, b.0, b.1, t as int, px, py)
                        });
                    }
                }
            }
        }
        prevx = xx;
        prevy = yy;
        k = k + 1;
    }
    proof {
        assert forall|px: int, py: int|
            #![trigger spec_pix(pw as int, px, py)]
            spec_in_bounds(pw as int, ph as int, px, py) implies (if spec_arc_covers(
            cx as int,
            cy as int,
            r as int,
            start_deg as int,
            end_deg as int,
            t as int,
            px,
            py,
        ) {
            spec_pixel_is(p@, pw as int, px, py, rgb)
        } else {
            spec_pixel_same(p@, old(p)@, pw as int, px, py)
        }) by {
            crate::buffer::lemma_pix_in_buf(pw as int, ph as int, px, py);
        }
    }
}

/// Arc stroke in the protocol's 32-bit coordinates, angles in whole degrees.
pub fn draw_arc(
    p: &mut Vec<u8>,
    pw: usize,
    ph: usize,
    cx: i32,
    cy: i32,
    r: i32,
    start_deg: i32,
    end_deg: i32,
    rgb: (u8, u8, u8),
    t: u32,
)
    requires
        spec_buf_ok(old(p)@, pw as int, ph as int),
    ensures
        final(p)@.len() == old(p)@.len(),
        spec_only_color(final(p)@, old(p)@, pw as int, ph as int, rgb),
        spec_frame_rect(
            final(p)@,
            old(p)@,
            pw as int,
            ph as int,
            spec_disk_region(cx as int, cy as int, r as int, r as int, t as int).0,
            spec_disk_region(cx as int, cy as int, r as int, r as int, t as int).1,
            spec_disk_region(cx as int, cy as int, r as int, r as int, t as int).2,
            spec_disk_region(cx as int, cy as int, r as int, r as int, t as int).3,
        ),
        forall|px: int, py: int|
            #![trigger spec_pix(pw as int, px, py)]
            spec_in_bounds(pw as int, ph as int, px, py) ==> if spec_arc_covers(
                cx as int,
                cy as int,
                r as int,
                start_deg as int,
                end_deg as int,
                t as int,
                px,
                py,
            ) {
                spec_pixel_is(final(p)@, pw as int, px, py, rgb)
            } else {
                spec_pixel_same(final(p)@, old(p)@, pw as int, px, py)
            },
{
    draw_arc_wide(
        p,
        pw,
        ph,
        cx as i64,
        cy as i64,
        r as i64,
        start_deg as i64,
        end_deg as i64,
        rgb,
        t,
    );
}

/// Circle outline: its buffer effect is exactly that of the full arc from
/// zero to 360 degrees.
pub fn draw_circle_outline(
    p: &mut Vec<u8>,
    pw: usize,
    ph: usize,
    cx: i32,
    cy: i32,
    r: i32,
    rgb: (u8, u8, u8),
    t: u32,
)
    requires
        spec_buf_ok(old(p)@, pw as int, ph as int),
    ensures
        final(p)@.len() == old(p)@.len(),
        spec_only_color(final(p)@, old(p)@, pw as int, ph as int, rgb),
        spec_frame_rect(
            final(p)@,
            old(p)@,
            pw as int,
            ph as int,
            spec_disk_region(cx as int, cy as int, r as int, r as int, t as int).0,
            spec_disk_region(cx as int, cy as int, r as int, r as int, t as int).1,
            spec_disk_region(cx as int, cy as int, r as int, r as int, t as int).2,
            spec_disk_region(cx as int, cy as int, r as int, r as int, t as int).3,
        ),
        forall|px: int, py: int|
            #![trigger spec_pix(pw as int, px, py)]
            spec_in_bounds(pw as int, ph as int, px, py) ==> if spec_arc_covers(
                cx as int,
                cy as int,
                r as int,
                0,
                360,
                t as int,
                px,
                py,
            ) {
                spec_pixel_is(final(p)@, pw as int, px, py, rgb)
            } else {
                spec_pixel_same(final(p)@, old(p)@, pw as int, px, py)
            },
{
    draw_arc(p, pw, ph, cx, cy, r, 0, 360, rgb, t);
}

/// Ellipse outline: parametric stepping in two-degree increments,
/// connecting successive step points with line segments — exactly the
/// pixels of `spec_ellipse_outline_covers` are painted, and every other
/// pixel keeps its bytes.
#[verifier::loop_isolation(false)]
#[verifier::rlimit(100)]
pub fn draw_ellipse_outline(
    p: &mut Vec<u8>,
    pw: usize,
    ph: usize,
    cx: i32,
    cy: i32,
    rx: i32,
    ry: i32,
    rgb: (u8, u8, u8),
    t: u32,
)
    requires
        spec_buf_ok(old(p)@, pw as int, ph as int),
    ensures
        final(p)@.len() == old(p)@.len(),
        spec_only_color(final(p)@, old(p)@, pw as int, ph as int, rgb),
        spec_frame_rect(
            final(p)@,
            old(p)@,
            pw as int,
            ph as int,
            spec_disk_region(cx as int, cy as int, rx as int, ry as int, t as int).0,
            spec_disk_region(cx as int, cy as int, rx as int, ry as int, t as int).1,
            spec_disk_region(cx as int, cy as int, rx as int, ry as int, t as int).2,
            spec_disk_region(cx as int, cy as int, rx as int, ry as int, t as int).3,
        ),
        forall|px: int, py: int|
            #![trigger spec_pix(pw as int, px, py)]
            spec_in_bounds(pw as int, ph as int, px, py) ==> if spec_ellipse_outline_covers(
                cx as int,
                cy as int,
                rx as int,
                ry as int,
                t as int,
                px,
                py,
            ) {
                spec_pixel_is(final(p)@, pw as int, px, py, rgb)
            } else {
                spec_pixel_same(final(p)@, old(p)@, pw as int, px, py)
            },
{
    let ghost reg = spec_disk_region(cx as int, cy as int, rx as int, ry as int, t as int);
    let cx64 = cx as i64;
    let cy64 = cy as i64;
    let rxa: i64 = if rx >= 0 {
        rx as i64
    } else {
        -(rx as i64)
    };
    let sgx: i64 = if rx >= 0 {
        1
    } else {
        -1
    };
    let rya: i64 = if ry >= 0 {
        ry as i64
    } else {
        -(ry as i64)
    };
    let sgy: i64 = if ry >= 0 {
        1
    } else {
        -1
    };
    let mut prevx: i64 = 0;
    let mut prevy: i64 = 0;
    let mut k: i64 = 0;
    while k <= 180
        invariant
            0 <= k <= 181,
            p@.len() == old(p)@.len(),
            spec_only_color(p@, old(p)@, pw as int, ph as int, rgb),
            spec_frame_rect(p@, old(p)@, pw as int, ph as int, reg.0, reg.1, reg.2, reg.3),
            k > 0 ==> cx64 - rxa <= prevx <= cx64 + rxa && cy64 - rya <= prevy <= cy64 + rya,
            k > 0 ==> (prevx as int, prevy as int) == spec_ellipse_point(
                cx as int,
                cy as int,
                rx as int,
                ry as int,
                2 * (k - 1),
            ),
            forall|px: int, py: int|
                #![trigger spec_pix(pw as int, px, py)]
                spec_in_bounds(pw as int, ph as int, px, py) ==> if (exists|j: int|
                    1 <= j <= k - 1 && {
                        let a = spec_ellipse_point(
                            cx as int,
                            cy as int,
                            rx as int,
                            ry as int,
                            2 * (j - 1),
                        );
                        let b = #[trigger] spec_ellipse_point(
                            cx as int,
                            cy as int,
                            rx as int,
                            ry as int,
                            2 * j,
                        );
                        crate::lines::spec_line_covers(a.0, a.1, b.0, b.1, t as int, px, py)
                    }) {
                    spec_pixel_is(p@, pw as int, px, py, rgb)
                } else {
                    spec_pixel_same(p@, old(p)@, pw as int, px, py)
                },
        decreases 181 - k,
    {
        let angle: i64 = 2 * k;
        let c = cos_q16(angle);
        let s = sin_q16(angle);
        let xx: i64 = cx64 + sgx * round_radius_q16(rxa, c);
        let yy: i64 = cy64 + sgy * round_radius_q16(rya, s);
        proof {
            assert((xx as int, yy as int) == spec_ellipse_point(
                cx as int,
                cy as int,
                rx as int,
                ry as int,
                angle as int,
            ));
        }
        if k > 0 {
            draw_line_wide(p, pw, ph, prevx, prevy, xx, yy, rgb, t);
            proof {
                assert forall|px: int, py: int|
                    #![trigger spec_pix(pw as int, px, py)]
                    spec_in_bounds(pw as int, ph as int, px, py) implies (if (exists|j: int|
                    1 <= j <= k && {
                        let a = spec_ellipse_point(
                            cx as int,
                            cy as int,
                            rx as int,
                            ry as int,
                            2 * (j - 1),
                        );
                        let b = #[trigger] spec_ellipse_point(
                            cx as int,
                            cy as int,
                            rx as int,
                            ry as int,
                            2 * j,
                        );
                        crate::lines::spec_line_covers(a.0, a.1, b.0, b.1, t as int, px, py)
                    }) {
                    spec_pixel_is(p@, pw as int, px, py, rgb)
                } else {
                    spec_pixel_same(p@, old(p)@, pw as int, px, py)
                }) by {
                    crate::buffer::lemma_pix_in_buf(pw as int, ph as int, px, py);
                    if crate::lines::spec_line_covers(
                        prevx as int,
                        prevy as int,
                        xx as int,
                        yy as int,
                        t as int,
                        px,
                        py,
                    ) {
                        assert(1 <= (k as int) && (k as int) <= k && {
                            let a = spec_ellipse_point(
                                cx as int,
                                cy as int,
                                rx as int,
                                ry as int,
                                2 * (k - 1),
                            );
                            let b = spec_ellipse_point(
                                cx as int,
                                cy as int,
                                rx as int,
                                ry as int,
                                2 * (k as int),
                            );
                            crate::lines::spec_line_covers(a.0, a.1, b.0, b.1, t as int, px, py)
                        });
                    }
                }
            }
        }
        prevx = xx;
        prevy = yy;
        k = k + 1;
    }
    proof {
        assert forall|px: int, py: int|
            #![trigger spec_pix(pw as int, px, py)]
            spec_in_bounds(pw as int, ph as int, px, py) implies (if spec_ellipse_outline_covers(
            cx as int,
            cy as int,
            rx as int,
            ry as int,
            t as int,
            px,
            py,
        ) {
            spec_pixel_is(p@, pw as int, px, py, rgb)
        } else {
            spec_pixel_same(p@, old(p)@, pw as int, px, py)
        }) by {
            crate::buffer::lemma_pix_in_buf(pw as int, ph as int, px, py);
        }
    }
}

/// Whether the rounded-rectangle outline covers `(px, py)`: one of the four
/// straight edges between the corners, or one of the four quarter-circle
/// corner arcs, with the corner radius clamped to half the smaller side.
pub open spec fn spec_rr_outline_covers(
    x: int,
    y: int,
    w: int,
    h: int,
    r: int,
    t: int,
    px: int,
    py: int,
) -> bool {
    let rc = spec_rr_rad(w, h, r);
    ||| crate::lines::spec_line_covers(x + rc, y, x + w - rc - 1, y, t, px, py)
    ||| crate::lines::spec_line_covers(x + rc, y + h - 1, x + w - rc - 1, y + h - 1, t, px, py)
    ||| crate::lines::spec_line_covers(x, y + rc, x, y + h - rc - 1, t, px, py)
    ||| crate::lines::spec_line_covers(x + w - 1, y + rc, x + w - 1, y + h - rc - 1, t, px, py)
    ||| spec_arc_covers(x + rc, y + rc, rc, 180, 270, t, px, py)
    ||| spec_arc_covers(x + w - rc - 1, y + rc, rc, 270, 360, t, px, py)
    ||| spec_arc_covers(x + w - rc - 1, y + h - rc - 1, rc, 0, 90, t, px, py)
    ||| spec_arc_covers(x + rc, y + h - rc - 1, rc, 90, 180, t, px, py)
}

/// Rounded-rectangle outline: four straight edges between the corners plus
/// four quarter-circle corner arcs — exactly the pixels of
/// `spec_rr_outline_covers` are painted, and every other pixel keeps its
/// bytes.  Changes stay inside the rectangle inflated by the stroke
/// thickness.
#[verifier::loop_isolation(false)]
#[verifier::rlimit(100)]
pub fn draw_round_rect_outline(
    p: &mut Vec<u8>,
    pw: usize,
    ph: usize,
    x: i32,
    y: i32,
    w: u32,
    h: u32,
    r: u32,
    rgb: (u8, u8, u8),
    t: u32,
)
    requires
        spec_buf_ok(old(p)@, pw as int, ph as int),
    ensures
        final(p)@.len() == old(p)@.len(),
        spec_only_color(final(p)@, old(p)@, pw as int, ph as int, rgb),
        spec_frame_rect(
            final(p)@,
            old(p)@,
            pw as int,
            ph as int,
            x - 4 * spec_th(t as int) - 6,
            y - 4 * spec_th(t as int) - 6,
            w + 8 * spec_th(t as int) + 12,
            h + 8 * spec_th(t as int) + 12,
        ),
        forall|px: int, py: int|
            #![trigger spec_pix(pw as int, px, py)]
            spec_in_bounds(pw as int, ph as int, px, py) ==> if spec_rr_outline_covers(
                x as int,
                y as int,
                w as int,
                h as int,
                r as int,
                t as int,
                px,
                py,
            ) {
                spec_pixel_is(final(p)@, pw as int, px, py, rgb)
            } else {
                spec_pixel_same(final(p)@, old(p)@, pw as int, px, py)
            },
{
    let x64 = x as i64;
    let y64 = y as i64;
    let w64 = w as i64;
    let h64 = h as i64;
    let half_min: i64 = (if w64 < h64 {
        w64
    } else {
        h64
    }) / 2;
    let rc: i64 = if (r as i64) < half_min {
        r as i64
    } else {
        half_min
    };
    proof {
        assert(rc as int == spec_rr_rad(w as int, h as int, r as int));
    }
    draw_line_wide(p, pw, ph, x64 + rc, y64, x64 + w64 - rc - 1, y64, rgb, t);
    draw_line_wide(p, pw, ph, x64 + rc, y64 + h64 - 1, x64 + w64 - rc - 1, y64 + h64 - 1, rgb, t);
    draw_line_wide(p, pw, ph, x64, y64 + rc, x64, y64 + h64 - rc - 1, rgb, t);
    draw_line_wide(p, pw, ph, x64 + w64 - 1, y64 + rc, x64 + w64 - 1, y64 + h64 - rc - 1, rgb, t);
    let ghost mid = p@;
    proof {
        assert forall|px: int, py: int|
            #![trigger spec_pix(pw as int, px, py)]
            spec_in_bounds(pw as int, ph as int, px, py) implies (if (
        crate::lines::spec_line_covers(
            x as int + rc,
            y as int,
            x + w - rc - 1,
            y as int,
            t as int,
            px,
            py,
        ) || crate::lines::spec_line_covers(
            x as int + rc,
            y + h - 1,
            x + w - rc - 1,
            y + h - 1,
            t as int,
            px,
            py,
        ) || crate::lines::spec_line_covers(
            x as int,
            y as int + rc,
            x as int,
            y + h - rc - 1,
            t as int,
            px,
            py,
        ) || crate::lines::spec_line_covers(
            x + w - 1,
            y as int + rc,
            x + w - 1,
            y + h - rc - 1,
            t as int,
            px,
            py,
        )) {
            spec_pixel_is(p@, pw as int, px, py, rgb)
        } else {
            spec_pixel_same(p@, old(p)@, pw as int, px, py)
        }) by {
            crate::buffer::lemma_pix_in_buf(pw as int, ph as int, px, py);
        }
    }
    draw_arc_wide(p, pw, ph, x64 + rc, y64 + rc, rc, 180, 270, rgb, t);
    draw_arc_wide(p, pw, ph, x64 + w64 - rc - 1, y64 + rc, rc, 270, 360, rgb, t);
    draw_arc_wide(p, pw, ph, x64 + w64 - rc - 1, y64 + h64 - rc - 1, rc, 0, 90, rgb, t);
    draw_arc_wide(p, pw, ph, x64 + rc, y64 + h64 - rc - 1, rc, 90, 180, rgb, t);
    proof {
        assert forall|px: int, py: int|
            #![trigger spec_pix(pw as int, px, py)]
            spec_in_bounds(pw as int, ph as int, px, py) implies (if spec_rr_outline_covers(
            x as int,
            y as int,
            w as int,
            h as int,
            r as int,
            t as int,
            px,
            py,
        ) {
            spec_pixel_is(p@, pw as int, px, py, rgb)
        } else {
            spec_pixel_same(p@, old(p)@, pw as int, px, py)
        }) by {
            crate::buffer::lemma_pix_in_buf(pw as int, ph as int, px, py);
        }
    }
}

} // verus!
