//! The pixel buffer model and the flat rectangle fill.
//!
//! A frame buffer is `width * height * 4` bytes; pixel `(x, y)` occupies the
//! four bytes starting at `(y * width + x) * 4`, stored as blue, green, red
//! and a zero filler channel — the layout the display backend blits as-is.
//! Every drawing operation clips silently at the buffer edges.

use vstd::prelude::*;

verus! {

/// A well-formed buffer: exactly four bytes per pixel, with dimensions that
/// fit the protocol's 32-bit window sizes.
pub open spec fn spec_buf_ok(p: Seq<u8>, pw: int, ph: int) -> bool {
    p.len() == pw * ph * 4 && 0 <= pw <= u32::MAX && 0 <= ph <= u32::MAX
}

/// Whether `(px, py)` is a pixel of a `pw` by `ph` buffer.
pub open spec fn spec_in_bounds(pw: int, ph: int, px: int, py: int) -> bool {
    0 <= px < pw && 0 <= py < ph
}

/// Byte offset of pixel `(px, py)`.
pub open spec fn spec_pix(pw: int, px: int, py: int) -> int {
    (py * pw + px) * 4
}

/// The pixel `(px, py)` holds the color `rgb`, fully opaque.
pub open spec fn spec_pixel_is(p: Seq<u8>, pw: int, px: int, py: int, rgb: (u8, u8, u8)) -> bool {
    let i = spec_pix(pw, px, py);
    &&& p[i] == rgb.2
    &&& p[i + 1] == rgb.1
    &&& p[i + 2] == rgb.0
    &&& p[i + 3] == 0u8
}

/// The pixel `(px, py)` reads the same in `p` and `q`.
pub open spec fn spec_pixel_same(p: Seq<u8>, q: Seq<u8>, pw: int, px: int, py: int) -> bool {
    let i = spec_pix(pw, px, py);
    &&& p[i] == q[i]
    &&& p[i + 1] == q[i + 1]
    &&& p[i + 2] == q[i + 2]
    &&& p[i + 3] == q[i + 3]
}

/// Whether `(px, py)` lies in the axis-aligned rectangle at `(x, y)` of size
/// `w` by `h`.
pub open spec fn spec_rect_covers(x: int, y: int, w: int, h: int, px: int, py: int) -> bool {
    x <= px < x + w && y <= py < y + h
}

/// Every pixel either keeps its bytes from `prev` or now holds `rgb`:
/// a stroking operation writes its own color and nothing else.
pub open spec fn spec_only_color(
    new: Seq<u8>,
    prev: Seq<u8>,
    pw: int,
    ph: int,
    rgb: (u8, u8, u8),
) -> bool {
    forall|px: int, py: int|
        #![trigger spec_pix(pw, px, py)]
        spec_in_bounds(pw, ph, px, py) ==> spec_pixel_is(new, pw, px, py, rgb) || spec_pixel_same(
            new,
            prev,
            pw,
            px,
            py,
        )
}

/// Every pixel outside the rectangle at `(x, y)` of size `w` by `h` keeps its
/// bytes from `prev`: the operation is confined to that region.
pub open spec fn spec_frame_rect(
    new: Seq<u8>,
    prev: Seq<u8>,
    pw: int,
    ph: int,
    x: int,
    y: int,
    w: int,
    h: int,
) -> bool {
    forall|px: int, py: int|
        #![trigger spec_pix(pw, px, py)]
        spec_in_bounds(pw, ph, px, py) && !spec_rect_covers(x, y, w, h, px, py)
            ==> spec_pixel_same(new, prev, pw, px, py)
}

/// A pixel's byte range lies inside the buffer.
pub proof fn lemma_pix_in_buf(pw: int, ph: int, px: int, py: int)
    requires
        spec_in_bounds(pw, ph, px, py),
    ensures
        0 <= spec_pix(pw, px, py),
        spec_pix(pw, px, py) + 3 < pw * ph * 4,
{
    assert(0 <= py * pw + px && py * pw + px < ph * pw) by (nonlinear_arith)
        requires
            0 <= px < pw,
            0 <= py < ph,
    ;
}

/// Which pixel and channel a raw byte index addresses.
pub proof fn lemma_byte_view(pw: int, ph: int, n: int)
    requires
        0 <= n < pw * ph * 4,
        0 <= pw,
        0 <= ph,
    ensures
        1 <= pw,
        1 <= ph,
        0 <= (n / 4) % pw < pw,
        0 <= (n / 4) / pw < ph,
        spec_pix(pw, (n / 4) % pw, (n / 4) / pw) == 4 * (n / 4),
        4 * (n / 4) <= n < 4 * (n / 4) + 4,
{
    assert(pw >= 1 && ph >= 1) by (nonlinear_arith)
        requires
            0 <= pw,
            0 <= ph,
            pw * ph * 4 > 0,
    ;
    vstd::arithmetic::div_mod::lemma_fundamental_div_mod(n, 4);
    let q = n / 4;
    assert(0 <= q);
    assert(q < pw * ph) by (nonlinear_arith)
        requires
            4 * q <= n,
            n < pw * ph * 4,
    ;
    vstd::arithmetic::div_mod::lemma_fundamental_div_mod(q, pw);
    let px = q % pw;
    let py = q / pw;
    assert(0 <= px < pw);
    assert(0 <= py) by (nonlinear_arith)
        requires
            q == pw * py + px,
            0 <= q,
            0 <= px < pw,
            1 <= pw,
    ;
    assert(py < ph) by (nonlinear_arith)
        requires
            q == pw * py + px,
            q < pw * ph,
            0 <= px < pw,
            1 <= pw,
            0 <= py,
    ;
    assert((py * pw + px) * 4 == 4 * q) by (nonlinear_arith)
        requires
            q == pw * py + px,
    ;
}

/// Two distinct pixels occupy disjoint byte ranges.
pub proof fn lemma_pix_injective(pw: int, ph: int, ax: int, ay: int, bx: int, by_: int)
    requires
        spec_in_bounds(pw, ph, ax, ay),
        spec_in_bounds(pw, ph, bx, by_),
        !(ax == bx && ay == by_),
    ensures
        spec_pix(pw, ax, ay) + 3 < spec_pix(pw, bx, by_) || spec_pix(pw, bx, by_) + 3 < spec_pix(
            pw,
            ax,
            ay,
        ),
{
    assert(ay * pw + ax != by_ * pw + bx) by (nonlinear_arith)
        requires
            0 <= ax < pw,
            0 <= bx < pw,
            0 <= ay,
            0 <= by_,
            !(ax == bx && ay == by_),
    ;
}

/// Fills the rectangle at `(x, y)` of size `w` by `h` with the flat color
/// `rgb`, clipping at the buffer edges; every other pixel keeps its bytes.
/// Wide-coordinate core shared by every drawing operation.
#[verifier::loop_isolation(false)]
pub fn fill_rect_wide(
    p: &mut Vec<u8>,
    pw: usize,
    ph: usize,
    x: i64,
    y: i64,
    w: i64,
    h: i64,
    rgb: (u8, u8, u8),
)
    requires
        spec_buf_ok(old(p)@, pw as int, ph as int),
        -0x100_0000_0000 <= x <= 0x100_0000_0000,
        -0x100_0000_0000 <= y <= 0x100_0000_0000,
        0 <= w <= 0x100_0000_0000,
        0 <= h <= 0x100_0000_0000,
    ensures
        final(p)@.len() == old(p)@.len(),
        forall|px: int, py: int|
            #![trigger spec_pix(pw as int, px, py)]
            spec_in_bounds(pw as int, ph as int, px, py) ==> if spec_rect_covers(
                x as int,
                y as int,
                w as int,
                h as int,
                px,
                py,
            ) {
                spec_pixel_is(final(p)@, pw as int, px, py, rgb)
            } else {
                spec_pixel_same(final(p)@, old(p)@, pw as int, px, py)
            },
{
    let ghost pwi = pw as int;
    let ghost phi = ph as int;
    let total: usize = p.len();
    let pw64 = pw as i64;
    let ph64 = ph as i64;
    let x0: i64 = x;
    let y0: i64 = y;
    let x1: i64 = x0 + w;
    let y1: i64 = y0 + h;
    let cx0: i64 = if x0 < 0 {
        0
    } else {
        x0
    };
    let cy0: i64 = if y0 < 0 {
        0
    } else {
        y0
    };
    let cx1: i64 = if x1 > pw64 {
        pw64
    } else {
        x1
    };
    let cy1: i64 = if y1 > ph64 {
        ph64
    } else {
        y1
    };
    if cx0 >= cx1 || cy0 >= cy1 {
        return ;
    }
    let mut iy: i64 = cy0;
    while iy < cy1
        invariant
            cy0 <= iy <= cy1,
            p@.len() == old(p)@.len(),
            forall|px: int, py: int|
                #![trigger spec_pix(pwi, px, py)]
                spec_in_bounds(pwi, phi, px, py) ==> if cx0 <= px < cx1 && cy0 <= py < iy {
                    spec_pixel_is(p@, pwi, px, py, rgb)
                } else {
                    spec_pixel_same(p@, old(p)@, pwi, px, py)
                },
        decreases cy1 - iy,
    {
        let ghost row_start = p@;
        let mut ix: i64 = cx0;
        while ix < cx1
            invariant
                cx0 <= ix <= cx1,
                cy0 <= iy < cy1,
                p@.len() == old(p)@.len(),
                forall|px: int, py: int|
                    #![trigger spec_pix(pwi, px, py)]
                    spec_in_bounds(pwi, phi, px, py) ==> if cx0 <= px < ix && py == iy {
                        spec_pixel_is(p@, pwi, px, py, rgb)
                    } else {
                        spec_pixel_same(p@, row_start, pwi, px, py)
                    },
            decreases cx1 - ix,
        {
            proof {
                lemma_pix_in_buf(pwi, phi, ix as int, iy as int);
                assert(0 <= iy * pwi && iy * pwi + ix < pwi * phi) by (nonlinear_arith)
                    requires
                        0 <= ix < pwi,
                        0 <= iy < phi,
                ;
                assert(4 * (iy * pwi + ix) + 3 < p@.len());
                assert(p@.len() <= usize::MAX);
            }
            let idx = ((iy as usize) * pw + (ix as usize)) * 4;
            assert(idx == spec_pix(pwi, ix as int, iy as int));
            p[idx] = rgb.2;
            p[idx + 1] = rgb.1;
            p[idx + 2] = rgb.0;
            p[idx + 3] = 0;
            proof {
                assert forall|px: int, py: int|
                    spec_in_bounds(pwi, phi, px, py) implies (if cx0 <= px < ix + 1 && py == iy {
                    spec_pixel_is(p@, pwi, px, py, rgb)
                } else {
                    spec_pixel_same(p@, row_start, pwi, px, py)
                }) by {
                    lemma_pix_in_buf(pwi, phi, px, py);
                    if !(px == ix as int && py == iy as int) {
                        lemma_pix_injective(pwi, phi, px, py, ix as int, iy as int);
                    }
                }
            }
            ix = ix + 1;
        }
        proof {
            assert forall|px: int, py: int|
                spec_in_bounds(pwi, phi, px, py) implies (if cx0 <= px < cx1 && cy0 <= py < iy + 1 {
                spec_pixel_is(p@, pwi, px, py, rgb)
            } else {
                spec_pixel_same(p@, old(p)@, pwi, px, py)
            }) by {
                lemma_pix_in_buf(pwi, phi, px, py);
                assert(spec_pix(pwi, px, py) >= 0);
            }
        }
        iy = iy + 1;
    }
}

/// Fills a rectangle given in the protocol's 32-bit coordinates.
pub fn fill_rect(
    p: &mut Vec<u8>,
    pw: usize,
    ph: usize,
    x: i32,
    y: i32,
    w: u32,
    h: u32,
    rgb: (u8, u8, u8),
)
    requires
        spec_buf_ok(old(p)@, pw as int, ph as int),
    ensures
        final(p)@.len() == old(p)@.len(),
        forall|px: int, py: int|
            #![trigger spec_pix(pw as int, px, py)]
            spec_in_bounds(pw as int, ph as int, px, py) ==> if spec_rect_covers(
                x as int,
                y as int,
                w as int,
                h as int,
                px,
                py,
            ) {
                spec_pixel_is(final(p)@, pw as int, px, py, rgb)
            } else {
                spec_pixel_same(final(p)@, old(p)@, pw as int, px, py)
            },
{
    fill_rect_wide(p, pw, ph, x as i64, y as i64, w as i64, h as i64, rgb);
}

} // verus!
