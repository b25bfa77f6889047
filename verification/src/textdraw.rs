//! Glyph compositing and multi-line text drawing.
//!
//! Fonts stay outside the crate: the application rasterizes each character
//! through its font library and hands the coverage bitmaps over as plain
//! values in a `FontAtlas`.  Per character the primary font is preferred and
//! the fallback used only when the primary has no glyph.  Each glyph is
//! alpha-blended over an explicit background color or the buffer's current
//! content.  Multi-line text advances one line height per line break; blank
//! lines are skipped entirely, without advancing — the defined behavior.

use vstd::prelude::*;
use vstd::string::StrSliceExecFns;

use crate::buffer::{spec_buf_ok, spec_in_bounds, spec_pix, spec_pixel_same, spec_rect_covers};
use crate::strutil::spec_is_blank;

verus! {

/// One rasterized glyph: placement metrics and an 8-bit coverage bitmap in
/// row-major order.  The advance is in 64ths of a pixel.
#[derive(Debug, Clone)]
pub struct GlyphRaster {
    pub xmin: i32,
    pub ymin: i32,
    pub width: u32,
    pub height: u32,
    pub advance_q6: i32,
    pub coverage: Vec<u8>,
}

/// A raster whose bitmap really has one byte per pixel.
pub open spec fn spec_glyph_ok(g: GlyphRaster) -> bool {
    g.coverage@.len() == g.width * g.height
}

/// The glyphs one character resolves to: the primary font's raster (its
/// missing-glyph raster when the font lacks the character) and optionally
/// the fallback font's.
#[derive(Debug, Clone)]
pub struct GlyphEntry {
    pub ch: char,
    pub in_primary: bool,
    pub primary: GlyphRaster,
    pub emoji: Option<GlyphRaster>,
}

pub open spec fn spec_entry_ok(e: GlyphEntry) -> bool {
    spec_glyph_ok(e.primary) && (match e.emoji {
        Some(g) => spec_glyph_ok(g),
        None => true,
    })
}

/// Pre-rasterized glyphs plus the line metrics the layout uses, prepared by
/// the application from its loaded fonts.
#[derive(Debug, Clone)]
pub struct FontAtlas {
    pub glyphs: Vec<GlyphEntry>,
    pub ascent: i32,
    pub line_height: i32,
}

pub open spec fn spec_atlas_ok(a: FontAtlas) -> bool {
    forall|i: int| 0 <= i < a.glyphs@.len() ==> spec_entry_ok(#[trigger] a.glyphs@[i])
}

/// The first atlas entry for character `c`, scanning in atlas order.
pub open spec fn spec_find_glyph(gs: Seq<GlyphEntry>, c: char) -> Option<GlyphEntry>
    decreases gs.len(),
{
    if gs.len() == 0 {
        None
    } else if gs[0].ch == c {
        Some(gs[0])
    } else {
        spec_find_glyph(gs.drop_first(), c)
    }
}

impl FontAtlas {
    /// The first entry for character `c`, if the atlas holds one.
    pub fn find_glyph(&self, c: char) -> (r: Option<&GlyphEntry>)
        ensures
            (match r {
                Some(e) => e.ch == c && spec_find_glyph(self.glyphs@, c) == Some(*e) && (exists|
                    i: int,
                |
                    0 <= i < self.glyphs@.len() && #[trigger] self.glyphs@[i] == *e),
                None => spec_find_glyph(self.glyphs@, c) is None && (forall|i: int|
                    0 <= i < self.glyphs@.len() ==> (#[trigger] self.glyphs@[i]).ch != c),
            }),
    {
        proof {
            assert(self.glyphs@.skip(0) =~= self.glyphs@);
        }
        let mut i: usize = 0;
        while i < self.glyphs.len()
            invariant
                0 <= i <= self.glyphs@.len(),
                forall|j: int| 0 <= j < i ==> (#[trigger] self.glyphs@[j]).ch != c,
                spec_find_glyph(self.glyphs@, c) == spec_find_glyph(
                    self.glyphs@.skip(i as int),
                    c,
                ),
            decreases self.glyphs@.len() - i,
        {
            proof {
                assert(self.glyphs@.skip(i as int).drop_first() =~= self.glyphs@.skip(
                    i as int + 1,
                ));
                assert(self.glyphs@.skip(i as int)[0] == self.glyphs@[i as int]);
            }
            if self.glyphs[i].ch == c {
                return Some(&self.glyphs[i]);
            }
            i = i + 1;
        }
        proof {
            assert(self.glyphs@.skip(self.glyphs@.len() as int) =~= Seq::<GlyphEntry>::empty());
        }
        None
    }
}

/// The raster one character resolves to: the primary font's glyph when the
/// primary knows the character, otherwise the fallback's (or the primary's
/// missing-glyph raster when there is no fallback); none when the atlas does
/// not know the character at all.
pub open spec fn spec_glyph_of(atlas: FontAtlas, c: char) -> Option<GlyphRaster> {
    match spec_find_glyph(atlas.glyphs@, c) {
        Some(e) => Some(
            if e.in_primary {
                e.primary
            } else {
                match e.emoji {
                    Some(g) => g,
                    None => e.primary,
                }
            },
        ),
        None => None,
    }
}

/// One channel of the alpha blend: coverage `a` of `f` over `b`.
pub open spec fn spec_blend(f: u8, b: u8, a: u8) -> int {
    (f * a + b * (255 - a)) / 255
}

pub fn blend_channel(f: u8, b: u8, a: u8) -> (r: u8)
    ensures
        r == spec_blend(f, b, a),
{
    proof {
        assert(f * a + b * (255 - a) <= 255 * 255) by (nonlinear_arith)
            requires
                f <= 255,
                b <= 255,
                a <= 255,
        ;
    }
    ((f as u16 * a as u16 + b as u16 * (255 - a as u16)) / 255) as u8
}

/// What the four bytes of a composited pixel hold: each color channel is the
/// blend of the glyph color over the real background, the filler byte zero.
pub open spec fn spec_blended_pixel(
    new: Seq<u8>,
    prev: Seq<u8>,
    pw: int,
    px: int,
    py: int,
    fg: (u8, u8, u8),
    bg: Option<(u8, u8, u8)>,
    a: u8,
) -> bool {
    let i = spec_pix(pw, px, py);
    let rb = match bg {
        Some(c) => c,
        None => (prev[i + 2], prev[i + 1], prev[i]),
    };
    &&& new[i] == spec_blend(fg.2, rb.2, a)
    &&& new[i + 1] == spec_blend(fg.1, rb.1, a)
    &&& new[i + 2] == spec_blend(fg.0, rb.0, a)
    &&& new[i + 3] == 0u8
}

/// The blend stays a byte.
pub proof fn lemma_blend_range(f: u8, b: u8, a: u8)
    ensures
        0 <= spec_blend(f, b, a) <= 255,
{
    assert(0 <= (f * a + b * (255 - a)) / 255 <= 255) by (nonlinear_arith)
        requires
            f <= 255,
            b <= 255,
            a <= 255,
    ;
}

/// The exact buffer one glyph compositing pass produces, as a function of
/// the buffer it starts from.
pub open spec fn spec_glyph_effect(
    buf: Seq<u8>,
    pw: int,
    ph: int,
    gx: int,
    gy: int,
    g: GlyphRaster,
    fg: (u8, u8, u8),
    bg: Option<(u8, u8, u8)>,
) -> Seq<u8> {
    Seq::new(
        buf.len(),
        |n: int|
            {
                let px = (n / 4) % pw;
                let py = (n / 4) / pw;
                let ch = n - 4 * (n / 4);
                if spec_in_bounds(pw, ph, px, py) && spec_rect_covers(
                    gx,
                    gy,
                    g.width as int,
                    g.height as int,
                    px,
                    py,
                ) {
                    let a = g.coverage@[(py - gy) * g.width + (px - gx)];
                    if a == 0 && bg is None {
                        buf[n]
                    } else {
                        let i = spec_pix(pw, px, py);
                        let rb = match bg {
                            Some(c) => c,
                            None => (buf[i + 2], buf[i + 1], buf[i]),
                        };
                        if ch == 0 {
                            spec_blend(fg.2, rb.2, a) as u8
                        } else if ch == 1 {
                            spec_blend(fg.1, rb.1, a) as u8
                        } else if ch == 2 {
                            spec_blend(fg.0, rb.0, a) as u8
                        } else {
                            0u8
                        }
                    }
                } else {
                    buf[n]
                }
            },
    )
}

/// Composites one glyph bitmap at `(gx, gy)`.  Pixels outside the glyph box
/// keep their bytes; inside it, a zero-coverage pixel without an explicit
/// background keeps its bytes too, and every other pixel becomes the exact
/// blend of the glyph color over the explicit background or the pixel's old
/// content.
#[verifier::loop_isolation(false)]
pub fn draw_glyph(
    p: &mut Vec<u8>,
    pw: usize,
    ph: usize,
    gx: i64,
    gy: i64,
    g: &GlyphRaster,
    fg: (u8, u8, u8),
    bg: Option<(u8, u8, u8)>,
)
    requires
        spec_buf_ok(old(p)@, pw as int, ph as int),
        spec_glyph_ok(*g),
        -0x1_0000_0000_0000 <= gx <= 0x1_0000_0000_0000,
        -0x1_0000_0000_0000 <= gy <= 0x1_0000_0000_0000,
    ensures
        final(p)@.len() == old(p)@.len(),
        forall|px: int, py: int|
            #![trigger spec_pix(pw as int, px, py)]
            spec_in_bounds(pw as int, ph as int, px, py) ==> if spec_rect_covers(
                gx as int,
                gy as int,
                g.width as int,
                g.height as int,
                px,
                py,
            ) {
                {
                    let a = g.coverage@[(py - gy) * g.width + (px - gx)];
                    if a == 0 && bg is None {
                        spec_pixel_same(final(p)@, old(p)@, pw as int, px, py)
                    } else {
                        spec_blended_pixel(final(p)@, old(p)@, pw as int, px, py, fg, bg, a)
                    }
                }
            } else {
                spec_pixel_same(final(p)@, old(p)@, pw as int, px, py)
            },
        final(p)@ == spec_glyph_effect(
            old(p)@,
            pw as int,
            ph as int,
            gx as int,
            gy as int,
            *g,
            fg,
            bg,
        ),
{
    let gw = g.width as i64;
    let gh = g.height as i64;
    let pw64 = pw as i64;
    let ph64 = ph as i64;
    let total: usize = p.len();
    let cov_total: usize = g.coverage.len();
    let mut by: i64 = 0;
    while by < gh
        invariant
            0 <= by <= gh,
            p@.len() == old(p)@.len(),
            forall|px: int, py: int|
                #![trigger spec_pix(pw as int, px, py)]
                spec_in_bounds(pw as int, ph as int, px, py) ==> if spec_rect_covers(
                    gx as int,
                    gy as int,
                    g.width as int,
                    g.height as int,
                    px,
                    py,
                ) && py < gy + by {
                    {
                        let a = g.coverage@[(py - gy) * g.width + (px - gx)];
                        if a == 0 && bg is None {
                            spec_pixel_same(p@, old(p)@, pw as int, px, py)
                        } else {
                            spec_blended_pixel(p@, old(p)@, pw as int, px, py, fg, bg, a)
                        }
                    }
                } else {
                    spec_pixel_same(p@, old(p)@, pw as int, px, py)
                },
        decreases gh - by,
    {
        let mut bx: i64 = 0;
        while bx < gw
            invariant
                0 <= bx <= gw,
                0 <= by < gh,
                p@.len() == old(p)@.len(),
                forall|px: int, py: int|
                    #![trigger spec_pix(pw as int, px, py)]
                    spec_in_bounds(pw as int, ph as int, px, py) ==> if spec_rect_covers(
                        gx as int,
                        gy as int,
                        g.width as int,
                        g.height as int,
                        px,
                        py,
                    ) && (py < gy + by || (py == gy + by && px < gx + bx)) {
                        {
                            let a = g.coverage@[(py - gy) * g.width + (px - gx)];
                            if a == 0 && bg is None {
                                spec_pixel_same(p@, old(p)@, pw as int, px, py)
                            } else {
                                spec_blended_pixel(p@, old(p)@, pw as int, px, py, fg, bg, a)
                            }
                        }
                    } else {
                        spec_pixel_same(p@, old(p)@, pw as int, px, py)
                    },
            decreases gw - bx,
        {
            proof {
                assert(0 <= by * gw && by * gw + bx < gw * gh) by (nonlinear_arith)
                    requires
                        0 <= bx < gw,
                        0 <= by < gh,
                ;
                assert((by as int) * (g.width as int) + (bx as int) < g.coverage@.len());
                assert(g.coverage@.len() <= usize::MAX);
            }
            let cov_idx = ((by as usize) * (g.width as usize) + (bx as usize));
            let alpha = g.coverage[cov_idx];
            let px64: i64 = gx + bx;
            let py64: i64 = gy + by;
            if !(alpha == 0 && bg.is_none()) && px64 >= 0 && px64 < pw64 && py64 >= 0 && py64
                < ph64 {
                proof {
                    crate::buffer::lemma_pix_in_buf(pw as int, ph as int, px64 as int, py64 as int);
                    assert(0 <= py64 * pw64 && py64 * pw64 + px64 < pw64 * ph64) by (nonlinear_arith)
                        requires
                            0 <= px64 < pw64,
                            0 <= py64 < ph64,
                    ;
                    assert(4 * (py64 * (pw as int) + px64) + 3 < p@.len());
                    assert(p@.len() <= usize::MAX);
                }
                let idx = ((py64 as usize) * pw + (px64 as usize)) * 4;
                assert(idx == spec_pix(pw as int, px64 as int, py64 as int));
                let rb: (u8, u8, u8) = match bg {
                    Some(c) => c,
                    None => (p[idx + 2], p[idx + 1], p[idx]),
                };
                let ghost prev = p@;
                let b0 = blend_channel(fg.2, rb.2, alpha);
                let b1 = blend_channel(fg.1, rb.1, alpha);
                let b2 = blend_channel(fg.0, rb.0, alpha);
                p[idx] = b0;
                p[idx + 1] = b1;
                p[idx + 2] = b2;
                p[idx + 3] = 0;
                proof {
                    assert forall|px: int, py: int|
                        spec_in_bounds(pw as int, ph as int, px, py) && !(px == px64 as int && py
                            == py64 as int) implies spec_pixel_same(p@, prev, pw as int, px, py) by {
                        crate::buffer::lemma_pix_in_buf(pw as int, ph as int, px, py);
                        crate::buffer::lemma_pix_injective(
                            pw as int,
                            ph as int,
                            px,
                            py,
                            px64 as int,
                            py64 as int,
                        );
                    }
                }
            }
            bx = bx + 1;
        }
        by = by + 1;
    }
    proof {
        let e = spec_glyph_effect(old(p)@, pw as int, ph as int, gx as int, gy as int, *g, fg, bg);
        assert forall|n: int| 0 <= n < p@.len() implies p@[n] == e[n] by {
            crate::buffer::lemma_byte_view(pw as int, ph as int, n);
            let q = n / 4;
            let px = q % (pw as int);
            let py = q / (pw as int);
            crate::buffer::lemma_pix_in_buf(pw as int, ph as int, px, py);
            if spec_rect_covers(gx as int, gy as int, g.width as int, g.height as int, px, py) {
                let a = g.coverage@[(py - gy) * g.width + (px - gx)];
                if !(a == 0 && bg is None) {
                    let i = spec_pix(pw as int, px, py);
                    let rb = match bg {
                        Some(c) => c,
                        None => (old(p)@[i + 2], old(p)@[i + 1], old(p)@[i]),
                    };
                    lemma_blend_range(fg.2, rb.2, a);
                    lemma_blend_range(fg.1, rb.1, a);
                    lemma_blend_range(fg.0, rb.0, a);
                }
            }
        }
        assert(p@ =~= e);
    }
}

/// Truncating division, the semantics the cursor coordinate uses.
pub open spec fn spec_tdiv(a: int, b: int) -> int {
    if a >= 0 {
        a / b
    } else {
        -((-a) / b)
    }
}

/// Saturating addition within the layout's working range.
pub open spec fn spec_sat(a: int, b: int) -> int {
    let v = a + b;
    if v > 0x100_0000_0000 {
        0x100_0000_0000
    } else if v < -0x100_0000_0000 {
        -0x100_0000_0000
    } else {
        v
    }
}

/// The position of the next line break at or after `pos` (the text length
/// when there is none).
pub open spec fn spec_line_end(text: Seq<char>, pos: int) -> int
    decreases text.len() - pos,
{
    if pos < 0 || pos >= text.len() {
        text.len() as int
    } else if text[pos] == '\n' {
        pos
    } else {
        spec_line_end(text, pos + 1)
    }
}

/// The scan that finds a line break finds exactly `spec_line_end`.
proof fn lemma_line_end_at(text: Seq<char>, pos: int, e: int)
    requires
        0 <= pos <= e <= text.len(),
        forall|m: int| pos <= m < e ==> text[m] != '\n',
        e == text.len() || text[e] == '\n',
    ensures
        spec_line_end(text, pos) == e,
    decreases e - pos,
{
    if pos < e {
        lemma_line_end_at(text, pos + 1, e);
    }
}

/// Whether every character in `[from, to)` is whitespace.
pub open spec fn spec_span_blank(text: Seq<char>, from: int, to: int) -> bool {
    forall|j: int| from <= j < to ==> spec_is_space(#[trigger] text[j])
}

/// The buffer after compositing the characters `[ci, de)` of one line: per
/// known character, its glyph composited at the running cursor, the cursor
/// advanced by the glyph's advance; unknown characters are skipped.
pub open spec fn spec_line_chars(
    buf: Seq<u8>,
    pw: int,
    ph: int,
    text: Seq<char>,
    ci: int,
    de: int,
    cq6: int,
    baseline: int,
    fg: (u8, u8, u8),
    bg: Option<(u8, u8, u8)>,
    atlas: FontAtlas,
) -> Seq<u8>
    decreases de - ci,
{
    if ci < 0 || ci >= de || de > text.len() {
        buf
    } else {
        match spec_glyph_of(atlas, text[ci]) {
            Some(g) => {
                let gx = spec_tdiv(cq6, 64) + g.xmin;
                let gy = baseline - (g.ymin + g.height);
                spec_line_chars(
                    spec_glyph_effect(buf, pw, ph, gx, gy, g, fg, bg),
                    pw,
                    ph,
                    text,
                    ci + 1,
                    de,
                    spec_sat(cq6, g.advance_q6 as int),
                    baseline,
                    fg,
                    bg,
                    atlas,
                )
            },
            None => spec_line_chars(buf, pw, ph, text, ci + 1, de, cq6, baseline, fg, bg, atlas),
        }
    }
}

/// The buffer after laying out the text from position `pos` with the line
/// cursor at `cursor_y`: line by line, a non-blank line is composited with
/// its baseline one ascent below the cursor and advances the cursor by the
/// line height; blank lines paint nothing and do not advance.
pub open spec fn spec_text_from(
    buf: Seq<u8>,
    pw: int,
    ph: int,
    x: int,
    text: Seq<char>,
    pos: int,
    cursor_y: int,
    fg: (u8, u8, u8),
    bg: Option<(u8, u8, u8)>,
    atlas: FontAtlas,
) -> Seq<u8>
    decreases text.len() - pos,
{
    if pos < 0 || pos > text.len() {
        buf
    } else {
        let le0 = spec_line_end(text, pos);
        let le = if le0 < pos {
            pos
        } else if le0 > text.len() {
            text.len() as int
        } else {
            le0
        };
        let de = if le > pos && text[le - 1] == '\r' {
            le - 1
        } else {
            le
        };
        let blank = spec_span_blank(text, pos, de);
        let drawn = if !blank {
            spec_line_chars(
                buf,
                pw,
                ph,
                text,
                pos,
                de,
                x * 64,
                cursor_y + atlas.ascent,
                fg,
                bg,
                atlas,
            )
        } else {
            buf
        };
        let cy2 = if !blank {
            spec_sat(cursor_y, atlas.line_height as int)
        } else {
            cursor_y
        };
        if le < text.len() {
            spec_text_from(drawn, pw, ph, x, text, le + 1, cy2, fg, bg, atlas)
        } else {
            drawn
        }
    }
}

/// Whether every character of `text` in `[from, to)` is whitespace.
fn span_is_blank(text: &str, from: usize, to: usize) -> (r: bool)
    requires
        from <= to <= text@.len(),
    ensures
        r == (forall|j: int| from <= j < to ==> spec_is_space(#[trigger] text@[j])),
{
    let mut j: usize = from;
    while j < to
        invariant
            from <= j <= to,
            to <= text@.len(),
            forall|k: int| from <= k < j ==> spec_is_space(#[trigger] text@[k]),
        decreases to - j,
    {
        let c = text.get_char(j);
        if !(c == ' ' || c == '\t' || c == '\n' || c == '\r' || c == '\u{b}' || c == '\u{c}') {
            return false;
        }
        j = j + 1;
    }
    true
}

use crate::strutil::spec_is_space;

fn sat_add_q(a: i64, b: i64) -> (r: i64)
    requires
        -0x100_0000_0000 <= a <= 0x100_0000_0000,
        -0x8000_0000 <= b <= 0x8000_0000,
    ensures
        -0x100_0000_0000 <= r <= 0x100_0000_0000,
        r == spec_sat(a as int, b as int),
{
    let s = a + b;
    if s > 0x100_0000_0000 {
        0x100_0000_0000
    } else if s < -0x100_0000_0000 {
        -0x100_0000_0000
    } else {
        s
    }
}

/// Draws multi-line text glyph by glyph from the atlas, producing exactly
/// `spec_text_from`: the baseline of each line sits one ascent below its
/// top, non-blank lines advance by the atlas line height, blank lines are
/// skipped without advancing, characters the atlas does not know are
/// skipped, and every glyph is composited per `spec_glyph_effect` at the
/// running cursor.
#[verifier::loop_isolation(false)]
#[verifier::rlimit(100)]
pub fn draw_text(
    p: &mut Vec<u8>,
    pw: usize,
    ph: usize,
    x: i32,
    y: i32,
    text: &str,
    fg: (u8, u8, u8),
    bg: Option<(u8, u8, u8)>,
    atlas: &FontAtlas,
)
    requires
        spec_buf_ok(old(p)@, pw as int, ph as int),
        spec_atlas_ok(*atlas),
    ensures
        final(p)@.len() == old(p)@.len(),
        spec_is_blank(text@) ==> final(p)@ == old(p)@,
        atlas.glyphs@.len() == 0 ==> final(p)@ == old(p)@,
        forall|px: int, py: int|
            #![trigger spec_pix(pw as int, px, py)]
            spec_in_bounds(pw as int, ph as int, px, py) ==> spec_pixel_same(
                final(p)@,
                old(p)@,
                pw as int,
                px,
                py,
            ) || final(p)@[spec_pix(pw as int, px, py) + 3] == 0,
        final(p)@ == spec_text_from(
            old(p)@,
            pw as int,
            ph as int,
            x as int,
            text@,
            0,
            y as int,
            fg,
            bg,
            *atlas,
        ),
{
    let ghost target = spec_text_from(
        old(p)@,
        pw as int,
        ph as int,
        x as int,
        text@,
        0,
        y as int,
        fg,
        bg,
        *atlas,
    );
    let n = text.unicode_len();
    let mut pos: usize = 0;
    let mut cursor_y: i64 = y as i64;
    let mut done = false;
    while !done
        invariant
            0 <= pos <= n,
            n == text@.len(),
            -0x100_0000_0000 <= cursor_y <= 0x100_0000_0000,
            p@.len() == old(p)@.len(),
            spec_is_blank(text@) ==> p@ == old(p)@,
            atlas.glyphs@.len() == 0 ==> p@ == old(p)@,
            forall|px: int, py: int|
                #![trigger spec_pix(pw as int, px, py)]
                spec_in_bounds(pw as int, ph as int, px, py) ==> spec_pixel_same(
                    p@,
                    old(p)@,
                    pw as int,
                    px,
                    py,
                ) || p@[spec_pix(pw as int, px, py) + 3] == 0,
            !done ==> target == spec_text_from(
                p@,
                pw as int,
                ph as int,
                x as int,
                text@,
                pos as int,
                cursor_y as int,
                fg,
                bg,
                *atlas,
            ),
            done ==> p@ == target,
        decreases n - pos + (if done {
            0int
        } else {
            1int
        }),
    {
        let ghost entry_buf = p@;
        let ghost entry_cy = cursor_y as int;
        let mut line_end: usize = pos;
        while line_end < n && text.get_char(line_end) != '\n'
            invariant
                pos <= line_end <= n,
                n == text@.len(),
                forall|m: int| pos <= m < line_end ==> text@[m] != '\n',
            decreases n - line_end,
        {
            line_end = line_end + 1;
        }
        proof {
            lemma_line_end_at(text@, pos as int, line_end as int);
        }
        let mut draw_end = line_end;
        if draw_end > pos && text.get_char(draw_end - 1) == '\r' {
            draw_end = draw_end - 1;
        }
        if !span_is_blank(text, pos, draw_end) {
            proof {
                let j = choose|j: int| pos <= j < draw_end && !spec_is_space(#[trigger] text@[j]);
                assert(!spec_is_blank(text@));
                assert(atlas.glyphs@.len() > 0 ==> true);
            }
            let baseline: i64 = cursor_y + atlas.ascent as i64;
            let mut cursor_q6: i64 = (x as i64) * 64;
            let mut ci: usize = pos;
            let ghost lstart = p@;
            let ghost ltarget = spec_line_chars(
                lstart,
                pw as int,
                ph as int,
                text@,
                pos as int,
                draw_end as int,
                (x as int) * 64,
                baseline as int,
                fg,
                bg,
                *atlas,
            );
            while ci < draw_end
                invariant
                    pos <= ci <= draw_end <= n,
                    n == text@.len(),
                    -0x100_0000_0000 <= cursor_q6 <= 0x100_0000_0000,
                    -0x200_0000_0000 <= baseline <= 0x200_0000_0000,
                    p@.len() == old(p)@.len(),
                    !spec_is_blank(text@),
                    atlas.glyphs@.len() == 0 ==> p@ == old(p)@,
                    forall|px: int, py: int|
                        #![trigger spec_pix(pw as int, px, py)]
                        spec_in_bounds(pw as int, ph as int, px, py) ==> spec_pixel_same(
                            p@,
                            old(p)@,
                            pw as int,
                            px,
                            py,
                        ) || p@[spec_pix(pw as int, px, py) + 3] == 0,
                    ltarget == spec_line_chars(
                        p@,
                        pw as int,
                        ph as int,
                        text@,
                        ci as int,
                        draw_end as int,
                        cursor_q6 as int,
                        baseline as int,
                        fg,
                        bg,
                        *atlas,
                    ),
                decreases draw_end - ci,
            {
                let ghost pre_char = p@;
                let ch = text.get_char(ci);
                match atlas.find_glyph(ch) {
                    Some(entry) => {
                        let glyph: &GlyphRaster = if entry.in_primary {
                            &entry.primary
                        } else {
                            match &entry.emoji {
                                Some(g) => g,
                                None => &entry.primary,
                            }
                        };
                        proof {
                            assert(spec_glyph_of(*atlas, ch) == Some(*glyph));
                        }
                        let gx: i64 = cursor_q6 / 64 + glyph.xmin as i64;
                        let gy: i64 = baseline - (glyph.ymin as i64 + glyph.height as i64);
                        proof {
                            assert(gx as int == spec_tdiv(cursor_q6 as int, 64)
                                + glyph.xmin as int);
                        }
                        draw_glyph(p, pw, ph, gx, gy, glyph, fg, bg);
                        proof {
                            assert forall|px: int, py: int|
                                spec_in_bounds(pw as int, ph as int, px, py) implies
                                spec_pixel_same(p@, old(p)@, pw as int, px, py) || p@[spec_pix(
                                pw as int,
                                px,
                                py,
                            ) + 3] == 0 by {
                                crate::buffer::lemma_pix_in_buf(pw as int, ph as int, px, py);
                            }
                        }
                        cursor_q6 = sat_add_q(cursor_q6, glyph.advance_q6 as i64);
                    },
                    None => {
                        proof {
                            assert(spec_glyph_of(*atlas, ch) is None);
                        }
                    },
                }
                ci = ci + 1;
            }
            proof {
                assert(p@ == ltarget);
            }
            cursor_y = sat_add_q(cursor_y, atlas.line_height as i64);
            proof {
                if atlas.glyphs@.len() == 0 {
                    assert(spec_find_glyph(atlas.glyphs@, text@[pos as int]) is None);
                }
            }
        }
        proof {
            if !done {
                assert(target == spec_text_from(
                    entry_buf,
                    pw as int,
                    ph as int,
                    x as int,
                    text@,
                    pos as int,
                    entry_cy,
                    fg,
                    bg,
                    *atlas,
                ));
            }
        }
        if line_end < n {
            pos = line_end + 1;
        } else {
            done = true;
        }
        proof {
            if done {
                assert(p@ == target);
            }
        }
    }
}

} // verus!
