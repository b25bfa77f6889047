//! Raster image decoding and compositing.
//!
//! Codec internals stay outside the crate: base64 decoding, image parsing
//! and high-quality resampling are called through trusted wrappers, and the
//! decoded bitmap comes back as plain RGBA bytes.  The per-pixel compositing
//! over the frame buffer — overwrite when opaque, skip when transparent,
//! blend otherwise — is verified exactly.

use vstd::prelude::*;

use base64::Engine;

use crate::buffer::{spec_buf_ok, spec_in_bounds, spec_pix, spec_pixel_same, spec_rect_covers};
use crate::textdraw::spec_blend;

verus! {

/// A decoded bitmap: RGBA, four bytes per pixel, row-major.
#[derive(Debug, Clone)]
pub struct DecodedImage {
    pub width: u32,
    pub height: u32,
    pub rgba: Vec<u8>,
}

/// A bitmap whose byte count matches its dimensions.
pub open spec fn spec_image_ok(img: DecodedImage) -> bool {
    img.rgba@.len() == img.width * img.height * 4
}

#[verifier::external_type_specification]
#[verifier::external_body]
pub struct ExDynamicImage(image::DynamicImage);

/// The bytes a base64 payload decodes to, when it is valid standard-alphabet
/// base64; decoding depends on the payload alone.
pub uninterp spec fn spec_base64_decode(s: Seq<char>) -> Option<Seq<u8>>;

/// Whether the image crate can parse these bytes as a supported format;
/// parsing depends on the bytes alone.
pub uninterp spec fn spec_image_parses(bytes: Seq<u8>) -> bool;

/// Relies on base64's standard-alphabet engine: decodes a valid payload to
/// its bytes and rejects anything else.
#[verifier::external_body]
fn decode_base64(s: &str) -> (r: Option<Vec<u8>>)
    ensures
        (match spec_base64_decode(s@) {
            Some(bs) => r matches Some(v) && v@ == bs,
            None => r is None,
        }),
{
    base64::engine::general_purpose::STANDARD.decode(s.as_bytes()).ok()
}

/// Relies on image::load_from_memory: parses the bytes into a bitmap when
/// they hold a supported image format.
#[verifier::external_body]
fn load_image(bytes: &Vec<u8>) -> (r: Option<image::DynamicImage>)
    ensures
        r is Some <==> spec_image_parses(bytes@),
{
    image::load_from_memory(bytes.as_slice()).ok()
}

/// Relies on image::imageops::resize: resampling to the requested dimensions
/// always yields a `w` by `h` RGBA bitmap (Lanczos filter).
#[verifier::external_body]
fn resize_rgba(img: &image::DynamicImage, w: u32, h: u32) -> (r: DecodedImage)
    requires
        w * h * 4 <= usize::MAX,
        w > 0,
        h > 0,
    ensures
        r.width == w,
        r.height == h,
        spec_image_ok(r),
{
    let resized = image::imageops::resize(img, w, h, image::imageops::FilterType::Lanczos3);
    DecodedImage { width: w, height: h, rgba: resized.into_raw() }
}

/// Decodes a base64 image payload and resamples it to `w` by `h`: succeeds
/// exactly when the payload is valid base64 holding a parseable image.
pub fn decode_base64_image(src: &str, w: u32, h: u32) -> (r: Option<DecodedImage>)
    requires
        w * h * 4 <= usize::MAX,
        w > 0,
        h > 0,
    ensures
        r matches Some(img) ==> img.width == w && img.height == h && spec_image_ok(img),
        r is Some <==> (match spec_base64_decode(src@) {
            Some(bs) => spec_image_parses(bs),
            None => false,
        }),
{
    let bytes = match decode_base64(src) {
        Some(b) => b,
        None => {
            return None;
        },
    };
    let parsed = match load_image(&bytes) {
        Some(img) => img,
        None => {
            return None;
        },
    };
    Some(resize_rgba(&parsed, w, h))
}

/// What compositing one image pixel of the bitmap leaves in the buffer:
/// opaque source pixels overwrite, transparent ones are skipped, partial
/// alpha blends linearly against the current content.
pub open spec fn spec_image_pixel(
    new: Seq<u8>,
    prev: Seq<u8>,
    pw: int,
    px: int,
    py: int,
    sr: u8,
    sg: u8,
    sb: u8,
    sa: u8,
) -> bool {
    let i = spec_pix(pw, px, py);
    if sa == 0 {
        &&& new[i] == prev[i]
        &&& new[i + 1] == prev[i + 1]
        &&& new[i + 2] == prev[i + 2]
        &&& new[i + 3] == prev[i + 3]
    } else if sa == 255 {
        &&& new[i] == sb
        &&& new[i + 1] == sg
        &&& new[i + 2] == sr
        &&& new[i + 3] == 0u8
    } else {
        &&& new[i] == spec_blend(sb, prev[i], sa)
        &&& new[i + 1] == spec_blend(sg, prev[i + 1], sa)
        &&& new[i + 2] == spec_blend(sr, prev[i + 2], sa)
        &&& new[i + 3] == 0u8
    }
}

/// Composites a decoded bitmap at `(x, y)`, clipping at the buffer edges:
/// every covered pixel follows the alpha rule exactly, every other pixel
/// keeps its bytes.
#[verifier::loop_isolation(false)]
pub fn draw_image_data(p: &mut Vec<u8>, pw: usize, ph: usize, x: i64, y: i64, img: &DecodedImage)
    requires
        spec_buf_ok(old(p)@, pw as int, ph as int),
        spec_image_ok(*img),
        -0x1_0000_0000_0000 <= x <= 0x1_0000_0000_0000,
        -0x1_0000_0000_0000 <= y <= 0x1_0000_0000_0000,
    ensures
        final(p)@.len() == old(p)@.len(),
        forall|px: int, py: int|
            #![trigger spec_pix(pw as int, px, py)]
            spec_in_bounds(pw as int, ph as int, px, py) ==> if spec_rect_covers(
                x as int,
                y as int,
                img.width as int,
                img.height as int,
                px,
                py,
            ) {
                {
                    let s = ((py - y) * img.width + (px - x)) * 4;
                    spec_image_pixel(
                        final(p)@,
                        old(p)@,
                        pw as int,
                        px,
                        py,
                        img.rgba@[s],
                        img.rgba@[s + 1],
                        img.rgba@[s + 2],
                        img.rgba@[s + 3],
                    )
                }
            } else {
                spec_pixel_same(final(p)@, old(p)@, pw as int, px, py)
            },
{
    let iw = img.width as i64;
    let ih = img.height as i64;
    let pw64 = pw as i64;
    let ph64 = ph as i64;
    let total: usize = p.len();
    let src_total: usize = img.rgba.len();
    let mut iy: i64 = 0;
    while iy < ih
        invariant
            0 <= iy <= ih,
            p@.len() == old(p)@.len(),
            forall|px: int, py: int|
                #![trigger spec_pix(pw as int, px, py)]
                spec_in_bounds(pw as int, ph as int, px, py) ==> if spec_rect_covers(
                    x as int,
                    y as int,
                    img.width as int,
                    img.height as int,
                    px,
                    py,
                ) && py < y + iy {
                    {
                        let s = ((py - y) * img.width + (px - x)) * 4;
                        spec_image_pixel(
                            p@,
                            old(p)@,
                            pw as int,
                            px,
                            py,
                            img.rgba@[s],
                            img.rgba@[s + 1],
                            img.rgba@[s + 2],
                            img.rgba@[s + 3],
                        )
                    }
                } else {
                    spec_pixel_same(p@, old(p)@, pw as int, px, py)
                },
        decreases ih - iy,
    {
        let mut ix: i64 = 0;
        while ix < iw
            invariant
                0 <= ix <= iw,
                0 <= iy < ih,
                p@.len() == old(p)@.len(),
                forall|px: int, py: int|
                    #![trigger spec_pix(pw as int, px, py)]
                    spec_in_bounds(pw as int, ph as int, px, py) ==> if spec_rect_covers(
                        x as int,
                        y as int,
                        img.width as int,
                        img.height as int,
                        px,
                        py,
                    ) && (py < y + iy || (py == y + iy && px < x + ix)) {
                        {
                            let s = ((py - y) * img.width + (px - x)) * 4;
                            spec_image_pixel(
                                p@,
                                old(p)@,
                                pw as int,
                                px,
                                py,
                                img.rgba@[s],
                                img.rgba@[s + 1],
                                img.rgba@[s + 2],
                                img.rgba@[s + 3],
                            )
                        }
                    } else {
                        spec_pixel_same(p@, old(p)@, pw as int, px, py)
                    },
            decreases iw - ix,
        {
            proof {
                assert(0 <= iy * iw && iy * iw + ix < iw * ih) by (nonlinear_arith)
                    requires
                        0 <= ix < iw,
                        0 <= iy < ih,
                ;
                assert(4 * (iy * (img.width as int) + ix) + 3 < img.rgba@.len());
                assert(img.rgba@.len() <= usize::MAX);
            }
            let sidx = ((iy as usize) * (img.width as usize) + (ix as usize)) * 4;
            let sr = img.rgba[sidx];
            let sg = img.rgba[sidx + 1];
            let sb = img.rgba[sidx + 2];
            let sa = img.rgba[sidx + 3];
            let px64: i64 = x + ix;
            let py64: i64 = y + iy;
            if sa > 0 && px64 >= 0 && px64 < pw64 && py64 >= 0 && py64 < ph64 {
                proof {
                    crate::buffer::lemma_pix_in_buf(pw as int, ph as int, px64 as int, py64 as int);
                    assert(0 <= py64 * pw64 && py64 * pw64 + px64 < pw64 * ph64) by (nonlinear_arith)
                        requires
                            0 <= px64 < pw64,
                            0 <= py64 < ph64,
                    ;
                    assert(4 * (py64 * (pw as int) + px64) + 3 < p@.len());
                    assert(p@.len() <= usize::MAX);
                }
                let idx = ((py64 as usize) * pw + (px64 as usize)) * 4;
                assert(idx == spec_pix(pw as int, px64 as int, py64 as int));
                let ghost prev = p@;
                if sa == 255 {
                    p[idx] = sb;
                    p[idx + 1] = sg;
                    p[idx + 2] = sr;
                    p[idx + 3] = 0;
                } else {
                    let b0 = crate::textdraw::blend_channel(sb, p[idx], sa);
                    let b1 = crate::textdraw::blend_channel(sg, p[idx + 1], sa);
                    let b2 = crate::textdraw::blend_channel(sr, p[idx + 2], sa);
                    p[idx] = b0;
                    p[idx + 1] = b1;
                    p[idx + 2] = b2;
                    p[idx + 3] = 0;
                }
                proof {
                    assert forall|px: int, py: int|
                        spec_in_bounds(pw as int, ph as int, px, py) && !(px == px64 as int && py
                            == py64 as int) implies spec_pixel_same(p@, prev, pw as int, px, py) by {
                        crate::buffer::lemma_pix_in_buf(pw as int, ph as int, px, py);
                        crate::buffer::lemma_pix_injective(
                            pw as int,
                            ph as int,
                            px,
                            py,
                            px64 as int,
                            py64 as int,
                        );
                    }
                }
            }
            ix = ix + 1;
        }
        iy = iy + 1;
    }
}

} // verus!
