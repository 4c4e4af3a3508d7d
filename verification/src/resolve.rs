//! Palette-to-RGBA resolution: every index pixel of a decoded image becomes
//! an R,G,B,A quad in the output canvas, honoring the transparency flag.

use vstd::prelude::*;

use crate::cursor::{le32_at, PidError};
use crate::decode::{
    decode_ok, decode_out_of_bounds, decode_pid, decode_too_large, decomp_result, palette_seq,
    spec_flags, spec_pixel_count, PidImage, Rgb,
};
use crate::output::OutputImage;

verus! {

/// The RGBA quad resolved for index `p`: fully transparent black when the
/// transparency flag is set and `p` is 0, else the palette color, opaque.
pub open spec fn spec_resolve(pal: Seq<Rgb>, transparency: bool, p: u8) -> (u8, u8, u8, u8) {
    if transparency && p == 0 {
        (0u8, 0u8, 0u8, 0u8)
    } else {
        (pal[p as int].r, pal[p as int].g, pal[p as int].b, 255u8)
    }
}

/// The RGBA quad of the pixel at linear position `i` in a canvas-layout
/// buffer (8 header bytes, then 4 bytes per pixel).
pub open spec fn rgba_at(s: Seq<u8>, i: int) -> (u8, u8, u8, u8) {
    (s[8 + 4 * i], s[8 + 4 * i + 1], s[8 + 4 * i + 2], s[8 + 4 * i + 3])
}

/// Resolve one index pixel against a full palette.
pub fn resolve_rgba(palette: &Vec<Rgb>, transparency: bool, p: u8) -> (c: (u8, u8, u8, u8))
    requires
        palette@.len() == 256,
    ensures
        c == spec_resolve(palette@, transparency, p),
{
    if transparency && p == 0 {
        (0, 0, 0, 0)
    } else {
        let e = palette[p as usize];
        (e.r, e.g, e.b, 255)
    }
}

/// Transparency law of the resolver: it yields fully transparent black for a
/// pixel exactly when transparency is enabled and the index is 0; every other
/// pixel is its palette entry's color with full opacity, whatever entry 0
/// stores.
pub proof fn lemma_resolve_transparency(pal: Seq<Rgb>, transparency: bool, p: u8)
    requires
        pal.len() == 256,
    ensures
        (spec_resolve(pal, transparency, p) == (0u8, 0u8, 0u8, 0u8)) <==> (transparency && p
            == 0),
        !(transparency && p == 0) ==> spec_resolve(pal, transparency, p) == (
            pal[p as int].r,
            pal[p as int].g,
            pal[p as int].b,
            255u8,
        ),
{
}

/// Resolve a whole decoded image into its RGBA canvas.
///
/// Index pixels are meaningless without a palette, so an image that has
/// pixels but no palette is refused explicitly rather than left undefined.
#[verifier::loop_isolation(false)]
pub fn pid_image_to_output_image(img: &PidImage) -> (r: Result<OutputImage, PidError>)
    requires
        img.wf(),
    ensures
        match r {
            Ok(out) => {
                let pc = (img.width as int) * (img.height as int);
                &&& !(img.palette is None && pc > 0)
                &&& 8 + 4 * pc <= usize::MAX
                &&& out.buffer.data@.len() == 8 + 4 * pc
                &&& le32_at(out.buffer.data@, 0) == img.width
                &&& le32_at(out.buffer.data@, 4) == img.height
                &&& match img.palette {
                    Some(p) => forall|i: int|
                        0 <= i < pc ==> rgba_at(out.buffer.data@, i) == spec_resolve(
                            p@,
                            img.flags.spec_use_transparency(),
                            img.pixels@[i],
                        ),
                    None => true,
                }
            },
            Err(e) => {
                let pc = (img.width as int) * (img.height as int);
                &&& (e == PidError::UnsupportedPaletteAbsent <==> img.palette is None && pc > 0)
                &&& (e == PidError::TooLarge <==> !(img.palette is None && pc > 0) && 8 + 4 * pc
                    > usize::MAX)
                &&& (e == PidError::UnsupportedPaletteAbsent || e == PidError::TooLarge)
            },
        },
{
    let pixels_count: usize = img.pixels.len();
    if img.palette.is_none() && pixels_count > 0 {
        return Err(PidError::UnsupportedPaletteAbsent);
    }
    let need: u128 = 8 + 4 * (pixels_count as u128);
    if need > usize::MAX as u128 {
        return Err(PidError::TooLarge);
    }
    let mut out = OutputImage::from_canvas_with_dimensions(img.width, img.height);
    match &img.palette {
        Some(palette) => {
            let transparency = img.flags.use_transparency();
            let mut i: usize = 0;
            while i < pixels_count
                invariant
                    i <= pixels_count,
                    out.buffer.data@.len() == 8 + 4 * (pixels_count as int),
                    le32_at(out.buffer.data@, 0) == img.width,
                    le32_at(out.buffer.data@, 4) == img.height,
                    forall|j: int|
                        0 <= j < i ==> rgba_at(out.buffer.data@, j) == spec_resolve(
                            palette@,
                            img.flags.spec_use_transparency(),
                            img.pixels@[j],
                        ),
                decreases pixels_count - i,
            {
                let px = img.pixels[i];
                let c = resolve_rgba(palette, transparency, px);
                let ghost buf0 = out.buffer.data@;
                out.set_pixel(i, c.0, c.1, c.2, c.3);
                proof {
                    assert forall|j: int| 0 <= j < i + 1 implies rgba_at(out.buffer.data@, j)
                        == spec_resolve(
                        palette@,
                        img.flags.spec_use_transparency(),
                        img.pixels@[j],
                    ) by {
                        if j < i {
                            assert(out.buffer.data@[8 + 4 * j] == buf0[8 + 4 * j]);
                            assert(out.buffer.data@[8 + 4 * j + 1] == buf0[8 + 4 * j + 1]);
                            assert(out.buffer.data@[8 + 4 * j + 2] == buf0[8 + 4 * j + 2]);
                            assert(out.buffer.data@[8 + 4 * j + 3] == buf0[8 + 4 * j + 3]);
                            assert(rgba_at(buf0, j) == spec_resolve(
                                palette@,
                                img.flags.spec_use_transparency(),
                                img.pixels@[j],
                            ));
                        } else {
                            assert(c == spec_resolve(
                                palette@,
                                img.flags.spec_use_transparency(),
                                img.pixels@[i as int],
                            ));
                            assert(out.buffer.data@[8 + 4 * (i as int)] == c.0);
                            assert(out.buffer.data@[8 + 4 * (i as int) + 1] == c.1);
                            assert(out.buffer.data@[8 + 4 * (i as int) + 2] == c.2);
                            assert(out.buffer.data@[8 + 4 * (i as int) + 3] == c.3);
                        }
                    }
                }
                i = i + 1;
            }
        },
        None => {},
    }
    Ok(out)
}

/// Decode a PID byte stream and resolve it into its RGBA canvas in one step.
pub fn write_pid_to_canvas_image_data(pid_data: &[u8]) -> (r: Result<OutputImage, PidError>)
    ensures
        match r {
            Ok(out) => {
                let s = pid_data@;
                let pc = spec_pixel_count(s);
                &&& decode_ok(s)
                &&& (spec_flags(s).spec_has_palette() || pc == 0)
                &&& 8 + 4 * pc <= usize::MAX
                &&& out.buffer.data@.len() == 8 + 4 * pc
                &&& le32_at(out.buffer.data@, 0) == le32_at(s, 8)
                &&& le32_at(out.buffer.data@, 4) == le32_at(s, 12)
                &&& match decomp_result(s) {
                    Some(t) => spec_flags(s).spec_has_palette() ==> forall|i: int|
                        0 <= i < pc ==> rgba_at(out.buffer.data@, i) == spec_resolve(
                            palette_seq(s, 32 + t.1 as int),
                            spec_flags(s).spec_use_transparency(),
                            t.0[i],
                        ),
                    None => false,
                }
            },
            Err(e) => {
                let s = pid_data@;
                let pc = spec_pixel_count(s);
                &&& (e == PidError::OutOfBounds <==> decode_out_of_bounds(s))
                &&& (e == PidError::UnsupportedPaletteAbsent <==> decode_ok(s) && !spec_flags(
                    s,
                ).spec_has_palette() && pc > 0)
                &&& (e == PidError::TooLarge <==> decode_too_large(s) || (decode_ok(s)
                    && (spec_flags(s).spec_has_palette() || pc == 0) && 8 + 4 * pc
                    > usize::MAX))
            },
        },
{
    let img = match decode_pid(pid_data) {
        Ok(img) => img,
        Err(e) => {
            return Err(e);
        },
    };
    let out = match pid_image_to_output_image(&img) {
        Ok(out) => out,
        Err(e) => {
            return Err(e);
        },
    };
    Ok(out)
}

} // verus!
