//! Parsing a whole PID byte stream into a decoded image value: the 32-byte
//! header, the compressed index pixels, and the optional trailing palette.

use vstd::prelude::*;

use crate::cursor::{le32_at, le32_signed_at, PidDataCursor, PidError};
use crate::decompress::{
    decomp_by, decompress_default, decompress_run_length_encoding,
};
use crate::flags::{CompressionMethod, ImageFlags};

verus! {

/// One palette entry: an RGB triplet; alpha is synthesized at resolution time.
#[derive(Clone, Copy, Debug, PartialEq, Eq, Structural)]
pub struct Rgb {
    pub r: u8,
    pub g: u8,
    pub b: u8,
}

/// A decoded PID image: the header fields, one palette-index byte per pixel
/// (row-major, origin top-left), and the palette when the stream carried one.
pub struct PidImage {
    pub id: i32,
    pub flags: ImageFlags,
    pub width: u32,
    pub height: u32,
    pub user_values: [i32; 4],
    pub pixels: Vec<u8>,
    pub palette: Option<Vec<Rgb>>,
}

impl PidImage {
    /// The index buffer holds one byte per declared pixel, and a palette, when
    /// present, holds exactly 256 entries.
    pub open spec fn wf(self) -> bool {
        &&& self.pixels@.len() == (self.width as int) * (self.height as int)
        &&& match self.palette {
            Some(p) => p@.len() == 256,
            None => true,
        }
    }
}

/// The flag word of the stream `s`, read little-endian at byte offset 4.
pub open spec fn spec_flags(s: Seq<u8>) -> ImageFlags {
    ImageFlags { flags: le32_at(s, 4) as u32 }
}

/// The pixel count that the header of `s` declares: `width * height`.
pub open spec fn spec_pixel_count(s: Seq<u8>) -> int {
    le32_at(s, 8) * le32_at(s, 12)
}

/// What decompressing the pixel stream of `s` (everything after the header,
/// under the scheme its flag word selects) yields.
pub open spec fn decomp_result(s: Seq<u8>) -> Option<(Seq<u8>, nat)> {
    decomp_by(
        spec_flags(s).spec_compression_method(),
        s.skip(32),
        spec_pixel_count(s) as nat,
    )
}

/// The palette entry `j` stored at byte offset `base` of the stream `s`.
pub open spec fn palette_entry(s: Seq<u8>, base: int, j: int) -> Rgb {
    Rgb { r: s[base + 3 * j], g: s[base + 3 * j + 1], b: s[base + 3 * j + 2] }
}

/// The whole 256-entry palette stored at byte offset `base` of `s`.
pub open spec fn palette_seq(s: Seq<u8>, base: int) -> Seq<Rgb> {
    Seq::new(256, |j: int| palette_entry(s, base, j))
}

/// The stream `s` decodes without error: it holds a full header, the declared
/// pixel count is addressable, the compressed pixel data suffices, and, when
/// the flag word announces a palette, 768 palette bytes follow the pixel data.
pub open spec fn decode_ok(s: Seq<u8>) -> bool {
    &&& s.len() >= 32
    &&& spec_pixel_count(s) <= usize::MAX
    &&& match decomp_result(s) {
        Some(t) => spec_flags(s).spec_has_palette() ==> 32 + t.1 + 768 <= s.len(),
        None => false,
    }
}

/// The declared pixel count exceeds what this target can address.
pub open spec fn decode_too_large(s: Seq<u8>) -> bool {
    s.len() >= 32 && spec_pixel_count(s) > usize::MAX
}

/// Some read would run past the end of `s`: a short header, a pixel stream
/// that ends inside a run, or a missing piece of a declared palette.
pub open spec fn decode_out_of_bounds(s: Seq<u8>) -> bool {
    ||| s.len() < 32
    ||| (s.len() >= 32 && spec_pixel_count(s) <= usize::MAX && match decomp_result(s) {
        Some(t) => spec_flags(s).spec_has_palette() && 32 + t.1 + 768 > s.len(),
        None => true,
    })
}

/// Decode one PID image from the raw bytes: header and flags, then the
/// compressed index pixels, then the palette iff the flag word announces one.
#[verifier::loop_isolation(false)]
pub fn decode_pid(pid_data: &[u8]) -> (r: Result<PidImage, PidError>)
    ensures
        match r {
            Ok(img) => {
                let s = pid_data@;
                &&& decode_ok(s)
                &&& img.wf()
                &&& img.id == le32_signed_at(s, 0)
                &&& img.flags == spec_flags(s)
                &&& img.width == le32_at(s, 8)
                &&& img.height == le32_at(s, 12)
                &&& img.user_values@[0] == le32_signed_at(s, 16)
                &&& img.user_values@[1] == le32_signed_at(s, 20)
                &&& img.user_values@[2] == le32_signed_at(s, 24)
                &&& img.user_values@[3] == le32_signed_at(s, 28)
                &&& match decomp_result(s) {
                    Some(t) => {
                        &&& img.pixels@ == t.0
                        &&& match img.palette {
                            Some(p) => {
                                &&& spec_flags(s).spec_has_palette()
                                &&& p@ == palette_seq(s, 32 + t.1 as int)
                            },
                            None => !spec_flags(s).spec_has_palette(),
                        }
                    },
                    None => false,
                }
            },
            Err(e) => {
                &&& !decode_ok(pid_data@)
                &&& (e == PidError::TooLarge <==> decode_too_large(pid_data@))
                &&& (e == PidError::OutOfBounds <==> decode_out_of_bounds(pid_data@))
            },
        },
{
    let ghost s: Seq<u8> = pid_data@;
    let mut cur = PidDataCursor::new(pid_data);
    let id = cur.next_i32_le()?;
    let flags_word = cur.next_u32_le()?;
    let flags = ImageFlags { flags: flags_word };
    let width = cur.next_u32_le()?;
    let height = cur.next_u32_le()?;
    let u0 = cur.next_i32_le()?;
    let u1 = cur.next_i32_le()?;
    let u2 = cur.next_i32_le()?;
    let u3 = cur.next_i32_le()?;
    let user_values: [i32; 4] = [u0, u1, u2, u3];

    proof {
        assert(flags == spec_flags(s));
    }
    proof {
        assert((width as int) * (height as int) <= 0xFFFF_FFFF * 0xFFFF_FFFF)
            by (nonlinear_arith)
            requires
                width <= 0xFFFF_FFFFu32,
                height <= 0xFFFF_FFFFu32,
        ;
    }
    let pc64: u64 = (width as u64) * (height as u64);
    if pc64 > usize::MAX as u64 {
        return Err(PidError::TooLarge);
    }
    let pixels_count: usize = pc64 as usize;

    let mut pixels: Vec<u8> = Vec::new();
    let dres = match flags.compression_method() {
        CompressionMethod::Default => decompress_default(&mut cur, &mut pixels, pixels_count),
        CompressionMethod::RunLengthEncoding => decompress_run_length_encoding(
            &mut cur,
            &mut pixels,
            pixels_count,
        ),
    };
    match dres {
        Ok(()) => {},
        Err(e) => {
            return Err(e);
        },
    }
    let ghost consumed: nat = (cur.offset - 32) as nat;
    proof {
        assert(decomp_result(s) == Some((pixels@, consumed)));
    }

    let palette: Option<Vec<Rgb>> = if flags.has_palette() {
        let ghost pal_base: int = cur.offset as int;
        let mut p: Vec<Rgb> = Vec::new();
        let mut c: usize = 0;
        while c < 256
            invariant
                c <= 256,
                p@.len() == c,
                cur.data@ == s,
                cur.offset == pal_base + 3 * c,
                cur.offset <= s.len(),
                forall|j: int| 0 <= j < c ==> p@[j] == palette_entry(s, pal_base, j),
            decreases 256 - c,
        {
            let er: u8;
            let eg: u8;
            let eb: u8;
            match cur.next_u8() {
                Ok(x) => {
                    er = x;
                },
                Err(e) => {
                    return Err(e);
                },
            }
            match cur.next_u8() {
                Ok(x) => {
                    eg = x;
                },
                Err(e) => {
                    return Err(e);
                },
            }
            match cur.next_u8() {
                Ok(x) => {
                    eb = x;
                },
                Err(e) => {
                    return Err(e);
                },
            }
            p.push(Rgb { r: er, g: eg, b: eb });
            c = c + 1;
        }
        proof {
            assert(p@ =~= palette_seq(s, pal_base));
        }
        Some(p)
    } else {
        None
    };

    Ok(PidImage { id, flags, width, height, user_values, pixels, palette })
}

/// An image whose header declares zero pixels (`width == 0` or `height == 0`)
/// decompresses to an empty index buffer and consumes no bytes past the
/// 32-byte header; when no palette is announced either, such a stream decodes
/// successfully with nothing read beyond the header.
pub proof fn lemma_decode_empty_dimensions(s: Seq<u8>)
    requires
        s.len() >= 32,
        spec_pixel_count(s) == 0,
    ensures
        decomp_result(s) == Some((Seq::<u8>::empty(), 0nat)),
        !spec_flags(s).spec_has_palette() ==> decode_ok(s),
{
}

} // verus!
