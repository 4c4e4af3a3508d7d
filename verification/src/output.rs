//! The decoded image's output buffer: a canvas-layout byte region holding
//! `[width:u32 le][height:u32 le]` followed by one R,G,B,A quad per pixel,
//! row-major from the top-left.

use vstd::prelude::*;

use crate::cursor::le32_at;

verus! {

/// A plain growable byte region, zero-initialized at creation.
pub struct Buffer {
    pub data: Vec<u8>,
}

impl Buffer {
    pub fn new(size: usize) -> (b: Buffer)
        ensures
            b.data@.len() == size,
            forall|i: int| 0 <= i < size ==> b.data@[i] == 0u8,
    {
        let mut data: Vec<u8> = Vec::new();
        while data.len() < size
            invariant
                data@.len() <= size,
                forall|i: int| 0 <= i < data@.len() ==> data@[i] == 0u8,
            decreases size - data@.len(),
        {
            data.push(0);
        }
        Buffer { data }
    }

    pub fn write_u8(&mut self, n: usize, b: u8)
        requires
            n < old(self).data@.len(),
        ensures
            final(self).data@ == old(self).data@.update(n as int, b),
    {
        self.data[n] = b;
    }

    pub fn write_u32_le(&mut self, n: usize, u: u32)
        requires
            n + 4 <= old(self).data@.len(),
            n + 4 <= usize::MAX,
        ensures
            final(self).data@.len() == old(self).data@.len(),
            le32_at(final(self).data@, n as int) == u,
            forall|i: int|
                0 <= i < old(self).data@.len() && !(n <= i < n + 4) ==> final(self).data@[i]
                    == old(self).data@[i],
    {
        self.write_u8(n, (u % 0x100) as u8);
        self.write_u8(n + 1, ((u / 0x100) % 0x100) as u8);
        self.write_u8(n + 2, ((u / 0x1_0000) % 0x100) as u8);
        self.write_u8(n + 3, ((u / 0x100_0000) % 0x100) as u8);
        proof {
            assert(u == u % 0x100 + 0x100 * ((u / 0x100) % 0x100) + 0x1_0000 * ((u / 0x1_0000)
                % 0x100) + 0x100_0000 * ((u / 0x100_0000) % 0x100)) by (bit_vector);
        }
    }
}

/// The RGBA output image in its canvas byte layout: an 8-byte dimension
/// header followed by `4 * width * height` pixel bytes.
pub struct OutputImage {
    pub buffer: Buffer,
}

impl OutputImage {
    /// A zeroed canvas for `width * height` pixels with its dimension header
    /// filled in.
    pub fn from_canvas_with_dimensions(width: u32, height: u32) -> (img: OutputImage)
        requires
            8 + 4 * ((width as int) * (height as int)) <= usize::MAX,
        ensures
            img.buffer.data@.len() == 8 + 4 * ((width as int) * (height as int)),
            le32_at(img.buffer.data@, 0) == width,
            le32_at(img.buffer.data@, 4) == height,
            forall|i: int|
                8 <= i < img.buffer.data@.len() ==> img.buffer.data@[i] == 0u8,
    {
        let pixels: usize = (width as usize) * (height as usize);
        let mut data = Buffer::new(8 + 4 * pixels);
        data.write_u32_le(0, width);
        data.write_u32_le(4, height);
        OutputImage { buffer: data }
    }

    /// Store the RGBA quad of the pixel at linear position `px`.
    pub fn set_pixel(&mut self, px: usize, r: u8, g: u8, b: u8, a: u8)
        requires
            8 + (px as int) * 4 + 4 <= old(self).buffer.data@.len(),
            8 + (px as int) * 4 + 4 <= usize::MAX,
        ensures
            final(self).buffer.data@.len() == old(self).buffer.data@.len(),
            final(self).buffer.data@[8 + 4 * (px as int)] == r,
            final(self).buffer.data@[8 + 4 * (px as int) + 1] == g,
            final(self).buffer.data@[8 + 4 * (px as int) + 2] == b,
            final(self).buffer.data@[8 + 4 * (px as int) + 3] == a,
            forall|i: int|
                0 <= i < old(self).buffer.data@.len() && !(8 + 4 * (px as int) <= i < 8 + 4 * (
                px as int) + 4) ==> final(self).buffer.data@[i] == old(self).buffer.data@[i],
    {
        let i: usize = 8 + px * 4;
        self.buffer.write_u8(i, r);
        self.buffer.write_u8(i + 1, g);
        self.buffer.write_u8(i + 2, b);
        self.buffer.write_u8(i + 3, a);
    }
}

} // verus!
