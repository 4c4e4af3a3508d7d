//! Sequential byte cursor over the raw format bytes.
//!
//! The cursor keeps a monotonically increasing offset into a byte slice and
//! decodes bytes and little-endian 32-bit integers, failing with
//! `OutOfBounds` instead of ever reading past the end of the source.

use vstd::prelude::*;
use vstd::slice::slice_index_get;

verus! {

/// Why a decode attempt was aborted.
#[derive(Clone, Copy, Debug, PartialEq, Eq, Structural)]
pub enum PidError {
    /// A read would have gone past the end of the input stream.
    OutOfBounds,
    /// `width * height` exceeds what this target can address.
    TooLarge,
    /// Palette-indexed pixel data is present but no palette was stored.
    UnsupportedPaletteAbsent,
}

/// The unsigned value of the four little-endian bytes of `s` at offset `i`.
pub open spec fn le32_at(s: Seq<u8>, i: int) -> int {
    s[i] + 0x100 * s[i + 1] + 0x1_0000 * s[i + 2] + 0x100_0000 * s[i + 3]
}

/// The two's-complement signed value of the four little-endian bytes at `i`.
pub open spec fn le32_signed_at(s: Seq<u8>, i: int) -> int {
    if le32_at(s, i) < 0x8000_0000 {
        le32_at(s, i)
    } else {
        le32_at(s, i) - 0x1_0000_0000
    }
}

/// Sequential reader over the raw PID bytes.
pub struct PidDataCursor<'a> {
    pub data: &'a [u8],
    pub offset: usize,
}

impl<'a> PidDataCursor<'a> {
    pub fn new(data: &'a [u8]) -> (c: PidDataCursor<'a>)
        ensures
            c.data@ == data@,
            c.offset == 0,
    {
        PidDataCursor { data, offset: 0 }
    }

    pub fn next_u8(&mut self) -> (r: Result<u8, PidError>)
        ensures
            final(self).data@ == old(self).data@,
            match r {
                Ok(b) => {
                    &&& old(self).offset + 1 <= old(self).data@.len()
                    &&& b == old(self).data@[old(self).offset as int]
                    &&& final(self).offset == old(self).offset + 1
                },
                Err(e) => {
                    &&& e == PidError::OutOfBounds
                    &&& old(self).offset + 1 > old(self).data@.len()
                    &&& final(self).offset == old(self).offset
                },
            },
    {
        if self.offset < self.data.len() {
            let b = *slice_index_get(self.data, self.offset);
            self.offset = self.offset + 1;
            Ok(b)
        } else {
            Err(PidError::OutOfBounds)
        }
    }

    pub fn next_u32_le(&mut self) -> (r: Result<u32, PidError>)
        ensures
            final(self).data@ == old(self).data@,
            match r {
                Ok(u) => {
                    &&& old(self).offset + 4 <= old(self).data@.len()
                    &&& u == le32_at(old(self).data@, old(self).offset as int)
                    &&& final(self).offset == old(self).offset + 4
                },
                Err(e) => {
                    &&& e == PidError::OutOfBounds
                    &&& old(self).offset + 4 > old(self).data@.len()
                    &&& final(self).offset == old(self).offset
                },
            },
    {
        if self.offset < self.data.len() && self.data.len() - self.offset >= 4 {
            let b0 = *slice_index_get(self.data, self.offset);
            let b1 = *slice_index_get(self.data, self.offset + 1);
            let b2 = *slice_index_get(self.data, self.offset + 2);
            let b3 = *slice_index_get(self.data, self.offset + 3);
            let u: u32 = b0 as u32 + 0x100 * (b1 as u32) + 0x1_0000 * (b2 as u32) + 0x100_0000
                * (b3 as u32);
            self.offset = self.offset + 4;
            Ok(u)
        } else {
            Err(PidError::OutOfBounds)
        }
    }

    pub fn next_i32_le(&mut self) -> (r: Result<i32, PidError>)
        ensures
            final(self).data@ == old(self).data@,
            match r {
                Ok(v) => {
                    &&& old(self).offset + 4 <= old(self).data@.len()
                    &&& v == le32_signed_at(old(self).data@, old(self).offset as int)
                    &&& final(self).offset == old(self).offset + 4
                },
                Err(e) => {
                    &&& e == PidError::OutOfBounds
                    &&& old(self).offset + 4 > old(self).data@.len()
                    &&& final(self).offset == old(self).offset
                },
            },
    {
        let u = self.next_u32_le()?;
        if u < 0x8000_0000 {
            Ok(u as i32)
        } else {
            Ok(-((0xFFFF_FFFFu32 - u) as i32) - 1)
        }
    }
}

} // verus!
