//! Bit-accessor view over the 32-bit flag word of a PID header.
//!
//! Each bit is an independent boolean facet; one bit selects which of the two
//! run-length decompression schemes applies to the pixel stream.

use vstd::prelude::*;

verus! {

/// Which of the two pixel decompression schemes the flag word selects.
#[derive(Clone, Copy, Debug, PartialEq, Eq, Structural)]
pub enum CompressionMethod {
    Default,
    RunLengthEncoding,
}

/// The 32-bit flag word of a PID header, immutable once parsed.
#[derive(Clone, Copy, Debug)]
pub struct ImageFlags {
    pub flags: u32,
}

impl ImageFlags {
    /// Bit 0x01: index 0 resolves to fully transparent black.
    pub open spec fn spec_use_transparency(self) -> bool {
        self.flags & 0x01 != 0
    }

    /// Bit 0x20: selects the decompression scheme.
    pub open spec fn spec_compression_method(self) -> CompressionMethod {
        if self.flags & 0x20 == 0 {
            CompressionMethod::Default
        } else {
            CompressionMethod::RunLengthEncoding
        }
    }

    /// Bit 0x80: a 256-entry RGB palette trails the pixel data.
    pub open spec fn spec_has_palette(self) -> bool {
        self.flags & 0x80 != 0
    }

    pub fn use_transparency(&self) -> (r: bool)
        ensures
            r == self.spec_use_transparency(),
    {
        self.flags & 0x01 != 0
    }

    pub fn use_video_memory(&self) -> (r: bool)
        ensures
            r == (self.flags & 0x02 != 0),
    {
        self.flags & 0x02 != 0
    }

    pub fn use_system_memory(&self) -> (r: bool)
        ensures
            r == (self.flags & 0x04 != 0),
    {
        self.flags & 0x04 != 0
    }

    pub fn is_fliped_horizontally(&self) -> (r: bool)
        ensures
            r == (self.flags & 0x08 != 0),
    {
        self.flags & 0x08 != 0
    }

    pub fn is_fliped_vertically(&self) -> (r: bool)
        ensures
            r == (self.flags & 0x10 != 0),
    {
        self.flags & 0x10 != 0
    }

    pub fn compression_method(&self) -> (m: CompressionMethod)
        ensures
            m == self.spec_compression_method(),
    {
        if self.flags & 0x20 == 0 {
            CompressionMethod::Default
        } else {
            CompressionMethod::RunLengthEncoding
        }
    }

    pub fn has_lights(&self) -> (r: bool)
        ensures
            r == (self.flags & 0x40 != 0),
    {
        self.flags & 0x40 != 0
    }

    pub fn has_palette(&self) -> (r: bool)
        ensures
            r == self.spec_has_palette(),
    {
        self.flags & 0x80 != 0
    }
}

} // verus!
