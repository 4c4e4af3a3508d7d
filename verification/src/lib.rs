//! Decoder for the PID legacy indexed-bitmap container format: a little-endian
//! header, run-length-compressed palette-index pixels, and an optional trailing
//! 256-entry RGB color table, resolved into a linear RGBA pixel buffer.

pub mod cursor;
pub mod decode;
pub mod decompress;
pub mod flags;
pub mod output;
pub mod resolve;
