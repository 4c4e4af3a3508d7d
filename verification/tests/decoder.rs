use pid_decoder::cursor::{PidDataCursor, PidError};
use pid_decoder::decode::{decode_pid, Rgb};
use pid_decoder::decompress::{decompress_default, decompress_run_length_encoding};
use pid_decoder::flags::{CompressionMethod, ImageFlags};
use pid_decoder::output::{Buffer, OutputImage};
use pid_decoder::resolve::{pid_image_to_output_image, resolve_rgba, write_pid_to_canvas_image_data};

fn header(id: i32, flags: u32, width: u32, height: u32) -> Vec<u8> {
    let mut v = Vec::new();
    v.extend_from_slice(&id.to_le_bytes());
    v.extend_from_slice(&flags.to_le_bytes());
    v.extend_from_slice(&width.to_le_bytes());
    v.extend_from_slice(&height.to_le_bytes());
    for _ in 0..4 {
        v.extend_from_slice(&0i32.to_le_bytes());
    }
    v
}

fn gray_palette() -> Vec<u8> {
    let mut v = Vec::new();
    for i in 0..256 {
        v.push(i as u8);
        v.push(i as u8);
        v.push(i as u8);
    }
    v
}

#[test]
fn cursor_reads_little_endian() {
    let data = vec![0x78, 0x56, 0x34, 0x12, 0xFF, 0xFF, 0xFF, 0xFF, 0xAB];
    let mut cur = PidDataCursor::new(&data);
    assert_eq!(cur.next_u32_le(), Ok(0x12345678));
    assert_eq!(cur.next_i32_le(), Ok(-1));
    assert_eq!(cur.next_u8(), Ok(0xAB));
    assert_eq!(cur.next_u8(), Err(PidError::OutOfBounds));
    assert_eq!(cur.offset, 9);
}

#[test]
fn cursor_signed_min() {
    let data = vec![0x00, 0x00, 0x00, 0x80];
    let mut cur = PidDataCursor::new(&data);
    assert_eq!(cur.next_i32_le(), Ok(i32::MIN));
}

#[test]
fn flag_bits() {
    let f = ImageFlags { flags: 0x01 | 0x04 | 0x10 | 0x40 };
    assert!(f.use_transparency());
    assert!(!f.use_video_memory());
    assert!(f.use_system_memory());
    assert!(!f.is_fliped_horizontally());
    assert!(f.is_fliped_vertically());
    assert!(f.has_lights());
    assert!(!f.has_palette());
    assert_eq!(f.compression_method(), CompressionMethod::Default);
    let g = ImageFlags { flags: 0x20 | 0x80 | 0x02 | 0x08 };
    assert!(g.use_video_memory());
    assert!(g.is_fliped_horizontally());
    assert!(g.has_palette());
    assert_eq!(g.compression_method(), CompressionMethod::RunLengthEncoding);
}

#[test]
fn default_run_control_193() {
    // control byte 193 with value byte 0xAA: one pixel valued 0xAA
    let data = vec![193, 0xAA];
    let mut cur = PidDataCursor::new(&data);
    let mut pixels = Vec::new();
    assert_eq!(decompress_default(&mut cur, &mut pixels, 1), Ok(()));
    assert_eq!(pixels, vec![0xAA]);
    assert_eq!(cur.offset, 2);
}

#[test]
fn default_literal_control_192() {
    // control byte 192 is a single literal pixel equal to its own value
    let data = vec![192];
    let mut cur = PidDataCursor::new(&data);
    let mut pixels = Vec::new();
    assert_eq!(decompress_default(&mut cur, &mut pixels, 1), Ok(()));
    assert_eq!(pixels, vec![0xC0]);
    assert_eq!(cur.offset, 1);
}

#[test]
fn default_run_truncated_at_count() {
    // a run of 3 is cut off after the requested 2 pixels
    let data = vec![195, 9];
    let mut cur = PidDataCursor::new(&data);
    let mut pixels = Vec::new();
    assert_eq!(decompress_default(&mut cur, &mut pixels, 2), Ok(()));
    assert_eq!(pixels, vec![9, 9]);
    assert_eq!(cur.offset, 2);
}

#[test]
fn default_round_trip() {
    // hand-encoded stream for [1, 200, 200, 200, 3]
    let data = vec![1, 195, 200, 3];
    let mut cur = PidDataCursor::new(&data);
    let mut pixels = Vec::new();
    assert_eq!(decompress_default(&mut cur, &mut pixels, 5), Ok(()));
    assert_eq!(pixels, vec![1, 200, 200, 200, 3]);
    assert_eq!(cur.offset, 4);
}

#[test]
fn default_out_of_bounds() {
    let data = vec![200];
    let mut cur = PidDataCursor::new(&data);
    let mut pixels = Vec::new();
    assert_eq!(
        decompress_default(&mut cur, &mut pixels, 1),
        Err(PidError::OutOfBounds)
    );
}

#[test]
fn rle_zero_run_control_129() {
    // control byte 129: one zero pixel, no further bytes consumed
    let data = vec![129];
    let mut cur = PidDataCursor::new(&data);
    let mut pixels = Vec::new();
    assert_eq!(decompress_run_length_encoding(&mut cur, &mut pixels, 1), Ok(()));
    assert_eq!(pixels, vec![0]);
    assert_eq!(cur.offset, 1);
}

#[test]
fn rle_control_zero_is_no_op() {
    // control byte 0 yields no pixels and consumes no further bytes
    let data = vec![0, 129];
    let mut cur = PidDataCursor::new(&data);
    let mut pixels = Vec::new();
    assert_eq!(decompress_run_length_encoding(&mut cur, &mut pixels, 1), Ok(()));
    assert_eq!(pixels, vec![0]);
    assert_eq!(cur.offset, 2);
}

#[test]
fn rle_literal_truncated_at_count() {
    // a literal run of 5 stops after the requested 3 pixels and leaves the
    // remaining literal bytes unconsumed
    let data = vec![5, 11, 12, 13, 14, 15];
    let mut cur = PidDataCursor::new(&data);
    let mut pixels = Vec::new();
    assert_eq!(decompress_run_length_encoding(&mut cur, &mut pixels, 3), Ok(()));
    assert_eq!(pixels, vec![11, 12, 13]);
    assert_eq!(cur.offset, 4);
}

#[test]
fn rle_round_trip() {
    // hand-encoded stream for [0, 0, 0, 7, 8]
    let data = vec![131, 2, 7, 8];
    let mut cur = PidDataCursor::new(&data);
    let mut pixels = Vec::new();
    assert_eq!(decompress_run_length_encoding(&mut cur, &mut pixels, 5), Ok(()));
    assert_eq!(pixels, vec![0, 0, 0, 7, 8]);
    assert_eq!(cur.offset, 4);
}

#[test]
fn rle_out_of_bounds_mid_literal() {
    let data = vec![3, 1];
    let mut cur = PidDataCursor::new(&data);
    let mut pixels = Vec::new();
    assert_eq!(
        decompress_run_length_encoding(&mut cur, &mut pixels, 3),
        Err(PidError::OutOfBounds)
    );
}

#[test]
fn resolve_transparency_rule() {
    let mut palette = Vec::new();
    for i in 0..256 {
        palette.push(Rgb { r: i as u8, g: 2, b: 3 });
    }
    // transparency on, index 0: fully transparent black, whatever entry 0 says
    assert_eq!(resolve_rgba(&palette, true, 0), (0, 0, 0, 0));
    // transparency on, nonzero index: the palette color, opaque
    assert_eq!(resolve_rgba(&palette, true, 9), (9, 2, 3, 255));
    // transparency off, index 0: entry 0's color, opaque
    assert_eq!(resolve_rgba(&palette, false, 0), (0, 2, 3, 255));
    assert_eq!(resolve_rgba(&palette, false, 255), (255, 2, 3, 255));
}

#[test]
fn decode_zero_dimensions_reads_only_header() {
    // width 0: empty pixel buffer, nothing read past the 32-byte header
    let data = header(1, 0x00, 0, 5);
    let img = decode_pid(&data).unwrap();
    assert_eq!(img.width, 0);
    assert_eq!(img.height, 5);
    assert_eq!(img.pixels.len(), 0);
    assert!(img.palette.is_none());
}

#[test]
fn decode_header_fields() {
    let mut data = header(-7, 0x00, 1, 1);
    data[16..20].copy_from_slice(&42i32.to_le_bytes());
    data[20..24].copy_from_slice(&(-42i32).to_le_bytes());
    data.push(5);
    let img = decode_pid(&data).unwrap();
    assert_eq!(img.id, -7);
    assert_eq!(img.flags.flags, 0);
    assert_eq!(img.user_values, [42, -42, 0, 0]);
    assert_eq!(img.pixels, vec![5]);
}

#[test]
fn decode_short_header() {
    let data = vec![1, 2, 3];
    assert_eq!(decode_pid(&data).map(|_| ()), Err(PidError::OutOfBounds));
}

#[test]
fn decode_short_pixel_stream() {
    let data = header(1, 0x00, 2, 1);
    assert_eq!(decode_pid(&data).map(|_| ()), Err(PidError::OutOfBounds));
}

#[test]
fn decode_short_palette() {
    let mut data = header(1, 0x80, 1, 1);
    data.push(5);
    data.extend_from_slice(&[0; 100]);
    assert_eq!(decode_pid(&data).map(|_| ()), Err(PidError::OutOfBounds));
}

#[test]
fn decode_with_palette() {
    let mut data = header(1, 0x80, 2, 1);
    data.extend_from_slice(&[5, 7]);
    data.extend_from_slice(&gray_palette());
    let img = decode_pid(&data).unwrap();
    assert_eq!(img.pixels, vec![5, 7]);
    let palette = img.palette.unwrap();
    assert_eq!(palette.len(), 256);
    assert_eq!(palette[5], Rgb { r: 5, g: 5, b: 5 });
    assert_eq!(palette[255], Rgb { r: 255, g: 255, b: 255 });
}

#[test]
fn decode_rle_scheme_selected_by_flag() {
    let mut data = header(1, 0x20, 4, 1);
    data.extend_from_slice(&[130, 2, 9, 9]);
    let img = decode_pid(&data).unwrap();
    assert_eq!(img.pixels, vec![0, 0, 9, 9]);
}

#[test]
fn palette_absent_with_pixels_is_refused() {
    let mut data = header(1, 0x00, 1, 1);
    data.push(5);
    let img = decode_pid(&data).unwrap();
    assert_eq!(
        pid_image_to_output_image(&img).map(|_| ()),
        Err(PidError::UnsupportedPaletteAbsent)
    );
}

#[test]
fn palette_absent_without_pixels_is_fine() {
    let data = header(1, 0x00, 0, 0);
    let out = write_pid_to_canvas_image_data(&data).unwrap();
    assert_eq!(out.buffer.data.len(), 8);
    assert_eq!(&out.buffer.data[0..4], &0u32.to_le_bytes());
    assert_eq!(&out.buffer.data[4..8], &0u32.to_le_bytes());
}

#[test]
fn end_to_end_palette_only() {
    // header {id:1, flags:0x80, width:2, height:1}, pixels [5, 7],
    // palette entry 5 = {10,20,30}, entry 7 = {40,50,60}
    let mut data = header(1, 0x80, 2, 1);
    data.extend_from_slice(&[5, 7]);
    let mut pal = gray_palette();
    pal[15..18].copy_from_slice(&[10, 20, 30]);
    pal[21..24].copy_from_slice(&[40, 50, 60]);
    data.extend_from_slice(&pal);
    let out = write_pid_to_canvas_image_data(&data).unwrap();
    assert_eq!(out.buffer.data.len(), 8 + 4 * 2);
    assert_eq!(&out.buffer.data[0..4], &2u32.to_le_bytes());
    assert_eq!(&out.buffer.data[4..8], &1u32.to_le_bytes());
    assert_eq!(&out.buffer.data[8..12], &[10, 20, 30, 255]);
    assert_eq!(&out.buffer.data[12..16], &[40, 50, 60, 255]);
}

#[test]
fn end_to_end_with_transparency() {
    // same image but transparency enabled and index 0 present: that pixel is
    // (0,0,0,0) regardless of palette entry 0's stored color
    let mut data = header(1, 0x81, 2, 1);
    data.extend_from_slice(&[0, 7]);
    let mut pal = gray_palette();
    pal[0..3].copy_from_slice(&[99, 98, 97]);
    pal[21..24].copy_from_slice(&[40, 50, 60]);
    data.extend_from_slice(&pal);
    let out = write_pid_to_canvas_image_data(&data).unwrap();
    assert_eq!(&out.buffer.data[8..12], &[0, 0, 0, 0]);
    assert_eq!(&out.buffer.data[12..16], &[40, 50, 60, 255]);
}

#[test]
fn buffer_writes() {
    let mut b = Buffer::new(6);
    assert_eq!(b.data, vec![0; 6]);
    b.write_u8(5, 0xEE);
    b.write_u32_le(1, 0x0A0B0C0D);
    assert_eq!(b.data, vec![0, 0x0D, 0x0C, 0x0B, 0x0A, 0xEE]);
}

#[test]
fn canvas_layout() {
    let mut img = OutputImage::from_canvas_with_dimensions(3, 2);
    assert_eq!(img.buffer.data.len(), 8 + 4 * 6);
    assert_eq!(&img.buffer.data[0..4], &3u32.to_le_bytes());
    assert_eq!(&img.buffer.data[4..8], &2u32.to_le_bytes());
    assert!(img.buffer.data[8..].iter().all(|&x| x == 0));
    img.set_pixel(4, 1, 2, 3, 4);
    assert_eq!(&img.buffer.data[8 + 16..8 + 20], &[1, 2, 3, 4]);
    assert_eq!(&img.buffer.data[8..8 + 16], &[0; 16]);
}
