use grafted::pixels::{glyph_bit, glyph_offset, PixelBuffer};

#[test]
fn new_surface_is_zeroed_with_default_stride() {
    let pb = PixelBuffer::new(3, 2, 0);
    assert_eq!(pb.stride, 12);
    assert_eq!(pb.pixels.len(), 24);
    assert!(pb.pixels.iter().all(|b| *b == 0));
    let wide = PixelBuffer::new(3, 2, 16);
    assert_eq!(wide.stride, 16);
    assert_eq!(wide.pixels.len(), 32);
}

#[test]
fn set_pixel_writes_bgra() {
    let mut pb = PixelBuffer::new(4, 4, 0);
    pb.set_pixel(1, 2, 10, 20, 30, 40);
    let off = 2 * 16 + 4;
    assert_eq!(&pb.pixels[off..off + 4], &[30, 20, 10, 40]);
    assert_eq!(pb.pixel(1, 2), Some((30, 20, 10, 40)));
    assert_eq!(pb.pixel(0, 0), Some((0, 0, 0, 0)));
}

#[test]
fn set_pixel_outside_is_ignored() {
    let mut pb = PixelBuffer::new(2, 2, 0);
    let before = pb.pixels.clone();
    pb.set_pixel(2, 0, 1, 1, 1, 1);
    pb.set_pixel(0, 2, 1, 1, 1, 1);
    assert_eq!(pb.pixels, before);
    assert_eq!(pb.pixel(5, 5), None);
}

#[test]
fn short_stride_past_buffer_is_ignored() {
    // Rows of 4 bytes but 2 pixels wide: the last pixel runs past the buffer.
    let mut pb = PixelBuffer::new(2, 2, 4);
    pb.set_pixel(1, 1, 9, 9, 9, 9);
    assert_eq!(pb.pixels, vec![0; 8]);
    pb.set_pixel(0, 1, 1, 2, 3, 4);
    assert_eq!(pb.pixels, vec![0, 0, 0, 0, 3, 2, 1, 4]);
}

#[test]
fn glyph_rows() {
    let font_len = 95 * 16;
    assert_eq!(glyph_offset(b' ', font_len), 0);
    assert_eq!(glyph_offset(b'A', font_len), (65 - 32) * 16);
    assert_eq!(glyph_offset(b'~', font_len), 94 * 16);
    assert_eq!(glyph_offset(0x7f, font_len), 0);
    assert_eq!(glyph_offset(10, font_len), 0);
    assert_eq!(glyph_offset(b'~', 94 * 16), 0);
}

#[test]
fn glyph_bits_msb_first() {
    assert!(glyph_bit(0x80, 0));
    assert!(!glyph_bit(0x80, 1));
    assert!(glyph_bit(0x01, 7));
    assert!(!glyph_bit(0x00, 3));
}
