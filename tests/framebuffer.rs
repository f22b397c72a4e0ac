use packed_fb::{Codec, FbError, PackedFramebuffer, Pixel, Point, Rectangle, Size};

fn frame(width: usize, height: usize, native_bits: u32) -> PackedFramebuffer {
    let codec = Codec::for_native_bits(native_bits);
    let n = PackedFramebuffer::buffer_size(codec, Size::new(width as u32, height as u32));
    PackedFramebuffer::new(vec![0; n], width, height, codec).unwrap()
}

#[test]
fn depth_is_smallest_bucket() {
    assert_eq!(Codec::bits_per_pixel(0), 1);
    assert_eq!(Codec::bits_per_pixel(1), 1);
    assert_eq!(Codec::bits_per_pixel(2), 2);
    assert_eq!(Codec::bits_per_pixel(3), 4);
    assert_eq!(Codec::bits_per_pixel(4), 4);
    assert_eq!(Codec::bits_per_pixel(5), 8);
    assert_eq!(Codec::bits_per_pixel(8), 8);
    assert_eq!(Codec::bits_per_pixel(16), 8);
}

#[test]
fn codec_constants() {
    let c = Codec::for_native_bits(2);
    assert_eq!(c.depth_bits(), 2);
    assert_eq!(c.mask(), 3);
    assert_eq!(c.pixels_per_byte(), 4);
    let c = Codec::for_native_bits(6);
    assert_eq!(c.mask(), 255);
    assert_eq!(c.pixels_per_byte(), 1);
}

#[test]
fn round_trip_every_code_every_depth() {
    for bits in [1u32, 2, 4, 8] {
        let c = Codec::for_native_bits(bits);
        for code in 0..(1u32 << bits) {
            let code = code as u8;
            assert_eq!(c.encode(c.decode(code)), code);
        }
    }
}

#[test]
fn round_trip_through_storage() {
    for bits in [1u32, 2, 4, 8] {
        let mut f = frame(8, 2, bits);
        for code in 0..(1u32 << bits) {
            let x = (code % 8) as usize;
            let y = ((code / 8) % 2) as usize;
            f.set_pixel(x, y, code as u8);
            assert_eq!(f.get_pixel(x, y), code as u8);
        }
    }
}

#[test]
fn one_bit_eight_by_eight() {
    let codec = Codec::for_native_bits(1);
    let n = PackedFramebuffer::buffer_size(codec, Size::new(8, 8));
    assert_eq!(n, 8);
    let mut f = PackedFramebuffer::new(vec![0xa5; n], 8, 8, codec).unwrap();
    f.clear(0);
    f.set_pixel(0, 0, 1);
    assert_eq!(f.get_pixel(0, 0), 1);
    assert_eq!(f.get_pixel(1, 0), 0);
    f.clear(0);
    assert_eq!(f.as_bytes(), &[0u8; 8][..]);
}

#[test]
fn point_isolation() {
    let mut f = frame(8, 3, 2);
    for y in 0..3 {
        for x in 0..8 {
            f.set_pixel(x, y, ((x + y) % 4) as u8);
        }
    }
    f.set_pixel(5, 1, 3);
    for y in 0..3 {
        for x in 0..8 {
            let want = if (x, y) == (5, 1) { 3 } else { ((x + y) % 4) as u8 };
            assert_eq!(f.get_pixel(x, y), want);
        }
    }
}

#[test]
fn nibbles_share_a_byte() {
    let mut f = frame(2, 1, 4);
    f.set_pixel(0, 0, 0xa);
    f.set_pixel(1, 0, 0x5);
    assert_eq!(f.as_bytes(), &[0x5a][..]);
    f.set_pixel(0, 0, 0x3);
    assert_eq!(f.as_bytes(), &[0x53][..]);
}

#[test]
fn offsets_follow_packing() {
    let f = frame(16, 2, 2);
    assert_eq!(f.bytes_per_row(), 4);
    assert_eq!(f.y_offset(1), 4);
    assert_eq!(f.x_offset(9), 2);
    assert_eq!(f.x_bits_offset(9), 2);
    let g = frame(3, 2, 8);
    assert_eq!(g.x_bits_offset(2), 0);
    assert_eq!(g.y_offset(1), 3);
}

#[test]
fn byte_level_get_and_set() {
    let mut f = frame(8, 1, 1);
    f.set(0, 3, 1);
    assert_eq!(f.as_bytes(), &[0b1000][..]);
    assert_eq!(f.get(0, 3), 1);
    assert_eq!(f.get(0, 2), 0);
    assert_eq!(f.get_pixel(3, 0), 1);
}

#[test]
fn new_rejects_bad_storage() {
    let c = Codec::for_native_bits(1);
    assert_eq!(PackedFramebuffer::new(vec![0; 7], 8, 8, c).err(), Some(FbError::BufferSize));
    assert_eq!(PackedFramebuffer::new(vec![0; 9], 8, 8, c).err(), Some(FbError::BufferSize));
    assert_eq!(PackedFramebuffer::new(vec![0; 8], 7, 8, c).err(), Some(FbError::UnalignedWidth));
    assert_eq!(
        PackedFramebuffer::new(vec![], 0x8000_0000, 0, c).err(),
        Some(FbError::TooLarge)
    );
    assert!(PackedFramebuffer::new(vec![], 0, 0, c).is_ok());
}

#[test]
fn size_and_bounds() {
    let f = frame(8, 3, 4);
    assert_eq!(f.size(), Size::new(8, 3));
    assert_eq!(f.bounding_box(), Rectangle::new(Point::new(0, 0), Size::new(8, 3)));
    assert_eq!(f.width(), 8);
    assert_eq!(f.height(), 3);
    assert_eq!(f.into_buffer().len(), 12);
}

#[test]
fn draw_iter_drops_out_of_bounds_and_last_wins() {
    let mut f = frame(4, 2, 8);
    f.draw_iter(&[
        Pixel(Point::new(1, 1), 7),
        Pixel(Point::new(-1, 0), 9),
        Pixel(Point::new(4, 0), 9),
        Pixel(Point::new(0, 2), 9),
        Pixel(Point::new(1, 1), 8),
    ]);
    assert_eq!(f.as_bytes(), &[0, 0, 0, 0, 0, 8, 0, 0][..]);
}

#[test]
fn fill_solid_clips_to_bounds() {
    let mut f = frame(4, 3, 8);
    f.fill_solid(&Rectangle::new(Point::new(-2, 1), Size::new(4, 10)), 5);
    assert_eq!(f.as_bytes(), &[0, 0, 0, 0, 5, 5, 0, 0, 5, 5, 0, 0][..]);
    f.fill_solid(&Rectangle::new(Point::new(3, 2), Size::new(1, 1)), 6);
    assert_eq!(f.get_pixel(3, 2), 6);
    f.fill_solid(&Rectangle::new(Point::new(10, 10), Size::new(5, 5)), 7);
    assert_eq!(f.as_bytes(), &[0, 0, 0, 0, 5, 5, 0, 0, 5, 5, 0, 6][..]);
}

#[test]
fn fill_solid_reaches_last_row_and_column() {
    let mut f = frame(8, 2, 1);
    let bb = f.bounding_box();
    f.fill_solid(&bb, 1);
    assert_eq!(f.as_bytes(), &[0xff, 0xff][..]);
}

#[test]
fn fill_contiguous_short_sequence_leaves_rest() {
    let mut f = frame(4, 2, 8);
    f.fill_solid(&f.bounding_box(), 9);
    f.fill_contiguous(&Rectangle::new(Point::new(1, 0), Size::new(2, 2)), &[1, 2, 3]);
    assert_eq!(f.as_bytes(), &[9, 1, 2, 9, 9, 3, 9, 9][..]);
}

#[test]
fn fill_contiguous_long_sequence_ignores_extra() {
    let mut f = frame(4, 2, 8);
    f.fill_contiguous(&Rectangle::new(Point::new(-1, 1), Size::new(3, 5)), &[1, 2, 3, 4, 5]);
    assert_eq!(f.as_bytes(), &[0, 0, 0, 0, 1, 2, 0, 0][..]);
}

#[test]
fn clear_zero_matches_fill_solid() {
    for bits in [1u32, 2, 4, 8] {
        let codec = Codec::for_native_bits(bits);
        let n = PackedFramebuffer::buffer_size(codec, Size::new(8, 3));
        let mut a = PackedFramebuffer::new(vec![0x5c; n], 8, 3, codec).unwrap();
        let mut b = PackedFramebuffer::new(vec![0xe1; n], 8, 3, codec).unwrap();
        a.clear(0);
        let bb = b.bounding_box();
        b.fill_solid(&bb, 0);
        assert_eq!(a.as_bytes(), b.as_bytes());
        assert!(a.as_bytes().iter().all(|v| *v == 0));
    }
}

#[test]
fn clear_nonzero_sets_every_pixel() {
    let mut f = frame(8, 2, 2);
    f.clear(2);
    assert_eq!(f.as_bytes(), &[0xaa, 0xaa, 0xaa, 0xaa][..]);
    assert_eq!(f.to_bits(2), 2);
    assert_eq!(f.from_bits(2), 2);
}

#[test]
fn apply_lists_changes_in_row_major_order() {
    let mut reference = frame(4, 2, 4);
    let mut current = frame(4, 2, 4);
    current.set_pixel(3, 1, 2);
    current.set_pixel(1, 0, 5);
    current.set_pixel(2, 1, 0);
    let changes = reference.apply(&current);
    assert_eq!(
        changes,
        vec![Pixel(Point::new(1, 0), 5), Pixel(Point::new(3, 1), 2)]
    );
    assert_eq!(reference.as_bytes(), current.as_bytes());
    assert!(reference.apply(&current).is_empty());
}

#[test]
fn invert_from_differs_everywhere() {
    let mut a = frame(8, 1, 1);
    let mut b = frame(8, 1, 1);
    b.set_pixel(2, 0, 1);
    a.invert_from(&b);
    for x in 0..8 {
        assert_ne!(a.get_pixel(x, 0), b.get_pixel(x, 0));
    }
    assert_eq!(a.as_bytes(), &[0xfb][..]);
}
