use atomic_bomberman::image::rgba_from_pixel16;

#[test]
fn pixel16_white_converts_to_widened_rgb() {
    // 0x7FFF has all three five-bit fields at 31, widened to 248 each.
    assert_eq!(rgba_from_pixel16(0x7FFF, 0x0000), [248, 248, 248, 255]);
}

#[test]
fn pixel16_matching_the_key_is_transparent() {
    assert_eq!(rgba_from_pixel16(0x1234, 0x1234), [0, 0, 0, 0]);
}

#[test]
fn pixel16_with_top_bit_set_is_transparent() {
    assert_eq!(rgba_from_pixel16(0x8000, 0x0000), [0, 0, 0, 0]);
    assert_eq!(rgba_from_pixel16(0xFFFF, 0x0000), [0, 0, 0, 0]);
}

#[test]
fn pixel16_fields_widen_independently() {
    // red 31, green 0, blue 0.
    assert_eq!(rgba_from_pixel16(0x7C00, 0xFFFF), [248, 0, 0, 255]);
    // red 0, green 31, blue 0.
    assert_eq!(rgba_from_pixel16(0x03E0, 0xFFFF), [0, 248, 0, 255]);
    // red 0, green 0, blue 31.
    assert_eq!(rgba_from_pixel16(0x001F, 0xFFFF), [0, 0, 248, 255]);
    // red 1, green 2, blue 3.
    assert_eq!(rgba_from_pixel16(0x0443, 0xFFFF), [8, 16, 24, 255]);
}
