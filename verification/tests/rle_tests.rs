use atomic_bomberman::cursor::ByteCursor;
use atomic_bomberman::error::DecodeError;
use atomic_bomberman::rle::{decode_tga_rle, PixelWidth, RleIterator};

#[test]
fn pcx_rle_run_packet_decodes_three_copies() {
    // Top two bits set: run of 0x3F & 0xC3 = 3 copies of the value 5.
    let bytes = [0xC3u8, 0x05];
    let mut it = RleIterator::new(ByteCursor::new(&bytes));
    let out = it.decode(3).unwrap();
    assert_eq!(out, vec![5u8, 5, 5]);
}

#[test]
fn pcx_rle_literal_byte_is_single_value() {
    let bytes = [0x41u8, 0xC2, 0x07];
    let mut it = RleIterator::new(ByteCursor::new(&bytes));
    let out = it.decode(3).unwrap();
    assert_eq!(out, vec![0x41u8, 0x07, 0x07]);
}

#[test]
fn pcx_rle_truncated_stream_fails() {
    let bytes = [0xC3u8];
    let mut it = RleIterator::new(ByteCursor::new(&bytes));
    assert_eq!(it.decode(3), Err(DecodeError::TruncatedData));
}

#[test]
fn tga16_rle_run_packet_decodes_two_copies() {
    // Top bit set: low bits 1, so one less than a run of 2 of pixel 0x7FFF.
    let bytes = [0x81u8, 0xFF, 0x7F];
    let mut cur = ByteCursor::new(&bytes);
    let out = decode_tga_rle(&mut cur, 2, PixelWidth::Bits16).unwrap();
    assert_eq!(out, vec![0x7FFFu16, 0x7FFF]);
}

#[test]
fn tga16_raw_packet_decodes_consecutive_values() {
    // Top bit clear: low bits 1, so two raw little-endian pixel values.
    let bytes = [0x01u8, 0x34, 0x12, 0x78, 0x56];
    let mut cur = ByteCursor::new(&bytes);
    let out = decode_tga_rle(&mut cur, 2, PixelWidth::Bits16).unwrap();
    assert_eq!(out, vec![0x1234u16, 0x5678]);
    assert_eq!(cur.position(), 5);
}

#[test]
fn tga8_run_packet_decodes_bytes() {
    let bytes = [0x82u8, 0x09];
    let mut cur = ByteCursor::new(&bytes);
    let out = decode_tga_rle(&mut cur, 3, PixelWidth::Bits8).unwrap();
    assert_eq!(out, vec![9u16, 9, 9]);
}

#[test]
fn tga16_truncated_stream_fails() {
    let bytes = [0x03u8, 0x01, 0x00];
    let mut cur = ByteCursor::new(&bytes);
    assert_eq!(
        decode_tga_rle(&mut cur, 4, PixelWidth::Bits16),
        Err(DecodeError::TruncatedData)
    );
}

#[test]
fn tga16_take_stops_inside_a_run() {
    // A run of 16 pixels, but only 3 are wanted; the rest is abandoned and
    // the cursor stands right after the packet.
    let bytes = [0x8Fu8, 0xAA, 0x00, 0x77];
    let mut cur = ByteCursor::new(&bytes);
    let out = decode_tga_rle(&mut cur, 3, PixelWidth::Bits16).unwrap();
    assert_eq!(out, vec![0xAAu16, 0xAA, 0xAA]);
    assert_eq!(cur.position(), 3);
}

#[test]
fn pcx_rle_zero_length_run_yields_nothing() {
    // Both top bits set with zero low bits: a run of no pixels at all; the
    // value byte is still consumed and decoding continues behind it.
    let bytes = [0xC0u8, 0x07, 0x09];
    let mut it = RleIterator::new(ByteCursor::new(&bytes));
    let out = it.decode(1).unwrap();
    assert_eq!(out, vec![0x09u8]);
}

#[test]
fn tga16_take_stops_inside_a_raw_packet() {
    // A raw packet of four pixels, but only one is wanted; the cursor stays
    // right after the pixel that was read.
    let bytes = [0x03u8, 0x11, 0x00, 0x22, 0x00, 0x33, 0x00, 0x44, 0x00];
    let mut cur = ByteCursor::new(&bytes);
    let out = decode_tga_rle(&mut cur, 1, PixelWidth::Bits16).unwrap();
    assert_eq!(out, vec![0x0011u16]);
    assert_eq!(cur.position(), 3);
}
