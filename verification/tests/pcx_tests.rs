use atomic_bomberman::error::DecodeError;
use atomic_bomberman::pcx::decode_pcx_image;

fn push_u16(out: &mut Vec<u8>, v: u16) {
    out.push((v & 0xFF) as u8);
    out.push((v >> 8) as u8);
}

/// The fixed header the decoder reads: 127 bytes, pixel data follows.
fn pcx_header(version: u8, rle: bool, bits: u8, width: u16, height: u16, planes: u8) -> Vec<u8> {
    let mut out = Vec::new();
    out.push(0x0A);
    out.push(version);
    out.push(if rle { 1 } else { 0 });
    out.push(bits);
    push_u16(&mut out, 0); // min x
    push_u16(&mut out, 0); // min y
    push_u16(&mut out, width - 1); // max x
    push_u16(&mut out, height - 1); // max y
    push_u16(&mut out, 72); // horizontal dpi
    push_u16(&mut out, 72); // vertical dpi
    out.extend_from_slice(&[0u8; 48]); // EGA palette region
    out.push(0); // reserved
    out.push(planes);
    push_u16(&mut out, width); // bytes per plane line
    out.push(0); // palette type flag
    push_u16(&mut out, 0);
    push_u16(&mut out, 0);
    out.extend_from_slice(&[0u8; 54]); // reserved filler
    assert_eq!(out.len(), 127);
    out
}

/// The 769-byte footer: the marker and 256 RGB triples.
fn pcx_footer(entries: &[(u8, [u8; 3])]) -> Vec<u8> {
    let mut pal = vec![0u8; 768];
    for (index, rgb) in entries {
        let base = 3 * (*index as usize);
        pal[base] = rgb[0];
        pal[base + 1] = rgb[1];
        pal[base + 2] = rgb[2];
    }
    let mut out = vec![0x0C];
    out.extend_from_slice(&pal);
    out
}

#[test]
fn rle_image_decodes_through_the_palette() {
    // [0xC3, 0x05] is a run of three pixels with index 5.
    let mut file = pcx_header(5, true, 8, 3, 1, 1);
    file.extend_from_slice(&[0xC3, 0x05]);
    file.extend_from_slice(&pcx_footer(&[(5, [11, 22, 33])]));
    let image = decode_pcx_image(&file).unwrap();
    assert_eq!(image.width, 3);
    assert_eq!(image.height, 1);
    assert_eq!(
        image.data,
        vec![11, 22, 33, 255, 11, 22, 33, 255, 11, 22, 33, 255]
    );
}

#[test]
fn raw_image_reads_indices_directly() {
    let mut file = pcx_header(5, false, 8, 2, 1, 1);
    file.extend_from_slice(&[1, 2]);
    file.extend_from_slice(&pcx_footer(&[(1, [5, 6, 7]), (2, [8, 9, 10])]));
    let image = decode_pcx_image(&file).unwrap();
    assert_eq!(image.data, vec![5, 6, 7, 255, 8, 9, 10, 255]);
}

#[test]
fn four_bit_image_is_unsupported() {
    let mut file = pcx_header(5, true, 4, 2, 1, 1);
    file.extend_from_slice(&[0xC2, 0x05]);
    file.extend_from_slice(&pcx_footer(&[]));
    assert!(matches!(decode_pcx_image(&file), Err(DecodeError::UnsupportedVariant)));
}

#[test]
fn multi_plane_image_is_unsupported() {
    let mut file = pcx_header(5, true, 8, 2, 1, 3);
    file.extend_from_slice(&[0xC2, 0x05]);
    file.extend_from_slice(&pcx_footer(&[]));
    assert!(matches!(decode_pcx_image(&file), Err(DecodeError::UnsupportedVariant)));
}

#[test]
fn bad_signature_is_malformed() {
    let mut file = pcx_header(5, true, 8, 2, 1, 1);
    file[0] = 0x0B;
    assert!(matches!(decode_pcx_image(&file), Err(DecodeError::MalformedHeader)));
}

#[test]
fn unknown_version_is_unsupported() {
    let mut file = pcx_header(5, true, 8, 2, 1, 1);
    file[1] = 9;
    assert!(matches!(decode_pcx_image(&file), Err(DecodeError::UnsupportedVariant)));
}

#[test]
fn unknown_encoding_is_unsupported() {
    let mut file = pcx_header(5, true, 8, 2, 1, 1);
    file[2] = 7;
    assert!(matches!(decode_pcx_image(&file), Err(DecodeError::UnsupportedVariant)));
}

#[test]
fn empty_file_is_truncated() {
    assert!(matches!(decode_pcx_image(&[]), Err(DecodeError::TruncatedData)));
}

#[test]
fn header_only_file_is_truncated() {
    let file = pcx_header(5, false, 8, 2, 1, 1);
    assert!(matches!(decode_pcx_image(&file), Err(DecodeError::TruncatedData)));
}

#[test]
fn missing_palette_marker_is_malformed() {
    let mut file = pcx_header(5, false, 8, 2, 1, 1);
    file.extend_from_slice(&[1, 2]);
    let mut footer = pcx_footer(&[]);
    footer[0] = 0x0D;
    file.extend_from_slice(&footer);
    assert!(matches!(decode_pcx_image(&file), Err(DecodeError::MalformedHeader)));
}

#[test]
fn inverted_bounding_box_is_malformed() {
    let mut file = pcx_header(5, false, 8, 2, 1, 1);
    // max x below min x.
    file[4] = 9;
    file[8] = 3;
    file.extend_from_slice(&[1, 2]);
    file.extend_from_slice(&pcx_footer(&[]));
    assert!(matches!(decode_pcx_image(&file), Err(DecodeError::MalformedHeader)));
}
