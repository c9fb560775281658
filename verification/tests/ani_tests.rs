use atomic_bomberman::ani::decode_animation_bundle;
use atomic_bomberman::error::DecodeError;

fn push_u16(out: &mut Vec<u8>, v: u16) {
    out.push((v & 0xFF) as u8);
    out.push((v >> 8) as u8);
}

fn push_u32(out: &mut Vec<u8>, v: u32) {
    out.push((v & 0xFF) as u8);
    out.push(((v >> 8) & 0xFF) as u8);
    out.push(((v >> 16) & 0xFF) as u8);
    out.push(((v >> 24) & 0xFF) as u8);
}

fn push_i16(out: &mut Vec<u8>, v: i16) {
    push_u16(out, v as u16);
}

fn chunk(tag: &[u8; 4], body: &[u8]) -> Vec<u8> {
    let mut out = Vec::new();
    out.extend_from_slice(tag);
    push_u32(&mut out, body.len() as u32);
    push_u16(&mut out, 0);
    out.extend_from_slice(body);
    out
}

/// A 16-bit direct-colour CIMG body: one raw packet of up to 128 pixels,
/// plus the stray trailing byte.
fn cimg16_body(width: u16, height: u16, key: u16, pixels: &[u16]) -> Vec<u8> {
    assert_eq!(pixels.len(), (width as usize) * (height as usize));
    assert!(pixels.len() >= 1 && pixels.len() <= 128);
    let mut body = Vec::new();
    push_u16(&mut body, 0x0004);
    push_u16(&mut body, 0);
    push_u32(&mut body, 0); // no additional palette header
    push_u32(&mut body, 0);
    push_u16(&mut body, width);
    push_u16(&mut body, height);
    push_u16(&mut body, 0); // hotspot x
    push_u16(&mut body, 0); // hotspot y
    push_u16(&mut body, key);
    push_u16(&mut body, 0);
    push_u16(&mut body, 0);
    push_u16(&mut body, 0);
    push_u32(&mut body, 12 + 1 + 2 * pixels.len() as u32); // compressed size
    push_u32(&mut body, 2 * pixels.len() as u32); // uncompressed size
    body.push((pixels.len() - 1) as u8); // one raw packet
    for p in pixels {
        push_u16(&mut body, *p);
    }
    body.push(0xAA); // the stray trailing byte
    body
}

/// An 8-bit palette-indexed CIMG body with an embedded 1024-byte palette.
fn cimg8_body(
    width: u16,
    height: u16,
    hotspot: (u16, u16),
    palette: &[u8],
    indices: &[u8],
) -> Vec<u8> {
    assert_eq!(palette.len(), 1024);
    assert_eq!(indices.len(), (width as usize) * (height as usize));
    assert!(indices.len() >= 1 && indices.len() <= 128);
    let mut body = Vec::new();
    push_u16(&mut body, 0x000B);
    push_u16(&mut body, 0);
    push_u32(&mut body, 32 + 1024);
    push_u32(&mut body, 0);
    push_u16(&mut body, width);
    push_u16(&mut body, height);
    push_u16(&mut body, hotspot.0);
    push_u16(&mut body, hotspot.1);
    push_u16(&mut body, 0); // transparent key, unused by the 8-bit path
    push_u16(&mut body, 0);
    push_u32(&mut body, 0);
    push_u32(&mut body, 0);
    body.extend_from_slice(palette);
    push_u16(&mut body, 0);
    push_u16(&mut body, 0);
    push_u32(&mut body, 12 + 1 + indices.len() as u32);
    push_u32(&mut body, indices.len() as u32);
    body.push((indices.len() - 1) as u8); // one raw packet
    body.extend_from_slice(indices);
    body.push(0xAA);
    body
}

/// A FRAM chunk holding a frame: HEAD, optional FNAM, and the CIMG body.
fn fram(cimg_body: &[u8], with_fnam: bool) -> Vec<u8> {
    let mut inner = chunk(b"HEAD", &[]);
    if with_fnam {
        inner.extend_from_slice(&chunk(b"FNAM", b"frame\0"));
    }
    inner.extend_from_slice(&chunk(b"CIMG", cimg_body));
    chunk(b"FRAM", &inner)
}

/// A SEQ chunk: a HEAD with the nul-terminated name, then one STAT group per
/// frame reference.
fn seq(name: &[u8], refs: &[(u16, i16, i16)]) -> Vec<u8> {
    let mut name_body = name.to_vec();
    name_body.push(0);
    let mut inner = chunk(b"HEAD", &name_body);
    for (index, ox, oy) in refs {
        let mut fram_body = Vec::new();
        push_u16(&mut fram_body, 0); // id
        push_u16(&mut fram_body, *index);
        push_i16(&mut fram_body, *ox);
        push_i16(&mut fram_body, *oy);
        push_u32(&mut fram_body, 0); // padding
        let mut stat_body = chunk(b"HEAD", &[]);
        stat_body.extend_from_slice(&chunk(b"FRAM", &fram_body));
        inner.extend_from_slice(&chunk(b"STAT", &stat_body));
    }
    chunk(b"SEQ ", &inner)
}

/// A whole animation container file.
fn ani_file(frams: &[Vec<u8>], seqs: &[Vec<u8>]) -> Vec<u8> {
    let mut body = chunk(b"HEAD", &[]);
    body.extend_from_slice(&chunk(b"PAL ", &[]));
    body.extend_from_slice(&chunk(b"TPAL", &[]));
    body.extend_from_slice(&chunk(b"CBOX", &[]));
    for f in frams {
        body.extend_from_slice(f);
    }
    for s in seqs {
        body.extend_from_slice(s);
    }
    let mut out = Vec::new();
    out.extend_from_slice(b"CHFILEANI ");
    push_u32(&mut out, body.len() as u32);
    push_u16(&mut out, 0);
    out.extend_from_slice(&body);
    out
}

#[test]
fn minimal_bundle_decodes() {
    let file = ani_file(
        &[fram(&cimg16_body(1, 1, 0x0000, &[0x7C00]), true)],
        &[seq(b"WALK", &[(0, 1, -2)])],
    );
    let bundle = decode_animation_bundle(&file).unwrap();
    assert_eq!(bundle.animations.len(), 1);
    let anim = bundle.get("WALK").unwrap();
    assert_eq!(anim.name, "WALK");
    assert_eq!(anim.width, 1);
    assert_eq!(anim.height, 1);
    assert_eq!(anim.frames.len(), 1);
    assert_eq!(anim.frames[0].index, 0);
    assert_eq!(anim.frames[0].offset_x, 1);
    assert_eq!(anim.frames[0].offset_y, -2);
    assert_eq!(anim.atlas.tile_width, 1);
    assert_eq!(anim.atlas.tile_height, 1);
    assert_eq!(anim.atlas.tile_count, 1);
    // One red pixel: five-bit red 31 widened to 248.
    assert_eq!(anim.atlas.buffer, vec![248, 0, 0, 255]);
}

#[test]
fn frame_without_name_chunk_is_tolerated() {
    let file = ani_file(
        &[fram(&cimg16_body(1, 1, 0x0000, &[0x001F]), false)],
        &[seq(b"A", &[(0, 0, 0)])],
    );
    let bundle = decode_animation_bundle(&file).unwrap();
    assert_eq!(bundle.get("A").unwrap().atlas.buffer, vec![0, 0, 248, 255]);
}

#[test]
fn out_of_range_frame_index_clamps_to_last_image() {
    let frams: Vec<Vec<u8>> = (0..5)
        .map(|_| fram(&cimg16_body(1, 1, 0x0000, &[0x7FFF]), true))
        .collect();
    let file = ani_file(&frams, &[seq(b"CLAMP", &[(999, 0, 0)])]);
    let bundle = decode_animation_bundle(&file).unwrap();
    let anim = bundle.get("CLAMP").unwrap();
    assert_eq!(anim.frames.len(), 1);
    assert_eq!(anim.frames[0].index, 4);
}

#[test]
fn bundle_measures_hold_on_mismatched_frames() {
    // A 2x2 frame and a 1x2 frame force padding; the atlas buffer holds
    // exactly tile_width * tile_height * tile_count * 4 bytes.
    let file = ani_file(
        &[
            fram(&cimg16_body(2, 2, 0x0000, &[0x7C00; 4]), true),
            fram(&cimg16_body(1, 2, 0x0000, &[0x03E0; 2]), true),
        ],
        &[seq(b"BOTH", &[(0, 0, 0), (1, 0, 0)])],
    );
    let bundle = decode_animation_bundle(&file).unwrap();
    let anim = bundle.get("BOTH").unwrap();
    assert_eq!(anim.atlas.tile_width, 2);
    assert_eq!(anim.atlas.tile_height, 2);
    assert_eq!(anim.atlas.tile_count, 2);
    assert_eq!(anim.atlas.buffer.len(), 2 * 2 * 2 * 4);
    assert!(!anim.frames.is_empty());
    for frame in &anim.frames {
        assert!(frame.index < anim.atlas.tile_count);
    }
    // The animation's own size is the largest frame size within it.
    assert_eq!(anim.width, 2);
    assert_eq!(anim.height, 2);
    assert_eq!(anim.frames[1].width, 1);
    assert_eq!(anim.frames[1].height, 2);
    // The narrower frame's tile grows a zero column on the right of each row.
    let tile2 = &anim.atlas.buffer[16..32];
    assert_eq!(
        tile2,
        &[0, 248, 0, 255, 0, 0, 0, 0, 0, 248, 0, 255, 0, 0, 0, 0]
    );
}

#[test]
fn eight_bit_frame_resolves_through_palette() {
    let mut palette = vec![0u8; 1024];
    // Entry 7: a recognizable RGBA value.
    palette[28] = 10;
    palette[29] = 20;
    palette[30] = 30;
    palette[31] = 40;
    // Entry 3 is the hotspot pixel's colour; its pixels become transparent.
    palette[12] = 99;
    let file = ani_file(
        &[fram(&cimg8_body(2, 1, (1, 0), &palette, &[7, 3]), true)],
        &[seq(b"PAL", &[(0, 0, 0)])],
    );
    let bundle = decode_animation_bundle(&file).unwrap();
    let anim = bundle.get("PAL").unwrap();
    assert_eq!(anim.atlas.buffer, vec![10, 20, 30, 40, 0, 0, 0, 0]);
}

#[test]
fn duplicate_names_resolve_to_the_last_animation() {
    let file = ani_file(
        &[
            fram(&cimg16_body(1, 1, 0x0000, &[0x7FFF]), true),
            fram(&cimg16_body(1, 1, 0x0000, &[0x7FFF]), true),
        ],
        &[seq(b"A", &[(0, 0, 0)]), seq(b"A", &[(1, 5, 6)])],
    );
    let bundle = decode_animation_bundle(&file).unwrap();
    assert_eq!(bundle.animations.len(), 2);
    let anim = bundle.get("A").unwrap();
    assert_eq!(anim.frames[0].index, 1);
    assert_eq!(anim.frames[0].offset_x, 5);
}

#[test]
fn unknown_name_finds_nothing() {
    let file = ani_file(
        &[fram(&cimg16_body(1, 1, 0x0000, &[0x7FFF]), true)],
        &[seq(b"A", &[(0, 0, 0)])],
    );
    let bundle = decode_animation_bundle(&file).unwrap();
    assert!(bundle.get("B").is_none());
}

#[test]
fn empty_sequence_is_malformed() {
    let file = ani_file(
        &[fram(&cimg16_body(1, 1, 0x0000, &[0x7FFF]), true)],
        &[seq(b"EMPTY", &[])],
    );
    assert!(matches!(decode_animation_bundle(&file), Err(DecodeError::MalformedHeader)));
}

#[test]
fn file_without_frames_is_malformed() {
    let file = ani_file(&[], &[seq(b"A", &[(0, 0, 0)])]);
    assert!(matches!(decode_animation_bundle(&file), Err(DecodeError::MalformedHeader)));
}

#[test]
fn bad_magic_is_malformed() {
    let mut file = ani_file(
        &[fram(&cimg16_body(1, 1, 0x0000, &[0x7FFF]), true)],
        &[seq(b"A", &[(0, 0, 0)])],
    );
    file[0] = b'X';
    assert!(matches!(decode_animation_bundle(&file), Err(DecodeError::MalformedHeader)));
}

#[test]
fn short_file_is_truncated() {
    assert!(matches!(decode_animation_bundle(b"CHFILEANI "), Err(DecodeError::TruncatedData)));
}

#[test]
fn unsupported_image_format_code_is_rejected() {
    let mut body = cimg16_body(1, 1, 0x0000, &[0x7FFF]);
    body[0] = 0x05; // neither 0x0004 nor 0x000B
    let file = ani_file(&[fram(&body, true)], &[seq(b"A", &[(0, 0, 0)])]);
    assert!(matches!(decode_animation_bundle(&file), Err(DecodeError::UnsupportedVariant)));
}

#[test]
fn empty_additional_header_means_the_palette_is_missing() {
    let mut body = cimg16_body(1, 1, 0x0000, &[0x7FFF]);
    body[4] = 32; // additional size exactly 32: a zero-byte palette
    let file = ani_file(&[fram(&body, true)], &[seq(b"A", &[(0, 0, 0)])]);
    assert!(matches!(decode_animation_bundle(&file), Err(DecodeError::PaletteMissing)));
}

#[test]
fn eight_bit_frame_without_palette_is_rejected() {
    let mut body = cimg16_body(1, 1, 0x0000, &[0x7FFF]);
    body[0] = 0x0B; // palette-indexed, but no embedded palette follows
    let file = ani_file(&[fram(&body, true)], &[seq(b"A", &[(0, 0, 0)])]);
    assert!(matches!(decode_animation_bundle(&file), Err(DecodeError::PaletteMissing)));
}

#[test]
fn wrong_chunk_in_sequence_is_unexpected() {
    // Replace the STAT tag with an unknown one.
    let mut s = seq(b"A", &[(0, 0, 0)]);
    let pos = s
        .windows(4)
        .position(|w| w == b"STAT")
        .unwrap();
    s[pos] = b'X';
    let file = ani_file(&[fram(&cimg16_body(1, 1, 0x0000, &[0x7FFF]), true)], &[s]);
    assert!(matches!(decode_animation_bundle(&file), Err(DecodeError::UnexpectedChunk)));
}

#[test]
fn truncated_pixel_stream_is_truncated_data() {
    // Cut the file inside the pixel stream of its only frame.
    let mut file = ani_file(&[fram(&cimg16_body(1, 1, 0x0000, &[0x7FFF]), true)], &[]);
    file.truncate(file.len() - 2);
    assert!(matches!(decode_animation_bundle(&file), Err(DecodeError::TruncatedData)));
}
