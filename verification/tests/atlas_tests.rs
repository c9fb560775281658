use atomic_bomberman::atlas::build_atlas;
use atomic_bomberman::error::DecodeError;
use atomic_bomberman::image::FrameImage;

fn solid_image(width: u32, height: u32, byte: u8) -> FrameImage {
    FrameImage { width, height, data: vec![byte; (4 * width * height) as usize] }
}

#[test]
fn atlas_of_mismatched_frames_pads_the_narrow_one() {
    // A 2x2 frame of ones and a 1x2 frame of twos combine into 2x2 tiles;
    // the narrower frame grows one zero column per row.
    let images = vec![solid_image(2, 2, 1), solid_image(1, 2, 2)];
    let atlas = build_atlas(&images).unwrap();
    assert_eq!(atlas.tile_width, 2);
    assert_eq!(atlas.tile_height, 2);
    assert_eq!(atlas.tile_count, 2);
    assert_eq!(atlas.buffer.len(), 2 * 2 * 2 * 4);
    let mut expected = vec![1u8; 16];
    // Second tile: each row holds one pixel of twos and one zero pixel.
    expected.extend_from_slice(&[2, 2, 2, 2, 0, 0, 0, 0]);
    expected.extend_from_slice(&[2, 2, 2, 2, 0, 0, 0, 0]);
    assert_eq!(atlas.buffer, expected);
}

#[test]
fn atlas_pads_short_frames_with_transparent_rows() {
    let images = vec![solid_image(1, 2, 3), solid_image(1, 1, 4)];
    let atlas = build_atlas(&images).unwrap();
    assert_eq!(atlas.tile_width, 1);
    assert_eq!(atlas.tile_height, 2);
    assert_eq!(atlas.tile_count, 2);
    let mut expected = vec![3u8; 8];
    expected.extend_from_slice(&[4, 4, 4, 4, 0, 0, 0, 0]);
    assert_eq!(atlas.buffer, expected);
}

#[test]
fn atlas_of_uniform_frames_concatenates_them() {
    let images = vec![solid_image(2, 1, 5), solid_image(2, 1, 6)];
    let atlas = build_atlas(&images).unwrap();
    assert_eq!(atlas.tile_width, 2);
    assert_eq!(atlas.tile_height, 1);
    let mut expected = vec![5u8; 8];
    expected.extend_from_slice(&[6u8; 8]);
    assert_eq!(atlas.buffer, expected);
}

#[test]
fn atlas_of_no_frames_is_malformed() {
    let images: Vec<FrameImage> = Vec::new();
    assert!(matches!(build_atlas(&images), Err(DecodeError::MalformedHeader)));
}
