use atomic_bomberman::error::DecodeError;
use atomic_bomberman::list::AnimationList;
use atomic_bomberman::palette::{ColorPalette, ColorRemapTable, PALETTE_SIZE, TABLE_SIZE};
use atomic_bomberman::scheme::{Cell, PowerupInfo, Scheme};

#[test]
fn color_palette_accepts_the_exact_size() {
    let bytes = vec![7u8; PALETTE_SIZE];
    let palette = ColorPalette::new(&bytes).unwrap();
    assert_eq!(palette.bytes().len(), PALETTE_SIZE);
    assert_eq!(palette.bytes()[0], 7);
}

#[test]
fn color_palette_rejects_other_sizes() {
    let bytes = vec![7u8; PALETTE_SIZE - 1];
    assert!(matches!(
        ColorPalette::new(&bytes),
        Err(DecodeError::MalformedHeader)
    ));
    let bytes = vec![7u8; PALETTE_SIZE + 1];
    assert!(matches!(
        ColorPalette::new(&bytes),
        Err(DecodeError::MalformedHeader)
    ));
}

#[test]
fn color_remap_table_accepts_the_exact_size() {
    let bytes = vec![9u8; TABLE_SIZE];
    let table = ColorRemapTable::new(&bytes).unwrap();
    assert_eq!(table.bytes().len(), TABLE_SIZE);
}

#[test]
fn color_remap_table_rejects_other_sizes() {
    let bytes = vec![9u8; 256];
    assert!(matches!(
        ColorRemapTable::new(&bytes),
        Err(DecodeError::MalformedHeader)
    ));
}

#[test]
fn new_scheme_is_blank() {
    let scheme = Scheme::new();
    assert_eq!(scheme.version, 0);
    assert_eq!(scheme.name, "");
    assert_eq!(scheme.brick_density, 0);
    for row in &scheme.grid {
        for cell in row {
            assert_eq!(*cell, Cell::Blank);
        }
    }
    for loc in &scheme.player_start_locs {
        assert_eq!(*loc, (0, 0));
    }
    for info in &scheme.powerup_infos {
        assert_eq!(
            *info,
            PowerupInfo { born_with: false, override_value: None, forbidden: false }
        );
    }
}

#[test]
fn cell_defaults_to_blank() {
    assert_eq!(Cell::default(), Cell::Blank);
}

#[test]
fn empty_animation_list_has_no_names() {
    let list = AnimationList::new();
    assert_eq!(list.len(), 0);
    let list = AnimationList(vec![String::from("WALK.ANI")]);
    assert_eq!(list.len(), 1);
    assert_eq!(list.0[0], "WALK.ANI");
}
