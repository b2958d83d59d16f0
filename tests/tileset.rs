use pyrite::tileset::{Image, TileRef, Tileset, TilesetError};

/// Three columns and two rows of 1x1 tiles; `lit` picks which are filled.
fn grid(lit: &[usize]) -> Image {
    let mut pixels = vec![0u8; 4 * 6];
    for &i in lit {
        pixels[4 * i + 1] = 7;
    }
    Image { width: 3, height: 2, pixels }
}

fn names(list: &[&str]) -> Vec<String> {
    list.iter().map(|s| s.to_string()).collect()
}

#[test]
fn filled_tiles_get_names_in_row_major_order() {
    let ts = Tileset::new(grid(&[1, 3, 5]), (3, 2), names(&["a", "b", "c"]));
    assert_eq!(ts.get_tile_location("a"), Some(TileRef::At(1, 0)));
    assert_eq!(ts.get_tile_location("b"), Some(TileRef::At(0, 1)));
    assert_eq!(ts.get_tile_location("c"), Some(TileRef::At(2, 1)));
    assert!(ts.unnamed_tiles().is_empty());
    assert_eq!(ts.get_dimensions_u32(), (3, 2));
    assert_eq!(ts.get_tile_dimensions(), (1, 1));
}

#[test]
fn reserved_and_unknown_names() {
    let ts = Tileset::new(grid(&[0]), (3, 2), names(&["a"]));
    assert_eq!(ts.get_tile_location("none"), Some(TileRef::Empty));
    assert_eq!(ts.get_tile_location("fill"), Some(TileRef::Fill));
    assert_eq!(ts.get_tile_location("ghost"), None);
}

#[test]
fn leftover_tiles_are_reported() {
    let ts = Tileset::new(grid(&[0, 2, 4]), (3, 2), names(&["a"]));
    assert_eq!(ts.get_tile_location("a"), Some(TileRef::At(0, 0)));
    assert_eq!(ts.unnamed_tiles(), &vec![(2, 0), (1, 1)]);
}

#[test]
fn leftover_names_are_dropped() {
    let ts = Tileset::new(grid(&[4]), (3, 2), names(&["a", "b"]));
    assert_eq!(ts.get_tile_location("a"), Some(TileRef::At(1, 1)));
    assert_eq!(ts.get_tile_location("b"), None);
}

#[test]
fn repeated_name_keeps_the_later_tile() {
    let ts = Tileset::new(grid(&[0, 1]), (3, 2), names(&["a", "a"]));
    assert_eq!(ts.get_tile_location("a"), Some(TileRef::At(1, 0)));
}

#[test]
fn larger_tiles_are_scanned_whole() {
    // a 4x4 image of 2x2 tiles; only the bottom-right pixel of tile (1, 1) is lit
    let mut pixels = vec![0u8; 4 * 16];
    pixels[4 * 15 + 2] = 1;
    let ts = Tileset::new(Image { width: 4, height: 4, pixels }, (2, 2), names(&["x"]));
    assert_eq!(ts.get_tile_dimensions(), (2, 2));
    assert_eq!(ts.get_tile_location("x"), Some(TileRef::At(1, 1)));
}

#[test]
fn from_image_bytes_rejects_bad_input() {
    assert!(matches!(
        Tileset::from_image_bytes(&[1, 2, 3], (0, 1), Vec::new()),
        Err(TilesetError::EmptyGrid)
    ));
    assert!(matches!(
        Tileset::from_image_bytes(&[1, 2, 3], (1, 1), Vec::new()),
        Err(TilesetError::Undecodable)
    ));
}

#[test]
fn from_image_bytes_decodes_png() {
    let mut raw = vec![0u8; 4 * 4];
    raw[4 * 3] = 200;
    let img = image::RgbaImage::from_raw(2, 2, raw).unwrap();
    let mut png = Vec::new();
    image::DynamicImage::ImageRgba8(img)
        .write_to(&mut png, image::ImageOutputFormat::Png)
        .unwrap();
    let ts = Tileset::from_image_bytes(&png, (2, 2), names(&["corner"])).unwrap();
    assert_eq!(ts.get_tile_location("corner"), Some(TileRef::At(1, 1)));
    assert_eq!(ts.image().width, 2);
    assert_eq!(ts.image().pixels.len(), 16);
}
