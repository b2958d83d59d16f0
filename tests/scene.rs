use pyrite::engine::{Config, Context};
use pyrite::scene::{flip_byte, Modifier, Scene, TileCell, SCENE_SIDE, SCENE_TILE_COUNT};
use pyrite::tileset::{Image, TileRef, Tileset};

/// A 2x1 grid of 2x2-pixel tiles: the left one lit, the right one dark.
fn atlas() -> Tileset {
    let mut pixels = vec![0u8; 4 * 4 * 2];
    pixels[3] = 255;
    let image = Image { width: 4, height: 2, pixels };
    Tileset::new(image, (2, 1), vec!["wall".to_string(), "floor".to_string()])
}

fn config() -> Config {
    Config {
        application_name: "test".to_string(),
        application_version: "0.0.0".to_string(),
        viewport_scale: 2,
        viewport_width: 10,
        viewport_height: 10,
        tileset_width: 2,
        tileset_height: 1,
        tileset_path: "tiles.png".to_string(),
        tile_names: vec!["wall".to_string()],
    }
}

const WHITE: (u8, u8, u8) = (255, 255, 255);
const NO_FLIP: (bool, bool) = (false, false);

#[test]
fn flip_codes_are_the_four_values() {
    assert_eq!(flip_byte((false, false)), 0);
    assert_eq!(flip_byte((true, false)), 51);
    assert_eq!(flip_byte((false, true)), 102);
    assert_eq!(flip_byte((true, true)), 153);
}

#[test]
fn new_scene_is_blank_and_clean() {
    let scene = Scene::new();
    assert_eq!(scene.cells().len(), SCENE_TILE_COUNT);
    assert!(!scene.upload_pending());
    assert_eq!(scene.dirty_region(), ((SCENE_SIDE, SCENE_SIDE), (0, 0)));
    let c = scene.cells()[12345];
    assert_eq!(c.front, TileRef::Empty);
    assert_eq!(c.back, TileRef::Fill);
    assert_eq!(c.front_modifier, Modifier { r: 255, g: 255, b: 255, flip: 0 });
}

#[test]
fn set_tile_writes_and_dirties() {
    let ts = atlas();
    let mut scene = Scene::new();
    assert!(scene.set_tile(&ts, (3, 4), "wall", (1, 2, 3), (true, false), "fill", WHITE, (true, true)));
    assert!(scene.upload_pending());
    assert_eq!(scene.dirty_region(), ((3, 4), (3, 4)));
    let c = scene.cells()[4 * 1024 + 3];
    assert_eq!(c.front, TileRef::At(0, 0));
    assert_eq!(c.back, TileRef::Fill);
    assert_eq!(c.front_modifier, Modifier { r: 1, g: 2, b: 3, flip: 51 });
    assert_eq!(c.back_modifier, Modifier { r: 255, g: 255, b: 255, flip: 153 });
    assert!(scene.set_tile(&ts, (7, 1), "none", WHITE, NO_FLIP, "none", WHITE, NO_FLIP));
    assert_eq!(scene.dirty_region(), ((3, 1), (7, 4)));
}

#[test]
fn set_tile_twice_dirties_once() {
    let ts = atlas();
    let mut scene = Scene::new();
    assert!(scene.set_tile(&ts, (5, 5), "wall", WHITE, NO_FLIP, "none", WHITE, NO_FLIP));
    let region = scene.dirty_region();
    assert!(!scene.set_tile(&ts, (5, 5), "wall", WHITE, NO_FLIP, "none", WHITE, NO_FLIP));
    assert_eq!(scene.dirty_region(), region);
}

#[test]
fn set_tile_with_unknown_name_is_ignored() {
    let ts = atlas();
    let mut scene = Scene::new();
    assert!(!scene.set_tile(&ts, (0, 0), "ghost", WHITE, NO_FLIP, "none", WHITE, NO_FLIP));
    assert!(!scene.set_tile(&ts, (0, 0), "wall", WHITE, NO_FLIP, "ghost", WHITE, NO_FLIP));
    assert!(!scene.upload_pending());
    assert_eq!(scene.dirty_region(), ((SCENE_SIDE, SCENE_SIDE), (0, 0)));
}

#[test]
fn set_tile_off_grid_is_ignored() {
    let ts = atlas();
    let mut scene = Scene::new();
    assert!(!scene.set_tile(&ts, (-1, 0), "wall", WHITE, NO_FLIP, "none", WHITE, NO_FLIP));
    assert!(!scene.set_tile(&ts, (1024, 0), "wall", WHITE, NO_FLIP, "none", WHITE, NO_FLIP));
    assert!(!scene.set_tile(&ts, (0, 1024), "wall", WHITE, NO_FLIP, "none", WHITE, NO_FLIP));
    assert!(scene.set_tile(&ts, (1023, 1023), "wall", WHITE, NO_FLIP, "none", WHITE, NO_FLIP));
}

#[test]
fn upload_hands_out_the_dirty_rectangle() {
    let ts = atlas();
    let mut scene = Scene::new();
    assert!(scene.upload().is_none());
    scene.set_tile(&ts, (2, 3), "wall", (9, 9, 9), NO_FLIP, "none", WHITE, NO_FLIP);
    scene.set_tile(&ts, (4, 5), "fill", (8, 8, 8), NO_FLIP, "wall", WHITE, NO_FLIP);
    let batch = scene.upload().unwrap();
    assert_eq!((batch.x, batch.y, batch.width, batch.height), (2, 3, 3, 3));
    assert_eq!(batch.cells.len(), 9);
    assert_eq!(batch.cells[0].front, TileRef::At(0, 0));
    assert_eq!(batch.cells[0].front_modifier.r, 9);
    assert_eq!(batch.cells[8].front, TileRef::Fill);
    assert_eq!(batch.cells[8].back, TileRef::At(0, 0));
    let untouched: TileCell = batch.cells[1];
    assert_eq!(untouched.front, TileRef::Empty);
    assert!(!scene.upload_pending());
    assert_eq!(scene.dirty_region(), ((SCENE_SIDE, SCENE_SIDE), (0, 0)));
    assert!(scene.upload().is_none());
}

#[test]
fn present_frame_once_after_a_write() {
    let mut ctx = Context::new(&config(), atlas()).unwrap();
    assert!(ctx.present_frame().is_some());
    ctx.set_tile((0, 0), "wall", WHITE, NO_FLIP, "none", WHITE, NO_FLIP);
    let frame = ctx.present_frame().unwrap();
    let batch = frame.upload.unwrap();
    assert_eq!((batch.x, batch.y, batch.width, batch.height), (0, 0, 1, 1));
    assert_eq!(frame.viewport_size, (10, 10));
    assert_eq!(frame.tile_size, (2, 2));
    assert_eq!(frame.framebuffer_size, (40, 40));
    assert_eq!(frame.scale, 2);
    assert!(ctx.present_frame().is_none());
}

#[test]
fn present_frame_skips_after_unknown_tile() {
    let mut ctx = Context::new(&config(), atlas()).unwrap();
    assert!(ctx.present_frame().is_some());
    assert!(!ctx.set_tile((0, 0), "ghost", WHITE, NO_FLIP, "none", WHITE, NO_FLIP));
    assert!(!ctx.scene().upload_pending());
    assert!(ctx.present_frame().is_none());
}

#[test]
fn set_tile_outside_viewport_changes_nothing() {
    let mut ctx = Context::new(&config(), atlas()).unwrap();
    assert!(ctx.present_frame().is_some());
    assert!(!ctx.set_tile((10, 0), "wall", WHITE, NO_FLIP, "none", WHITE, NO_FLIP));
    assert!(!ctx.set_tile((0, 10), "wall", WHITE, NO_FLIP, "none", WHITE, NO_FLIP));
    assert!(!ctx.set_tile((-1, 3), "wall", WHITE, NO_FLIP, "none", WHITE, NO_FLIP));
    assert!(!ctx.scene().upload_pending());
    assert!(ctx.present_frame().is_none());
    assert!(ctx.set_tile((9, 9), "wall", WHITE, NO_FLIP, "none", WHITE, NO_FLIP));
}

#[test]
fn set_viewport_owes_a_frame() {
    let mut ctx = Context::new(&config(), atlas()).unwrap();
    assert!(ctx.present_frame().is_some());
    assert!(ctx.set_viewport(20, 1, 0));
    assert_eq!(ctx.get_viewport().get_dimensions(), (20, 3));
    assert_eq!(ctx.framebuffer_size(), (40, 6));
    let frame = ctx.present_frame().unwrap();
    assert!(frame.upload.is_none());
    assert_eq!(frame.viewport_size, (20, 3));
}
