use pyrite::engine::{Config, Engine, EngineState, LoadError};
use pyrite::input::Event;
use pyrite::resources::{PackagedProvider, Provider};
use pyrite::tileset::TileRef;

/// A 2x1 atlas of 2x2 tiles, the left one lit, as PNG bytes.
fn atlas_png() -> Vec<u8> {
    let mut raw = vec![0u8; 4 * 8];
    raw[0] = 10;
    let img = image::RgbaImage::from_raw(4, 2, raw).unwrap();
    let mut png = Vec::new();
    image::DynamicImage::ImageRgba8(img)
        .write_to(&mut png, image::ImageOutputFormat::Png)
        .unwrap();
    png
}

fn provider() -> PackagedProvider {
    let pkg = PackagedProvider::create_packaged_data(&vec![
        ("tiles.png".to_string(), atlas_png()),
        ("readme.txt".to_string(), b"hello".to_vec()),
    ])
    .unwrap();
    PackagedProvider::from_package(&pkg).unwrap()
}

fn config(path: &str) -> Config {
    Config {
        application_name: "game".to_string(),
        application_version: "1.0.0".to_string(),
        viewport_scale: 1,
        viewport_width: 4,
        viewport_height: 3,
        tileset_width: 2,
        tileset_height: 1,
        tileset_path: path.to_string(),
        tile_names: vec!["wall".to_string()],
    }
}

/// A provider with nothing in it.
struct Nothing;

impl Provider for Nothing {
    fn read_to_string(&self, _path: &str) -> Option<String> {
        None
    }

    fn read_to_bytes(&self, _path: &str) -> Option<Vec<u8>> {
        None
    }

    fn contains(&self, _path: &str) -> bool {
        false
    }
}

#[test]
fn lifecycle_runs_then_exits_once() {
    let mut engine = Engine::new(provider());
    assert_eq!(engine.state(), EngineState::Starting);
    engine.load_configuration(config("tiles.png")).unwrap();
    assert_eq!(engine.state(), EngineState::Loading);
    assert_eq!(engine.run(config("other.png")), Ok(true));
    assert_eq!(engine.state(), EngineState::Running);
    assert!(engine.render().is_some());
    assert!(engine.render().is_none());
    engine.exit();
    assert_eq!(engine.state(), EngineState::Exiting);
    assert!(!engine.get_running());
    assert!(engine.context().is_some());
    assert_eq!(engine.run(config("tiles.png")), Ok(false));
    assert!(engine.context().is_none());
    assert!(!engine.clean());
    assert_eq!(engine.run(config("tiles.png")), Ok(false));
}

#[test]
fn close_request_ends_the_loop() {
    let mut engine = Engine::new(provider());
    assert_eq!(engine.run(config("tiles.png")), Ok(true));
    engine.input_mut().request_close();
    assert_eq!(engine.run(config("tiles.png")), Ok(false));
    assert_eq!(engine.state(), EngineState::Exiting);
}

#[test]
fn load_errors_leave_the_engine_starting() {
    let mut engine = Engine::new(Nothing);
    assert_eq!(engine.load_configuration(config("tiles.png")), Err(LoadError::MissingTileset));
    assert_eq!(engine.state(), EngineState::Starting);
    let mut engine = Engine::new(provider());
    assert_eq!(engine.run(config("readme.txt")), Err(LoadError::UndecodableTileset));
    let mut grid = config("tiles.png");
    grid.tileset_width = 0;
    assert_eq!(engine.run(grid), Err(LoadError::EmptyTilesetGrid));
    let mut huge = config("tiles.png");
    huge.viewport_scale = i32::MAX;
    huge.viewport_width = 1024;
    assert_eq!(engine.run(huge), Err(LoadError::FramebufferTooLarge));
    assert_eq!(engine.state(), EngineState::Starting);
}

#[test]
fn configure_takes_the_bytes_directly() {
    let mut engine = Engine::new(Nothing);
    let png = atlas_png();
    assert_eq!(engine.configure(config("x"), None), Err(LoadError::MissingTileset));
    assert_eq!(engine.configure(config("x"), Some(&png[..])), Ok(()));
    assert_eq!(engine.state(), EngineState::Loading);
}

#[test]
fn tiles_and_frames() {
    let mut engine = Engine::new(provider());
    engine.run(config("tiles.png")).unwrap();
    assert!(engine.render().is_some());
    assert!(engine.set_tile((0, 0), "wall".into(), (0, 0, 0), (false, false), "none".into(), (0, 0, 0), (false, false)));
    assert!(!engine.set_tile((0, 0), "wall".into(), (0, 0, 0), (false, false), "none".into(), (0, 0, 0), (false, false)));
    assert!(!engine.set_tile((1, 0), "ghost".into(), (0, 0, 0), (false, false), "none".into(), (0, 0, 0), (false, false)));
    assert!(!engine.set_tile((4, 0), "wall".into(), (0, 0, 0), (false, false), "none".into(), (0, 0, 0), (false, false)));
    let frame = engine.render().unwrap();
    let batch = frame.upload.unwrap();
    assert_eq!((batch.x, batch.y, batch.width, batch.height), (0, 0, 1, 1));
    assert_eq!(batch.cells[0].front, TileRef::At(0, 0));
    assert!(engine.render().is_none());
}

#[test]
fn clear_tiles_blanks_the_viewport() {
    let mut engine = Engine::new(provider());
    engine.run(config("tiles.png")).unwrap();
    engine.set_tile((2, 1), "wall".into(), (1, 1, 1), (true, true), "fill".into(), (1, 1, 1), (false, false));
    engine.clear_tiles();
    let scene = engine.context().unwrap().scene();
    let cell = scene.cells()[1024 + 2];
    assert_eq!(cell.front, TileRef::Empty);
    assert_eq!(cell.back, TileRef::Empty);
    assert_eq!(cell.front_modifier.r, 0);
    assert_eq!(scene.dirty_region(), ((0, 0), (3, 2)));
    // outside the viewport the blank cells stay as they were
    assert_eq!(scene.cells()[4].back, TileRef::Fill);
}

#[test]
fn viewport_and_mouse() {
    let mut engine = Engine::new(provider());
    assert_eq!(engine.mouse_position((100, 100)), (0, 0));
    assert!(!engine.set_viewport(5, 5, 1));
    engine.run(config("tiles.png")).unwrap();
    assert!(engine.set_viewport(20, 10, 2));
    assert_eq!(engine.context().unwrap().framebuffer_size(), (80, 40));
    engine.input_mut().cursor_moved(40, 30);
    assert_eq!(engine.mouse_position((80, 40)), (10, 7));
}

#[test]
fn input_through_the_engine() {
    let mut engine = Engine::new(provider());
    engine.input_mut().key_event(57, Some("SPACE".to_string()), true);
    engine.input_mut().key_event(42, Some("LEFT_SHIFT".to_string()), true);
    assert!(engine.button_down("space+left_shift".to_string()));
    assert!(!engine.button_down("space+a".to_string()));
    let events = engine.poll_events();
    assert_eq!(events.len(), 4);
    assert!(matches!(&events[1], Event::Button { button, .. } if button == "SPACE"));
    assert!(engine.poll_events().is_empty());
}

#[test]
fn timesteps_per_label() {
    let mut engine = Engine::new(Nothing);
    assert!(!engine.timestep("x", 60, 1_000));
    assert!(!engine.timestep("x", 60, 1_000 + 16_666_666));
    assert!(engine.timestep("x", 60, 1_000 + 16_666_667));
    assert!(!engine.timestep("y", 60, 1_000 + 16_666_667));
    assert!(engine.timestep("y", 1, 2_000_000_000));
}

#[test]
fn resources_through_the_engine() {
    let engine = Engine::new(provider());
    assert_eq!(engine.resource_read("readme.txt".to_string()), "hello");
    assert_eq!(engine.resource_read("nope".to_string()), "");
    assert!(engine.resource_exists("tiles.png".to_string()));
    assert!(!engine.resource_exists("nope".to_string()));
}

#[test]
fn config_defaults() {
    let c = Config::default();
    assert_eq!(c.application_name, "default");
    assert_eq!(c.application_version, "0.0.0");
    assert_eq!((c.viewport_width, c.viewport_height, c.viewport_scale), (10, 10, 2));
    assert_eq!((c.tileset_width, c.tileset_height), (3, 3));
    assert_eq!(c.tileset_path, "default.png");
    assert!(c.tile_names.is_empty());
}

#[test]
fn clear_then_render_then_clear_owes_nothing() {
    let mut engine = Engine::new(provider());
    engine.run(config("tiles.png")).unwrap();
    engine.clear_tiles();
    assert!(engine.render().is_some());
    engine.clear_tiles();
    assert!(!engine.context().unwrap().scene().upload_pending());
    assert!(engine.render().is_none());
}

#[test]
fn run_on_a_configured_engine_never_fails() {
    let mut engine = Engine::new(provider());
    assert_eq!(engine.run(config("tiles.png")), Ok(true));
    assert_eq!(engine.run(config("missing.png")), Ok(true));
    engine.exit();
    assert_eq!(engine.run(config("missing.png")), Ok(false));
    assert!(!engine.timestep("x", 60, 5));
    assert!(engine.poll_events().is_empty());
    assert!(!engine.get_running());
}

#[test]
fn text_or_empty_passes_text_through() {
    assert_eq!(pyrite::engine::text_or_empty(Some("abc".to_string())), "abc");
    assert_eq!(pyrite::engine::text_or_empty(None), "");
}
