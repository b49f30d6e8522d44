use rustgames::engine_mode::{EngineMode, RustGamesEngine};

#[test]
fn modes_are_named_in_any_case() {
    assert_eq!(EngineMode::from_str("3d"), EngineMode::Mode3D);
    assert_eq!(EngineMode::from_str("2D"), EngineMode::Mode2D);
    assert_eq!(EngineMode::from_str("Console"), EngineMode::Console);
    assert_eq!(EngineMode::from_str("CONSOLE"), EngineMode::Console);
    // unknown names fall back to 3D
    assert_eq!(EngineMode::from_str("vr"), EngineMode::Mode3D);
    assert_eq!(EngineMode::from_str(""), EngineMode::Mode3D);
    assert_eq!(EngineMode::from_str("2d "), EngineMode::Mode3D);
}

#[test]
fn the_engine_starts_on_its_canvas() {
    let e = RustGamesEngine::init("2d", "maze3d-canvas");
    assert!(e.is_2d() && !e.is_3d());
    assert_eq!(e.canvas_id, "maze3d-canvas");
    let e = RustGamesEngine::init("headless", "");
    assert!(e.is_3d());
}
