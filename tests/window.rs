use bronze::engine::{frame_step, MAX_FRAME_NANOS};
use bronze::window::{Color, FPSConfig, WindowMode};

#[test]
fn fps_policy_settings() {
    assert!(FPSConfig::VSync.vertical_sync());
    assert_eq!(FPSConfig::VSync.framerate_limit(), 0);
    assert!(!FPSConfig::Unlimited.vertical_sync());
    assert_eq!(FPSConfig::Unlimited.framerate_limit(), 0);
    assert!(!FPSConfig::Limited(60).vertical_sync());
    assert_eq!(FPSConfig::Limited(60).framerate_limit(), 60);
}

#[test]
fn window_mode_from_size() {
    let m: WindowMode = (960, 540).into();
    assert_eq!(m, WindowMode::Windowed { width: 960, height: 540 });
    assert_ne!(m, WindowMode::Fullscreen);
}

#[test]
fn colors() {
    assert_eq!(Color::rgb(1, 2, 3), Color(1, 2, 3, 255));
    assert_eq!(Color::rgba(1, 2, 3, 4), Color(1, 2, 3, 4));
}

#[test]
fn frame_step_is_capped() {
    assert_eq!(frame_step(16_000_000), 16_000_000);
    assert_eq!(frame_step(MAX_FRAME_NANOS), 33_333_333);
    assert_eq!(frame_step(250_000_000), 33_333_333);
    assert_eq!(frame_step(0), 0);
}
