use tetris::cfg::Settings;
use tetris::size::Size;

#[test]
fn settings_defaults() {
    let s = Settings::new();
    assert_eq!(s.window_size, (500, 700));
    assert_eq!(s.speed, 200);
    let d = Settings::default();
    assert_eq!(d.window_size, (500, 700));
    assert_eq!(d.speed, 200);
}

#[test]
fn size_defaults_and_conversion() {
    let s = Size::window_default();
    assert_eq!(s.width, 400);
    assert_eq!(s.height, 800);
    let t = Size::from((640, 480));
    assert_eq!(t.width, 640);
    assert_eq!(t.height, 480);
}
