use playlist_aggregator::boxy::BoxConfig;
use playlist_aggregator::color::Color;

#[test]
fn draws_box_ripples_and_shadow() {
    let config = BoxConfig::new(4, 2, 1, 2, "Hi".to_string());
    let lines = config.draw();
    assert_eq!(
        lines,
        vec![
            "        ───────┐".to_string(),
            "      ───────┐ │".to_string(),
            "    ┌──────┐ │ │".to_string(),
            "    │      │ │ │ │".to_string(),
            "    │  Hi  │ │ │ │ │".to_string(),
            "    │      │ │ │".to_string(),
            "    └──────┘ │".to_string(),
        ],
    );
}

#[test]
fn draws_flat_box_without_ripples() {
    let config = BoxConfig::new(0, 0, 0, 1, "x".to_string());
    let lines = config.draw();
    assert_eq!(
        lines,
        vec![
            "┌───┐".to_string(),
            "│ x │ │".to_string(),
            "└───┘ │ │".to_string(),
        ],
    );
}

#[test]
fn colors_are_ansi_escape_codes() {
    assert_eq!(Color::reset().ansi(), "\u{1b}[0m");
    assert_eq!(Color::cyan().ansi(), "\u{1b}[0;36m");
    assert_eq!(Color::yellow().ansi(), "\u{1b}[0;33m");
    assert_eq!(Color::green().ansi(), "\u{1b}[0;32m");
    assert_eq!(Color::red().ansi(), "\u{1b}[0;31m");
}
