//! Options and themes.

use mermaid_svg_render::{RenderOptions, Theme, ThemeColors};

#[test]
fn light_palette() {
    let colors = ThemeColors::light();
    assert_eq!(colors.background, "#ffffff");
    assert_eq!(colors.text, "#333333");
    assert_eq!(colors.line, "#333333");
    assert_eq!(colors.participant_bg, "#ecf0f1");
    assert_eq!(colors.participant_border, "#333333");
}

#[test]
fn dark_palette() {
    let colors = ThemeColors::dark();
    assert_eq!(colors.background, "#1a1a2e");
    assert_eq!(colors.text, "#eaeaea");
    assert_eq!(colors.line, "#eaeaea");
    assert_eq!(colors.participant_bg, "#16213e");
    assert_eq!(colors.participant_border, "#eaeaea");
}

#[test]
fn default_options() {
    let options = RenderOptions::default();
    assert_eq!(options.theme, Theme::Light);
    assert_eq!(options.width, None);
    assert_eq!(options.height, None);
    assert_eq!(options.padding, 20);
    assert_eq!(options.font_family, "Arial, sans-serif");
    assert_eq!(options.font_size, 14);
    assert!(!options.transparent_bg);
}

#[test]
fn default_theme_is_light() {
    assert_eq!(Theme::default(), Theme::Light);
}

#[test]
fn with_theme_changes_only_the_theme() {
    let options = RenderOptions::with_theme(Theme::Dark);
    assert_eq!(options.theme, Theme::Dark);
    assert_eq!(options.width, None);
    assert_eq!(options.height, None);
    assert_eq!(options.padding, 20);
    assert_eq!(options.font_family, "Arial, sans-serif");
    assert_eq!(options.font_size, 14);
    assert!(!options.transparent_bg);
}

#[test]
fn colors_follow_the_theme() {
    assert_eq!(RenderOptions::with_theme(Theme::Light).colors().background, "#ffffff");
    assert_eq!(RenderOptions::with_theme(Theme::Dark).colors().background, "#1a1a2e");
}

#[test]
fn transparent_changes_only_the_background() {
    let mut before = RenderOptions::with_theme(Theme::Dark);
    before.width = Some(640);
    before.font_size = 18;
    let after = before.clone().transparent();
    assert!(after.transparent_bg);
    assert_eq!(after.theme, Theme::Dark);
    assert_eq!(after.width, Some(640));
    assert_eq!(after.height, None);
    assert_eq!(after.padding, 20);
    assert_eq!(after.font_family, "Arial, sans-serif");
    assert_eq!(after.font_size, 18);
}
