use delta::color::{parse_color, Color};
use delta::paint::{get_config, is_light_theme};
use syntect::highlighting::ThemeSet;
use syntect::parsing::SyntaxSet;

// The filter's default theme names come from a fuller asset bundle;
// syntect's stock theme set ships other names, so register them here.
fn assets() -> (SyntaxSet, ThemeSet) {
    let ss = SyntaxSet::load_defaults_newlines();
    let mut ts = ThemeSet::load_defaults();
    let dark = ts.themes["base16-ocean.dark"].clone();
    let light = ts.themes["base16-ocean.light"].clone();
    ts.themes.insert("Monokai Extended".to_string(), dark);
    ts.themes.insert("GitHub".to_string(), light);
    (ss, ts)
}

#[test]
fn light_theme_names() {
    assert!(is_light_theme("GitHub"));
    assert!(is_light_theme("Monokai Extended Light"));
    assert!(is_light_theme("OneHalfLight"));
    assert!(is_light_theme("ansi-light"));
    assert!(!is_light_theme("Monokai Extended"));
    assert!(!is_light_theme(""));
    assert!(!is_light_theme("github"));
}

#[test]
fn parse_color_six_digits() {
    assert_eq!(
        parse_color("#0a0B0c"),
        Some(Color { r: 10, g: 11, b: 12, a: 255 })
    );
}

#[test]
fn parse_color_three_digits() {
    // Three-digit colors keep the single digit values, as the theme loader does.
    assert_eq!(
        parse_color("#fff"),
        Some(Color { r: 15, g: 15, b: 15, a: 255 })
    );
}

#[test]
fn parse_color_eight_digits() {
    assert_eq!(
        parse_color("#01020380"),
        Some(Color { r: 1, g: 2, b: 3, a: 128 })
    );
}

#[test]
fn parse_color_rejects_garbage() {
    assert_eq!(parse_color(""), None);
    assert_eq!(parse_color("red"), None);
    assert_eq!(parse_color("#ggg"), None);
    assert_eq!(parse_color("#12345"), None);
    assert_eq!(parse_color("123456"), None);
}

#[test]
fn config_defaults_dark_theme() {
    let (ss, ts) = assets();
    let cfg = get_config(&ss, &None, &ts, false, &None, &None, false, None)
        .expect("default dark theme must resolve");
    assert_eq!(cfg.minus_color, Color { r: 0x3f, g: 0x00, b: 0x01, a: 0xff });
    assert_eq!(cfg.plus_color, Color { r: 0x01, g: 0x3b, b: 0x01, a: 0xff });
    assert_eq!(cfg.highlight_removed, false);
    assert_eq!(cfg.width, None);
    assert_eq!(cfg.pager, "less");
}

#[test]
fn config_defaults_light_theme() {
    let (ss, ts) = assets();
    let cfg = get_config(&ss, &None, &ts, true, &None, &None, true, Some(80))
        .expect("default light theme must resolve");
    assert_eq!(cfg.minus_color, Color { r: 0xff, g: 0xd0, b: 0xd0, a: 0xff });
    assert_eq!(cfg.plus_color, Color { r: 0xd0, g: 0xff, b: 0xd0, a: 0xff });
    assert_eq!(cfg.width, Some(80));
}

#[test]
fn config_uses_parseable_overrides() {
    let (ss, ts) = assets();
    let cfg = get_config(
        &ss,
        &None,
        &ts,
        false,
        &Some("#102030".to_string()),
        &Some("#405060".to_string()),
        false,
        None,
    )
    .expect("default dark theme must resolve");
    assert_eq!(cfg.plus_color, Color { r: 0x10, g: 0x20, b: 0x30, a: 0xff });
    assert_eq!(cfg.minus_color, Color { r: 0x40, g: 0x50, b: 0x60, a: 0xff });
}

#[test]
fn malformed_minus_override_falls_back_to_dark_default() {
    // A removed-color override that does not parse is silently ignored and
    // the dark-theme deep red stands, the active theme not being light.
    let (ss, ts) = assets();
    let cfg = get_config(
        &ss,
        &Some("Monokai Extended".to_string()),
        &ts,
        false,
        &None,
        &Some("not-a-color".to_string()),
        false,
        None,
    )
    .expect("Monokai Extended must resolve");
    assert_eq!(cfg.minus_color, Color { r: 0x3f, g: 0x00, b: 0x01, a: 0xff });
}

#[test]
fn unknown_theme_name_is_rejected() {
    let (ss, ts) = assets();
    let cfg = get_config(
        &ss,
        &Some("No Such Theme Anywhere".to_string()),
        &ts,
        false,
        &None,
        &None,
        false,
        None,
    );
    assert!(cfg.is_none());
}
