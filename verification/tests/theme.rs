use explorer::render::RgbValue;
use explorer::theme::{
    HelixTheme, ThemeValue, lsp_token_scopes, parse_hex_color, parse_theme, theme_from_table,
};

fn rgb(red: u8, green: u8, blue: u8) -> RgbValue {
    RgbValue::new(red, green, blue)
}

#[test]
fn hexadecimal_colors() {
    assert_eq!(parse_hex_color("#0aF9ff"), Some(rgb(10, 249, 255)));
    assert_eq!(parse_hex_color("#abc"), Some(rgb(0xaa, 0xbb, 0xcc)));
    assert_eq!(parse_hex_color("red"), None);
    assert_eq!(parse_hex_color("#12345"), None);
    assert_eq!(parse_hex_color("#xyzxyz"), None);
}

#[test]
fn themes_are_read_from_text() {
    let raw = parse_theme(
        "inherits = \"base\"\n\"ui.text\" = \"red\"\nkeyword = { fg = \"#010203\", bg = \"red\" }\n[palette]\nred = \"#ff0000\"\n",
    );
    assert_eq!(raw.inherits.as_deref(), Some("base"));
    let theme = HelixTheme::from_chain("mine", &vec![raw]);
    assert_eq!(theme.name(), "mine");
    assert_eq!(theme.ui_fg("ui.text"), Some(rgb(255, 0, 0)));
    assert_eq!(theme.ui_bg("ui.text"), None);
    assert_eq!(theme.color_for_scope("keyword"), Some(rgb(1, 2, 3)));
    assert_eq!(theme.ui_bg("keyword"), Some(rgb(255, 0, 0)));
}

#[test]
fn text_that_is_no_theme_gives_an_empty_one() {
    let raw = parse_theme("= = =");
    assert!(raw.palette.is_empty());
    assert!(raw.styles.is_empty());
    assert_eq!(raw.inherits, None);
}

#[test]
fn scopes_fall_back_to_wider_ones() {
    let raw = theme_from_table(vec![(
        "function".to_string(),
        ThemeValue::Text("#000102".to_string()),
    )]);
    let theme = HelixTheme::from_chain("t", &vec![raw]);
    assert_eq!(theme.color_for_scope("function.macro.special"), Some(rgb(0, 1, 2)));
    assert_eq!(theme.color_for_scope("func"), None);
    assert_eq!(theme.color_for_lsp_token("method"), Some(rgb(0, 1, 2)));
    assert!(lsp_token_scopes("nothing of the kind").is_empty());
}

#[test]
fn inherited_styles_are_overridden() {
    let list: Vec<(&'static str, &'static str)> = vec![
        ("base", "\"ui.text\" = \"#000001\"\n\"ui.cursor\" = \"#000002\"\n"),
        ("top", "inherits = \"base\"\n\"ui.text\" = \"#000003\"\n"),
        ("loop", "inherits = \"loop\"\n\"ui.text\" = \"#000004\"\n"),
    ];
    let theme = HelixTheme::from_list(&list, "top").unwrap();
    assert_eq!(theme.ui_fg("ui.text"), Some(rgb(0, 0, 3)));
    assert_eq!(theme.ui_fg("ui.cursor"), Some(rgb(0, 0, 2)));
    assert!(HelixTheme::from_list(&list, "none").is_none());
    let looped = HelixTheme::from_list(&list, "loop").unwrap();
    assert_eq!(looped.ui_fg("ui.text"), Some(rgb(0, 0, 4)));
}

#[test]
fn there_is_a_default_theme() {
    let theme = HelixTheme::default();
    assert!(HelixTheme::theme_names().contains(&theme.name()));
    assert_eq!(theme.copy().name(), theme.name());
    assert!(HelixTheme::from_name(theme.name()).is_some());
    assert!(HelixTheme::from_name("no such theme").is_none());
}
