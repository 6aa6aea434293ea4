use explorer::config::{
    ConfigEntry, ConfigNode, ConfigValue, CountersConfig, parse, pick_text, read_nodes,
    update_theme_in_kdl,
};

fn entry(name: Option<&str>, value: ConfigValue) -> ConfigEntry {
    ConfigEntry { name: name.map(|n| n.to_string()), annotation: None, value }
}

fn text(value: &str) -> ConfigEntry {
    entry(None, ConfigValue::Text(value.to_string()))
}

fn number(value: &str) -> ConfigEntry {
    entry(None, ConfigValue::Other(value.to_string()))
}

fn node(name: &str, entries: Vec<ConfigEntry>, children: Option<Vec<ConfigNode>>) -> ConfigNode {
    ConfigNode { name: name.to_string(), annotation: None, entries, children }
}

#[test]
fn parses_theme_and_keybindings_block() {
    let content = r#"
            theme "night_owl"
            keybindings {
                quit "Q"
                open-terminal "t"
                resize-grow "ctrl+down"
                leader "alt+`"
            }
        "#;
    let config = parse(content).expect("valid config");
    assert_eq!(config.theme.as_deref(), Some("night_owl"));
    assert_eq!(
        config.keybindings,
        vec![
            ("quit".to_string(), "Q".to_string()),
            ("open-terminal".to_string(), "t".to_string()),
            ("resize-grow".to_string(), "ctrl+down".to_string()),
            ("leader".to_string(), "alt+`".to_string()),
        ]
    );
}

#[test]
fn counters_default_when_block_absent() {
    let config = parse("theme \"night_owl\"").expect("valid config");
    assert_eq!(config.counters, CountersConfig::default());
    assert!(config.counters.show);
    assert!(config.counters.render_counts_as_active);
}

#[test]
fn counters_block_toggles_both_options() {
    let config = parse("counters {\n    show #false\n    render-counts-as-active #false\n}")
        .expect("valid config");
    assert!(!config.counters.show);
    assert!(!config.counters.render_counts_as_active);
}

#[test]
fn counters_block_partial_keeps_other_default() {
    // Only `show` set -> render-counts-as-active stays at its default (true).
    let config = parse("counters {\n    show #false\n}").expect("valid config");
    assert!(!config.counters.show);
    assert!(config.counters.render_counts_as_active);
}

#[test]
fn counters_option_requires_a_boolean_argument() {
    assert!(parse("counters {\n    show \"yes\"\n}").is_err());
    assert!(parse("counters {\n    show\n}").is_err());
    assert_eq!(
        parse("counters {\n    wat 1\n}").unwrap_err(),
        "counters.wat must have a boolean argument"
    );
}

#[test]
fn counters_ignores_unknown_child_nodes() {
    let config = parse("counters {\n    show #false\n    wat #true\n}").expect("valid config");
    assert!(!config.counters.show);
}

#[test]
fn keybindings_are_empty_when_absent() {
    let config = parse("theme \"night_owl\"").expect("valid config");
    assert!(config.keybindings.is_empty());
}

#[test]
fn keybinding_without_key_argument_is_an_error() {
    assert!(parse("keybindings {\n quit\n }").is_err());
    assert_eq!(
        parse("keybindings {\n quit #true\n }").unwrap_err(),
        "keybinding 'quit' must have a string key argument"
    );
}

#[test]
fn saving_theme_preserves_existing_keybindings() {
    let original = "theme \"night_owl\"\nkeybindings {\n    quit \"z\"\n    leader \"ctrl+b\"\n}\n";
    let updated = update_theme_in_kdl(original, "catppuccin_mocha").expect("update ok");

    // Theme changed...
    let config = parse(&updated).expect("re-parse ok");
    assert_eq!(config.theme.as_deref(), Some("catppuccin_mocha"));
    // ...but every keybinding survived untouched.
    assert_eq!(
        config.keybindings,
        vec![
            ("quit".to_string(), "z".to_string()),
            ("leader".to_string(), "ctrl+b".to_string()),
        ]
    );
}

#[test]
fn saving_theme_into_a_keybindings_only_config_keeps_them() {
    // No theme node present yet: save must append theme without dropping bindings.
    let original = "keybindings {\n    quit \"z\"\n}\n";
    let updated = update_theme_in_kdl(original, "night_owl").expect("update ok");
    let config = parse(&updated).expect("re-parse ok");
    assert_eq!(config.theme.as_deref(), Some("night_owl"));
    assert_eq!(config.keybindings, vec![("quit".to_string(), "z".to_string())]);
}

#[test]
fn saving_theme_into_nothing_makes_a_document() {
    for content in ["", " \n\t "] {
        let updated = update_theme_in_kdl(content, "gruvbox").expect("update ok");
        assert_eq!(parse(&updated).unwrap().theme.as_deref(), Some("gruvbox"));
    }
}

#[test]
fn saving_theme_keeps_comments_and_other_nodes() {
    let original = "// mine\ntheme \"a\"\nother 1 2\n";
    let updated = update_theme_in_kdl(original, "b").expect("update ok");
    assert!(updated.contains("// mine"));
    assert!(updated.contains("other 1 2"));
    assert_eq!(parse(&updated).unwrap().theme.as_deref(), Some("b"));
}

#[test]
fn text_that_is_no_document_is_an_error() {
    assert!(parse("theme {").is_err());
    assert!(update_theme_in_kdl("theme {", "x").is_err());
}

#[test]
fn theme_needs_a_text() {
    assert_eq!(parse("theme 5").unwrap_err(), "theme node argument must be a string");
    assert_eq!(parse("theme").unwrap_err(), "theme node must have a string argument");
    assert_eq!(
        parse("theme named=\"x\"").unwrap_err(),
        "theme node must have a string argument"
    );
}

#[test]
fn nodes_are_read_without_a_document() {
    let named = entry(Some("named"), ConfigValue::Other("5".to_string()));
    let nodes = vec![
        node("theme", vec![named, text("dark")], None),
        node("keybindings", Vec::new(), Some(vec![node("quit", vec![text("Q")], None)])),
        node("theme", vec![text("light")], None),
    ];
    let config = read_nodes(&nodes).unwrap();
    assert_eq!(config.theme.as_deref(), Some("light"));
    assert_eq!(config.keybindings, vec![("quit".to_string(), "Q".to_string())]);
}

#[test]
fn saved_theme_is_told_from_a_last_line_without_a_break() {
    for original in ["counters { show #false }", "keybindings {\n    quit \"z\"\n}", "other 1"] {
        let before = parse(original).unwrap();
        let updated = update_theme_in_kdl(original, "night_owl").expect("update ok");
        let after = parse(&updated).unwrap();
        assert_eq!(after.theme.as_deref(), Some("night_owl"));
        assert_eq!(after.keybindings, before.keybindings);
        assert_eq!(after.counters, before.counters);
    }
}

#[test]
fn saved_theme_reads_back_whatever_its_name() {
    let original = "theme \"a\" // mine\nkeybindings {\n    quit \"z\"\n}\n";
    for name in ["b", "two words", "qu\"ote", "back\\slash", "true", "5", "", "line\nbreak"] {
        let updated = update_theme_in_kdl(original, name).expect("update ok");
        let config = parse(&updated).unwrap();
        assert_eq!(config.theme.as_deref(), Some(name));
        assert_eq!(config.keybindings, vec![("quit".to_string(), "z".to_string())]);
    }
}

#[test]
fn first_text_that_reads_as_wanted_is_picked() {
    let wanted = || vec![node("theme", vec![text("a")], None)];
    let other = || vec![node("theme", vec![text("b")], None)];
    let (one, two) = (|| "one".to_string(), || "two".to_string());
    let pick = |first, second| pick_text((one(), first), (two(), second), &wanted());
    assert_eq!(pick(Some(wanted()), Some(wanted())), Ok(one()));
    assert_eq!(pick(Some(other()), Some(wanted())), Ok(two()));
    assert_eq!(pick(None, Some(wanted())), Ok(two()));
    let lost = Err("the configuration would not read back".to_string());
    assert_eq!(pick(Some(other()), None), lost);
    assert_eq!(pick(None, Some(Vec::new())), lost);
    assert_eq!(pick(None, None), lost);
}

#[test]
fn texts_are_told_apart_by_numbers_and_by_deeper_nodes() {
    let picked = |reads: Vec<ConfigNode>, wanted: Vec<ConfigNode>| {
        pick_text(("text".to_string(), Some(reads)), (String::new(), None), &wanted).is_ok()
    };
    let numbered = |n: &str| vec![node("other", vec![number(n)], None)];
    assert!(picked(numbered("1"), numbered("1")));
    assert!(!picked(numbered("1"), numbered("2")));
    let deep = |n: &str| {
        let leaf = node("leaf", vec![number(n)], None);
        vec![node("top", Vec::new(), Some(vec![node("mid", Vec::new(), Some(vec![leaf]))]))]
    };
    assert!(picked(deep("1"), deep("1")));
    assert!(!picked(deep("1"), deep("2")));
    assert!(!picked(vec![node("top", vec![], None)], vec![node("top", vec![], Some(vec![]))]));
    let flag = |on| vec![node("top", vec![entry(None, ConfigValue::Flag(on))], None)];
    assert!(picked(flag(true), flag(true)) && !picked(flag(true), flag(false)));
    let named = |name| vec![node("top", vec![entry(name, ConfigValue::Flag(true))], None)];
    assert!(!picked(named(Some("a")), named(None)));
    let mut noted = vec![node("top", vec![], None)];
    noted[0].annotation = Some("t".to_string());
    assert!(!picked(noted, vec![node("top", vec![], None)]));
}

#[test]
fn saving_theme_changes_the_theme_alone() {
    let original = "theme \"a\"\nother 1 2.5 #null\ntop {\n    mid k=0x10 {\n        leaf 7\n    }\n}\n";
    let updated = update_theme_in_kdl(original, "b").expect("update ok");
    assert_eq!(updated.lines().next(), Some("theme b"));
    let rest = |text: &str| text.lines().skip(1).map(|l| l.to_string()).collect::<Vec<_>>();
    assert_eq!(rest(&updated), rest(original));
    let appended = update_theme_in_kdl("other 1\n", "b").expect("update ok");
    assert_eq!(appended, "other 1\ntheme b\n");
}
