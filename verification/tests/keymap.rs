use explorer::input::{Key, KeyPress, KeyState, ModifierKeysMask, SpecialKey};
use explorer::keymap::{
    Action, Keymap, alt_char, ctrl_special, hint, plain_char, plain_special,
};

fn ctrl_char(c: char) -> KeyPress {
    KeyPress::WithModifiers {
        key: Key::Character(c),
        mask: ModifierKeysMask {
            shift_key_state: KeyState::NotPressed,
            ctrl_key_state: KeyState::Pressed,
            alt_key_state: KeyState::NotPressed,
        },
    }
}

fn bind(slug: &str, spec: &str) -> (String, String) {
    (slug.to_string(), spec.to_string())
}

#[test]
fn defaults_match_historical_bindings() {
    let km = Keymap::default();
    assert_eq!(km.leader_action(&plain_char('q')), Some(Action::Quit));
    assert_eq!(km.leader_action(&plain_char('f')), Some(Action::OpenFilePicker));
    assert_eq!(
        km.global_action(&ctrl_special(SpecialKey::Down)),
        Some(Action::ResizeGrow)
    );
    // Pressing the leader key inside leader mode grabs the terminal.
    assert_eq!(km.leader_action(&km.leader_key), Some(Action::GrabTerminal));
    assert_eq!(km.global_action(&plain_char('q')), None);
}

#[test]
fn override_rebinds_action_in_all_contexts() {
    let mut km = Keymap::default();
    km.apply_overrides(&vec![bind("quit", "Q")], &vec![Ok(plain_char('Q'))]).unwrap();
    assert_eq!(km.leader_action(&plain_char('Q')), Some(Action::Quit));
    assert_eq!(km.leader_action(&plain_char('q')), None);

    // focus-next lives in both tables; rebinding updates both.
    let ctrl_n = ctrl_char('n');
    km.apply_overrides(&vec![bind("focus-next", "ctrl+n")], &vec![Ok(ctrl_n)]).unwrap();
    assert_eq!(km.leader_action(&ctrl_n), Some(Action::FocusNext));
    assert_eq!(km.global_action(&ctrl_n), Some(Action::FocusNext));
}

#[test]
fn override_can_rebind_leader_key() {
    let mut km = Keymap::default();
    let ctrl_b = ctrl_char('b');
    km.apply_overrides(&vec![bind("leader", "ctrl+b")], &vec![Ok(ctrl_b)]).unwrap();
    assert_eq!(km.leader_key, ctrl_b);
    assert_eq!(km.leader_action(&ctrl_b), Some(Action::GrabTerminal));
}

#[test]
fn hint_labels_are_human_friendly() {
    assert_eq!(hint(&plain_char('z')), "z");
    assert_eq!(hint(&alt_char('`')), "Alt+`");
    assert_eq!(hint(&ctrl_special(SpecialKey::Down)), "Ctrl+↓");
    assert_eq!(hint(&plain_special(SpecialKey::BackTab)), "Shift+Tab");
    assert_eq!(hint(&plain_special(SpecialKey::Tab)), "Tab");
}

#[test]
fn hints_follow_rebinds() {
    let mut km = Keymap::default();
    km.apply_overrides(
        &vec![bind("quit", "z"), bind("leader", "ctrl+b")],
        &vec![Ok(plain_char('z')), Ok(ctrl_char('b'))],
    )
    .unwrap();
    assert_eq!(km.leader_key_for(Action::Quit).map(|k| hint(&k)), Some("z".to_string()));
    assert_eq!(hint(&km.leader_key), "Ctrl+b");
}

#[test]
fn override_rejects_bad_input() {
    let mut km = Keymap::default();
    assert_eq!(
        km.apply_overrides(
            &vec![bind("quit", "nonsense")],
            &vec![Err("unknown key".to_string())]
        ),
        Err("invalid key 'nonsense' for 'quit': unknown key".to_string())
    );
    assert_eq!(
        km.apply_overrides(&vec![bind("bogus-action", "q")], &vec![Ok(plain_char('q'))]),
        Err("unknown keybinding action 'bogus-action'".to_string())
    );
}

#[test]
fn overrides_before_a_wrong_one_stay() {
    let mut km = Keymap::default();
    let r = km.apply_overrides(
        &vec![bind("quit", "z"), bind("nothing", "y"), bind("close-pane", "w")],
        &vec![Ok(plain_char('z')), Ok(plain_char('y')), Ok(plain_char('w'))],
    );
    assert!(r.is_err());
    assert_eq!(km.leader_key_for(Action::Quit), Some(plain_char('z')));
    assert_eq!(km.leader_key_for(Action::ClosePane), Some(plain_char('x')));
    assert_eq!(km.global_key_for(Action::ClosePane), None);
}

#[test]
fn every_slug_has_its_action() {
    let expected = [
        ("quit", Action::Quit),
        ("focus-next", Action::FocusNext),
        ("focus-prev", Action::FocusPrev),
        ("open-file-picker", Action::OpenFilePicker),
        ("open-terminal", Action::OpenTerminal),
        ("open-theme-picker", Action::OpenThemePicker),
        ("close-pane", Action::ClosePane),
        ("resize-grow", Action::ResizeGrow),
        ("resize-shrink", Action::ResizeShrink),
        ("move-pane-forward", Action::MovePaneForward),
        ("move-pane-backward", Action::MovePaneBackward),
    ];
    for (slug, action) in expected {
        assert_eq!(Action::from_slug(slug), Some(action));
    }
    assert_eq!(Action::from_slug("leader"), None);
    assert_eq!(Action::from_slug("grab-terminal"), None);
}

#[test]
fn hints_of_other_keys() {
    assert_eq!(hint(&plain_char(' ')), "Space");
    assert_eq!(hint(&KeyPress::Plain { key: Key::FunctionKey(12) }), "F12");
    assert_eq!(hint(&KeyPress::Plain { key: Key::KittyKeyboardProtocol(3) }), "?");
    let all = KeyPress::WithModifiers {
        key: Key::SpecialKey(SpecialKey::PageUp),
        mask: ModifierKeysMask {
            shift_key_state: KeyState::Pressed,
            ctrl_key_state: KeyState::Pressed,
            alt_key_state: KeyState::Pressed,
        },
    };
    assert_eq!(hint(&all), "Ctrl+Alt+Shift+PgUp");
}
