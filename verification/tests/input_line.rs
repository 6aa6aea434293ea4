use explorer::geometry::Pos;
use explorer::input::{InputEvent, Key, KeyPress, KeyState, ModifierKeysMask, SpecialKey};
use explorer::input_line::InputLine;
use explorer::render::{RenderOp, RgbValue, TuiColor};

fn press(key: Key) -> InputEvent {
    InputEvent::Keyboard(KeyPress::Plain { key })
}

fn with(key: Key, ctrl: bool, alt: bool, shift: bool) -> InputEvent {
    let state = |on| if on { KeyState::Pressed } else { KeyState::NotPressed };
    InputEvent::Keyboard(KeyPress::WithModifiers {
        key,
        mask: ModifierKeysMask {
            shift_key_state: state(shift),
            ctrl_key_state: state(ctrl),
            alt_key_state: state(alt),
        },
    })
}

fn typed(line: &mut InputLine, query: &mut String, text: &str) {
    for c in text.chars() {
        assert!(line.handle_key(&press(Key::Character(c)), query));
    }
}

#[test]
fn characters_go_in_at_the_cursor() {
    let mut line = InputLine::new();
    let mut query = String::new();
    typed(&mut line, &mut query, "ac");
    assert!(line.handle_key(&press(Key::SpecialKey(SpecialKey::Left)), &mut query));
    typed(&mut line, &mut query, "b");
    assert_eq!(query, "abc");
    assert_eq!(line.cursor_position(), 2);
}

#[test]
fn deletion_takes_whole_clusters() {
    let mut line = InputLine::new();
    let mut query = String::new();
    let paste = InputEvent::BracketedPaste("xe\u{301}y".to_string());
    assert!(line.handle_key(&paste, &mut query));
    assert_eq!(line.cursor_position(), 3);
    assert!(line.handle_key(&press(Key::SpecialKey(SpecialKey::Left)), &mut query));
    assert!(line.handle_key(&press(Key::SpecialKey(SpecialKey::Backspace)), &mut query));
    assert_eq!(query, "xy");
    assert!(line.handle_key(&press(Key::SpecialKey(SpecialKey::Delete)), &mut query));
    assert_eq!(query, "x");
    assert!(!line.handle_key(&press(Key::SpecialKey(SpecialKey::Delete)), &mut query));
}

#[test]
fn words_are_killed_and_jumped_over() {
    let mut line = InputLine::new();
    let mut query = "one two.three".to_string();
    let end = press(Key::SpecialKey(SpecialKey::End));
    assert!(line.handle_key(&end, &mut query));
    assert!(!line.handle_key(&end, &mut query));
    assert!(line.handle_key(&with(Key::Character('w'), true, false, false), &mut query));
    assert_eq!(query, "one two.");
    assert!(line.handle_key(&with(Key::Character('b'), false, true, false), &mut query));
    assert_eq!(line.cursor_position(), 4);
    assert!(line.handle_key(&with(Key::Character('d'), false, true, false), &mut query));
    assert_eq!(query, "one .");
    let home = with(Key::Character('a'), true, false, false);
    assert!(line.handle_key(&home, &mut query));
    let right = with(Key::SpecialKey(SpecialKey::Right), true, false, false);
    assert!(line.handle_key(&right, &mut query));
    assert_eq!(line.cursor_position(), 5);
}

#[test]
fn killing_both_sides_clears() {
    let mut line = InputLine::new();
    let mut query = "left right".to_string();
    for _ in 0..4 {
        line.handle_key(&press(Key::SpecialKey(SpecialKey::Right)), &mut query);
    }
    assert!(line.handle_key(&with(Key::Character('k'), true, false, false), &mut query));
    assert_eq!(query, "left");
    assert!(!line.handle_key(&with(Key::Character('k'), true, false, false), &mut query));
    assert!(line.handle_key(&with(Key::Character('u'), true, false, false), &mut query));
    assert_eq!(query, "");
    assert!(!line.handle_key(&with(Key::Character('u'), true, false, false), &mut query));
}

#[test]
fn lines_are_broken_with_shift() {
    let mut line = InputLine::new();
    let mut query = String::new();
    typed(&mut line, &mut query, "a");
    let enter = with(Key::SpecialKey(SpecialKey::Enter), false, false, true);
    assert!(line.handle_key(&enter, &mut query));
    typed(&mut line, &mut query, "b");
    assert_eq!(query, "a\nb");
    assert_eq!(InputLine::line_count(&query), 2);
    assert!(!line.handle_key(&press(Key::SpecialKey(SpecialKey::Enter)), &mut query));
    assert!(!line.handle_key(&press(Key::Character('\u{7}')), &mut query));
    assert!(!line.handle_key(&InputEvent::BracketedPaste(String::new()), &mut query));
    assert_eq!(query, "a\nb");
}

#[test]
fn clearing_empties_the_line() {
    let mut line = InputLine::new();
    let mut query = "abc".to_string();
    assert!(line.handle_key(&with(Key::Character('c'), true, false, false), &mut query));
    assert_eq!((query.as_str(), line.cursor_position()), ("", 0));
}

#[test]
fn drawn_line_holds_prompt_and_text() {
    let mut line = InputLine::new();
    let mut query = String::new();
    typed(&mut line, &mut query, "hi");
    let color = TuiColor::Rgb(RgbValue::new(1, 2, 3));
    let mut ops = Vec::new();
    line.render(&mut ops, &query, "> ", Pos::new(0, 0), 20, true, (color, color));
    let painted: String = ops
        .iter()
        .map(|op| match op {
            RenderOp::Paint { text, .. } => text.as_str(),
            _ => "",
        })
        .collect();
    assert!(painted.contains("> "));
    assert!(painted.contains("hi"));
}

#[test]
fn backspace_undoes_typing_wherever_the_cursor_is() {
    let text = "a b~c";
    for cursor in 0..=text.len() {
        for ch in [' ', 'x', '~'] {
            let mut line = InputLine::new();
            let mut query = String::new();
            typed(&mut line, &mut query, text);
            for _ in cursor..text.len() {
                assert!(line.handle_key(&press(Key::SpecialKey(SpecialKey::Left)), &mut query));
            }
            assert!(line.handle_key(&press(Key::Character(ch)), &mut query));
            assert_eq!(query.len(), text.len() + 1);
            assert!(line.handle_key(&press(Key::SpecialKey(SpecialKey::Backspace)), &mut query));
            assert_eq!(query, text);
            assert_eq!(line.cursor_position(), cursor);
        }
    }
}

#[test]
fn line_counts_add_up_over_a_line_break() {
    for a in ["", "x", "x\n", "x\ny"] {
        for b in ["", "z", "\n\n"] {
            assert_eq!(
                InputLine::line_count(&format!("{a}\n{b}")),
                InputLine::line_count(a) + InputLine::line_count(b)
            );
        }
    }
    assert_eq!(InputLine::line_count(""), 1);
}
