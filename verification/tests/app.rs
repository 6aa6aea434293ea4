use explorer::app_events::{focused_pane_id, handle_input_event};
use explorer::app_files::{ChangedFile, FileChanges};
use explorer::app_frame::{fill_background, latest_results, restored_program};
use explorer::app_keys::surface_size;
use explorer::app_signal::AppSignal;
use explorer::app_start::{
    build_state, search_current, search_current_fg, search_match, search_match_fg, symbol_palette,
};
use explorer::app_terminal::{OutputThrottle, Program};
use explorer::effect::{Effect, PtyInputEvent};
use explorer::geometry::{Pos, Size};
use explorer::ids::{FlexBoxId, Id, pane_slot};
use explorer::input::{
    Button, EventPropagation, InputEvent, Key, KeyPress, KeyState, ModifierKeysMask, MouseInput,
    MouseInputKind, SpecialKey,
};
use explorer::keymap::{alt_char, plain_char};
use explorer::loader::FileKey;
use explorer::pane::PaneComponent;
use explorer::pane_manager::{PaneSize, SelPoint, Window};
use explorer::panes_renderer::{SurfaceOp, create_stylesheet, render_in_surface};
use explorer::render::RenderOp;
use explorer::screen::{PixelChar, Screen};
use explorer::state::{AppState, LoadedFile, TerminalRestoreInfo};
use explorer::status_bar::{pane_action_hints, render_status_bar, status_text};
use explorer::theme::HelixTheme;

const SECOND: u128 = 1_000_000_000;
const WINDOW: Size = Size { col_width: 240, row_height: 41 };

fn state_with(files: &[(&str, &str)]) -> AppState {
    let files = files
        .iter()
        .map(|(path, text)| LoadedFile::load(path.to_string(), Some(text.to_string())).unwrap())
        .collect();
    build_state(files, "/repo".to_string(), HelixTheme::default(), 0)
}

fn panes() -> Vec<PaneComponent> {
    (0..16).map(|slot| PaneComponent::new(slot, FlexBoxId::from(Id::pane(slot)))).collect()
}

fn plain(key: Key) -> InputEvent {
    InputEvent::Keyboard(KeyPress::Plain { key })
}

fn ctrl(key: Key) -> InputEvent {
    InputEvent::Keyboard(KeyPress::WithModifiers {
        key,
        mask: ModifierKeysMask {
            shift_key_state: KeyState::NotPressed,
            ctrl_key_state: KeyState::Pressed,
            alt_key_state: KeyState::NotPressed,
        },
    })
}

fn send(
    panes: &mut Vec<PaneComponent>,
    state: &mut AppState,
    event: InputEvent,
    effects: &mut Vec<Effect>,
) -> EventPropagation {
    let crate_root = Some("/repo");
    let repo_root = Some("/repo");
    let ps = panes;
    handle_input_event(ps, state, &event, WINDOW, None, None, crate_root, repo_root, 5, effects)
}

fn leader() -> InputEvent {
    InputEvent::Keyboard(alt_char('`'))
}

fn blank_screen(focus_events: bool) -> Screen {
    Screen {
        buffer: vec![vec![PixelChar::Spacer; 4]; 3],
        scrollback: Vec::new(),
        size: Size { col_width: 4, row_height: 3 },
        cursor_pos: Pos { col_index: 0, row_index: 0 },
        cursor_visible: true,
        alternate: false,
        mouse_tracking: false,
        bracketed_paste: false,
        focus_events,
        application_cursor: false,
    }
}

fn open_terminal(state: &mut AppState, effects: &mut Vec<Effect>) -> usize {
    let plan = state.plan_terminal(None, None, None, WINDOW);
    state.start_terminal(&plan, blank_screen(true), Some(PaneSize::Half), 3, effects);
    plan.id
}

#[test]
fn leader_key_opens_pickers_and_quits() {
    let mut ps = panes();
    let mut state = state_with(&[("/repo/a.rs", "x\n")]);
    let mut effects = Vec::new();
    let redraw = EventPropagation::ConsumedRender;
    assert_eq!(send(&mut ps, &mut state, leader(), &mut effects), redraw);
    assert!(state.leader_active);
    assert_eq!(send(&mut ps, &mut state, plain(Key::Character('T')), &mut effects), redraw);
    assert!(!state.leader_active);
    assert_eq!(state.pane_manager.focused_window, Some(Window::ThemePicker));
    assert_eq!(state.theme_picker.selected.as_deref(), Some(state.theme.name()));
    send(&mut ps, &mut state, leader(), &mut effects);
    send(&mut ps, &mut state, plain(Key::Character('f')), &mut effects);
    assert_eq!(state.pane_manager.focused_window, Some(Window::FileNamePicker));
    send(&mut ps, &mut state, leader(), &mut effects);
    assert_eq!(
        send(&mut ps, &mut state, plain(Key::Character('q')), &mut effects),
        EventPropagation::ExitMainEventLoop
    );
    send(&mut ps, &mut state, leader(), &mut effects);
    send(&mut ps, &mut state, plain(Key::Character('t')), &mut effects);
    assert!(matches!(effects.last(), Some(Effect::OpenTerminal { cmd: None, cwd: None })));
    send(&mut ps, &mut state, leader(), &mut effects);
    send(&mut ps, &mut state, plain(Key::SpecialKey(SpecialKey::Esc)), &mut effects);
    assert!(!state.leader_active);
}

#[test]
fn leader_key_twice_grabs_a_terminal() {
    let mut ps = panes();
    let mut state = state_with(&[]);
    let mut effects = Vec::new();
    let id = open_terminal(&mut state, &mut effects);
    assert!(state.terminal_grabbed);
    assert_eq!(state.pane_manager.focused_window, Some(Window::Terminal(id)));
    assert_eq!(state.pane_manager.window_state(&Window::Terminal(id)).pane_size, PaneSize::Half);
    // The program is told that its terminal has the focus.
    assert!(matches!(
        effects.last(),
        Some(Effect::Pty { id: 0, event: PtyInputEvent::Write(bytes) }) if bytes == b"\x1b[I"
    ));
    send(&mut ps, &mut state, leader(), &mut effects);
    assert!(!state.terminal_grabbed);
    send(&mut ps, &mut state, leader(), &mut effects);
    assert!(state.terminal_grabbed && !state.leader_active);
}

#[test]
fn leader_command_closes_a_terminal() {
    let mut ps = panes();
    let mut state = state_with(&[]);
    let mut effects = Vec::new();
    let id = open_terminal(&mut state, &mut effects);
    send(&mut ps, &mut state, leader(), &mut effects);
    effects.clear();
    send(&mut ps, &mut state, plain(Key::Character('x')), &mut effects);
    assert!(!state.terminal_panes.contains_key(&id));
    assert!(!state.pane_manager.window_stack.contains(&Window::Terminal(id)));
    assert!(matches!(
        effects.first(),
        Some(Effect::Pty { event: PtyInputEvent::Write(bytes), .. }) if bytes == b"\x1b[O"
    ));
    assert!(effects.iter().any(|e| matches!(e, Effect::KillTerminal(0))));
    assert!(state.session_dirty_at.is_some());
}

#[test]
fn global_keys_resize_and_reorder() {
    let mut ps = panes();
    let mut state = state_with(&[("/repo/a.rs", "x\n")]);
    let mut effects = Vec::new();
    state.pane_manager.push_window(Window::FilePreview(FileKey(0)));
    state.pane_manager.focused_window = Some(Window::FilePreview(FileKey(0)));
    let focused = Window::FilePreview(FileKey(0));
    send(&mut ps, &mut state, ctrl(Key::Character('-')), &mut effects);
    assert_eq!(state.pane_manager.window_state(&focused).pane_size, PaneSize::Half);
    send(&mut ps, &mut state, ctrl(Key::Character('=')), &mut effects);
    assert_eq!(state.pane_manager.window_state(&focused).pane_size, PaneSize::Full);
    send(&mut ps, &mut state, ctrl(Key::SpecialKey(SpecialKey::Down)), &mut effects);
    assert_eq!(state.pane_manager.window_stack[1], focused);
    send(&mut ps, &mut state, ctrl(Key::SpecialKey(SpecialKey::Up)), &mut effects);
    assert_eq!(state.pane_manager.window_stack[0], focused);
    send(&mut ps, &mut state, plain(Key::SpecialKey(SpecialKey::Tab)), &mut effects);
    assert_eq!(state.pane_manager.focused_window, Some(Window::FileNamePicker));
    send(&mut ps, &mut state, plain(Key::SpecialKey(SpecialKey::BackTab)), &mut effects);
    assert_eq!(state.pane_manager.focused_window, Some(focused));
}

#[test]
fn focus_follows_the_mouse() {
    let mut ps = panes();
    let mut state = state_with(&[("/repo/a.rs", "x\n")]);
    let mut effects = Vec::new();
    state.pane_manager.push_window(Window::FilePreview(FileKey(0)));
    state.pane_manager.focused_window = Some(Window::FilePreview(FileKey(0)));
    let over = |col_index| {
        InputEvent::Mouse(MouseInput {
            pos: Pos { col_index, row_index: 5 },
            kind: MouseInputKind::MouseMove,
            maybe_modifier_keys: None,
        })
    };
    send(&mut ps, &mut state, over(200), &mut effects);
    assert_eq!(state.pane_manager.focused_window, Some(Window::FileNamePicker));
    assert_eq!(focused_pane_id(&state).inner, 3);
    state.mouse_drag_active = true;
    send(&mut ps, &mut state, over(5), &mut effects);
    assert_eq!(state.pane_manager.focused_window, Some(Window::FileNamePicker));
}

#[test]
fn typing_in_the_picker_matches_files() {
    let mut ps = panes();
    let mut state = state_with(&[("/repo/a.rs", "x\n"), ("/repo/b.rs", "y\n")]);
    let mut effects = Vec::new();
    send(&mut ps, &mut state, plain(Key::Character('b')), &mut effects);
    assert_eq!(state.file_name_picker.query, "b");
    assert!(effects.iter().any(|e| matches!(e, Effect::MatchFiles)));
    state.set_file_results(vec![(Window::FilePreview(FileKey(1)), vec![0])]);
    send(&mut ps, &mut state, plain(Key::SpecialKey(SpecialKey::Enter)), &mut effects);
    assert_eq!(state.pane_manager.focused_window, Some(Window::FilePreview(FileKey(1))));
}

#[test]
fn command_line_of_a_preview() {
    let mut ps = panes();
    let mut state = state_with(&[("/repo/src/a.rs", "1\n2\n3\n4\n")]);
    let mut effects = Vec::new();
    let preview = Window::FilePreview(FileKey(0));
    state.focus_new_window(preview);
    state.pane_manager.set_window_scroll_max(&preview, 4);
    for c in ":2-3".chars() {
        send(&mut ps, &mut state, plain(Key::Character(c)), &mut effects);
    }
    assert!(state.command_mode_active);
    send(&mut ps, &mut state, plain(Key::SpecialKey(SpecialKey::Enter)), &mut effects);
    assert!(!state.command_mode_active);
    assert_eq!(state.highlight_ranges.get(&FileKey(0)), Some(&vec![(2, 3)]));
    for c in ":!cat %".chars() {
        send(&mut ps, &mut state, plain(Key::Character(c)), &mut effects);
    }
    send(&mut ps, &mut state, plain(Key::SpecialKey(SpecialKey::Enter)), &mut effects);
    assert!(matches!(
        effects.last(),
        Some(Effect::OpenTerminal { cmd: Some(cmd), cwd: Some(cwd) })
            if cmd == "cat 'src/a.rs'" && cwd == "/repo"
    ));
    assert_eq!(ps[0].preview.title_text(&state, 5), "src/a.rs  [2-3]");
}

#[test]
fn files_that_change_keep_their_keys() {
    let mut state = state_with(&[("/repo/a.rs", "a\n"), ("/repo/b.rs", "b\n")]);
    let mut effects = Vec::new();
    let changed = |path: &str, text: Option<&str>| ChangedFile {
        path: path.to_string(),
        content: text.map(String::from),
    };
    let changes = FileChanges {
        removed: vec!["/repo/a.rs".to_string(), "/repo/zz.rs".to_string()],
        modified: vec![changed("/repo/b.rs", Some("bb\n")), changed("/repo/a.rs", Some("no"))],
        created: vec![changed("/repo/c.rs", Some("c\n")), changed("/repo/d.bin", None)],
    };
    let signal = AppSignal::FilesChanged(changes);
    assert_eq!(
        state.handle_signal(signal, 7, 0, &mut effects),
        EventPropagation::ConsumedRender
    );
    let paths: Vec<&str> = state.files.iter().map(|f| f.path.as_str()).collect();
    assert_eq!(paths, vec!["/repo/a.rs", "/repo/b.rs", "/repo/c.rs"]);
    assert!(state.files[0].removed);
    assert_eq!(state.files[0].data.content, "a\n");
    assert_eq!(state.files[1].data.content, "bb\n");
    assert_eq!(state.files_version, 7);
    let asked: Vec<usize> = effects
        .iter()
        .filter_map(|e| if let Effect::RequestTokens(i) = e { Some(*i) } else { None })
        .collect();
    assert_eq!(asked, vec![0, 1]);
    // A file that comes back is there again, under its key.
    let back = FileChanges {
        removed: Vec::new(),
        modified: Vec::new(),
        created: vec![changed("/repo/a.rs", Some("new\n"))],
    };
    state.handle_files_changed(&back, 8, &mut effects);
    assert!(!state.files[0].removed);
    assert_eq!(state.files[0].data.content, "new\n");
    assert_eq!(state.files.len(), 3);
}

#[test]
fn sessions_are_saved_after_a_pause() {
    let mut state = state_with(&[]);
    let mut effects = Vec::new();
    state.handle_signal(AppSignal::default(), 0, 10 * SECOND, &mut effects);
    assert!(!effects.iter().any(|e| matches!(e, Effect::SaveSession)));
    assert!(matches!(effects.last(), Some(Effect::SendKeptRequests)));
    state.mark_session_dirty(10 * SECOND);
    assert!(!state.session_save_due(11 * SECOND));
    effects.clear();
    state.handle_signal(AppSignal::TerminalOutput, 0, 12 * SECOND, &mut effects);
    assert!(matches!(effects.first(), Some(Effect::SaveSession)));
    state.note_session_saved();
    assert!(!state.session_save_due(90 * SECOND));
    let cmd = Some("make".to_string());
    let signal = AppSignal::OpenTerminal { cmd, cwd: "/repo".to_string() };
    state.handle_signal(signal, 0, 0, &mut effects);
    assert!(matches!(effects.last(), Some(Effect::OpenTerminal { cmd: Some(_), .. })));
    state.handle_signal(AppSignal::ForwardOscToTerminal(vec![27, 93]), 0, 0, &mut effects);
    assert!(matches!(effects.last(), Some(Effect::WriteOut(bytes)) if bytes == &vec![27, 93]));
}

#[test]
fn programs_end_and_leave_their_output() {
    let mut state = state_with(&[]);
    let mut effects = Vec::new();
    let id = open_terminal(&mut state, &mut effects);
    // With nothing on the screen the terminal goes.
    state.end_program(id, Some(0), None, 4, &mut effects);
    assert!(!state.terminal_panes.contains_key(&id));
    let id = open_terminal(&mut state, &mut effects);
    let mut screen = blank_screen(false);
    screen.buffer[0][0] = PixelChar::PlainText {
        display_char: '$',
        style: explorer::render::TuiStyle::reverse(),
    };
    effects.clear();
    let titles = vec!["one".to_string(), "two".to_string()];
    state.show_output(id, screen, titles, &vec![vec![1, 2]], &mut effects);
    assert!(matches!(
        effects.last(),
        Some(Effect::Pty { event: PtyInputEvent::Write(bytes), .. }) if bytes == &vec![1, 2]
    ));
    assert_eq!(state.terminal_panes.get(&id).unwrap().title.as_deref(), Some("two"));
    state.end_program(id, Some(3), Some("TERM".to_string()), 4, &mut effects);
    let pane = state.terminal_panes.get(&id).unwrap();
    assert!(pane.exited);
    assert_eq!(pane.exit_code, Some(3));
    assert_eq!(pane.exit_signal.as_deref(), Some("TERM"));
}

#[test]
fn terminals_are_planned() {
    let mut state = state_with(&[]);
    let small = Size { col_width: 40, row_height: 1 };
    let cmd = Some("cargo test".to_string());
    let plan = state.plan_terminal(cmd, Some("/tmp".to_string()), None, small);
    assert_eq!((plan.id, plan.restore), (0, false));
    assert_eq!(plan.size, Size { col_width: 80, row_height: 0 });
    assert!(matches!(plan.program, Program::Command(cmd) if cmd == "cargo test"));
    let plan = state.plan_terminal(Some(String::new()), None, Some(9), WINDOW);
    assert_eq!((plan.id, plan.restore), (9, true));
    assert!(matches!(plan.program, Program::Shell));
    assert_eq!(state.next_terminal_id, 1);
    let info = || TerminalRestoreInfo {
        cwd: "/gone".to_string(),
        command: Some("top".to_string()),
        is_command_pane: false,
    };
    assert_eq!(restored_program(info(), false, "/repo"), (None, "/repo".to_string()));
    assert_eq!(restored_program(info(), true, "/repo"), (None, "/gone".to_string()));
}

#[test]
fn bursts_of_output_are_held_back() {
    let mut throttle = OutputThrottle::starting_at(0);
    assert!(throttle.note_output(1_000_000));
    throttle.note_request(false, 1_000_000);
    assert!(!throttle.note_output(50_000_000));
    assert!(!throttle.note_output(149_000_000));
    assert!(throttle.note_output(249_000_000));
    throttle.note_request(true, 249_000_000);
    assert!(throttle.note_output(250_000_000));
}

#[test]
fn newest_results_win() {
    assert_eq!(latest_results(&vec![]), None);
    assert_eq!(latest_results(&vec![0]), None);
    assert_eq!(latest_results(&vec![3, 9, 4]), Some(1));
}

#[test]
fn a_frame_focuses_what_can_be_seen() {
    let mut state = state_with(&[("/repo/a.rs", "x\n")]);
    state.pane_manager.focused_window = Some(Window::Terminal(99));
    let visible = state.prepare_frame(WINDOW);
    assert_eq!(visible.len(), 1);
    assert_eq!(state.pane_manager.focused_window, Some(Window::FileNamePicker));
    assert_eq!(surface_size(WINDOW), Size { col_width: 240, row_height: 40 });
    let ops = render_in_surface(&visible, WINDOW);
    assert!(matches!(
        ops[1],
        SurfaceOp::StartBox { id: FlexBoxId { inner: 100 }, width_pc: 50, height_pc: 100, .. }
    ));
    assert_eq!(ops.iter().filter(|op| matches!(op, SurfaceOp::RenderComponent(_))).count(), 1);
    assert_eq!(create_stylesheet(&state.theme).len(), 33);
    let mut drawn = Vec::new();
    fill_background(&mut drawn, &state, WINDOW);
    let rows = drawn.iter().filter(|op| matches!(op, RenderOp::MoveToAbs(_))).count();
    assert_eq!(rows, 40);
}

#[test]
fn status_bar_shows_keys() {
    let mut state = state_with(&[]);
    let hints = "Ctrl+=:Grow  Ctrl+-:Shrink  Ctrl+↑:Forward  Ctrl+↓:Backward";
    assert_eq!(pane_action_hints("Ctrl+", "  "), hints);
    let (leader, rest) = status_text(&state);
    assert_eq!(leader, " Alt+`: Leader ");
    assert_eq!(rest, format!("{hints}  Esc:Close  Enter:Open"));
    state.leader_active = true;
    assert_eq!(status_text(&state).0, " Leader ");
    assert_eq!(
        status_text(&state).1,
        "f:Picker  t:Term  T:Theme  x:Close  q:Quit  Tab:Next  Shift+Tab:Prev  =:Grow  -:Shrink  ↑:Forward  ↓:Backward  Esc:Cancel"
    );
    state.leader_active = false;
    state.pane_manager.focused_window = Some(Window::Terminal(1));
    assert!(status_text(&state).1.ends_with("Enter:grab  ↑↓PgUp/PgDn:scroll"));
    state.terminal_grabbed = true;
    assert_eq!(status_text(&state).1, hints);
    let mut ops = Vec::new();
    render_status_bar(&mut ops, WINDOW, &state, &state.theme);
    assert!(matches!(ops[0], RenderOp::MoveToAbs(Pos { col_index: 0, row_index: 40 })));
}

#[test]
fn search_colors_differ() {
    let colors =
        [search_match(), search_current(), search_match_fg(), search_current_fg()];
    for (i, a) in colors.iter().enumerate() {
        assert!(!symbol_palette().contains(a));
        assert!(colors.iter().skip(i + 1).all(|b| a != b));
    }
}

#[test]
fn ids_lead_back_to_slots() {
    for slot in 0..16 {
        assert_eq!(pane_slot(FlexBoxId::from(Id::pane(slot))), Some(slot));
    }
    assert_eq!(pane_slot(FlexBoxId { inner: 1 }), None);
    assert_eq!(FlexBoxId::from(Id::pane(99)).inner, 17);
}

#[test]
fn words_and_lines_are_selected_by_the_mouse() {
    let mut ps = panes();
    let mut state = state_with(&[("/repo/a.rs", "one two\nthree\nfour\nfive\n")]);
    let mut effects = Vec::new();
    let preview = Window::FilePreview(FileKey(0));
    state.focus_new_window(preview);
    state.prepare_frame(WINDOW);
    let mut ops = Vec::new();
    let slot = state.pane_manager.layout(state.last_surface_size)[0].box_;
    ps[0].render(&mut ops, &mut state, slot, true, 0, &mut effects);
    let mouse = |kind, col_index, row_index| {
        InputEvent::Mouse(MouseInput {
            pos: Pos { col_index, row_index },
            kind,
            maybe_modifier_keys: None,
        })
    };
    // The title stands in the first row; line numbers take four columns.
    let down = MouseInputKind::MouseDown(Button::Left);
    let drag = MouseInputKind::MouseDrag(Button::Left);
    let up = MouseInputKind::MouseUp(Button::Left);
    for (kind, col) in [(down, 5), (drag, 9), (up, 9)] {
        send(&mut ps, &mut state, mouse(kind, col, 1), &mut effects);
    }
    assert!(matches!(effects.last(), Some(Effect::Clipboard(text)) if text == "one two"));
    effects.clear();
    for kind in [down, up, down, up, down, up] {
        send(&mut ps, &mut state, mouse(kind, 5, 2), &mut effects);
    }
    assert!(matches!(effects.last(), Some(Effect::Clipboard(text)) if text.starts_with("three")));
}

#[test]
fn lines_are_highlighted_with_modifier_keys() {
    let mut ps = panes();
    let mut state = state_with(&[("/repo/a.rs", "1\n2\n3\n4\n5\n6\n")]);
    let mut effects = Vec::new();
    state.focus_new_window(Window::FilePreview(FileKey(0)));
    state.prepare_frame(WINDOW);
    let mut ops = Vec::new();
    let slot = state.pane_manager.layout(state.last_surface_size)[0].box_;
    ps[0].render(&mut ops, &mut state, slot, true, 0, &mut effects);
    let with = |kind, row_index, shift| {
        let key = |on| if on { KeyState::Pressed } else { KeyState::NotPressed };
        InputEvent::Mouse(MouseInput {
            pos: Pos { col_index: 5, row_index },
            kind,
            maybe_modifier_keys: Some(ModifierKeysMask {
                shift_key_state: key(shift),
                ctrl_key_state: key(!shift),
                alt_key_state: KeyState::NotPressed,
            }),
        })
    };
    let down = MouseInputKind::MouseDown(Button::Left);
    let drag = MouseInputKind::MouseDrag(Button::Left);
    let up = MouseInputKind::MouseUp(Button::Left);
    for (kind, row) in [(down, 2), (drag, 5), (up, 5)] {
        send(&mut ps, &mut state, with(kind, row, true), &mut effects);
    }
    assert_eq!(state.highlight_ranges.get(&FileKey(0)), Some(&vec![(2, 5)]));
    for (kind, row) in [(down, 3), (drag, 4), (up, 4)] {
        send(&mut ps, &mut state, with(kind, row, false), &mut effects);
    }
    assert_eq!(state.highlight_ranges.get(&FileKey(0)), Some(&vec![(2, 2), (5, 5)]));
    assert!(!state.mouse_drag_active);
}

#[test]
fn bound_keys_do_what_they_are_bound_to() {
    let mut ps = panes();
    let mut state = state_with(&[("/repo/a.rs", "x\n")]);
    let mut effects = Vec::new();
    let ctrl_key = |c: char| match ctrl(Key::Character(c)) {
        InputEvent::Keyboard(press) => press,
        _ => unreachable!(),
    };
    let named = |slug: &str, key: &str| (slug.to_string(), key.to_string());
    state
        .keymap
        .apply_overrides(
            &vec![
                named("leader", "ctrl+b"),
                named("quit", "z"),
                named("resize-grow", "ctrl+g"),
                named("focus-next", "ctrl+n"),
            ],
            &vec![
                Ok(ctrl_key('b')),
                Ok(plain_char('z')),
                Ok(ctrl_key('g')),
                Ok(ctrl_key('n')),
            ],
        )
        .unwrap();
    let file = Window::FilePreview(FileKey(0));
    state.pane_manager.push_window(file);
    assert_eq!(state.pane_manager.focused_window, Some(Window::FileNamePicker));
    send(&mut ps, &mut state, ctrl(Key::Character('n')), &mut effects);
    assert_eq!(state.pane_manager.focused_window, Some(file));
    send(&mut ps, &mut state, ctrl(Key::Character('-')), &mut effects);
    assert_eq!(state.pane_manager.window_state(&file).pane_size, PaneSize::Half);
    send(&mut ps, &mut state, ctrl(Key::Character('g')), &mut effects);
    assert_eq!(state.pane_manager.window_state(&file).pane_size, PaneSize::Full);

    send(&mut ps, &mut state, leader(), &mut effects);
    assert!(!state.leader_active);
    let (leader_text, _) = status_text(&state);
    assert_eq!(leader_text, " Ctrl+b: Leader ");
    send(&mut ps, &mut state, ctrl(Key::Character('b')), &mut effects);
    assert!(state.leader_active);
    let (_, rest) = status_text(&state);
    assert!(rest.contains("z:Quit  Ctrl+n:Next  Shift+Tab:Prev"));
    assert_eq!(
        send(&mut ps, &mut state, plain(Key::Character('z')), &mut effects),
        EventPropagation::ExitMainEventLoop
    );
}

#[test]
fn arrows_that_edit_text_are_for_the_panes() {
    let mut ps = panes();
    let mut state = state_with(&[("/repo/a.rs", "x\n")]);
    let mut effects = Vec::new();
    state.pane_manager.push_window(Window::FilePreview(FileKey(0)));
    let before = state.pane_manager.window_stack.clone();
    for key in [SpecialKey::Left, SpecialKey::Right] {
        send(&mut ps, &mut state, ctrl(Key::SpecialKey(key)), &mut effects);
        assert_eq!(state.pane_manager.window_stack, before);
    }
}

#[test]
fn a_preview_hands_out_what_was_dragged_over() {
    let mut ps = panes();
    let mut state = state_with(&[("/repo/a.rs", "one two\nthree\nfour\nfive\n")]);
    let mut effects = Vec::new();
    state.focus_new_window(Window::FilePreview(FileKey(0)));
    state.prepare_frame(WINDOW);
    let mut ops = Vec::new();
    let slot = state.pane_manager.layout(state.last_surface_size)[0].box_;
    ps[0].render(&mut ops, &mut state, slot, true, 0, &mut effects);
    let preview = &mut ps[0].preview;
    assert_eq!(preview.end_text_drag_with_text(&state), None);
    // A double click selects a word, and a triple click a line.
    assert!(preview.start_text_drag_from_pos(&state, 1, 9, 2));
    assert_eq!(preview.end_text_drag_with_text(&state).as_deref(), Some("two"));
    assert!(preview.start_text_drag_from_pos(&state, 2, 9, 3));
    let line = preview.end_text_drag_with_text(&state).unwrap();
    assert_eq!(line.trim_end(), "three");
    assert!(preview.start_text_drag_from_pos(&state, 2, 4, 1));
    preview.update_text_drag_from_pos(&state, 1, 8);
    assert_eq!(preview.end_text_drag_with_text(&state).as_deref(), Some("two\n"));
    // Nothing was dragged over.
    assert!(preview.start_text_drag_from_pos(&state, 2, 6, 1));
    assert_eq!(preview.end_text_drag_with_text(&state), None);
}

#[test]
fn title_of_a_deleted_file_shows_its_ranges() {
    let mut ps = panes();
    let mut state = state_with(&[("/repo/a", "1\n2\n3\n")]);
    state.files[0].removed = true;
    state.focus_new_window(Window::FilePreview(FileKey(0)));
    state.highlight_ranges.insert(FileKey(0), vec![(3, 3)]);
    let preview = &mut ps[0].preview;
    assert_eq!(preview.title_text(&state, 0), "[deleted] a  [3]");
    for col in 0..80 {
        let expected = if col == 15 { Some((3, 3)) } else { None };
        assert_eq!(preview.range_at_title_col(&state, col, 80), expected);
    }
}

#[test]
fn places_of_a_selection_are_counted_from_their_lines() {
    let mut ps = panes();
    let mut state = state_with(&[("/repo/a.rs", "one  \n  two three\nfour\nfive\n")]);
    let mut effects = Vec::new();
    state.focus_new_window(Window::FilePreview(FileKey(0)));
    state.prepare_frame(WINDOW);
    let mut ops = Vec::new();
    let slot = state.pane_manager.layout(state.last_surface_size)[0].box_;
    ps[0].render(&mut ops, &mut state, slot, true, 0, &mut effects);
    let mouse = |kind, col_index, row_index| {
        InputEvent::Mouse(MouseInput {
            pos: Pos { col_index, row_index },
            kind,
            maybe_modifier_keys: None,
        })
    };
    let at = |line_idx, byte_offset| SelPoint::Preview { line_idx, byte_offset };
    let down = MouseInputKind::MouseDown(Button::Left);
    let drag = MouseInputKind::MouseDrag(Button::Left);
    let up = MouseInputKind::MouseUp(Button::Left);
    // A click on the word "two", in the second line.
    send(&mut ps, &mut state, mouse(down, 7, 2), &mut effects);
    let sel = state.text_selection.unwrap();
    assert_eq!(sel.click_anchor, Some(at(1, 3)));
    assert_eq!(sel.start, at(1, 2));
    assert_eq!(sel.end, at(1, 2));
    assert_eq!(sel.click_word, Some((at(1, 2), at(1, 5))));
    assert!(sel.active && state.mouse_drag_active);
    send(&mut ps, &mut state, mouse(drag, 11, 2), &mut effects);
    assert_eq!(state.text_selection.unwrap().end, at(1, 11));
    send(&mut ps, &mut state, mouse(up, 11, 2), &mut effects);
    assert!(matches!(effects.last(), Some(Effect::Clipboard(text)) if text == "two three"));
    // White space that starts in the line before.
    send(&mut ps, &mut state, mouse(down, 5, 2), &mut effects);
    let sel = state.text_selection.unwrap();
    assert_eq!(sel.click_anchor, Some(at(1, 1)));
    assert_eq!(sel.click_word, Some((at(0, 3), at(1, 2))));
    send(&mut ps, &mut state, mouse(drag, 7, 2), &mut effects);
    send(&mut ps, &mut state, mouse(up, 7, 2), &mut effects);
    assert!(matches!(effects.last(), Some(Effect::Clipboard(text)) if text == "  \n  two"));
    // A drag to another line takes whole lines.
    send(&mut ps, &mut state, mouse(down, 4, 2), &mut effects);
    send(&mut ps, &mut state, mouse(drag, 5, 3), &mut effects);
    assert_eq!(state.text_selection.unwrap().end, at(2, 1));
    send(&mut ps, &mut state, mouse(up, 5, 3), &mut effects);
    assert!(matches!(effects.last(), Some(Effect::Clipboard(text)) if text == "  two three\nfour"));
}

#[test]
fn cancelling_the_leader_does_not_grab_again() {
    let mut ps = panes();
    let mut state = state_with(&[]);
    let mut effects = Vec::new();
    open_terminal(&mut state, &mut effects);
    state.terminal_grabbed = true;
    send(&mut ps, &mut state, leader(), &mut effects);
    send(&mut ps, &mut state, plain(Key::SpecialKey(SpecialKey::Esc)), &mut effects);
    assert!(!state.leader_active);
    assert!(!state.terminal_grabbed);
}
