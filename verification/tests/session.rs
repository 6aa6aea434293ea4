use explorer::app_start::build_state;
use explorer::geometry::{Pos, Size};
use explorer::keyed::KeyedMap;
use explorer::loader::FileKey;
use explorer::pane_manager::{PaneSize, Window, WindowState};
use explorer::screen::Screen;
use explorer::session::{PaneEntry, SESSION_VERSION, SerializablePaneSize, Session};
use explorer::session_file::{session_file_name, session_file_path, temporary_path};
use explorer::state::{AppState, LoadedFile, TerminalPane};
use explorer::theme::HelixTheme;

const ROOT: &str = "/tmp/repo";

fn state_with(files: Vec<LoadedFile>) -> AppState {
    build_state(files, ROOT.to_string(), HelixTheme::default(), 0)
}

fn loaded(path: &str, text: &str) -> LoadedFile {
    LoadedFile::load(format!("{ROOT}/{path}"), Some(text.to_string())).unwrap()
}

fn session_of(panes: Vec<PaneEntry>) -> Session {
    Session {
        version: SESSION_VERSION,
        repo_root: ROOT.to_string(),
        panes,
        highlight_ranges: KeyedMap::new(),
    }
}

fn preview(path: &str, scroll: usize, pane_size: SerializablePaneSize) -> PaneEntry {
    PaneEntry::FilePreview { path: path.to_string(), scroll, pane_size }
}

fn dummy_terminal_pane(cwd: String, command: Option<String>) -> TerminalPane {
    TerminalPane {
        screen: Screen {
            buffer: Vec::new(),
            scrollback: Vec::new(),
            size: Size { col_width: 0, row_height: 0 },
            cursor_pos: Pos { col_index: 0, row_index: 0 },
            cursor_visible: true,
            alternate: false,
            mouse_tracking: false,
            bracketed_paste: false,
            focus_events: false,
            application_cursor: false,
        },
        title: None,
        last_size: Size { col_width: 0, row_height: 0 },
        is_command_pane: command.is_some(),
        exited: false,
        exit_code: None,
        exit_signal: None,
        scroll_offset: 0,
        cwd,
        command,
    }
}

#[test]
fn session_from_state_preserves_window_stack_order() {
    let mut state = state_with(vec![loaded("src/main.rs", "fn main() {}\n")]);

    state.pane_manager.window_stack = vec![Window::FilePreview(FileKey(0)), Window::Terminal(1)];
    state.pane_manager.window_states.insert(
        Window::FilePreview(FileKey(0)),
        WindowState { scroll: 3, pane_size: PaneSize::Half, ..Default::default() },
    );
    state.pane_manager.window_states.insert(
        Window::Terminal(1),
        WindowState { pane_size: PaneSize::Quarter, ..Default::default() },
    );
    state.terminal_panes.insert(
        1,
        dummy_terminal_pane(ROOT.to_string(), Some("cargo test".to_string())),
    );

    let session = Session::from_state(&state);
    let kinds: Vec<_> = session
        .panes
        .iter()
        .map(|entry| match entry {
            PaneEntry::FilePreview { .. } => "file_preview",
            PaneEntry::Terminal { .. } => "terminal",
        })
        .collect();
    assert_eq!(kinds, vec!["file_preview", "terminal"]);

    assert!(matches!(
        &session.panes[0],
        PaneEntry::FilePreview { path, scroll: 3, pane_size: SerializablePaneSize::Half }
            if path == "src/main.rs"
    ));
    assert!(matches!(&session.panes[1], PaneEntry::Terminal { command: Some(_), .. }));
}

#[test]
fn session_apply_creates_stubs_and_restores_highlights() {
    let mut state = state_with(Vec::new());

    let mut session = session_of(vec![preview("missing.rs", 0, SerializablePaneSize::Full)]);
    session.highlight_ranges.insert("missing.rs".to_string(), vec![(1, 5)]);

    session.apply(&mut state, ROOT, ROOT);

    assert_eq!(state.pane_manager.window_stack.len(), 1);
    assert!(matches!(
        state.pane_manager.window_stack[0],
        Window::FilePreview(FileKey(0))
    ));

    assert_eq!(state.files.len(), 1);
    assert!(state.files[0].removed);
    assert_eq!(state.files[0].path, "/tmp/repo/missing.rs");

    assert_eq!(state.highlight_ranges.len(), 1);
    assert_eq!(state.highlight_ranges.get(&FileKey(0)), Some(&vec![(1, 5)]));
}

#[test]
fn session_apply_batches_stubs_so_multiple_missing_files_get_distinct_keys() {
    // One real file, so that the list is not empty.
    let mut state = state_with(vec![loaded("b.rs", "// b.rs content\n")]);

    // Session has two missing-file previews whose paths sort differently
    // from the order they appear in the session.
    let session = session_of(vec![
        preview("missing_x.rs", 0, SerializablePaneSize::Half),
        preview("missing_a.rs", 10, SerializablePaneSize::Half),
    ]);

    session.apply(&mut state, ROOT, ROOT);

    assert_eq!(state.pane_manager.window_stack.len(), 2);
    // After sorting: b.rs(0), missing_a.rs(1), missing_x.rs(2).
    // Windows appear in session order (missing_x first, missing_a second).
    assert_eq!(
        state.pane_manager.window_stack[0],
        Window::FilePreview(FileKey(2)),
        "missing_x.rs should be at FileKey(2) after sorting"
    );
    assert_eq!(
        state.pane_manager.window_stack[1],
        Window::FilePreview(FileKey(1)),
        "missing_a.rs should be at FileKey(1) after sorting"
    );

    // The two FileKeys must be distinct.
    assert_ne!(
        state.pane_manager.window_stack[0],
        state.pane_manager.window_stack[1],
    );
}

#[test]
fn session_apply_stores_terminal_restore_infos() {
    let mut state = state_with(Vec::new());

    let session = session_of(vec![PaneEntry::Terminal {
        command: Some("cargo test".to_string()),
        cwd: ROOT.to_string(),
        is_command_pane: true,
        pane_size: SerializablePaneSize::Quarter,
    }]);

    session.apply(&mut state, ROOT, ROOT);

    assert_eq!(state.pending_terminals.len(), 1);
    let pending = state.pending_terminals.get(&0).unwrap();
    assert_eq!(pending.command, Some("cargo test".to_string()));
    assert_eq!(pending.cwd, ROOT);
    assert!(pending.is_command_pane);
}

#[test]
fn session_apply_skips_when_repo_root_mismatches() {
    let mut state = state_with(Vec::new());
    let session = session_of(vec![preview("src/main.rs", 10, SerializablePaneSize::Half)]);

    session.apply(&mut state, "/tmp/other", ROOT);

    assert_eq!(state.pane_manager.window_stack.len(), 1);
    assert!(matches!(state.pane_manager.window_stack[0], Window::FileNamePicker));
    assert_eq!(state.highlight_ranges.len(), 0);
    assert_eq!(state.pending_terminals.len(), 0);
}

#[test]
fn session_file_path_is_deterministic_and_under_sessions_dir() {
    let dir = "/home/user/.local/share/explorer/sessions";

    let path1 = session_file_path(dir, ROOT);
    let path2 = session_file_path(dir, ROOT);
    assert_eq!(path1, path2);
    assert!(path1.starts_with(dir));
    assert!(path1.ends_with(".json"));
    // The first eight bytes of the SHA-256 digest of "abc".
    assert_eq!(session_file_path("/d", "abc"), "/d/ba7816bf8f01cfea.json");
    assert_eq!(temporary_path("/d/x.json"), "/d/x.json.tmp");
}

#[test]
fn session_file_name_is_hexadecimal() {
    let hash = vec![0x00, 0x0f, 0xf0, 0xff, 0x10, 0x9a, 0xab, 0xcd, 0xee];
    assert_eq!(session_file_name(&hash), "000ff0ff109aabcd.json");
}

#[test]
fn saved_windows_come_back() {
    let files = || vec![loaded("a.rs", "a\n"), loaded("b.rs", "b\n"), loaded("c.rs", "c\n")];
    let mut state = state_with(files());
    state.pane_manager.window_stack = vec![
        Window::FilePreview(FileKey(2)),
        Window::FileNamePicker,
        Window::Terminal(7),
        Window::FilePreview(FileKey(0)),
    ];
    state.highlight_ranges.insert(FileKey(2), vec![(1, 1)]);
    // The terminal of an editor is saved as the preview of its file.
    state.terminal_to_preview.insert(7, FileKey(1));
    let session = Session::from_state(&state);

    let mut again = state_with(files());
    session.apply(&mut again, ROOT, ROOT);
    assert_eq!(
        again.pane_manager.window_stack,
        vec![
            Window::FilePreview(FileKey(2)),
            Window::FilePreview(FileKey(1)),
            Window::FilePreview(FileKey(0)),
        ]
    );
    assert_eq!(again.pane_manager.focused_window, Some(Window::FilePreview(FileKey(2))));
    assert_eq!(again.highlight_ranges.get(&FileKey(2)), Some(&vec![(1, 1)]));
    assert!(again.files[2].needs_full_load);
    assert_eq!(again.files.len(), 3);
}

#[test]
fn files_outside_the_root_and_ended_programs_are_not_saved() {
    let mut state = state_with(vec![
        LoadedFile::load("/elsewhere/x.rs".to_string(), Some(String::new())).unwrap(),
    ]);
    let mut ended = dummy_terminal_pane(ROOT.to_string(), None);
    ended.exited = true;
    state.terminal_panes.insert(4, ended);
    state.pane_manager.window_stack =
        vec![Window::FilePreview(FileKey(0)), Window::Terminal(4), Window::Terminal(5)];
    assert!(Session::from_state(&state).panes.is_empty());
}

#[test]
fn an_empty_session_leaves_the_windows() {
    let mut state = state_with(vec![loaded("a.rs", "")]);
    session_of(Vec::new()).apply(&mut state, ROOT, ROOT);
    assert_eq!(state.pane_manager.window_stack, vec![Window::FileNamePicker]);
}

#[test]
fn sessions_of_other_versions_are_not_current() {
    let mut session = session_of(Vec::new());
    assert!(session.is_current());
    session.version = 1;
    assert!(!session.is_current());
}

#[test]
fn sizes_read_back_as_they_were_saved() {
    for size in [PaneSize::Full, PaneSize::Half, PaneSize::Third, PaneSize::Quarter] {
        assert_eq!(PaneSize::from(SerializablePaneSize::from(size)), size);
    }
}

#[test]
fn a_file_that_is_saved_twice_comes_back_once() {
    let mut state = state_with(vec![loaded("a.rs", ""), loaded("b.rs", "")]);
    session_of(vec![
        preview("a.rs", 3, SerializablePaneSize::Half),
        preview("b.rs", 0, SerializablePaneSize::Full),
        preview("./a.rs", 9, SerializablePaneSize::Full),
    ])
    .apply(&mut state, ROOT, ROOT);
    let a = Window::FilePreview(FileKey(0));
    assert_eq!(state.pane_manager.window_stack, vec![a, Window::FilePreview(FileKey(1))]);
    // The first of the two decides.
    assert_eq!(state.pane_manager.window_state(&a).scroll, 3);
    assert_eq!(state.pane_manager.window_state(&a).pane_size, PaneSize::Half);
}

#[test]
fn missing_files_follow_the_others_in_order() {
    let mut state = state_with(vec![loaded("m.rs", "")]);
    session_of(vec![
        preview("z.rs", 0, SerializablePaneSize::Full),
        preview("a/x.rs", 0, SerializablePaneSize::Full),
        preview("m.rs", 0, SerializablePaneSize::Full),
        preview("a.rs", 0, SerializablePaneSize::Full),
    ])
    .apply(&mut state, ROOT, ROOT);
    let paths: Vec<String> = state.files.iter().map(|f| f.path.clone()).collect();
    // Paths are ordered by their components.
    let expected = ["m.rs", "a/x.rs", "a.rs", "z.rs"].map(|p| format!("{ROOT}/{p}"));
    assert_eq!(paths, expected.to_vec());
    assert!(state.files[1..].iter().all(|f| f.removed));
}

#[test]
fn ranges_come_back_as_they_were_saved() {
    let mut state = state_with(vec![loaded("a.rs", "")]);
    let mut session = session_of(vec![preview("a.rs", 0, SerializablePaneSize::Full)]);
    session.highlight_ranges.insert("a.rs".to_string(), vec![(1, 2), (5, 4), (7, 7)]);
    session.apply(&mut state, ROOT, ROOT);
    assert_eq!(state.highlight_ranges.get(&FileKey(0)), Some(&vec![(1, 2), (5, 4), (7, 7)]));
}
