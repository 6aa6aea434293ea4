//! The state that the program starts in, and the colours of highlights.

use vstd::prelude::*;
use crate::app_keys::all_themes_listed;
use crate::file_name_picker::{FileNamePickerComponent, focused_in_front, open_results};
use crate::fuzzy_picker::{FuzzyPickerState, Picker};
use crate::geometry::Size;
use crate::keyed::KeyedMap;
use crate::keymap::{Bindings, Keymap};
use crate::pane_manager::{PaneManager, Panes, Window, valid_stack};
use crate::render::{RgbValue, rgb};
use crate::session_time::{Nanos, SessionTime};
use crate::state::{App, AppState, File, LoadedFile, files_of, highlights_of, restores_of, terms_of};
use crate::theme::{HelixTheme, Theme};

verus! {

/// The state of a program that has just started: the picker for files is open, and nothing else.
pub open spec fn started(
    files: Seq<File>,
    root: Seq<char>,
    theme: Theme,
    keymap: Bindings,
    now: Nanos,
) -> App {
    let panes = focused_in_front(
        Panes { stack: Seq::empty(), focused: None, states: Map::empty() },
        Window::FileNamePicker,
    );
    App {
        files,
        files_version: 0,
        root,
        panes,
        last_surface_size: Size { col_width: 0, row_height: 0 },
        highlights: Map::empty(),
        leader_active: false,
        command_mode_active: false,
        file_name_picker: Picker {
            query: Seq::empty(),
            results: open_results(files, panes.stack),
            selected: None,
        },
        theme_picker: all_themes_listed(theme.name),
        theme,
        saved_theme: theme,
        terminals: Map::empty(),
        next_terminal_id: 0,
        pending_terminals: Map::empty(),
        terminal_to_preview: Map::empty(),
        mouse_drag_active: false,
        terminal_grabbed: false,
        text_selection: None,
        session_dirty_at: None,
        time: SessionTime {
            session_start: now,
            last_activity: now,
            last_tick: now,
            active_accum: 0,
            focused: true,
            prior_active: 0,
            prior_total: 0,
        },
        show_timers: true,
        count_render_as_active: true,
        symbol_highlights: Seq::empty(),
        next_palette_index: 0,
        keymap,
    }
}

impl AppState {
    /// The state of a program that starts at `now`.
    pub fn new(
        files: Vec<LoadedFile>,
        root: String,
        theme: HelixTheme,
        keymap: Keymap,
        now: Nanos,
    ) -> (r: Self)
        requires
            forall|i: int|
                0 <= i < files@.len() ==> (#[trigger] files@[i]).data.wf()
                    && files@[i]@.colors_fit(),
        ensures
            r@ == started(files_of(files@), root@, theme@, keymap@, now),
            r.wf(),
    {
        let saved_theme = theme.copy();
        let ghost goal = started(files_of(files@), root@, theme@, keymap@, now);
        let mut pane_manager = PaneManager::new();
        pane_manager.push_window(Window::FileNamePicker);
        pane_manager.focused_window = Some(Window::FileNamePicker);
        proof {
            Seq::<Window>::empty().index_of_first_ensures(Window::FileNamePicker);
            assert(pane_manager@.stack =~= seq![Window::FileNamePicker]);
        }
        let results = FileNamePickerComponent::open_previews_results(
            &files,
            &pane_manager.window_stack,
        );
        let mut state = AppState {
            files,
            files_version: 0,
            root,
            pane_manager,
            last_surface_size: Size { col_width: 0, row_height: 0 },
            highlight_ranges: KeyedMap::new(),
            leader_active: false,
            command_mode_active: false,
            file_name_picker: FuzzyPickerState {
                query: String::new(),
                results: Vec::new(),
                selected: None,
            },
            theme_picker: FuzzyPickerState {
                query: String::new(),
                results: Vec::new(),
                selected: None,
            },
            theme,
            saved_theme,
            terminal_panes: KeyedMap::new(),
            next_terminal_id: 0,
            pending_terminals: KeyedMap::new(),
            terminal_to_preview: KeyedMap::new(),
            mouse_drag_active: false,
            terminal_grabbed: false,
            text_selection: None,
            session_dirty_at: None,
            time: SessionTime::starting_at(now),
            show_timers: true,
            count_render_as_active: true,
            symbol_highlights: Vec::new(),
            next_palette_index: 0,
            keymap,
        };
        proof {
            assert(highlights_of(state.highlight_ranges@) =~= Map::empty());
            assert(terms_of(state.terminal_panes@) =~= Map::empty());
            assert(restores_of(state.pending_terminals@) =~= Map::empty());
            assert forall|i: int| 0 <= i < state@.files.len() implies (
            #[trigger] state@.files[i]).colors_fit() by {
                assert(state.files@[i]@.colors_fit());
            }
            reveal(valid_stack);
            assert(state@.wf());
        }
        state.set_file_results(results);
        state.list_all_themes();
        assert(state@ =~= goal);
        state
    }
}

/// The state of a program that starts at `now` with the built-in bindings.
pub fn build_state(files: Vec<LoadedFile>, root: String, theme: HelixTheme, now: Nanos) -> (r:
    AppState)
    requires
        forall|i: int|
            0 <= i < files@.len() ==> (#[trigger] files@[i]).data.wf() && files@[i]@.colors_fit(),
    ensures
        r@ == started(files_of(files@), root@, theme@, Bindings::built_in(), now),
        r.wf(),
{
    AppState::new(files, root, theme, Keymap::default(), now)
}

/// Search-match highlight background (teal).
pub open spec fn match_color() -> RgbValue {
    rgb(0, 140, 150)
}

/// The brighter variant for the current match.
pub open spec fn current_match_color() -> RgbValue {
    rgb(40, 205, 220)
}

/// The colours of symbol highlights.
pub open spec fn symbol_colors() -> Seq<RgbValue> {
    seq![
        rgb(255, 100, 100),
        rgb(100, 200, 255),
        rgb(255, 200, 100),
        rgb(150, 255, 100),
        rgb(255, 150, 255),
        rgb(255, 255, 100),
        rgb(100, 150, 255),
        rgb(200, 255, 200),
    ]
}

/// Search-match highlight background (teal).
pub fn search_match() -> (r: RgbValue)
    ensures
        r == match_color(),
{
    RgbValue::new(0, 140, 150)
}

/// Search-match highlight background for the current match.
pub fn search_current() -> (r: RgbValue)
    ensures
        r == current_match_color(),
{
    RgbValue::new(40, 205, 220)
}

/// The text of search matches: near-white on the teal.
pub fn search_match_fg() -> (r: RgbValue)
    ensures
        r == rgb(235, 235, 235),
{
    RgbValue::new(235, 235, 235)
}

/// The text of the current match: near-black on the brighter teal.
pub fn search_current_fg() -> (r: RgbValue)
    ensures
        r == rgb(20, 20, 20),
{
    RgbValue::new(20, 20, 20)
}

/// The colours of symbol highlights.
pub fn symbol_palette() -> (r: Vec<RgbValue>)
    ensures
        r@ == symbol_colors(),
{
    let colors: Vec<RgbValue> = vec![
        RgbValue::new(255, 100, 100),
        RgbValue::new(100, 200, 255),
        RgbValue::new(255, 200, 100),
        RgbValue::new(150, 255, 100),
        RgbValue::new(255, 150, 255),
        RgbValue::new(255, 255, 100),
        RgbValue::new(100, 150, 255),
        RgbValue::new(200, 255, 200),
    ];
    assert(colors@ =~= symbol_colors());
    colors
}

/// Search matches are told apart from symbol highlights, and the current match from the others.
pub proof fn law_search_colors_are_distinct(i: int)
    requires
        0 <= i < symbol_colors().len(),
    ensures
        symbol_colors()[i] != match_color(),
        symbol_colors()[i] != current_match_color(),
        match_color() != current_match_color(),
{
}

} // verus!
