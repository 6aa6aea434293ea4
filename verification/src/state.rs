//! The state of the program.

use vstd::prelude::*;
use crate::bytes::{byte_len, is_boundary};
use crate::effect::{Act, Effect, PtyInput, PtyInputEvent, acts, perform};
use crate::fuzzy_picker::{FuzzyPickerState, Picker};
use crate::geometry::Size;
use crate::keyed::{KeyedMap, MapKey};
use crate::keymap::{Bindings, Keymap};
use crate::loader::{FileData, FileKey, line_of, starts_of};
use crate::pane_manager::{PaneManager, Panes, TextSelection, Window, valid_stack};
use crate::paths::{same_path, same_place};
use crate::render::RgbValue;
use crate::screen::{Display, Screen};
use crate::session_time::{Nanos, SessionTime};
use crate::theme::{HelixTheme, Theme, optional_text};

verus! {

/// A stretch of a line, by its byte offsets, and the type of the token that it holds.
pub type ColoredSpan = (usize, usize, &'static str);

/// The tokens of a line.
pub type ColoredLine = Vec<ColoredSpan>;

/// The tokens of some lines.
pub open spec fn colors_of(lines: Seq<ColoredLine>) -> Seq<Seq<(usize, usize, Seq<char>)>> {
    Seq::new(
        lines.len(),
        |i: int|
            Seq::new(
                lines[i]@.len(),
                |j: int| (lines[i]@[j].0, lines[i]@[j].1, lines[i]@[j].2@),
            ),
    )
}

/// A byte offset that lies within a line is that of a character, or the end of the line.
pub open spec fn offset_fits(line: Seq<char>, offset: int) -> bool {
    offset < byte_len(line) ==> is_boundary(line, offset)
}

/// A file of the list.
pub struct LoadedFile {
    pub path: String,
    pub data: FileData,
    pub colored_lines: Vec<ColoredLine>,
    pub removed: bool,
    pub needs_full_load: bool,
}

/// What a [`LoadedFile`] stands for.
#[verifier::ext_equal]
pub struct File {
    pub path: Seq<char>,
    pub text: Seq<char>,
    pub colors: Seq<Seq<(usize, usize, Seq<char>)>>,
    pub removed: bool,
    pub needs_full_load: bool,
}

impl View for LoadedFile {
    type V = File;

    open spec fn view(&self) -> File {
        File {
            path: self.path@,
            text: self.data.content@,
            colors: colors_of(self.colored_lines@),
            removed: self.removed,
            needs_full_load: self.needs_full_load,
        }
    }
}

impl File {
    /// A file with a path and a text, and no tokens yet.
    pub open spec fn fresh(path: Seq<char>, text: Seq<char>) -> File {
        File { path, text, colors: Seq::empty(), removed: false, needs_full_load: false }
    }

    /// A file that is not there.
    pub open spec fn missing(path: Seq<char>) -> File {
        File { removed: true, ..File::fresh(path, Seq::empty()) }
    }

    /// The tokens start and end at characters of their lines.
    pub open spec fn colors_fit(self) -> bool {
        forall|i: int, j: int|
            #![trigger self.colors[i][j]]
            0 <= i < self.colors.len() && i < starts_of(self.text).len() && 0 <= j
                < self.colors[i].len() ==> offset_fits(
                line_of(self.text, i),
                self.colors[i][j].0 as int,
            ) && offset_fits(line_of(self.text, i), self.colors[i][j].1 as int)
    }

    /// The same file with another text, and no tokens yet.
    pub open spec fn with_text(self, text: Seq<char>) -> File {
        File { text, colors: Seq::empty(), ..self }
    }
}

impl LoadedFile {
    /// A file that was read: `None` where `content` is, because it could not be read.
    pub fn load(path: String, content: Option<String>) -> (r: Option<Self>)
        ensures
            match r {
                Some(f) => f.data.wf() && content is Some && f@ == File::fresh(
                    path@,
                    content->0@,
                ),
                None => content is None,
            },
    {
        match content {
            Some(content) => {
                let f = LoadedFile {
                    path,
                    data: FileData::new(content),
                    colored_lines: Vec::new(),
                    removed: false,
                    needs_full_load: false,
                };
                assert(f@ =~= File::fresh(path@, content@));
                Some(f)
            },
            None => None,
        }
    }

    /// Puts what was read from disk in place of the text, and clears the tokens. Returns `false`,
    /// and changes nothing, where the file could not be read.
    pub fn reload(&mut self, content: Option<String>) -> (r: bool)
        ensures
            r == content is Some,
            match content {
                Some(c) => final(self)@ == old(self)@.with_text(c@) && final(self).data.wf(),
                None => *final(self) == *old(self),
            },
    {
        match content {
            Some(content) => {
                self.data = FileData::new(content);
                self.colored_lines = Vec::new();
                assert(self@ =~= old(self)@.with_text(content@));
                true
            },
            None => false,
        }
    }

    /// A file that is not there, for a path that something refers to.
    pub fn stub(path: String) -> (r: Self)
        ensures
            r@ == File::missing(path@),
            r.data.wf(),
    {
        let content = String::new();
        let f = LoadedFile {
            path,
            data: FileData::new(content),
            colored_lines: Vec::new(),
            removed: true,
            needs_full_load: false,
        };
        assert(f@ =~= File::missing(path@));
        f
    }
}

/// What some files stand for.
pub open spec fn files_of(files: Seq<LoadedFile>) -> Seq<File> {
    Seq::new(files.len(), |i: int| files[i]@)
}

/// The first file from `i` on with a path.
pub open spec fn file_with_path(files: Seq<File>, path: Seq<char>, i: int) -> Option<int>
    decreases files.len() - i,
{
    if i >= files.len() {
        None
    } else if same_place(files[i].path, path) {
        Some(i)
    } else {
        file_with_path(files, path, i + 1)
    }
}

/// A file that is found has the path.
pub proof fn lemma_file_with_path(files: Seq<File>, path: Seq<char>, i: int)
    requires
        0 <= i,
    ensures
        match file_with_path(files, path, i) {
            Some(k) => i <= k < files.len() && same_place(files[k].path, path) && forall|j: int|
                i <= j < k ==> !same_place((#[trigger] files[j]).path, path),
            None => forall|k: int|
                i <= k < files.len() ==> !same_place((#[trigger] files[k]).path, path),
        },
    decreases files.len() - i,
{
    if i < files.len() {
        lemma_file_with_path(files, path, i + 1);
    }
}

/// The path of the file with a key.
pub fn path_for_file_key(files: &Vec<LoadedFile>, key: FileKey) -> (r: Option<&str>)
    ensures
        match r {
            Some(path) => key.0 < files@.len() && path@ == files_of(files@)[key.0 as int].path,
            None => key.0 >= files@.len(),
        },
{
    if key.0 < files.len() {
        Some(files[key.0].path.as_str())
    } else {
        None
    }
}

/// The key of the file with a path.
pub fn file_key_for_path(files: &Vec<LoadedFile>, path: &str) -> (r: Option<FileKey>)
    ensures
        match r {
            Some(key) => file_with_path(files_of(files@), path@, 0) == Some(key.0 as int) && key.0
                < files@.len(),
            None => file_with_path(files_of(files@), path@, 0) is None,
        },
{
    let ghost all = files_of(files@);
    let mut i: usize = 0;
    while i < files.len()
        invariant
            i <= files@.len(),
            all == files_of(files@),
            file_with_path(all, path@, i as int) == file_with_path(all, path@, 0),
        decreases files@.len() - i,
    {
        assert(all[i as int].path == files@[i as int].path@);
        if same_path(files[i].path.as_str(), path) {
            return Some(FileKey(i));
        }
        i += 1;
    }
    None
}

/// The path of a key leads back to the key, where no other file is at the same place.
pub proof fn law_path_leads_back_to_key(files: Seq<File>, key: int)
    requires
        0 <= key < files.len(),
        forall|i: int, j: int|
            0 <= i < j < files.len() ==> !same_place(
                (#[trigger] files[i]).path,
                (#[trigger] files[j]).path,
            ),
    ensures
        file_with_path(files, files[key].path, 0) == Some(key),
{
    lemma_file_with_path(files, files[key].path, 0);
}

/// A terminal pane.
pub struct TerminalPane {
    pub screen: Screen,
    pub title: Option<String>,
    pub last_size: Size,
    /// Opened to run a command rather than as an interactive shell.
    pub is_command_pane: bool,
    /// The program has ended; the pane stays visible until it is dismissed.
    pub exited: bool,
    /// Exit code of the program, set when `exited` becomes true.
    pub exit_code: Option<u32>,
    /// Signal name (e.g. "SIGSEGV") if the program was ended by a signal.
    pub exit_signal: Option<String>,
    /// How many lines back from the bottom of the terminal the viewport is scrolled.
    /// 0 means showing the current buffer (bottom); >0 shows scrollback history.
    pub scroll_offset: usize,
    /// Working directory of the program.
    pub cwd: String,
    /// Command that was run, if any.
    pub command: Option<String>,
}

/// What a [`TerminalPane`] stands for.
#[verifier::ext_equal]
pub struct Term {
    pub screen: Display,
    pub title: Option<Seq<char>>,
    pub last_size: Size,
    pub is_command_pane: bool,
    pub exited: bool,
    pub exit_code: Option<u32>,
    pub exit_signal: Option<Seq<char>>,
    pub scroll_offset: usize,
    pub cwd: Seq<char>,
    pub command: Option<Seq<char>>,
}

impl View for TerminalPane {
    type V = Term;

    open spec fn view(&self) -> Term {
        Term {
            screen: self.screen@,
            title: optional_text(self.title),
            last_size: self.last_size,
            is_command_pane: self.is_command_pane,
            exited: self.exited,
            exit_code: self.exit_code,
            exit_signal: optional_text(self.exit_signal),
            scroll_offset: self.scroll_offset,
            cwd: self.cwd@,
            command: optional_text(self.command),
        }
    }
}

/// What is known of a terminal from an earlier session.
pub struct TerminalRestoreInfo {
    pub cwd: String,
    pub command: Option<String>,
    pub is_command_pane: bool,
}

/// What a [`TerminalRestoreInfo`] stands for.
#[verifier::ext_equal]
pub struct Restore {
    pub cwd: Seq<char>,
    pub command: Option<Seq<char>>,
    pub is_command_pane: bool,
}

impl View for TerminalRestoreInfo {
    type V = Restore;

    open spec fn view(&self) -> Restore {
        Restore {
            cwd: self.cwd@,
            command: optional_text(self.command),
            is_command_pane: self.is_command_pane,
        }
    }
}

impl MapKey for FileKey {
    type Id = FileKey;

    open spec fn id(&self) -> FileKey {
        *self
    }

    fn same_id(&self, other: &Self) -> (r: bool) {
        *self == *other
    }

    fn duplicate(&self) -> (r: Self) {
        *self
    }
}

/// Where a symbol is referred to.
#[derive(Clone, Copy, Debug)]
pub struct SymbolRefLocation {
    pub file_key: FileKey,
    pub start_byte: usize,
    pub end_byte: usize,
}

/// A symbol whose references are highlighted.
#[derive(Debug)]
pub struct SymbolHighlightGroup {
    pub qualified_name: String,
    pub origin_file: FileKey,
    pub origin_line: u32,
    pub origin_char: u32,
    /// The word that was clicked.
    pub origin_word: Option<String>,
    pub origin_byte_start: Option<usize>,
    pub origin_byte_end: Option<usize>,
    pub color: RgbValue,
    pub locations: Vec<SymbolRefLocation>,
    pub needs_rebuild: bool,
}

/// Which way a search goes.
#[derive(Clone, Copy, Debug, PartialEq, Eq, Structural)]
pub enum SearchDirection {
    Forward,
    Backward,
}

/// The state of the program.
pub struct AppState {
    pub files: Vec<LoadedFile>,
    pub files_version: u64,
    pub root: String,
    /// Pane stack, sizes, layout, and focus state.
    pub pane_manager: PaneManager,
    /// Last known surface size used for on-demand layout recomputation.
    pub last_surface_size: Size,
    /// Per-file highlight ranges (1-indexed, inclusive).
    pub highlight_ranges: KeyedMap<FileKey, Vec<(usize, usize)>>,
    pub leader_active: bool,
    pub command_mode_active: bool,
    pub file_name_picker: FuzzyPickerState<Window>,
    pub theme_picker: FuzzyPickerState<String>,
    pub theme: HelixTheme,
    pub saved_theme: HelixTheme,
    /// Terminal panes keyed by their unique ID.
    pub terminal_panes: KeyedMap<usize, TerminalPane>,
    /// Next available terminal pane ID.
    pub next_terminal_id: usize,
    /// Terminal windows restored from the session that still need a program started.
    pub pending_terminals: KeyedMap<usize, TerminalRestoreInfo>,
    /// The files that come back when the editors in some terminals end.
    pub terminal_to_preview: KeyedMap<usize, FileKey>,
    pub mouse_drag_active: bool,
    pub terminal_grabbed: bool,
    pub text_selection: Option<TextSelection>,
    pub session_dirty_at: Option<Nanos>,
    /// Active/total time tracking for the session and project time counters.
    pub time: SessionTime,
    /// Whether the status-bar time counters are rendered.
    pub show_timers: bool,
    /// Whether terminal output counts as active time even without keyboard input.
    pub count_render_as_active: bool,
    pub symbol_highlights: Vec<SymbolHighlightGroup>,
    pub next_palette_index: usize,
    /// Configurable top-level (leader + global) key bindings.
    pub keymap: Keymap,
}

/// What an [`AppState`] stands for.
#[verifier::ext_equal]
pub struct App {
    pub files: Seq<File>,
    pub files_version: u64,
    pub root: Seq<char>,
    pub panes: Panes,
    pub last_surface_size: Size,
    pub highlights: Map<FileKey, Seq<(usize, usize)>>,
    pub leader_active: bool,
    pub command_mode_active: bool,
    pub file_name_picker: Picker<Window>,
    pub theme_picker: Picker<Seq<char>>,
    pub theme: Theme,
    pub saved_theme: Theme,
    pub terminals: Map<usize, Term>,
    pub next_terminal_id: usize,
    pub pending_terminals: Map<usize, Restore>,
    pub terminal_to_preview: Map<usize, FileKey>,
    pub mouse_drag_active: bool,
    pub terminal_grabbed: bool,
    pub text_selection: Option<TextSelection>,
    pub session_dirty_at: Option<Nanos>,
    pub time: SessionTime,
    pub show_timers: bool,
    pub count_render_as_active: bool,
    pub symbol_highlights: Seq<SymbolHighlightGroup>,
    pub next_palette_index: usize,
    pub keymap: Bindings,
}

/// What the terminals of a map stand for.
pub open spec fn terms_of(m: Map<usize, TerminalPane>) -> Map<usize, Term> {
    Map::new(|id: usize| m.contains_key(id), |id: usize| m[id]@)
}

/// What the ranges of a map stand for.
pub open spec fn highlights_of(m: Map<FileKey, Vec<(usize, usize)>>) -> Map<
    FileKey,
    Seq<(usize, usize)>,
> {
    Map::new(|k: FileKey| m.contains_key(k), |k: FileKey| m[k]@)
}

/// What the terminals from an earlier session stand for.
pub open spec fn restores_of(m: Map<usize, TerminalRestoreInfo>) -> Map<usize, Restore> {
    Map::new(|id: usize| m.contains_key(id), |id: usize| m[id]@)
}

impl View for AppState {
    type V = App;

    open spec fn view(&self) -> App {
        App {
            files: files_of(self.files@),
            files_version: self.files_version,
            root: self.root@,
            panes: self.pane_manager@,
            last_surface_size: self.last_surface_size,
            highlights: highlights_of(self.highlight_ranges@),
            leader_active: self.leader_active,
            command_mode_active: self.command_mode_active,
            file_name_picker: self.file_name_picker@,
            theme_picker: self.theme_picker@,
            theme: self.theme@,
            saved_theme: self.saved_theme@,
            terminals: terms_of(self.terminal_panes@),
            next_terminal_id: self.next_terminal_id,
            pending_terminals: restores_of(self.pending_terminals@),
            terminal_to_preview: self.terminal_to_preview@,
            mouse_drag_active: self.mouse_drag_active,
            terminal_grabbed: self.terminal_grabbed,
            text_selection: self.text_selection,
            session_dirty_at: self.session_dirty_at,
            time: self.time,
            show_timers: self.show_timers,
            count_render_as_active: self.count_render_as_active,
            symbol_highlights: self.symbol_highlights@,
            next_palette_index: self.next_palette_index,
            keymap: self.keymap@,
        }
    }
}

impl App {
    /// No window stands in the stack twice and each has a state, every preview in the stack and in
    /// the picker is of a file in the list, the tokens of the files start and end at characters, and
    /// the lines of the terminals can be counted.
    pub open spec fn wf(self) -> bool {
        &&& self.panes.wf()
        &&& forall|i: int|
            0 <= i < self.panes.stack.len() ==> ((#[trigger] self.panes.stack[i]) matches Window::FilePreview(
                key,
            ) ==> key.0 < self.files.len())
        &&& forall|i: int|
            0 <= i < self.file_name_picker.results.len() ==> ((
            #[trigger] self.file_name_picker.results[i]).0 matches Window::FilePreview(key)
                ==> key.0 < self.files.len())
        &&& forall|i: int| 0 <= i < self.files.len() ==> (#[trigger] self.files[i]).colors_fit()
        &&& forall|id: usize|
            self.terminals.contains_key(id) ==> (#[trigger] self.terminals[id]).screen.wf()
    }

    /// The state of one terminal is another.
    pub open spec fn with_terminal(self, id: usize, t: Term) -> App {
        App { terminals: self.terminals.insert(id, t), ..self }
    }

    /// The session has changed at `now`.
    pub open spec fn dirty(self, now: Nanos) -> App {
        App { session_dirty_at: Some(now), ..self }
    }

    /// The keyboard belongs to a terminal only while a terminal has the focus.
    pub open spec fn grab_synced(self) -> App {
        App {
            terminal_grabbed: self.terminal_grabbed && (self.panes.focused matches Some(
                Window::Terminal(_),
            )),
            ..self
        }
    }

    /// What a terminal is told of the focus, where its program asked for focus events.
    pub open spec fn focus_act(self, window: Option<Window>, bytes: Seq<u8>) -> Seq<Act> {
        match window {
            Some(Window::Terminal(id)) => if self.terminals.contains_key(id)
                && self.terminals[id].screen.focus_events {
                seq![Act::Pty { id, event: PtyInput::Write(bytes) }]
            } else {
                Seq::empty()
            },
            _ => Seq::empty(),
        }
    }

    /// What terminals are told when the focus goes from one window to another.
    pub open spec fn focus_acts(self, from: Option<Window>, to: Option<Window>) -> Seq<Act> {
        if from == to {
            Seq::empty()
        } else {
            self.focus_act(from, seq![0x1bu8, 0x5b, 0x4f]) + self.focus_act(
                to,
                seq![0x1bu8, 0x5b, 0x49],
            )
        }
    }
}

/// Changes elsewhere leave the state as valid as it was.
pub proof fn lemma_still_wf(before: App, after: App)
    requires
        before.wf(),
        after.files == before.files,
        after.panes.stack == before.panes.stack,
        forall|w: Window| #[trigger]
            before.panes.states.contains_key(w) ==> after.panes.states.contains_key(w),
        after.file_name_picker.results == before.file_name_picker.results,
        after.terminals == before.terminals,
    ensures
        after.wf(),
{
    reveal(valid_stack);
}

impl AppState {
    /// The texts of the files are in order, and so is the rest.
    pub open spec fn wf(&self) -> bool {
        &&& self@.wf()
        &&& forall|i: int| 0 <= i < self.files@.len() ==> (#[trigger] self.files@[i]).data.wf()
    }

    /// Marks the session as changed at `now`.
    pub fn mark_session_dirty(&mut self, now: Nanos)
        ensures
            final(self)@ == old(self)@.dirty(now),
            final(self).files == old(self).files,
    {
        self.session_dirty_at = Some(now);
    }

    /// Lets go of the keyboard where no terminal has the focus.
    pub fn sync_terminal_grabbed(&mut self)
        ensures
            final(self)@ == old(self)@.grab_synced(),
            final(self).files == old(self).files,
    {
        match self.pane_manager.focused_window {
            Some(Window::Terminal(_)) => {},
            _ => {
                self.terminal_grabbed = false;
            },
        }
    }

    /// Tells a terminal of the focus, where its program asked for focus events.
    fn notify_one(&self, window: Option<Window>, last: u8, effects: &mut Vec<Effect>)
        ensures
            acts(final(effects)@) == acts(old(effects)@) + self@.focus_act(
                window,
                seq![0x1bu8, 0x5b, last],
            ),
    {
        if let Some(Window::Terminal(id)) = window {
            if let Some(pane) = self.terminal_panes.get(&id) {
                if pane.screen.focus_events {
                    let bytes: Vec<u8> = vec![0x1bu8, 0x5b, last];
                    assert(bytes@ =~= seq![0x1bu8, 0x5b, last]);
                    perform(effects, Effect::Pty { id, event: PtyInputEvent::Write(bytes) });
                }
            }
        }
        assert(acts(effects@) =~= acts(old(effects)@) + self@.focus_act(
            window,
            seq![0x1bu8, 0x5b, last],
        ));
    }

    /// Tells terminals that the focus goes from one window to another.
    pub fn notify_terminal_focus_change(
        &self,
        from: Option<Window>,
        to: Option<Window>,
        effects: &mut Vec<Effect>,
    )
        ensures
            acts(final(effects)@) == acts(old(effects)@) + self@.focus_acts(from, to),
    {
        let ghost before = acts(effects@);
        if from != to {
            self.notify_one(from, 0x4f, effects);
            self.notify_one(to, 0x49, effects);
        }
        assert(acts(effects@) =~= before + self@.focus_acts(from, to));
    }

    /// Puts a terminal pane back under its id.
    pub fn put_terminal(&mut self, id: usize, pane: TerminalPane)
        ensures
            final(self)@ == old(self)@.with_terminal(id, pane@),
            final(self).files == old(self).files,
    {
        let ghost before = self.terminal_panes@;
        self.terminal_panes.insert(id, pane);
        assert(terms_of(self.terminal_panes@) =~= terms_of(before).insert(id, pane@));
    }
}

} // verus!
