//! The pane that shows a file.

use vstd::prelude::*;
use crate::bytes::{char_at, is_boundary};
use crate::effect::{Act, Effect, acts, perform};
use crate::ids::{FlexBoxId, pane_slot, slot_of};
use crate::input::{
    EventPropagation, InputEvent, Key, KeyPress, ModifierKeysMask, MouseInputKind, SpecialKey,
};
use crate::input_line::{InputLine, added_chars, edited, pasted_clusters};
use crate::loader::{FileKey, byte_range_of_line, word_offsets};
use crate::pane_manager::{Window, WindowState};
use crate::paths::{relative_path, shown_path};
use crate::preview_text::{
    content_width, gutter_width, line_number_width, parse_ranges, range_in_title, ranges_of_command,
    spot_at, spot_shown, text_width, title_range, title_with_ranges, write_title,
};
use crate::ranges::{
    block_scroll, compute_scroll_target, covers, cut_ranges, ranges_scroll, scroll_for_block,
    subtract_ranges, union_ranges, united,
};
use crate::screen::{greater, lesser, max_of, min_of};
use crate::session_time::{Nanos, SECOND, elapsed, time_between};
use crate::shell::{expand_placeholders, expanded, optional_str, places_of, word_ends};
use crate::state::{App, AppState, File, lemma_still_wf};
use crate::terminal_pane::{Outcome, passed_on, redraw};
use crate::text::{chars_of, copy_of, grapheme_clusters, text_of};
use crate::theme::optional_text;

verus! {

/// What a drag over lines does to their highlight: add it or take it away.
#[derive(Clone, Copy, Debug, PartialEq, Eq, Structural)]
pub enum DragModifier {
    Shift,
    Ctrl,
}

/// The pane that shows a file.
pub struct FilePreviewComponent {
    pub id: FlexBoxId,
    pub command_mode: Option<String>,
    pub command_input: InputLine,
    pub error: Option<(String, Nanos)>,
    pub drag_snapshot: Option<Vec<(usize, usize)>>,
    pub drag_start_line: Option<usize>,
    pub drag_modifier: Option<DragModifier>,
    pub text_drag_active: bool,
    pub text_drag_start: Option<(usize, usize)>,
    pub text_drag_end: Option<(usize, usize)>,
    /// Where the content was drawn last.
    pub content_origin_row: usize,
    pub content_origin_col: usize,
    pub content_col_count: usize,
    pub content_row_count: usize,
}

/// What a [`FilePreviewComponent`] stands for.
#[verifier::ext_equal]
pub struct Preview {
    pub id: FlexBoxId,
    pub command: Option<Seq<char>>,
    pub cursor: int,
    pub error: Option<(Seq<char>, Nanos)>,
    pub drag_snapshot: Option<Seq<(usize, usize)>>,
    pub drag_start_line: Option<usize>,
    pub drag_modifier: Option<DragModifier>,
    pub text_drag_active: bool,
    pub text_drag_start: Option<(usize, usize)>,
    pub text_drag_end: Option<(usize, usize)>,
    pub content_origin_row: usize,
    pub content_origin_col: usize,
    pub content_col_count: usize,
    pub content_row_count: usize,
}

impl View for FilePreviewComponent {
    type V = Preview;

    open spec fn view(&self) -> Preview {
        Preview {
            id: self.id,
            command: optional_text(self.command_mode),
            cursor: self.command_input.cursor() as int,
            error: match self.error {
                Some((msg, at)) => Some((msg@, at)),
                None => None,
            },
            drag_snapshot: match self.drag_snapshot {
                Some(ranges) => Some(ranges@),
                None => None,
            },
            drag_start_line: self.drag_start_line,
            drag_modifier: self.drag_modifier,
            text_drag_active: self.text_drag_active,
            text_drag_start: self.text_drag_start,
            text_drag_end: self.text_drag_end,
            content_origin_row: self.content_origin_row,
            content_origin_col: self.content_origin_col,
            content_col_count: self.content_col_count,
            content_row_count: self.content_row_count,
        }
    }
}

/// The file in the pane with an id.
pub open spec fn file_in(app: App, id: FlexBoxId) -> Option<FileKey> {
    match slot_of(id) {
        Some(slot) if slot < app.panes.stack.len() => match app.panes.stack[slot] {
            Window::FilePreview(key) => Some(key),
            _ => None,
        },
        _ => None,
    }
}

/// The title of a file without ranges.
pub open spec fn file_title(file: File, root: Seq<char>) -> Seq<char> {
    if file.removed {
        "[deleted] "@ + shown_path(file.path, root)
    } else {
        shown_path(file.path, root)
    }
}

/// The title of the file with a key.
pub open spec fn preview_title(app: App, key: FileKey) -> Seq<char> {
    let base = file_title(app.files[key.0 as int], app.root);
    if app.highlights.contains_key(key) {
        title_with_ranges(base, app.highlights[key])
    } else {
        base
    }
}

impl Preview {
    /// A drag over text has both its ends.
    pub open spec fn wf(self) -> bool {
        self.text_drag_active ==> self.text_drag_start is Some && self.text_drag_end is Some
    }

    /// Whether an error is still to be shown.
    pub open spec fn shows_error(self, now: Nanos) -> bool {
        self.error matches Some((_, at)) && time_between(at, now) < 3 * SECOND
    }

    /// The title of the pane.
    pub open spec fn title(self, app: App, now: Nanos) -> Seq<char> {
        if self.shows_error(now) {
            let (msg, at) = self.error->0;
            msg
        } else {
            match file_in(app, self.id) {
                Some(key) => preview_title(app, key),
                None => Seq::empty(),
            }
        }
    }

    /// The same without an error that has been shown long enough.
    pub open spec fn without_stale_error(self, now: Nanos) -> Preview {
        if self.shows_error(now) {
            self
        } else {
            Preview { error: None, ..self }
        }
    }

    /// No drag over lines.
    pub open spec fn drag_ended(self) -> Preview {
        Preview { drag_snapshot: None, drag_start_line: None, drag_modifier: None, ..self }
    }

    /// No drag over text.
    pub open spec fn text_drag_ended(self) -> Preview {
        Preview { text_drag_active: false, text_drag_start: None, text_drag_end: None, ..self }
    }

    /// The place in a file that a cell shows.
    pub open spec fn spot(self, app: App, key: FileKey, row: int, col: int) -> (int, int, int) {
        let text = app.files[key.0 as int].text;
        let lines = crate::loader::starts_of(text).len() as int;
        let right = col - self.content_origin_col - gutter_width(lines);
        spot_shown(
            text,
            app.panes.state_of(Window::FilePreview(key)).scroll as int,
            if right > 0 {
                right
            } else {
                0
            },
            if row > self.content_origin_row {
                row - self.content_origin_row
            } else {
                0
            },
            text_width(self.content_col_count as int, lines),
            self.content_row_count as int,
        )
    }
}

/// The highlight of a file is replaced, or gone where no range is left.
pub open spec fn with_highlights(app: App, key: FileKey, ranges: Seq<(usize, usize)>) -> App {
    App {
        highlights: if ranges.len() == 0 {
            app.highlights.remove(key)
        } else {
            app.highlights.insert(key, ranges)
        },
        ..app
    }
}

/// A drag over lines has come to `line`.
pub open spec fn dragged(p: Preview, app: App, key: FileKey, line: usize) -> App {
    match (p.drag_start_line, p.drag_modifier) {
        (Some(start), Some(modifier)) => {
            let ranges = match p.drag_snapshot {
                Some(ranges) => ranges,
                None => Seq::empty(),
            };
            let lo = lesser(start as int, line as int) as usize;
            let hi = greater(start as int, line as int) as usize;
            with_highlights(
                app,
                key,
                match modifier {
                    DragModifier::Shift => united(ranges, lo, hi),
                    DragModifier::Ctrl => cut_ranges(ranges, lo, hi, ranges.len() as int),
                },
            )
        },
        _ => app,
    }
}

impl AppState {
    /// Replaces the highlight of a file.
    pub fn set_highlights(&mut self, key: FileKey, ranges: Vec<(usize, usize)>)
        requires
            old(self).wf(),
        ensures
            final(self)@ == with_highlights(old(self)@, key, ranges@),
            final(self).files == old(self).files,
            final(self).wf(),
    {
        let ghost before = self@;
        let ghost m = self.highlight_ranges@;
        let ghost after = with_highlights(before, key, ranges@);
        if ranges.len() == 0 {
            let _ = self.highlight_ranges.remove(&key);
        } else {
            self.highlight_ranges.insert(key, ranges);
        }
        assert(self@.highlights =~= after.highlights);
        assert(self@ =~= after);
    }

    /// Scrolls a window, as far as its content goes.
    pub fn scroll_window(&mut self, window: &Window, scroll: usize)
        requires
            old(self).wf(),
        ensures
            final(self)@ == (App { panes: old(self)@.panes.scrolled(*window, scroll), ..old(self)@ }),
            final(self).files == old(self).files,
            final(self).wf(),
    {
        self.pane_manager.scroll_to(window, scroll);
        proof {
            lemma_still_wf(old(self)@, self@);
        }
    }
}

impl FilePreviewComponent {
    /// The pane, not drawn yet.
    pub fn new(id: FlexBoxId) -> (r: Self)
        ensures
            r@ == (Preview {
                id,
                command: None,
                cursor: 0,
                error: None,
                drag_snapshot: None,
                drag_start_line: None,
                drag_modifier: None,
                text_drag_active: false,
                text_drag_start: None,
                text_drag_end: None,
                content_origin_row: 0,
                content_origin_col: 0,
                content_col_count: 0,
                content_row_count: 0,
            }),
    {
        FilePreviewComponent {
            id,
            command_mode: None,
            command_input: InputLine::new(),
            error: None,
            drag_snapshot: None,
            drag_start_line: None,
            drag_modifier: None,
            text_drag_active: false,
            text_drag_start: None,
            text_drag_end: None,
            content_origin_row: 0,
            content_origin_col: 0,
            content_col_count: 0,
            content_row_count: 0,
        }
    }

    /// Leaves the command line and ends every drag.
    pub fn reset(&mut self)
        ensures
            final(self)@ == (Preview { command: None, ..old(self)@.drag_ended().text_drag_ended() }),
    {
        self.command_mode = None;
        self.drag_snapshot = None;
        self.drag_start_line = None;
        self.drag_modifier = None;
        self.text_drag_active = false;
        self.text_drag_start = None;
        self.text_drag_end = None;
    }

    /// The id of this pane.
    pub fn get_id(&self) -> (r: FlexBoxId)
        ensures
            r == self@.id,
    {
        self.id
    }

    /// The file that this pane shows, or `None` where it shows something else or nothing.
    pub fn file_key(&self, state: &AppState) -> (r: Option<FileKey>)
        ensures
            r == file_in(state@, self.id),
            state.wf() ==> (r matches Some(key) ==> key.0 < state.files@.len()),
    {
        match pane_slot(self.id) {
            Some(slot) => {
                if slot < state.pane_manager.window_stack.len() {
                    match state.pane_manager.window_stack[slot] {
                        Window::FilePreview(key) => {
                            assert(state@.panes.stack[slot as int] == Window::FilePreview(key));
                            Some(key)
                        },
                        _ => None,
                    }
                } else {
                    None
                }
            },
            None => None,
        }
    }

    /// The title of a file without ranges.
    fn base_title(state: &AppState, key: FileKey) -> (r: String)
        requires
            key.0 < state.files@.len(),
        ensures
            r@ == file_title(state@.files[key.0 as int], state@.root),
    {
        let file = &state.files[key.0];
        let rel = relative_path(file.path.as_str(), state.root.as_str());
        if file.removed {
            let mut out = copy_of("[deleted] ");
            out.append(rel.as_str());
            out
        } else {
            rel
        }
    }

    /// The title of the file with a key.
    fn titled(state: &AppState, key: FileKey) -> (r: String)
        requires
            key.0 < state.files@.len(),
        ensures
            r@ == preview_title(state@, key),
    {
        let base = Self::base_title(state, key);
        match state.highlight_ranges.get(&key) {
            Some(ranges) => write_title(base.as_str(), ranges),
            None => base,
        }
    }

    /// The title of the pane: an error for three seconds, then the path of the file with its
    /// highlighted ranges.
    pub fn title_text(&mut self, state: &AppState, now: Nanos) -> (r: String)
        requires
            state.wf(),
        ensures
            r@ == old(self)@.title(state@, now),
            final(self)@ == old(self)@.without_stale_error(now),
    {
        let shown: Option<String> = match &self.error {
            Some((msg, at)) => {
                if elapsed(*at, now) < 3 * SECOND {
                    Some(copy_of(msg.as_str()))
                } else {
                    None
                }
            },
            None => None,
        };
        if let Some(msg) = shown {
            return msg;
        }
        self.error = None;
        match self.file_key(state) {
            Some(key) => Self::titled(state, key),
            None => String::new(),
        }
    }

    /// The highlighted range at a column of the title bar, or `None` if no range is at that column
    /// or the title is cut off.
    pub fn range_at_title_col(&self, state: &AppState, col: usize, pane_width: usize) -> (r: Option<
        (usize, usize),
    >)
        requires
            state.wf(),
        ensures
            r == match file_in(state@, self.id) {
                Some(key) => if state@.highlights.contains_key(key) {
                    title_range(
                        file_title(state@.files[key.0 as int], state@.root),
                        state@.highlights[key],
                        col as int,
                        pane_width as int,
                    )
                } else {
                    None
                },
                None => None,
            },
    {
        match self.file_key(state) {
            Some(key) => match state.highlight_ranges.get(&key) {
                Some(ranges) => {
                    let base = Self::base_title(state, key);
                    range_in_title(base.as_str(), ranges, col, pane_width)
                },
                None => None,
            },
            None => None,
        }
    }
}

/// A file is scrolled so that a range of its lines is in the middle of the page, or a fifth of a
/// page below its top where it does not fit. A range that runs backward is shown by its first line.
pub open spec fn scrolled_to_range(app: App, key: FileKey, lo: usize, hi: usize) -> App {
    let window = Window::FilePreview(key);
    let page = app.panes.state_of(window).page_size as int;
    App {
        panes: app.panes.scrolled(window, block_scroll(lo as int, hi as int, page) as usize),
        ..app
    }
}

impl FilePreviewComponent {
    /// Scrolls a file to a range of its lines.
    pub fn scroll_to_range(&self, state: &mut AppState, key: FileKey, lo: usize, hi: usize)
        requires
            old(state).wf(),
        ensures
            final(state)@ == scrolled_to_range(old(state)@, key, lo, hi),
            final(state).files == old(state).files,
            final(state).wf(),
    {
        let window = Window::FilePreview(key);
        let page_size: usize = state.pane_manager.window_page_size(&window);
        let target: usize = scroll_for_block(lo, hi, page_size);
        state.scroll_window(&window, target);
    }

    /// Whether a line, counted from 1, is highlighted.
    pub fn is_line_highlighted(state: &AppState, file_key: FileKey, line_1_indexed: usize) -> (r: bool)
        ensures
            r == (state@.highlights.contains_key(file_key) && covers(
                state@.highlights[file_key],
                line_1_indexed as int,
            )),
    {
        match state.highlight_ranges.get(&file_key) {
            Some(ranges) => {
                let ghost all = state@.highlights[file_key];
                let mut i: usize = 0;
                while i < ranges.len()
                    invariant
                        i <= ranges@.len(),
                        all == ranges@,
                        all == state@.highlights[file_key],
                        state@.highlights.contains_key(file_key),
                        forall|j: int|
                            0 <= j < i ==> !crate::ranges::in_range(
                                #[trigger] ranges@[j],
                                line_1_indexed as int,
                            ),
                    decreases ranges@.len() - i,
                {
                    if line_1_indexed >= ranges[i].0 && line_1_indexed <= ranges[i].1 {
                        assert(crate::ranges::in_range(ranges@[i as int], line_1_indexed as int));
                        return true;
                    }
                    i += 1;
                }
                false
            },
            None => false,
        }
    }

    /// Starts a drag over lines.
    pub fn start_drag(
        &mut self,
        state: &AppState,
        key: FileKey,
        line: usize,
        modifier: DragModifier,
    )
        requires
            state.wf(),
            old(self)@.wf(),
        ensures
            final(self)@ == (Preview {
                drag_snapshot: if state@.highlights.contains_key(key) {
                    Some(state@.highlights[key])
                } else {
                    None
                },
                drag_start_line: Some(line),
                drag_modifier: Some(modifier),
                ..old(self)@
            }),
            final(self)@.wf(),
    {
        self.drag_snapshot = match state.highlight_ranges.get(&key) {
            Some(ranges) => Some(copy_ranges(ranges)),
            None => None,
        };
        self.drag_start_line = Some(line);
        self.drag_modifier = Some(modifier);
    }

    /// Highlights the lines from where a drag started up to `current_line`, or takes the highlight
    /// away from them.
    pub fn update_drag(&mut self, state: &mut AppState, key: FileKey, current_line: usize)
        requires
            old(state).wf(),
            old(self)@.wf(),
        ensures
            final(state)@ == dragged(old(self)@, old(state)@, key, current_line),
            final(state).files == old(state).files,
            final(state).wf(),
            *final(self) == *old(self),
    {
        if let Some(start) = self.drag_start_line {
            if let Some(modifier) = self.drag_modifier {
                let lo: usize = min_of(start, current_line);
                let hi: usize = max_of(start, current_line);
                let empty: Vec<(usize, usize)> = Vec::new();
                let snapshot: &Vec<(usize, usize)> = match &self.drag_snapshot {
                    Some(ranges) => ranges,
                    None => &empty,
                };
                assert(empty@ =~= Seq::<(usize, usize)>::empty());
                let ranges = match modifier {
                    DragModifier::Shift => union_ranges(snapshot, lo, hi),
                    DragModifier::Ctrl => subtract_ranges(snapshot, lo, hi),
                };
                state.set_highlights(key, ranges);
            }
        }
    }

    /// Ends a drag over lines.
    pub fn end_drag(&mut self)
        ensures
            final(self)@ == old(self)@.drag_ended(),
    {
        self.drag_snapshot = None;
        self.drag_start_line = None;
        self.drag_modifier = None;
    }

    /// Starts a drag over text.
    pub fn start_text_drag(&mut self, line: usize, byte_offset: usize)
        ensures
            final(self)@ == (Preview {
                text_drag_active: true,
                text_drag_start: Some((line, byte_offset)),
                text_drag_end: Some((line, byte_offset)),
                ..old(self)@
            }),
    {
        self.text_drag_active = true;
        self.text_drag_start = Some((line, byte_offset));
        self.text_drag_end = Some((line, byte_offset));
    }

    /// A drag over text has come to a place.
    pub fn update_text_drag(&mut self, line: usize, byte_offset: usize)
        ensures
            final(self)@ == (Preview { text_drag_end: Some((line, byte_offset)), ..old(self)@ }),
    {
        self.text_drag_end = Some((line, byte_offset));
    }

    /// Ends a drag over text, and returns its two ends.
    pub fn end_text_drag(&mut self) -> (r: Option<((usize, usize), (usize, usize))>)
        ensures
            final(self)@ == old(self)@.text_drag_ended(),
            r == match (old(self)@.text_drag_start, old(self)@.text_drag_end) {
                (Some(a), Some(b)) => Some((a, b)),
                _ => None,
            },
    {
        let r = match (self.text_drag_start, self.text_drag_end) {
            (Some(a), Some(b)) => Some((a, b)),
            _ => None,
        };
        self.text_drag_active = false;
        self.text_drag_start = None;
        self.text_drag_end = None;
        r
    }

    /// Maps a cell of the screen to the line of the text that it shows, the character in that
    /// line, and its byte offset in the text. Accounts for line wrapping.
    pub fn screen_pos_to_line_char(
        &self,
        state: &AppState,
        row: usize,
        col: usize,
        key: FileKey,
    ) -> (r: (usize, usize, usize))
        requires
            state.wf(),
            key.0 < state.files@.len(),
        ensures
            ({
                let spot = self@.spot(state@, key, row as int, col as int);
                &&& r.0 == spot.0
                &&& r.1 == spot.1
                &&& r.2 == spot.2
            }),
            r.0 < state.files@[key.0 as int].data.line_starts@.len(),
            state.files@[key.0 as int].data.line_starts@[r.0 as int] <= r.2,
            is_boundary(state@.files[key.0 as int].text, r.2 as int),
    {
        let data = &state.files[key.0].data;
        let scroll: usize = state.pane_manager.window_scroll(&Window::FilePreview(key));
        let lines: usize = data.line_starts.len();
        let number_width: usize = line_number_width(lines);
        let width: usize = content_width(self.content_col_count, lines);
        let rel_y: usize = row.saturating_sub(self.content_origin_row);
        let rel_x: usize = col.saturating_sub(self.content_origin_col).saturating_sub(
            number_width,
        ).saturating_sub(3);
        proof {
            assert(state.files@[key.0 as int].data.wf());
        }
        spot_at(data, scroll, rel_x, rel_y, width, self.content_row_count)
    }

    /// Starts a drag over text at a cell of the screen. A double click takes the word there, and a
    /// triple click the line. Returns whether there is a file to drag over.
    pub fn start_text_drag_from_pos(
        &mut self,
        state: &AppState,
        row: usize,
        col: usize,
        click_count: u8,
    ) -> (r: bool)
        requires
            state.wf(),
        ensures
            r == file_in(state@, old(self)@.id) is Some,
            final(self)@ == match file_in(state@, old(self)@.id) {
                Some(key) => {
                    let (line, c, byte) = old(self)@.spot(state@, key, row as int, col as int);
                    let text = state@.files[key.0 as int].text;
                    let (from, to) = if click_count == 2 {
                        word_offsets(text, byte)
                    } else if click_count >= 3 {
                        byte_range_of_line(text, line)
                    } else {
                        (byte as usize, byte as usize)
                    };
                    Preview {
                        text_drag_active: true,
                        text_drag_start: Some((line as usize, from)),
                        text_drag_end: Some((line as usize, to)),
                        ..old(self)@
                    }
                },
                None => old(self)@,
            },
    {
        match self.file_key(state) {
            Some(key) => {
                let (line, _, byte) = self.screen_pos_to_line_char(state, row, col, key);
                let data = &state.files[key.0].data;
                proof {
                    assert(state.files@[key.0 as int].data.wf());
                }
                let (from, to) = if click_count == 2 {
                    data.word_bounds(byte)
                } else if click_count >= 3 {
                    data.line_bounds(line)
                } else {
                    (byte, byte)
                };
                self.start_text_drag(line, from);
                self.update_text_drag(line, to);
                true
            },
            None => false,
        }
    }

    /// A drag over text has come to a cell of the screen.
    pub fn update_text_drag_from_pos(&mut self, state: &AppState, row: usize, col: usize)
        requires
            state.wf(),
        ensures
            final(self)@ == match file_in(state@, old(self)@.id) {
                Some(key) => {
                    let (line, c, byte) = old(self)@.spot(state@, key, row as int, col as int);
                    Preview {
                        text_drag_end: Some((line as usize, byte as usize)),
                        ..old(self)@
                    }
                },
                None => old(self)@,
            },
    {
        if let Some(key) = self.file_key(state) {
            let (line, _, byte) = self.screen_pos_to_line_char(state, row, col, key);
            self.update_text_drag(line, byte);
        }
    }

    /// Ends a drag over text, and returns the text between its ends.
    pub fn end_text_drag_with_text(&mut self, state: &AppState) -> (r: Option<String>)
        requires
            state.wf(),
            match (file_in(state@, old(self)@.id), old(self)@.text_drag_start, old(
                self,
            )@.text_drag_end) {
                (Some(key), Some(a), Some(b)) => is_boundary(
                    state@.files[key.0 as int].text,
                    a.1 as int,
                ) && is_boundary(state@.files[key.0 as int].text, b.1 as int),
                _ => true,
            },
        ensures
            final(self)@ == match file_in(state@, old(self)@.id) {
                Some(key) => old(self)@.text_drag_ended(),
                None => old(self)@,
            },
            optional_text(r) == match (file_in(state@, old(self)@.id), old(self)@.text_drag_start, old(
                self,
            )@.text_drag_end) {
                (Some(key), Some(a), Some(b)) => text_between(
                    state@.files[key.0 as int].text,
                    a.1 as int,
                    b.1 as int,
                ),
                _ => None,
            },
    {
        match self.file_key(state) {
            Some(key) => match self.end_text_drag() {
                Some((a, b)) => state.files[key.0].data.extract_text(a.1, b.1),
                None => None,
            },
            None => None,
        }
    }
}

/// The text between two byte offsets, in either order, or `None` where they are the same.
pub open spec fn text_between(text: Seq<char>, a: int, b: int) -> Option<Seq<char>> {
    if a == b {
        None
    } else if a < b {
        Some(text.subrange(char_at(text, a), char_at(text, b)))
    } else {
        Some(text.subrange(char_at(text, b), char_at(text, a)))
    }
}

/// The same ranges.
pub fn copy_ranges(ranges: &Vec<(usize, usize)>) -> (r: Vec<(usize, usize)>)
    ensures
        r@ == ranges@,
{
    let mut out: Vec<(usize, usize)> = Vec::new();
    let mut i: usize = 0;
    while i < ranges.len()
        invariant
            i <= ranges@.len(),
            out@ == ranges@.take(i as int),
        decreases ranges@.len() - i,
    {
        out.push(ranges[i]);
        i += 1;
        assert(out@ =~= ranges@.take(i as int));
    }
    assert(ranges@.take(i as int) =~= ranges@);
    out
}

/// Lines of a file are highlighted and shown, where the command line asks for any.
pub open spec fn lines_highlighted(app: App, key: FileKey, cmd: Seq<char>) -> App {
    let window = Window::FilePreview(key);
    let max = app.panes.state_of(window).scroll_max;
    let ranges = ranges_of_command(cmd, max);
    if max == 0 || ranges.len() == 0 {
        app
    } else {
        let page = app.panes.state_of(window).page_size as int;
        App {
            highlights: app.highlights.insert(key, ranges),
            panes: app.panes.scrolled(window, ranges_scroll(ranges, page) as usize),
            ..app
        }
    }
}

/// What the command line of a preview does: the state of the preview, that of the program, and
/// what is to be done outside.
pub struct Ran {
    pub preview: Preview,
    pub app: App,
    pub acts: Seq<Act>,
}

/// A shell is opened, with the command that a command line expands to, or an error is shown.
pub open spec fn shell_opened(
    p: Preview,
    app: App,
    expansion: Result<Option<Seq<char>>, Seq<char>>,
    now: Nanos,
) -> Ran {
    match expansion {
        Ok(cmd) => Ran {
            preview: p,
            app,
            acts: seq![Act::OpenTerminal { cmd, cwd: Some(app.root) }],
        },
        Err(msg) => Ran {
            preview: Preview { error: Some((msg, now)), ..p },
            app,
            acts: Seq::empty(),
        },
    }
}

/// What a shell command expands to, for a file: nothing where it is empty.
pub open spec fn shell_expansion(
    app: App,
    key: FileKey,
    cmd: Seq<char>,
    crate_root: Option<Seq<char>>,
    repo_root: Option<Seq<char>>,
) -> Result<Option<Seq<char>>, Seq<char>> {
    if cmd.len() == 0 {
        Ok(None)
    } else {
        match expanded(
            cmd,
            word_ends(cmd),
            0,
            places_of(app.files[key.0 as int].path, app.root, crate_root, repo_root),
        ) {
            Ok(text) => Ok(Some(text)),
            Err(msg) => Err(msg),
        }
    }
}

/// What a command line does: `!` opens a shell, and anything else highlights lines.
pub open spec fn ran(
    p: Preview,
    app: App,
    key: FileKey,
    cmd: Seq<char>,
    crate_root: Option<Seq<char>>,
    repo_root: Option<Seq<char>>,
    now: Nanos,
) -> Ran {
    if cmd.len() > 0 && cmd[0] == '!' {
        shell_opened(
            p,
            app,
            shell_expansion(app, key, cmd.skip(1), crate_root, repo_root),
            now,
        )
    } else {
        Ran { preview: p, app: lines_highlighted(app, key, cmd), acts: Seq::empty() }
    }
}

/// A command or what is said in its place.
pub open spec fn expansion_text(r: Result<Option<String>, String>) -> Result<
    Option<Seq<char>>,
    Seq<char>,
> {
    match r {
        Ok(cmd) => Ok(optional_text(cmd)),
        Err(msg) => Err(msg@),
    }
}

impl FilePreviewComponent {
    /// Opens a shell with the command that a command line expanded to, or takes note of the error.
    pub fn open_shell(
        &mut self,
        state: &AppState,
        expansion: Result<Option<String>, String>,
        now: Nanos,
        effects: &mut Vec<Effect>,
    )
        ensures
            ({
                let r = shell_opened(old(self)@, state@, expansion_text(expansion), now);
                &&& final(self)@ == r.preview
                &&& acts(final(effects)@) == acts(old(effects)@) + r.acts
            }),
    {
        let ghost before = acts(effects@);
        match expansion {
            Ok(cmd) => {
                let cwd = Some(copy_of(state.root.as_str()));
                perform(effects, Effect::OpenTerminal { cmd, cwd });
            },
            Err(msg) => {
                self.error = Some((msg, now));
            },
        }
        assert(acts(effects@) =~= before + shell_opened(
            old(self)@,
            state@,
            expansion_text(expansion),
            now,
        ).acts);
    }

    /// Highlights the lines that a command line asks for, and shows them.
    pub fn highlight_lines(state: &mut AppState, key: FileKey, cmd: &str)
        requires
            old(state).wf(),
        ensures
            final(state)@ == lines_highlighted(old(state)@, key, cmd@),
            final(state).files == old(state).files,
            final(state).wf(),
    {
        let ghost before = state@;
        let window = Window::FilePreview(key);
        let max: usize = state.pane_manager.window_scroll_max(&window);
        if max == 0 {
            return;
        }
        let ranges = parse_ranges(cmd, max);
        if ranges.len() == 0 {
            return;
        }
        let page_size: usize = state.pane_manager.window_page_size(&window);
        let target: usize = compute_scroll_target(&ranges, page_size);
        state.set_highlights(key, ranges);
        state.scroll_window(&window, target);
        assert(state@ =~= lines_highlighted(before, key, cmd@));
    }

    /// Does what the command line says.
    pub fn execute_command(
        &mut self,
        state: &mut AppState,
        key: FileKey,
        crate_root: Option<&str>,
        repo_root: Option<&str>,
        now: Nanos,
        effects: &mut Vec<Effect>,
    )
        requires
            old(state).wf(),
            key.0 < old(state).files@.len(),
        ensures
            match old(self)@.command {
                None => final(self)@ == old(self)@ && final(state)@ == old(state)@ && acts(
                    final(effects)@,
                ) == acts(old(effects)@),
                Some(cmd) => {
                    let r = ran(
                        old(self)@,
                        old(state)@,
                        key,
                        cmd,
                        optional_str(crate_root),
                        optional_str(repo_root),
                        now,
                    );
                    &&& final(self)@ == r.preview
                    &&& final(state)@ == r.app
                    &&& acts(final(effects)@) == acts(old(effects)@) + r.acts
                },
            },
            final(state).files == old(state).files,
            final(state).wf(),
    {
        let cmd: String = match &self.command_mode {
            Some(cmd) => copy_of(cmd.as_str()),
            None => {
                return;
            },
        };
        let chars = chars_of(cmd.as_str());
        if chars.len() > 0 && chars[0] == '!' {
            let rest = text_of(&chars, 1, chars.len());
            assert(rest@ =~= cmd@.skip(1));
            let expansion: Result<Option<String>, String> = if chars.len() == 1 {
                Ok(None)
            } else {
                match expand_placeholders(
                    rest.as_str(),
                    state.files[key.0].path.as_str(),
                    state.root.as_str(),
                    crate_root,
                    repo_root,
                ) {
                    Ok(text) => Ok(Some(text)),
                    Err(msg) => Err(msg),
                }
            };
            self.open_shell(state, expansion, now, effects);
        } else {
            Self::highlight_lines(state, key, cmd.as_str());
            assert(acts(effects@) =~= acts(old(effects)@) + Seq::<Act>::empty());
        }
    }
}

/// Whether an event leaves the command line: Esc, Ctrl+C, or Ctrl+D where it is empty.
pub open spec fn leaves_command(event: InputEvent, cmd: Seq<char>) -> bool {
    match event {
        InputEvent::Keyboard(KeyPress::Plain { key }) => key == Key::SpecialKey(SpecialKey::Esc),
        InputEvent::Keyboard(KeyPress::WithModifiers { key, mask }) => mask
            == ModifierKeysMask::ctrl() && (key == Key::Character('c') || (key == Key::Character(
            'd',
        ) && cmd.len() == 0)),
        _ => false,
    }
}

/// Whether an event is the Enter key.
pub open spec fn is_enter(event: InputEvent) -> bool {
    event matches InputEvent::Keyboard(KeyPress::Plain { key: Key::SpecialKey(SpecialKey::Enter) })
}

/// Where an event scrolls a file to, if it scrolls it.
pub open spec fn scroll_target(event: InputEvent, s: WindowState) -> Option<int> {
    let back = |n: int|
        if s.scroll > n {
            s.scroll - n
        } else {
            0int
        };
    let on = |n: int| lesser(s.scroll + n, usize::MAX as int);
    match event {
        InputEvent::Keyboard(KeyPress::Plain { key: Key::SpecialKey(key) }) => match key {
            SpecialKey::PageUp => Some(back(s.page_size as int)),
            SpecialKey::PageDown => Some(on(s.page_size as int)),
            SpecialKey::Up => Some(back(1)),
            SpecialKey::Down => Some(on(1)),
            SpecialKey::Home => Some(0),
            SpecialKey::End => Some(s.scroll_max as int),
            _ => None,
        },
        InputEvent::Keyboard(KeyPress::WithModifiers { key, mask }) => if mask
            == ModifierKeysMask::ctrl() && key == Key::Character('a') {
            Some(0)
        } else if mask == ModifierKeysMask::ctrl() && key == Key::Character('e') {
            Some(s.scroll_max as int)
        } else {
            None
        },
        InputEvent::Mouse(mouse) => match mouse.kind {
            MouseInputKind::ScrollUp => Some(back(3)),
            MouseInputKind::ScrollDown => Some(on(3)),
            _ => None,
        },
        _ => None,
    }
}

/// What an event leads to in a preview of a file without a command line.
pub open spec fn browsing(p: Preview, app: App, key: FileKey, event: InputEvent) -> (
    Preview,
    Outcome,
) {
    if event matches InputEvent::Keyboard(KeyPress::Plain { key: Key::Character(':') }) {
        (
            Preview { command: Some(Seq::empty()), ..p },
            redraw(App { command_mode_active: true, ..app }),
        )
    } else {
        let window = Window::FilePreview(key);
        match scroll_target(event, app.panes.state_of(window)) {
            Some(target) => (
                p,
                redraw(App { panes: app.panes.scrolled(window, target as usize), ..app }),
            ),
            None => (p, passed_on(app)),
        }
    }
}

/// What an event leads to in a preview of a file with a command line.
pub open spec fn commanding(
    p: Preview,
    app: App,
    key: FileKey,
    cmd: Seq<char>,
    event: InputEvent,
    crate_root: Option<Seq<char>>,
    repo_root: Option<Seq<char>>,
    now: Nanos,
) -> (Preview, Outcome) {
    if is_enter(event) {
        let r = ran(p, app, key, cmd, crate_root, repo_root, now);
        (
            Preview { command: None, ..r.preview },
            Outcome {
                app: App { command_mode_active: false, ..r.app },
                flow: EventPropagation::ConsumedRender,
                acts: r.acts,
            },
        )
    } else if leaves_command(event, cmd) {
        (
            Preview { command: None, ..p },
            redraw(App { command_mode_active: false, ..app }),
        )
    } else {
        let e = edited(grapheme_clusters(cmd), p.cursor, event, pasted_clusters(event));
        (Preview { command: Some(e.text), cursor: e.cursor, ..p }, redraw(app))
    }
}

impl Preview {
    /// What an event leads to in this pane.
    pub open spec fn outcome(
        self,
        app: App,
        event: InputEvent,
        crate_root: Option<Seq<char>>,
        repo_root: Option<Seq<char>>,
        now: Nanos,
    ) -> (Preview, Outcome) {
        match file_in(app, self.id) {
            None => (self, passed_on(app)),
            Some(key) => match self.command {
                Some(cmd) => commanding(
                    self,
                    app,
                    key,
                    cmd,
                    event,
                    crate_root,
                    repo_root,
                    now,
                ),
                None => browsing(self, app, key, event),
            },
        }
    }

    /// Whether the command line has room for what an event adds to it.
    pub open spec fn has_room(self, event: InputEvent) -> bool {
        self.command matches Some(cmd) ==> cmd.len() + added_chars(event) <= usize::MAX
    }
}

/// Where an event scrolls a file to, if it scrolls it.
fn find_scroll_target(event: &InputEvent, s: WindowState) -> (r: Option<usize>)
    ensures
        match r {
            Some(target) => scroll_target(*event, s) == Some(target as int),
            None => scroll_target(*event, s) is None,
        },
{
    match event {
        InputEvent::Keyboard(KeyPress::Plain { key: Key::SpecialKey(key) }) => match key {
            SpecialKey::PageUp => Some(s.scroll.saturating_sub(s.page_size)),
            SpecialKey::PageDown => Some(s.scroll.saturating_add(s.page_size)),
            SpecialKey::Up => Some(s.scroll.saturating_sub(1)),
            SpecialKey::Down => Some(s.scroll.saturating_add(1)),
            SpecialKey::Home => Some(0),
            SpecialKey::End => Some(s.scroll_max),
            _ => None,
        },
        InputEvent::Keyboard(KeyPress::WithModifiers { key, mask }) => {
            if mask.is_ctrl() && *key == Key::Character('a') {
                Some(0)
            } else if mask.is_ctrl() && *key == Key::Character('e') {
                Some(s.scroll_max)
            } else {
                None
            }
        },
        InputEvent::Mouse(mouse) => match mouse.kind {
            MouseInputKind::ScrollUp => Some(s.scroll.saturating_sub(3)),
            MouseInputKind::ScrollDown => Some(s.scroll.saturating_add(3)),
            _ => None,
        },
        _ => None,
    }
}

/// Whether an event leaves the command line.
fn leaves(event: &InputEvent, cmd: &str) -> (r: bool)
    ensures
        r == leaves_command(*event, cmd@),
{
    match event {
        InputEvent::Keyboard(KeyPress::Plain { key }) => *key == Key::SpecialKey(SpecialKey::Esc),
        InputEvent::Keyboard(KeyPress::WithModifiers { key, mask }) => mask.is_ctrl() && (*key
            == Key::Character('c') || (*key == Key::Character('d') && cmd.is_empty())),
        _ => false,
    }
}

/// Whether an event is the Enter key.
pub fn enter_pressed(event: &InputEvent) -> (r: bool)
    ensures
        r == is_enter(*event),
{
    match event {
        InputEvent::Keyboard(KeyPress::Plain { key: Key::SpecialKey(SpecialKey::Enter) }) => true,
        _ => false,
    }
}

impl FilePreviewComponent {
    /// Handles an event in the command line.
    fn handle_command(
        &mut self,
        state: &mut AppState,
        key: FileKey,
        event: &InputEvent,
        crate_root: Option<&str>,
        repo_root: Option<&str>,
        now: Nanos,
        effects: &mut Vec<Effect>,
    )
        requires
            old(state).wf(),
            old(self)@.command is Some,
            old(self)@.has_room(*event),
            key.0 < old(state).files@.len(),
        ensures
            ({
                let (preview, o) = commanding(
                    old(self)@,
                    old(state)@,
                    key,
                    old(self)@.command->0,
                    *event,
                    optional_str(crate_root),
                    optional_str(repo_root),
                    now,
                );
                &&& final(self)@ == preview
                &&& final(state)@ == o.app
                &&& acts(final(effects)@) == acts(old(effects)@) + o.acts
            }),
            final(state).files == old(state).files,
            final(state).wf(),
    {
        let ghost before = acts(effects@);
        let mut command: Option<String> = None;
        if enter_pressed(event) {
            self.execute_command(state, key, crate_root, repo_root, now, effects);
            self.command_mode = None;
            state.command_mode_active = false;
            return;
        }
        std::mem::swap(&mut command, &mut self.command_mode);
        match command {
            Some(cmd) => {
                let mut cmd = cmd;
                if leaves(event, cmd.as_str()) {
                    state.command_mode_active = false;
                } else {
                    self.command_input.handle_key(event, &mut cmd);
                    self.command_mode = Some(cmd);
                }
            },
            None => {},
        }
        assert(acts(effects@) =~= before + Seq::<Act>::empty());
    }

    /// Handles an event. `crate_root` and `repo_root` are the directories of the crate and of the
    /// repository that hold the file, where there are such directories.
    pub fn handle_event(
        &mut self,
        state: &mut AppState,
        event: &InputEvent,
        crate_root: Option<&str>,
        repo_root: Option<&str>,
        now: Nanos,
        effects: &mut Vec<Effect>,
    ) -> (r: EventPropagation)
        requires
            old(state).wf(),
            old(self)@.has_room(*event),
        ensures
            ({
                let (preview, o) = old(self)@.outcome(
                    old(state)@,
                    *event,
                    optional_str(crate_root),
                    optional_str(repo_root),
                    now,
                );
                &&& final(self)@ == preview
                &&& final(state)@ == o.app
                &&& r == o.flow
                &&& acts(final(effects)@) == acts(old(effects)@) + o.acts
            }),
            final(state).files == old(state).files,
            final(state).wf(),
    {
        let ghost before = acts(effects@);
        let key: FileKey = match self.file_key(state) {
            Some(key) => key,
            None => {
                assert(acts(effects@) =~= before + Seq::<Act>::empty());
                return EventPropagation::Propagate;
            },
        };
        if self.command_mode.is_some() {
            self.handle_command(state, key, event, crate_root, repo_root, now, effects);
            return EventPropagation::ConsumedRender;
        }
        assert(acts(effects@) =~= before + Seq::<Act>::empty());
        if let InputEvent::Keyboard(KeyPress::Plain { key: Key::Character(':') }) = event {
            self.command_mode = Some(String::new());
            state.command_mode_active = true;
            return EventPropagation::ConsumedRender;
        }
        let window = Window::FilePreview(key);
        match find_scroll_target(event, state.pane_manager.window_state(&window)) {
            Some(target) => {
                state.scroll_window(&window, target);
                EventPropagation::ConsumedRender
            },
            None => EventPropagation::Propagate,
        }
    }
}

/// Enter leaves the command line, whatever stands in it.
pub proof fn law_enter_leaves_the_command_line(
    p: Preview,
    app: App,
    event: InputEvent,
    crate_root: Option<Seq<char>>,
    repo_root: Option<Seq<char>>,
    now: Nanos,
)
    requires
        is_enter(event),
        file_in(app, p.id) is Some,
        p.command is Some,
    ensures
        p.outcome(app, event, crate_root, repo_root, now).0.command is None,
        !p.outcome(app, event, crate_root, repo_root, now).1.app.command_mode_active,
{
}

} // verus!
