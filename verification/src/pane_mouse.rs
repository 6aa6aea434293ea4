//! Selecting text and lines with the mouse.

use vstd::prelude::*;
use crate::bytes::{
    byte_at, byte_len, bytes_before, chars_before, is_boundary, lemma_byte_at_grows, lemma_char_at,
    text_len,
};
use crate::effect::{Act, Effect, acts, perform};
use crate::geometry::Pos;
use crate::input::{Button, EventPropagation, MouseInput, MouseInputKind};
use crate::loader::{
    FileData, FileKey, byte_range_of_line, char_under, lemma_starts, starts_of, word_offsets,
};
use crate::pane::{Pane, PaneComponent, drag_modifier, drag_modifier_from_mouse, row_below};
use crate::pane_manager::{SelPoint, TextSelection, Window};
use crate::preview::{Preview, copy_ranges, dragged, text_between};
use crate::preview_text::{gutter_width, law_shown_spot_lies_in_text, text_width};
use crate::screen::{greater, lesser, max_of, min_of};
use crate::session_time::{MILLISECOND, Nanos, elapsed, time_between};
use crate::state::{App, AppState, lemma_still_wf};
use crate::terminal_pane::{Outcome, redraw};
use crate::text::chars_of;
use crate::word::{law_word_span_holds_place, word_span};

verus! {

/// How many clicks in a row at one place a click makes: it counts with the one before where it
/// comes within 300 milliseconds.
pub open spec fn clicks_after(p: Pane, pos: Pos, now: Nanos) -> u8 {
    match p.last_click {
        Some((at, place)) => if place == pos && time_between(at, now) / (MILLISECOND as int) < 300 {
            if p.consecutive_clicks < 255 {
                (p.consecutive_clicks + 1) as u8
            } else {
                255
            }
        } else {
            1
        },
        None => 1,
    }
}

/// The byte offset at which a line starts.
pub open spec fn line_start(text: Seq<char>, line: int) -> int {
    byte_at(text, starts_of(text)[line])
}

/// The place of a byte in a file, counted from the start of `line`, or of the line before it that
/// holds the byte where it comes before `line`, as the start of white space may. What ends behind
/// the line, as white space may too, is still counted from the start of `line`.
pub open spec fn file_point(text: Seq<char>, line: int, byte: int) -> SelPoint
    decreases line,
{
    if line <= 0 || line_start(text, line) <= byte {
        SelPoint::Preview {
            line_idx: line as usize,
            byte_offset: (byte - line_start(text, line)) as usize,
        }
    } else {
        file_point(text, line - 1, byte)
    }
}

/// The byte that a place in a file is at.
pub open spec fn point_byte(text: Seq<char>, point: SelPoint) -> int {
    match point {
        SelPoint::Preview { line_idx, byte_offset } => line_start(text, line_idx as int)
            + byte_offset,
        SelPoint::Terminal { viewport_row: _, col: _ } => 0,
    }
}

/// A place in a file is at the byte that it was made of, and in its line where the byte is not
/// before it.
pub proof fn law_point_leads_back_to_byte(text: Seq<char>, line: int, byte: int)
    requires
        0 <= line < starts_of(text).len(),
        0 <= byte <= byte_len(text) <= usize::MAX,
    ensures
        file_point(text, line, byte) matches SelPoint::Preview { line_idx, byte_offset }
            && line_idx <= line && (line_start(text, line) <= byte ==> line_idx == line),
        point_byte(text, file_point(text, line, byte)) == byte,
    decreases line,
{
    lemma_starts(text, text.len() as int);
    let at = starts_of(text)[line];
    lemma_byte_at_grows(text, at, text.len() as int);
    lemma_byte_at_grows(text, 0, text.len() as int);
    assert(line <= usize::MAX) by {
        lemma_byte_at_grows(text, text.len() as int, text.len() as int);
    }
    if line == 0 {
        assert(line_start(text, 0) == 0);
    } else if line_start(text, line) > byte {
        law_point_leads_back_to_byte(text, line - 1, byte);
    }
}

/// A place in a terminal.
pub open spec fn cell_point(row: int, col: int) -> SelPoint {
    SelPoint::Terminal { viewport_row: row as usize, col: col as usize }
}

/// Text is being selected.
pub open spec fn selecting(p: Pane, app: App, selection: TextSelection) -> (Pane, App) {
    (
        Pane { text_drag_active: true, ..p },
        App { text_selection: Some(selection), mouse_drag_active: true, ..app },
    )
}

/// A click in a file: the first takes note of the word there, and the third selects the line.
pub open spec fn file_clicked(p: Pane, app: App, key: FileKey, pos: Pos, now: Nanos) -> (Pane, App) {
    let n = clicks_after(p, pos, now);
    let clicked = Pane { consecutive_clicks: n, last_click: Some((now, pos)), ..p };
    let text = app.files[key.0 as int].text;
    let (line, c, byte) = p.preview.spot(app, key, pos.row_index as int, pos.col_index as int);
    let window = Window::FilePreview(key);
    if n == 1 {
        let (from, to) = word_offsets(text, byte);
        let start = file_point(text, line, from as int);
        selecting(
            clicked,
            app,
            TextSelection {
                window,
                start,
                end: start,
                click_anchor: Some(file_point(text, line, byte)),
                click_word: Some((start, file_point(text, line, to as int))),
                active: true,
            },
        )
    } else if n == 3 {
        let (from, to) = byte_range_of_line(text, line);
        selecting(
            clicked,
            app,
            TextSelection {
                window,
                start: file_point(text, line, from as int),
                end: file_point(text, line, to as int),
                click_anchor: None,
                click_word: None,
                active: true,
            },
        )
    } else {
        (clicked, app)
    }
}

/// A selection that reaches to a place: by words within the line where it started, and by
/// characters beyond.
pub open spec fn file_selection_to(
    sel: TextSelection,
    text: Seq<char>,
    line: int,
    byte: int,
) -> TextSelection {
    match (sel.click_anchor, sel.click_word) {
        (
            Some(SelPoint::Preview { line_idx: anchor_line, byte_offset: anchor }),
            Some((word_start, word_end)),
        ) => if anchor_line == line {
            if byte >= line_start(text, line) + anchor {
                TextSelection {
                    start: word_start,
                    end: file_point(text, line, word_offsets(text, byte).1 as int),
                    ..sel
                }
            } else {
                TextSelection {
                    start: file_point(text, line, word_offsets(text, byte).0 as int),
                    end: word_end,
                    ..sel
                }
            }
        } else {
            TextSelection { end: file_point(text, line, byte), ..sel }
        },
        _ => TextSelection { end: file_point(text, line, byte), ..sel },
    }
}

/// A drag over the text of a file has come to a cell.
pub open spec fn file_text_dragged(p: Pane, app: App, key: FileKey, pos: Pos) -> App {
    match app.text_selection {
        Some(sel) => if sel.window == Window::FilePreview(key) {
            let (line, c, byte) = p.preview.spot(
                app,
                key,
                pos.row_index as int,
                pos.col_index as int,
            );
            let text = app.files[key.0 as int].text;
            App { text_selection: Some(file_selection_to(sel, text, line, byte)), ..app }
        } else {
            app
        },
        None => app,
    }
}

/// The line in which a selection in a file started: that of the click, or where it starts.
pub open spec fn home_line(sel: TextSelection) -> usize {
    match (sel.click_anchor, sel.start) {
        (Some(SelPoint::Preview { line_idx, byte_offset: _ }), _) => line_idx,
        (_, SelPoint::Preview { line_idx, byte_offset: _ }) => line_idx,
        _ => 0,
    }
}

/// What is selected of a file: what lies between its two places where it did not leave the line in
/// which it started, or all of the lines.
pub open spec fn file_selected_text(app: App, key: FileKey) -> Option<Seq<char>> {
    let text = app.files[key.0 as int].text;
    match app.text_selection {
        Some(sel) => if sel.window != Window::FilePreview(key) {
            None
        } else {
            match (sel.start, sel.end) {
                (
                    SelPoint::Preview { line_idx: _, byte_offset: _ },
                    SelPoint::Preview { line_idx: e_line, byte_offset: _ },
                ) => {
                    let home = home_line(sel) as int;
                    if home == e_line {
                        text_between(text, point_byte(text, sel.start), point_byte(text, sel.end))
                    } else {
                        text_between(
                            text,
                            byte_range_of_line(text, lesser(home, e_line as int)).0 as int,
                            byte_range_of_line(text, greater(home, e_line as int)).1 as int,
                        )
                    }
                },
                _ => None,
            }
        },
        None => None,
    }
}

/// Nothing is selected any more.
pub open spec fn selection_ended(p: Pane, app: App) -> (Pane, App) {
    (
        Pane { text_drag_active: false, ..p },
        App { text_selection: None, mouse_drag_active: false, ..app },
    )
}

/// A text is put on the clipboard, where there is one.
pub open spec fn copied(text: Option<Seq<char>>) -> Seq<Act> {
    match text {
        Some(t) => seq![Act::Clipboard(t)],
        None => Seq::empty(),
    }
}

/// The line of a file, counted from 1, that a row shows where no line is wrapped.
pub open spec fn line_in_row(p: Pane, app: App, key: FileKey, row: u16) -> int {
    let s = app.panes.state_of(Window::FilePreview(key));
    lesser(
        s.scroll + row_below(row, p.content_origin_row) + 1,
        greater(s.scroll_max as int, 1),
    )
}

/// A drag over the lines of a file has come to a row.
pub open spec fn file_lines_dragged(
    p: Pane,
    app: App,
    key: FileKey,
    row: u16,
    now: Nanos,
) -> App {
    let next = dragged(p.preview, app, key, line_in_row(p, app, key, row) as usize);
    if next.highlights.contains_key(key) == app.highlights.contains_key(key) && (
    app.highlights.contains_key(key) ==> next.highlights[key] == app.highlights[key]) {
        next
    } else {
        next.dirty(now)
    }
}

/// Whether a cell lies in the text of a file, not on the scrollbar.
pub open spec fn in_file_text(p: Pane, pos: Pos) -> bool {
    &&& p.content_origin_row <= pos.row_index < p.content_origin_row + p.content_row_count
    &&& p.content_origin_col <= pos.col_index < p.content_origin_col + p.content_col_count - 1
}

/// What a mouse event in the text of a file does, or `None` where it does nothing there.
pub open spec fn file_mouse(p: Pane, app: App, key: FileKey, mouse: MouseInput, now: Nanos) -> Option<
    (Pane, Outcome),
> {
    match mouse.kind {
        MouseInputKind::MouseDown(Button::Left) => if !in_file_text(p, mouse.pos) {
            None
        } else {
            match drag_modifier(mouse) {
                Some(modifier) => {
                    let line = line_in_row(p, app, key, mouse.pos.row_index) as usize;
                    Some(
                        (
                            Pane {
                                preview_drag_active: true,
                                preview: Preview {
                                    drag_snapshot: if app.highlights.contains_key(key) {
                                        Some(app.highlights[key])
                                    } else {
                                        None
                                    },
                                    drag_start_line: Some(line),
                                    drag_modifier: Some(modifier),
                                    ..p.preview
                                },
                                ..p
                            },
                            redraw(App { mouse_drag_active: true, ..app }),
                        ),
                    )
                },
                None => {
                    let (pane, next) = file_clicked(p, app, key, mouse.pos, now);
                    Some((pane, redraw(next)))
                },
            }
        },
        MouseInputKind::MouseDrag(Button::Left) => if p.text_drag_active {
            Some((p, redraw(file_text_dragged(p, app, key, mouse.pos))))
        } else if p.preview_drag_active {
            Some((p, redraw(file_lines_dragged(p, app, key, mouse.pos.row_index, now))))
        } else {
            None
        },
        MouseInputKind::MouseUp(Button::Left) => if p.text_drag_active {
            let (pane, next) = selection_ended(p, app);
            Some(
                (
                    pane,
                    Outcome {
                        app: next,
                        flow: EventPropagation::ConsumedRender,
                        acts: copied(file_selected_text(app, key)),
                    },
                ),
            )
        } else if p.preview_drag_active {
            Some(
                (
                    Pane { preview_drag_active: false, preview: p.preview.drag_ended(), ..p },
                    redraw(App { mouse_drag_active: false, ..app }),
                ),
            )
        } else {
            None
        },
        _ => None,
    }
}

/// Whether a mouse event lets go of the left button.
pub open spec fn releases(mouse: MouseInput) -> bool {
    mouse.kind == MouseInputKind::MouseUp(Button::Left)
}

/// A place in a file lies at a character of it.
pub open spec fn point_fits(text: Seq<char>, point: SelPoint) -> bool {
    match point {
        SelPoint::Preview { line_idx, byte_offset: _ } => line_idx < starts_of(text).len()
            && is_boundary(text, point_byte(text, point)),
        SelPoint::Terminal { viewport_row: _, col: _ } => true,
    }
}

/// The places of a selection lie at characters of a text.
pub open spec fn points_fit(text: Seq<char>, sel: TextSelection) -> bool {
    &&& point_fits(text, sel.start)
    &&& point_fits(text, sel.end)
    &&& sel.click_anchor matches Some(a) ==> point_fits(text, a)
    &&& sel.click_word matches Some((a, b)) ==> point_fits(text, a) && point_fits(text, b)
}

/// The places of a selection in a file lie at characters of it. A file that is read anew can
/// change that.
pub open spec fn selection_fits(app: App) -> bool {
    app.text_selection matches Some(sel) ==> match sel.window {
        Window::FilePreview(key) => key.0 < app.files.len() && points_fit(
            app.files[key.0 as int].text,
            sel,
        ),
        _ => true,
    }
}

/// Whether a byte offset is that of a character, or of the end of a text.
fn at_character(text: &str, byte: usize) -> (r: bool)
    ensures
        r == is_boundary(text@, byte as int),
{
    let _ = text_len(text);
    let chars = chars_of(text);
    let k: usize = chars_before(&chars, byte);
    bytes_before(&chars, k) == byte
}

/// The line starts of a file are where its lines start, none of them behind its end.
proof fn lemma_line_start(data: &FileData, line: int)
    requires
        data.wf(),
        0 <= line < data.line_starts@.len(),
    ensures
        data.line_starts@.len() == starts_of(data.content@).len(),
        data.line_starts@[line] == line_start(data.content@, line),
        0 <= line_start(data.content@, line) <= byte_len(data.content@),
        data.line_starts@[0] == 0,
{
    let text = data.content@;
    lemma_starts(text, text.len() as int);
    lemma_byte_at_grows(text, starts_of(text)[line], text.len() as int);
    assert(line_start(text, 0) == 0);
}

/// No character starts behind the end of a text.
proof fn lemma_past_end(text: Seq<char>, byte: int)
    requires
        byte > byte_len(text),
    ensures
        !is_boundary(text, byte),
{
    if is_boundary(text, byte) {
        let i = choose|i: int| 0 <= i <= text.len() && #[trigger] byte_at(text, i) == byte;
        lemma_byte_at_grows(text, i, text.len() as int);
    }
}

/// The place of a byte in a file.
fn point_of(data: &FileData, line: usize, byte: usize) -> (r: SelPoint)
    requires
        data.wf(),
        line < data.line_starts@.len(),
        is_boundary(data.content@, byte as int),
    ensures
        r == file_point(data.content@, line as int, byte as int),
        point_fits(data.content@, r),
{
    let ghost text = data.content@;
    let mut l: usize = line;
    proof {
        lemma_line_start(data, l as int);
        if byte > byte_len(text) {
            lemma_past_end(text, byte as int);
        }
        law_point_leads_back_to_byte(text, line as int, byte as int);
    }
    while l > 0 && data.line_starts[l] > byte
        invariant
            data.wf(),
            text == data.content@,
            l < data.line_starts@.len(),
            data.line_starts@[l as int] == line_start(text, l as int),
            file_point(text, line as int, byte as int) == file_point(text, l as int, byte as int),
        decreases l,
    {
        l = l - 1;
        proof {
            lemma_line_start(data, l as int);
        }
    }
    proof {
        lemma_line_start(data, l as int);
    }
    SelPoint::Preview { line_idx: l, byte_offset: byte - data.line_starts[l] }
}

/// The byte that a place in a file is at.
fn byte_of_point(data: &FileData, line_idx: usize, byte_offset: usize) -> (r: usize)
    requires
        data.wf(),
        point_fits(data.content@, SelPoint::Preview { line_idx, byte_offset }),
    ensures
        r == point_byte(data.content@, SelPoint::Preview { line_idx, byte_offset }),
        is_boundary(data.content@, r as int),
{
    let ghost point = SelPoint::Preview { line_idx, byte_offset };
    proof {
        assert(data.line_starts@.len() == starts_of(data.content@).len());
        lemma_line_start(data, line_idx as int);
        if point_byte(data.content@, point) > byte_len(data.content@) {
            lemma_past_end(data.content@, point_byte(data.content@, point));
        }
    }
    data.line_starts[line_idx] + byte_offset
}

/// Whether a place in a file lies at a character of it.
fn point_still_fits(data: &FileData, point: SelPoint) -> (r: bool)
    requires
        data.wf(),
    ensures
        r == point_fits(data.content@, point),
{
    match point {
        SelPoint::Preview { line_idx, byte_offset } => {
            let len: usize = text_len(data.content.as_str());
            if line_idx >= data.line_starts.len() {
                return false;
            }
            let start: usize = data.line_starts[line_idx];
            proof {
                lemma_line_start(data, line_idx as int);
            }
            if byte_offset > len - start {
                proof {
                    lemma_past_end(data.content@, start + byte_offset);
                }
                return false;
            }
            at_character(data.content.as_str(), start + byte_offset)
        },
        SelPoint::Terminal { .. } => true,
    }
}

/// Whether the places of a selection in a file lie at characters of it.
pub fn selection_still_fits(state: &AppState) -> (r: bool)
    requires
        state.wf(),
    ensures
        r == selection_fits(state@),
{
    match &state.text_selection {
        Some(sel) => match sel.window {
            Window::FilePreview(key) => {
                if key.0 >= state.files.len() {
                    return false;
                }
                let data = &state.files[key.0].data;
                assert(data.wf());
                assert(state@.files[key.0 as int].text == data.content@);
                let word = match sel.click_word {
                    Some((a, b)) => point_still_fits(data, a) && point_still_fits(data, b),
                    None => true,
                };
                let anchor = match sel.click_anchor {
                    Some(a) => point_still_fits(data, a),
                    None => true,
                };
                word && anchor && point_still_fits(data, sel.start) && point_still_fits(
                    data,
                    sel.end,
                )
            },
            _ => true,
        },
        None => true,
    }
}

impl PaneComponent {
    /// Takes note of a click, and returns how many in a row it makes.
    fn count_click(&mut self, pos: Pos, now: Nanos) -> (r: u8)
        ensures
            r == clicks_after(old(self)@, pos, now),
            final(self)@ == (Pane {
                consecutive_clicks: r,
                last_click: Some((now, pos)),
                ..old(self)@
            }),
    {
        let again = match self.last_click {
            Some((at, place)) => place == pos && elapsed(at, now) / MILLISECOND < 300,
            None => false,
        };
        self.consecutive_clicks = if again {
            self.consecutive_clicks.saturating_add(1)
        } else {
            1
        };
        self.last_click = Some((now, pos));
        self.consecutive_clicks
    }

    /// Handles a click in a file.
    fn click_file(&mut self, state: &mut AppState, key: FileKey, pos: Pos, now: Nanos)
        requires
            old(state).wf(),
            old(self)@.wf(),
            key.0 < old(state).files@.len(),
        ensures
            (final(self)@, final(state)@) == file_clicked(
                old(self)@,
                old(state)@,
                key,
                pos,
                now,
            ),
            final(self)@.wf(),
            final(state).files == old(state).files,
            final(state).wf(),
            selection_fits(old(state)@) ==> selection_fits(final(state)@),
    {
        let ghost p = self@;
        let ghost app = state@;
        let ghost text = app.files[key.0 as int].text;
        assert(state.files@[key.0 as int].data.wf());
        let clicks: u8 = self.count_click(pos, now);
        let (line, _, byte) = self.preview.screen_pos_to_line_char(
            state,
            pos.row_index as usize,
            pos.col_index as usize,
            key,
        );
        let window = Window::FilePreview(key);
        let data = &state.files[key.0].data;
        if clicks == 1 {
            let (from, to) = data.word_bounds(byte);
            let start = point_of(data, line, from);
            let end = point_of(data, line, to);
            let anchor = point_of(data, line, byte);
            state.text_selection = Some(
                TextSelection {
                    window,
                    start,
                    end: start,
                    click_anchor: Some(anchor),
                    click_word: Some((start, end)),
                    active: true,
                },
            );
            self.text_drag_active = true;
            state.mouse_drag_active = true;
        } else if clicks == 3 {
            let (from, to) = data.line_bounds(line);
            let start = point_of(data, line, from);
            let end = point_of(data, line, to);
            state.text_selection = Some(
                TextSelection {
                    window,
                    start,
                    end,
                    click_anchor: None,
                    click_word: None,
                    active: true,
                },
            );
            self.text_drag_active = true;
            state.mouse_drag_active = true;
        }
        proof {
            lemma_still_wf(app, state@);
        }
    }

    /// Handles a drag over the text of a file.
    fn drag_file_text(&self, state: &mut AppState, key: FileKey, pos: Pos)
        requires
            old(state).wf(),
            self@.wf(),
            key.0 < old(state).files@.len(),
        ensures
            final(state)@ == file_text_dragged(self@, old(state)@, key, pos),
            final(state).files == old(state).files,
            final(state).wf(),
            selection_fits(old(state)@) ==> selection_fits(final(state)@),
    {
        assert(state.files@[key.0 as int].data.wf());
        let (line, _, byte) = self.preview.screen_pos_to_line_char(
            state,
            pos.row_index as usize,
            pos.col_index as usize,
            key,
        );
        if let Some(sel) = state.text_selection {
            if sel.window == Window::FilePreview(key) {
                let mut sel = sel;
                let data = &state.files[key.0].data;
                let here = point_of(data, line, byte);
                match (sel.click_anchor, sel.click_word) {
                    (
                        Some(SelPoint::Preview { line_idx: anchor_line, byte_offset: anchor }),
                        Some((word_start, word_end)),
                    ) => {
                        if anchor_line == line {
                            let (from, to) = data.word_bounds(byte);
                            proof {
                                lemma_line_start(data, line as int);
                            }
                            if byte - data.line_starts[line] >= anchor {
                                sel.start = word_start;
                                sel.end = point_of(data, line, to);
                            } else {
                                sel.start = point_of(data, line, from);
                                sel.end = word_end;
                            }
                        } else {
                            sel.end = here;
                        }
                    },
                    _ => {
                        sel.end = here;
                    },
                }
                state.text_selection = Some(sel);
            }
        }
    }

    /// What is selected of a file.
    fn selected_in_file(state: &AppState, key: FileKey) -> (r: Option<String>)
        requires
            state.wf(),
            key.0 < state.files@.len(),
            selection_fits(state@),
        ensures
            crate::theme::optional_text(r) == file_selected_text(state@, key),
    {
        let sel: TextSelection = match state.text_selection {
            Some(sel) => sel,
            None => {
                return None;
            },
        };
        if sel.window != Window::FilePreview(key) {
            return None;
        }
        assert(state.files@[key.0 as int].data.wf());
        let data = &state.files[key.0].data;
        match (sel.start, sel.end) {
            (
                SelPoint::Preview { line_idx: s_line, byte_offset: s },
                SelPoint::Preview { line_idx: e_line, byte_offset: e },
            ) => {
                let home: usize = match sel.click_anchor {
                    Some(SelPoint::Preview { line_idx, .. }) => line_idx,
                    _ => s_line,
                };
                if home == e_line {
                    let from: usize = byte_of_point(data, s_line, s);
                    let to: usize = byte_of_point(data, e_line, e);
                    data.extract_text(from, to)
                } else {
                    let (from, _) = data.line_bounds(min_of(home, e_line));
                    let (_, to) = data.line_bounds(max_of(home, e_line));
                    data.extract_text(from, to)
                }
            },
            _ => None,
        }
    }

    /// The line of a file that a row shows where no line is wrapped.
    fn line_at_row(&self, state: &AppState, key: FileKey, row: u16) -> (r: usize)
        ensures
            r == line_in_row(self@, state@, key, row),
    {
        let window = Window::FilePreview(key);
        let scroll: usize = state.pane_manager.window_scroll(&window);
        let max: usize = max_of(state.pane_manager.window_scroll_max(&window), 1);
        let y: usize = row.saturating_sub(self.content_origin_row) as usize;
        min_of(scroll.saturating_add(y).saturating_add(1), max)
    }

    /// Handles a drag over the lines of a file.
    fn drag_file_lines(&mut self, state: &mut AppState, key: FileKey, row: u16, now: Nanos)
        requires
            old(state).wf(),
            old(self)@.wf(),
        ensures
            final(state)@ == file_lines_dragged(old(self)@, old(state)@, key, row, now),
            final(self)@ == old(self)@,
            final(state).files == old(state).files,
            final(state).wf(),
    {
        let ghost app = state@;
        let line: usize = self.line_at_row(state, key, row);
        let before: Option<Vec<(usize, usize)>> = match state.highlight_ranges.get(&key) {
            Some(ranges) => Some(copy_ranges(ranges)),
            None => None,
        };
        self.preview.update_drag(state, key, line);
        let same = match (&before, state.highlight_ranges.get(&key)) {
            (Some(a), Some(b)) => same_ranges(a, b),
            (None, None) => true,
            _ => false,
        };
        if !same {
            state.mark_session_dirty(now);
        }
    }

    /// Handles a mouse event in the text of a file. Returns whether it was for it.
    pub fn handle_file_mouse(
        &mut self,
        mouse: &MouseInput,
        state: &mut AppState,
        key: FileKey,
        now: Nanos,
        effects: &mut Vec<Effect>,
    ) -> (r: bool)
        requires
            old(state).wf(),
            old(self)@.wf(),
            key.0 < old(state).files@.len(),
            releases(*mouse) && old(self)@.text_drag_active ==> selection_fits(old(state)@),
        ensures
            match file_mouse(old(self)@, old(state)@, key, *mouse, now) {
                Some((pane, o)) => r && final(self)@ == pane && final(state)@ == o.app && acts(
                    final(effects)@,
                ) == acts(old(effects)@) + o.acts && o.flow == EventPropagation::ConsumedRender,
                None => !r && final(self)@ == old(self)@ && final(state)@ == old(state)@
                    && final(effects)@ == old(effects)@,
            },
            final(self)@.wf(),
            final(state).files == old(state).files,
            final(state).wf(),
            selection_fits(old(state)@) ==> selection_fits(final(state)@),
    {
        let ghost before = acts(effects@);
        assert(before + Seq::<Act>::empty() =~= before);
        match mouse.kind {
            MouseInputKind::MouseDown(Button::Left) => {
                let row: u32 = mouse.pos.row_index as u32;
                let col: u32 = mouse.pos.col_index as u32;
                let top: u32 = self.content_origin_row as u32;
                let left: u32 = self.content_origin_col as u32;
                let inside = row >= top && row < top + self.content_row_count as u32 && col >= left
                    && col + 1 < left + self.content_col_count as u32;
                if !inside {
                    return false;
                }
                match drag_modifier_from_mouse(mouse) {
                    Some(modifier) => {
                        let line: usize = self.line_at_row(state, key, mouse.pos.row_index);
                        self.preview_drag_active = true;
                        self.preview.start_drag(state, key, line, modifier);
                        state.mouse_drag_active = true;
                    },
                    None => {
                        self.click_file(state, key, mouse.pos, now);
                    },
                }
                true
            },
            MouseInputKind::MouseDrag(Button::Left) => {
                if self.text_drag_active {
                    self.drag_file_text(state, key, mouse.pos);
                    true
                } else if self.preview_drag_active {
                    self.drag_file_lines(state, key, mouse.pos.row_index, now);
                    true
                } else {
                    false
                }
            },
            MouseInputKind::MouseUp(Button::Left) => {
                if self.text_drag_active {
                    let text = Self::selected_in_file(state, key);
                    if let Some(text) = text {
                        perform(effects, Effect::Clipboard(text));
                    }
                    assert(acts(effects@) =~= before + copied(file_selected_text(state@, key)));
                    state.text_selection = None;
                    self.text_drag_active = false;
                    state.mouse_drag_active = false;
                    true
                } else if self.preview_drag_active {
                    self.preview_drag_active = false;
                    self.preview.end_drag();
                    state.mouse_drag_active = false;
                    true
                } else {
                    false
                }
            },
            _ => false,
        }
    }
}

/// The word under a cursor ends at the cursor or behind it, and starts and ends in the text.
proof fn lemma_word_offsets(text: Seq<char>, byte: int)
    requires
        is_boundary(text, byte),
        byte_len(text) <= usize::MAX,
    ensures
        0 <= word_offsets(text, byte).0 <= byte_len(text),
        byte <= word_offsets(text, byte).1 <= byte_len(text),
        byte <= byte_len(text),
{
    let i = choose|i: int| 0 <= i <= text.len() && #[trigger] byte_at(text, i) == byte;
    lemma_byte_at_grows(text, i, text.len() as int);
    if text.len() > 0 {
        lemma_char_at(text, i);
        let k = char_under(text, byte);
        law_word_span_holds_place(text, k);
        let span = word_span(text, k);
        lemma_byte_at_grows(text, 0, span.0);
        lemma_byte_at_grows(text, span.0, text.len() as int);
        lemma_byte_at_grows(text, k + 1, span.1);
        lemma_byte_at_grows(text, span.1, text.len() as int);
        if i < text.len() {
            lemma_byte_at_grows(text, k, k + 1);
        }
    }
}

/// The place in a file that a cell shows lies in its line.
pub proof fn lemma_spot_in_line(p: Pane, app: App, key: FileKey, pos: Pos)
    ensures
        ({
            let text = app.files[key.0 as int].text;
            let (line, c, byte) = p.preview.spot(
                app,
                key,
                pos.row_index as int,
                pos.col_index as int,
            );
            &&& 0 <= line < starts_of(text).len()
            &&& is_boundary(text, byte)
            &&& line_start(text, line) <= byte
        }),
{
    let text = app.files[key.0 as int].text;
    let lines = starts_of(text).len() as int;
    let right = pos.col_index - p.preview.content_origin_col - gutter_width(lines);
    law_shown_spot_lies_in_text(
        text,
        app.panes.state_of(Window::FilePreview(key)).scroll as int,
        if right > 0 {
            right
        } else {
            0
        },
        if pos.row_index as int > p.preview.content_origin_row {
            pos.row_index - p.preview.content_origin_row
        } else {
            0
        },
        text_width(p.preview.content_col_count as int, lines),
        p.preview.content_row_count as int,
    );
}

/// A click and a drag within one line select the words at both places and what stands between
/// them; a drag to another line selects both lines and those between them.
pub proof fn law_drag_takes_words_and_lines(
    p: Pane,
    app: App,
    key: FileKey,
    pos: Pos,
    now: Nanos,
    to: Pos,
)
    requires
        clicks_after(p, pos, now) == 1,
        byte_len(app.files[key.0 as int].text) <= usize::MAX,
    ensures
        ({
            let text = app.files[key.0 as int].text;
            let (line, _, byte) = p.preview.spot(
                app,
                key,
                pos.row_index as int,
                pos.col_index as int,
            );
            let (other, _, last) = p.preview.spot(
                app,
                key,
                to.row_index as int,
                to.col_index as int,
            );
            let (pane, clicked) = file_clicked(p, app, key, pos, now);
            let selected = file_selected_text(file_text_dragged(pane, clicked, key, to), key);
            if line != other {
                selected == text_between(
                    text,
                    byte_range_of_line(text, lesser(line, other)).0 as int,
                    byte_range_of_line(text, greater(line, other)).1 as int,
                )
            } else if byte <= last {
                selected == text_between(
                    text,
                    word_offsets(text, byte).0 as int,
                    word_offsets(text, last).1 as int,
                )
            } else {
                selected == text_between(
                    text,
                    word_offsets(text, last).0 as int,
                    word_offsets(text, byte).1 as int,
                )
            }
        }),
{
    let text = app.files[key.0 as int].text;
    let (line, _, byte) = p.preview.spot(app, key, pos.row_index as int, pos.col_index as int);
    let (other, _, last) = p.preview.spot(app, key, to.row_index as int, to.col_index as int);
    let (pane, clicked) = file_clicked(p, app, key, pos, now);
    lemma_spot_in_line(p, app, key, pos);
    lemma_spot_in_line(p, app, key, to);
    lemma_word_offsets(text, byte);
    lemma_word_offsets(text, last);
    lemma_starts(text, text.len() as int);
    lemma_byte_at_grows(text, text.len() as int, text.len() as int);
    lemma_byte_at_grows(text, 0, starts_of(text)[line]);
    lemma_byte_at_grows(text, 0, starts_of(text)[other]);
    law_point_leads_back_to_byte(text, line, byte);
    law_point_leads_back_to_byte(text, line, word_offsets(text, byte).0 as int);
    law_point_leads_back_to_byte(text, line, word_offsets(text, byte).1 as int);
    law_point_leads_back_to_byte(text, other, last);
    law_point_leads_back_to_byte(text, other, word_offsets(text, last).0 as int);
    law_point_leads_back_to_byte(text, other, word_offsets(text, last).1 as int);
    assert(pane.preview.spot(clicked, key, to.row_index as int, to.col_index as int) == (
        other,
        p.preview.spot(app, key, to.row_index as int, to.col_index as int).1,
        last,
    ));
}

/// Whether two lists of ranges are the same.
fn same_ranges(a: &Vec<(usize, usize)>, b: &Vec<(usize, usize)>) -> (r: bool)
    ensures
        r == (a@ == b@),
{
    if a.len() != b.len() {
        return false;
    }
    let mut i: usize = 0;
    while i < a.len()
        invariant
            i <= a@.len(),
            a@.len() == b@.len(),
            forall|j: int| 0 <= j < i ==> a@[j] == b@[j],
        decreases a@.len() - i,
    {
        if a[i].0 != b[i].0 || a[i].1 != b[i].1 {
            return false;
        }
        i += 1;
    }
    assert(a@ =~= b@);
    true
}

} // verus!
