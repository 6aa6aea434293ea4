//! Selecting text in a terminal with the mouse.

use vstd::prelude::*;
use crate::effect::{Act, Effect, acts, perform};
use crate::geometry::Pos;
use crate::input::{Button, EventPropagation, MouseInput, MouseInputKind};
use crate::pane::{Pane, PaneComponent};
use crate::pane_manager::{SelPoint, TextSelection, Window};
use crate::pane_mouse::{cell_point, copied, selecting, selection_ended, selection_fits};
use crate::screen::{
    extract_terminal_text, lesser, min_of, selected_text, terminal_line_at_viewport_row,
    terminal_span, terminal_word_bounds,
};
use crate::state::{App, AppState, lemma_still_wf};
use crate::terminal_pane::{Outcome, redraw};
use crate::theme::optional_text;

verus! {

/// Whether a cell lies in the content of a pane.
pub open spec fn in_content(p: Pane, pos: Pos) -> bool {
    &&& p.content_origin_row <= pos.row_index < p.content_origin_row + p.content_row_count
    &&& p.content_origin_col <= pos.col_index < p.content_origin_col + p.content_col_count
}

/// Whether the program in a terminal keeps the mouse to itself: it runs on the alternate screen
/// and asked for mouse events.
pub open spec fn keeps_mouse(app: App, id: usize) -> bool {
    app.terminals.contains_key(id) && app.terminals[id].screen.alternate
        && app.terminals[id].screen.mouse_tracking
}

/// The text in a row of a terminal.
pub open spec fn row_text(app: App, id: usize, row: int, height: int) -> Seq<char> {
    app.terminals[id].screen.viewport_text(
        app.terminals[id].scroll_offset as int,
        row,
        height,
    )
}

/// A click in a terminal selects the word there.
pub open spec fn terminal_clicked(p: Pane, app: App, id: usize, pos: Pos) -> (Pane, App) {
    let row = pos.row_index - p.content_origin_row;
    let col = pos.col_index - p.content_origin_col;
    let window = Window::Terminal(id);
    let here = cell_point(row, col);
    selecting(
        p,
        app,
        if app.terminals.contains_key(id) {
            let (from, to) = terminal_span(
                row_text(app, id, row, p.content_row_count as int),
                col,
            );
            let start = cell_point(row, from);
            let end = cell_point(row, to);
            TextSelection {
                window,
                start,
                end,
                click_anchor: Some(here),
                click_word: Some((start, end)),
                active: true,
            }
        } else {
            TextSelection {
                window,
                start: here,
                end: here,
                click_anchor: None,
                click_word: None,
                active: true,
            }
        },
    )
}

/// The row at which a selection in a terminal was started with a click.
pub open spec fn anchor_row(sel: TextSelection) -> Option<usize> {
    match sel.click_anchor {
        Some(SelPoint::Terminal { viewport_row, col: _ }) => Some(viewport_row),
        _ => None,
    }
}

/// Whether a selection in a terminal goes by words in a row: it was started there with a click on
/// a word.
pub open spec fn by_words(sel: TextSelection, row: int) -> bool {
    &&& anchor_row(sel) == Some(row as usize)
    &&& sel.click_word matches Some((a, b)) && a is Terminal && b is Terminal
}

/// The column of a place in a terminal.
pub open spec fn column_of(point: SelPoint) -> usize {
    match point {
        SelPoint::Terminal { viewport_row: _, col } => col,
        SelPoint::Preview { line_idx: _, byte_offset: _ } => 0,
    }
}

/// A selection that reaches to a cell of a terminal with the text `line` in its row: by words in
/// the row where it started, and by whole rows beyond. Where the terminal is gone, there is no
/// text.
pub open spec fn terminal_selection_to(
    sel: TextSelection,
    row: int,
    col: int,
    line: Option<Seq<char>>,
) -> TextSelection {
    match line {
        Some(text) => if by_words(sel, row) {
            let (from, to) = terminal_span(text, col);
            let (word_start, word_end) = sel.click_word->0;
            if col >= column_of(sel.click_anchor->0) {
                TextSelection {
                    start: cell_point(row, column_of(word_start) as int),
                    end: cell_point(row, to),
                    ..sel
                }
            } else {
                TextSelection {
                    start: cell_point(row, from),
                    end: cell_point(row, column_of(word_end) as int),
                    ..sel
                }
            }
        } else {
            match anchor_row(sel) {
                Some(first) => if first != row {
                    TextSelection {
                        start: cell_point(first as int, 0),
                        end: cell_point(row, text.len() as int),
                        ..sel
                    }
                } else {
                    TextSelection { end: cell_point(row, col), ..sel }
                },
                None => TextSelection { end: cell_point(row, col), ..sel },
            }
        },
        None => TextSelection { end: cell_point(row, col), ..sel },
    }
}

/// A place counted from an origin, no further than the last of `count`.
pub open spec fn within(at: u16, origin: u16, count: u16) -> int {
    lesser(
        if at > origin {
            at - origin
        } else {
            0
        },
        if count > 0 {
            count - 1
        } else {
            0
        },
    )
}

/// A drag over a terminal has come to a cell.
pub open spec fn terminal_dragged(p: Pane, app: App, id: usize, pos: Pos) -> App {
    let row = within(pos.row_index, p.content_origin_row, p.content_row_count);
    let col = within(pos.col_index, p.content_origin_col, p.content_col_count);
    match app.text_selection {
        Some(sel) => if sel.window == Window::Terminal(id) {
            App {
                text_selection: Some(
                    terminal_selection_to(
                        sel,
                        row,
                        col,
                        if app.terminals.contains_key(id) {
                            Some(row_text(app, id, row, p.content_row_count as int))
                        } else {
                            None
                        },
                    ),
                ),
                ..app
            }
        } else {
            app
        },
        None => app,
    }
}

/// What is selected of a terminal, where it is any text.
pub open spec fn terminal_selected_text(p: Pane, app: App, id: usize) -> Option<Seq<char>> {
    match app.text_selection {
        Some(sel) => if sel.window == Window::Terminal(id) && app.terminals.contains_key(id) {
            let t = app.terminals[id];
            match selected_text(
                t.screen,
                t.scroll_offset as int,
                sel.start,
                sel.end,
                p.content_row_count as int,
            ) {
                Some(text) => if text.len() > 0 {
                    Some(text)
                } else {
                    None
                },
                None => None,
            }
        } else {
            None
        },
        None => None,
    }
}

/// What a mouse event in a terminal does to the selection, or `None` where it does nothing to it.
pub open spec fn terminal_mouse(p: Pane, app: App, id: usize, mouse: MouseInput) -> Option<
    (Pane, Outcome),
> {
    if keeps_mouse(app, id) {
        None
    } else {
        match mouse.kind {
            MouseInputKind::MouseDown(Button::Left) => if in_content(p, mouse.pos) {
                let (pane, next) = terminal_clicked(p, app, id, mouse.pos);
                Some((pane, redraw(next)))
            } else {
                None
            },
            MouseInputKind::MouseDrag(Button::Left) => if p.text_drag_active {
                Some((p, redraw(terminal_dragged(p, app, id, mouse.pos))))
            } else {
                None
            },
            MouseInputKind::MouseUp(Button::Left) => if p.text_drag_active {
                let (pane, next) = selection_ended(p, app);
                Some(
                    (
                        pane,
                        Outcome {
                            app: next,
                            flow: EventPropagation::ConsumedRender,
                            acts: copied(terminal_selected_text(p, app, id)),
                        },
                    ),
                )
            } else {
                None
            },
            _ => None,
        }
    }
}

/// A place counted from an origin, no further than the last of `count`.
fn place_within(at: u16, origin: u16, count: u16) -> (r: usize)
    ensures
        r == within(at, origin, count),
{
    min_of(at.saturating_sub(origin) as usize, count.saturating_sub(1) as usize)
}

impl PaneComponent {
    /// Whether the program in a terminal keeps the mouse to itself.
    fn mouse_is_kept(state: &AppState, id: usize) -> (r: bool)
        ensures
            r == keeps_mouse(state@, id),
    {
        match state.terminal_panes.get(&id) {
            Some(pane) => pane.screen.alternate && pane.screen.mouse_tracking,
            None => false,
        }
    }

    /// Handles a click in a terminal.
    fn click_terminal(&mut self, state: &mut AppState, id: usize, pos: Pos)
        requires
            old(state).wf(),
            in_content(old(self)@, pos),
        ensures
            (final(self)@, final(state)@) == terminal_clicked(old(self)@, old(state)@, id, pos),
            final(state).files == old(state).files,
            final(state).wf(),
            selection_fits(old(state)@) ==> selection_fits(final(state)@),
    {
        let ghost app = state@;
        let row: usize = (pos.row_index - self.content_origin_row) as usize;
        let col: usize = (pos.col_index - self.content_origin_col) as usize;
        let here = SelPoint::Terminal { viewport_row: row, col };
        let window = Window::Terminal(id);
        let selection: TextSelection = match state.terminal_panes.get(&id) {
            Some(pane) => {
                assert(state@.terminals[id] == pane@);
                assert(pane@.screen.wf());
                let (line, _) = terminal_line_at_viewport_row(
                    &pane.screen,
                    pane.scroll_offset,
                    row,
                    self.content_row_count as usize,
                );
                let (from, to) = terminal_word_bounds(line.as_str(), col);
                let start = SelPoint::Terminal { viewport_row: row, col: from };
                let end = SelPoint::Terminal { viewport_row: row, col: to };
                TextSelection {
                    window,
                    start,
                    end,
                    click_anchor: Some(here),
                    click_word: Some((start, end)),
                    active: true,
                }
            },
            None => TextSelection {
                window,
                start: here,
                end: here,
                click_anchor: None,
                click_word: None,
                active: true,
            },
        };
        state.text_selection = Some(selection);
        self.text_drag_active = true;
        state.mouse_drag_active = true;
        proof {
            lemma_still_wf(app, state@);
        }
    }

    /// A selection that reaches to a cell of a terminal with the text `line` in its row.
    pub fn extend_selection(sel: TextSelection, row: usize, col: usize, line: Option<&str>) -> (r:
        TextSelection)
        ensures
            r == terminal_selection_to(
                sel,
                row as int,
                col as int,
                crate::shell::optional_str(line),
            ),
    {
        let mut out = sel;
        let here = SelPoint::Terminal { viewport_row: row, col };
        let text: &str = match line {
            Some(text) => text,
            None => {
                out.end = here;
                return out;
            },
        };
        let (from, to) = terminal_word_bounds(text, col);
        let len: usize = crate::text::chars_of(text).len();
        match (sel.click_anchor, sel.click_word) {
            (
                Some(SelPoint::Terminal { viewport_row: first, col: anchor }),
                Some(
                    (
                        SelPoint::Terminal { viewport_row: _, col: word_start },
                        SelPoint::Terminal { viewport_row: _, col: word_end },
                    ),
                ),
            ) => {
                if first == row {
                    if col >= anchor {
                        out.start = SelPoint::Terminal { viewport_row: row, col: word_start };
                        out.end = SelPoint::Terminal { viewport_row: row, col: to };
                    } else {
                        out.start = SelPoint::Terminal { viewport_row: row, col: from };
                        out.end = SelPoint::Terminal { viewport_row: row, col: word_end };
                    }
                } else {
                    out.start = SelPoint::Terminal { viewport_row: first, col: 0 };
                    out.end = SelPoint::Terminal { viewport_row: row, col: len };
                }
            },
            (Some(SelPoint::Terminal { viewport_row: first, col: _ }), _) => {
                if first != row {
                    out.start = SelPoint::Terminal { viewport_row: first, col: 0 };
                    out.end = SelPoint::Terminal { viewport_row: row, col: len };
                } else {
                    out.end = here;
                }
            },
            _ => {
                out.end = here;
            },
        }
        out
    }

    /// Handles a drag over a terminal.
    fn drag_terminal(&self, state: &mut AppState, id: usize, pos: Pos)
        requires
            old(state).wf(),
        ensures
            final(state)@ == terminal_dragged(self@, old(state)@, id, pos),
            final(state).files == old(state).files,
            final(state).wf(),
            selection_fits(old(state)@) ==> selection_fits(final(state)@),
    {
        let ghost app = state@;
        let row: usize = place_within(
            pos.row_index,
            self.content_origin_row,
            self.content_row_count,
        );
        let col: usize = place_within(
            pos.col_index,
            self.content_origin_col,
            self.content_col_count,
        );
        if let Some(sel) = state.text_selection {
            if sel.window == Window::Terminal(id) {
                let next: TextSelection = match state.terminal_panes.get(&id) {
                    Some(pane) => {
                        assert(state@.terminals[id] == pane@);
                        assert(pane@.screen.wf());
                        let (line, _) = terminal_line_at_viewport_row(
                            &pane.screen,
                            pane.scroll_offset,
                            row,
                            self.content_row_count as usize,
                        );
                        Self::extend_selection(sel, row, col, Some(line.as_str()))
                    },
                    None => Self::extend_selection(sel, row, col, None),
                };
                state.text_selection = Some(next);
                proof {
                    lemma_still_wf(app, state@);
                }
            }
        }
    }

    /// What is selected of a terminal, where it is any text.
    fn selected_in_terminal(&self, state: &AppState, id: usize) -> (r: Option<String>)
        requires
            state.wf(),
        ensures
            optional_text(r) == terminal_selected_text(self@, state@, id),
    {
        let sel: TextSelection = match state.text_selection {
            Some(sel) => sel,
            None => {
                return None;
            },
        };
        if sel.window != Window::Terminal(id) {
            return None;
        }
        match state.terminal_panes.get(&id) {
            Some(pane) => {
                assert(state@.terminals[id] == pane@);
                assert(pane@.screen.wf());
                match extract_terminal_text(
                    &pane.screen,
                    pane.scroll_offset,
                    sel.start,
                    sel.end,
                    self.content_row_count as usize,
                ) {
                    Some(text) => {
                        if text.as_str().is_empty() {
                            None
                        } else {
                            Some(text)
                        }
                    },
                    None => None,
                }
            },
            None => None,
        }
    }

    /// Handles a mouse event in a terminal that changes the selection. Returns whether it does.
    pub fn handle_terminal_mouse(
        &mut self,
        mouse: &MouseInput,
        state: &mut AppState,
        id: usize,
        effects: &mut Vec<Effect>,
    ) -> (r: bool)
        requires
            old(state).wf(),
        ensures
            match terminal_mouse(old(self)@, old(state)@, id, *mouse) {
                Some((pane, o)) => r && final(self)@ == pane && final(state)@ == o.app && acts(
                    final(effects)@,
                ) == acts(old(effects)@) + o.acts && o.flow == EventPropagation::ConsumedRender,
                None => !r && final(self)@ == old(self)@ && final(state)@ == old(state)@
                    && final(effects)@ == old(effects)@,
            },
            final(state).files == old(state).files,
            final(state).wf(),
            selection_fits(old(state)@) ==> selection_fits(final(state)@),
    {
        let ghost before = acts(effects@);
        assert(before + Seq::<Act>::empty() =~= before);
        if Self::mouse_is_kept(state, id) {
            return false;
        }
        match mouse.kind {
            MouseInputKind::MouseDown(Button::Left) => {
                let row: u32 = mouse.pos.row_index as u32;
                let col: u32 = mouse.pos.col_index as u32;
                let top: u32 = self.content_origin_row as u32;
                let left: u32 = self.content_origin_col as u32;
                let inside = row >= top && row < top + self.content_row_count as u32 && col >= left
                    && col < left + self.content_col_count as u32;
                if inside {
                    self.click_terminal(state, id, mouse.pos);
                }
                inside
            },
            MouseInputKind::MouseDrag(Button::Left) => {
                if self.text_drag_active {
                    self.drag_terminal(state, id, mouse.pos);
                    true
                } else {
                    false
                }
            },
            MouseInputKind::MouseUp(Button::Left) => {
                if self.text_drag_active {
                    let text = self.selected_in_terminal(state, id);
                    if let Some(text) = text {
                        perform(effects, Effect::Clipboard(text));
                    }
                    assert(acts(effects@) =~= before + copied(
                        terminal_selected_text(self@, state@, id),
                    ));
                    state.text_selection = None;
                    self.text_drag_active = false;
                    state.mouse_drag_active = false;
                    true
                } else {
                    false
                }
            },
            _ => false,
        }
    }
}

} // verus!
