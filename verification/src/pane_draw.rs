//! How a pane is drawn: its title bar, its content and its scrollbar.

use vstd::prelude::*;
use crate::effect::{Act, Effect, PtyInput, acts};
use crate::file_name_picker::{file_labels, list_measured};
use crate::fuzzy_picker::{Label, ResultLook, result_colors, scrolled_to};
use crate::geometry::{FlexBox, Size};
use crate::pane::{Pane, PaneComponent, active_in, scroll_state_of, window_scroll_state};
use crate::pane_manager::Window;
use crate::preview::file_in;
use crate::preview_draw::{measured, page_of, placed_in, preview_draws};
use crate::query_row::{preview_title_draws, query_title_draws};
use crate::render::{Draw, RenderOp, draws};
use crate::scrollbar::{render_scrollbar, scrollbar_rows};
use crate::session_time::Nanos;
use crate::state::{App, AppState, Term};
use crate::terminal_pane::{TerminalPaneComponent, terminal_draws, terminal_in, terminal_title};
use crate::text::split_on;
use crate::theme::Theme;
use crate::theme_picker::theme_labels;
use crate::title_row::title_draws;

verus! {

/// The title bar of a pane: what is drawn, and how many rows it takes.
#[verifier::opaque]
pub open spec fn pane_title(
    p: Pane,
    app: App,
    active: Option<Window>,
    b: FlexBox,
    focused: bool,
    now: Nanos,
) -> (
    Seq<Draw>,
    int,
) {
    match active {
        None => (Seq::empty(), 0),
        Some(Window::FileNamePicker) => (
            query_title_draws(app.file_name_picker.query, p.file_cursor, b, focused, app.theme),
            split_on(app.file_name_picker.query, '\n').len() as int,
        ),
        Some(Window::ThemePicker) => (
            query_title_draws(app.theme_picker.query, p.theme_cursor, b, focused, app.theme),
            split_on(app.theme_picker.query, '\n').len() as int,
        ),
        Some(Window::FilePreview(_)) => (
            preview_title_draws(p.preview, app, b, focused, app.theme, now),
            1,
        ),
        Some(Window::Terminal(_)) => (
            title_draws(
                b,
                terminal_title(
                    app,
                    match terminal_in(app, p.id) {
                        Some(id) => id,
                        None => 0,
                    },
                ),
                false,
                app.theme,
                focused,
            ),
            1,
        ),
    }
}

/// The box below a title bar.
pub open spec fn box_below(b: FlexBox, rows: u16) -> FlexBox {
    let size = b.style_adjusted_bounds_size;
    FlexBox {
        style_adjusted_origin_pos: b.style_adjusted_origin_pos.down_by(rows as int),
        style_adjusted_bounds_size: Size {
            row_height: (if size.row_height > rows {
                size.row_height - rows
            } else {
                0
            }) as u16,
            ..size
        },
    }
}

/// The box for the content of a pane, below a title bar of `height` rows.
pub open spec fn content_box(b: FlexBox, height: int) -> FlexBox {
    if height > 0 {
        box_below(b, (height as usize) as u16)
    } else {
        b
    }
}

/// The box for the content of a pane, below a title bar of `height` rows.
fn find_content_box(b: FlexBox, height: usize) -> (r: FlexBox)
    ensures
        r == content_box(b, height as int),
{
    if height > 0 {
        let rows: u16 = height as u16;
        let size = b.style_adjusted_bounds_size;
        FlexBox {
            style_adjusted_origin_pos: b.style_adjusted_origin_pos.below(rows),
            style_adjusted_bounds_size: Size {
                col_width: size.col_width,
                row_height: size.row_height.saturating_sub(rows),
            },
        }
    } else {
        b
    }
}

/// The box left of a scrollbar.
fn find_box_beside(b: FlexBox) -> (r: FlexBox)
    ensures
        r == box_beside(b),
{
    FlexBox {
        style_adjusted_origin_pos: b.style_adjusted_origin_pos,
        style_adjusted_bounds_size: Size {
            col_width: b.style_adjusted_bounds_size.col_width.saturating_sub(1),
            row_height: b.style_adjusted_bounds_size.row_height,
        },
    }
}

/// The box left of a scrollbar.
pub open spec fn box_beside(b: FlexBox) -> FlexBox {
    let size = b.style_adjusted_bounds_size;
    FlexBox {
        style_adjusted_bounds_size: Size {
            col_width: (if size.col_width > 0 {
                size.col_width - 1
            } else {
                0
            }) as u16,
            ..size
        },
        ..b
    }
}

/// Whether a window leaves room for a scrollbar: all but terminals on the alternate screen.
pub open spec fn has_scrollbar(app: App, active: Option<Window>) -> bool {
    match active {
        Some(Window::Terminal(id)) => !(app.terminals.contains_key(id)
            && app.terminals[id].screen.alternate),
        _ => true,
    }
}

/// What drawing a pane leads to.
#[verifier::ext_equal]
pub struct Drawn {
    pub pane: Pane,
    pub app: App,
    pub acts: Seq<Act>,
    pub draws: Seq<Draw>,
}

/// The list of a picker is drawn in a box.
pub open spec fn list_rows(
    theme: Theme,
    labels: Seq<Label>,
    selected: int,
    scroll: int,
    b: FlexBox,
) -> Seq<Draw> {
    ResultLook {
        colors: result_colors(theme),
        origin: b.style_adjusted_origin_pos,
        width: b.style_adjusted_bounds_size.col_width as int,
        count: labels.len() as int,
        selected,
        scroll,
    }.rows_draws(labels, b.style_adjusted_bounds_size.row_height as int)
}

/// The content of a pane is drawn in a box.
#[verifier::opaque]
pub open spec fn content_drawn(p: Pane, app: App, active: Option<Window>, b: FlexBox) -> Drawn {
    let rows = b.style_adjusted_bounds_size.row_height;
    let nothing = Drawn { pane: p, app, acts: Seq::empty(), draws: Seq::empty() };
    match active {
        Some(Window::FileNamePicker) => if rows == 0 {
            nothing
        } else {
            let q = app.file_name_picker;
            let scroll = scrolled_to(
                p.file_scroll as int,
                q.selected_index(),
                q.results.len() as int,
                rows as int,
            );
            Drawn {
                pane: Pane { file_scroll: scroll as usize, ..p },
                app: list_measured(
                    app,
                    Window::FileNamePicker,
                    scroll as usize,
                    q.results.len() as usize,
                    rows as usize,
                ),
                acts: Seq::empty(),
                draws: list_rows(app.theme, file_labels(app), q.selected_index(), scroll, b),
            }
        },
        Some(Window::ThemePicker) => if rows == 0 {
            nothing
        } else {
            let q = app.theme_picker;
            let scroll = scrolled_to(
                p.theme_scroll as int,
                q.selected_index(),
                q.results.len() as int,
                rows as int,
            );
            Drawn {
                pane: Pane { theme_scroll: scroll as usize, ..p },
                app: list_measured(
                    app,
                    Window::ThemePicker,
                    scroll as usize,
                    q.results.len() as usize,
                    rows as usize,
                ),
                acts: Seq::empty(),
                draws: list_rows(app.theme, theme_labels(app), q.selected_index(), scroll, b),
            }
        },
        Some(Window::FilePreview(_)) => Drawn {
            pane: Pane { preview: placed_in(p.preview, b), ..p },
            app: match file_in(app, p.id) {
                Some(key) => measured(app, key, rows as usize),
                None => app,
            },
            acts: Seq::empty(),
            draws: preview_draws(p.preview, app, b),
        },
        Some(Window::Terminal(_)) => match terminal_in(app, p.id) {
            Some(id) => if app.terminals.contains_key(id) {
                terminal_drawn(p, app, id, b)
            } else {
                nothing
            },
            None => nothing,
        },
        None => nothing,
    }
}

/// A terminal is drawn in a box, and told where its size has changed.
pub open spec fn terminal_drawn(p: Pane, app: App, id: usize, b: FlexBox) -> Drawn {
    let size = b.style_adjusted_bounds_size;
    let origin = b.style_adjusted_origin_pos;
    let t = app.terminals[id];
    let next = app.with_terminal(id, Term { last_size: size, ..t });
    Drawn {
        pane: Pane {
            terminal: TerminalPaneComponent {
                content_origin_row: origin.row_index as usize,
                content_origin_col: origin.col_index as usize,
                content_col_count: size.col_width as usize,
                content_row_count: size.row_height as usize,
                ..p.terminal
            },
            ..p
        },
        app: next,
        acts: if t.last_size != size {
            seq![Act::Pty { id, event: PtyInput::Resize(size) }]
        } else {
            Seq::empty()
        },
        draws: terminal_draws(next, id, b),
    }
}

/// The scrollbar of a window is drawn in the last column of a box.
#[verifier::opaque]
pub open spec fn scrollbar_drawn(app: App, active: Option<Window>, b: FlexBox) -> Seq<Draw> {
    match active {
        Some(window) => match window_scroll_state(app, window) {
            Some(s) => scrollbar_rows(
                b,
                app.theme,
                s,
                b.style_adjusted_bounds_size.row_height as int,
            ),
            None => Seq::empty(),
        },
        None => Seq::empty(),
    }
}

impl Pane {
    /// What drawing the pane in a box leads to.
    pub open spec fn drawn(self, app: App, b: FlexBox, focused: bool, now: Nanos) -> Drawn {
        let active = active_in(app, self.slot);
        let (title, height) = pane_title(self, app, active, b, focused, now);
        let titled = if (active matches Some(Window::FilePreview(_))) && self.preview.command is None {
            Pane { preview: self.preview.without_stale_error(now), ..self }
        } else {
            self
        };
        let below = content_box(b, height);
        let inner = if has_scrollbar(app, active) {
            box_beside(below)
        } else {
            below
        };
        let placed = Pane {
            content_origin_row: below.style_adjusted_origin_pos.row_index,
            content_origin_col: below.style_adjusted_origin_pos.col_index,
            content_col_count: below.style_adjusted_bounds_size.col_width,
            content_row_count: below.style_adjusted_bounds_size.row_height,
            ..titled
        };
        let content = content_drawn(placed, app, active, inner);
        Drawn {
            draws: title + content.draws + scrollbar_drawn(content.app, active, below),
            ..content
        }
    }

    /// Whether the texts and the lists that the pane can draw can be counted.
    pub open spec fn can_draw(self, app: App) -> bool {
        &&& self.preview.command matches Some(cmd) ==> cmd.len() < usize::MAX
        &&& app.file_name_picker.query.len() < usize::MAX
        &&& app.theme_picker.query.len() < usize::MAX
        &&& app.file_name_picker.results.len() + u16::MAX <= usize::MAX
        &&& app.theme_picker.results.len() + u16::MAX <= usize::MAX
    }
}

impl PaneComponent {
    /// Draws the title bar. Returns how many rows it takes.
    pub fn render_title_row(
        &mut self,
        ops: &mut Vec<RenderOp>,
        pane_box: &FlexBox,
        focused: bool,
        state: &AppState,
        now: Nanos,
    ) -> (r: usize)
        requires
            state.wf(),
            old(self)@.wf(),
            old(self)@.can_draw(state@),
        ensures
            ({
                let active = active_in(state@, old(self).slot);
                let (title, height) = pane_title(
                    old(self)@,
                    state@,
                    active,
                    *pane_box,
                    focused,
                    now,
                );
                &&& r == height
                &&& draws(final(ops)@) == draws(old(ops)@) + title
                &&& final(self)@ == if (active matches Some(Window::FilePreview(_))) && old(
                    self,
                )@.preview.command is None {
                    Pane { preview: old(self)@.preview.without_stale_error(now), ..old(self)@ }
                } else {
                    old(self)@
                }
            }),
            final(self)@.wf(),
    {
        reveal(pane_title);
        let theme = &state.theme;
        match self.active_window(state) {
            Some(Window::FileNamePicker) => self.picker.render_title_row(
                ops,
                pane_box,
                focused,
                theme,
                state,
            ),
            Some(Window::ThemePicker) => self.theme_picker.render_title_row(
                ops,
                pane_box,
                focused,
                theme,
                state,
            ),
            Some(Window::FilePreview(_)) => {
                self.preview.render_title(ops, pane_box, focused, theme, state, now);
                1
            },
            Some(Window::Terminal(_)) => self.terminal.render_title_row(
                ops,
                pane_box,
                focused,
                theme,
                state,
            ),
            None => {
                assert(draws(ops@) =~= draws(old(ops)@) + Seq::<Draw>::empty());
                0
            },
        }
    }

    /// Draws the content in a box.
    fn render_content(
        &mut self,
        ops: &mut Vec<RenderOp>,
        state: &mut AppState,
        active: Option<Window>,
        b: FlexBox,
        effects: &mut Vec<Effect>,
    )
        requires
            old(state).wf(),
            old(self)@.wf(),
            old(self)@.can_draw(old(state)@),
        ensures
            ({
                let d = content_drawn(old(self)@, old(state)@, active, b);
                &&& final(self)@ == d.pane
                &&& final(state)@ == d.app
                &&& acts(final(effects)@) == acts(old(effects)@) + d.acts
                &&& draws(final(ops)@) == draws(old(ops)@) + d.draws
            }),
            final(self)@.wf(),
            final(state).files == old(state).files,
            final(state).wf(),
    {
        reveal(content_drawn);
        let ghost before_acts = acts(effects@);
        let ghost before = draws(ops@);
        assert(before_acts + Seq::<Act>::empty() =~= before_acts);
        assert(before + Seq::<Draw>::empty() =~= before);
        match active {
            Some(Window::FileNamePicker) => {
                self.picker.render(ops, state, b);
            },
            Some(Window::ThemePicker) => {
                self.theme_picker.render(ops, state, b);
            },
            Some(Window::FilePreview(_)) => {
                proof {
                    if let Some(key) = file_in(state@, self.id) {
                        assert(state@.panes.stack[self.slot as int] == Window::FilePreview(key));
                        assert(state.files@[key.0 as int].data.wf());
                        assert(state@.files[key.0 as int].colors_fit());
                        assert(page_of(self@.preview, state@, key, b).fits());
                    }
                }
                self.preview.render(ops, state, b);
            },
            Some(Window::Terminal(_)) => {
                if let Some(id) = self.terminal.prepare(state, b, effects) {
                    self.terminal.render(ops, state, id, b);
                }
            },
            None => {},
        }
    }

    /// Whether a window leaves room for a scrollbar.
    fn leaves_room(state: &AppState, active: Option<Window>) -> (r: bool)
        ensures
            r == has_scrollbar(state@, active),
    {
        match active {
            Some(Window::Terminal(id)) => match state.terminal_panes.get(&id) {
                Some(pane) => !pane.screen.alternate,
                None => true,
            },
            _ => true,
        }
    }

    /// Draws the scrollbar of a window in the last column of a box.
    fn render_bar(ops: &mut Vec<RenderOp>, state: &AppState, active: Option<Window>, b: FlexBox)
        requires
            state.wf(),
        ensures
            draws(final(ops)@) == draws(old(ops)@) + scrollbar_drawn(state@, active, b),
    {
        reveal(scrollbar_drawn);
        assert(draws(ops@) =~= draws(old(ops)@) + Seq::<Draw>::empty());
        if let Some(window) = active {
            if let Some(s) = scroll_state_of(state, &window) {
                render_scrollbar(ops, &b, s, &state.theme);
            }
        }
    }

    /// Draws the pane in a box: the title bar, the content below it, and the scrollbar beside it.
    pub fn render(
        &mut self,
        ops: &mut Vec<RenderOp>,
        state: &mut AppState,
        current_box: FlexBox,
        focused: bool,
        now: Nanos,
        effects: &mut Vec<Effect>,
    )
        requires
            old(state).wf(),
            old(self)@.wf(),
            old(self)@.can_draw(old(state)@),
        ensures
            ({
                let d = old(self)@.drawn(old(state)@, current_box, focused, now);
                &&& final(self)@ == d.pane
                &&& final(state)@ == d.app
                &&& acts(final(effects)@) == acts(old(effects)@) + d.acts
                &&& draws(final(ops)@) == draws(old(ops)@) + d.draws
            }),
            final(self)@.wf(),
            final(state).files == old(state).files,
            final(state).wf(),
    {
        let ghost before = draws(ops@);
        let active = self.active_window(state);
        let height: usize = self.render_title_row(ops, &current_box, focused, state, now);
        let ghost title = pane_title(old(self)@, state@, active, current_box, focused, now).0;
        let below = find_content_box(current_box, height);
        let inner: FlexBox = if Self::leaves_room(state, active) {
            find_box_beside(below)
        } else {
            below
        };
        self.content_origin_row = below.style_adjusted_origin_pos.row_index;
        self.content_origin_col = below.style_adjusted_origin_pos.col_index;
        self.content_col_count = below.style_adjusted_bounds_size.col_width;
        self.content_row_count = below.style_adjusted_bounds_size.row_height;
        let ghost placed = self@;
        let ghost app = state@;
        self.render_content(ops, state, active, inner, effects);
        let ghost content = content_drawn(placed, app, active, inner);
        assert(draws(ops@) == before + title + content.draws);
        Self::render_bar(ops, state, active, below);
        assert(draws(ops@) =~= before + (title + content.draws + scrollbar_drawn(
            state@,
            active,
            below,
        )));
    }
}

} // verus!
