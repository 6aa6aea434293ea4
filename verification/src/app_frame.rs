//! A frame: what is settled before the panes are drawn, and what is drawn around them.

use vstd::prelude::*;
use crate::app_keys::{surface_of, surface_size};
use crate::effect::{Act, Effect, acts, perform};
use crate::geometry::{Pos, Size};
use crate::pane_manager::{PaneSlot, Panes, Window};
use crate::render::{Draw, RenderOp, RgbValue, TuiColor, TuiStyle, backed, draws, emit, paint, rgb};
use crate::session_time::Nanos;
use crate::state::{App, AppState, Restore, TerminalRestoreInfo, lemma_still_wf, restores_of};
use crate::text::{copy_of, spaces};
use crate::theme::{Theme, optional_text};

verus! {

/// Of the arrived results, by their generations, the one that counts: the first of the latest
/// generation, where that is not zero.
pub open spec fn latest(generations: Seq<u64>, i: int, best: u64, at: Option<int>) -> Option<int>
    decreases generations.len() - i,
{
    if i >= generations.len() {
        at
    } else if generations[i] > best {
        latest(generations, i + 1, generations[i], Some(i))
    } else {
        latest(generations, i + 1, best, at)
    }
}

/// Which of the arrived results counts.
pub fn latest_results(generations: &Vec<u64>) -> (r: Option<usize>)
    ensures
        match r {
            Some(k) => latest(generations@, 0, 0, None) == Some(k as int) && k < generations@.len(),
            None => latest(generations@, 0, 0, None) is None,
        },
{
    let mut best: u64 = 0;
    let mut at: Option<usize> = None;
    let mut i: usize = 0;
    while i < generations.len()
        invariant
            i <= generations@.len(),
            at matches Some(k) ==> k < generations@.len(),
            latest(generations@, 0, 0, None) == latest(
                generations@,
                i as int,
                best,
                match at {
                    Some(k) => Some(k as int),
                    None => None,
                },
            ),
        decreases generations@.len() - i,
    {
        if generations[i] > best {
            best = generations[i];
            at = Some(i);
        }
        i += 1;
    }
    at
}

/// What a search over the generations comes to.
proof fn lemma_latest(generations: Seq<u64>, i: int, best: u64, at: Option<int>)
    requires
        0 <= i <= generations.len(),
        match at {
            Some(k) => 0 <= k < i && generations[k] == best && best > 0,
            None => best == 0,
        },
        forall|j: int| 0 <= j < i ==> generations[j] <= best,
    ensures
        match latest(generations, i, best, at) {
            Some(k) => 0 <= k < generations.len() && generations[k] > 0 && forall|j: int|
                0 <= j < generations.len() ==> generations[j] <= generations[k],
            None => forall|j: int| 0 <= j < generations.len() ==> generations[j] == 0,
        },
    decreases generations.len() - i,
{
    if i < generations.len() {
        if generations[i] > best {
            lemma_latest(generations, i + 1, generations[i], Some(i));
        } else {
            lemma_latest(generations, i + 1, best, at);
        }
    }
}

/// Results of an earlier query never take the place of those of a later one that have arrived.
pub proof fn law_latest_results_win(generations: Seq<u64>)
    ensures
        match latest(generations, 0, 0, None) {
            Some(k) => 0 <= k < generations.len() && generations[k] > 0 && forall|j: int|
                0 <= j < generations.len() ==> generations[j] <= generations[k],
            None => forall|j: int| 0 <= j < generations.len() ==> generations[j] == 0,
        },
{
    lemma_latest(generations, 0, 0, None);
}

/// Whether a window is among the visible ones from the `i`-th on.
pub open spec fn shown_in(visible: Seq<PaneSlot>, window: Window, i: int) -> bool
    decreases visible.len() - i,
{
    i < visible.len() && (visible[i].window == window || shown_in(visible, window, i + 1))
}

/// The state before a frame of a window: the focus is on a visible pane, unless something is being
/// dragged, and the keyboard belongs to a terminal only while one has the focus.
pub open spec fn before_frame(app: App, window: Size) -> App {
    let a = App { last_surface_size: surface_of(window), ..app };
    let visible = a.panes.layout(a.last_surface_size);
    let seen = match a.panes.focused {
        Some(w) => shown_in(visible, w, 0),
        None => false,
    };
    if !a.mouse_drag_active && !seen && visible.len() > 0 {
        (App { panes: Panes { focused: Some(visible[0].window), ..a.panes }, ..a }).grab_synced()
    } else {
        a
    }
}

/// Whether a window is visible.
fn is_shown(visible: &Vec<PaneSlot>, window: Window) -> (r: bool)
    ensures
        r == shown_in(visible@, window, 0),
{
    let mut i: usize = 0;
    while i < visible.len()
        invariant
            i <= visible@.len(),
            shown_in(visible@, window, 0) == shown_in(visible@, window, i as int),
        decreases visible@.len() - i,
    {
        if visible[i].window == window {
            return true;
        }
        i += 1;
    }
    false
}

impl AppState {
    /// Settles the state before a frame, and returns the visible panes.
    pub fn prepare_frame(&mut self, window_size: Size) -> (r: Vec<PaneSlot>)
        requires
            old(self).wf(),
        ensures
            final(self)@ == before_frame(old(self)@, window_size),
            r@ == old(self)@.panes.layout(surface_of(window_size)),
            final(self).files == old(self).files,
            final(self).wf(),
    {
        let ghost app = self@;
        self.last_surface_size = surface_size(window_size);
        let visible = self.pane_manager.layout(self.last_surface_size);
        let ghost a = App { last_surface_size: surface_of(window_size), ..app };
        assert(self@ =~= a);
        let seen = match self.pane_manager.focused_window {
            Some(window) => is_shown(&visible, window),
            None => false,
        };
        if !self.mouse_drag_active && !seen && visible.len() > 0 {
            self.pane_manager.focused_window = Some(visible[0].window);
            self.sync_terminal_grabbed();
        }
        proof {
            assert(self@ =~= before_frame(app, window_size));
            lemma_still_wf(app, self@);
        }
        visible
    }

    /// Takes note of output in a terminal, which counts as activity where the configuration says
    /// so.
    pub fn note_terminal_output(&mut self, now: Nanos)
        requires
            old(self).wf(),
            old(self)@.time.active_accum + old(self)@.time.accrued(now) <= u128::MAX,
        ensures
            final(self)@ == if old(self)@.count_render_as_active {
                (App { time: old(self)@.time.touched(now), ..old(self)@ })
            } else {
                old(self)@
            },
            final(self).files == old(self).files,
            final(self).wf(),
    {
        let ghost app = self@;
        if self.count_render_as_active {
            self.time.note_render(now);
        }
        proof {
            lemma_still_wf(app, self@);
        }
    }
}

/// The background of the surface.
pub open spec fn surface_color(theme: Theme) -> RgbValue {
    match theme.bg("ui.background"@) {
        Some(c) => c,
        None => rgb(15, 15, 25),
    }
}

/// The first `n` rows of the background.
pub open spec fn background_rows(theme: Theme, width: u16, n: int) -> Seq<Draw>
    decreases n,
{
    if n <= 0 {
        Seq::empty()
    } else {
        let style = Some(backed(TuiColor::Rgb(surface_color(theme))));
        background_rows(theme, width, n - 1) + seq![
            Draw::MoveToAbs(Pos { col_index: 0, row_index: (n - 1) as u16 }),
            Draw::ApplyColors(style),
            Draw::Paint { text: Seq::new(width as nat, |i: int| ' '), style },
        ]
    }
}

/// Fills the surface with the background, between the panes too.
pub fn fill_background(ops: &mut Vec<RenderOp>, state: &AppState, window_size: Size)
    ensures
        draws(final(ops)@) == draws(old(ops)@) + background_rows(
            state@.theme,
            window_size.col_width,
            surface_of(window_size).row_height as int,
        ),
{
    let ghost before = draws(ops@);
    let ghost theme = state@.theme;
    let color = match state.theme.ui_bg("ui.background") {
        Some(c) => c,
        None => RgbValue::new(15, 15, 25),
    };
    let style = Some(TuiStyle::on(TuiColor::Rgb(color)));
    let rows: u16 = surface_size(window_size).row_height;
    let mut row: u16 = 0;
    assert(before + background_rows(theme, window_size.col_width, 0) =~= before);
    while row < rows
        invariant
            row <= rows,
            style == Some(backed(TuiColor::Rgb(surface_color(theme)))),
            draws(ops@) == before + background_rows(theme, window_size.col_width, row as int),
        decreases rows - row,
    {
        let ghost mid = draws(ops@);
        emit(ops, RenderOp::MoveToAbs(Pos { col_index: 0, row_index: row }));
        emit(ops, RenderOp::ApplyColors(style));
        emit(ops, paint(spaces(window_size.col_width as usize), style));
        row += 1;
        assert(draws(ops@) =~= before + background_rows(
            theme,
            window_size.col_width,
            row as int,
        ));
    }
}

/// What a terminal from an earlier session is started with: its command, where it was opened to run
/// one, and its directory, or the root where that is gone.
pub open spec fn restored(info: Restore, cwd_exists: bool, root: Seq<char>) -> (
    Option<Seq<char>>,
    Seq<char>,
) {
    (
        if info.is_command_pane {
            info.command
        } else {
            None
        },
        if cwd_exists {
            info.cwd
        } else {
            root
        },
    )
}

/// A terminal that was opened to run a command comes back running that very command, and a shell
/// comes back as a shell, in the same directory while that is there, and else in the root.
pub proof fn law_command_comes_back(info: Restore, cwd_exists: bool, root: Seq<char>)
    ensures
        info.is_command_pane ==> (info.command matches Some(command) ==> restored(
            info,
            cwd_exists,
            root,
        ).0 == Some(command)),
        !info.is_command_pane ==> restored(info, cwd_exists, root).0 is None,
        cwd_exists ==> restored(info, cwd_exists, root).1 == info.cwd,
        !cwd_exists ==> restored(info, cwd_exists, root).1 == root,
{
}

/// What a terminal from an earlier session is started with.
pub fn restored_program(info: TerminalRestoreInfo, cwd_exists: bool, root: &str) -> (r: (
    Option<String>,
    String,
))
    ensures
        (optional_text(r.0), r.1@) == restored(info@, cwd_exists, root@),
{
    let cmd = if info.is_command_pane {
        info.command
    } else {
        None
    };
    let cwd = if cwd_exists {
        info.cwd
    } else {
        copy_of(root)
    };
    (cmd, cwd)
}

/// The files whose tokens are asked for when the program starts: those of the previews in the
/// first `n` windows.
pub open spec fn preview_requests(stack: Seq<Window>, n: int) -> Seq<Act>
    decreases n,
{
    if n <= 0 {
        Seq::empty()
    } else {
        match stack[n - 1] {
            Window::FilePreview(key) => preview_requests(stack, n - 1).push(
                Act::RequestTokens(key.0),
            ),
            _ => preview_requests(stack, n - 1),
        }
    }
}

impl AppState {
    /// Takes what is known of a window that is a terminal from an earlier session, where its
    /// program is still to be started.
    pub fn take_pending(&mut self, window: Window) -> (r: Option<(usize, TerminalRestoreInfo)>)
        requires
            old(self).wf(),
        ensures
            match window {
                Window::Terminal(id) if old(self)@.pending_terminals.contains_key(id) => {
                    &&& r matches Some((taken, info)) && taken == id && info@ == old(
                        self,
                    )@.pending_terminals[id]
                    &&& final(self)@ == (App {
                        pending_terminals: old(self)@.pending_terminals.remove(id),
                        ..old(self)@
                    })
                },
                _ => r is None && final(self)@ == old(self)@,
            },
            final(self).files == old(self).files,
            final(self).wf(),
    {
        let ghost app = self@;
        let ghost before = self.pending_terminals@;
        if let Window::Terminal(id) = window {
            let taken = self.pending_terminals.remove(&id);
            proof {
                assert(restores_of(self.pending_terminals@) =~= restores_of(before).remove(id));
                lemma_still_wf(app, self@);
            }
            match taken {
                Some(info) => Some((id, info)),
                None => {
                    proof {
                        assert(restores_of(before).remove(id) =~= restores_of(before));
                    }
                    None
                },
            }
        } else {
            None
        }
    }

    /// Asks for the tokens of the files that are shown from an earlier session.
    pub fn request_shown_tokens(&self, effects: &mut Vec<Effect>)
        ensures
            acts(final(effects)@) == acts(old(effects)@) + preview_requests(
                self@.panes.stack,
                self@.panes.stack.len() as int,
            ),
    {
        let ghost before = acts(effects@);
        let ghost stack = self@.panes.stack;
        let mut i: usize = 0;
        assert(before + preview_requests(stack, 0) =~= before);
        while i < self.pane_manager.window_stack.len()
            invariant
                i <= self.pane_manager.window_stack@.len(),
                stack == self.pane_manager.window_stack@,
                acts(effects@) == before + preview_requests(stack, i as int),
            decreases self.pane_manager.window_stack@.len() - i,
        {
            let ghost mid = acts(effects@);
            if let Window::FilePreview(key) = self.pane_manager.window_stack[i] {
                perform(effects, Effect::RequestTokens(key.0));
            }
            i += 1;
            assert(acts(effects@) =~= before + preview_requests(stack, i as int));
        }
    }
}

} // verus!
