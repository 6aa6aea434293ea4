//! The pane that shows an embedded terminal.

use vstd::prelude::*;
use crate::effect::{Act, ControlSequence, Effect, PtyInput, PtyInputEvent, acts, perform};
use crate::fuzzy_picker::{color_or, pick_color};
use crate::geometry::{FlexBox, Pos, Size};
use crate::ids::{FlexBoxId, pane_slot, slot_of};
use crate::input::{
    EventPropagation, InputEvent, Key, KeyPress, MouseInput, MouseInputKind, SpecialKey,
};
use crate::layout::law_layout_shows_front_of_stack;
use crate::number::{decimal, number_text};
use crate::pane_manager::{
    SelPoint, Window, law_remove_keeps_panes_valid, law_reordering_keeps_panes_valid,
    lemma_filter_other_than,
};
use crate::render::{Draw, RenderOp, draws};
use crate::screen::{Display, PixelChar, Screen, SelectionRect, lesser, min_of};
use crate::screen_draw::{
    blank_rows, lines_draws, overlay_selection, referred_cells, render_blank_rows, render_lines,
    selection_draws,
};
use crate::session_time::Nanos;
use crate::state::{App, AppState, Term, terms_of};
use crate::text::copy_of;
use crate::theme::HelixTheme;
use crate::title_row::{render_pane_title, title_draws};

verus! {

/// The pane that shows an embedded terminal, and where its content was drawn last.
#[derive(Clone, Copy, Debug, PartialEq, Eq, Structural)]
pub struct TerminalPaneComponent {
    pub id: FlexBoxId,
    pub slot: usize,
    pub content_origin_row: usize,
    pub content_origin_col: usize,
    pub content_col_count: usize,
    pub content_row_count: usize,
}

/// What an event leads to: the state, what becomes of the event, and what is to be done outside.
#[verifier::ext_equal]
pub struct Outcome {
    pub app: App,
    pub flow: EventPropagation,
    pub acts: Seq<Act>,
}

/// An event that changes nothing and goes on to others.
pub open spec fn passed_on(app: App) -> Outcome {
    Outcome { app, flow: EventPropagation::Propagate, acts: Seq::empty() }
}

/// An event that ends here, with the screen to be drawn anew.
pub open spec fn redraw(app: App) -> Outcome {
    Outcome { app, flow: EventPropagation::ConsumedRender, acts: Seq::empty() }
}

/// The terminal in the pane with an id.
pub open spec fn terminal_in(app: App, id: FlexBoxId) -> Option<usize> {
    match slot_of(id) {
        Some(slot) if slot < app.panes.stack.len() => match app.panes.stack[slot] {
            Window::Terminal(t) => Some(t),
            _ => None,
        },
        _ => None,
    }
}

/// How many rows the pane in a slot has.
pub open spec fn height_of_slot(app: App, slot: int) -> int {
    let visible = app.panes.layout(app.last_surface_size);
    if 0 <= slot < visible.len() {
        visible[slot].box_.style_adjusted_bounds_size.row_height as int
    } else {
        0
    }
}

/// Esc and Enter dismiss a terminal whose program has ended.
pub open spec fn dismisses(event: InputEvent) -> bool {
    match event {
        InputEvent::Keyboard(KeyPress::Plain { key: Key::SpecialKey(k) }) => k == SpecialKey::Esc
            || k == SpecialKey::Enter,
        _ => false,
    }
}

/// A terminal is dismissed: its window and its program are gone.
pub open spec fn dismissed(app: App, id: usize, now: Nanos) -> Outcome {
    let window = Window::Terminal(id);
    Outcome {
        app: App {
            terminals: app.terminals.remove(id),
            panes: app.panes.removed(window),
            terminal_grabbed: app.terminal_grabbed && app.panes.focused != Some(window),
            ..app
        }.dirty(now),
        flow: EventPropagation::ConsumedRender,
        acts: seq![Act::KillTerminal(id)],
    }
}

/// Whether a control sequence depends on the mode of the cursor keys.
pub open spec fn is_cursor_key(c: ControlSequence) -> bool {
    !(c is Other)
}

/// A control sequence for a cursor key is sent in the mode that the program asked for.
pub open spec fn in_mode(event: PtyInput, application: bool) -> PtyInput {
    match event {
        PtyInput::SendControl(c, _) => if is_cursor_key(c) {
            PtyInput::SendControl(c, application)
        } else {
            event
        },
        _ => event,
    }
}

/// The bytes that a paste is sent as: between marks where the program asked for them.
pub open spec fn paste_bytes(text: Seq<char>, bracketed: bool) -> Seq<u8> {
    let bytes = vstd::utf8::encode_utf8(text);
    if bracketed {
        seq![0x1bu8, 0x5b, 0x32, 0x30, 0x30, 0x7e] + bytes + seq![
            0x1bu8,
            0x5b,
            0x32,
            0x30,
            0x31,
            0x7e,
        ]
    } else {
        bytes
    }
}

/// What is sent to the program while it has the keyboard. `key` is what a key stands for to a
/// terminal, and `mouse` what a mouse event does.
pub open spec fn sent_to_program(
    t: Term,
    event: InputEvent,
    key: Option<PtyInput>,
    mouse: Option<Seq<u8>>,
) -> Option<PtyInput> {
    match event {
        InputEvent::Keyboard(_) => match key {
            Some(e) => Some(in_mode(e, t.screen.application_cursor)),
            None => None,
        },
        InputEvent::Mouse(_) => match mouse {
            Some(bytes) if t.screen.mouse_tracking => Some(PtyInput::Write(bytes)),
            _ => None,
        },
        InputEvent::BracketedPaste(text) => Some(
            PtyInput::Write(paste_bytes(text@, t.screen.bracketed_paste)),
        ),
        _ => None,
    }
}

/// A terminal whose viewport is scrolled to `offset`.
pub open spec fn scrolled(app: App, id: usize, offset: int) -> App {
    app.with_terminal(id, Term { scroll_offset: offset as usize, ..app.terminals[id] })
}

/// Scrolling back by `n` lines, no further than the history goes.
pub open spec fn back_by(t: Term, n: int) -> int {
    lesser(lesser(t.scroll_offset + n, usize::MAX as int), t.screen.scrollback.len() as int)
}

/// Scrolling forward by `n` lines, no further than the bottom.
pub open spec fn forward_by(t: Term, n: int) -> int {
    if t.scroll_offset > n {
        t.scroll_offset - n
    } else {
        0
    }
}

/// The mouse wheel, where there is a history: back lets go of the keyboard, and forward to the
/// bottom takes it again.
pub open spec fn wheel(app: App, id: usize, up: bool) -> Outcome {
    let t = app.terminals[id];
    let offset = if up {
        back_by(t, 3)
    } else {
        forward_by(t, 3)
    };
    let next = scrolled(app, id, offset);
    Outcome {
        app: if up {
            App { terminal_grabbed: false, ..next }
        } else if t.scroll_offset > 0 && offset == 0 {
            App { terminal_grabbed: true, ..next }
        } else {
            next
        },
        flow: if offset != t.scroll_offset {
            EventPropagation::ConsumedRender
        } else {
            EventPropagation::Consumed
        },
        acts: Seq::empty(),
    }
}

/// The terminal's window goes to the back of the stack.
pub open spec fn sent_back(app: App, id: usize, now: Nanos) -> Outcome {
    let window = Window::Terminal(id);
    let next = App { panes: app.panes.sent_to_back(window), ..app };
    Outcome {
        app: next.grab_synced().dirty(now),
        flow: EventPropagation::ConsumedRender,
        acts: next.focus_acts(Some(window), next.panes.focused),
    }
}

/// What a key does while the program does not have the keyboard.
pub open spec fn viewing_key(
    app: App,
    id: usize,
    slot: int,
    key: Key,
    now: Nanos,
) -> Outcome {
    let t = app.terminals[id];
    match key {
        Key::SpecialKey(SpecialKey::Enter) | Key::Character('q') => redraw(
            App { terminal_grabbed: true, ..scrolled(app, id, 0) },
        ),
        Key::SpecialKey(SpecialKey::Backspace) => sent_back(app, id, now),
        Key::SpecialKey(SpecialKey::PageUp) => redraw(
            scrolled(app, id, back_by(t, height_of_slot(app, slot))),
        ),
        Key::SpecialKey(SpecialKey::PageDown) => redraw(
            scrolled(app, id, forward_by(t, height_of_slot(app, slot))),
        ),
        Key::SpecialKey(SpecialKey::Up) => redraw(scrolled(app, id, back_by(t, 1))),
        Key::SpecialKey(SpecialKey::Down) => redraw(scrolled(app, id, forward_by(t, 1))),
        _ => passed_on(app),
    }
}

/// What an event does while the program does not have the keyboard, or has no use for it.
pub open spec fn viewing(app: App, id: usize, slot: int, event: InputEvent, now: Nanos) -> Outcome {
    let t = app.terminals[id];
    match event {
        InputEvent::Mouse(mouse) => if mouse.maybe_modifier_keys is None && !t.screen.alternate
            && t.screen.scrollback.len() > 0 && mouse.kind == MouseInputKind::ScrollUp {
            wheel(app, id, true)
        } else if mouse.maybe_modifier_keys is None && !t.screen.alternate
            && t.screen.scrollback.len() > 0 && mouse.kind == MouseInputKind::ScrollDown {
            wheel(app, id, false)
        } else {
            passed_on(app)
        },
        InputEvent::Keyboard(KeyPress::Plain { key }) => viewing_key(app, id, slot, key, now),
        _ => passed_on(app),
    }
}

impl TerminalPaneComponent {
    /// What an event leads to in this pane. `key` is what a key stands for to a terminal, and
    /// `mouse` what a mouse event does.
    pub open spec fn outcome(
        self,
        app: App,
        event: InputEvent,
        key: Option<PtyInput>,
        mouse: Option<Seq<u8>>,
        now: Nanos,
    ) -> Outcome {
        match terminal_in(app, self.id) {
            None => passed_on(app),
            Some(id) => if !app.terminals.contains_key(id) {
                passed_on(app)
            } else if dismisses(event) && app.terminals[id].exited {
                dismissed(app, id, now)
            } else {
                let t = app.terminals[id];
                match sent_to_program(t, event, key, mouse) {
                    Some(input) if app.terminal_grabbed => Outcome {
                        app,
                        flow: EventPropagation::ConsumedRender,
                        acts: seq![Act::Pty { id, event: input }],
                    },
                    _ => viewing(app, id, self.slot as int, event, now),
                }
            },
        }
    }
}

/// A window that is gone or stands elsewhere leaves the other previews where their files are.
pub proof fn lemma_panes_stay_wf(app: App, window: Window)
    requires
        app.wf(),
    ensures
        app.panes.removed(window).wf(),
        app.panes.sent_to_back(window).wf(),
        forall|i: int|
            0 <= i < app.panes.removed(window).stack.len() ==> ((
            #[trigger] app.panes.removed(window).stack[i]) matches Window::FilePreview(key)
                ==> key.0 < app.files.len()),
        forall|i: int|
            0 <= i < app.panes.sent_to_back(window).stack.len() ==> ((
            #[trigger] app.panes.sent_to_back(window).stack[i]) matches Window::FilePreview(key)
                ==> key.0 < app.files.len()),
{
    let p = app.panes;
    law_remove_keeps_panes_valid(p, window);
    law_reordering_keeps_panes_valid(p, window);
    assert forall|i: int| 0 <= i < p.removed(window).stack.len() implies ((
    #[trigger] p.removed(window).stack[i]) matches Window::FilePreview(key) ==> key.0
        < app.files.len()) by {
        let rest = p.removed(window).stack;
        lemma_filter_other_than(p.stack, window);
        assert(rest.contains(rest[i]));
        let j = choose|j: int| 0 <= j < p.stack.len() && p.stack[j] == rest[i];
        assert(p.stack[j] == rest[i]);
    }
    p.stack.index_of_first_ensures(window);
    assert forall|i: int| 0 <= i < p.sent_to_back(window).stack.len() implies ((
    #[trigger] p.sent_to_back(window).stack[i]) matches Window::FilePreview(key) ==> key.0
        < app.files.len()) by {
        match p.stack.index_of_first(window) {
            None => {},
            Some(k) => {
                let j = if i == p.stack.len() - 1 {
                    k
                } else if i < k {
                    i
                } else {
                    i + 1
                };
                assert(p.sent_to_back(window).stack[i] == p.stack[j]);
            },
        }
    }
}

impl AppState {
    /// Scrolls the viewport of a terminal to `offset`.
    pub fn set_scroll_offset(&mut self, id: usize, offset: usize)
        requires
            old(self)@.terminals.contains_key(id),
            old(self).wf(),
        ensures
            final(self)@ == scrolled(old(self)@, id, offset as int),
            final(self).files == old(self).files,
            final(self).wf(),
    {
        let ghost before = self@;
        match self.terminal_panes.remove(&id) {
            Some(pane) => {
                let mut pane = pane;
                pane.scroll_offset = offset;
                self.put_terminal(id, pane);
            },
            None => {},
        }
        assert(self@ =~= scrolled(before, id, offset as int)) by {
            assert(self@.terminals =~= scrolled(before, id, offset as int).terminals);
        }
    }
}

impl TerminalPaneComponent {
    /// The pane for a slot, not drawn yet.
    pub fn new(id: FlexBoxId, slot: usize) -> (r: Self)
        ensures
            r == (TerminalPaneComponent {
                id,
                slot,
                content_origin_row: 0,
                content_origin_col: 0,
                content_col_count: 0,
                content_row_count: 0,
            }),
    {
        TerminalPaneComponent {
            id,
            slot,
            content_origin_row: 0,
            content_origin_col: 0,
            content_col_count: 0,
            content_row_count: 0,
        }
    }

    /// The terminal in this pane.
    pub fn terminal_id(&self, state: &AppState) -> (r: Option<usize>)
        ensures
            r == terminal_in(state@, self.id),
    {
        match pane_slot(self.id) {
            Some(slot) => {
                if slot < state.pane_manager.window_stack.len() {
                    match state.pane_manager.window_stack[slot] {
                        Window::Terminal(t) => Some(t),
                        _ => None,
                    }
                } else {
                    None
                }
            },
            None => None,
        }
    }

    /// How many rows this pane has.
    pub fn pane_height(&self, state: &AppState) -> (r: usize)
        ensures
            r == height_of_slot(state@, self.slot as int),
    {
        let visible = state.pane_manager.layout(state.last_surface_size);
        if self.slot < visible.len() {
            visible[self.slot].box_.style_adjusted_bounds_size.row_height as usize
        } else {
            0
        }
    }

    /// The cell of the terminal that a mouse event is in, counted from the content of the pane.
    pub fn mouse_cell(&self, mouse: &MouseInput) -> (r: (usize, usize))
        ensures
            r.0 == if mouse.pos.col_index >= self.content_origin_col {
                mouse.pos.col_index - self.content_origin_col
            } else {
                0
            },
            r.1 == if mouse.pos.row_index >= self.content_origin_row {
                mouse.pos.row_index - self.content_origin_row
            } else {
                0
            },
    {
        (
            (mouse.pos.col_index as usize).saturating_sub(self.content_origin_col),
            (mouse.pos.row_index as usize).saturating_sub(self.content_origin_row),
        )
    }

    /// Handles an event in this pane. `key` is what a key stands for to a terminal, and `mouse`
    /// what a mouse event does.
    pub fn handle_event(
        &self,
        state: &mut AppState,
        input_event: &InputEvent,
        key: Option<PtyInputEvent>,
        mouse: Option<Vec<u8>>,
        now: Nanos,
        effects: &mut Vec<Effect>,
    ) -> (r: EventPropagation)
        requires
            old(state).wf(),
        ensures
            ({
                let out = self.outcome(
                    old(state)@,
                    *input_event,
                    match key {
                        Some(k) => Some(k@),
                        None => None,
                    },
                    match mouse {
                        Some(m) => Some(m@),
                        None => None,
                    },
                    now,
                );
                &&& final(state)@ == out.app
                &&& r == out.flow
                &&& acts(final(effects)@) == acts(old(effects)@) + out.acts
            }),
            final(state).files == old(state).files,
            final(state).wf(),
    {
        let ghost before = acts(effects@);
        assert(before + Seq::<Act>::empty() =~= before);
        let id: usize = match self.terminal_id(state) {
            Some(id) => id,
            None => {
                return EventPropagation::Propagate;
            },
        };
        let (exited, application, tracking, bracketed): (bool, bool, bool, bool) =
            match state.terminal_panes.get(&id) {
            Some(pane) => (
                pane.exited,
                pane.screen.application_cursor,
                pane.screen.mouse_tracking,
                pane.screen.bracketed_paste,
            ),
            None => {
                return EventPropagation::Propagate;
            },
        };
        let dismiss = match input_event {
            InputEvent::Keyboard(KeyPress::Plain { key: Key::SpecialKey(k) }) => *k
                == SpecialKey::Esc || *k == SpecialKey::Enter,
            _ => false,
        };
        if dismiss && exited {
            self.dismiss(state, id, now, effects);
            return EventPropagation::ConsumedRender;
        }
        if state.terminal_grabbed {
            let input: Option<PtyInputEvent> = match input_event {
                InputEvent::Keyboard(_) => match key {
                    Some(PtyInputEvent::SendControl(c, mode)) => match c {
                        ControlSequence::Other(_) => Some(PtyInputEvent::SendControl(c, mode)),
                        _ => Some(PtyInputEvent::SendControl(c, application)),
                    },
                    other => other,
                },
                InputEvent::Mouse(_) => match mouse {
                    Some(bytes) => if tracking {
                        Some(PtyInputEvent::Write(bytes))
                    } else {
                        None
                    },
                    None => None,
                },
                InputEvent::BracketedPaste(text) => Some(
                    PtyInputEvent::Write(pasted_bytes(text.as_str(), bracketed)),
                ),
                _ => None,
            };
            if let Some(event) = input {
                perform(effects, Effect::Pty { id, event });
                assert(acts(effects@) =~= before + seq![Act::Pty { id, event: event@ }]);
                return EventPropagation::ConsumedRender;
            }
        }
        match input_event {
            InputEvent::Mouse(m) => self.view_mouse(state, id, m),
            InputEvent::Keyboard(KeyPress::Plain { key }) => self.view_key(
                state,
                id,
                *key,
                now,
                effects,
            ),
            _ => EventPropagation::Propagate,
        }
    }

    /// Removes a terminal whose program has ended.
    fn dismiss(&self, state: &mut AppState, id: usize, now: Nanos, effects: &mut Vec<Effect>)
        requires
            old(state).wf(),
        ensures
            final(state)@ == dismissed(old(state)@, id, now).app,
            acts(final(effects)@) == acts(old(effects)@) + dismissed(old(state)@, id, now).acts,
            final(state).files == old(state).files,
            final(state).wf(),
    {
        let ghost app = state@;
        let ghost panes_before = state.terminal_panes@;
        proof {
            lemma_panes_stay_wf(app, Window::Terminal(id));
        }
        let window = Window::Terminal(id);
        let was_focused = state.pane_manager.focused_window == Some(window);
        let _ = state.terminal_panes.remove(&id);
        assert(terms_of(state.terminal_panes@) =~= terms_of(panes_before).remove(id));
        state.pane_manager.remove_window(&window);
        if was_focused {
            state.terminal_grabbed = false;
        }
        state.mark_session_dirty(now);
        perform(effects, Effect::KillTerminal(id));
        assert(acts(effects@) =~= acts(old(effects)@) + seq![Act::KillTerminal(id)]);
        assert(state@ =~= dismissed(app, id, now).app);
    }

    /// What the mouse does while the program does not have the keyboard.
    fn view_mouse(&self, state: &mut AppState, id: usize, mouse: &MouseInput) -> (r:
        EventPropagation)
        requires
            old(state).wf(),
            old(state)@.terminals.contains_key(id),
        ensures
            ({
                let t = old(state)@.terminals[id];
                let out = if mouse.maybe_modifier_keys is None && !t.screen.alternate
                    && t.screen.scrollback.len() > 0 && mouse.kind == MouseInputKind::ScrollUp {
                    wheel(old(state)@, id, true)
                } else if mouse.maybe_modifier_keys is None && !t.screen.alternate
                    && t.screen.scrollback.len() > 0 && mouse.kind == MouseInputKind::ScrollDown {
                    wheel(old(state)@, id, false)
                } else {
                    passed_on(old(state)@)
                };
                &&& final(state)@ == out.app
                &&& r == out.flow
                &&& out.acts == Seq::<Act>::empty()
            }),
            final(state).files == old(state).files,
            final(state).wf(),
    {
        let (offset, history, alternate): (usize, usize, bool) = match state.terminal_panes.get(
            &id,
        ) {
            Some(pane) => (pane.scroll_offset, pane.screen.scrollback.len(), pane.screen.alternate),
            None => {
                return EventPropagation::Propagate;
            },
        };
        assert(state@.terminals[id].screen.scrollback.len() == history);
        if mouse.maybe_modifier_keys.is_some() || alternate || history == 0 {
            return EventPropagation::Propagate;
        }
        match mouse.kind {
            MouseInputKind::ScrollUp => {
                let next: usize = min_of(offset.saturating_add(3), history);
                state.set_scroll_offset(id, next);
                state.terminal_grabbed = false;
                if next != offset {
                    EventPropagation::ConsumedRender
                } else {
                    EventPropagation::Consumed
                }
            },
            MouseInputKind::ScrollDown => {
                let next: usize = offset.saturating_sub(3);
                state.set_scroll_offset(id, next);
                if offset > 0 && next == 0 {
                    state.terminal_grabbed = true;
                }
                if next != offset {
                    EventPropagation::ConsumedRender
                } else {
                    EventPropagation::Consumed
                }
            },
            _ => EventPropagation::Propagate,
        }
    }

    /// What a key does while the program does not have the keyboard.
    fn view_key(
        &self,
        state: &mut AppState,
        id: usize,
        key: Key,
        now: Nanos,
        effects: &mut Vec<Effect>,
    ) -> (r: EventPropagation)
        requires
            old(state).wf(),
            old(state)@.terminals.contains_key(id),
        ensures
            ({
                let out = viewing_key(old(state)@, id, self.slot as int, key, now);
                &&& final(state)@ == out.app
                &&& r == out.flow
                &&& acts(final(effects)@) == acts(old(effects)@) + out.acts
            }),
            final(state).files == old(state).files,
            final(state).wf(),
    {
        let ghost before = acts(effects@);
        assert(before + Seq::<Act>::empty() =~= before);
        let (offset, history): (usize, usize) = match state.terminal_panes.get(&id) {
            Some(pane) => (pane.scroll_offset, pane.screen.scrollback.len()),
            None => {
                return EventPropagation::Propagate;
            },
        };
        assert(state@.terminals[id].screen.scrollback.len() == history);
        match key {
            Key::SpecialKey(SpecialKey::Enter) | Key::Character('q') => {
                state.set_scroll_offset(id, 0);
                state.terminal_grabbed = true;
                EventPropagation::ConsumedRender
            },
            Key::SpecialKey(SpecialKey::Backspace) => {
                let window = Window::Terminal(id);
                proof {
                    lemma_panes_stay_wf(state@, window);
                }
                state.pane_manager.send_to_back(&window);
                state.notify_terminal_focus_change(
                    Some(window),
                    state.pane_manager.focused_window,
                    effects,
                );
                state.sync_terminal_grabbed();
                state.mark_session_dirty(now);
                EventPropagation::ConsumedRender
            },
            Key::SpecialKey(SpecialKey::PageUp) => {
                let height: usize = self.pane_height(state);
                state.set_scroll_offset(id, min_of(offset.saturating_add(height), history));
                EventPropagation::ConsumedRender
            },
            Key::SpecialKey(SpecialKey::PageDown) => {
                let height: usize = self.pane_height(state);
                state.set_scroll_offset(id, offset.saturating_sub(height));
                EventPropagation::ConsumedRender
            },
            Key::SpecialKey(SpecialKey::Up) => {
                state.set_scroll_offset(id, min_of(offset.saturating_add(1), history));
                EventPropagation::ConsumedRender
            },
            Key::SpecialKey(SpecialKey::Down) => {
                state.set_scroll_offset(id, offset.saturating_sub(1));
                EventPropagation::ConsumedRender
            },
            _ => EventPropagation::Propagate,
        }
    }
}

/// The bytes that a paste is sent as.
fn pasted_bytes(text: &str, bracketed: bool) -> (r: Vec<u8>)
    ensures
        r@ == paste_bytes(text@, bracketed),
{
    let bytes = text.as_bytes_vec();
    if bracketed {
        let mut out: Vec<u8> = vec![0x1bu8, 0x5b, 0x32, 0x30, 0x30, 0x7e];
        assert(out@ =~= seq![0x1bu8, 0x5b, 0x32, 0x30, 0x30, 0x7e]);
        let mut bytes = bytes;
        out.append(&mut bytes);
        let mut end: Vec<u8> = vec![0x1bu8, 0x5b, 0x32, 0x30, 0x31, 0x7e];
        assert(end@ =~= seq![0x1bu8, 0x5b, 0x32, 0x30, 0x31, 0x7e]);
        out.append(&mut end);
        out
    } else {
        bytes
    }
}

/// The title of a terminal: what its program set, or its number, and how the program ended.
pub open spec fn terminal_title(app: App, id: usize) -> Seq<char> {
    if !app.terminals.contains_key(id) {
        "Terminal "@ + decimal(id as int)
    } else {
        let t = app.terminals[id];
        let base = match t.title {
            Some(title) => title,
            None => "Terminal "@ + decimal(id as int),
        };
        match t.exit_signal {
            Some(signal) => base + " ["@ + signal + "]"@,
            None => match t.exit_code {
                Some(code) => base + " [exit "@ + decimal(code as int) + "]"@,
                None => if t.exited {
                    base + " [done]"@
                } else {
                    base
                },
            },
        }
    }
}

/// The rows of the history and the screen that a viewport of `height` rows shows.
pub open spec fn viewport(d: Display, scroll_offset: int, height: int) -> Seq<Seq<PixelChar>> {
    if d.offset(scroll_offset) == 0 {
        d.buffer.take(lesser(height, d.buffer.len() as int))
    } else {
        d.all_lines().subrange(
            d.viewport_top(scroll_offset, height),
            d.all_lines().len() - d.offset(scroll_offset),
        )
    }
}

/// The part of a selection that is in a terminal.
pub open spec fn selection_in(app: App, id: usize) -> Option<SelectionRect> {
    match app.text_selection {
        Some(sel) => match (sel.start, sel.end) {
            (
                SelPoint::Terminal { viewport_row: sr, col: sc },
                SelPoint::Terminal { viewport_row: er, col: ec },
            ) => if sel.window == Window::Terminal(id) && sel.active {
                Some(SelectionRect { start_row: sr, start_col: sc, end_row: er, end_col: ec })
            } else {
                None
            },
            _ => None,
        },
        None => None,
    }
}

/// Where the cursor is shown: on the screen, while the terminal has the focus and the keyboard.
pub open spec fn shown_cursor(app: App, id: usize) -> Option<Pos> {
    let t = app.terminals[id];
    if t.screen.offset(t.scroll_offset as int) == 0 && t.screen.cursor_visible
        && app.terminal_grabbed && app.panes.focused == Some(Window::Terminal(id)) {
        Some(t.screen.cursor_pos)
    } else {
        None
    }
}

/// A terminal in its pane: the lines of the viewport, empty rows below them, and the selection.
pub open spec fn terminal_draws(app: App, id: usize, current_box: FlexBox) -> Seq<Draw> {
    let t = app.terminals[id];
    let origin = current_box.style_adjusted_origin_pos;
    let width = current_box.style_adjusted_bounds_size.col_width as int;
    let height = current_box.style_adjusted_bounds_size.row_height as int;
    let lines = viewport(t.screen, t.scroll_offset as int, height);
    lines_draws(lines, origin, shown_cursor(app, id), lines.len() as int) + blank_rows(
        origin,
        width,
        lines.len() as int,
        height,
    ) + match selection_in(app, id) {
        Some(rect) => selection_draws(
            lines,
            origin,
            rect,
            color_or(app.theme.bg("ui.selection"@), 50, 50, 90),
        ),
        None => Seq::empty(),
    }
}

impl Screen {
    /// The rows that a viewport of `height` rows shows.
    pub fn viewport_lines(&self, scroll_offset: usize, height: usize) -> (r: Vec<&Vec<PixelChar>>)
        requires
            self@.wf(),
        ensures
            referred_cells(r@) == viewport(self@, scroll_offset as int, height as int),
            r@.len() <= height,
    {
        let ghost d = self@;
        let history: usize = self.scrollback.len();
        let shown: usize = self.buffer.len();
        assert(d.scrollback.len() == history && d.buffer.len() == shown);
        let offset: usize = min_of(scroll_offset, history);
        let mut lines: Vec<&Vec<PixelChar>> = Vec::new();
        if offset == 0 {
            let n: usize = min_of(height, shown);
            let mut i: usize = 0;
            while i < n
                invariant
                    i <= n <= self.buffer@.len(),
                    d == self@,
                    referred_cells(lines@) == d.buffer.take(i as int),
                decreases n - i,
            {
                let ghost so_far = lines@;
                lines.push(&self.buffer[i]);
                assert(d.buffer[i as int] == self.buffer@[i as int]@);
                assert(referred_cells(lines@) =~= referred_cells(so_far).push(d.buffer[i as int]));
                i += 1;
                assert(referred_cells(lines@) =~= d.buffer.take(i as int));
            }
            assert(referred_cells(lines@).len() == lines@.len());
        } else {
            let bottom: usize = history + shown - offset;
            let top: usize = if bottom > height {
                bottom - height
            } else {
                0
            };
            let mut i: usize = top;
            assert(referred_cells(lines@) =~= d.all_lines().subrange(top as int, top as int));
            while i < bottom
                invariant
                    top <= i <= bottom <= history + shown,
                    history == self.scrollback@.len(),
                    shown == self.buffer@.len(),
                    d == self@,
                    referred_cells(lines@) == d.all_lines().subrange(top as int, i as int),
                decreases bottom - i,
            {
                let ghost so_far = lines@;
                if i < history {
                    assert(d.all_lines()[i as int] == self.scrollback@[i as int]@);
                    lines.push(&self.scrollback[i]);
                } else {
                    assert(d.all_lines()[i as int] == self.buffer@[i - history]@);
                    lines.push(&self.buffer[i - history]);
                }
                assert(referred_cells(lines@) =~= referred_cells(so_far).push(
                    d.all_lines()[i as int],
                ));
                i += 1;
                assert(referred_cells(lines@) =~= d.all_lines().subrange(top as int, i as int));
            }
            assert(referred_cells(lines@).len() == lines@.len());
        }
        lines
    }
}

impl TerminalPaneComponent {
    /// The title of the terminal in this pane.
    pub fn title(&self, state: &AppState) -> (r: String)
        ensures
            r@ == terminal_title(
                state@,
                match terminal_in(state@, self.id) {
                    Some(id) => id,
                    None => 0,
                },
            ),
    {
        let id: usize = match self.terminal_id(state) {
            Some(id) => id,
            None => 0,
        };
        let mut out = copy_of("Terminal ");
        out.append(number_text(id).as_str());
        if let Some(pane) = state.terminal_panes.get(&id) {
            if let Some(title) = &pane.title {
                out = copy_of(title.as_str());
            }
            if let Some(signal) = &pane.exit_signal {
                out.append(" [");
                out.append(signal.as_str());
                out.append("]");
            } else if let Some(code) = pane.exit_code {
                out.append(" [exit ");
                out.append(number_text(code as usize).as_str());
                out.append("]");
            } else if pane.exited {
                out.append(" [done]");
            }
        }
        out
    }

    /// Draws the title bar of this pane, which is one row high.
    pub fn render_title_row(
        &self,
        ops: &mut Vec<RenderOp>,
        pane_box: &FlexBox,
        focused: bool,
        theme: &HelixTheme,
        state: &AppState,
    ) -> (r: usize)
        ensures
            r == 1,
            draws(final(ops)@) == draws(old(ops)@) + title_draws(
                *pane_box,
                terminal_title(
                    state@,
                    match terminal_in(state@, self.id) {
                        Some(id) => id,
                        None => 0,
                    },
                ),
                false,
                theme@,
                focused,
            ),
    {
        let title = self.title(state);
        render_pane_title(ops, pane_box, title.as_str(), false, theme, focused);
        1
    }

    /// Takes note of where the content of this pane goes. Where its size has changed, the terminal
    /// is told. Returns the terminal, if there is one.
    pub fn prepare(
        &mut self,
        state: &mut AppState,
        current_box: FlexBox,
        effects: &mut Vec<Effect>,
    ) -> (r: Option<usize>)
        requires
            old(state).wf(),
        ensures
            ({
                let size = current_box.style_adjusted_bounds_size;
                let origin = current_box.style_adjusted_origin_pos;
                match terminal_in(old(state)@, old(self).id) {
                    Some(id) if old(state)@.terminals.contains_key(id) => {
                        let t = old(state)@.terminals[id];
                        &&& r == Some(id)
                        &&& *final(self) == (TerminalPaneComponent {
                            content_origin_row: origin.row_index as usize,
                            content_origin_col: origin.col_index as usize,
                            content_col_count: size.col_width as usize,
                            content_row_count: size.row_height as usize,
                            ..*old(self)
                        })
                        &&& final(state)@ == old(state)@.with_terminal(
                            id,
                            Term { last_size: size, ..t },
                        )
                        &&& acts(final(effects)@) == acts(old(effects)@) + if t.last_size != size {
                            seq![Act::Pty { id, event: PtyInput::Resize(size) }]
                        } else {
                            Seq::empty()
                        }
                    },
                    _ => r is None && *final(self) == *old(self) && final(state)@ == old(state)@
                        && final(effects)@ == old(effects)@,
                }
            }),
            final(state).files == old(state).files,
            final(state).wf(),
    {
        let ghost before = acts(effects@);
        let ghost app = state@;
        let id: usize = match self.terminal_id(state) {
            Some(id) => id,
            None => {
                return None;
            },
        };
        let size = current_box.style_adjusted_bounds_size;
        let last: Size = match state.terminal_panes.get(&id) {
            Some(pane) => pane.last_size,
            None => {
                return None;
            },
        };
        let origin = current_box.style_adjusted_origin_pos;
        self.content_origin_row = origin.row_index as usize;
        self.content_origin_col = origin.col_index as usize;
        self.content_col_count = size.col_width as usize;
        self.content_row_count = size.row_height as usize;
        if last != size {
            perform(effects, Effect::Pty { id, event: PtyInputEvent::Resize(size) });
            match state.terminal_panes.remove(&id) {
                Some(pane) => {
                    let mut pane = pane;
                    pane.last_size = size;
                    state.put_terminal(id, pane);
                },
                None => {},
            }
        }
        proof {
            let t = app.terminals[id];
            assert(state@.terminals =~= app.with_terminal(id, Term { last_size: size, ..t }).terminals);
            assert(acts(effects@) =~= before + if t.last_size != size {
                seq![Act::Pty { id, event: PtyInput::Resize(size) }]
            } else {
                Seq::empty()
            });
        }
        Some(id)
    }

    /// Draws the terminal `id` in this pane.
    pub fn render(
        &self,
        ops: &mut Vec<RenderOp>,
        state: &AppState,
        id: usize,
        current_box: FlexBox,
    )
        requires
            state.wf(),
            state@.terminals.contains_key(id),
        ensures
            draws(final(ops)@) == draws(old(ops)@) + terminal_draws(state@, id, current_box),
    {
        let ghost before = draws(ops@);
        let origin = current_box.style_adjusted_origin_pos;
        let width: usize = current_box.style_adjusted_bounds_size.col_width as usize;
        let height: usize = current_box.style_adjusted_bounds_size.row_height as usize;
        let hl_bg = pick_color(state.theme.ui_bg("ui.selection"), 50, 50, 90);
        if let Some(pane) = state.terminal_panes.get(&id) {
            let t = &pane.screen;
            assert(state@.terminals[id] == pane@);
            let at_bottom = min_of(pane.scroll_offset, t.scrollback.len()) == 0;
            assert(t@.scrollback.len() == t.scrollback@.len());
            let focused = match state.pane_manager.focused_window {
                Some(Window::Terminal(focused)) => focused == id,
                _ => false,
            };
            let cursor: Option<Pos> = if at_bottom && t.cursor_visible && state.terminal_grabbed
                && focused {
                Some(t.cursor_pos)
            } else {
                None
            };
            let lines = t.viewport_lines(pane.scroll_offset, height);
            assert(referred_cells(lines@).len() == lines@.len());
            render_lines(ops, &lines, origin, cursor);
            render_blank_rows(ops, origin, width, lines.len(), height);
            let rect: Option<SelectionRect> = match state.text_selection {
                Some(sel) => match (sel.start, sel.end) {
                    (
                        SelPoint::Terminal { viewport_row: sr, col: sc },
                        SelPoint::Terminal { viewport_row: er, col: ec },
                    ) => if sel.window == Window::Terminal(id) && sel.active {
                        Some(
                            SelectionRect {
                                start_row: sr,
                                start_col: sc,
                                end_row: er,
                                end_col: ec,
                            },
                        )
                    } else {
                        None
                    },
                    _ => None,
                },
                None => None,
            };
            if let Some(rect) = rect {
                overlay_selection(ops, &lines, origin, rect, hl_bg);
            }
            assert(draws(ops@) =~= before + terminal_draws(state@, id, current_box));
        }
    }
}

/// Scrolling stays within the history, whatever event comes.
pub proof fn law_scrolling_stays_in_history(
    c: TerminalPaneComponent,
    app: App,
    event: InputEvent,
    key: Option<PtyInput>,
    mouse: Option<Seq<u8>>,
    now: Nanos,
    id: usize,
)
    requires
        app.terminals.contains_key(id),
        app.terminals[id].scroll_offset <= app.terminals[id].screen.scrollback.len(),
        c.outcome(app, event, key, mouse, now).app.terminals.contains_key(id),
    ensures
        ({
            let t = c.outcome(app, event, key, mouse, now).app.terminals[id];
            t.scroll_offset <= t.screen.scrollback.len()
        }),
{
    law_layout_shows_front_of_stack(app.panes, app.last_surface_size);
}

/// While a program has the keyboard, a key that means something to it goes to the program, and
/// nothing else changes.
pub proof fn law_grabbed_keys_go_to_program(
    c: TerminalPaneComponent,
    app: App,
    press: KeyPress,
    key: PtyInput,
    now: Nanos,
    id: usize,
)
    requires
        terminal_in(app, c.id) == Some(id),
        app.terminals.contains_key(id),
        !app.terminals[id].exited,
        app.terminal_grabbed,
    ensures
        c.outcome(app, InputEvent::Keyboard(press), Some(key), None, now) == (Outcome {
            app,
            flow: EventPropagation::ConsumedRender,
            acts: seq![
                Act::Pty { id, event: in_mode(key, app.terminals[id].screen.application_cursor) },
            ],
        }),
{
}

} // verus!
