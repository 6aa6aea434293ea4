//! What the mouse and the keys do in a pane.

use vstd::prelude::*;
use crate::editing_laws::plain_key;
use crate::effect::{Act, ControlSequence, PtyInput};
use crate::file_name_picker::file_picker_outcome;
use crate::input::{Button, InputEvent, KeyPress, MouseInput, MouseInputKind, SpecialKey};
use crate::input_line::character_typed;
use crate::loader::FileKey;
use crate::pane::{Pane, active_in, scroll_applied, scrollbar_outcome};
use crate::pane_component::{Surroundings, content_mouse, handed_on, title_clicked};
use crate::pane_manager::{
    Window, law_remove_keeps_panes_valid, law_reordering_keeps_panes_valid,
};
use crate::preview::{Preview, file_in};
use crate::ranges::law_block_that_fits_is_visible;
use crate::scrollbar::{
    ScrollState, law_dragging_nowhere_keeps_scroll, law_track_reaches_both_ends,
    thumb_len, thumb_start,
};
use crate::session_time::Nanos;
use crate::state::App;
use crate::terminal_pane::{TerminalPaneComponent, terminal_in};
use crate::text::{grapheme_clusters, is_control_code, joined};
use crate::theme_picker::theme_picker_outcome;

verus! {

/// Whether nothing is being dragged in a pane.
pub open spec fn is_idle(p: Pane) -> bool {
    !p.preview_drag_active && !p.text_drag_active && !p.scrollbar_dragging
}

/// Whether a mouse event is in row `y` of the scrollbar of a pane.
pub open spec fn is_on_track(p: Pane, mouse: MouseInput, y: int) -> bool {
    &&& 0 <= y < p.content_row_count
    &&& mouse.pos.row_index == p.content_origin_row + y
    &&& p.content_col_count > 0
    &&& mouse.pos.col_index == p.content_origin_col + p.content_col_count - 1
}

/// Whether a pane shows a file of which only a part is in sight.
pub open spec fn shows_part_of(p: Pane, app: App, key: FileKey) -> bool {
    let s = app.panes.state_of(Window::FilePreview(key));
    &&& active_in(app, p.slot) == Some(Window::FilePreview(key))
    &&& s.page_size < s.scroll_max
    &&& s.scroll <= s.scroll_max - s.page_size
}

/// How far a file is scrolled once something has happened in a pane.
pub open spec fn scroll_after(
    p: Pane,
    app: App,
    key: FileKey,
    mouse: MouseInput,
    now: Nanos,
) -> int {
    let none = Surroundings { key: None, mouse: None, crate_root: None, repo_root: None };
    let (_, o) = p.outcome(app, InputEvent::Mouse(mouse), none, now);
    o.app.panes.state_of(Window::FilePreview(key)).scroll as int
}

/// A click on the top of the scrollbar of a file scrolls to its start, and one on the bottom to its
/// end. Where the thumb is there, it is held, and the file stays where it is.
pub proof fn law_track_click_scrolls_file(
    p: Pane,
    app: App,
    key: FileKey,
    mouse: MouseInput,
    y: int,
    now: Nanos,
)
    requires
        is_idle(p),
        shows_part_of(p, app, key),
        mouse.kind == MouseInputKind::MouseDown(Button::Left),
        is_on_track(p, mouse, y),
        p.content_row_count >= 2,
    ensures
        ({
            let s = app.panes.state_of(Window::FilePreview(key));
            let after = scroll_after(p, app, key, mouse, now);
            let bar = ScrollState {
                scroll: s.scroll,
                scroll_max: s.scroll_max,
                page_size: s.page_size,
            };
            let start = thumb_start(p.content_row_count as int, bar);
            let end = start + thumb_len(p.content_row_count as int, bar);
            &&& start <= y < end ==> after == s.scroll
            &&& !(start <= y < end) && y == 0 ==> after == 0
            &&& !(start <= y < end) && y == p.content_row_count - 1 ==> after == s.scroll_max
                - s.page_size
        }),
{
    reveal(scrollbar_outcome);
    reveal(scroll_applied);
    let s = app.panes.state_of(Window::FilePreview(key));
    let bar = ScrollState { scroll: s.scroll, scroll_max: s.scroll_max, page_size: s.page_size };
    law_track_reaches_both_ends(p.content_row_count as int, bar);
}

/// The mouse wheel on the scrollbar of a file scrolls by three lines, no further than its ends.
pub proof fn law_wheel_on_scrollbar_scrolls_by_three(
    p: Pane,
    app: App,
    key: FileKey,
    mouse: MouseInput,
    y: int,
    now: Nanos,
)
    requires
        is_idle(p),
        shows_part_of(p, app, key),
        is_on_track(p, mouse, y),
    ensures
        ({
            let s = app.panes.state_of(Window::FilePreview(key));
            let after = scroll_after(p, app, key, mouse, now);
            let end = s.scroll_max - s.page_size;
            &&& mouse.kind == MouseInputKind::ScrollDown ==> after == if s.scroll + 3 <= end {
                s.scroll + 3
            } else {
                end
            }
            &&& mouse.kind == MouseInputKind::ScrollUp ==> after == if s.scroll >= 3 {
                s.scroll - 3
            } else {
                0
            }
        }),
{
    reveal(scrollbar_outcome);
    reveal(scroll_applied);
}

/// A thumb that is held and not moved leaves the file where it is, and letting go ends the drag.
pub proof fn law_held_thumb_scrolls_nowhere(
    p: Pane,
    app: App,
    key: FileKey,
    mouse: MouseInput,
    y: int,
    now: Nanos,
)
    requires
        is_idle(p),
        shows_part_of(p, app, key),
        mouse.kind == MouseInputKind::MouseDown(Button::Left),
        is_on_track(p, mouse, y),
    ensures
        ({
            let s = app.panes.state_of(Window::FilePreview(key));
            let bar = ScrollState {
                scroll: s.scroll,
                scroll_max: s.scroll_max,
                page_size: s.page_size,
            };
            let start = thumb_start(p.content_row_count as int, bar);
            let none = Surroundings { key: None, mouse: None, crate_root: None, repo_root: None };
            let held = MouseInput { kind: MouseInputKind::MouseDrag(Button::Left), ..mouse };
            let up = MouseInput { kind: MouseInputKind::MouseUp(Button::Left), ..mouse };
            let (first, pressed) = p.outcome(app, InputEvent::Mouse(mouse), none, now);
            let (_, moved) = first.outcome(pressed.app, InputEvent::Mouse(held), none, now);
            let (last, done) = first.outcome(pressed.app, InputEvent::Mouse(up), none, now);
            start <= y < start + thumb_len(p.content_row_count as int, bar) ==> {
                &&& first.scrollbar_dragging
                &&& moved.app.panes.state_of(Window::FilePreview(key)).scroll == s.scroll
                &&& !last.scrollbar_dragging
                &&& done.app.panes.state_of(Window::FilePreview(key)).scroll == s.scroll
            }
        }),
{
    reveal(scrollbar_outcome);
    reveal(scroll_applied);
    let s = app.panes.state_of(Window::FilePreview(key));
    let bar = ScrollState { scroll: s.scroll, scroll_max: s.scroll_max, page_size: s.page_size };
    law_dragging_nowhere_keeps_scroll(s.scroll, y, p.content_row_count as int, bar);
}

/// A click on the top of the scrollbar of a terminal shows the start of its history, and one on the
/// bottom what its program writes; the terminal lets go of the keyboard.
pub proof fn law_track_click_scrolls_terminal(
    p: Pane,
    app: App,
    id: usize,
    mouse: MouseInput,
    y: int,
    now: Nanos,
)
    requires
        is_idle(p),
        active_in(app, p.slot) == Some(Window::Terminal(id)),
        app.terminals.contains_key(id),
        !app.terminals[id].screen.alternate,
        app.terminals[id].screen.wf(),
        0 < app.terminals[id].screen.scrollback.len(),
        app.terminals[id].scroll_offset <= app.terminals[id].screen.scrollback.len(),
        mouse.kind == MouseInputKind::MouseDown(Button::Left),
        is_on_track(p, mouse, y),
        p.content_row_count >= 2,
    ensures
        ({
            let t = app.terminals[id];
            let history = t.screen.scrollback.len();
            let height = t.screen.size.row_height as int;
            let bar = ScrollState {
                scroll: (history - t.scroll_offset) as usize,
                scroll_max: (history + height) as usize,
                page_size: height as usize,
            };
            let start = thumb_start(p.content_row_count as int, bar);
            let end = start + thumb_len(p.content_row_count as int, bar);
            let none = Surroundings { key: None, mouse: None, crate_root: None, repo_root: None };
            let (_, o) = p.outcome(app, InputEvent::Mouse(mouse), none, now);
            &&& !(start <= y < end) ==> !o.app.terminal_grabbed
            &&& !(start <= y < end) && y == 0 ==> o.app.terminals[id].scroll_offset == history
            &&& !(start <= y < end) && y == p.content_row_count - 1
                ==> o.app.terminals[id].scroll_offset == 0
        }),
{
    reveal(scrollbar_outcome);
    reveal(scroll_applied);
    let t = app.terminals[id];
    let history = t.screen.scrollback.len();
    let height = t.screen.size.row_height as int;
    let bar = ScrollState {
        scroll: (history - t.scroll_offset) as usize,
        scroll_max: (history + height) as usize,
        page_size: height as usize,
    };
    law_track_reaches_both_ends(p.content_row_count as int, bar);
}

/// A key goes to the window that the pane shows: to a picker, to the preview of a file, or to a
/// terminal; and nowhere where the pane shows none.
pub proof fn law_key_goes_to_shown_window(
    p: Pane,
    app: App,
    press: KeyPress,
    s: Surroundings,
    now: Nanos,
)
    requires
        is_idle(p),
    ensures
        ({
            let event = InputEvent::Keyboard(press);
            let (q, o) = p.outcome(app, event, s, now);
            match active_in(app, p.slot) {
                Some(Window::FileNamePicker) => (q.file_cursor, o) == file_picker_outcome(
                    app,
                    p.file_cursor,
                    event,
                    now,
                ) && q.theme_cursor == p.theme_cursor && q.preview == p.preview,
                Some(Window::ThemePicker) => (q.theme_cursor, o) == theme_picker_outcome(
                    app,
                    p.theme_cursor,
                    event,
                ) && q.file_cursor == p.file_cursor && q.preview == p.preview,
                Some(Window::FilePreview(_)) => (q.preview, o) == p.preview.outcome(
                    app,
                    event,
                    s.crate_root,
                    s.repo_root,
                    now,
                ) && q.file_cursor == p.file_cursor,
                Some(Window::Terminal(_)) => o == p.terminal.outcome(
                    app,
                    event,
                    s.key,
                    s.mouse,
                    now,
                ) && q == p,
                None => o.app == app && o.acts.len() == 0 && q == p,
            }
        }),
{
    reveal(handed_on);
}

/// A click on a range of lines in the title of a file shows the lines, where they fit on a page.
pub proof fn law_clicked_range_is_shown(
    p: Pane,
    app: App,
    key: FileKey,
    mouse: MouseInput,
    lo: usize,
    hi: usize,
    now: Nanos,
)
    requires
        is_idle(p),
        active_in(app, p.slot) == Some(Window::FilePreview(key)),
        title_clicked(p, app, key, mouse) == Some((lo, hi)),
        p.content_origin_row > 0,
        1 <= lo <= hi <= app.panes.state_of(Window::FilePreview(key)).scroll_max,
        hi - lo + 1 <= app.panes.state_of(Window::FilePreview(key)).page_size,
    ensures
        ({
            let after = scroll_after(p, app, key, mouse, now);
            after < lo && hi <= after + app.panes.state_of(Window::FilePreview(key)).page_size
        }),
{
    reveal(content_mouse);
    let page = app.panes.state_of(Window::FilePreview(key)).page_size as int;
    law_block_that_fits_is_visible(lo as int, hi as int, page);
}

/// A colon in a preview opens an empty command line, what is typed stands in it, and Esc leaves it
/// with nothing done.
pub proof fn law_colon_opens_command_line(
    p: Preview,
    app: App,
    c: char,
    crate_root: Option<Seq<char>>,
    repo_root: Option<Seq<char>>,
    now: Nanos,
)
    requires
        file_in(app, p.id) is Some,
        p.command is None,
        p.cursor == 0,
        !is_control_code(c),
        grapheme_clusters(Seq::<char>::empty()).len() == 0,
    ensures
        ({
            let (open, first) = p.outcome(app, character_typed(':'), crate_root, repo_root, now);
            let (typed, second) = open.outcome(
                first.app,
                character_typed(c),
                crate_root,
                repo_root,
                now,
            );
            let (left, third) = typed.outcome(
                second.app,
                plain_key(SpecialKey::Esc),
                crate_root,
                repo_root,
                now,
            );
            &&& open.command == Some(Seq::<char>::empty())
            &&& first.app.command_mode_active
            &&& typed.command == Some(seq![c])
            &&& typed.cursor == 1
            &&& second.app.command_mode_active
            &&& left.command is None
            &&& !third.app.command_mode_active
            &&& first.acts.len() == 0 && second.acts.len() == 0 && third.acts.len() == 0
            &&& third.app.panes == app.panes && third.app.highlights == app.highlights
        }),
{
    let none = Seq::<char>::empty();
    let g = grapheme_clusters(none);
    assert(g =~= Seq::<Seq<char>>::empty());
    assert(g.take(0) =~= g && g.skip(0) =~= g);
    assert(joined(g) =~= none);
    assert(none + seq![c] + none =~= seq![c]);
}

/// Enter and Esc take away a terminal whose program has ended.
pub proof fn law_ended_terminal_is_dismissed(
    c: TerminalPaneComponent,
    app: App,
    id: usize,
    key: SpecialKey,
    now: Nanos,
)
    requires
        app.panes.wf(),
        terminal_in(app, c.id) == Some(id),
        app.terminals.contains_key(id),
        app.terminals[id].exited,
        key == SpecialKey::Enter || key == SpecialKey::Esc,
    ensures
        ({
            let o = c.outcome(app, plain_key(key), None, None, now);
            &&& !o.app.terminals.contains_key(id)
            &&& !o.app.panes.stack.contains(Window::Terminal(id))
            &&& o.acts == seq![Act::KillTerminal(id)]
            &&& o.app.session_dirty_at == Some(now)
            &&& app.panes.focused == Some(Window::Terminal(id)) ==> !o.app.terminal_grabbed
        }),
{
    law_remove_keeps_panes_valid(app.panes, Window::Terminal(id));
}

/// Backspace sends a terminal that does not have the keyboard to the back.
pub proof fn law_backspace_sends_terminal_back(
    c: TerminalPaneComponent,
    app: App,
    id: usize,
    now: Nanos,
)
    requires
        app.panes.wf(),
        terminal_in(app, c.id) == Some(id),
        app.terminals.contains_key(id),
        !app.terminal_grabbed,
        app.panes.stack.contains(Window::Terminal(id)),
    ensures
        ({
            let o = c.outcome(app, plain_key(SpecialKey::Backspace), None, None, now);
            &&& o.app.panes.stack.last() == Window::Terminal(id)
            &&& o.app.panes.stack.to_multiset() == app.panes.stack.to_multiset()
            &&& o.app.terminals == app.terminals
            &&& o.app.session_dirty_at == Some(now)
        }),
{
    law_reordering_keeps_panes_valid(app.panes, Window::Terminal(id));
}

/// When the focus goes from one terminal to another, the first program is told that it has lost it,
/// and the second that it has it, each where it asked to be told.
pub proof fn law_programs_are_told_of_focus(app: App, from: usize, to: usize)
    requires
        from != to,
        app.terminals.contains_key(from),
        app.terminals.contains_key(to),
    ensures
        ({
            let acts = app.focus_acts(Some(Window::Terminal(from)), Some(Window::Terminal(to)));
            let lost = Act::Pty {
                id: from,
                event: PtyInput::Write(seq![0x1bu8, '[' as u8, 'O' as u8]),
            };
            let got = Act::Pty {
                id: to,
                event: PtyInput::Write(seq![0x1bu8, '[' as u8, 'I' as u8]),
            };
            let a = app.terminals[from].screen.focus_events;
            let b = app.terminals[to].screen.focus_events;
            &&& a && b ==> acts == seq![lost, got]
            &&& a && !b ==> acts == seq![lost]
            &&& !a && b ==> acts == seq![got]
            &&& !a && !b ==> acts.len() == 0
        }),
{
    let told = seq![0x1bu8, 0x5b, 0x4f];
    let gained = seq![0x1bu8, 0x5b, 0x49];
    assert(told =~= seq![0x1bu8, '[' as u8, 'O' as u8]);
    assert(gained =~= seq![0x1bu8, '[' as u8, 'I' as u8]);
}

/// The cursor keys go to a program in the mode that it asked for, and other keys as they are.
pub proof fn law_cursor_keys_follow_mode(
    c: TerminalPaneComponent,
    app: App,
    press: KeyPress,
    sequence: ControlSequence,
    mode: bool,
    now: Nanos,
    id: usize,
)
    requires
        terminal_in(app, c.id) == Some(id),
        app.terminals.contains_key(id),
        !app.terminals[id].exited,
        app.terminal_grabbed,
    ensures
        ({
            let o = c.outcome(
                app,
                InputEvent::Keyboard(press),
                Some(PtyInput::SendControl(sequence, mode)),
                None,
                now,
            );
            let wanted = if sequence is Other {
                mode
            } else {
                app.terminals[id].screen.application_cursor
            };
            o.acts == seq![Act::Pty { id, event: PtyInput::SendControl(sequence, wanted) }]
        }),
{
}

} // verus!
