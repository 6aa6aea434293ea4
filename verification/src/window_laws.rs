//! Where windows go, and what is picked from a list.

use vstd::prelude::*;
use crate::effect::Act;
use crate::editing_laws::plain_key;
use crate::file_name_picker::file_picker_outcome;
use crate::fuzzy_picker::{Picker, index_of_id};
use crate::geometry::Size;
use crate::input::SpecialKey;
use crate::layout::{lemma_slot_box, lemma_spot};
use crate::pane_manager::{
    PaneSize, PaneSlot, Panes, ResizeDelta, Window, lemma_filter_other_than, lemma_index_of_first,
    other_than, valid_stack,
};
use crate::session_time::Nanos;
use crate::state::App;
use crate::theme::{builtin_catalog, theme_named};
use crate::theme_picker::theme_picker_outcome;

verus! {

/// A window that is moved changes places with its neighbour on that side, and no other window
/// moves.
pub proof fn law_moved_window_passes_one(p: Panes, i: int)
    requires
        p.wf(),
        0 <= i < p.stack.len(),
    ensures
        ({
            let window = p.stack[i];
            let forward = p.moved_forward(window);
            let backward = p.moved_backward(window);
            &&& i > 0 ==> forward.stack == p.stack.update(i - 1, window).update(i, p.stack[i - 1])
            &&& i == 0 ==> forward.stack == p.stack
            &&& i + 1 < p.stack.len() ==> backward.stack == p.stack.update(i + 1, window).update(
                i,
                p.stack[i + 1],
            )
            &&& i + 1 == p.stack.len() ==> backward.stack == p.stack
            &&& forward.focused == p.focused
            &&& backward.focused == p.focused
        }),
{
    reveal(valid_stack);
    let window = p.stack[i];
    lemma_index_of_first(p.stack, window, i);
    if i > 0 {
        assert(p.moved_forward(window).stack =~= p.stack.update(i - 1, window).update(
            i,
            p.stack[i - 1],
        ));
    }
    if i + 1 < p.stack.len() {
        assert(p.moved_backward(window).stack =~= p.stack.update(i + 1, window).update(
            i,
            p.stack[i + 1],
        ));
    }
}

/// A window that is sent to the back stands behind all others, which stay in their order. The focus
/// goes to the window that took its place, where it had the focus.
pub proof fn law_window_sent_to_back_stands_last(p: Panes, i: int)
    requires
        p.wf(),
        0 <= i < p.stack.len(),
    ensures
        ({
            let window = p.stack[i];
            let after = p.sent_to_back(window);
            &&& after.stack == p.stack.take(i) + p.stack.skip(i + 1) + seq![window]
            &&& p.focused != Some(window) ==> after.focused == p.focused
            &&& p.focused == Some(window) && i + 1 < p.stack.len() ==> after.focused == Some(
                p.stack[i + 1],
            )
            &&& p.focused == Some(window) && i + 1 == p.stack.len() ==> after.focused == Some(
                p.stack[0],
            )
        }),
{
    reveal(valid_stack);
    let window = p.stack[i];
    lemma_index_of_first(p.stack, window, i);
    assert(p.sent_to_back(window).stack =~= p.stack.take(i) + p.stack.skip(i + 1) + seq![window]);
}

/// A window that is closed leaves the others in their order; where it had the focus, the front
/// window has it.
pub proof fn law_closed_window_leaves_the_others(p: Panes, i: int)
    requires
        p.wf(),
        0 <= i < p.stack.len(),
    ensures
        ({
            let window = p.stack[i];
            let after = p.removed(window);
            &&& after.stack == p.stack.take(i) + p.stack.skip(i + 1)
            &&& p.focused != Some(window) ==> after.focused == p.focused
            &&& p.focused == Some(window) ==> after.focused == if after.stack.len() > 0 {
                Some(after.stack[0])
            } else {
                None
            }
        }),
{
    reveal(valid_stack);
    let window = p.stack[i];
    let front = p.stack.take(i);
    let back = p.stack.skip(i);
    let rest = p.stack.skip(i + 1);
    lemma_nothing_taken_out(front, window);
    lemma_nothing_taken_out(rest, window);
    assert(p.stack =~= front + back);
    assert(back =~= seq![window] + rest);
    Seq::filter_distributes_over_add(front, back, other_than(window));
    Seq::filter_distributes_over_add(seq![window], rest, other_than(window));
    lemma_filter_other_than(seq![window], window);
    assert(seq![window].filter(other_than(window)) =~= Seq::empty()) by {
        let f = seq![window].filter(other_than(window));
        if f.len() > 0 {
            assert(f.contains(f[0]));
        }
    }
    assert(p.removed(window).stack =~= front + rest);
}

/// Nothing is left out of a stack that does not hold the window.
proof fn lemma_nothing_taken_out(s: Seq<Window>, window: Window)
    requires
        forall|k: int| 0 <= k < s.len() ==> s[k] != window,
    ensures
        s.filter(other_than(window)) == s,
    decreases s.len(),
{
    reveal(Seq::filter);
    if s.len() > 0 {
        lemma_nothing_taken_out(s.drop_last(), window);
        assert(s.last() != window);
        assert(s.drop_last().push(s.last()) =~= s);
    }
}

/// A window that is opened stands in front of the others, which stay in their order.
pub proof fn law_opened_window_stands_in_front(p: Panes, window: Window)
    requires
        p.wf(),
    ensures
        !p.stack.contains(window) ==> p.pushed(window).stack == seq![window] + p.stack,
        forall|i: int|
            #![trigger p.stack[i]]
            0 <= i < p.stack.len() && p.stack[i] == window ==> p.pushed(window).stack
                == seq![window] + p.stack.take(i) + p.stack.skip(i + 1),
{
    reveal(valid_stack);
    p.stack.index_of_first_ensures(window);
    assert forall|i: int|
        #![trigger p.stack[i]]
        0 <= i < p.stack.len() && p.stack[i] == window implies p.pushed(window).stack
        == seq![window] + p.stack.take(i) + p.stack.skip(i + 1) by {
        lemma_index_of_first(p.stack, window, i);
        assert(p.pushed(window).stack =~= seq![window] + p.stack.take(i) + p.stack.skip(i + 1));
    }
}

/// The focus goes on to the next visible pane, or back to the one before; from the last the first
/// follows.
pub proof fn law_focus_goes_to_next_pane(p: Panes, visible: Seq<PaneSlot>, k: int)
    requires
        0 <= k < visible.len(),
        p.focused == Some(visible[k].window),
        visible.map_values(|s: PaneSlot| s.window).no_duplicates(),
    ensures
        p.focus_cycled(visible, 1).focused == Some(
            if k + 1 < visible.len() {
                visible[k + 1].window
            } else {
                visible[0].window
            },
        ),
        p.focus_cycled(visible, -1).focused == Some(
            if k > 0 {
                visible[k - 1].window
            } else {
                visible.last().window
            },
        ),
        p.focus_cycled(visible, 1).stack == p.stack,
        p.focus_cycled(visible, -1).stack == p.stack,
{
    let n = visible.len() as int;
    let windows = visible.map_values(|s: PaneSlot| s.window);
    assert(windows[k] == visible[k].window);
    assert forall|j: int| 0 <= j < k implies windows[j] != windows[k] by {}
    lemma_index_of_first(windows, windows[k], k);
    if k + 1 < n {
        vstd::arithmetic::div_mod::lemma_small_mod((k + 1) as nat, n as nat);
    } else {
        vstd::arithmetic::div_mod::lemma_mod_self_0(n);
    }
    if k > 0 {
        vstd::arithmetic::div_mod::lemma_small_mod((k - 1) as nat, n as nat);
    } else {
        vstd::arithmetic::div_mod::lemma_mod_add_multiples_vanish(-1, n);
        vstd::arithmetic::div_mod::lemma_small_mod((n - 1) as nat, n as nat);
    }
}

/// A full pane asks for all rows, and the smaller sizes for a half, a third and a quarter of them.
pub proof fn law_sizes_are_parts_of_the_height(rows: int)
    requires
        4 <= rows,
    ensures
        PaneSize::Full.requested(rows) == rows,
        2 * PaneSize::Half.requested(rows) <= rows < 2 * PaneSize::Half.requested(rows) + 2,
        3 * PaneSize::Third.requested(rows) <= rows < 3 * PaneSize::Third.requested(rows) + 3,
        4 * PaneSize::Quarter.requested(rows) <= rows < 4 * PaneSize::Quarter.requested(rows) + 4,
{
}

/// Growing makes the focused pane ask for more rows and shrinking for fewer, unless it has the
/// largest or the smallest size. Nothing else of it changes, and no other window does.
pub proof fn law_resizing_changes_focused_pane(p: Panes, window: Window, rows: int)
    requires
        12 <= rows,
        p.focused == Some(window),
    ensures
        ({
            let size = p.state_of(window).pane_size;
            let grown = p.resized(ResizeDelta::Grow);
            let shrunk = p.resized(ResizeDelta::Shrink);
            &&& size != PaneSize::Full ==> grown.state_of(window).pane_size.requested(rows)
                > size.requested(rows)
            &&& size != PaneSize::Quarter ==> shrunk.state_of(window).pane_size.requested(rows)
                < size.requested(rows)
            &&& grown.stack == p.stack && shrunk.stack == p.stack
            &&& grown.focused == p.focused && shrunk.focused == p.focused
            &&& grown.state_of(window).scroll == p.state_of(window).scroll
            &&& shrunk.state_of(window).scroll == p.state_of(window).scroll
            &&& forall|w: Window|
                w != window ==> #[trigger] grown.state_of(w) == p.state_of(w)
                    && #[trigger] shrunk.state_of(w) == p.state_of(w)
        }),
{
}

/// A pane with another one below it in its column is as high as it asks for, and the other one
/// starts right below it.
pub proof fn law_pane_is_as_high_as_it_asks(p: Panes, size: Size, i: int)
    requires
        0 <= i,
        i + 1 < p.layout(size).len(),
        p.layout(size)[i].box_.style_adjusted_origin_pos.row_index < p.layout(
            size,
        )[i + 1].box_.style_adjusted_origin_pos.row_index,
    ensures
        ({
            let here = p.layout(size)[i].box_;
            let below = p.layout(size)[i + 1].box_;
            let rows = size.row_height as int;
            &&& here.style_adjusted_bounds_size.row_height == p.state_of(
                p.stack[i],
            ).pane_size.requested(rows)
            &&& below.style_adjusted_origin_pos.row_index
                == here.style_adjusted_origin_pos.row_index
                + here.style_adjusted_bounds_size.row_height
            &&& below.style_adjusted_origin_pos.col_index
                == here.style_adjusted_origin_pos.col_index
            &&& below.style_adjusted_bounds_size.col_width
                == here.style_adjusted_bounds_size.col_width
        }),
{
    let rows = size.row_height as int;
    lemma_slot_box(p, size, i);
    lemma_slot_box(p, size, i + 1);
    lemma_spot(p, rows, i);
    lemma_spot(p, rows, i + 1);
}

/// The place of a result with an identity that no other result has.
proof fn lemma_index_is_found<I>(results: Seq<(I, Seq<u32>)>, k: int, i: int)
    requires
        0 <= i <= k < results.len(),
        forall|j: int| 0 <= j < k ==> (#[trigger] results[j]).0 != results[k].0,
    ensures
        index_of_id(results, results[k].0, i) == k,
    decreases k - i,
{
    if i < k {
        assert(results[i].0 != results[k].0);
        lemma_index_is_found(results, k, i + 1);
    }
}

/// Whether a picker has the result at `k` selected, and no other result is the same.
pub open spec fn has_selected<I>(p: Picker<I>, k: int) -> bool {
    &&& 0 <= k < p.results.len()
    &&& p.selected == Some(p.results[k].0)
    &&& forall|i: int, j: int|
        0 <= i < j < p.results.len() ==> (#[trigger] p.results[i]).0 != (
        #[trigger] p.results[j]).0
}

/// The arrow keys select the next result or the one before, and the page keys go a page on that
/// keeps a result in sight, all of them up to the ends of the list.
pub proof fn law_keys_select_results<I>(p: Picker<I>, k: int, page_size: int)
    requires
        has_selected(p, k),
        2 < page_size,
    ensures
        ({
            let n = p.results.len();
            let down = p.navigated(plain_key(SpecialKey::Down), page_size).0;
            let up = p.navigated(plain_key(SpecialKey::Up), page_size).0;
            let page_down = p.navigated(plain_key(SpecialKey::PageDown), page_size).0;
            let page_up = p.navigated(plain_key(SpecialKey::PageUp), page_size).0;
            &&& has_selected(
                down,
                if k + 1 < n {
                    k + 1
                } else {
                    k
                },
            )
            &&& has_selected(
                up,
                if k > 0 {
                    k - 1
                } else {
                    0
                },
            )
            &&& has_selected(
                page_down,
                if k + page_size - 1 < n {
                    k + page_size - 1
                } else {
                    n - 1
                },
            )
            &&& has_selected(
                page_up,
                if k - page_size + 1 > 0 {
                    k - page_size + 1
                } else {
                    0
                },
            )
            &&& down.results == p.results && up.results == p.results
            &&& page_down.results == p.results && page_up.results == p.results
        }),
{
    lemma_index_is_found(p.results, k, 0);
}

/// The Enter key opens the selected window: it stands in front with the focus, and the picker is
/// gone. A terminal takes the keyboard unless it is scrolled back; the tokens of a file are asked
/// for.
pub proof fn law_enter_opens_selected_window(app: App, cursor: int, now: Nanos, k: int)
    requires
        app.panes.wf(),
        has_selected(app.file_name_picker, k),
        app.panes.focused == Some(Window::FileNamePicker),
        app.file_name_picker.results[k].0 is FilePreview
            || app.file_name_picker.results[k].0 is Terminal,
    ensures
        ({
            let window = app.file_name_picker.results[k].0;
            let done = file_picker_outcome(app, cursor, plain_key(SpecialKey::Enter), now).1;
            &&& done.app.panes.focused == Some(window)
            &&& done.app.panes.stack.len() > 0
            &&& done.app.panes.stack[0] == window
            &&& !done.app.panes.stack.contains(Window::FileNamePicker)
            &&& done.app.file_name_picker.query == Seq::<char>::empty()
            &&& done.app.file_name_picker.results.len() == 0
            &&& window matches Window::FilePreview(key) ==> done.acts == seq![
                Act::RequestTokens(key.0),
            ]
            &&& window matches Window::Terminal(id) ==> (done.app.terminal_grabbed <==> !(
            app.terminals.contains_key(id) && app.terminals[id].scroll_offset > 0))
        }),
{
    let window = app.file_name_picker.results[k].0;
    let pushed = app.panes.pushed(window);
    lemma_index_is_found(app.file_name_picker.results, k, 0);
    lemma_filter_other_than(pushed.stack, Window::FileNamePicker);
    let rest = pushed.stack.skip(1);
    assert(pushed.stack =~= seq![window] + rest);
    Seq::filter_distributes_over_add(
        seq![window],
        rest,
        other_than(Window::FileNamePicker),
    );
    lemma_nothing_taken_out(seq![window], Window::FileNamePicker);
    let after = pushed.stack.filter(other_than(Window::FileNamePicker));
    assert(after[0] == window);
}

/// The Esc key closes the picker and opens nothing.
pub proof fn law_esc_opens_nothing(app: App, cursor: int, now: Nanos)
    requires
        app.panes.wf(),
    ensures
        ({
            let done = file_picker_outcome(app, cursor, plain_key(SpecialKey::Esc), now).1;
            &&& done.acts.len() == 0
            &&& !done.app.panes.stack.contains(Window::FileNamePicker)
            &&& done.app.file_name_picker.query == Seq::<char>::empty()
            &&& forall|w: Window|
                w != Window::FileNamePicker ==> #[trigger] done.app.panes.stack.contains(w)
                    == app.panes.stack.contains(w)
        }),
{
    lemma_filter_other_than(app.panes.stack, Window::FileNamePicker);
}

/// The Enter key keeps the theme that is shown, and saves the selected name.
pub proof fn law_enter_saves_selected_theme(app: App, cursor: int, k: int)
    requires
        has_selected(app.theme_picker, k),
    ensures
        ({
            let done = theme_picker_outcome(app, cursor, plain_key(SpecialKey::Enter)).1;
            &&& done.acts == seq![Act::SaveTheme(app.theme_picker.results[k].0)]
            &&& done.app.theme == app.theme
            &&& done.app.saved_theme == app.theme
            &&& !done.app.panes.stack.contains(Window::ThemePicker)
            &&& done.app.theme_picker.query == Seq::<char>::empty()
        }),
{
    lemma_index_is_found(app.theme_picker.results, k, 0);
    lemma_filter_other_than(app.panes.stack, Window::ThemePicker);
}

/// A theme that is come to in the list is shown at once; the one to come back to stays.
pub proof fn law_selected_theme_is_shown(app: App, cursor: int, k: int)
    requires
        has_selected(app.theme_picker, k),
        k + 1 < app.theme_picker.results.len(),
        theme_named(builtin_catalog(), app.theme_picker.results[k + 1].0) is Some,
    ensures
        ({
            let done = theme_picker_outcome(app, cursor, plain_key(SpecialKey::Down)).1;
            let name = app.theme_picker.results[k + 1].0;
            &&& done.app.theme_picker.selected == Some(name)
            &&& Some(done.app.theme) == theme_named(builtin_catalog(), name)
            &&& done.app.saved_theme == app.saved_theme
            &&& done.acts.len() == 0
        }),
{
    lemma_index_is_found(app.theme_picker.results, k, 0);
}

} // verus!
