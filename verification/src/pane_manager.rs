//! The window stack, the focus, and the layout of panes into columns.

use vstd::prelude::*;
use crate::geometry::FlexBox;
use crate::keyed::{KeyedMap, MapKey};
use crate::loader::FileKey;

verus! {

/// Maximum number of panes the layout engine may render at once.
pub const MAX_PANES: usize = 16;

/// The narrowest a column of panes gets when there is more than one column.
pub const MIN_PANE_WIDTH: u16 = 100;

/// A pane that can appear in the window stack.
///
/// Each variant is unique: there is at most one `FileNamePicker` and at most one
/// `FilePreview` per `FileKey` in the stack at any time.
#[derive(Clone, Copy, PartialEq, Eq, Hash, Debug, Structural)]
pub enum Window {
    /// Preview of the file identified by `FileKey`.
    FilePreview(FileKey),
    /// Fuzzy file-name picker overlay.
    FileNamePicker,
    /// Theme picker overlay with live preview.
    ThemePicker,
    /// Embedded terminal pane identified by its session id.
    Terminal(usize),
}

impl MapKey for Window {
    type Id = Window;

    open spec fn id(&self) -> Window {
        *self
    }

    fn same_id(&self, other: &Self) -> (r: bool) {
        *self == *other
    }

    fn duplicate(&self) -> (r: Self) {
        *self
    }
}

/// A point in a window's content used as a text-selection anchor or endpoint.
#[derive(Clone, Copy, Debug, PartialEq, Eq, Structural)]
pub enum SelPoint {
    /// Point inside a file preview.
    Preview {
        /// Zero-based line index in the preview content.
        line_idx: usize,
        /// Byte offset within that line.
        byte_offset: usize,
    },
    /// Point inside a terminal pane viewport.
    Terminal {
        /// Zero-based row within the visible terminal viewport.
        viewport_row: usize,
        /// Zero-based column within that row.
        col: usize,
    },
}

/// Active text selection within a single window.
#[derive(Clone, Copy, Debug)]
pub struct TextSelection {
    /// Window that owns this selection.
    pub window: Window,
    /// Selection start point.
    pub start: SelPoint,
    /// Selection end point.
    pub end: SelPoint,
    /// Point where the current click/drag sequence began.
    pub click_anchor: Option<SelPoint>,
    /// Word boundary pair detected from a single click.
    pub click_word: Option<(SelPoint, SelPoint)>,
    /// Whether the selection is still being dragged.
    pub active: bool,
}

/// Relative height of a pane within the available vertical space.
#[derive(Clone, Copy, Debug, PartialEq, Eq, Structural)]
pub enum PaneSize {
    /// Occupies the full available vertical height.
    Full,
    /// Occupies half of the available vertical height.
    Half,
    /// Occupies one third of the available vertical height.
    Third,
    /// Occupies one quarter of the available vertical height.
    Quarter,
}

impl Default for PaneSize {
    fn default() -> (r: PaneSize)
        ensures
            r == PaneSize::Full,
    {
        PaneSize::Full
    }
}

impl PaneSize {
    /// How many panes of this size fill the available vertical height.
    pub open spec fn parts(self) -> int {
        match self {
            PaneSize::Full => 1,
            PaneSize::Half => 2,
            PaneSize::Third => 3,
            PaneSize::Quarter => 4,
        }
    }

    /// The next larger size, or `Full` itself.
    pub open spec fn grown(self) -> PaneSize {
        match self {
            PaneSize::Quarter => PaneSize::Third,
            PaneSize::Third => PaneSize::Half,
            PaneSize::Half => PaneSize::Full,
            PaneSize::Full => PaneSize::Full,
        }
    }

    /// The next smaller size, or `Quarter` itself.
    pub open spec fn shrunk(self) -> PaneSize {
        match self {
            PaneSize::Full => PaneSize::Half,
            PaneSize::Half => PaneSize::Third,
            PaneSize::Third => PaneSize::Quarter,
            PaneSize::Quarter => PaneSize::Quarter,
        }
    }

    /// The rows that a pane of this size asks for: its part of `rows`, but at least one row.
    pub open spec fn requested(self, rows: int) -> int {
        if rows / self.parts() >= 1 {
            rows / self.parts()
        } else {
            1
        }
    }

    /// Next larger size, clamped at `Full`.
    pub fn grow(self) -> (r: Self)
        ensures
            r == self.grown(),
    {
        match self {
            PaneSize::Quarter => PaneSize::Third,
            PaneSize::Third => PaneSize::Half,
            PaneSize::Half => PaneSize::Full,
            PaneSize::Full => PaneSize::Full,
        }
    }

    /// Next smaller size, clamped at `Quarter`.
    pub fn shrink(self) -> (r: Self)
        ensures
            r == self.shrunk(),
    {
        match self {
            PaneSize::Full => PaneSize::Half,
            PaneSize::Half => PaneSize::Third,
            PaneSize::Third => PaneSize::Quarter,
            PaneSize::Quarter => PaneSize::Quarter,
        }
    }

    /// Rows of `rows` that a pane of this size asks for.
    pub fn requested_rows(self, rows: u16) -> (r: u16)
        ensures
            r == self.requested(rows as int),
            r >= 1,
            rows >= 1 ==> r <= rows,
    {
        let part: u16 = match self {
            PaneSize::Full => rows,
            PaneSize::Half => rows / 2,
            PaneSize::Third => rows / 3,
            PaneSize::Quarter => rows / 4,
        };
        if part >= 1 {
            part
        } else {
            1
        }
    }
}

/// Growing a pane and shrinking it again gives the size back, but for a `Full` pane, which
/// cannot grow.
pub proof fn law_shrink_undoes_grow(size: PaneSize)
    requires
        size != PaneSize::Full,
    ensures
        size.grown().shrunk() == size,
{
}

/// Shrinking a pane and growing it again gives the size back, but for a `Quarter` pane, which
/// cannot shrink.
pub proof fn law_grow_undoes_shrink(size: PaneSize)
    requires
        size != PaneSize::Quarter,
    ensures
        size.shrunk().grown() == size,
{
}

/// A larger size never asks for fewer rows.
pub proof fn law_grow_is_no_smaller(size: PaneSize, rows: u16)
    ensures
        size.grown().requested(rows as int) >= size.requested(rows as int),
{
}

/// Direction in which to resize the focused pane.
#[derive(Clone, Copy, Debug, PartialEq, Eq, Structural)]
pub enum ResizeDelta {
    /// Increase the focused pane's vertical size.
    Grow,
    /// Decrease the focused pane's vertical size.
    Shrink,
}

impl ResizeDelta {
    /// What becomes of `size`.
    pub open spec fn applied(self, size: PaneSize) -> PaneSize {
        match self {
            ResizeDelta::Grow => size.grown(),
            ResizeDelta::Shrink => size.shrunk(),
        }
    }
}

/// Scroll, paging, and sizing state for a single open window.
#[derive(Clone, Copy, Debug, PartialEq, Eq, Structural)]
pub struct WindowState {
    /// Current scroll offset in content rows.
    pub scroll: usize,
    /// Number of rows visible in the pane at once.
    pub page_size: usize,
    /// Total content height in rows.
    pub scroll_max: usize,
    /// Relative vertical size of the pane.
    pub pane_size: PaneSize,
}

impl WindowState {
    /// The state of a window of which nothing is known yet.
    pub open spec fn fresh() -> WindowState {
        WindowState { scroll: 0, page_size: 0, scroll_max: 0, pane_size: PaneSize::Full }
    }

    /// The same state, scrolled back so far that the visible page lies within the content.
    pub open spec fn clamped(self) -> WindowState {
        WindowState {
            scroll: if self.scroll_max > self.page_size {
                if self.scroll <= self.scroll_max - self.page_size {
                    self.scroll
                } else {
                    (self.scroll_max - self.page_size) as usize
                }
            } else {
                0
            },
            ..self
        }
    }
}

impl Default for WindowState {
    fn default() -> (r: WindowState)
        ensures
            r == WindowState::fresh(),
    {
        WindowState { scroll: 0, page_size: 0, scroll_max: 0, pane_size: PaneSize::Full }
    }
}

/// A positioned pane produced by the layout engine.
#[derive(Clone, Copy, Debug, PartialEq, Eq, Structural)]
pub struct PaneSlot {
    /// Zero-based position in the visible pane layout.
    pub slot: usize,
    /// Window rendered in this slot.
    pub window: Window,
    /// Computed layout box for the pane.
    pub box_: FlexBox,
}

/// Owns the ordered window stack, per-window state, and focus.
pub struct PaneManager {
    /// Stack of open windows, most-recently-opened first (index 0 = leftmost pane).
    pub window_stack: Vec<Window>,
    /// The window that currently receives keyboard input.
    pub focused_window: Option<Window>,
    /// Per-window scroll, page-size, and pane-size state.
    pub window_states: KeyedMap<Window, WindowState>,
}

/// What a [`PaneManager`] stands for.
#[verifier::ext_equal]
pub struct Panes {
    pub stack: Seq<Window>,
    pub focused: Option<Window>,
    pub states: Map<Window, WindowState>,
}

impl View for PaneManager {
    type V = Panes;

    open spec fn view(&self) -> Panes {
        Panes {
            stack: self.window_stack@,
            focused: self.focused_window,
            states: self.window_states@,
        }
    }
}

/// The first window of a stack.
pub open spec fn front(stack: Seq<Window>) -> Option<Window> {
    if stack.len() == 0 {
        None
    } else {
        Some(stack[0])
    }
}

/// `stack` without the first occurrence of `window`.
pub open spec fn without(stack: Seq<Window>, window: Window) -> Seq<Window> {
    match stack.index_of_first(window) {
        Some(i) => stack.remove(i),
        None => stack,
    }
}

/// Tells every other window from `window`.
pub open spec fn other_than(window: Window) -> spec_fn(Window) -> bool {
    |w: Window| w != window
}

/// `stack` with the windows at `i` and `j` exchanged.
pub open spec fn swapped(stack: Seq<Window>, i: int, j: int) -> Seq<Window> {
    stack.update(i, stack[j]).update(j, stack[i])
}

/// Every window of a stack is there once and has a state.
#[verifier::opaque]
pub open spec fn valid_stack(stack: Seq<Window>, states: Map<Window, WindowState>) -> bool {
    &&& stack.no_duplicates()
    &&& forall|i: int| 0 <= i < stack.len() ==> states.contains_key(#[trigger] stack[i])
}

impl Panes {
    /// Every window of the stack is there once and has a state.
    pub open spec fn wf(self) -> bool {
        valid_stack(self.stack, self.states)
    }

    /// The state of `window`, whether or not it has one yet.
    pub open spec fn state_of(self, window: Window) -> WindowState {
        if self.states.contains_key(window) {
            self.states[window]
        } else {
            WindowState::fresh()
        }
    }

    /// The same panes, with another state for `window`.
    pub open spec fn with_state(self, window: Window, state: WindowState) -> Panes {
        Panes { states: self.states.insert(window, state), ..self }
    }

    /// `window` is scrolled to `scroll`, or as far as its content goes.
    pub open spec fn scrolled(self, window: Window, scroll: usize) -> Panes {
        self.with_state(window, WindowState { scroll, ..self.state_of(window) }.clamped())
    }

    /// `window` stands in front, and has a state.
    pub open spec fn pushed(self, window: Window) -> Panes {
        Panes {
            stack: seq![window] + without(self.stack, window),
            states: self.states.insert(window, self.state_of(window)),
            ..self
        }
    }

    /// `window` is gone; where it had the focus, the front window has it.
    pub open spec fn removed(self, window: Window) -> Panes {
        let stack = self.stack.filter(other_than(window));
        Panes {
            stack,
            states: self.states.remove(window),
            focused: if self.focused == Some(window) {
                front(stack)
            } else {
                self.focused
            },
        }
    }

    /// `window` stands last; where it had the focus, the window that took its place has it,
    /// or the front window where `window` stays where it was.
    pub open spec fn sent_to_back(self, window: Window) -> Panes {
        match self.stack.index_of_first(window) {
            None => self,
            Some(i) => {
                let stack = self.stack.remove(i).push(window);
                Panes {
                    stack,
                    focused: if self.focused != Some(window) {
                        self.focused
                    } else if stack[i] != window {
                        Some(stack[i])
                    } else {
                        front(stack)
                    },
                    ..self
                }
            },
        }
    }

    /// `window` changes places with the window before it.
    pub open spec fn moved_forward(self, window: Window) -> Panes {
        match self.stack.index_of_first(window) {
            Some(i) if i > 0 => Panes { stack: swapped(self.stack, i, i - 1), ..self },
            _ => self,
        }
    }

    /// `window` changes places with the window behind it.
    pub open spec fn moved_backward(self, window: Window) -> Panes {
        match self.stack.index_of_first(window) {
            Some(i) if i + 1 < self.stack.len() => Panes {
                stack: swapped(self.stack, i, i + 1),
                ..self
            },
            _ => self,
        }
    }

    /// The focused window is one step larger or smaller.
    pub open spec fn resized(self, delta: ResizeDelta) -> Panes {
        match self.focused {
            None => self,
            Some(w) => self.with_state(
                w,
                WindowState {
                    pane_size: delta.applied(self.state_of(w).pane_size),
                    ..self.state_of(w)
                },
            ),
        }
    }

    /// Where in the visible panes the focus is, or the first of them where it is in none.
    pub open spec fn focus_position(self, visible: Seq<PaneSlot>) -> int {
        match self.focused {
            None => 0,
            Some(w) => match visible.map_values(|s: PaneSlot| s.window).index_of_first(w) {
                Some(i) => i,
                None => 0,
            },
        }
    }

    /// The focus is `direction` panes further on, round and round the visible panes.
    pub open spec fn focus_cycled(self, visible: Seq<PaneSlot>, direction: int) -> Panes {
        if visible.len() == 0 {
            self
        } else {
            Panes {
                focused: Some(
                    visible[(self.focus_position(visible) + direction) % (visible.len()
                        as int)].window,
                ),
                ..self
            }
        }
    }
}

/// Where `window` first stands in `stack`.
pub(crate) fn position(stack: &Vec<Window>, window: &Window) -> (r: Option<usize>)
    ensures
        match r {
            Some(i) => stack@.index_of_first(*window) == Some(i as int) && i < stack@.len()
                && stack@[i as int] == *window,
            None => stack@.index_of_first(*window) is None && !stack@.contains(*window),
        },
{
    let mut i: usize = 0;
    while i < stack.len()
        invariant
            i <= stack@.len(),
            forall|j: int| 0 <= j < i ==> stack@[j] != *window,
        decreases stack@.len() - i,
    {
        if stack[i] == *window {
            proof {
                lemma_index_of_first(stack@, *window, i as int);
            }
            return Some(i);
        }
        i += 1;
    }
    proof {
        stack@.index_of_first_ensures(*window);
    }
    None
}

/// The first place of a window is the one before which it does not stand.
pub proof fn lemma_index_of_first(stack: Seq<Window>, window: Window, i: int)
    requires
        0 <= i < stack.len(),
        stack[i] == window,
        forall|j: int| 0 <= j < i ==> stack[j] != window,
    ensures
        stack.index_of_first(window) == Some(i),
{
    stack.index_of_first_ensures(window);
    assert(stack.contains(window));
    let k = stack.index_of_first(window)->0;
    if k < i {
        assert(stack[k] != window);
    } else if i < k {
        assert(stack[i] != window);
    }
}

impl PaneManager {
    /// Creates a new, empty pane manager.
    pub fn new() -> (r: Self)
        ensures
            r@ == (Panes { stack: Seq::empty(), focused: None, states: Map::empty() }),
    {
        PaneManager {
            window_stack: Vec::new(),
            focused_window: None,
            window_states: KeyedMap::new(),
        }
    }

    /// The state of `window`, whether or not it has one yet.
    pub fn window_state(&self, window: &Window) -> (r: WindowState)
        ensures
            r == self@.state_of(*window),
    {
        match self.window_states.get(window) {
            Some(s) => *s,
            None => WindowState::default(),
        }
    }

    /// Moves `window` to the front of the stack (index 0). If it is not present, inserts it.
    pub fn push_window(&mut self, window: Window)
        ensures
            final(self)@ == old(self)@.pushed(window),
    {
        let ghost stack = self.window_stack@;
        let pos = position(&self.window_stack, &window);
        if let Some(pos) = pos {
            self.window_stack.remove(pos);
        }
        self.window_stack.insert(0, window);
        assert(self.window_stack@ =~= seq![window] + without(stack, window));
        let state = self.window_state(&window);
        self.window_states.insert(window, state);
    }

    /// Removes `window` from the stack entirely.
    pub fn remove_window(&mut self, window: &Window)
        ensures
            final(self)@ == old(self)@.removed(*window),
    {
        let mut kept: Vec<Window> = Vec::new();
        let mut i: usize = 0;
        while i < self.window_stack.len()
            invariant
                i <= self.window_stack@.len(),
                kept@ == self.window_stack@.take(i as int).filter(other_than(*window)),
            decreases self.window_stack@.len() - i,
        {
            let w = self.window_stack[i];
            proof {
                reveal(Seq::filter);
                let shorter = self.window_stack@.take(i as int);
                let longer = self.window_stack@.take(i + 1);
                assert(longer.drop_last() =~= shorter);
                assert(longer.last() == w);
            }
            if w != *window {
                kept.push(w);
            }
            i += 1;
        }
        assert(self.window_stack@.take(i as int) =~= self.window_stack@);
        self.window_stack = kept;
        let _ = self.window_states.remove(window);
        if self.focused_window == Some(*window) {
            self.focused_window = if self.window_stack.len() == 0 {
                None
            } else {
                Some(self.window_stack[0])
            };
        }
    }

    /// Moves `window` to the back of the stack (last position).
    pub fn send_to_back(&mut self, window: &Window)
        ensures
            final(self)@ == old(self)@.sent_to_back(*window),
    {
        let pos: usize = match position(&self.window_stack, window) {
            Some(pos) => pos,
            None => {
                return;
            },
        };
        let w = self.window_stack.remove(pos);
        self.window_stack.push(w);
        if self.focused_window == Some(*window) {
            self.focused_window = if self.window_stack[pos] != *window {
                Some(self.window_stack[pos])
            } else {
                Some(self.window_stack[0])
            };
        }
    }

    /// Swaps `window` toward index 0 (the front / left).
    pub fn move_forward(&mut self, window: &Window)
        ensures
            final(self)@ == old(self)@.moved_forward(*window),
    {
        if let Some(pos) = position(&self.window_stack, window) {
            if pos > 0 {
                let here = self.window_stack[pos];
                let there = self.window_stack[pos - 1];
                self.window_stack[pos] = there;
                self.window_stack[pos - 1] = here;
            }
        }
    }

    /// Swaps `window` toward the end (the back / right).
    pub fn move_backward(&mut self, window: &Window)
        ensures
            final(self)@ == old(self)@.moved_backward(*window),
    {
        if let Some(pos) = position(&self.window_stack, window) {
            if pos < self.window_stack.len() - 1 {
                let here = self.window_stack[pos];
                let there = self.window_stack[pos + 1];
                self.window_stack[pos] = there;
                self.window_stack[pos + 1] = here;
            }
        }
    }

    /// Grows or shrinks the focused window's pane size, clamped at the boundaries.
    pub fn resize_focused(&mut self, delta: ResizeDelta)
        ensures
            final(self)@ == old(self)@.resized(delta),
    {
        let window = match self.focused_window {
            Some(window) => window,
            None => {
                return;
            },
        };
        let mut state = self.window_state(&window);
        state.pane_size = match delta {
            ResizeDelta::Grow => state.pane_size.grow(),
            ResizeDelta::Shrink => state.pane_size.shrink(),
        };
        self.window_states.insert(window, state);
    }

    /// Position of the focused window in the window stack, if any.
    pub fn focused_slot(&self) -> (r: Option<usize>)
        ensures
            r == match self@.focused {
                None => None,
                Some(w) => match self@.stack.index_of_first(w) {
                    None => None,
                    Some(i) => Some(i as usize),
                },
            },
            r matches Some(i) ==> i < self@.stack.len() && self@.focused == Some(
                self@.stack[i as int],
            ),
    {
        match self.focused_window {
            Some(focused) => position(&self.window_stack, &focused),
            None => None,
        }
    }
}

/// Which of the visible panes shows `window`.
fn visible_position(visible: &[PaneSlot], window: &Window) -> (r: Option<usize>)
    ensures
        match r {
            Some(i) => visible@.map_values(|s: PaneSlot| s.window).index_of_first(*window) == Some(
                i as int,
            ) && i < visible@.len(),
            None => visible@.map_values(|s: PaneSlot| s.window).index_of_first(*window) is None,
        },
{
    let ghost windows = visible@.map_values(|s: PaneSlot| s.window);
    let mut i: usize = 0;
    while i < visible.len()
        invariant
            i <= visible@.len(),
            windows == visible@.map_values(|s: PaneSlot| s.window),
            forall|j: int| 0 <= j < i ==> windows[j] != *window,
        decreases visible@.len() - i,
    {
        assert(windows[i as int] == visible@[i as int].window);
        if visible[i].window == *window {
            proof {
                lemma_index_of_first(windows, *window, i as int);
            }
            return Some(i);
        }
        i += 1;
    }
    proof {
        windows.index_of_first_ensures(*window);
    }
    None
}

impl PaneManager {
    /// Cycles focus through the visible panes.
    pub fn cycle_focus(&mut self, visible: &[PaneSlot], direction: i32)
        requires
            visible@.len() <= i32::MAX,
        ensures
            final(self)@ == old(self)@.focus_cycled(visible@, direction as int),
    {
        if visible.len() == 0 {
            return;
        }
        let current: Option<usize> = match self.focused_window {
            Some(w) => visible_position(visible, &w),
            None => None,
        };
        let pos: usize = match current {
            Some(pos) => pos,
            None => 0,
        };
        let len: usize = visible.len();
        let steps: u64 = if direction >= 0 {
            direction as u64
        } else {
            (-(direction as i64)) as u64
        };
        let short: usize = (steps % (len as u64)) as usize;
        let next: usize = if direction >= 0 {
            (pos + short) % len
        } else {
            (pos + (len - short)) % len
        };
        proof {
            let n = len as int;
            let p = pos as int;
            let d = direction as int;
            let a = steps as int;
            if d >= 0 {
                vstd::arithmetic::div_mod::lemma_add_mod_noop_right(p, a, n);
            } else {
                vstd::arithmetic::div_mod::lemma_sub_mod_noop_right(p, a, n);
                vstd::arithmetic::div_mod::lemma_mod_add_multiples_vanish(p - a % n, n);
                assert((p + (n - a % n)) % n == (n + (p - a % n)) % n);
            }
            assert(next == (p + d) % n);
        }
        self.focused_window = Some(visible[next].window);
    }

    /// Current scroll offset for `window`.
    pub fn window_scroll(&self, window: &Window) -> (r: usize)
        ensures
            r == self@.state_of(*window).scroll,
    {
        self.window_state(window).scroll
    }

    /// Rendered page size for `window`.
    pub fn window_page_size(&self, window: &Window) -> (r: usize)
        ensures
            r == self@.state_of(*window).page_size,
    {
        self.window_state(window).page_size
    }

    /// Total content height for `window`.
    pub fn window_scroll_max(&self, window: &Window) -> (r: usize)
        ensures
            r == self@.state_of(*window).scroll_max,
    {
        self.window_state(window).scroll_max
    }

    /// Sets the scroll offset for `window`.
    pub fn set_window_scroll(&mut self, window: &Window, scroll: usize)
        ensures
            final(self)@ == old(self)@.with_state(
                *window,
                WindowState { scroll, ..old(self)@.state_of(*window) },
            ),
    {
        let mut state = self.window_state(window);
        state.scroll = scroll;
        self.window_states.insert(*window, state);
    }

    /// Sets the rendered page size for `window`.
    pub fn set_window_page_size(&mut self, window: &Window, page_size: usize)
        ensures
            final(self)@ == old(self)@.with_state(
                *window,
                WindowState { page_size, ..old(self)@.state_of(*window) },
            ),
    {
        let mut state = self.window_state(window);
        state.page_size = page_size;
        self.window_states.insert(*window, state);
    }

    /// Sets the total content height for `window`.
    pub fn set_window_scroll_max(&mut self, window: &Window, scroll_max: usize)
        ensures
            final(self)@ == old(self)@.with_state(
                *window,
                WindowState { scroll_max, ..old(self)@.state_of(*window) },
            ),
    {
        let mut state = self.window_state(window);
        state.scroll_max = scroll_max;
        self.window_states.insert(*window, state);
    }

    /// Sets the pane size of `window`.
    pub fn set_window_pane_size(&mut self, window: &Window, pane_size: PaneSize)
        ensures
            final(self)@ == old(self)@.with_state(
                *window,
                WindowState { pane_size, ..old(self)@.state_of(*window) },
            ),
    {
        let mut state = self.window_state(window);
        state.pane_size = pane_size;
        self.window_states.insert(*window, state);
    }

    /// Clamps `window`'s scroll offset so the visible page stays within the content.
    pub fn clamp_scroll(&mut self, window: &Window)
        ensures
            final(self)@ == if old(self)@.states.contains_key(*window) {
                old(self)@.with_state(*window, old(self)@.states[*window].clamped())
            } else {
                old(self)@
            },
    {
        let found: Option<WindowState> = match self.window_states.get(window) {
            Some(state) => Some(*state),
            None => None,
        };
        if let Some(mut state) = found {
            if state.scroll_max > state.page_size {
                if state.scroll > state.scroll_max - state.page_size {
                    state.scroll = state.scroll_max - state.page_size;
                }
            } else {
                state.scroll = 0;
            }
            self.window_states.insert(*window, state);
        }
    }

    /// Scrolls `window` to `scroll`, or as far as its content goes.
    pub fn scroll_to(&mut self, window: &Window, scroll: usize)
        ensures
            final(self)@ == old(self)@.scrolled(*window, scroll),
    {
        self.set_window_scroll(window, scroll);
        self.clamp_scroll(window);
        assert(self@.states =~= old(self)@.scrolled(*window, scroll).states);
    }
}

/// Scrolling back once is enough: a clamped state stays as it is.
pub proof fn law_clamping_twice_is_clamping_once(state: WindowState)
    ensures
        state.clamped().clamped() == state.clamped(),
{
}

/// After clamping, the page ends within the content, or starts at its top where the content is
/// shorter than the page.
pub proof fn law_clamped_page_lies_in_content(state: WindowState)
    ensures
        state.clamped().scroll == 0 || state.clamped().scroll + state.page_size
            <= state.scroll_max,
        state.clamped().scroll <= state.scroll,
{
}

/// A pushed window stands in front, no window stands twice, and every window has a state.
pub proof fn law_push_keeps_panes_valid(p: Panes, window: Window)
    requires
        p.wf(),
    ensures
        p.pushed(window).wf(),
        p.pushed(window).stack[0] == window,
        p.pushed(window).stack.to_set() =~= p.stack.to_set().insert(window),
        p.pushed(window).focused == p.focused,
{
    reveal(valid_stack);
    let rest = without(p.stack, window);
    let next = p.pushed(window).stack;
    p.stack.index_of_first_ensures(window);
    assert(next[0] == window);
    match p.stack.index_of_first(window) {
        Some(k) => {
            assert forall|i: int| 0 <= i < rest.len() implies rest[i] != window && p.stack.contains(
                #[trigger] rest[i],
            ) by {
                let o = if i < k { i } else { i + 1 };
                assert(rest[i] == p.stack[o]);
            }
            assert forall|i: int, j: int|
                0 <= i < rest.len() && 0 <= j < rest.len() && i != j implies rest[i]
                != rest[j] by {
                let a = if i < k { i } else { i + 1 };
                let b = if j < k { j } else { j + 1 };
                assert(rest[i] == p.stack[a] && rest[j] == p.stack[b]);
            }
            assert forall|w: Window| #[trigger]
                next.contains(w) <==> (p.stack.contains(w) || w == window) by {
                if p.stack.contains(w) && w != window {
                    let o = choose|o: int| 0 <= o < p.stack.len() && p.stack[o] == w;
                    let i = if o < k { o } else { o - 1 };
                    assert(rest[i] == w);
                    assert(next[i + 1] == w);
                }
                if next.contains(w) && w != window {
                    let n = choose|n: int| 0 <= n < next.len() && next[n] == w;
                    assert(next[n] == rest[n - 1]);
                }
            }
        },
        None => {
            assert forall|w: Window| #[trigger]
                next.contains(w) <==> (p.stack.contains(w) || w == window) by {
                if p.stack.contains(w) {
                    let o = choose|o: int| 0 <= o < p.stack.len() && p.stack[o] == w;
                    assert(next[o + 1] == w);
                }
                if next.contains(w) && w != window {
                    let n = choose|n: int| 0 <= n < next.len() && next[n] == w;
                    assert(next[n] == p.stack[n - 1]);
                }
            }
        },
    }
    assert forall|i: int, j: int|
        0 <= i < next.len() && 0 <= j < next.len() && i != j implies next[i] != next[j] by {
        if i > 0 {
            assert(next[i] == rest[i - 1]);
        }
        if j > 0 {
            assert(next[j] == rest[j - 1]);
        }
        if i == 0 || j == 0 {
            assert forall|k: int| 0 <= k < rest.len() implies rest[k] != window by {
                if p.stack.index_of_first(window) is None {
                    assert(p.stack.contains(rest[k]));
                }
            }
        }
    }
    assert forall|i: int| 0 <= i < next.len() implies p.pushed(window).states.contains_key(
        #[trigger] next[i],
    ) by {
        assert(next.contains(next[i]));
        if next[i] != window {
            let o = choose|o: int| 0 <= o < p.stack.len() && p.stack[o] == next[i];
            assert(p.states.contains_key(p.stack[o]));
        }
    }
}

/// A removed window is gone with its state, the others keep theirs, and it has no focus.
pub proof fn law_remove_keeps_panes_valid(p: Panes, window: Window)
    requires
        p.wf(),
    ensures
        p.removed(window).wf(),
        !p.removed(window).stack.contains(window),
        !p.removed(window).states.contains_key(window),
        p.removed(window).focused != Some(window),
        forall|w: Window|
            w != window ==> p.removed(window).state_of(w) == p.state_of(w)
                && p.removed(window).stack.contains(w) == p.stack.contains(w),
{
    reveal(valid_stack);
    let next = p.removed(window).stack;
    lemma_filter_other_than(p.stack, window);
    assert forall|i: int| 0 <= i < next.len() implies p.removed(window).states.contains_key(
        #[trigger] next[i],
    ) by {
        assert(next.contains(next[i]));
        let o = choose|o: int| 0 <= o < p.stack.len() && p.stack[o] == next[i];
        assert(p.states.contains_key(p.stack[o]));
    }
    if next.len() > 0 {
        assert(next.contains(next[0]));
    }
}

/// What is left of a stack without a window.
pub proof fn lemma_filter_other_than(s: Seq<Window>, window: Window)
    ensures
        forall|w: Window| #[trigger]
            s.filter(other_than(window)).contains(w) <==> s.contains(w) && w != window,
        s.no_duplicates() ==> s.filter(other_than(window)).no_duplicates(),
    decreases s.len(),
{
    reveal(Seq::filter);
    if s.len() > 0 {
        let rest = s.drop_last();
        lemma_filter_other_than(rest, window);
        let short = rest.filter(other_than(window));
        let f = s.filter(other_than(window));
        assert forall|w: Window| #[trigger] f.contains(w) <==> s.contains(w) && w != window by {
            if f.contains(w) {
                let i = choose|i: int| 0 <= i < f.len() && f[i] == w;
                if i < short.len() {
                    assert(short[i] == w);
                    assert(short.contains(w));
                    assert(rest.contains(w));
                    let k = choose|k: int| 0 <= k < rest.len() && rest[k] == w;
                    assert(s[k] == w);
                } else {
                    assert(s[s.len() - 1] == w);
                }
            }
            if s.contains(w) && w != window {
                let k = choose|k: int| 0 <= k < s.len() && s[k] == w;
                if k < rest.len() {
                    assert(rest[k] == w);
                    assert(short.contains(w));
                    let i = choose|i: int| 0 <= i < short.len() && short[i] == w;
                    assert(f[i] == w);
                } else {
                    assert(f[f.len() - 1] == w);
                }
            }
        }
        if s.no_duplicates() {
            assert(rest.no_duplicates());
            assert(!rest.contains(s.last()));
            assert(!short.contains(s.last()));
        }
    }
}

/// Moving a window backward and then forward puts it back, unless it stood last.
pub proof fn law_move_forward_undoes_move_backward(p: Panes, window: Window)
    requires
        p.wf(),
        p.stack.contains(window),
        p.stack.last() != window,
    ensures
        p.moved_backward(window).moved_forward(window) == p,
{
    reveal(valid_stack);
    p.stack.index_of_first_ensures(window);
    let i = p.stack.index_of_first(window)->0;
    let next = p.moved_backward(window).stack;
    assert(p.stack[i + 1] != window);
    lemma_index_of_first(next, window, i + 1);
    assert(p.moved_backward(window).moved_forward(window).stack =~= p.stack);
}

/// Moving a window forward and then backward puts it back, unless it stood in front.
pub proof fn law_move_backward_undoes_move_forward(p: Panes, window: Window)
    requires
        p.wf(),
        p.stack.contains(window),
        p.stack[0] != window,
    ensures
        p.moved_forward(window).moved_backward(window) == p,
{
    reveal(valid_stack);
    p.stack.index_of_first_ensures(window);
    let i = p.stack.index_of_first(window)->0;
    let next = p.moved_forward(window).stack;
    assert forall|j: int| 0 <= j < i - 1 implies next[j] != window by {
        assert(next[j] == p.stack[j]);
    }
    lemma_index_of_first(next, window, i - 1);
    assert(p.moved_forward(window).moved_backward(window).stack =~= p.stack);
}

/// Moving windows about, and sending one to the back, loses and gains none.
pub proof fn law_reordering_keeps_panes_valid(p: Panes, window: Window)
    requires
        p.wf(),
    ensures
        p.moved_forward(window).wf(),
        p.moved_backward(window).wf(),
        p.sent_to_back(window).wf(),
        p.moved_forward(window).stack.to_multiset() == p.stack.to_multiset(),
        p.moved_backward(window).stack.to_multiset() == p.stack.to_multiset(),
        p.sent_to_back(window).stack.to_multiset() == p.stack.to_multiset(),
        p.stack.contains(window) ==> p.sent_to_back(window).stack.last() == window,
{
    reveal(valid_stack);
    p.stack.index_of_first_ensures(window);
    if p.stack.contains(window) {
        let i = p.stack.index_of_first(window)->0;
        if i > 0 {
            lemma_swap_is_reordering(p.stack, i, i - 1);
        }
        if i + 1 < p.stack.len() {
            lemma_swap_is_reordering(p.stack, i, i + 1);
        }
        let back = p.stack.remove(i);
        assert(p.stack =~= back.insert(i, window));
        vstd::seq_lib::to_multiset_insert(back, i, window);
        vstd::seq_lib::to_multiset_build(back, window);
        let next = back.push(window);
        assert forall|a: int, b: int|
            0 <= a < next.len() && 0 <= b < next.len() && a != b implies next[a] != next[b] by {
            let a2 = if a == back.len() { i } else if a < i { a } else { a + 1 };
            let b2 = if b == back.len() { i } else if b < i { b } else { b + 1 };
            assert(next[a] == p.stack[a2] && next[b] == p.stack[b2]);
        }
        assert forall|a: int| 0 <= a < next.len() implies p.states.contains_key(
            #[trigger] next[a],
        ) by {
            let a2 = if a == back.len() { i } else if a < i { a } else { a + 1 };
            assert(next[a] == p.stack[a2]);
        }
    }
}

/// Exchanging two windows reorders the stack.
proof fn lemma_swap_is_reordering(s: Seq<Window>, i: int, j: int)
    requires
        0 <= i < s.len(),
        0 <= j < s.len(),
        i != j,
    ensures
        swapped(s, i, j).to_multiset() == s.to_multiset(),
        s.no_duplicates() ==> swapped(s, i, j).no_duplicates(),
        forall|a: int| 0 <= a < s.len() ==> s.contains(#[trigger] swapped(s, i, j)[a]),
{
    vstd::seq_lib::to_multiset_update(s, i, s[j]);
    vstd::seq_lib::to_multiset_update(s.update(i, s[j]), j, s[i]);
    assert(s.to_multiset().contains(s[i])) by {
        s.to_multiset_ensures();
        assert(s.contains(s[i]));
    }
    assert(swapped(s, i, j).to_multiset() =~= s.to_multiset());
}

/// Cycling the focus on and then back again by as much returns to where it was, where the
/// focused window is visible and no window is shown twice.
pub proof fn law_cycling_back_undoes_cycling(p: Panes, visible: Seq<PaneSlot>, k: int, d: int)
    requires
        0 <= k < visible.len(),
        p.focused == Some(visible[k].window),
        visible.map_values(|s: PaneSlot| s.window).no_duplicates(),
    ensures
        p.focus_cycled(visible, d).focus_cycled(visible, -d) == p,
{
    let n = visible.len() as int;
    let windows = visible.map_values(|s: PaneSlot| s.window);
    assert(windows[k] == visible[k].window);
    assert forall|j: int| 0 <= j < k implies windows[j] != windows[k] by {}
    lemma_index_of_first(windows, windows[k], k);
    let m = (k + d) % n;
    assert(0 <= m < n) by {
        vstd::arithmetic::div_mod::lemma_mod_bound(k + d, n);
    }
    let q = p.focus_cycled(visible, d);
    assert(windows[m] == visible[m].window);
    lemma_index_of_first(windows, windows[m], m);
    assert(q.focus_position(visible) == m);
    vstd::arithmetic::div_mod::lemma_sub_mod_noop(k + d, d, n);
    vstd::arithmetic::div_mod::lemma_sub_mod_noop_right(m, d, n);
    assert((m + -d) % n == k) by {
        vstd::arithmetic::div_mod::lemma_small_mod(k as nat, n as nat);
    }
}

} // verus!
