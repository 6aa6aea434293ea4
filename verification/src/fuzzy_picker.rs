//! A list of results with a selected one, and moving through it.

use vstd::prelude::*;
use crate::geometry::Pos;
use crate::input::{EventPropagation, InputEvent, Key, KeyPress, MouseInputKind, SpecialKey};
use crate::keyed::MapKey;
use crate::render::{
    Draw, RenderOp, RgbValue, TuiColor, TuiStyle, backed, bold_colored, colored, draws, emit,
    move_to, paint,
};
use crate::text::{chars_of, spaces};
use crate::theme::{HelixTheme, Theme};

verus! {

/// What was typed, what it found, and which of it is selected.
pub struct FuzzyPickerState<T: MapKey> {
    pub query: String,
    pub results: Vec<(T, Vec<u32>)>,
    pub selected: Option<T>,
}

/// What a [`FuzzyPickerState`] stands for, over the identities of the results.
#[verifier::ext_equal]
pub struct Picker<I> {
    pub query: Seq<char>,
    pub results: Seq<(I, Seq<u32>)>,
    pub selected: Option<I>,
}

/// The identities of some results, and the places at which they match.
pub open spec fn result_ids<T: MapKey>(results: Seq<(T, Vec<u32>)>) -> Seq<(T::Id, Seq<u32>)> {
    Seq::new(results.len(), |i: int| (results[i].0.id(), results[i].1@))
}

impl<T: MapKey> View for FuzzyPickerState<T> {
    type V = Picker<T::Id>;

    open spec fn view(&self) -> Picker<T::Id> {
        Picker {
            query: self.query@,
            results: result_ids(self.results@),
            selected: match self.selected {
                Some(k) => Some(k.id()),
                None => None,
            },
        }
    }
}

/// The first of the results from `i` on with an identity, or the first of all.
pub open spec fn index_of_id<I>(results: Seq<(I, Seq<u32>)>, id: I, i: int) -> int
    decreases results.len() - i,
{
    if i >= results.len() {
        0
    } else if results[i].0 == id {
        i
    } else {
        index_of_id(results, id, i + 1)
    }
}

impl<I> Picker<I> {
    /// Nothing typed, found or selected.
    pub open spec fn blank() -> Picker<I> {
        Picker { query: Seq::empty(), results: Seq::empty(), selected: None }
    }

    /// Which result is selected: the first where none is, or where it is not among the results.
    pub open spec fn selected_index(self) -> int {
        match self.selected {
            None => 0,
            Some(id) => index_of_id(self.results, id, 0),
        }
    }

    /// The same picker with the result at `i` selected.
    pub open spec fn with_selected(self, i: int) -> Picker<I> {
        Picker { selected: Some(self.results[i].0), ..self }
    }
}

/// The selected index is one of the results.
pub proof fn lemma_index_of_id<I>(results: Seq<(I, Seq<u32>)>, id: I, i: int)
    requires
        0 <= i,
    ensures
        0 <= index_of_id(results, id, i),
        results.len() > 0 ==> index_of_id(results, id, i) < results.len(),
        results.len() == 0 ==> index_of_id(results, id, i) == 0,
    decreases results.len() - i,
{
    if i < results.len() {
        lemma_index_of_id(results, id, i + 1);
    }
}

impl<T: MapKey> Default for FuzzyPickerState<T> {
    fn default() -> (r: Self)
        ensures
            r@ == Picker::<T::Id>::blank(),
    {
        let r = FuzzyPickerState { query: String::new(), results: Vec::new(), selected: None };
        assert(result_ids(r.results@) =~= Seq::empty());
        r
    }
}

impl<T: MapKey> FuzzyPickerState<T> {
    /// Forgets what was typed, found and selected.
    pub fn reset(&mut self)
        ensures
            final(self)@ == Picker::<T::Id>::blank(),
    {
        self.results = Vec::new();
        self.selected = None;
        self.query = String::new();
        assert(result_ids(self.results@) =~= Seq::empty());
    }

    /// Which result is selected: the first where none is, or where it is not among the results.
    pub fn resolve_selected_index(&self) -> (r: usize)
        ensures
            r == self@.selected_index(),
            self.results@.len() > 0 ==> r < self.results@.len(),
            self.results@.len() == 0 ==> r == 0,
    {
        let key = match &self.selected {
            None => {
                return 0;
            },
            Some(k) => k,
        };
        let ghost all = result_ids(self.results@);
        proof {
            lemma_index_of_id(all, key.id(), 0);
        }
        let mut i: usize = 0;
        while i < self.results.len()
            invariant
                i <= self.results@.len(),
                all == result_ids(self.results@),
                self@.selected == Some(key.id()),
                index_of_id(all, key.id(), i as int) == index_of_id(all, key.id(), 0),
            decreases self.results@.len() - i,
        {
            assert(all[i as int].0 == self.results@[i as int].0.id());
            if self.results[i].0.same_id(key) {
                return i;
            }
            i += 1;
        }
        0
    }

    /// Selects the result at `i`.
    pub fn select(&mut self, i: usize)
        requires
            i < old(self).results@.len(),
        ensures
            final(self)@ == old(self)@.with_selected(i as int),
    {
        let key = self.results[i].0.duplicate();
        assert(result_ids(self.results@)[i as int].0 == key.id());
        self.selected = Some(key);
    }
}

/// The moves through a list of results.
pub enum ListMove {
    Down(int),
    Up(int),
}

/// The move that an event asks for, on pages of `page_size` results.
pub open spec fn list_move(event: InputEvent, page_size: int) -> Option<ListMove> {
    let page = if page_size > 2 {
        page_size - 1
    } else {
        1
    };
    match event {
        InputEvent::Keyboard(KeyPress::Plain { key: Key::SpecialKey(SpecialKey::Down) }) => Some(
            ListMove::Down(1),
        ),
        InputEvent::Keyboard(KeyPress::Plain { key: Key::SpecialKey(SpecialKey::Up) }) => Some(
            ListMove::Up(1),
        ),
        InputEvent::Keyboard(
            KeyPress::Plain { key: Key::SpecialKey(SpecialKey::PageDown) },
        ) => Some(ListMove::Down(page)),
        InputEvent::Keyboard(
            KeyPress::Plain { key: Key::SpecialKey(SpecialKey::PageUp) },
        ) => Some(ListMove::Up(page)),
        InputEvent::Mouse(mouse) => match mouse.kind {
            MouseInputKind::ScrollDown => Some(ListMove::Down(1)),
            MouseInputKind::ScrollUp => Some(ListMove::Up(1)),
            _ => None,
        },
        _ => None,
    }
}

/// Where a move leads from place `i` of `count`.
pub open spec fn moved_to(i: int, count: int, m: ListMove) -> int {
    match m {
        ListMove::Down(n) => if i + n < count - 1 {
            i + n
        } else {
            count - 1
        },
        ListMove::Up(n) => if i > n {
            i - n
        } else {
            0
        },
    }
}

impl<I> Picker<I> {
    /// What an event leaves of the picker, and whether it was a move.
    pub open spec fn navigated(self, event: InputEvent, page_size: int) -> (Picker<I>, bool) {
        match list_move(event, page_size) {
            Some(m) if self.results.len() > 0 => (
                self.with_selected(moved_to(self.selected_index(), self.results.len() as int, m)),
                true,
            ),
            _ => (self, false),
        }
    }
}

/// Where the visible part of a list starts, so that the selected result is in it.
pub open spec fn scrolled_to(scroll: int, selected: int, count: int, rows: int) -> int {
    if selected < scroll {
        selected
    } else if count > 0 && selected >= scroll + rows {
        selected + 1 - rows
    } else {
        scroll
    }
}

/// The selected result is in the visible part of the list.
pub proof fn law_selected_result_is_visible(scroll: int, selected: int, count: int, rows: int)
    requires
        0 <= scroll,
        0 <= selected < count,
        1 <= rows,
    ensures
        ({
            let s = scrolled_to(scroll, selected, count, rows);
            0 <= s <= selected < s + rows
        }),
{
}

/// Moving down and up again by as much comes back, where the list does not end in between.
pub proof fn law_moving_up_undoes_moving_down(i: int, count: int, n: int)
    requires
        0 <= i < count,
        0 < n,
        i + n < count,
    ensures
        moved_to(moved_to(i, count, ListMove::Down(n)), count, ListMove::Up(n)) == i,
{
}

/// The colours that results are drawn in.
pub struct ResultColors {
    pub bg: TuiColor,
    pub match_fg: TuiColor,
    pub normal_fg: TuiColor,
    pub selected_bg: TuiColor,
}

/// A colour of the theme, or another.
pub open spec fn color_or(c: Option<RgbValue>, red: u8, green: u8, blue: u8) -> TuiColor {
    match c {
        Some(rgb) => TuiColor::Rgb(rgb),
        None => TuiColor::Rgb(RgbValue { red, green, blue }),
    }
}

/// A colour of the theme, or another.
pub fn pick_color(c: Option<RgbValue>, red: u8, green: u8, blue: u8) -> (r: TuiColor)
    ensures
        r == color_or(c, red, green, blue),
{
    match c {
        Some(rgb) => TuiColor::Rgb(rgb),
        None => TuiColor::Rgb(RgbValue { red, green, blue }),
    }
}

/// The colours that a theme gives results.
pub open spec fn result_colors(theme: Theme) -> ResultColors {
    ResultColors {
        bg: color_or(theme.bg("ui.background"@), 15, 15, 25),
        match_fg: color_or(theme.fg("ui.cursor.match"@), 255, 200, 60),
        normal_fg: color_or(theme.fg("ui.text"@), 170, 170, 200),
        selected_bg: color_or(theme.bg("ui.selection"@), 50, 50, 90),
    }
}

/// What the results are drawn from.
pub struct ResultLook {
    pub colors: ResultColors,
    pub origin: Pos,
    pub width: int,
    pub count: int,
    pub selected: int,
    pub scroll: int,
}

/// The label of a result: its text, its own colour where it has one, and the places that match.
pub struct Label {
    pub text: Seq<char>,
    pub accent: Option<RgbValue>,
    pub matched: Seq<u32>,
}

impl ResultLook {
    /// The background of the row of result `i`.
    pub open spec fn row_bg(self, i: int) -> TuiColor {
        if i < self.count && i == self.selected {
            self.colors.selected_bg
        } else {
            self.colors.bg
        }
    }

    /// The place of row `k`.
    pub open spec fn row_start(self, k: int) -> Draw {
        Draw::MoveTo { origin: self.origin, offset: Pos { col_index: 0, row_index: k as u16 } }
    }

    /// How the character at place `c` of a label is drawn: a match stands out in its own colour
    /// and bold, and so does a label with a colour of its own.
    pub open spec fn char_style(self, label: Label, i: int, c: int) -> TuiStyle {
        let is_match = label.matched.contains((c as usize) as u32);
        let fg = if is_match {
            self.colors.match_fg
        } else {
            match label.accent {
                Some(rgb) => TuiColor::Rgb(rgb),
                None => self.colors.normal_fg,
            }
        };
        if is_match || label.accent is Some {
            bold_colored(fg, self.row_bg(i))
        } else {
            colored(fg, self.row_bg(i))
        }
    }

    /// The label of result `i`.
    pub open spec fn label_draws(self, label: Label, i: int) -> Seq<Draw> {
        Seq::new(
            label.text.len(),
            |c: int|
                Draw::Paint {
                    text: seq![label.text[c]],
                    style: Some(self.char_style(label, i, c)),
                },
        )
    }

    /// What says that there are no results, in the middle of the first row.
    pub open spec fn no_results(self) -> Seq<char> {
        let pad = if self.width > 10 {
            (self.width - 10) / 2
        } else {
            0
        };
        Seq::new(pad as nat, |i: int| ' ') + "No results"@
    }

    /// Row `k`: an empty row, and on it the result, if there is one.
    pub open spec fn row_draws(self, labels: Seq<Label>, k: int) -> Seq<Draw> {
        let i = self.scroll + k;
        let bg = backed(self.row_bg(i));
        seq![
            self.row_start(k),
            Draw::ApplyColors(Some(bg)),
            Draw::Paint {
                text: Seq::new(self.width as nat, |j: int| ' '),
                style: Some(bg),
            },
        ] + if i < self.count {
            seq![self.row_start(k)] + self.label_draws(labels[i], i)
        } else if self.count == 0 && k == 0 {
            seq![
                self.row_start(k),
                Draw::Paint {
                    text: self.no_results(),
                    style: Some(colored(self.colors.normal_fg, self.colors.bg)),
                },
            ]
        } else {
            Seq::empty()
        }
    }

    /// The first `n` rows.
    pub open spec fn rows_draws(self, labels: Seq<Label>, n: int) -> Seq<Draw>
        decreases n,
    {
        if n <= 0 {
            Seq::empty()
        } else {
            self.rows_draws(labels, n - 1) + self.row_draws(labels, n - 1)
        }
    }
}

/// The labels of some results: their texts and colours, and where they match.
pub open spec fn labels_of<I>(
    texts: Seq<(String, Option<RgbValue>)>,
    results: Seq<(I, Seq<u32>)>,
) -> Seq<Label> {
    Seq::new(
        results.len(),
        |i: int| Label { text: texts[i].0@, accent: texts[i].1, matched: results[i].1 },
    )
}

/// Whether a list of places holds one.
fn holds_place(places: &Vec<u32>, place: u32) -> (r: bool)
    ensures
        r == places@.contains(place),
{
    let mut i: usize = 0;
    while i < places.len()
        invariant
            i <= places@.len(),
            forall|j: int| 0 <= j < i ==> places@[j] != place,
        decreases places@.len() - i,
    {
        if places[i] == place {
            return true;
        }
        i += 1;
    }
    false
}

/// Where the visible part of a list starts.
pub struct FuzzyPicker {
    pub scroll_offset: usize,
}

impl FuzzyPicker {
    /// A picker at the top of its list.
    pub fn new() -> (r: Self)
        ensures
            r.scroll_offset == 0,
    {
        FuzzyPicker { scroll_offset: 0 }
    }

    /// Moves the selection as an event asks, or does nothing and returns `None`.
    pub fn handle_navigation<K: MapKey>(
        &mut self,
        input_event: &InputEvent,
        page_size: usize,
        picker_state: &mut FuzzyPickerState<K>,
    ) -> (r: Option<EventPropagation>)
        ensures
            *final(self) == *old(self),
            (
                final(picker_state)@,
                r is Some,
            ) == old(picker_state)@.navigated(*input_event, page_size as int),
            r is Some ==> r == Some(EventPropagation::ConsumedRender),
    {
        let count: usize = picker_state.results.len();
        assert(picker_state@.results.len() == count);
        if count == 0 {
            return None;
        }
        let current: usize = picker_state.resolve_selected_index();
        let page: usize = if page_size > 2 {
            page_size - 1
        } else {
            1
        };
        let (down, steps): (bool, usize) = match input_event {
            InputEvent::Keyboard(KeyPress::Plain { key: Key::SpecialKey(special) }) => {
                match *special {
                    SpecialKey::Down => (true, 1),
                    SpecialKey::Up => (false, 1),
                    SpecialKey::PageDown => (true, page),
                    SpecialKey::PageUp => (false, page),
                    _ => {
                        return None;
                    },
                }
            },
            InputEvent::Mouse(mouse) => match mouse.kind {
                MouseInputKind::ScrollDown => (true, 1),
                MouseInputKind::ScrollUp => (false, 1),
                _ => {
                    return None;
                },
            },
            _ => {
                return None;
            },
        };
        let next: usize = if down {
            if steps < count - 1 - current {
                current + steps
            } else {
                count - 1
            }
        } else if current > steps {
            current - steps
        } else {
            0
        };
        picker_state.select(next);
        Some(EventPropagation::ConsumedRender)
    }

    /// Draws the visible results with their labels, and keeps the selected one in sight.
    pub fn render_results<K: MapKey>(
        &mut self,
        ops: &mut Vec<RenderOp>,
        theme: &HelixTheme,
        picker_state: &FuzzyPickerState<K>,
        results_origin: Pos,
        result_rows: u16,
        pane_width: u16,
        labels: &Vec<(String, Option<RgbValue>)>,
    )
        requires
            labels@.len() == picker_state.results@.len(),
            picker_state.results@.len() + result_rows <= usize::MAX,
        ensures
            final(self).scroll_offset == scrolled_to(
                old(self).scroll_offset as int,
                picker_state@.selected_index(),
                picker_state@.results.len() as int,
                result_rows as int,
            ),
            draws(final(ops)@) == draws(old(ops)@) + (ResultLook {
                colors: result_colors(theme@),
                origin: results_origin,
                width: pane_width as int,
                count: picker_state@.results.len() as int,
                selected: picker_state@.selected_index(),
                scroll: final(self).scroll_offset as int,
            }).rows_draws(labels_of(labels@, picker_state@.results), result_rows as int),
    {
        let bg = pick_color(theme.ui_bg("ui.background"), 15, 15, 25);
        let match_fg = pick_color(theme.ui_fg("ui.cursor.match"), 255, 200, 60);
        let normal_fg = pick_color(theme.ui_fg("ui.text"), 170, 170, 200);
        let selected_bg = pick_color(theme.ui_bg("ui.selection"), 50, 50, 90);
        let selected: usize = picker_state.resolve_selected_index();
        let count: usize = picker_state.results.len();
        let rows: usize = result_rows as usize;
        if selected < self.scroll_offset {
            self.scroll_offset = selected;
        } else if count > 0 && selected - self.scroll_offset >= rows {
            self.scroll_offset = selected + 1 - rows;
        }
        let scroll: usize = self.scroll_offset;
        let ghost all = labels_of(labels@, picker_state@.results);
        let ghost look = ResultLook {
            colors: result_colors(theme@),
            origin: results_origin,
            width: pane_width as int,
            count: picker_state@.results.len() as int,
            selected: picker_state@.selected_index(),
            scroll: scroll as int,
        };
        let ghost before = draws(ops@);
        let mut k: usize = 0;
        assert(before + look.rows_draws(all, 0) =~= before);
        while k < rows
            invariant
                k <= rows,
                rows <= u16::MAX,
                count == picker_state.results@.len(),
                count + rows <= usize::MAX,
                scroll <= count,
                labels@.len() == count,
                all == labels_of(labels@, picker_state@.results),
                look.colors == (ResultColors { bg, match_fg, normal_fg, selected_bg }),
                look.origin == results_origin,
                look.width == pane_width,
                look.count == count,
                look.selected == selected,
                look.scroll == scroll,
                draws(ops@) == before + look.rows_draws(all, k as int),
            decreases rows - k,
        {
            let i: usize = scroll + k;
            let ghost so_far = draws(ops@);
            let row_bg = if i < count && i == selected {
                selected_bg
            } else {
                bg
            };
            let row_style = TuiStyle::on(row_bg);
            emit(ops, move_to(results_origin, 0, k as u16));
            emit(ops, RenderOp::ApplyColors(Some(row_style)));
            emit(ops, paint(spaces(pane_width as usize), Some(row_style)));
            let ghost head = seq![
                look.row_start(k as int),
                Draw::ApplyColors(Some(row_style)),
                Draw::Paint {
                    text: Seq::new(look.width as nat, |j: int| ' '),
                    style: Some(row_style),
                },
            ];
            assert(draws(ops@) =~= so_far + head);
            if i < count {
                emit(ops, move_to(results_origin, 0, k as u16));
                assert(picker_state@.results[i as int].1 == picker_state.results@[i as int].1@);
                let ghost label = all[i as int];
                let ghost start = draws(ops@);
                let chars = chars_of(labels[i].0.as_str());
                let accent = labels[i].1;
                let mut c: usize = 0;
                assert(start + look.label_draws(label, i as int).take(0) =~= start);
                while c < chars.len()
                    invariant
                        c <= chars@.len(),
                        chars@ == label.text,
                        accent == label.accent,
                        i < count,
                        count == picker_state.results@.len(),
                        label.matched == picker_state.results@[i as int].1@,
                        look.colors == (ResultColors { bg, match_fg, normal_fg, selected_bg }),
                        row_bg == look.row_bg(i as int),
                        draws(ops@) == start + look.label_draws(label, i as int).take(c as int),
                    decreases chars@.len() - c,
                {
                    let is_match = holds_place(&picker_state.results[i].1, c as u32);
                    let fg = if is_match {
                        match_fg
                    } else {
                        match accent {
                            Some(rgb) => TuiColor::Rgb(rgb),
                            None => normal_fg,
                        }
                    };
                    let style = if is_match || accent.is_some() {
                        TuiStyle::bold_of(fg, row_bg)
                    } else {
                        TuiStyle::of(fg, row_bg)
                    };
                    let mut one = String::new();
                    one.push(chars[c]);
                    assert(one@ =~= seq![label.text[c as int]]);
                    emit(ops, paint(one, Some(style)));
                    proof {
                        let whole = look.label_draws(label, i as int);
                        assert(whole.take(c + 1) =~= whole.take(c as int).push(whole[c as int]));
                        assert(draws(ops@) =~= start + whole.take(c + 1));
                    }
                    c += 1;
                }
                proof {
                    let whole = look.label_draws(label, i as int);
                    assert(whole.take(c as int) =~= whole);
                    assert(draws(ops@) =~= so_far + (head + (seq![look.row_start(k as int)]
                        + whole)));
                }
            } else if count == 0 && k == 0 {
                emit(ops, move_to(results_origin, 0, k as u16));
                let width: usize = pane_width as usize;
                let pad: usize = if width > 10 {
                    (width - 10) / 2
                } else {
                    0
                };
                let mut text = spaces(pad);
                text.append("No results");
                emit(ops, paint(text, Some(TuiStyle::of(normal_fg, bg))));
                assert(draws(ops@) =~= so_far + (head + seq![
                    look.row_start(k as int),
                    Draw::Paint {
                        text: look.no_results(),
                        style: Some(colored(look.colors.normal_fg, look.colors.bg)),
                    },
                ]));
            } else {
                assert(head + Seq::<Draw>::empty() =~= head);
            }
            proof {
                assert(draws(ops@) == so_far + look.row_draws(all, k as int));
                assert((before + look.rows_draws(all, k as int)) + look.row_draws(all, k as int)
                    =~= before + look.rows_draws(all, k + 1));
            }
            k += 1;
        }
    }
}

} // verus!
