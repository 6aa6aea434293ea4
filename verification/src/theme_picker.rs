//! The picker for themes, with live preview.

use vstd::prelude::*;
use crate::effect::{Act, Effect, acts, perform};
use crate::file_name_picker::{is_esc, list_measured};
use crate::fuzzy_picker::{
    FuzzyPicker, Label, Picker, ResultLook, labels_of, result_colors, result_ids, scrolled_to,
};
use crate::geometry::FlexBox;
use crate::ids::FlexBoxId;
use crate::input::{EventPropagation, InputEvent, Key, KeyPress, KeyState, SpecialKey};
use crate::input_line::{InputLine, added_chars, edited, pasted_clusters};
use crate::pane_manager::Window;
use crate::preview::{enter_pressed, is_enter};
use crate::query_row::{query_title_draws, render_query_title};
use crate::ranking::{
    Haystack, Ranking, is_blank, lemma_with_found_members, look_for, match_found, nothing_to_find,
    results_of, sorted_places, with_found, without_scores,
};
use crate::render::{RenderOp, RgbValue, draws};
use crate::state::{App, AppState};
use crate::terminal_pane::{Outcome, lemma_panes_stay_wf, passed_on, redraw};
use crate::text::{copy_of, grapheme_clusters, split_on};
use crate::theme::{HelixTheme, builtin_catalog, theme_named};

verus! {

/// The names of the built-in themes.
pub open spec fn theme_name_list() -> Seq<Seq<char>> {
    Seq::new(builtin_catalog().len(), |i: int| builtin_catalog()[i].0)
}

/// Which of the first `n` names match a query, by their places in the list, the best first. A name
/// whose scores cannot be added up is left out, and the others are found.
pub open spec fn ranked_names(query: Seq<char>, names: Seq<Seq<char>>, n: int) -> Seq<
    (usize, u32, Seq<u32>),
>
    decreases n,
{
    if n <= 0 {
        Seq::empty()
    } else {
        let before = ranked_names(query, names, n - 1);
        match match_found(query, names[n - 1], Haystack::Name) {
            Some((score, places)) => with_found(
                before,
                ((n - 1) as usize, score, sorted_places(places, places.len() as int)),
            ),
            None => before,
        }
    }
}

/// What a query finds among names: all of them where it holds nothing to search for.
pub open spec fn name_results(query: Seq<char>, names: Seq<Seq<char>>) -> Seq<
    (Seq<char>, Seq<u32>),
> {
    if nothing_to_find(query) {
        Seq::new(names.len(), |i: int| (names[i], Seq::empty()))
    } else {
        let found = ranked_names(query, names, names.len() as int);
        Seq::new(found.len(), |i: int| (names[found[i].0 as int], found[i].2))
    }
}

/// Every name that is found is in the list.
proof fn lemma_ranked_names(query: Seq<char>, names: Seq<Seq<char>>, n: int)
    requires
        0 <= n <= names.len(),
        names.len() <= usize::MAX,
    ensures
        forall|i: int|
            0 <= i < ranked_names(query, names, n).len() ==> (#[trigger] ranked_names(
                query,
                names,
                n,
            )[i]).0 < n,
    decreases n,
{
    if n > 0 {
        lemma_ranked_names(query, names, n - 1);
        let before = ranked_names(query, names, n - 1);
        if let Some((score, places)) = match_found(query, names[n - 1], Haystack::Name) {
            let x = ((n - 1) as usize, score, sorted_places(places, places.len() as int));
            lemma_with_found_members(before, x);
            let after = ranked_names(query, names, n);
            assert forall|i: int| 0 <= i < after.len() implies (#[trigger] after[i]).0 < n by {
                if after[i] != x {
                    let k = choose|k: int| 0 <= k < before.len() && before[k] == after[i];
                    assert(before[k] == after[i]);
                }
            }
        }
    }
}

/// The texts of some names.
pub open spec fn names_of(names: Seq<&'static str>) -> Seq<Seq<char>> {
    Seq::new(names.len(), |i: int| names[i]@)
}

/// One more result is there.
pub proof fn lemma_result_pushed(
    before: Seq<(String, Vec<u32>)>,
    after: Seq<(String, Vec<u32>)>,
    all: Seq<(Seq<char>, Seq<u32>)>,
    i: int,
)
    requires
        0 <= i < all.len(),
        result_ids(before) == all.take(i),
        after.len() == before.len() + 1,
        forall|j: int| 0 <= j < before.len() ==> after[j] == before[j],
        after.last().0@ == all[i].0,
        after.last().1@ == all[i].1,
    ensures
        result_ids(after) == all.take(i + 1),
{
    assert(result_ids(before).len() == i);
    assert forall|j: int| 0 <= j < i + 1 implies result_ids(after)[j] == all.take(i + 1)[j] by {
        if j < i {
            assert(result_ids(before)[j] == all.take(i)[j]);
        }
    }
    assert(result_ids(after) =~= all.take(i + 1));
}

/// Searches names for a query, or lists all of them where it holds nothing to search for.
pub fn match_names(query: &str, names: &Vec<&'static str>) -> (r: Vec<(String, Vec<u32>)>)
    ensures
        result_ids(r@) == name_results(query@, names_of(names@)),
{
    let ghost all = names_of(names@);
    let total: usize = names.len();
    let mut out: Vec<(String, Vec<u32>)> = Vec::new();
    if is_blank(query) {
        let mut i: usize = 0;
        assert(result_ids(out@) =~= name_results(query@, all).take(0));
        while i < total
            invariant
                i <= total,
                total == names@.len(),
                all == names_of(names@),
                nothing_to_find(query@),
                result_ids(out@) == name_results(query@, all).take(i as int),
            decreases total - i,
        {
            let none: Vec<u32> = Vec::new();
            assert(none@ =~= Seq::<u32>::empty());
            let ghost so_far = out@;
            out.push((copy_of(names[i]), none));
            proof {
                lemma_result_pushed(so_far, out@, name_results(query@, all), i as int);
            }
            i += 1;
            assert(result_ids(out@) =~= name_results(query@, all).take(i as int));
        }
        assert(name_results(query@, all).take(i as int) =~= name_results(query@, all));
        return out;
    }
    let mut ranking: Ranking<usize> = Ranking::new();
    let mut i: usize = 0;
    while i < total
        invariant
            i <= total,
            total == names@.len(),
            all == names_of(names@),
            ranking@ == ranked_names(query@, all, i as int),
        decreases total - i,
    {
        assert(all[i as int] == names@[i as int]@);
        match look_for(query, names[i], Haystack::Name) {
            Some((score, places)) => {
                ranking = ranking.put(i, score, &places);
            },
            None => {},
        }
        i += 1;
    }
    let ghost found = ranking@;
    proof {
        lemma_ranked_names(query@, all, all.len() as int);
    }
    let ranked = ranking.finish();
    assert(results_of(ranked@).len() == found.len());
    let count: usize = ranked.len();
    let mut i: usize = 0;
    assert(result_ids(out@) =~= name_results(query@, all).take(0));
    while i < count
        invariant
            i <= count,
            count == ranked@.len(),
            count == found.len(),
            all == names_of(names@),
            !nothing_to_find(query@),
            found == ranked_names(query@, all, all.len() as int),
            results_of(ranked@) == without_scores(found),
            forall|j: int| 0 <= j < found.len() ==> (#[trigger] found[j]).0 < names@.len(),
            result_ids(out@) == name_results(query@, all).take(i as int),
        decreases count - i,
    {
        proof {
            assert(results_of(ranked@)[i as int] == without_scores(found)[i as int]);
            assert(found[i as int].0 < names@.len());
        }
        let k: usize = ranked[i].0;
        assert(all[k as int] == names@[k as int]@);
        let mut places: Vec<u32> = Vec::new();
        let mut j: usize = 0;
        while j < ranked[i].1.len()
            invariant
                i < ranked@.len(),
                j <= ranked@[i as int].1@.len(),
                places@ == ranked@[i as int].1@.take(j as int),
            decreases ranked@[i as int].1@.len() - j,
        {
            places.push(ranked[i].1[j]);
            j += 1;
            assert(places@ =~= ranked@[i as int].1@.take(j as int));
        }
        assert(places@ =~= ranked@[i as int].1@);
        let ghost so_far = out@;
        out.push((copy_of(names[k]), places));
        proof {
            lemma_result_pushed(so_far, out@, name_results(query@, all), i as int);
        }
        i += 1;
        assert(result_ids(out@) =~= name_results(query@, all).take(i as int));
    }
    assert(name_results(query@, all).take(i as int) =~= name_results(query@, all));
    out
}

/// Searches the names of the built-in themes for a query.
pub fn run_theme_name_match(query: &str) -> (r: Vec<(String, Vec<u32>)>)
    ensures
        result_ids(r@) == name_results(query@, theme_name_list()),
{
    let names = HelixTheme::theme_names();
    assert(names_of(names@) =~= theme_name_list());
    match_names(query, &names)
}

/// The theme with a name is shown, where there is one.
pub open spec fn theme_shown(app: App, name: Seq<char>) -> App {
    match theme_named(builtin_catalog(), name) {
        Some(theme) => App { theme, ..app },
        None => app,
    }
}

/// The picker is closed: its window and what was typed are gone.
pub open spec fn theme_picker_closed(app: App) -> App {
    App {
        panes: app.panes.removed(Window::ThemePicker),
        theme_picker: Picker::blank(),
        ..app
    }
}

/// Whether an event leaves the picker without a choice: Esc, or C with the control key.
pub open spec fn cancels(event: InputEvent) -> bool {
    is_esc(event) || match event {
        InputEvent::Keyboard(KeyPress::WithModifiers { key, mask }) => key == Key::Character('c')
            && mask.ctrl_key_state == KeyState::Pressed,
        _ => false,
    }
}

/// What the Enter key does: the theme that is shown stays, and the selected name is saved.
pub open spec fn theme_chosen(app: App) -> Outcome {
    let p = app.theme_picker;
    Outcome {
        app: theme_picker_closed(App { saved_theme: app.theme, ..app }),
        flow: EventPropagation::ConsumedRender,
        acts: if p.results.len() > 0 {
            seq![Act::SaveTheme(p.results[p.selected_index()].0)]
        } else {
            Seq::empty()
        },
    }
}

/// What an edit of the query leads to: the first theme that is found is selected and shown.
pub open spec fn theme_query_changed(app: App, text: Seq<char>) -> App {
    let results = name_results(text, theme_name_list());
    let p = Picker { query: text, results, ..app.theme_picker };
    if results.len() > 0 {
        theme_shown(App { theme_picker: p.with_selected(0), ..app }, results[0].0)
    } else {
        App { theme_picker: p, ..app }
    }
}

/// What an event leads to in the picker, with the cursor at `cursor` in the query: where the
/// cursor is then, and the rest.
pub open spec fn theme_picker_outcome(app: App, cursor: int, event: InputEvent) -> (int, Outcome) {
    let p = app.theme_picker;
    if cancels(event) {
        (cursor, redraw(theme_picker_closed(App { theme: app.saved_theme, ..app })))
    } else if is_enter(event) {
        (cursor, theme_chosen(app))
    } else {
        let e = edited(grapheme_clusters(p.query), cursor, event, pasted_clusters(event));
        if e.handled {
            (e.cursor, redraw(theme_query_changed(app, e.text)))
        } else {
            let page = app.panes.state_of(Window::ThemePicker).page_size as int;
            let edited_app = App { theme_picker: Picker { query: e.text, ..p }, ..app };
            let (next, moved) = edited_app.theme_picker.navigated(event, page);
            (
                e.cursor,
                if moved {
                    redraw(
                        theme_shown(App { theme_picker: next, ..edited_app }, next.selected->0),
                    )
                } else {
                    passed_on(edited_app)
                },
            )
        }
    }
}

/// Leaving the picker without a choice brings back the theme that was there before.
pub proof fn law_cancelling_restores_theme(app: App, cursor: int, event: InputEvent)
    requires
        cancels(event),
    ensures
        theme_picker_outcome(app, cursor, event).1.app.theme == app.saved_theme,
        theme_picker_outcome(app, cursor, event).1.acts == Seq::<Act>::empty(),
{
}

/// The picker for themes.
pub struct ThemePickerComponent {
    pub id: FlexBoxId,
    pub picker: FuzzyPicker,
    pub input_line: InputLine,
}

/// The labels of the results of the picker.
pub open spec fn theme_labels(app: App) -> Seq<Label> {
    let results = app.theme_picker.results;
    Seq::new(
        results.len(),
        |i: int| Label { text: results[i].0, accent: None, matched: results[i].1 },
    )
}

impl AppState {
    /// Shows the theme with a name, where there is one.
    pub fn show_theme(&mut self, name: &str)
        requires
            old(self).wf(),
        ensures
            final(self)@ == theme_shown(old(self)@, name@),
            final(self).files == old(self).files,
            final(self).wf(),
    {
        if let Some(theme) = HelixTheme::from_name(name) {
            self.theme = theme;
        }
    }
}

impl ThemePickerComponent {
    /// The picker, at the top of its list.
    pub fn new(id: FlexBoxId) -> (r: Self)
        ensures
            r.id == id,
            r.picker.scroll_offset == 0,
            r.input_line.cursor() == 0,
    {
        ThemePickerComponent { id, picker: FuzzyPicker::new(), input_line: InputLine::new() }
    }

    /// Closes the picker.
    fn close(state: &mut AppState)
        requires
            old(state).wf(),
        ensures
            final(state)@ == theme_picker_closed(old(state)@),
            final(state).files == old(state).files,
            final(state).wf(),
    {
        proof {
            lemma_panes_stay_wf(state@, Window::ThemePicker);
        }
        state.pane_manager.remove_window(&Window::ThemePicker);
        state.theme_picker.reset();
    }

    /// Whether an event leaves the picker without a choice.
    fn is_cancel(event: &InputEvent) -> (r: bool)
        ensures
            r == cancels(*event),
    {
        match event {
            InputEvent::Keyboard(KeyPress::Plain { key: Key::SpecialKey(SpecialKey::Esc) }) => true,
            InputEvent::Keyboard(KeyPress::WithModifiers { key, mask }) => *key == Key::Character(
                'c',
            ) && mask.ctrl_key_state == KeyState::Pressed,
            _ => false,
        }
    }

    /// Takes over what a query has found, and selects and shows the first of it.
    pub fn take_results(state: &mut AppState, results: Vec<(String, Vec<u32>)>)
        requires
            old(state).wf(),
        ensures
            final(state)@ == ({
                let found = result_ids(results@);
                let p = Picker { results: found, ..old(state)@.theme_picker };
                if found.len() > 0 {
                    theme_shown(
                        App { theme_picker: p.with_selected(0), ..old(state)@ },
                        found[0].0,
                    )
                } else {
                    App { theme_picker: p, ..old(state)@ }
                }
            }),
            final(state).files == old(state).files,
            final(state).wf(),
    {
        let ghost found = result_ids(results@);
        state.theme_picker.results = results;
        assert(found.len() == state.theme_picker.results@.len());
        if state.theme_picker.results.len() > 0 {
            state.theme_picker.select(0);
            let name = copy_of(state.theme_picker.results[0].0.as_str());
            assert(found[0].0 == name@);
            state.show_theme(name.as_str());
        }
    }

    /// Keeps the theme that is shown, and saves the selected name.
    fn keep_theme(state: &mut AppState, effects: &mut Vec<Effect>)
        requires
            old(state).wf(),
        ensures
            final(state)@ == theme_chosen(old(state)@).app,
            acts(final(effects)@) == acts(old(effects)@) + theme_chosen(old(state)@).acts,
            final(state).files == old(state).files,
            final(state).wf(),
    {
        let ghost before = acts(effects@);
        let ghost app = state@;
        assert(app.theme_picker.results.len() == state.theme_picker.results@.len());
        if state.theme_picker.results.len() > 0 {
            let selected: usize = state.theme_picker.resolve_selected_index();
            let name = copy_of(state.theme_picker.results[selected].0.as_str());
            assert(app.theme_picker.results[selected as int].0 == name@);
            perform(effects, Effect::SaveTheme(name));
        }
        assert(acts(effects@) =~= before + theme_chosen(app).acts);
        state.saved_theme = state.theme.copy();
        Self::close(state);
    }

    /// Edits the query or moves the selection.
    fn search_or_move(&mut self, state: &mut AppState, event: &InputEvent) -> (r: EventPropagation)
        requires
            old(state).wf(),
            old(state)@.theme_picker.query.len() + added_chars(*event) <= usize::MAX,
            !cancels(*event),
            !is_enter(*event),
        ensures
            ({
                let (cursor, o) = theme_picker_outcome(
                    old(state)@,
                    old(self).input_line.cursor() as int,
                    *event,
                );
                &&& final(self).input_line.cursor() == cursor
                &&& final(state)@ == o.app
                &&& r == o.flow
            }),
            final(self).id == old(self).id,
            final(self).picker == old(self).picker,
            final(state).files == old(state).files,
            final(state).wf(),
    {
        let ghost app = state@;
        let handled = self.input_line.handle_key(event, &mut state.theme_picker.query);
        let ghost text = state@.theme_picker.query;
        assert(state@.theme_picker =~= Picker { query: text, ..app.theme_picker });
        if handled {
            let results = run_theme_name_match(state.theme_picker.query.as_str());
            Self::take_results(state, results);
            return EventPropagation::ConsumedRender;
        }
        let page_size: usize = state.pane_manager.window_page_size(&Window::ThemePicker);
        match self.picker.handle_navigation(event, page_size, &mut state.theme_picker) {
            Some(flow) => {
                let name: Option<String> = match &state.theme_picker.selected {
                    Some(name) => Some(copy_of(name.as_str())),
                    None => None,
                };
                if let Some(name) = name {
                    state.show_theme(name.as_str());
                }
                flow
            },
            None => EventPropagation::Propagate,
        }
    }

    /// Handles an event.
    pub fn handle_event(
        &mut self,
        state: &mut AppState,
        event: &InputEvent,
        effects: &mut Vec<Effect>,
    ) -> (r: EventPropagation)
        requires
            old(state).wf(),
            old(state)@.theme_picker.query.len() + added_chars(*event) <= usize::MAX,
        ensures
            ({
                let (cursor, o) = theme_picker_outcome(
                    old(state)@,
                    old(self).input_line.cursor() as int,
                    *event,
                );
                &&& final(self).input_line.cursor() == cursor
                &&& final(state)@ == o.app
                &&& r == o.flow
                &&& acts(final(effects)@) == acts(old(effects)@) + o.acts
            }),
            final(self).id == old(self).id,
            final(self).picker == old(self).picker,
            final(state).files == old(state).files,
            final(state).wf(),
    {
        if Self::is_cancel(event) {
            state.theme = state.saved_theme.copy();
            Self::close(state);
            assert(acts(effects@) =~= acts(old(effects)@) + Seq::<Act>::empty());
            EventPropagation::ConsumedRender
        } else if enter_pressed(event) {
            Self::keep_theme(state, effects);
            EventPropagation::ConsumedRender
        } else {
            assert(acts(effects@) =~= acts(old(effects)@) + Seq::<Act>::empty());
            self.search_or_move(state, event)
        }
    }

    /// Draws the title bar, which holds the query. Returns how many rows it takes.
    pub fn render_title_row(
        &self,
        ops: &mut Vec<RenderOp>,
        pane_box: &FlexBox,
        focused: bool,
        theme: &HelixTheme,
        state: &AppState,
    ) -> (r: usize)
        requires
            state@.theme_picker.query.len() < usize::MAX,
        ensures
            r == split_on(state@.theme_picker.query, '\n').len(),
            draws(final(ops)@) == draws(old(ops)@) + query_title_draws(
                state@.theme_picker.query,
                self.input_line.cursor() as int,
                *pane_box,
                focused,
                theme@,
            ),
    {
        render_query_title(
            ops,
            &self.input_line,
            state.theme_picker.query.as_str(),
            pane_box,
            focused,
            theme,
        )
    }

    /// Draws the results in a box, and takes note of how far they are scrolled.
    pub fn render(&mut self, ops: &mut Vec<RenderOp>, state: &mut AppState, current_box: FlexBox)
        requires
            old(state).wf(),
            old(state)@.theme_picker.results.len()
                + current_box.style_adjusted_bounds_size.row_height <= usize::MAX,
        ensures
            ({
                let rows = current_box.style_adjusted_bounds_size.row_height;
                if rows == 0 {
                    &&& *final(self) == *old(self)
                    &&& final(state)@ == old(state)@
                    &&& draws(final(ops)@) == draws(old(ops)@)
                } else {
                    let p = old(state)@.theme_picker;
                    let scroll = scrolled_to(
                        old(self).picker.scroll_offset as int,
                        p.selected_index(),
                        p.results.len() as int,
                        rows as int,
                    );
                    &&& final(self).picker.scroll_offset == scroll
                    &&& final(self).id == old(self).id
                    &&& final(self).input_line == old(self).input_line
                    &&& final(state)@ == list_measured(
                        old(state)@,
                        Window::ThemePicker,
                        scroll as usize,
                        p.results.len() as usize,
                        rows as usize,
                    )
                    &&& draws(final(ops)@) == draws(old(ops)@) + (ResultLook {
                        colors: result_colors(old(state)@.theme),
                        origin: current_box.style_adjusted_origin_pos,
                        width: current_box.style_adjusted_bounds_size.col_width as int,
                        count: p.results.len() as int,
                        selected: p.selected_index(),
                        scroll,
                    }).rows_draws(theme_labels(old(state)@), rows as int)
                }
            }),
            final(state).files == old(state).files,
            final(state).wf(),
    {
        let origin = current_box.style_adjusted_origin_pos;
        let rows: u16 = current_box.style_adjusted_bounds_size.row_height;
        let columns: u16 = current_box.style_adjusted_bounds_size.col_width;
        if rows == 0 {
            return;
        }
        let ghost app = state@;
        let count: usize = state.theme_picker.results.len();
        assert(app.theme_picker.results.len() == count);
        let mut labels: Vec<(String, Option<RgbValue>)> = Vec::new();
        let mut i: usize = 0;
        while i < count
            invariant
                i <= count,
                state@ == app,
                count == state.theme_picker.results@.len(),
                labels@.len() == i,
                forall|j: int|
                    0 <= j < i ==> ((#[trigger] labels@[j]).0@, labels@[j].1) == (
                        app.theme_picker.results[j].0,
                        None::<RgbValue>,
                    ),
            decreases count - i,
        {
            let name = copy_of(state.theme_picker.results[i].0.as_str());
            assert(app.theme_picker.results[i as int].0 == name@);
            labels.push((name, None));
            i += 1;
        }
        assert(labels_of(labels@, app.theme_picker.results) =~= theme_labels(app));
        self.picker.render_results(
            ops,
            &state.theme,
            &state.theme_picker,
            origin,
            rows,
            columns,
            &labels,
        );
        state.note_list(Window::ThemePicker, self.picker.scroll_offset, count, rows as usize);
    }
}

} // verus!
