//! The picker for open windows and for files.

use vstd::prelude::*;
use crate::effect::{Act, Effect, acts, perform};
use crate::fuzzy_picker::{
    FuzzyPicker, Label, Picker, ResultLook, labels_of, result_colors, result_ids, scrolled_to,
};
use crate::geometry::FlexBox;
use crate::ids::FlexBoxId;
use crate::input::{EventPropagation, InputEvent, Key, KeyPress, SpecialKey};
use crate::input_line::{InputLine, added_chars, edited, pasted_clusters};
use crate::loader::FileKey;
use crate::number::{decimal, number_text};
use crate::pane_manager::{Panes, Window, WindowState, law_push_keeps_panes_valid, without};
use crate::paths::{relative_path, shown_path};
use crate::preview::{enter_pressed, is_enter};
use crate::query_row::{query_title_draws, render_query_title};
use crate::ranking::{
    Haystack, Ranking, is_blank, lemma_with_found_members, look_for, match_found, nothing_to_find,
    results_of, sorted_places, with_found, without_scores,
};
use crate::render::{RenderOp, RgbValue, draws, rgb};
use crate::session_time::Nanos;
use crate::state::{App, AppState, File, LoadedFile, files_of, lemma_still_wf};
use crate::terminal_pane::{Outcome, lemma_panes_stay_wf, passed_on, redraw};
use crate::text::{copy_of, grapheme_clusters, split_on};
use crate::theme::{HelixTheme, Theme};

verus! {

/// Whether a window can be picked while nothing is typed: a terminal, or a preview of a file that
/// is there.
pub open spec fn is_listed(files: Seq<File>, window: Window) -> bool {
    match window {
        Window::FilePreview(key) => !files[key.0 as int].removed,
        Window::Terminal(_) => true,
        _ => false,
    }
}

/// The windows among the first `n` of a stack that can be picked, each once, in their order.
pub open spec fn listed_windows(files: Seq<File>, stack: Seq<Window>, n: int) -> Seq<Window>
    decreases n,
{
    if n <= 0 {
        Seq::empty()
    } else {
        let before = listed_windows(files, stack, n - 1);
        if is_listed(files, stack[n - 1]) && !before.contains(stack[n - 1]) {
            before.push(stack[n - 1])
        } else {
            before
        }
    }
}

/// Windows as results without matching places.
pub open spec fn plain_results(windows: Seq<Window>) -> Seq<(Window, Seq<u32>)> {
    Seq::new(windows.len(), |i: int| (windows[i], Seq::empty()))
}

/// The open windows, as results.
pub open spec fn open_results(files: Seq<File>, stack: Seq<Window>) -> Seq<(Window, Seq<u32>)> {
    plain_results(listed_windows(files, stack, stack.len() as int))
}

/// Every listed window stands in the stack.
proof fn lemma_listed_in_stack(files: Seq<File>, stack: Seq<Window>, n: int)
    requires
        0 <= n <= stack.len(),
    ensures
        forall|i: int|
            0 <= i < listed_windows(files, stack, n).len() ==> stack.contains(
                #[trigger] listed_windows(files, stack, n)[i],
            ),
        listed_windows(files, stack, n).no_duplicates(),
    decreases n,
{
    if n > 0 {
        lemma_listed_in_stack(files, stack, n - 1);
        let before = listed_windows(files, stack, n - 1);
        let after = listed_windows(files, stack, n);
        assert forall|i: int| 0 <= i < after.len() implies stack.contains(#[trigger] after[i]) by {
            if i < before.len() {
                assert(after[i] == before[i]);
            } else {
                assert(stack[n - 1] == after[i]);
            }
        }
    }
}

/// Every window that is listed stands in the stack, and none is listed twice.
pub proof fn law_open_windows_are_listed_once(files: Seq<File>, stack: Seq<Window>)
    ensures
        listed_windows(files, stack, stack.len() as int).no_duplicates(),
        forall|w: Window| #[trigger]
            listed_windows(files, stack, stack.len() as int).contains(w) ==> stack.contains(w)
                && is_listed(files, w),
{
    let n = stack.len() as int;
    lemma_listed_in_stack(files, stack, n);
    lemma_listed(files, stack, n);
    let all = listed_windows(files, stack, n);
    assert forall|w: Window| #[trigger] all.contains(w) implies stack.contains(w) && is_listed(
        files,
        w,
    ) by {
        let i = choose|i: int| 0 <= i < all.len() && all[i] == w;
        assert(all[i] == w);
    }
}

proof fn lemma_listed(files: Seq<File>, stack: Seq<Window>, n: int)
    requires
        0 <= n <= stack.len(),
    ensures
        forall|i: int|
            0 <= i < listed_windows(files, stack, n).len() ==> is_listed(
                files,
                #[trigger] listed_windows(files, stack, n)[i],
            ),
    decreases n,
{
    if n > 0 {
        lemma_listed(files, stack, n - 1);
        let before = listed_windows(files, stack, n - 1);
        let after = listed_windows(files, stack, n);
        assert forall|i: int| 0 <= i < after.len() implies is_listed(
            files,
            #[trigger] after[i],
        ) by {
            if i < before.len() {
                assert(after[i] == before[i]);
            }
        }
    }
}

/// The files among the first `n` that match a query, the best first. A file whose scores cannot be
/// added up is left out, and the others are found.
pub open spec fn ranked_files(query: Seq<char>, files: Seq<File>, root: Seq<char>, n: int) -> Seq<
    (Window, u32, Seq<u32>),
>
    decreases n,
{
    if n <= 0 {
        Seq::empty()
    } else {
        let before = ranked_files(query, files, root, n - 1);
        if files[n - 1].removed {
            before
        } else {
            match match_found(query, shown_path(files[n - 1].path, root), Haystack::Path) {
                Some((score, places)) => with_found(
                    before,
                    (
                        Window::FilePreview(FileKey((n - 1) as usize)),
                        score,
                        sorted_places(places, places.len() as int),
                    ),
                ),
                None => before,
            }
        }
    }
}

/// What a query finds: the open windows where it holds nothing to search for, and else the files
/// that match it.
pub open spec fn query_results(
    query: Seq<char>,
    files: Seq<File>,
    root: Seq<char>,
    stack: Seq<Window>,
) -> Seq<(Window, Seq<u32>)> {
    if nothing_to_find(query) {
        open_results(files, stack)
    } else {
        without_scores(ranked_files(query, files, root, files.len() as int))
    }
}

/// Every file that is found is in the list.
proof fn lemma_ranked_in_list(query: Seq<char>, files: Seq<File>, root: Seq<char>, n: int)
    requires
        0 <= n <= files.len(),
        files.len() <= usize::MAX,
    ensures
        forall|i: int|
            0 <= i < ranked_files(query, files, root, n).len() ==> ((
            #[trigger] ranked_files(query, files, root, n)[i]).0 matches Window::FilePreview(key)
                ==> key.0 < n),
    decreases n,
{
    if n > 0 {
        lemma_ranked_in_list(query, files, root, n - 1);
        let before = ranked_files(query, files, root, n - 1);
        if !files[n - 1].removed {
            if let Some((score, places)) = match_found(
                query,
                shown_path(files[n - 1].path, root),
                Haystack::Path,
            ) {
                let x = (
                    Window::FilePreview(FileKey((n - 1) as usize)),
                    score,
                    sorted_places(places, places.len() as int),
                );
                lemma_with_found_members(before, x);
                let after = ranked_files(query, files, root, n);
                assert forall|i: int| 0 <= i < after.len() implies ((
                #[trigger] after[i]).0 matches Window::FilePreview(key) ==> key.0 < n) by {
                    if after[i] != x {
                        assert(before.contains(after[i]));
                        let k = choose|k: int| 0 <= k < before.len() && before[k] == after[i];
                        assert(before[k] == after[i]);
                    }
                }
            }
        }
    }
}

/// Whether a query finds a file: the file is there, and its path matches.
pub open spec fn is_found(query: Seq<char>, file: File, root: Seq<char>) -> bool {
    !file.removed && match_found(query, shown_path(file.path, root), Haystack::Path) is Some
}

/// Among the first `n` files, those are found that match, and no others.
proof fn lemma_matching_files_ranked(
    query: Seq<char>,
    files: Seq<File>,
    root: Seq<char>,
    n: int,
    i: int,
)
    requires
        0 <= n <= files.len(),
        0 <= i < files.len(),
        files.len() <= usize::MAX,
    ensures
        (exists|j: int|
            0 <= j < ranked_files(query, files, root, n).len() && (#[trigger] ranked_files(
                query,
                files,
                root,
                n,
            )[j]).0 == Window::FilePreview(FileKey(i as usize))) <==> i < n && is_found(
            query,
            files[i],
            root,
        ),
    decreases n,
{
    if n > 0 {
        lemma_matching_files_ranked(query, files, root, n - 1, i);
        let before = ranked_files(query, files, root, n - 1);
        let after = ranked_files(query, files, root, n);
        let wanted = Window::FilePreview(FileKey(i as usize));
        if is_found(query, files[n - 1], root) {
            let (score, places) = match_found(
                query,
                shown_path(files[n - 1].path, root),
                Haystack::Path,
            )->0;
            let x = (
                Window::FilePreview(FileKey((n - 1) as usize)),
                score,
                sorted_places(places, places.len() as int),
            );
            lemma_with_found_members(before, x);
            if i == n - 1 {
                let j = choose|j: int| 0 <= j < after.len() && after[j] == x;
                assert(after[j].0 == wanted);
            } else if is_found(query, files[i], root) && i < n {
                let k = choose|k: int| 0 <= k < before.len() && (#[trigger] before[k]).0 == wanted;
                assert(before.contains(before[k]));
                let j = choose|j: int| 0 <= j < after.len() && after[j] == before[k];
                assert(after[j].0 == wanted);
            } else {
                assert forall|j: int| 0 <= j < after.len() implies (#[trigger] after[j]).0
                    != wanted by {
                    if after[j] != x {
                        let k = choose|k: int| 0 <= k < before.len() && before[k] == after[j];
                        assert(before[k].0 == after[j].0);
                    }
                }
            }
        }
    }
}

/// A query finds a file where its path matches, whatever the other files are called.
pub proof fn law_matching_files_are_found(
    query: Seq<char>,
    files: Seq<File>,
    root: Seq<char>,
    stack: Seq<Window>,
    i: int,
)
    requires
        !nothing_to_find(query),
        0 <= i < files.len() <= usize::MAX,
    ensures
        (exists|j: int|
            0 <= j < query_results(query, files, root, stack).len() && (#[trigger] query_results(
                query,
                files,
                root,
                stack,
            )[j]).0 == Window::FilePreview(FileKey(i as usize))) <==> is_found(
            query,
            files[i],
            root,
        ),
{
    let n = files.len() as int;
    let found = ranked_files(query, files, root, n);
    let results = query_results(query, files, root, stack);
    let wanted = Window::FilePreview(FileKey(i as usize));
    lemma_matching_files_ranked(query, files, root, n, i);
    if is_found(query, files[i], root) {
        let j = choose|j: int| 0 <= j < found.len() && (#[trigger] found[j]).0 == wanted;
        assert(results[j].0 == wanted);
    } else {
        assert forall|j: int| 0 <= j < results.len() implies (#[trigger] results[j]).0
            != wanted by {
            assert(results[j].0 == found[j].0);
        }
    }
}

/// Foreground color for terminal rows in the picker: the first of some vivid colours of the theme
/// that differs from that of text, so that terminal rows are never identical to file rows.
pub open spec fn accent_of(theme: Theme) -> RgbValue {
    if accents(theme, "function"@) {
        theme.scope_color("function"@)->0
    } else if accents(theme, "string"@) {
        theme.scope_color("string"@)->0
    } else if accents(theme, "keyword"@) {
        theme.scope_color("keyword"@)->0
    } else if accents(theme, "type"@) {
        theme.scope_color("type"@)->0
    } else {
        rgb(137, 180, 250)
    }
}

/// Whether a scope has a colour that differs from that of text.
pub open spec fn accents(theme: Theme, scope: Seq<char>) -> bool {
    theme.scope_color(scope) is Some && theme.scope_color(scope) != theme.fg("ui.text"@)
}

/// The colour of terminal rows is not that of text, unless the theme has none that differs and its
/// text has the colour that is used instead.
pub proof fn law_accent_differs_from_text(theme: Theme)
    requires
        theme.fg("ui.text"@) != Some(rgb(137, 180, 250)) || accents(theme, "function"@) || accents(
            theme,
            "string"@,
        ) || accents(theme, "keyword"@) || accents(theme, "type"@),
    ensures
        Some(accent_of(theme)) != theme.fg("ui.text"@),
{
}

/// Foreground color for terminal rows in the picker.
pub fn terminal_accent(theme: &HelixTheme) -> (r: RgbValue)
    ensures
        r == accent_of(theme@),
{
    let text = theme.ui_fg("ui.text");
    let function = theme.color_for_scope("function");
    if let Some(color) = function {
        if function != text {
            return color;
        }
    }
    let string = theme.color_for_scope("string");
    if let Some(color) = string {
        if string != text {
            return color;
        }
    }
    let keyword = theme.color_for_scope("keyword");
    if let Some(color) = keyword {
        if keyword != text {
            return color;
        }
    }
    let kind = theme.color_for_scope("type");
    if let Some(color) = kind {
        if kind != text {
            return color;
        }
    }
    RgbValue::new(137, 180, 250)
}

/// The picker for open windows and for files.
pub struct FileNamePickerComponent {
    pub id: FlexBoxId,
    pub picker: FuzzyPicker,
    pub input_line: InputLine,
}

/// Whether a list of results holds a window.
fn holds_window(results: &Vec<(Window, Vec<u32>)>, window: Window) -> (r: bool)
    ensures
        r == exists|i: int| 0 <= i < results@.len() && (#[trigger] results@[i]).0 == window,
{
    let mut i: usize = 0;
    while i < results.len()
        invariant
            i <= results@.len(),
            forall|j: int| 0 <= j < i ==> (#[trigger] results@[j]).0 != window,
        decreases results@.len() - i,
    {
        if results[i].0 == window {
            return true;
        }
        i += 1;
    }
    false
}

/// Searches the files for a query, or lists the open windows where it holds nothing to search
/// for.
pub fn run_file_name_match(
    query: &str,
    files: &Vec<LoadedFile>,
    root: &str,
    window_stack: &Vec<Window>,
) -> (r: Vec<(Window, Vec<u32>)>)
    requires
        forall|i: int|
            0 <= i < window_stack@.len() ==> ((#[trigger] window_stack@[i]) matches Window::FilePreview(
                key,
            ) ==> key.0 < files@.len()),
    ensures
        results_of(r@) == query_results(query@, files_of(files@), root@, window_stack@),
        forall|i: int|
            0 <= i < r@.len() ==> ((#[trigger] r@[i]).0 matches Window::FilePreview(key) ==> key.0
                < files@.len()),
{
    if is_blank(query) {
        return FileNamePickerComponent::open_previews_results(files, window_stack);
    }
    let ghost all = files_of(files@);
    let total: usize = files.len();
    let mut ranking: Ranking<Window> = Ranking::new();
    let mut i: usize = 0;
    while i < total
        invariant
            i <= total,
            total == files@.len(),
            all == files_of(files@),
            !nothing_to_find(query@),
            ranking@ == ranked_files(query@, all, root@, i as int),
        decreases total - i,
    {
        assert(all[i as int] == files@[i as int]@);
        if !files[i].removed {
            let rel = relative_path(files[i].path.as_str(), root);
            match look_for(query, rel.as_str(), Haystack::Path) {
                Some((score, places)) => {
                    ranking = ranking.put(Window::FilePreview(FileKey(i)), score, &places);
                },
                None => {},
            }
        }
        i += 1;
    }
    proof {
        lemma_ranked_in_list(query@, all, root@, all.len() as int);
    }
    let ghost ranked = ranking@;
    let results = ranking.finish();
    proof {
        assert forall|i: int| 0 <= i < results@.len() implies ((
        #[trigger] results@[i]).0 matches Window::FilePreview(key) ==> key.0 < files@.len()) by {
            assert(results_of(results@).len() == without_scores(ranked).len());
            assert(results_of(results@)[i].0 == results@[i].0);
            assert(without_scores(ranked)[i].0 == ranked[i].0);
        }
    }
    results
}

impl FileNamePickerComponent {
    /// The picker, at the top of its list.
    pub fn new(id: FlexBoxId) -> (r: Self)
        ensures
            r.id == id,
            r.picker.scroll_offset == 0,
            r.input_line.cursor() == 0,
    {
        FileNamePickerComponent { id, picker: FuzzyPicker::new(), input_line: InputLine::new() }
    }

    /// The open windows that can be picked, each once, in the order of the stack.
    pub fn open_previews_results(files: &Vec<LoadedFile>, window_stack: &Vec<Window>) -> (r: Vec<
        (Window, Vec<u32>),
    >)
        requires
            forall|i: int|
                0 <= i < window_stack@.len() ==> ((#[trigger] window_stack@[i]) matches Window::FilePreview(
                    key,
                ) ==> key.0 < files@.len()),
        ensures
            results_of(r@) == open_results(files_of(files@), window_stack@),
            forall|i: int|
                0 <= i < r@.len() ==> ((#[trigger] r@[i]).0 matches Window::FilePreview(key)
                    ==> key.0 < files@.len()),
    {
        let ghost all = files_of(files@);
        let mut results: Vec<(Window, Vec<u32>)> = Vec::new();
        let mut i: usize = 0;
        assert(results_of(results@) =~= plain_results(listed_windows(all, window_stack@, 0)));
        while i < window_stack.len()
            invariant
                i <= window_stack@.len(),
                all == files_of(files@),
                forall|j: int|
                    0 <= j < window_stack@.len() ==> ((
                    #[trigger] window_stack@[j]) matches Window::FilePreview(key) ==> key.0
                        < files@.len()),
                results_of(results@) == plain_results(
                    listed_windows(all, window_stack@, i as int),
                ),
            decreases window_stack@.len() - i,
        {
            let window = window_stack[i];
            let ghost before = listed_windows(all, window_stack@, i as int);
            let listed = match window {
                Window::FilePreview(key) => {
                    assert(window_stack@[i as int] == window);
                    assert(all[key.0 as int] == files@[key.0 as int]@);
                    !files[key.0].removed
                },
                Window::Terminal(_) => true,
                _ => false,
            };
            let seen = holds_window(&results, window);
            proof {
                assert(results@.len() == before.len()) by {
                    assert(results_of(results@).len() == plain_results(before).len());
                }
                assert forall|j: int| 0 <= j < before.len() implies results@[j].0 == before[j] by {
                    assert(results_of(results@)[j] == plain_results(before)[j]);
                }
                assert(seen == before.contains(window)) by {
                    if seen {
                        let j = choose|j: int|
                            0 <= j < results@.len() && (#[trigger] results@[j]).0 == window;
                        assert(before[j] == window);
                    }
                    if before.contains(window) {
                        let j = choose|j: int| 0 <= j < before.len() && before[j] == window;
                        assert(results@[j].0 == window);
                    }
                }
            }
            let ghost so_far = results@;
            if listed && !seen {
                let none: Vec<u32> = Vec::new();
                assert(none@ =~= Seq::<u32>::empty());
                results.push((window, none));
                proof {
                    let after = listed_windows(all, window_stack@, i + 1);
                    assert(results_of(results@) =~= plain_results(after)) by {
                        assert forall|j: int| 0 <= j < so_far.len() implies results_of(results@)[j]
                            == plain_results(after)[j] by {
                            assert(results_of(so_far)[j] == plain_results(before)[j]);
                        }
                    }
                }
            }
            i += 1;
        }
        proof {
            lemma_listed_in_stack(all, window_stack@, window_stack@.len() as int);
            let windows = listed_windows(all, window_stack@, window_stack@.len() as int);
            assert forall|i: int| 0 <= i < results@.len() implies ((
            #[trigger] results@[i]).0 matches Window::FilePreview(key) ==> key.0
                < files@.len()) by {
                assert(results_of(results@)[i] == plain_results(windows)[i]);
                assert(window_stack@.contains(windows[i]));
                let j = choose|j: int|
                    0 <= j < window_stack@.len() && window_stack@[j] == windows[i];
                assert(window_stack@[j] == windows[i]);
            }
        }
        results
    }

    /// What the query of the picker finds.
    pub fn compute_results(state: &AppState) -> (r: Vec<(Window, Vec<u32>)>)
        requires
            state.wf(),
        ensures
            results_of(r@) == if state@.file_name_picker.query.len() == 0 {
                open_results(state@.files, state@.panes.stack)
            } else {
                query_results(
                    state@.file_name_picker.query,
                    state@.files,
                    state@.root,
                    state@.panes.stack,
                )
            },
            forall|i: int|
                0 <= i < r@.len() ==> ((#[trigger] r@[i]).0 matches Window::FilePreview(key)
                    ==> key.0 < state.files@.len()),
    {
        proof {
            lemma_stack_in_list(state);
        }
        if state.file_name_picker.query.as_str().is_empty() {
            Self::open_previews_results(&state.files, &state.pane_manager.window_stack)
        } else {
            run_file_name_match(
                state.file_name_picker.query.as_str(),
                &state.files,
                state.root.as_str(),
                &state.pane_manager.window_stack,
            )
        }
    }
}

/// The previews of the stack are of files in the list.
pub proof fn lemma_stack_in_list(state: &AppState)
    requires
        state.wf(),
    ensures
        forall|i: int|
            0 <= i < state.pane_manager.window_stack@.len() ==> ((
            #[trigger] state.pane_manager.window_stack@[i]) matches Window::FilePreview(key)
                ==> key.0 < state.files@.len()),
{
    assert forall|i: int| 0 <= i < state.pane_manager.window_stack@.len() implies ((
    #[trigger] state.pane_manager.window_stack@[i]) matches Window::FilePreview(key) ==> key.0
        < state.files@.len()) by {
        assert(state@.panes.stack[i] == state.pane_manager.window_stack@[i]);
    }
}

impl AppState {
    /// Replaces what the picker for files has found.
    pub fn set_file_results(&mut self, results: Vec<(Window, Vec<u32>)>)
        requires
            old(self).wf(),
            forall|i: int|
                0 <= i < results@.len() ==> ((
                #[trigger] results@[i]).0 matches Window::FilePreview(key) ==> key.0 < old(
                    self,
                ).files@.len()),
        ensures
            final(self)@ == (App {
                file_name_picker: Picker {
                    results: results_of(results@),
                    ..old(self)@.file_name_picker
                },
                ..old(self)@
            }),
            final(self).files == old(self).files,
            final(self).wf(),
    {
        self.file_name_picker.results = results;
        proof {
            assert(result_ids(results@) =~= results_of(results@));
            assert forall|i: int| 0 <= i < self@.file_name_picker.results.len() implies ((
            #[trigger] self@.file_name_picker.results[i]).0 matches Window::FilePreview(key)
                ==> key.0 < self@.files.len()) by {
                assert(result_ids(results@)[i].0 == results@[i].0);
            }
        }
    }

    /// Puts a window in front, with the focus.
    pub fn focus_new_window(&mut self, window: Window)
        requires
            old(self).wf(),
            window matches Window::FilePreview(key) ==> key.0 < old(self).files@.len(),
        ensures
            final(self)@ == (App { panes: focused_in_front(old(self)@.panes, window), ..old(self)@ }),
            final(self).files == old(self).files,
            final(self).wf(),
    {
        self.pane_manager.push_window(window);
        self.pane_manager.focused_window = Some(window);
        proof {
            lemma_front_stays_wf(old(self)@, window);
        }
    }
}

/// A window stands in front, with the focus.
pub open spec fn focused_in_front(panes: Panes, window: Window) -> Panes {
    Panes { focused: Some(window), ..panes.pushed(window) }
}

/// A window in front leaves the other previews where their files are.
pub proof fn lemma_front_stays_wf(app: App, window: Window)
    requires
        app.wf(),
        window matches Window::FilePreview(key) ==> key.0 < app.files.len(),
    ensures
        app.panes.pushed(window).wf(),
        forall|i: int|
            0 <= i < app.panes.pushed(window).stack.len() ==> ((
            #[trigger] app.panes.pushed(window).stack[i]) matches Window::FilePreview(key)
                ==> key.0 < app.files.len()),
{
    let stack = app.panes.stack;
    let after = app.panes.pushed(window).stack;
    law_push_keeps_panes_valid(app.panes, window);
    stack.index_of_first_ensures(window);
    assert forall|i: int| 0 <= i < after.len() implies ((
    #[trigger] after[i]) matches Window::FilePreview(key) ==> key.0 < app.files.len()) by {
        if i > 0 {
            let rest = without(stack, window);
            assert(after[i] == rest[i - 1]);
            match stack.index_of_first(window) {
                Some(k) => {
                    let j = if i - 1 < k {
                        i - 1
                    } else {
                        i
                    };
                    assert(rest[i - 1] == stack[j]);
                },
                None => {
                    assert(rest[i - 1] == stack[i - 1]);
                },
            }
        }
    }
}

/// The picker is closed: its window and what was typed are gone.
pub open spec fn picker_closed(app: App) -> App {
    App {
        panes: app.panes.removed(Window::FileNamePicker),
        file_name_picker: Picker::blank(),
        ..app
    }
}

/// Whether a terminal is scrolled back into its history.
pub open spec fn is_scrolled_back(app: App, id: usize) -> bool {
    app.terminals.contains_key(id) && app.terminals[id].scroll_offset > 0
}

/// A window that was picked is opened. A terminal takes the keyboard, unless it is scrolled back
/// into its history; the tokens of a file are asked for.
pub open spec fn window_opened(app: App, window: Window) -> (App, Seq<Act>) {
    let next = App { panes: focused_in_front(app.panes, window), ..app };
    match window {
        Window::FilePreview(key) => (next, seq![Act::RequestTokens(key.0)]),
        Window::Terminal(id) => (
            App { terminal_grabbed: !is_scrolled_back(app, id), ..next },
            app.focus_acts(app.panes.focused, Some(window)),
        ),
        _ => (app, Seq::empty()),
    }
}

/// What the Enter key does: the selected window is opened, and the picker closed.
pub open spec fn file_picked(app: App, now: Nanos) -> Outcome {
    let p = app.file_name_picker;
    if p.results.len() == 0 {
        redraw(app)
    } else {
        let (next, acts) = window_opened(app, p.results[p.selected_index()].0);
        Outcome {
            app: picker_closed(next).dirty(now),
            flow: EventPropagation::ConsumedRender,
            acts,
        }
    }
}

/// What an edit of the query leads to: the open windows are listed where it is empty, and else the
/// files are to be searched.
pub open spec fn query_changed(app: App, text: Seq<char>) -> Outcome {
    let p = Picker { query: text, ..app.file_name_picker };
    if text.len() == 0 {
        redraw(
            App {
                file_name_picker: Picker {
                    results: open_results(app.files, app.panes.stack),
                    ..p
                },
                ..app
            },
        )
    } else {
        Outcome {
            app: App { file_name_picker: p, ..app },
            flow: EventPropagation::ConsumedRender,
            acts: seq![Act::MatchFiles],
        }
    }
}

/// Whether an event is the Esc key.
pub open spec fn is_esc(event: InputEvent) -> bool {
    event matches InputEvent::Keyboard(KeyPress::Plain { key: Key::SpecialKey(SpecialKey::Esc) })
}

/// Whether an event is the Esc key.
pub fn esc_pressed(event: &InputEvent) -> (r: bool)
    ensures
        r == is_esc(*event),
{
    match event {
        InputEvent::Keyboard(KeyPress::Plain { key: Key::SpecialKey(SpecialKey::Esc) }) => true,
        _ => false,
    }
}

/// What an event leads to in the picker, with the cursor at `cursor` in the query: where the
/// cursor is then, and the rest.
pub open spec fn file_picker_outcome(app: App, cursor: int, event: InputEvent, now: Nanos) -> (
    int,
    Outcome,
) {
    let p = app.file_name_picker;
    if is_esc(event) {
        (cursor, redraw(picker_closed(app)))
    } else if is_enter(event) {
        (cursor, file_picked(app, now))
    } else {
        let e = edited(grapheme_clusters(p.query), cursor, event, pasted_clusters(event));
        if e.handled {
            (e.cursor, query_changed(app, e.text))
        } else {
            let page = app.panes.state_of(Window::FileNamePicker).page_size as int;
            let edited_app = App { file_name_picker: Picker { query: e.text, ..p }, ..app };
            let (next, moved) = edited_app.file_name_picker.navigated(event, page);
            (
                e.cursor,
                if moved {
                    redraw(App { file_name_picker: next, ..edited_app })
                } else {
                    passed_on(edited_app)
                },
            )
        }
    }
}

impl FileNamePickerComponent {
    /// Opens a window that was picked.
    fn open_window(state: &mut AppState, window: Window, effects: &mut Vec<Effect>)
        requires
            old(state).wf(),
            window matches Window::FilePreview(key) ==> key.0 < old(state).files@.len(),
        ensures
            final(state)@ == window_opened(old(state)@, window).0,
            acts(final(effects)@) == acts(old(effects)@) + window_opened(old(state)@, window).1,
            final(state).files == old(state).files,
            final(state).wf(),
    {
        let ghost before = acts(effects@);
        let was = state.pane_manager.focused_window;
        match window {
            Window::FilePreview(key) => {
                state.focus_new_window(window);
                perform(effects, Effect::RequestTokens(key.0));
            },
            Window::Terminal(id) => {
                state.focus_new_window(window);
                let scrolled = match state.terminal_panes.get(&id) {
                    Some(pane) => pane.scroll_offset > 0,
                    None => false,
                };
                state.terminal_grabbed = !scrolled;
                state.notify_terminal_focus_change(was, Some(window), effects);
            },
            _ => {},
        }
        assert(acts(effects@) =~= before + window_opened(old(state)@, window).1);
    }

    /// Closes the picker.
    fn close(state: &mut AppState)
        requires
            old(state).wf(),
        ensures
            final(state)@ == picker_closed(old(state)@),
            final(state).files == old(state).files,
            final(state).wf(),
    {
        proof {
            lemma_panes_stay_wf(state@, Window::FileNamePicker);
        }
        state.pane_manager.remove_window(&Window::FileNamePicker);
        state.file_name_picker.reset();
    }

    /// Opens the selected window, and closes the picker.
    fn pick(state: &mut AppState, now: Nanos, effects: &mut Vec<Effect>)
        requires
            old(state).wf(),
        ensures
            final(state)@ == file_picked(old(state)@, now).app,
            acts(final(effects)@) == acts(old(effects)@) + file_picked(old(state)@, now).acts,
            final(state).files == old(state).files,
            final(state).wf(),
    {
        let ghost app = state@;
        assert(app.file_name_picker.results.len() == state.file_name_picker.results@.len());
        if state.file_name_picker.results.len() == 0 {
            assert(acts(effects@) =~= acts(old(effects)@) + Seq::<Act>::empty());
            return;
        }
        let selected: usize = state.file_name_picker.resolve_selected_index();
        let window = state.file_name_picker.results[selected].0;
        assert(app.file_name_picker.results[selected as int].0 == window);
        Self::open_window(state, window, effects);
        Self::close(state);
        state.mark_session_dirty(now);
    }

    /// Takes note that the query was edited.
    fn search(state: &mut AppState, effects: &mut Vec<Effect>)
        requires
            old(state).wf(),
        ensures
            ({
                let o = query_changed(old(state)@, old(state)@.file_name_picker.query);
                &&& final(state)@ == o.app
                &&& acts(final(effects)@) == acts(old(effects)@) + o.acts
            }),
            final(state).files == old(state).files,
            final(state).wf(),
    {
        if state.file_name_picker.query.as_str().is_empty() {
            proof {
                lemma_stack_in_list(state);
            }
            let results = Self::open_previews_results(
                &state.files,
                &state.pane_manager.window_stack,
            );
            state.set_file_results(results);
            assert(acts(effects@) =~= acts(old(effects)@) + Seq::<Act>::empty());
        } else {
            perform(effects, Effect::MatchFiles);
            assert(acts(effects@) =~= acts(old(effects)@) + seq![Act::MatchFiles]);
        }
    }

    /// Handles an event.
    pub fn handle_event(
        &mut self,
        state: &mut AppState,
        event: &InputEvent,
        now: Nanos,
        effects: &mut Vec<Effect>,
    ) -> (r: EventPropagation)
        requires
            old(state).wf(),
            old(state)@.file_name_picker.query.len() + added_chars(*event) <= usize::MAX,
        ensures
            ({
                let (cursor, o) = file_picker_outcome(
                    old(state)@,
                    old(self).input_line.cursor() as int,
                    *event,
                    now,
                );
                &&& final(self).input_line.cursor() == cursor
                &&& final(state)@ == o.app
                &&& r == o.flow
                &&& acts(final(effects)@) == acts(old(effects)@) + o.acts
            }),
            final(self).id == old(self).id,
            final(self).picker == old(self).picker,
            final(state).files == old(state).files,
            final(state).wf(),
    {
        let ghost before = acts(effects@);
        let ghost app = state@;
        assert(before + Seq::<Act>::empty() =~= before);
        if esc_pressed(event) {
            Self::close(state);
            return EventPropagation::ConsumedRender;
        }
        if enter_pressed(event) {
            Self::pick(state, now, effects);
            return EventPropagation::ConsumedRender;
        }
        let handled = self.input_line.handle_key(event, &mut state.file_name_picker.query);
        let ghost text = state@.file_name_picker.query;
        assert(state@.file_name_picker =~= Picker { query: text, ..app.file_name_picker });
        if handled {
            Self::search(state, effects);
            return EventPropagation::ConsumedRender;
        }
        let page_size: usize = state.pane_manager.window_page_size(&Window::FileNamePicker);
        match self.picker.handle_navigation(event, page_size, &mut state.file_name_picker) {
            Some(flow) => flow,
            None => EventPropagation::Propagate,
        }
    }

    /// Draws the title bar, which holds the query. Returns how many rows it takes.
    pub fn render_title_row(
        &self,
        ops: &mut Vec<RenderOp>,
        pane_box: &FlexBox,
        focused: bool,
        theme: &HelixTheme,
        state: &AppState,
    ) -> (r: usize)
        requires
            state@.file_name_picker.query.len() < usize::MAX,
        ensures
            r == split_on(state@.file_name_picker.query, '\n').len(),
            draws(final(ops)@) == draws(old(ops)@) + query_title_draws(
                state@.file_name_picker.query,
                self.input_line.cursor() as int,
                *pane_box,
                focused,
                theme@,
            ),
    {
        render_query_title(
            ops,
            &self.input_line,
            state.file_name_picker.query.as_str(),
            pane_box,
            focused,
            theme,
        )
    }

    /// The text and the accent of a result.
    fn label(state: &AppState, window: Window) -> (r: (String, Option<RgbValue>))
        requires
            state.wf(),
            window matches Window::FilePreview(key) ==> key.0 < state.files@.len(),
        ensures
            (r.0@, r.1) == window_label(state@, window),
    {
        match window {
            Window::FilePreview(key) => {
                assert(state@.files[key.0 as int] == state.files@[key.0 as int]@);
                (
                    relative_path(state.files[key.0].path.as_str(), state.root.as_str()),
                    None,
                )
            },
            Window::Terminal(id) => {
                let mut title = copy_of("Terminal ");
                title.append(number_text(id).as_str());
                if let Some(pane) = state.terminal_panes.get(&id) {
                    if let Some(own) = &pane.title {
                        title = copy_of(own.as_str());
                    }
                }
                (title, Some(terminal_accent(&state.theme)))
            },
            _ => (String::new(), None),
        }
    }

    /// Draws the results in a box, and takes note of how far they are scrolled.
    pub fn render(&mut self, ops: &mut Vec<RenderOp>, state: &mut AppState, current_box: FlexBox)
        requires
            old(state).wf(),
            old(state)@.file_name_picker.results.len()
                + current_box.style_adjusted_bounds_size.row_height <= usize::MAX,
        ensures
            ({
                let rows = current_box.style_adjusted_bounds_size.row_height;
                if rows == 0 {
                    &&& *final(self) == *old(self)
                    &&& final(state)@ == old(state)@
                    &&& draws(final(ops)@) == draws(old(ops)@)
                } else {
                    let p = old(state)@.file_name_picker;
                    let scroll = scrolled_to(
                        old(self).picker.scroll_offset as int,
                        p.selected_index(),
                        p.results.len() as int,
                        rows as int,
                    );
                    &&& final(self).picker.scroll_offset == scroll
                    &&& final(self).id == old(self).id
                    &&& final(self).input_line == old(self).input_line
                    &&& final(state)@ == list_measured(
                        old(state)@,
                        Window::FileNamePicker,
                        scroll as usize,
                        p.results.len() as usize,
                        rows as usize,
                    )
                    &&& draws(final(ops)@) == draws(old(ops)@) + (ResultLook {
                        colors: result_colors(old(state)@.theme),
                        origin: current_box.style_adjusted_origin_pos,
                        width: current_box.style_adjusted_bounds_size.col_width as int,
                        count: p.results.len() as int,
                        selected: p.selected_index(),
                        scroll,
                    }).rows_draws(file_labels(old(state)@), rows as int)
                }
            }),
            final(state).files == old(state).files,
            final(state).wf(),
    {
        let origin = current_box.style_adjusted_origin_pos;
        let rows: u16 = current_box.style_adjusted_bounds_size.row_height;
        let columns: u16 = current_box.style_adjusted_bounds_size.col_width;
        if rows == 0 {
            return;
        }
        let ghost app = state@;
        let count: usize = state.file_name_picker.results.len();
        assert(app.file_name_picker.results.len() == count);
        let mut labels: Vec<(String, Option<RgbValue>)> = Vec::new();
        let mut i: usize = 0;
        while i < count
            invariant
                i <= count,
                state.wf(),
                state@ == app,
                count == state.file_name_picker.results@.len(),
                labels@.len() == i,
                forall|j: int|
                    0 <= j < i ==> ((#[trigger] labels@[j]).0@, labels@[j].1) == window_label(
                        app,
                        app.file_name_picker.results[j].0,
                    ),
            decreases count - i,
        {
            let window = state.file_name_picker.results[i].0;
            assert(app.file_name_picker.results[i as int].0 == window);
            labels.push(Self::label(state, window));
            i += 1;
        }
        assert(labels_of(labels@, app.file_name_picker.results) =~= file_labels(app));
        self.picker.render_results(
            ops,
            &state.theme,
            &state.file_name_picker,
            origin,
            rows,
            columns,
            &labels,
        );
        state.note_list(
            Window::FileNamePicker,
            self.picker.scroll_offset,
            count,
            rows as usize,
        );
    }
}

/// The text and the accent of a result: the path of a file, and the title of a terminal.
pub open spec fn window_label(app: App, window: Window) -> (Seq<char>, Option<RgbValue>) {
    match window {
        Window::FilePreview(key) => (
            shown_path(app.files[key.0 as int].path, app.root),
            None,
        ),
        Window::Terminal(id) => (
            if app.terminals.contains_key(id) && app.terminals[id].title is Some {
                app.terminals[id].title->0
            } else {
                "Terminal "@ + decimal(id as int)
            },
            Some(accent_of(app.theme)),
        ),
        _ => (Seq::empty(), None),
    }
}

/// The labels of the results of the picker.
pub open spec fn file_labels(app: App) -> Seq<Label> {
    let results = app.file_name_picker.results;
    Seq::new(
        results.len(),
        |i: int|
            Label {
                text: window_label(app, results[i].0).0,
                accent: window_label(app, results[i].0).1,
                matched: results[i].1,
            },
    )
}

/// The scroll offset, the length and the page of a list are taken note of.
pub open spec fn list_measured(
    app: App,
    window: Window,
    scroll: usize,
    scroll_max: usize,
    page_size: usize,
) -> App {
    App {
        panes: app.panes.with_state(
            window,
            WindowState { scroll, scroll_max, page_size, ..app.panes.state_of(window) },
        ),
        ..app
    }
}

impl AppState {
    /// Takes note of the scroll offset, the length and the page of a list.
    pub fn note_list(&mut self, window: Window, scroll: usize, scroll_max: usize, page_size: usize)
        requires
            old(self).wf(),
        ensures
            final(self)@ == list_measured(old(self)@, window, scroll, scroll_max, page_size),
            final(self).files == old(self).files,
            final(self).wf(),
    {
        let ghost after = list_measured(self@, window, scroll, scroll_max, page_size);
        self.pane_manager.set_window_scroll(&window, scroll);
        self.pane_manager.set_window_scroll_max(&window, scroll_max);
        self.pane_manager.set_window_page_size(&window, page_size);
        assert(self@.panes.states =~= after.panes.states);
        proof {
            lemma_still_wf(old(self)@, self@);
        }
    }
}

} // verus!
