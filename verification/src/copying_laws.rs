//! What is selected with the mouse, and copied.

use vstd::prelude::*;
use crate::bytes::{
    byte_at, byte_len, is_boundary, lemma_byte_at_grows, lemma_char_at,
};
use crate::effect::Act;
use crate::geometry::Pos;
use crate::input::{Button, MouseInput, MouseInputKind};
use crate::loader::{FileKey, byte_range_of_line, char_under, lemma_starts, line_of, starts_of};
use crate::pane::Pane;
use crate::pane_manager::SelPoint;
use crate::pane_mouse::{
    cell_point, clicks_after, file_mouse, in_file_text, law_drag_takes_words_and_lines,
    lemma_spot_in_line,
};
use crate::pane_select::{in_content, keeps_mouse, terminal_mouse};
use crate::preview::text_between;
use crate::screen::{
    Display, SelectionRect, joined_pieces, lemma_trimmed_len, lengths_of, selected_text,
    texts_in_viewport, trimmed_text,
};
use crate::session_time::Nanos;
use crate::state::App;
use crate::text::is_white_space;
use crate::word::{
    Run, alphanumeric, ends_url, in_run, is_url_from, law_word_span_holds_place, lemma_first_url,
    lemma_run_end, lemma_run_start, run_end, run_start, url_at, word_places, word_span,
};

verus! {

/// A run goes on as far as it can.
proof fn lemma_run_is_whole(text: Seq<char>, words: Seq<bool>, run: Run, i: int)
    requires
        0 <= i < text.len(),
        in_run(text, words, run, i),
    ensures
        run_end(text, words, run, i) < text.len() ==> !in_run(
            text,
            words,
            run,
            run_end(text, words, run, i),
        ),
    decreases text.len() - i,
{
    if i + 1 < text.len() && in_run(text, words, run, i + 1) {
        lemma_run_is_whole(text, words, run, i + 1);
    }
}

/// Whether a character belongs to a word.
pub open spec fn is_of_word(c: char) -> bool {
    alphanumeric(c) || c == '_'
}

/// Outside of a URL, white space is selected with all of the white space around it, a character of
/// a word with the whole word, and any other character alone.
pub proof fn law_selected_word_is_whole(text: Seq<char>, k: int)
    requires
        0 <= k < text.len(),
        url_at(text, k) is None,
    ensures
        ({
            let (from, to) = word_span(text, k);
            if is_white_space(text[k]) {
                &&& from <= k < to
                &&& forall|i: int| from <= i < to ==> is_white_space(#[trigger] text[i])
                &&& from > 0 ==> !is_white_space(text[from - 1])
                &&& to < text.len() ==> !is_white_space(text[to])
            } else if is_of_word(text[k]) {
                &&& from <= k < to
                &&& forall|i: int| from <= i < to ==> is_of_word(#[trigger] text[i])
                &&& from > 0 ==> !is_of_word(text[from - 1])
                &&& to < text.len() ==> !is_of_word(text[to])
            } else {
                from == k && to == k + 1
            }
        }),
{
    let words = word_places(text);
    law_word_span_holds_place(text, k);
    let run = if is_white_space(text[k]) {
        Run::Space
    } else {
        Run::Word
    };
    lemma_run_start(text, words, run, k);
    lemma_run_end(text, words, run, k);
    let (from, to) = word_span(text, k);
    if in_run(text, words, run, k) {
        lemma_run_is_whole(text, words, run, k);
        assert forall|i: int| from <= i < to implies in_run(text, words, run, i) by {}
        assert forall|i: int| from <= i < to && is_white_space(text[k]) implies is_white_space(
            #[trigger] text[i],
        ) by {
            assert(in_run(text, words, run, i));
        }
        assert forall|i: int| from <= i < to && !is_white_space(text[k]) implies is_of_word(
            #[trigger] text[i],
        ) by {
            assert(in_run(text, words, run, i));
        }
    }
}

/// A URL is selected as a whole: what is selected is a URL that holds the place, and goes on to a
/// character that no URL holds.
pub proof fn law_selected_url_is_whole(text: Seq<char>, k: int)
    requires
        0 <= k < text.len(),
        !is_white_space(text[k]),
        url_at(text, k) is Some,
    ensures
        ({
            let (from, to) = word_span(text, k);
            &&& from <= k < to <= text.len()
            &&& is_url_from(text, from, to)
            &&& forall|i: int| k <= i < to ==> !ends_url(#[trigger] text[i])
            &&& to < text.len() ==> ends_url(text[to])
        }),
{
    let words = Seq::<bool>::empty();
    law_word_span_holds_place(text, k);
    lemma_run_start(text, words, Run::Url, k);
    lemma_run_end(text, words, Run::Url, k);
    lemma_run_end(text, word_places(text), Run::Url, k);
    lemma_run_is_whole(text, words, Run::Url, k);
    lemma_run_of_url(text, words, word_places(text), k);
    let (from, to) = word_span(text, k);
    lemma_first_url(text, run_start(text, words, Run::Url, k), k, to);
    assert forall|i: int| k <= i < to implies !ends_url(#[trigger] text[i]) by {
        assert(in_run(text, words, Run::Url, i));
    }
}

/// Where a run of a URL ends does not depend on which places hold letters.
proof fn lemma_run_of_url(text: Seq<char>, a: Seq<bool>, b: Seq<bool>, i: int)
    ensures
        run_end(text, a, Run::Url, i) == run_end(text, b, Run::Url, i),
    decreases text.len() - i,
{
    if i + 1 < text.len() {
        lemma_run_of_url(text, a, b, i + 1);
    }
}

/// The rows that are not empty, one line each.
pub open spec fn rows_joined(texts: Seq<Seq<char>>) -> Seq<char>
    decreases texts.len(),
{
    if texts.len() == 0 {
        Seq::empty()
    } else if texts.last().len() == 0 {
        rows_joined(texts.drop_last())
    } else if rows_joined(texts.drop_last()).len() == 0 {
        texts.last()
    } else {
        rows_joined(texts.drop_last()) + seq!['\n'] + texts.last()
    }
}

/// The texts of `n` rows of a terminal, from `row` on.
pub open spec fn row_texts(d: Display, scroll: int, height: int, row: int, n: int) -> Seq<
    Seq<char>,
> {
    Seq::new(n as nat, |i: int| d.viewport_text(scroll, row + i, height))
}

proof fn lemma_row_texts(d: Display, scroll: int, height: int, row: int, n: int)
    requires
        0 <= n,
        forall|i: int|
            0 <= i < n ==> (#[trigger] d.viewport_line(scroll, row + i, height)) is Some,
    ensures
        texts_in_viewport(d, scroll, height, row, n) == row_texts(d, scroll, height, row, n),
    decreases n,
{
    if n > 0 {
        lemma_row_texts(d, scroll, height, row, n - 1);
        assert(d.viewport_line(scroll, row + (n - 1), height) is Some);
        assert(row_texts(d, scroll, height, row, n) =~= row_texts(
            d,
            scroll,
            height,
            row,
            n - 1,
        ).push(d.viewport_text(scroll, row + n - 1, height)));
    }
    assert(texts_in_viewport(d, scroll, height, row, n) =~= row_texts(d, scroll, height, row, n));
}

/// The pieces of whole rows.
proof fn lemma_rows_joined(rect: SelectionRect, texts: Seq<Seq<char>>, n: int)
    requires
        rect.start_row < rect.end_row,
        texts.len() == rect.end_row - rect.start_row + 1,
        rect.start_col == 0,
        rect.end_col == texts.last().len(),
        forall|i: int| 0 <= i < texts.len() ==> (#[trigger] texts[i]).len() <= usize::MAX,
        0 <= n <= texts.len(),
    ensures
        ({
            let ranges = rect.ranges(lengths_of(texts), rect.start_row as int, n);
            &&& joined_pieces(texts, ranges, rect.start_row as int, ranges.len() as int)
                == rows_joined(texts.take(n))
            &&& ranges.len() == 0 <==> rows_joined(texts.take(n)).len() == 0
        }),
    decreases n,
{
    let top = rect.start_row as int;
    let ranges = rect.ranges(lengths_of(texts), top, n);
    if n > 0 {
        lemma_rows_joined(rect, texts, n - 1);
        let before = rect.ranges(lengths_of(texts), top, n - 1);
        let row = top + n - 1;
        assert(texts.take(n).drop_last() =~= texts.take(n - 1));
        assert(texts.take(n).last() == texts[n - 1]);
        assert(SelectionRect::row_len(lengths_of(texts), top, row) == texts[n - 1].len());
        assert(rect.columns(row, texts[n - 1].len() as int) == (0int, texts[n - 1].len() as int));
        assert(texts[n - 1].subrange(0, texts[n - 1].len() as int) =~= texts[n - 1]);
        if texts[n - 1].len() > 0 {
            assert(ranges == before.push((row as usize, 0usize, texts[n - 1].len() as usize)));
            lemma_pieces_before(texts, before, ranges.last(), top, before.len() as int);
            assert(joined_pieces(texts, before, top, before.len() as int).push('\n') + texts[n - 1]
                =~= joined_pieces(texts, before, top, before.len() as int) + seq!['\n'] + texts[n
                - 1]);
        }
    }
}

/// Pieces do not depend on ranges behind them.
proof fn lemma_pieces_before(
    texts: Seq<Seq<char>>,
    ranges: Seq<(usize, usize, usize)>,
    more: (usize, usize, usize),
    top: int,
    n: int,
)
    requires
        0 <= n <= ranges.len(),
    ensures
        joined_pieces(texts, ranges.push(more), top, n) == joined_pieces(texts, ranges, top, n),
    decreases n,
{
    if n > 0 {
        lemma_pieces_before(texts, ranges, more, top, n - 1);
    }
}

/// What is selected over several rows of a terminal is the text of each of them, in whichever
/// direction it was selected; rows that are empty are left out.
pub proof fn law_selected_rows_are_copied(
    d: Display,
    scroll: int,
    height: int,
    top: usize,
    bottom: usize,
    a: usize,
    b: usize,
)
    requires
        top < bottom,
        forall|i: int|
            top <= i <= bottom ==> ((#[trigger] d.viewport_line(scroll, i, height)) matches Some(
                line,
            ) && line.len() <= usize::MAX),
    ensures
        ({
            let rows = row_texts(d, scroll, height, top as int, bottom - top + 1);
            let from = SelPoint::Terminal { viewport_row: top, col: a };
            let to = SelPoint::Terminal { viewport_row: bottom, col: b };
            &&& selected_text(d, scroll, from, to, height) == Some(rows_joined(rows))
            &&& selected_text(d, scroll, to, from, height) == Some(rows_joined(rows))
        }),
{
    let n = bottom - top + 1;
    let rows = row_texts(d, scroll, height, top as int, n);
    assert forall|i: int| 0 <= i < n implies (#[trigger] d.viewport_line(
        scroll,
        top + i,
        height,
    )) is Some by {}
    lemma_row_texts(d, scroll, height, top as int, n);
    assert forall|i: int| 0 <= i < rows.len() implies (#[trigger] rows[i]).len()
        <= usize::MAX by {
        let line = d.viewport_line(scroll, top + i, height)->0;
        assert(d.viewport_line(scroll, top + i, height) is Some);
        lemma_trimmed_len(line, line.len() as int);
    }
    let rect = SelectionRect {
        start_row: top,
        start_col: 0,
        end_row: bottom,
        end_col: rows.last().len() as usize,
    };
    lemma_rows_joined(rect, rows, n);
    assert(rows.take(n) =~= rows);
}

/// A click on a word in a terminal and letting go copies the word, unless the program keeps the
/// mouse.
pub proof fn law_clicked_word_is_copied(p: Pane, app: App, id: usize, mouse: MouseInput)
    requires
        app.terminals.contains_key(id),
        !keeps_mouse(app, id),
        mouse.kind == MouseInputKind::MouseDown(Button::Left),
        in_content(p, mouse.pos),
        app.terminals[id].screen.viewport_line(
            app.terminals[id].scroll_offset as int,
            mouse.pos.row_index - p.content_origin_row,
            p.content_row_count as int,
        ) matches Some(line) && line.len() <= usize::MAX && mouse.pos.col_index
            - p.content_origin_col < trimmed_text(line).len(),
    ensures
        ({
            let line = app.terminals[id].screen.viewport_line(
                app.terminals[id].scroll_offset as int,
                mouse.pos.row_index - p.content_origin_row,
                p.content_row_count as int,
            )->0;
            let text = trimmed_text(line);
            let (from, to) = word_span(text, mouse.pos.col_index - p.content_origin_col);
            let up = MouseInput { kind: MouseInputKind::MouseUp(Button::Left), ..mouse };
            let pressed = terminal_mouse(p, app, id, mouse);
            let (pane, selecting) = pressed->0;
            let released = terminal_mouse(pane, selecting.app, id, up);
            let (_, done) = released->0;
            &&& pressed is Some && released is Some
            &&& done.acts == seq![Act::Clipboard(text.subrange(from, to))]
            &&& done.app.text_selection is None
        }),
{
    let d = app.terminals[id].screen;
    let scroll = app.terminals[id].scroll_offset as int;
    let height = p.content_row_count as int;
    let row = mouse.pos.row_index - p.content_origin_row;
    let col = mouse.pos.col_index - p.content_origin_col;
    let line = d.viewport_line(scroll, row, height)->0;
    let text = trimmed_text(line);
    law_word_span_holds_place(text, col);
    lemma_trimmed_len(line, line.len() as int);
    let (from, to) = word_span(text, col);
    let texts = texts_in_viewport(d, scroll, height, row, 1);
    reveal_with_fuel(texts_in_viewport, 2);
    assert(texts =~= seq![text]);
    let rect = SelectionRect {
        start_row: row as usize,
        start_col: from as usize,
        end_row: row as usize,
        end_col: to as usize,
    };
    reveal_with_fuel(SelectionRect::ranges, 2);
    reveal_with_fuel(joined_pieces, 2);
    let ranges = rect.all_ranges(lengths_of(texts), row);
    assert(SelectionRect::row_len(lengths_of(texts), row, row) == text.len());
    assert(ranges =~= seq![(row as usize, from as usize, to as usize)]);
    assert(selected_text(d, scroll, cell_point(row, from), cell_point(row, to), height) == Some(
        text.subrange(from, to),
    ));
}

/// A click in the text of a file, a drag and letting go copies from one word to the other within a
/// line, and otherwise the lines from the one to the other as wholes.
#[verifier::rlimit(30)]
pub proof fn law_dragged_text_is_copied(
    p: Pane,
    app: App,
    key: FileKey,
    mouse: MouseInput,
    to: Pos,
    now: Nanos,
)
    requires
        clicks_after(p, mouse.pos, now) == 1,
        mouse.kind == MouseInputKind::MouseDown(Button::Left),
        mouse.maybe_modifier_keys is None,
        in_file_text(p, mouse.pos),
        app.files[key.0 as int].text.len() > 0,
        byte_len(app.files[key.0 as int].text) <= usize::MAX,
    ensures
        ({
            let text = app.files[key.0 as int].text;
            let (line, _, byte) = p.preview.spot(
                app,
                key,
                mouse.pos.row_index as int,
                mouse.pos.col_index as int,
            );
            let (other, _, last) = p.preview.spot(
                app,
                key,
                to.row_index as int,
                to.col_index as int,
            );
            let held = MouseInput {
                kind: MouseInputKind::MouseDrag(Button::Left),
                pos: to,
                ..mouse
            };
            let up = MouseInput { kind: MouseInputKind::MouseUp(Button::Left), pos: to, ..mouse };
            let (first, pressed) = file_mouse(p, app, key, mouse, now)->0;
            let (second, moved) = file_mouse(first, pressed.app, key, held, now)->0;
            let (_, done) = file_mouse(second, moved.app, key, up, now)->0;
            let starts = starts_of(text);
            let k = char_under(text, byte);
            let m = char_under(text, last);
            &&& done.app.text_selection is None
            &&& line < other ==> done.acts == seq![
                Act::Clipboard(
                    text.subrange(starts[line], starts[other] + line_of(text, other).len()),
                ),
            ]
            &&& other < line ==> done.acts == seq![
                Act::Clipboard(
                    text.subrange(starts[other], starts[line] + line_of(text, line).len()),
                ),
            ]
            &&& line == other && byte <= last ==> done.acts == seq![
                Act::Clipboard(text.subrange(word_span(text, k).0, word_span(text, m).1)),
            ]
            &&& line == other && last < byte ==> done.acts == seq![
                Act::Clipboard(text.subrange(word_span(text, m).0, word_span(text, k).1)),
            ]
        }),
{
    let text = app.files[key.0 as int].text;
    let (line, _, byte) = p.preview.spot(
        app,
        key,
        mouse.pos.row_index as int,
        mouse.pos.col_index as int,
    );
    let (other, _, last) = p.preview.spot(app, key, to.row_index as int, to.col_index as int);
    law_drag_takes_words_and_lines(p, app, key, mouse.pos, now, to);
    lemma_spot_in_line(p, app, key, mouse.pos);
    lemma_spot_in_line(p, app, key, to);
    lemma_starts(text, text.len() as int);
    let k = char_under(text, byte);
    let m = char_under(text, last);
    lemma_char_under(text, byte);
    lemma_char_under(text, last);
    law_word_span_holds_place(text, k);
    law_word_span_holds_place(text, m);
    if line < other {
        lemma_lines_between(text, line, other);
    } else if other < line {
        lemma_lines_between(text, other, line);
    } else if byte <= last {
        lemma_chars_in_order(text, byte, last);
        lemma_between_chars(text, word_span(text, k).0, word_span(text, m).1);
    } else {
        lemma_chars_in_order(text, last, byte);
        lemma_between_chars(text, word_span(text, m).0, word_span(text, k).1);
    }
}

/// The character under a cursor is one of the text.
proof fn lemma_char_under(text: Seq<char>, byte: int)
    requires
        is_boundary(text, byte),
        text.len() > 0,
    ensures
        0 <= char_under(text, byte) < text.len(),
{
    let i = choose|i: int| 0 <= i <= text.len() && #[trigger] byte_at(text, i) == byte;
    lemma_char_at(text, i);
}

/// A cursor further on stands on no earlier character.
proof fn lemma_chars_in_order(text: Seq<char>, a: int, b: int)
    requires
        is_boundary(text, a),
        is_boundary(text, b),
        a <= b,
        text.len() > 0,
    ensures
        char_under(text, a) <= char_under(text, b),
{
    let i = choose|i: int| 0 <= i <= text.len() && #[trigger] byte_at(text, i) == a;
    let j = choose|j: int| 0 <= j <= text.len() && #[trigger] byte_at(text, j) == b;
    lemma_char_at(text, i);
    lemma_char_at(text, j);
    lemma_byte_at_grows(text, i, text.len() as int);
    lemma_byte_at_grows(text, j, text.len() as int);
    if j < i {
        lemma_byte_at_grows(text, j, i);
    }
}

/// What lies between the bytes of two characters.
proof fn lemma_between_chars(text: Seq<char>, i: int, j: int)
    requires
        0 <= i < j <= text.len(),
        byte_len(text) <= usize::MAX,
    ensures
        text_between(text, byte_at(text, i) as usize as int, byte_at(text, j) as usize as int)
            == Some(text.subrange(i, j)),
{
    lemma_char_at(text, i);
    lemma_char_at(text, j);
    lemma_byte_at_grows(text, i, j);
    lemma_byte_at_grows(text, j, text.len() as int);
}

/// What lies between the start of a line and the end of a later one.
proof fn lemma_lines_between(text: Seq<char>, a: int, b: int)
    requires
        0 <= a < b < starts_of(text).len(),
        byte_len(text) <= usize::MAX,
    ensures
        text_between(
            text,
            byte_range_of_line(text, a).0 as int,
            byte_range_of_line(text, b).1 as int,
        ) == Some(
            text.subrange(starts_of(text)[a], starts_of(text)[b] + line_of(text, b).len()),
        ),
{
    lemma_starts(text, text.len() as int);
    let starts = starts_of(text);
    assert(starts[a] < starts[b]);
    assert(0 <= line_of(text, b).len() <= text.len() - starts[b]);
    lemma_between_chars(text, starts[a], starts[b] + line_of(text, b).len());
}

} // verus!
