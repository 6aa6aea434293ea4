//! What the pane of a terminal shows.

use vstd::prelude::*;
use crate::canvas::{
    Canvas, Shown, lemma_painted_in_turn, lemma_painted_text, lemma_painted_two,
    lemma_text_is_shown,
};
use crate::fuzzy_picker::color_or;
use crate::geometry::{FlexBox, Pos};
use crate::render::{Draw, TuiColor};
use crate::screen::{
    PixelChar, SelectionRect, cell_char, law_selected_ranges_lie_in_rows, lemma_trimmed_len,
};
use crate::screen_draw::{
    blank_rows, law_drawn_lines_show_every_cell, lines_draws, ranges_draws, selected_cell,
    selected_cells, selection_draws, shows_cell, trimmed_lengths,
};
use crate::state::App;
use crate::terminal_pane::{selection_in, shown_cursor, terminal_draws, viewport};

verus! {

/// Whether a surface shows the characters of lines, in whatever style.
pub open spec fn shows_characters(c: Canvas, lines: Seq<Seq<PixelChar>>, origin: Pos) -> bool {
    forall|row: int, col: int|
        0 <= row < lines.len() && 0 <= col < lines[row].len() && !(#[trigger] lines[row][col]
            is Void) ==> {
            &&& c.at(origin.row_index + row, origin.col_index + col) matches Some(s)
            &&& s.text == match lines[row][col] {
                PixelChar::PlainText { display_char, .. } => display_char,
                _ => ' ',
            }
        }
}

/// Whether a cell lies in the first `n` of some ranges of rows.
pub open spec fn lies_in(ranges: Seq<(usize, usize, usize)>, n: int, row: int, col: int) -> bool {
    exists|k: int|
        0 <= k < n && (#[trigger] ranges[k]).0 == row && ranges[k].1 <= col < ranges[k].2
}

/// Painting one selected cell leaves its character, and gives it the background.
proof fn lemma_cell_is_selected(
    c: Canvas,
    origin: Pos,
    row: int,
    col: int,
    cell: PixelChar,
    bg: TuiColor,
)
    requires
        0 <= row < 0x1_0000,
        0 <= col < 0x1_0000,
    ensures
        ({
            let done = c.painted(selected_cell(origin, row, col, cell, bg));
            &&& forall|y: int, x: int|
                y != origin.row_index + row || x != origin.col_index + col ==> #[trigger] done.at(
                    y,
                    x,
                ) == c.at(y, x)
            &&& cell is Void ==> done == c
            &&& !(cell is Void) ==> {
                &&& done.at(origin.row_index + row, origin.col_index + col) matches Some(s)
                &&& s.text == cell_char(cell)
                &&& s.style matches Some(style)
                &&& style.color_bg == Some(bg)
            }
        }),
{
    if !(cell is Void) {
        let ops = selected_cell(origin, row, col, cell, bg);
        let offset = Pos { col_index: (col as usize) as u16, row_index: (row as usize) as u16 };
        let style = ops[2]->style;
        let text = seq![cell_char(cell)];
        assert(ops =~= seq![
            Draw::MoveTo { origin, offset },
            ops[1],
            Draw::Paint { text, style },
        ]);
        lemma_text_is_shown(c, origin, offset, ops[1], text, style);
        let done = c.painted(ops);
        assert(done.at(origin.row_index + row, origin.col_index + col) == Some(
            Shown { text: text[0], style },
        ));
    }
}

/// What a surface shows after the selected cells of a row were painted over the line.
spec fn is_selected_over(
    done: Canvas,
    c: Canvas,
    lines: Seq<Seq<PixelChar>>,
    origin: Pos,
    bg: TuiColor,
    row: int,
    from: int,
    to: int,
) -> bool {
    &&& forall|y: int, x: int|
        y != origin.row_index + row || x < origin.col_index + from || x >= origin.col_index + to
            ==> #[trigger] done.at(y, x) == c.at(y, x)
    &&& forall|col: int|
        from <= col < to ==> if #[trigger] lines[row][col] is Void {
            done.at(origin.row_index + row, origin.col_index + col) == c.at(
                origin.row_index + row,
                origin.col_index + col,
            )
        } else {
            &&& done.at(origin.row_index + row, origin.col_index + col) matches Some(s)
            &&& s.text == cell_char(lines[row][col])
            &&& s.style matches Some(style)
            &&& style.color_bg == Some(bg)
        }
}

/// Painting the selected cells of a row.
proof fn lemma_cells_are_selected(
    c: Canvas,
    lines: Seq<Seq<PixelChar>>,
    origin: Pos,
    bg: TuiColor,
    row: int,
    from: int,
    to: int,
)
    requires
        0 <= row < lines.len(),
        row < 0x1_0000,
        0 <= from <= to <= lines[row].len(),
        to <= 0x1_0000,
    ensures
        is_selected_over(
            c.painted(selected_cells(lines[row], origin, row, from, to, bg)),
            c,
            lines,
            origin,
            bg,
            row,
            from,
            to,
        ),
    decreases to - from,
{
    if from < to {
        lemma_cells_are_selected(c, lines, origin, bg, row, from, to - 1);
        let line = lines[row];
        let first = selected_cells(line, origin, row, from, to - 1, bg);
        let last = selected_cell(origin, row, to - 1, line[to - 1], bg);
        lemma_painted_in_turn(c, first, last);
        let mid = c.painted(first);
        let done = mid.painted(last);
        lemma_cell_is_selected(mid, origin, row, to - 1, line[to - 1], bg);
        assert forall|col: int| from <= col < to implies if #[trigger] lines[row][col] is Void {
            done.at(origin.row_index + row, origin.col_index + col) == c.at(
                origin.row_index + row,
                origin.col_index + col,
            )
        } else {
            &&& done.at(origin.row_index + row, origin.col_index + col) matches Some(s)
            &&& s.text == cell_char(lines[row][col])
            &&& s.style matches Some(style)
            &&& style.color_bg == Some(bg)
        } by {
            let y = origin.row_index + row;
            let x = origin.col_index + col;
            if col < to - 1 {
                assert(done.at(y, x) == mid.at(y, x));
            } else {
                assert(mid.at(y, x) == c.at(y, x));
            }
        }
    }
}

/// Painting selected ranges keeps the characters, gives the cells in the ranges the background, and
/// leaves all others as they are.
proof fn lemma_ranges_are_selected(
    c: Canvas,
    lines: Seq<Seq<PixelChar>>,
    ranges: Seq<(usize, usize, usize)>,
    origin: Pos,
    bg: TuiColor,
    n: int,
)
    requires
        0 <= n <= ranges.len(),
        lines.len() <= 0x1_0000,
        forall|row: int| 0 <= row < lines.len() ==> (#[trigger] lines[row]).len() <= 0x1_0000,
        forall|k: int|
            0 <= k < ranges.len() ==> (#[trigger] ranges[k]).0 < lines.len() && ranges[k].1
                <= ranges[k].2 <= lines[ranges[k].0 as int].len(),
        shows_characters(c, lines, origin),
    ensures
        ({
            let done = c.painted(ranges_draws(lines, ranges, origin, bg, n));
            &&& shows_characters(done, lines, origin)
            &&& forall|y: int, x: int|
                !lies_in(ranges, n, y - origin.row_index, x - origin.col_index)
                    ==> #[trigger] done.at(y, x) == c.at(y, x)
            &&& forall|row: int, col: int|
                0 <= row < lines.len() && 0 <= col < lines[row].len() && !(
                #[trigger] lines[row][col] is Void) && lies_in(ranges, n, row, col) ==> {
                    &&& done.at(origin.row_index + row, origin.col_index + col) matches Some(s)
                    &&& s.style matches Some(style)
                    &&& style.color_bg == Some(bg)
                }
        }),
    decreases n,
{
    if n > 0 {
        lemma_ranges_are_selected(c, lines, ranges, origin, bg, n - 1);
        let (r, from, to) = ranges[n - 1];
        let first = ranges_draws(lines, ranges, origin, bg, n - 1);
        let last = selected_cells(
            lines[r as int],
            origin,
            r as int,
            from as int,
            to as int,
            bg,
        );
        lemma_painted_in_turn(c, first, last);
        let mid = c.painted(first);
        let done = mid.painted(last);
        lemma_cells_are_selected(mid, lines, origin, bg, r as int, from as int, to as int);
        assert(is_selected_over(
            done,
            mid,
            lines,
            origin,
            bg,
            r as int,
            from as int,
            to as int,
        ));
        assert forall|y: int, x: int|
            !lies_in(ranges, n, y - origin.row_index, x - origin.col_index) implies
            #[trigger] done.at(y, x) == c.at(y, x) by {
            let row = y - origin.row_index;
            let col = x - origin.col_index;
            if lies_in(ranges, n - 1, row, col) {
                let k = choose|k: int|
                    0 <= k < n - 1 && (#[trigger] ranges[k]).0 == row && ranges[k].1 <= col
                        < ranges[k].2;
                assert(ranges[k].0 == row);
            }
            if row == r && from <= col < to {
                assert(ranges[n - 1].0 == row);
            }
            assert(mid.at(y, x) == c.at(y, x));
        }
        assert forall|row: int, col: int|
            0 <= row < lines.len() && 0 <= col < lines[row].len() && !(#[trigger] lines[row][col]
                is Void) implies {
            &&& done.at(origin.row_index + row, origin.col_index + col) matches Some(s)
            &&& s.text == cell_char(lines[row][col])
            &&& lies_in(ranges, n, row, col) ==> {
                &&& s.style matches Some(style)
                &&& style.color_bg == Some(bg)
            }
        } by {
            let y = origin.row_index + row;
            let x = origin.col_index + col;
            if row == r && from <= col < to {
                assert(lines[r as int][col] == lines[row][col]);
            } else {
                assert(done.at(y, x) == mid.at(y, x));
                if lies_in(ranges, n, row, col) {
                    let k = choose|k: int|
                        0 <= k < n && (#[trigger] ranges[k]).0 == row && ranges[k].1 <= col
                            < ranges[k].2;
                    assert(ranges[k].0 == row);
                    assert(lies_in(ranges, n - 1, row, col));
                }
            }
        }
        assert forall|row: int, col: int|
            0 <= row < lines.len() && 0 <= col < lines[row].len() && !(#[trigger] lines[row][col]
                is Void) implies {
            &&& done.at(origin.row_index + row, origin.col_index + col) matches Some(s)
            &&& s.text == match lines[row][col] {
                PixelChar::PlainText { display_char, .. } => display_char,
                _ => ' ',
            }
        } by {
            assert(done.at(origin.row_index + row, origin.col_index + col) is Some);
        }
    }
}

/// A cell is selected where it lies between the two ends of the selection: not before the left
/// column in the first row, before the right column in the last row, and within its line.
pub proof fn law_selection_lies_between_its_ends(
    rect: SelectionRect,
    lengths: Seq<usize>,
    n: int,
    row: int,
    col: int,
)
    requires
        0 <= n <= rect.bottom() - rect.top() + 1,
        0 <= row,
        0 <= col,
    ensures
        lies_in(rect.ranges(lengths, 0, n), rect.ranges(lengths, 0, n).len() as int, row, col)
            <==> {
            let (a, b) = if rect.start_row <= rect.end_row {
                (rect.start_row, rect.end_row)
            } else {
                (rect.end_row, rect.start_row)
            };
            &&& a <= row <= b
            &&& row < a + n
            &&& row < lengths.len()
            &&& col < lengths[row]
            &&& row == a ==> col >= rect.start_col || col >= rect.end_col
            &&& row == b ==> col < rect.start_col || col < rect.end_col
        },
    decreases n,
{
    let all = rect.ranges(lengths, 0, n);
    if n > 0 {
        law_selection_lies_between_its_ends(rect, lengths, n - 1, row, col);
        let before = rect.ranges(lengths, 0, n - 1);
        let at = rect.top() + n - 1;
        let (from, to) = rect.columns(at, SelectionRect::row_len(lengths, 0, at));
        if lies_in(before, before.len() as int, row, col) {
            let k = choose|k: int|
                0 <= k < before.len() && (#[trigger] before[k]).0 == row && before[k].1 <= col
                    < before[k].2;
            assert(all[k] == before[k]);
            assert(lies_in(all, all.len() as int, row, col));
        }
        if lies_in(all, all.len() as int, row, col) {
            let k = choose|k: int|
                0 <= k < all.len() && (#[trigger] all[k]).0 == row && all[k].1 <= col < all[k].2;
            if k < before.len() {
                assert(before[k] == all[k]);
                assert(lies_in(before, before.len() as int, row, col));
            }
        }
        if row == at && from <= col < to {
            assert(all[before.len() as int] == (at as usize, from as usize, to as usize));
            assert(lies_in(all, all.len() as int, row, col));
        }
    }
}

/// Blank rows show nothing but spaces, and leave the rows above them as they are.
proof fn lemma_blank_rows(c: Canvas, origin: Pos, width: int, from: int, to: int)
    requires
        0 <= from <= to <= 0x1_0000,
        0 <= width,
    ensures
        ({
            let done = c.painted(blank_rows(origin, width, from, to));
            forall|y: int, x: int| #[trigger]
                done.at(y, x) == if origin.row_index + from <= y < origin.row_index + to
                    && origin.col_index <= x < origin.col_index + width {
                    Some(Shown { text: ' ', style: None })
                } else {
                    c.at(y, x)
                }
        }),
    decreases to - from,
{
    if from < to {
        lemma_blank_rows(c, origin, width, from, to - 1);
        let first = blank_rows(origin, width, from, to - 1);
        let offset = Pos { col_index: 0, row_index: ((to - 1) as usize) as u16 };
        let text = Seq::new(width as nat, |i: int| ' ');
        let a = Draw::MoveTo { origin, offset };
        let b = Draw::Paint { text, style: None };
        lemma_painted_in_turn(c, first, seq![a, b]);
        let mid = c.painted(first);
        lemma_painted_two(mid, a, b);
        let moved = mid.after(a);
        lemma_painted_text(moved, text, None);
        let done = moved.with_text(text, None);
        assert forall|y: int, x: int| #[trigger] done.at(y, x) == if origin.row_index + from <= y
            < origin.row_index + to && origin.col_index <= x < origin.col_index + width {
            Some(Shown { text: ' ', style: None })
        } else {
            c.at(y, x)
        } by {
            assert(moved.at(y, x) == mid.at(y, x));
        }
    }
}

/// The line of a terminal that a row of its pane shows: where the terminal is not scrolled back,
/// that of its screen; else the last row shows the line that as many others follow as it is
/// scrolled back by, and the rows above it show the lines before.
pub open spec fn line_in_row(app: App, id: usize, height: int, row: int) -> Option<Seq<PixelChar>> {
    let screen = app.terminals[id].screen;
    let history = screen.scrollback;
    let back = app.terminals[id].scroll_offset;
    let all = history + screen.buffer;
    if row < 0 || row >= height {
        None
    } else if back == 0 || history.len() == 0 {
        if row < screen.buffer.len() {
            Some(screen.buffer[row])
        } else {
            None
        }
    } else {
        let end = if back <= history.len() {
            all.len() - back
        } else {
            screen.buffer.len() as int
        };
        let i = if end >= height {
            end - height + row
        } else {
            row
        };
        if i < end {
            Some(all[i])
        } else {
            None
        }
    }
}

/// The pane of a terminal shows its lines, cell by cell: every cell that holds a character shows
/// that character, also where it is selected, and the rows behind the last line are blank. Cells
/// that are not selected have their own style, or show the cursor; those that are have the
/// background of selections.
pub proof fn law_terminal_pane_shows_its_lines(
    c: Canvas,
    app: App,
    id: usize,
    b: FlexBox,
    row: int,
    col: int,
)
    requires
        app.terminals.contains_key(id),
        0 <= row < b.style_adjusted_bounds_size.row_height,
        0 <= col,
        forall|i: int|
            0 <= i < app.terminals[id].screen.buffer.len() ==> (
            #[trigger] app.terminals[id].screen.buffer[i]).len() <= 0x1_0000,
        forall|i: int|
            0 <= i < app.terminals[id].screen.scrollback.len() ==> (
            #[trigger] app.terminals[id].screen.scrollback[i]).len() <= 0x1_0000,
    ensures
        ({
            let origin = b.style_adjusted_origin_pos;
            let height = b.style_adjusted_bounds_size.row_height as int;
            let done = c.painted(terminal_draws(app, id, b));
            let shown = done.at(origin.row_index + row, origin.col_index + col);
            let lines = viewport(
                app.terminals[id].screen,
                app.terminals[id].scroll_offset as int,
                height,
            );
            match line_in_row(app, id, height, row) {
                Some(line) => col < line.len() ==> {
                    &&& line[col] matches PixelChar::PlainText { display_char, .. } ==> {
                        &&& shown matches Some(s)
                        &&& s.text == display_char
                    }
                    &&& line[col] is Spacer ==> {
                        &&& shown matches Some(s)
                        &&& s.text == ' '
                    }
                    &&& selection_in(app, id) matches Some(rect) ==> (!(line[col] is Void)
                        && lies_in(
                        rect.all_ranges(trimmed_lengths(lines), 0),
                        rect.all_ranges(trimmed_lengths(lines), 0).len() as int,
                        row,
                        col,
                    ) ==> (shown matches Some(s) && (s.style matches Some(style)
                        && style.color_bg == Some(
                        color_or(app.theme.bg("ui.selection"@), 50, 50, 90),
                    ))))
                    &&& selection_in(app, id) is None ==> shows_cell(
                        shown,
                        c.at(origin.row_index + row, origin.col_index + col),
                        line[col],
                        shown_cursor(app, id) matches Some(pos) && pos.row_index == row
                            && pos.col_index == col,
                    )
                },
                None => col < b.style_adjusted_bounds_size.col_width ==> {
                    &&& shown matches Some(s)
                    &&& s.text == ' '
                },
            }
        }),
{
    let t = app.terminals[id];
    let origin = b.style_adjusted_origin_pos;
    let width = b.style_adjusted_bounds_size.col_width as int;
    let height = b.style_adjusted_bounds_size.row_height as int;
    let lines = viewport(t.screen, t.scroll_offset as int, height);
    let cursor = shown_cursor(app, id);
    let n = lines.len() as int;
    let bg = color_or(app.theme.bg("ui.selection"@), 50, 50, 90);
    let first = lines_draws(lines, origin, cursor, n);
    let blank = blank_rows(origin, width, n, height);
    let over = match selection_in(app, id) {
        Some(rect) => selection_draws(lines, origin, rect, bg),
        None => Seq::empty(),
    };
    let d = t.screen;
    let all = d.all_lines();
    assert(lines.len() <= height);
    assert forall|r: int| 0 <= r < lines.len() implies (#[trigger] lines[r]).len() <= 0x1_0000 by {
        if d.offset(t.scroll_offset as int) == 0 {
            assert(lines[r] == d.buffer[r]);
        } else {
            let i = d.viewport_top(t.scroll_offset as int, height) + r;
            assert(lines[r] == all[i]);
            if i < d.scrollback.len() {
                assert(all[i] == d.scrollback[i]);
            } else {
                assert(all[i] == d.buffer[i - d.scrollback.len()]);
            }
        }
    }
    assert(terminal_draws(app, id, b) == first + blank + over);
    lemma_painted_in_turn(c, first + blank, over);
    lemma_painted_in_turn(c, first, blank);
    law_drawn_lines_show_every_cell(c, lines, origin, cursor, n);
    let one = c.painted(first);
    lemma_blank_rows(one, origin, width, n, height);
    let two = one.painted(blank);
    assert forall|y: int, x: int| y < origin.row_index + n implies #[trigger] two.at(y, x)
        == one.at(y, x) by {}
    assert forall|r: int, k: int|
        0 <= r < lines.len() && 0 <= k < lines[r].len() && !(#[trigger] lines[r][k]
            is Void) implies {
        &&& two.at(origin.row_index + r, origin.col_index + k) matches Some(s)
        &&& s.text == match lines[r][k] {
            PixelChar::PlainText { display_char, .. } => display_char,
            _ => ' ',
        }
    } by {
        assert(two.at(origin.row_index + r, origin.col_index + k) == one.at(
            origin.row_index + r,
            origin.col_index + k,
        ));
    }
    assert(shows_characters(two, lines, origin));
    let three = two.painted(over);
    let y = origin.row_index + row;
    let x = origin.col_index + col;
    if let Some(rect) = selection_in(app, id) {
        let lengths = trimmed_lengths(lines);
        let ranges = rect.all_ranges(lengths, 0);
        assert forall|k: int| 0 <= k < ranges.len() implies (#[trigger] ranges[k]).0 < lines.len()
            && ranges[k].1 <= ranges[k].2 <= lines[ranges[k].0 as int].len() by {
            law_selected_ranges_lie_in_rows(
                rect,
                lengths,
                0,
                rect.bottom() - rect.top() + 1,
                k,
            );
            let line = lines[ranges[k].0 as int];
            lemma_trimmed_len(line, line.len() as int);
        }
        lemma_ranges_are_selected(two, lines, ranges, origin, bg, ranges.len() as int);
        if row >= n && lies_in(ranges, ranges.len() as int, row, col) {
            let k = choose|k: int|
                0 <= k < ranges.len() && (#[trigger] ranges[k]).0 == row && ranges[k].1 <= col
                    < ranges[k].2;
            assert(ranges[k].0 < lines.len());
        }
        assert(row >= n ==> three.at(y, x) == two.at(y, x));
    } else {
        assert(three == two);
    }
    match line_in_row(app, id, height, row) {
        Some(line) => {
            assert(row < n && lines[row] == line);
            if col < line.len() {
                assert(lines[row][col] == line[col]);
                assert(two.at(y, x) == one.at(y, x));
            }
        },
        None => {
            assert(row >= n);
        },
    }
}

} // verus!
