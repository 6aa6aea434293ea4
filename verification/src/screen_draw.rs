//! Drawing the lines of an embedded terminal.

use vstd::prelude::*;
use crate::canvas::{
    Canvas, Shown, lemma_painted_in_turn, lemma_text_is_shown, shows_text,
};
use crate::geometry::Pos;
use crate::render::{
    Draw, RenderOp, RgbValue, TuiColor, TuiStyle, colored, draws, emit, move_to, paint, reversed,
};
use crate::screen::{
    PixelChar, SelectionRect, cell_char, compute_terminal_selection_ranges,
    law_selected_ranges_lie_in_rows, lemma_trimmed_len, line_len, shown_char, trimmed_len,
};
use crate::text::spaces;

verus! {

/// Whether the cursor is in a cell.
pub open spec fn cursor_in(row: int, col: int, cursor: Option<Pos>) -> bool {
    cursor == Some(Pos { col_index: (col as usize) as u16, row_index: (row as usize) as u16 })
}

fn cursor_at(row: usize, col: usize, cursor: Option<Pos>) -> (r: bool)
    ensures
        r == cursor_in(row as int, col as int, cursor),
{
    match cursor {
        Some(pos) => pos.col_index == col as u16 && pos.row_index == row as u16,
        None => false,
    }
}

/// The style that a cell has of its own.
pub open spec fn cell_style(cell: PixelChar) -> Option<TuiStyle> {
    match cell {
        PixelChar::PlainText { style, .. } => Some(style),
        _ => None,
    }
}

/// Where the run of cells that are drawn together ends: at a cell of another style, at the second
/// half of a wide character, or at the cursor.
pub open spec fn run_of(
    line: Seq<PixelChar>,
    row: int,
    col: int,
    style: Option<TuiStyle>,
    cursor: Option<Pos>,
) -> int
    decreases line.len() - col,
{
    if col < line.len() && !cursor_in(row, col, cursor) && !(line[col] is Void) && cell_style(
        line[col],
    ) == style {
        run_of(line, row, col + 1, style, cursor)
    } else {
        col
    }
}

/// A run goes on.
proof fn lemma_run_of(
    line: Seq<PixelChar>,
    row: int,
    col: int,
    style: Option<TuiStyle>,
    cursor: Option<Pos>,
)
    requires
        0 <= col <= line.len(),
    ensures
        col <= run_of(line, row, col, style, cursor) <= line.len(),
    decreases line.len() - col,
{
    if col < line.len() && !cursor_in(row, col, cursor) && !(line[col] is Void) && cell_style(
        line[col],
    ) == style {
        lemma_run_of(line, row, col + 1, style, cursor);
    }
}

/// The cursor, drawn reversed over the character in its cell.
pub open spec fn cursor_cell(origin: Pos, row: int, col: int, c: char) -> Seq<Draw> {
    seq![
        Draw::MoveTo {
            origin,
            offset: Pos { col_index: (col as usize) as u16, row_index: (row as usize) as u16 },
        },
        Draw::ApplyColors(Some(reversed())),
        Draw::Paint { text: seq![c], style: Some(reversed()) },
    ]
}

/// A run of cells in one style.
pub open spec fn run_draws(
    origin: Pos,
    row: int,
    col: int,
    style: Option<TuiStyle>,
    text: Seq<char>,
) -> Seq<Draw> {
    seq![
        Draw::MoveTo {
            origin,
            offset: Pos { col_index: (col as usize) as u16, row_index: (row as usize) as u16 },
        },
        if style is Some {
            Draw::ApplyColors(style)
        } else {
            Draw::ResetColor
        },
        Draw::Paint { text, style },
    ]
}

/// A line from column `col` on: runs of cells of one style, and the cursor in its cell.
pub open spec fn line_draws(
    line: Seq<PixelChar>,
    origin: Pos,
    row: int,
    col: int,
    cursor: Option<Pos>,
) -> Seq<Draw>
    decreases line.len() - col,
{
    if col >= line.len() {
        Seq::empty()
    } else if line[col] is Void {
        line_draws(line, origin, row, col + 1, cursor)
    } else if cursor_in(row, col, cursor) {
        cursor_cell(origin, row, col, cell_char(line[col])) + line_draws(
            line,
            origin,
            row,
            col + 1,
            cursor,
        )
    } else {
        let style = cell_style(line[col]);
        let end = run_of(line, row, col + 1, style, cursor);
        if end <= line.len() && end > col {
            run_draws(
                origin,
                row,
                col,
                style,
                Seq::new((end - col) as nat, |i: int| cell_char(line[col + i])),
            ) + line_draws(line, origin, row, end, cursor)
        } else {
            Seq::empty()
        }
    }
}

/// The first `n` lines.
pub open spec fn lines_draws(
    lines: Seq<Seq<PixelChar>>,
    origin: Pos,
    cursor: Option<Pos>,
    n: int,
) -> Seq<Draw>
    decreases n,
{
    if n <= 0 {
        Seq::empty()
    } else {
        lines_draws(lines, origin, cursor, n - 1) + line_draws(
            lines[n - 1],
            origin,
            n - 1,
            0,
            cursor,
        )
    }
}

fn own_style(cell: PixelChar) -> (r: Option<TuiStyle>)
    ensures
        r == cell_style(cell),
{
    match cell {
        PixelChar::PlainText { style, .. } => Some(style),
        _ => None,
    }
}

fn is_void(cell: PixelChar) -> (r: bool)
    ensures
        r == (cell is Void),
{
    match cell {
        PixelChar::Void => true,
        _ => false,
    }
}

/// Draws one line.
fn render_line(
    ops: &mut Vec<RenderOp>,
    line: &Vec<PixelChar>,
    origin: Pos,
    row: usize,
    cursor: Option<Pos>,
)
    ensures
        draws(final(ops)@) == draws(old(ops)@) + line_draws(line@, origin, row as int, 0, cursor),
{
    let ghost before = draws(ops@);
    let ghost whole = line_draws(line@, origin, row as int, 0, cursor);
    let n: usize = line.len();
    let mut col: usize = 0;
    while col < n
        invariant
            col <= n,
            n == line@.len(),
            draws(ops@) + line_draws(line@, origin, row as int, col as int, cursor) == before
                + whole,
        decreases n - col,
    {
        let cell = line[col];
        if is_void(cell) {
            col += 1;
        } else if cursor_at(row, col, cursor) {
            let ghost so_far = draws(ops@);
            let ghost rest = line_draws(line@, origin, row as int, col + 1, cursor);
            let mut one = String::new();
            one.push(shown_char(cell));
            assert(one@ =~= seq![cell_char(cell)]);
            let style = TuiStyle::reverse();
            emit(ops, move_to(origin, col as u16, row as u16));
            emit(ops, RenderOp::ApplyColors(Some(style)));
            emit(ops, paint(one, Some(style)));
            proof {
                let here = cursor_cell(origin, row as int, col as int, cell_char(cell));
                assert(draws(ops@) =~= so_far + here);
                assert(so_far + (here + rest) =~= (so_far + here) + rest);
            }
            col += 1;
        } else {
            let ghost so_far = draws(ops@);
            let start: usize = col;
            let style = own_style(cell);
            let mut text = String::new();
            text.push(shown_char(cell));
            col += 1;
            proof {
                lemma_run_of(line@, row as int, col as int, style, cursor);
            }
            assert(text@ =~= Seq::new((col - start) as nat, |i: int| cell_char(line@[start + i])));
            while col < n && !cursor_at(row, col, cursor) && !is_void(line[col]) && own_style(
                line[col],
            ) == style
                invariant
                    start < col <= n,
                    n == line@.len(),
                    run_of(line@, row as int, col as int, style, cursor) == run_of(
                        line@,
                        row as int,
                        start + 1,
                        style,
                        cursor,
                    ),
                    text@ == Seq::new((col - start) as nat, |i: int| cell_char(line@[start + i])),
                decreases n - col,
            {
                text.push(shown_char(line[col]));
                col += 1;
                assert(text@ =~= Seq::new(
                    (col - start) as nat,
                    |i: int| cell_char(line@[start + i]),
                ));
            }
            assert(col == run_of(line@, row as int, start + 1, style, cursor));
            let ghost rest = line_draws(line@, origin, row as int, col as int, cursor);
            let ghost shown = text@;
            emit(ops, move_to(origin, start as u16, row as u16));
            if style.is_some() {
                emit(ops, RenderOp::ApplyColors(style));
            } else {
                emit(ops, RenderOp::ResetColor);
            }
            emit(ops, paint(text, style));
            proof {
                let here = run_draws(origin, row as int, start as int, style, shown);
                assert(draws(ops@) =~= so_far + here);
                assert(so_far + (here + rest) =~= (so_far + here) + rest);
            }
        }
    }
    assert(draws(ops@) + Seq::<Draw>::empty() =~= draws(ops@));
}

/// Draws lines of a terminal, and the cursor where it is visible.
pub fn render_lines(
    ops: &mut Vec<RenderOp>,
    lines: &Vec<&Vec<PixelChar>>,
    origin: Pos,
    cursor: Option<Pos>,
)
    ensures
        draws(final(ops)@) == draws(old(ops)@) + lines_draws(
            referred_cells(lines@),
            origin,
            cursor,
            lines@.len() as int,
        ),
{
    let ghost before = draws(ops@);
    let ghost all = referred_cells(lines@);
    let mut i: usize = 0;
    assert(before + lines_draws(all, origin, cursor, 0) =~= before);
    while i < lines.len()
        invariant
            i <= lines@.len(),
            all == referred_cells(lines@),
            draws(ops@) == before + lines_draws(all, origin, cursor, i as int),
        decreases lines@.len() - i,
    {
        render_line(ops, lines[i], origin, i, cursor);
        proof {
            assert(all[i as int] == lines@[i as int]@);
            let here = line_draws(all[i as int], origin, i as int, 0, cursor);
            assert((before + lines_draws(all, origin, cursor, i as int)) + here =~= before
                + lines_draws(all, origin, cursor, i + 1));
        }
        i += 1;
    }
}

/// The cells of some lines, given by reference.
pub open spec fn referred_cells(lines: Seq<&Vec<PixelChar>>) -> Seq<Seq<PixelChar>> {
    Seq::new(lines.len(), |i: int| lines[i]@)
}

/// Empty rows from `from` up to `to`.
pub open spec fn blank_rows(origin: Pos, width: int, from: int, to: int) -> Seq<Draw>
    decreases to - from,
{
    if from >= to {
        Seq::empty()
    } else {
        blank_rows(origin, width, from, to - 1) + seq![
            Draw::MoveTo {
                origin,
                offset: Pos { col_index: 0, row_index: ((to - 1) as usize) as u16 },
            },
            Draw::Paint { text: Seq::new(width as nat, |i: int| ' '), style: None },
        ]
    }
}

/// Draws empty rows from `from` up to `to`.
pub fn render_blank_rows(ops: &mut Vec<RenderOp>, origin: Pos, width: usize, from: usize, to: usize)
    requires
        from <= to,
    ensures
        draws(final(ops)@) == draws(old(ops)@) + blank_rows(
            origin,
            width as int,
            from as int,
            to as int,
        ),
{
    let ghost before = draws(ops@);
    let mut row: usize = from;
    assert(before + blank_rows(origin, width as int, from as int, from as int) =~= before);
    while row < to
        invariant
            from <= row <= to,
            draws(ops@) == before + blank_rows(origin, width as int, from as int, row as int),
        decreases to - row,
    {
        let ghost so_far = draws(ops@);
        emit(ops, move_to(origin, 0, row as u16));
        emit(ops, paint(spaces(width), None));
        row += 1;
        assert(draws(ops@) =~= before + blank_rows(origin, width as int, from as int, row as int));
    }
}

/// A selected cell: the character in its own colour, or white, on the background of selections.
pub open spec fn selected_cell(
    origin: Pos,
    row: int,
    col: int,
    cell: PixelChar,
    bg: TuiColor,
) -> Seq<Draw> {
    let fg = match cell_style(cell) {
        Some(style) => match style.color_fg {
            Some(c) => c,
            None => TuiColor::Rgb(RgbValue { red: 255, green: 255, blue: 255 }),
        },
        None => TuiColor::Rgb(RgbValue { red: 255, green: 255, blue: 255 }),
    };
    let style = colored(fg, bg);
    if cell is Void {
        Seq::empty()
    } else {
        seq![
            Draw::MoveTo {
                origin,
                offset: Pos { col_index: (col as usize) as u16, row_index: (row as usize) as u16 },
            },
            Draw::ApplyColors(Some(style)),
            Draw::Paint { text: seq![cell_char(cell)], style: Some(style) },
        ]
    }
}

/// The selected cells of a row from column `from` up to `to`.
pub open spec fn selected_cells(
    line: Seq<PixelChar>,
    origin: Pos,
    row: int,
    from: int,
    to: int,
    bg: TuiColor,
) -> Seq<Draw>
    decreases to - from,
{
    if from >= to {
        Seq::empty()
    } else {
        selected_cells(line, origin, row, from, to - 1, bg) + selected_cell(
            origin,
            row,
            to - 1,
            line[to - 1],
            bg,
        )
    }
}

/// The cells of the first `n` selected ranges.
pub open spec fn ranges_draws(
    lines: Seq<Seq<PixelChar>>,
    ranges: Seq<(usize, usize, usize)>,
    origin: Pos,
    bg: TuiColor,
    n: int,
) -> Seq<Draw>
    decreases n,
{
    if n <= 0 {
        Seq::empty()
    } else {
        let (row, from, to) = ranges[n - 1];
        ranges_draws(lines, ranges, origin, bg, n - 1) + selected_cells(
            lines[row as int],
            origin,
            row as int,
            from as int,
            to as int,
            bg,
        )
    }
}

/// The lengths of lines without the blank cells at their ends.
pub open spec fn trimmed_lengths(lines: Seq<Seq<PixelChar>>) -> Seq<usize> {
    Seq::new(lines.len(), |i: int| trimmed_len(lines[i], lines[i].len() as int) as usize)
}

/// A selection over lines of a terminal.
pub open spec fn selection_draws(
    lines: Seq<Seq<PixelChar>>,
    origin: Pos,
    rect: SelectionRect,
    bg: TuiColor,
) -> Seq<Draw> {
    let ranges = rect.all_ranges(trimmed_lengths(lines), 0);
    ranges_draws(lines, ranges, origin, bg, ranges.len() as int)
}

/// Draws a selection over lines of a terminal.
pub fn overlay_selection(
    ops: &mut Vec<RenderOp>,
    lines: &Vec<&Vec<PixelChar>>,
    origin: Pos,
    selection: SelectionRect,
    hl_bg: TuiColor,
)
    ensures
        draws(final(ops)@) == draws(old(ops)@) + selection_draws(
            referred_cells(lines@),
            origin,
            selection,
            hl_bg,
        ),
{
    let ghost all = referred_cells(lines@);
    let ghost before = draws(ops@);
    let mut lengths: Vec<usize> = Vec::new();
    let mut i: usize = 0;
    while i < lines.len()
        invariant
            i <= lines@.len(),
            all == referred_cells(lines@),
            lengths@ == trimmed_lengths(all).take(i as int),
        decreases lines@.len() - i,
    {
        lengths.push(line_len(lines[i]));
        assert(all[i as int] == lines@[i as int]@);
        i += 1;
        assert(lengths@ =~= trimmed_lengths(all).take(i as int));
    }
    assert(lengths@ =~= trimmed_lengths(all));
    let ranges = compute_terminal_selection_ranges(selection, &lengths, 0);
    let mut k: usize = 0;
    assert(before + ranges_draws(all, ranges@, origin, hl_bg, 0) =~= before);
    while k < ranges.len()
        invariant
            k <= ranges@.len(),
            all == referred_cells(lines@),
            lengths@ == trimmed_lengths(all),
            ranges@ == selection.all_ranges(lengths@, 0),
            draws(ops@) == before + ranges_draws(all, ranges@, origin, hl_bg, k as int),
        decreases ranges@.len() - k,
    {
        let (row, from, to) = ranges[k];
        proof {
            law_selected_ranges_lie_in_rows(
                selection,
                lengths@,
                0,
                selection.bottom() - selection.top() + 1,
                k as int,
            );
            lemma_trimmed_len(all[row as int], all[row as int].len() as int);
        }
        let ghost so_far = draws(ops@);
        let line: &Vec<PixelChar> = lines[row];
        assert(all[row as int] == line@);
        let len: usize = line.len();
        let mut col: usize = from;
        assert(so_far + selected_cells(
            line@,
            origin,
            row as int,
            from as int,
            from as int,
            hl_bg,
        ) =~= so_far);
        while col < to
            invariant
                from <= col <= to <= line@.len(),
                draws(ops@) == so_far + selected_cells(
                    line@,
                    origin,
                    row as int,
                    from as int,
                    col as int,
                    hl_bg,
                ),
            decreases to - col,
        {
            let cell = line[col];
            let ghost here = draws(ops@);
            if !is_void(cell) {
                let white = TuiColor::Rgb(RgbValue { red: 255, green: 255, blue: 255 });
                let fg = match own_style(cell) {
                    Some(style) => match style.color_fg {
                        Some(c) => c,
                        None => white,
                    },
                    None => white,
                };
                let style = TuiStyle::of(fg, hl_bg);
                let mut one = String::new();
                one.push(shown_char(cell));
                assert(one@ =~= seq![cell_char(cell)]);
                emit(ops, move_to(origin, col as u16, row as u16));
                emit(ops, RenderOp::ApplyColors(Some(style)));
                emit(ops, paint(one, Some(style)));
            }
            assert(draws(ops@) =~= here + selected_cell(
                origin,
                row as int,
                col as int,
                cell,
                hl_bg,
            ));
            col += 1;
            assert(draws(ops@) =~= so_far + selected_cells(
                line@,
                origin,
                row as int,
                from as int,
                col as int,
                hl_bg,
            ));
        }
        k += 1;
        assert(draws(ops@) =~= before + ranges_draws(all, ranges@, origin, hl_bg, k as int));
    }
}

/// Whether a cell of a surface shows what a cell of a terminal holds: its character, in its own
/// style, or reversed where the cursor is. The second half of a wide character is not drawn.
pub open spec fn shows_cell(
    shown: Option<Shown>,
    before: Option<Shown>,
    cell: PixelChar,
    has_cursor: bool,
) -> bool {
    match cell {
        PixelChar::Void => shown == before,
        PixelChar::Spacer => shown matches Some(s) && s.text == ' ' && if has_cursor {
            s.style matches Some(style) && style.attribs.reverse
        } else {
            s.style is None
        },
        PixelChar::PlainText { display_char, style } => shown matches Some(s) && s.text
            == display_char && if has_cursor {
            s.style matches Some(over) && over.attribs.reverse
        } else {
            s.style == Some(style)
        },
    }
}

/// Whether a surface shows a line of a terminal from a column on in a row, and else what another
/// does.
pub open spec fn shows_line(
    c: Canvas,
    before: Canvas,
    line: Seq<PixelChar>,
    origin: Pos,
    row: int,
    from: int,
    cursor: Option<Pos>,
) -> bool {
    &&& forall|y: int, x: int|
        y != origin.row_index + row || x < origin.col_index + from || x >= origin.col_index
            + line.len() ==> #[trigger] c.at(y, x) == before.at(y, x)
    &&& forall|col: int|
        from <= col < line.len() ==> shows_cell(
            c.at(origin.row_index + row, origin.col_index + col),
            before.at(origin.row_index + row, origin.col_index + col),
            #[trigger] line[col],
            cursor matches Some(pos) && pos.row_index == row && pos.col_index == col,
        )
}

/// Cells of a run have its style, hold no second half of a wide character, and no cursor.
proof fn lemma_run_cells(
    line: Seq<PixelChar>,
    row: int,
    col: int,
    style: Option<TuiStyle>,
    cursor: Option<Pos>,
)
    requires
        0 <= col <= line.len(),
    ensures
        forall|k: int|
            col <= k < run_of(line, row, col, style, cursor) ==> cell_style(#[trigger] line[k])
                == style && !(line[k] is Void) && !cursor_in(row, k, cursor),
    decreases line.len() - col,
{
    if col < line.len() && !cursor_in(row, col, cursor) && !(line[col] is Void) && cell_style(
        line[col],
    ) == style {
        lemma_run_cells(line, row, col + 1, style, cursor);
    }
}

/// Drawing a line from a column on shows its cells.
proof fn lemma_line_is_shown(
    c: Canvas,
    line: Seq<PixelChar>,
    origin: Pos,
    row: int,
    col: int,
    cursor: Option<Pos>,
)
    requires
        0 <= col <= line.len() <= 0x1_0000,
        0 <= row < 0x1_0000,
    ensures
        shows_line(
            c.painted(line_draws(line, origin, row, col, cursor)),
            c,
            line,
            origin,
            row,
            col,
            cursor,
        ),
    decreases line.len() - col,
{
    if col < line.len() {
        let offset = Pos { col_index: (col as usize) as u16, row_index: (row as usize) as u16 };
        if line[col] is Void {
            lemma_line_is_shown(c, line, origin, row, col + 1, cursor);
        } else if cursor_in(row, col, cursor) {
            let style = Some(reversed());
            let text = seq![cell_char(line[col])];
            let here = cursor_cell(origin, row, col, cell_char(line[col]));
            let rest = line_draws(line, origin, row, col + 1, cursor);
            lemma_painted_in_turn(c, here, rest);
            lemma_text_is_shown(c, origin, offset, Draw::ApplyColors(style), text, style);
            let mid = c.painted(here);
            assert(shows_text(
                mid,
                c,
                origin.row_index + row,
                origin.col_index + col,
                text,
                style,
            ));
            lemma_line_is_shown(mid, line, origin, row, col + 1, cursor);
            let done = mid.painted(rest);
            assert(done.at(origin.row_index + row, origin.col_index + col) == mid.at(
                origin.row_index + row,
                origin.col_index + col,
            ));
        } else {
            let style = cell_style(line[col]);
            let end = run_of(line, row, col + 1, style, cursor);
            lemma_run_of(line, row, col + 1, style, cursor);
            lemma_run_cells(line, row, col + 1, style, cursor);
            let text = Seq::new((end - col) as nat, |i: int| cell_char(line[col + i]));
            let apply = if style is Some {
                Draw::ApplyColors(style)
            } else {
                Draw::ResetColor
            };
            let here = run_draws(origin, row, col, style, text);
            let rest = line_draws(line, origin, row, end, cursor);
            lemma_painted_in_turn(c, here, rest);
            lemma_text_is_shown(c, origin, offset, apply, text, style);
            let mid = c.painted(here);
            assert(shows_text(
                mid,
                c,
                origin.row_index + row,
                origin.col_index + col,
                text,
                style,
            ));
            lemma_line_is_shown(mid, line, origin, row, end, cursor);
            let done = mid.painted(rest);
            assert forall|k: int| col <= k < line.len() implies shows_cell(
                done.at(origin.row_index + row, origin.col_index + k),
                c.at(origin.row_index + row, origin.col_index + k),
                #[trigger] line[k],
                cursor matches Some(pos) && pos.row_index == row && pos.col_index == k,
            ) by {
                let y = origin.row_index + row;
                let x = origin.col_index + k;
                if k < end {
                    assert(done.at(y, x) == mid.at(y, x));
                    assert(mid.at(y, x) == Some(Shown { text: text[k - col], style }));
                    assert(!cursor_in(row, k, cursor));
                } else {
                    assert(mid.at(y, x) == c.at(y, x));
                }
            }
        }
    }
}

/// Whether a surface shows the first `n` lines of a terminal, row by row and cell by cell, and else
/// what another does.
pub open spec fn shows_lines(
    c: Canvas,
    before: Canvas,
    lines: Seq<Seq<PixelChar>>,
    origin: Pos,
    cursor: Option<Pos>,
    n: int,
) -> bool {
    &&& forall|y: int, x: int|
        y < origin.row_index || y >= origin.row_index + n || x < origin.col_index || x
            >= origin.col_index + lines[y - origin.row_index].len() ==> #[trigger] c.at(y, x)
            == before.at(y, x)
    &&& forall|row: int, col: int|
        0 <= row < n && 0 <= col < lines[row].len() ==> shows_cell(
            c.at(origin.row_index + row, origin.col_index + col),
            before.at(origin.row_index + row, origin.col_index + col),
            #[trigger] lines[row][col],
            cursor matches Some(pos) && pos.row_index == row && pos.col_index == col,
        )
}

/// Drawing the lines of a terminal puts into every cell of the surface what the cell of the
/// terminal holds, in the same row and column from the origin on, with the cursor in its cell, and
/// changes nothing else.
pub proof fn law_drawn_lines_show_every_cell(
    c: Canvas,
    lines: Seq<Seq<PixelChar>>,
    origin: Pos,
    cursor: Option<Pos>,
    n: int,
)
    requires
        0 <= n <= lines.len(),
        n <= 0x1_0000,
        forall|row: int| 0 <= row < n ==> (#[trigger] lines[row]).len() <= 0x1_0000,
    ensures
        shows_lines(c.painted(lines_draws(lines, origin, cursor, n)), c, lines, origin, cursor, n),
    decreases n,
{
    if n > 0 {
        law_drawn_lines_show_every_cell(c, lines, origin, cursor, n - 1);
        let first = lines_draws(lines, origin, cursor, n - 1);
        let line = lines[n - 1];
        let last = line_draws(line, origin, n - 1, 0, cursor);
        lemma_painted_in_turn(c, first, last);
        let mid = c.painted(first);
        let done = mid.painted(last);
        lemma_line_is_shown(mid, line, origin, n - 1, 0, cursor);
        assert forall|row: int, col: int| 0 <= row < n && 0 <= col < lines[row].len() implies
            shows_cell(
            done.at(origin.row_index + row, origin.col_index + col),
            c.at(origin.row_index + row, origin.col_index + col),
            #[trigger] lines[row][col],
            cursor matches Some(pos) && pos.row_index == row && pos.col_index == col,
        ) by {
            let y = origin.row_index + row;
            let x = origin.col_index + col;
            if row < n - 1 {
                assert(done.at(y, x) == mid.at(y, x));
            } else {
                assert(line[col] == lines[row][col]);
                assert(mid.at(y, x) == c.at(y, x));
            }
        }
        assert forall|y: int, x: int|
            y < origin.row_index || y >= origin.row_index + n || x < origin.col_index || x
                >= origin.col_index + lines[y - origin.row_index].len() implies #[trigger] done.at(
            y,
            x,
        ) == c.at(y, x) by {
            assert(done.at(y, x) == mid.at(y, x));
            assert(mid.at(y, x) == c.at(y, x));
        }
    }
}

} // verus!
