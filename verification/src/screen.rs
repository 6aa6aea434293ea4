//! The contents of an embedded terminal: cells, lines, the viewport, selections and drawing.

use vstd::prelude::*;
use crate::geometry::{Pos, Size};
use crate::pane_manager::SelPoint;
use crate::render::TuiStyle;
use crate::text::{chars_of, text_of};
use crate::word::{word_span, word_span_at};

verus! {

/// A cell of a terminal.
#[derive(Clone, Copy, Debug, PartialEq, Eq, Structural)]
pub enum PixelChar {
    /// The second half of a wide character.
    Void,
    /// A cell that nothing was written to.
    Spacer,
    PlainText { display_char: char, style: TuiStyle },
}

/// The contents and the modes of a terminal.
pub struct Screen {
    /// The lines on the screen, top to bottom.
    pub buffer: Vec<Vec<PixelChar>>,
    /// The lines that have scrolled off the top, oldest first.
    pub scrollback: Vec<Vec<PixelChar>>,
    pub size: Size,
    pub cursor_pos: Pos,
    pub cursor_visible: bool,
    /// Whether a full-screen program has the alternate screen.
    pub alternate: bool,
    /// Whether the program asked for mouse events.
    pub mouse_tracking: bool,
    /// Whether the program asked for pastes to be bracketed.
    pub bracketed_paste: bool,
    /// Whether the program asked for focus events.
    pub focus_events: bool,
    /// Whether the cursor keys are in application mode.
    pub application_cursor: bool,
}

/// What a [`Screen`] stands for.
#[verifier::ext_equal]
pub struct Display {
    pub buffer: Seq<Seq<PixelChar>>,
    pub scrollback: Seq<Seq<PixelChar>>,
    pub size: Size,
    pub cursor_pos: Pos,
    pub cursor_visible: bool,
    pub alternate: bool,
    pub mouse_tracking: bool,
    pub bracketed_paste: bool,
    pub focus_events: bool,
    pub application_cursor: bool,
}

/// The cells of some lines.
pub open spec fn cells_of(lines: Seq<Vec<PixelChar>>) -> Seq<Seq<PixelChar>> {
    Seq::new(lines.len(), |i: int| lines[i]@)
}

impl View for Screen {
    type V = Display;

    open spec fn view(&self) -> Display {
        Display {
            buffer: cells_of(self.buffer@),
            scrollback: cells_of(self.scrollback@),
            size: self.size,
            cursor_pos: self.cursor_pos,
            cursor_visible: self.cursor_visible,
            alternate: self.alternate,
            mouse_tracking: self.mouse_tracking,
            bracketed_paste: self.bracketed_paste,
            focus_events: self.focus_events,
            application_cursor: self.application_cursor,
        }
    }
}

/// A cell that shows nothing.
pub open spec fn is_blank(cell: PixelChar) -> bool {
    !(cell is PlainText)
}

/// The character that a cell shows.
pub open spec fn cell_char(cell: PixelChar) -> char {
    match cell {
        PixelChar::PlainText { display_char, .. } => display_char,
        _ => ' ',
    }
}

/// The length of the first `n` cells without the blank cells at their end.
pub open spec fn trimmed_len(line: Seq<PixelChar>, n: int) -> int
    decreases n,
{
    if n <= 0 {
        0
    } else if is_blank(line[n - 1]) {
        trimmed_len(line, n - 1)
    } else {
        n
    }
}

/// The text of a line without the blank cells at its end.
pub open spec fn trimmed_text(line: Seq<PixelChar>) -> Seq<char> {
    Seq::new(trimmed_len(line, line.len() as int) as nat, |i: int| cell_char(line[i]))
}

/// The trimmed length lies in the line, and what is behind it is blank.
pub proof fn lemma_trimmed_len(line: Seq<PixelChar>, n: int)
    requires
        0 <= n <= line.len(),
    ensures
        0 <= trimmed_len(line, n) <= n,
        forall|i: int| trimmed_len(line, n) <= i < n ==> is_blank(#[trigger] line[i]),
        trimmed_len(line, n) > 0 ==> !is_blank(line[trimmed_len(line, n) - 1]),
    decreases n,
{
    if n > 0 {
        lemma_trimmed_len(line, n - 1);
    }
}

/// The length of a line without the blank cells at its end.
pub fn line_len(line: &Vec<PixelChar>) -> (r: usize)
    ensures
        r == trimmed_len(line@, line@.len() as int),
        r <= line@.len(),
{
    let mut n: usize = line.len();
    while n > 0
        invariant
            n <= line@.len(),
            trimmed_len(line@, n as int) == trimmed_len(line@, line@.len() as int),
        decreases n,
    {
        match line[n - 1] {
            PixelChar::PlainText { .. } => {
                return n;
            },
            _ => {},
        }
        n -= 1;
    }
    0
}

/// The character that a cell shows.
pub fn shown_char(cell: PixelChar) -> (r: char)
    ensures
        r == cell_char(cell),
{
    match cell {
        PixelChar::PlainText { display_char, .. } => display_char,
        _ => ' ',
    }
}

/// The text of a line without the blank cells at its end, and its length in characters.
pub fn trimmed_pixel_char_line(line: &Vec<PixelChar>) -> (r: (String, usize))
    ensures
        r.0@ == trimmed_text(line@),
        r.1 == r.0@.len(),
{
    let n: usize = line_len(line);
    let mut out = String::new();
    let mut i: usize = 0;
    while i < n
        invariant
            i <= n <= line@.len(),
            out@ == Seq::new(i as nat, |j: int| cell_char(line@[j])),
        decreases n - i,
    {
        out.push(shown_char(line[i]));
        i += 1;
        assert(out@ =~= Seq::new(i as nat, |j: int| cell_char(line@[j])));
    }
    (out, n)
}

impl Display {
    /// The lines of the history and then those on the screen.
    pub open spec fn all_lines(self) -> Seq<Seq<PixelChar>> {
        self.scrollback + self.buffer
    }

    /// How far back the viewport is scrolled: no further than the history goes.
    pub open spec fn offset(self, scroll_offset: int) -> int {
        if scroll_offset <= self.scrollback.len() {
            scroll_offset
        } else {
            self.scrollback.len() as int
        }
    }

    /// Which of all lines is the first in a viewport of `height` rows that is scrolled back.
    pub open spec fn viewport_top(self, scroll_offset: int, height: int) -> int {
        let bottom = self.scrollback.len() + self.buffer.len() - self.offset(scroll_offset);
        if bottom > height {
            bottom - height
        } else {
            0
        }
    }

    /// The line in row `row` of the viewport. The screen stands at the top of the viewport, and
    /// the history at its bottom.
    pub open spec fn viewport_line(self, scroll_offset: int, row: int, height: int) -> Option<
        Seq<PixelChar>,
    > {
        if self.offset(scroll_offset) == 0 {
            if row < self.buffer.len() {
                Some(self.buffer[row])
            } else {
                None
            }
        } else {
            let i = self.viewport_top(scroll_offset, height) + row;
            if i < self.all_lines().len() {
                Some(self.all_lines()[i])
            } else {
                None
            }
        }
    }

    /// The text in row `row` of the viewport.
    pub open spec fn viewport_text(self, scroll_offset: int, row: int, height: int) -> Seq<char> {
        match self.viewport_line(scroll_offset, row, height) {
            Some(line) => trimmed_text(line),
            None => Seq::empty(),
        }
    }

    /// No program can write so many lines that they cannot be counted.
    pub open spec fn wf(self) -> bool {
        self.scrollback.len() + self.buffer.len() + self.size.row_height <= usize::MAX
    }
}

impl Screen {
    /// The line in row `row` of the viewport.
    fn line_in_viewport(&self, scroll_offset: usize, row: usize, height: usize) -> (r: Option<
        &Vec<PixelChar>,
    >)
        requires
            self@.wf(),
        ensures
            match r {
                Some(line) => self@.viewport_line(
                    scroll_offset as int,
                    row as int,
                    height as int,
                ) == Some(line@),
                None => self@.viewport_line(
                    scroll_offset as int,
                    row as int,
                    height as int,
                ) is None,
            },
    {
        let history: usize = self.scrollback.len();
        let shown: usize = self.buffer.len();
        assert(self@.scrollback.len() == history && self@.buffer.len() == shown);
        let offset: usize = if scroll_offset <= history {
            scroll_offset
        } else {
            history
        };
        if offset == 0 {
            if row < shown {
                assert(self@.buffer[row as int] == self.buffer@[row as int]@);
                Some(&self.buffer[row])
            } else {
                None
            }
        } else {
            let bottom: usize = history + shown - offset;
            let top: usize = if bottom > height {
                bottom - height
            } else {
                0
            };
            if row >= history + shown - top {
                return None;
            }
            let i: usize = top + row;
            if i < history {
                assert(self@.all_lines()[i as int] == self.scrollback@[i as int]@);
                Some(&self.scrollback[i])
            } else {
                assert(self@.all_lines()[i as int] == self.buffer@[i - history]@);
                Some(&self.buffer[i - history])
            }
        }
    }
}

/// The text in row `viewport_row` of a terminal, and its length in characters.
pub fn terminal_line_at_viewport_row(
    screen: &Screen,
    scroll_offset: usize,
    viewport_row: usize,
    pane_height: usize,
) -> (r: (String, usize))
    requires
        screen@.wf(),
    ensures
        r.0@ == screen@.viewport_text(
            scroll_offset as int,
            viewport_row as int,
            pane_height as int,
        ),
        r.1 == r.0@.len(),
{
    match screen.line_in_viewport(scroll_offset, viewport_row, pane_height) {
        Some(line) => trimmed_pixel_char_line(line),
        None => (String::new(), 0),
    }
}

/// What is selected of a line at a column: past its end, what is at its last character.
pub open spec fn terminal_span(line: Seq<char>, col: int) -> (int, int) {
    if line.len() == 0 {
        (0, 0)
    } else {
        word_span(
            line,
            if col < line.len() - 1 {
                col
            } else {
                line.len() - 1
            },
        )
    }
}

/// The columns of the word, the white space or the URL at a column of a line.
pub fn terminal_word_bounds(line: &str, cursor_col: usize) -> (r: (usize, usize))
    ensures
        (r.0 as int, r.1 as int) == terminal_span(line@, cursor_col as int),
        r.0 <= r.1 <= line@.len(),
{
    let chars = chars_of(line);
    if chars.len() == 0 {
        return (0, 0);
    }
    let k: usize = if cursor_col < chars.len() - 1 {
        cursor_col
    } else {
        chars.len() - 1
    };
    word_span_at(&chars, k)
}

/// The smaller of two numbers.
pub open spec fn lesser(a: int, b: int) -> int {
    if a <= b {
        a
    } else {
        b
    }
}

/// The larger of two numbers.
pub open spec fn greater(a: int, b: int) -> int {
    if a >= b {
        a
    } else {
        b
    }
}

/// The smaller of two numbers.
pub fn min_of(a: usize, b: usize) -> (r: usize)
    ensures
        r == lesser(a as int, b as int),
{
    if a <= b {
        a
    } else {
        b
    }
}

/// The larger of two numbers.
pub fn max_of(a: usize, b: usize) -> (r: usize)
    ensures
        r == greater(a as int, b as int),
{
    if a >= b {
        a
    } else {
        b
    }
}

/// A selection between two cells, given in any order.
#[derive(Clone, Copy, Debug, PartialEq, Eq, Structural)]
pub struct SelectionRect {
    pub start_row: usize,
    pub start_col: usize,
    pub end_row: usize,
    pub end_col: usize,
}

impl SelectionRect {
    /// The first selected row.
    pub open spec fn top(self) -> int {
        lesser(self.start_row as int, self.end_row as int)
    }

    /// The last selected row.
    pub open spec fn bottom(self) -> int {
        greater(self.start_row as int, self.end_row as int)
    }

    /// The smaller of the two columns, at which the first row starts.
    pub open spec fn left(self) -> int {
        lesser(self.start_col as int, self.end_col as int)
    }

    /// The larger of the two columns, at which the last row ends.
    pub open spec fn right(self) -> int {
        greater(self.start_col as int, self.end_col as int)
    }

    /// The columns that are selected of a row of length `len`: from the left column in the first
    /// row, up to the right column in the last row, and all of the rows between them.
    pub open spec fn columns(self, row: int, len: int) -> (int, int) {
        (
            if row == self.top() {
                lesser(self.left(), len)
            } else {
                0
            },
            if row == self.bottom() {
                lesser(self.right(), len)
            } else {
                len
            },
        )
    }

    /// The length of a row, of which the first has the number `offset`.
    pub open spec fn row_len(lengths: Seq<usize>, offset: int, row: int) -> int {
        if 0 <= row - offset < lengths.len() {
            lengths[row - offset] as int
        } else {
            0
        }
    }

    /// The selected columns of the first `n` selected rows, without the rows of which none is
    /// selected.
    pub open spec fn ranges(self, lengths: Seq<usize>, offset: int, n: int) -> Seq<
        (usize, usize, usize),
    >
        decreases n,
    {
        if n <= 0 {
            Seq::empty()
        } else {
            let row = self.top() + n - 1;
            let (from, to) = self.columns(row, SelectionRect::row_len(lengths, offset, row));
            if from < to {
                self.ranges(lengths, offset, n - 1).push((row as usize, from as usize, to as usize))
            } else {
                self.ranges(lengths, offset, n - 1)
            }
        }
    }

    /// The selected columns of all selected rows.
    pub open spec fn all_ranges(self, lengths: Seq<usize>, offset: int) -> Seq<
        (usize, usize, usize),
    > {
        self.ranges(lengths, offset, self.bottom() - self.top() + 1)
    }
}

/// Selected ranges are not empty and lie in their rows.
pub proof fn law_selected_ranges_lie_in_rows(
    rect: SelectionRect,
    lengths: Seq<usize>,
    offset: int,
    n: int,
    k: int,
)
    requires
        0 <= offset <= rect.top(),
        0 <= n <= rect.bottom() - rect.top() + 1,
        0 <= k < rect.ranges(lengths, offset, n).len(),
    ensures
        ({
            let (row, from, to) = rect.ranges(lengths, offset, n)[k];
            &&& rect.top() <= row < rect.top() + n
            &&& row - offset < lengths.len()
            &&& from < to <= lengths[row - offset]
        }),
    decreases n,
{
    let before = rect.ranges(lengths, offset, n - 1);
    if k < before.len() {
        law_selected_ranges_lie_in_rows(rect, lengths, offset, n - 1, k);
    }
}

/// The order in which the two ends of a selection are given makes no difference.
pub proof fn law_selection_has_no_direction(
    rect: SelectionRect,
    lengths: Seq<usize>,
    offset: int,
)
    ensures
        (SelectionRect {
            start_row: rect.end_row,
            start_col: rect.end_col,
            end_row: rect.start_row,
            end_col: rect.start_col,
        }).all_ranges(lengths, offset) == rect.all_ranges(lengths, offset),
{
    let back = SelectionRect {
        start_row: rect.end_row,
        start_col: rect.end_col,
        end_row: rect.start_row,
        end_col: rect.start_col,
    };
    lemma_same_corners(rect, back, lengths, offset, rect.bottom() - rect.top() + 1);
}

proof fn lemma_same_corners(
    a: SelectionRect,
    b: SelectionRect,
    lengths: Seq<usize>,
    offset: int,
    n: int,
)
    requires
        a.top() == b.top(),
        a.bottom() == b.bottom(),
        a.left() == b.left(),
        a.right() == b.right(),
    ensures
        a.ranges(lengths, offset, n) == b.ranges(lengths, offset, n),
    decreases n,
{
    if n > 0 {
        lemma_same_corners(a, b, lengths, offset, n - 1);
    }
}

/// Computes the selected columns of each selected row, half-open, without the rows of which none
/// is selected. `line_lengths` holds the lengths of the rows from number `line_offset` on.
pub fn compute_terminal_selection_ranges(
    rect: SelectionRect,
    line_lengths: &Vec<usize>,
    line_offset: usize,
) -> (r: Vec<(usize, usize, usize)>)
    requires
        line_offset <= rect.top(),
    ensures
        r@ == rect.all_ranges(line_lengths@, line_offset as int),
{
    let sr: usize = min_of(rect.start_row, rect.end_row);
    let er: usize = max_of(rect.start_row, rect.end_row);
    let sc: usize = min_of(rect.start_col, rect.end_col);
    let ec: usize = max_of(rect.start_col, rect.end_col);
    let mut ranges: Vec<(usize, usize, usize)> = Vec::new();
    let mut row: usize = sr;
    let mut done = false;
    while !done
        invariant
            sr == rect.top(),
            er == rect.bottom(),
            sc == rect.left(),
            ec == rect.right(),
            line_offset <= sr <= row <= er,
            !done ==> ranges@ == rect.ranges(line_lengths@, line_offset as int, row - sr),
            done ==> row == er && ranges@ == rect.all_ranges(line_lengths@, line_offset as int),
        decreases er - row, !done as int,
    {
        let at: usize = row - line_offset;
        let len: usize = if at < line_lengths.len() {
            line_lengths[at]
        } else {
            0
        };
        let row_start: usize = if row == sr {
            min_of(sc, len)
        } else {
            0
        };
        let row_end: usize = if row == er {
            min_of(ec, len)
        } else {
            len
        };
        if row_start < row_end {
            ranges.push((row, row_start, row_end));
        }
        assert(ranges@ =~= rect.ranges(line_lengths@, line_offset as int, row - sr + 1));
        if row == er {
            done = true;
        } else {
            row += 1;
        }
    }
    ranges
}

/// The lines of the viewport from `row` on that are there, `n` rows looked at: the text of each.
pub open spec fn texts_in_viewport(
    d: Display,
    scroll_offset: int,
    height: int,
    row: int,
    n: int,
) -> Seq<Seq<char>>
    decreases n,
{
    if n <= 0 {
        Seq::empty()
    } else {
        let before = texts_in_viewport(d, scroll_offset, height, row, n - 1);
        match d.viewport_line(scroll_offset, row + n - 1, height) {
            Some(line) => before.push(trimmed_text(line)),
            None => before,
        }
    }
}

/// The lengths of some texts.
pub open spec fn lengths_of(texts: Seq<Seq<char>>) -> Seq<usize> {
    Seq::new(texts.len(), |i: int| texts[i].len() as usize)
}

/// The first `n` selected pieces, one line each.
pub open spec fn joined_pieces(
    texts: Seq<Seq<char>>,
    ranges: Seq<(usize, usize, usize)>,
    top: int,
    n: int,
) -> Seq<char>
    decreases n,
{
    if n <= 0 {
        Seq::empty()
    } else {
        let (row, from, to) = ranges[n - 1];
        let piece = texts[row - top].subrange(from as int, to as int);
        if n == 1 {
            piece
        } else {
            joined_pieces(texts, ranges, top, n - 1).push('\n') + piece
        }
    }
}

/// The text between two points of a terminal. Within one row it is what lies between the two
/// columns; over several rows it is all of each row.
pub open spec fn selected_text(
    d: Display,
    scroll_offset: int,
    start: SelPoint,
    end: SelPoint,
    height: int,
) -> Option<Seq<char>> {
    match (start, end) {
        (
            SelPoint::Terminal { viewport_row: sr, col: sc },
            SelPoint::Terminal { viewport_row: er, col: ec },
        ) => {
            let top = lesser(sr as int, er as int);
            let bottom = greater(sr as int, er as int);
            let texts = texts_in_viewport(d, scroll_offset, height, top, bottom - top + 1);
            if texts.len() == 0 {
                None
            } else {
                let rect = SelectionRect {
                    start_row: top as usize,
                    start_col: if sr == er {
                        lesser(sc as int, ec as int) as usize
                    } else {
                        0
                    },
                    end_row: bottom as usize,
                    end_col: if sr == er {
                        greater(sc as int, ec as int) as usize
                    } else {
                        texts.last().len() as usize
                    },
                };
                let ranges = rect.all_ranges(lengths_of(texts), top);
                Some(joined_pieces(texts, ranges, top, ranges.len() as int))
            }
        },
        _ => None,
    }
}

/// There are no more texts than rows that were looked at.
proof fn lemma_texts_in_viewport(d: Display, scroll_offset: int, height: int, row: int, n: int)
    requires
        0 <= n,
    ensures
        texts_in_viewport(d, scroll_offset, height, row, n).len() <= n,
    decreases n,
{
    if n > 0 {
        lemma_texts_in_viewport(d, scroll_offset, height, row, n - 1);
    }
}

/// The text between two points of a terminal.
pub fn extract_terminal_text(
    screen: &Screen,
    scroll_offset: usize,
    start: SelPoint,
    end: SelPoint,
    pane_height: usize,
) -> (r: Option<String>)
    requires
        screen@.wf(),
    ensures
        match r {
            Some(t) => selected_text(
                screen@,
                scroll_offset as int,
                start,
                end,
                pane_height as int,
            ) == Some(t@),
            None => selected_text(
                screen@,
                scroll_offset as int,
                start,
                end,
                pane_height as int,
            ) is None,
        },
{
    let (sr, sc, er, ec): (usize, usize, usize, usize) = match (start, end) {
        (
            SelPoint::Terminal { viewport_row: sr, col: sc },
            SelPoint::Terminal { viewport_row: er, col: ec },
        ) => (sr, sc, er, ec),
        _ => {
            return None;
        },
    };
    let top: usize = min_of(sr, er);
    let bottom: usize = max_of(sr, er);
    let ghost d = screen@;
    let mut lines: Vec<Vec<char>> = Vec::new();
    let mut lengths: Vec<usize> = Vec::new();
    let ghost mut texts: Seq<Seq<char>> = Seq::empty();
    let mut row: usize = top;
    let mut done = false;
    while !done
        invariant
            d == screen@,
            d.wf(),
            top <= row <= bottom,
            lines@.len() == texts.len(),
            lengths@ == lengths_of(texts),
            forall|i: int| 0 <= i < texts.len() ==> (#[trigger] lines@[i])@ == texts[i],
            forall|i: int| 0 <= i < texts.len() ==> #[trigger] texts[i].len() <= usize::MAX,
            !done ==> texts == texts_in_viewport(
                d,
                scroll_offset as int,
                pane_height as int,
                top as int,
                row - top,
            ),
            done ==> row == bottom && texts == texts_in_viewport(
                d,
                scroll_offset as int,
                pane_height as int,
                top as int,
                bottom - top + 1,
            ),
        decreases bottom - row, !done as int,
    {
        if let Some(line) = screen.line_in_viewport(scroll_offset, row, pane_height) {
            let (s, len) = trimmed_pixel_char_line(line);
            let chars = chars_of(s.as_str());
            proof {
                texts = texts.push(s@);
            }
            lines.push(chars);
            lengths.push(len);
            assert(lengths@ =~= lengths_of(texts));
        }
        if row == bottom {
            done = true;
        } else {
            row += 1;
        }
    }
    if lines.len() == 0 {
        return None;
    }
    let last: usize = lengths[lengths.len() - 1];
    let rect = SelectionRect {
        start_row: top,
        start_col: if sr == er {
            min_of(sc, ec)
        } else {
            0
        },
        end_row: bottom,
        end_col: if sr == er {
            max_of(sc, ec)
        } else {
            last
        },
    };
    let ranges = compute_terminal_selection_ranges(rect, &lengths, top);
    let mut result = String::new();
    let mut i: usize = 0;
    while i < ranges.len()
        invariant
            i <= ranges@.len(),
            rect.top() == top,
            ranges@ == rect.all_ranges(lengths@, top as int),
            lengths@ == lengths_of(texts),
            lines@.len() == texts.len(),
            forall|j: int| 0 <= j < texts.len() ==> (#[trigger] lines@[j])@ == texts[j],
            forall|j: int| 0 <= j < texts.len() ==> #[trigger] texts[j].len() <= usize::MAX,
            result@ == joined_pieces(texts, ranges@, top as int, i as int),
        decreases ranges@.len() - i,
    {
        proof {
            law_selected_ranges_lie_in_rows(
                rect,
                lengths@,
                top as int,
                rect.bottom() - rect.top() + 1,
                i as int,
            );
        }
        if i > 0 {
            result.push('\n');
        }
        let (at, from, to) = ranges[i];
        assert(lines@[at - top]@ == texts[at - top]);
        let piece = text_of(&lines[at - top], from, to);
        let ghost before = result@;
        result.append(piece.as_str());
        i += 1;
        assert(result@ =~= joined_pieces(texts, ranges@, top as int, i as int));
    }
    Some(result)
}

} // verus!
