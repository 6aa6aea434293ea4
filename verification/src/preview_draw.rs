//! Drawing a file in a pane.

use vstd::prelude::*;
use crate::bytes::{
    byte_at, byte_len, char_at, chars_before, is_boundary, lemma_byte_at_grows, lemma_char_at,
    slice, text_len,
};
use crate::geometry::{FlexBox, Pos};
use crate::loader::{FileData, FileKey, lemma_starts, line_of, starts_of};
use crate::number::{decimal, lemma_decimal_short, number_text};
use crate::pane_manager::{Window, WindowState};
use crate::preview::{FilePreviewComponent, Preview, file_in};
use crate::preview_text::{content_width, gutter_width, line_number_width, text_width};
use crate::ranges::covers;
use crate::render::{
    Draw, RenderOp, RgbValue, TuiColor, TuiStyle, backed, colored, draws, emit, move_to, paint, rgb,
};
use crate::screen::{greater, lesser, max_of, min_of};
use crate::state::{App, AppState, ColoredLine, File, colors_of, lemma_still_wf, offset_fits};
use crate::text::{chars_of, copy_of, spaces};
use crate::theme::{HelixTheme, Theme, token_scopes};
use crate::title_row::{choose_rgb, rgb_or};

verus! {

/// The colours of a preview.
#[derive(Clone, Copy, Debug, PartialEq, Eq, Structural)]
pub struct PreviewColors {
    /// Behind the text.
    pub back: RgbValue,
    /// Behind highlighted or selected text.
    pub marked_back: RgbValue,
    /// Of text without a token.
    pub text: RgbValue,
    /// Of line numbers.
    pub number: TuiStyle,
    /// Of the numbers of highlighted or selected lines.
    pub marked_number: TuiStyle,
}

/// The colours of a preview, from a theme.
pub open spec fn preview_colors(theme: Theme) -> PreviewColors {
    let back = rgb_or(theme.bg("ui.background"@), rgb(15, 15, 25));
    let text = rgb_or(theme.fg("ui.text"@), rgb(212, 212, 212));
    let number = rgb_or(
        theme.fg("ui.linenr"@),
        rgb((text.red / 3) as u8, (text.green / 3) as u8, (text.blue / 3) as u8),
    );
    PreviewColors {
        back,
        marked_back: rgb_or(theme.bg("ui.selection"@), rgb(50, 50, 90)),
        text,
        number: colored(TuiColor::Rgb(number), TuiColor::Rgb(back)),
        marked_number: colored(
            TuiColor::Rgb(rgb_or(theme.fg("ui.selection"@), rgb(255, 255, 255))),
            TuiColor::Rgb(rgb_or(theme.bg("ui.linenr"@), back)),
        ),
    }
}

/// Takes the colours of a preview from a theme.
fn colors_from(theme: &HelixTheme) -> (r: PreviewColors)
    ensures
        r == preview_colors(theme@),
{
    let back = choose_rgb(theme.ui_bg("ui.background"), RgbValue::new(15, 15, 25));
    let text = choose_rgb(theme.ui_fg("ui.text"), RgbValue::new(212, 212, 212));
    let number = choose_rgb(
        theme.ui_fg("ui.linenr"),
        RgbValue::new(text.red / 3, text.green / 3, text.blue / 3),
    );
    let marked = choose_rgb(theme.ui_fg("ui.selection"), RgbValue::new(255, 255, 255));
    let number_back = choose_rgb(theme.ui_bg("ui.linenr"), back);
    PreviewColors {
        back,
        marked_back: choose_rgb(theme.ui_bg("ui.selection"), RgbValue::new(50, 50, 90)),
        text,
        number: TuiStyle::of(TuiColor::Rgb(number), TuiColor::Rgb(back)),
        marked_number: TuiStyle::of(TuiColor::Rgb(marked), TuiColor::Rgb(number_back)),
    }
}

/// What a page of a file is drawn from.
pub struct Page {
    pub origin: Pos,
    pub columns: int,
    pub rows: int,
    pub file: File,
    pub theme: Theme,
    /// The ranges that are highlighted, where there are any.
    pub highlights: Option<Seq<(usize, usize)>>,
    /// The two ends of a drag over text, by line and byte offset.
    pub drag: Option<((usize, usize), (usize, usize))>,
}

/// How many characters of a text start before a byte offset, or all of them.
pub open spec fn chars_up_to(text: Seq<char>, byte: int) -> int {
    if byte >= byte_len(text) {
        text.len() as int
    } else {
        char_at(text, byte)
    }
}

/// A text, with the colours for it applied first.
pub open spec fn colored_text(text: Seq<char>, fg: RgbValue, back: RgbValue) -> Seq<Draw> {
    let style = colored(TuiColor::Rgb(fg), TuiColor::Rgb(back));
    seq![Draw::ApplyColors(Some(style)), Draw::Paint { text, style: Some(style) }]
}

impl Page {
    /// The colours of the page.
    pub open spec fn colors(self) -> PreviewColors {
        preview_colors(self.theme)
    }

    /// How many lines the file has.
    pub open spec fn lines(self) -> int {
        starts_of(self.file.text).len() as int
    }

    /// How many characters a row holds.
    pub open spec fn width(self) -> int {
        text_width(self.columns, self.lines())
    }

    /// Whether a whole line is highlighted or selected: a drag within one line selects no whole
    /// line, and during a drag the highlight is not shown.
    pub open spec fn marked(self, line: int) -> bool {
        match self.drag {
            Some((s, e)) => s.0 != e.0 && lesser(s.0 as int, e.0 as int) <= line <= greater(
                s.0 as int,
                e.0 as int,
            ),
            None => match self.highlights {
                Some(ranges) => covers(ranges, line + 1),
                None => false,
            },
        }
    }

    /// The characters of a line that a drag within it selects.
    pub open spec fn selected(self, line: int) -> Option<(int, int)> {
        match self.drag {
            Some((s, e)) => if s.0 == e.0 && s.0 == line {
                let text = line_of(self.file.text, line);
                let start = byte_at(self.file.text, starts_of(self.file.text)[line]);
                Some(
                    (
                        chars_up_to(text, lesser(s.1 as int, e.1 as int) - start),
                        chars_up_to(text, greater(s.1 as int, e.1 as int) - start),
                    ),
                )
            } else {
                None
            },
            None => None,
        }
    }

    /// What the first `n` tokens of a line show of the bytes from `from` up to `to`.
    pub open spec fn tokens(self, line: int, n: int, from: int, to: int, back: RgbValue) -> Seq<Draw>
        decreases n,
    {
        if n <= 0 {
            Seq::empty()
        } else {
            let (start, end, kind) = self.file.colors[line][n - 1];
            let a = greater(start as int, from);
            let b = lesser(end as int, to);
            self.tokens(line, n - 1, from, to, back) + if a >= b {
                Seq::empty()
            } else {
                let text = line_of(self.file.text, line);
                colored_text(
                    text.subrange(char_at(text, a), char_at(text, b)),
                    rgb_or(
                        self.theme.first_color(token_scopes(kind), 0),
                        self.colors().text,
                    ),
                    back,
                )
            }
        }
    }

    /// The characters of a line from `from` up to `to`: those in tokens, where the tokens of the
    /// line are known, and else all of them.
    pub open spec fn piece(self, line: int, from: int, to: int, back: RgbValue) -> Seq<Draw> {
        let text = line_of(self.file.text, line);
        if from >= to {
            Seq::empty()
        } else if line < self.file.colors.len() {
            self.tokens(
                line,
                self.file.colors[line].len() as int,
                byte_at(text, from),
                byte_at(text, to),
                back,
            )
        } else {
            colored_text(text.subrange(from, to), self.colors().text, back)
        }
    }

    /// The row of a line that starts with its character `from`, without what comes before the
    /// text.
    pub open spec fn row_text(self, line: int, from: int) -> Seq<Draw> {
        let c = self.colors();
        let to = lesser(from + self.width(), line_of(self.file.text, line).len() as int);
        match self.selected(line) {
            Some((a, b)) => if to <= a || from >= b {
                self.piece(line, from, to, c.back)
            } else {
                self.piece(line, from, a, c.back) + self.piece(
                    line,
                    greater(from, a),
                    lesser(to, b),
                    c.marked_back,
                ) + self.piece(line, b, to, c.back)
            },
            None => self.piece(
                line,
                from,
                to,
                if self.marked(line) {
                    c.marked_back
                } else {
                    c.back
                },
            ),
        }
    }

    /// What comes before the text in a row: the background, and the line number in the first row
    /// of a line.
    pub open spec fn row_start(self, line: int, from: int, shown: int) -> Seq<Draw> {
        let c = self.colors();
        let back = backed(
            TuiColor::Rgb(
                if self.marked(line) {
                    c.marked_back
                } else {
                    c.back
                },
            ),
        );
        let number = if self.marked(line) {
            c.marked_number
        } else {
            c.number
        };
        let row_index = (shown as u128) as u16;
        let start = Draw::MoveTo { origin: self.origin, offset: Pos { col_index: 0, row_index } };
        let digits = gutter_width(self.lines()) - 3;
        seq![
            start,
            Draw::ApplyColors(Some(back)),
            Draw::Paint {
                text: Seq::new(self.columns as nat, |i: int| ' '),
                style: Some(back),
            },
            start,
            Draw::ApplyColors(Some(number)),
            if from == 0 {
                Draw::Paint { text: aligned(line + 1, digits) + "   "@, style: Some(number) }
            } else {
                Draw::Paint {
                    text: Seq::new((digits + 3) as nat, |i: int| ' '),
                    style: Some(back),
                }
            },
            Draw::MoveTo {
                origin: self.origin,
                offset: Pos { col_index: ((digits + 3) as usize) as u16, row_index },
            },
        ]
    }

    /// The row of a line that starts with its character `from`.
    pub open spec fn row(self, line: int, from: int, shown: int) -> Seq<Draw> {
        self.row_start(line, from, shown) + self.row_text(line, from)
    }

    /// The rows of a line from its character `from` on: all of them, or up to the bottom of the
    /// page.
    pub open spec fn line_rows(self, line: int, from: int, shown: int) -> Seq<Draw>
        decreases line_of(self.file.text, line).len() - from,
    {
        let next = from + greater(self.width(), 1);
        if next >= line_of(self.file.text, line).len() || shown + 1 >= self.rows {
            self.row(line, from, shown)
        } else {
            self.row(line, from, shown) + self.line_rows(line, next, shown + 1)
        }
    }

    /// At which row a line ends, where its character `from` starts row `shown`; `None` where the
    /// bottom of the page comes first.
    pub open spec fn line_end(self, line: int, from: int, shown: int) -> Option<int>
        decreases line_of(self.file.text, line).len() - from,
    {
        let next = from + greater(self.width(), 1);
        if next >= line_of(self.file.text, line).len() {
            Some(shown + 1)
        } else if shown + 1 >= self.rows {
            None
        } else {
            self.line_end(line, next, shown + 1)
        }
    }

    /// The lines from `line` on, the first of them in row `shown`.
    pub open spec fn all_rows(self, line: int, shown: int) -> Seq<Draw>
        decreases self.lines() - line,
    {
        if line >= self.lines() {
            Seq::empty()
        } else {
            self.line_rows(line, 0, shown) + match self.line_end(line, 0, shown) {
                Some(next) => self.all_rows(line + 1, next),
                None => Seq::empty(),
            }
        }
    }
}

/// A number with spaces in front, `width` characters wide.
pub open spec fn aligned(n: int, width: int) -> Seq<char> {
    let text = decimal(n);
    if text.len() >= width {
        text
    } else {
        Seq::new((width - text.len()) as nat, |i: int| ' ') + text
    }
}

/// A number with spaces in front, `width` characters wide.
fn align(n: usize, width: usize) -> (r: String)
    ensures
        r@ == aligned(n as int, width as int),
{
    let text = number_text(n);
    let len: usize = chars_of(text.as_str()).len();
    if len >= width {
        text
    } else {
        let mut out = spaces(width - len);
        out.append(text.as_str());
        out
    }
}

/// Converts a byte offset within `s` to a character count.
pub fn byte_to_char(s: &str, byte_offset: usize) -> (r: usize)
    requires
        offset_fits(s@, byte_offset as int),
    ensures
        r == chars_up_to(s@, byte_offset as int),
        r <= s@.len(),
{
    let len: usize = text_len(s);
    let chars = chars_of(s);
    if byte_offset >= len {
        chars.len()
    } else {
        chars_before(&chars, byte_offset)
    }
}

/// Paints a text, with the colours for it applied first.
fn paint_colored(ops: &mut Vec<RenderOp>, text: &str, fg: RgbValue, back: RgbValue)
    ensures
        draws(final(ops)@) == draws(old(ops)@) + colored_text(text@, fg, back),
{
    let ghost before = draws(ops@);
    let style = TuiStyle::of(TuiColor::Rgb(fg), TuiColor::Rgb(back));
    emit(ops, RenderOp::ApplyColors(Some(style)));
    emit(ops, paint(copy_of(text), Some(style)));
    assert(draws(ops@) =~= before + colored_text(text@, fg, back));
}

/// Paints the characters of a line from `seg_start_char` up to `seg_end_char`.
fn paint_line_segment(
    ops: &mut Vec<RenderOp>,
    data: &FileData,
    colored_lines: &Vec<ColoredLine>,
    line_idx: usize,
    seg_start_char: usize,
    seg_end_char: usize,
    theme: &HelixTheme,
    back: RgbValue,
    Ghost(page): Ghost<Page>,
)
    requires
        data.wf(),
        line_idx < data.line_starts@.len(),
        seg_end_char <= line_of(data.content@, line_idx as int).len(),
        page.file.text == data.content@,
        page.file.colors == colors_of(colored_lines@),
        page.file.colors_fit(),
        page.theme == theme@,
    ensures
        draws(final(ops)@) == draws(old(ops)@) + page.piece(
            line_idx as int,
            seg_start_char as int,
            seg_end_char as int,
            back,
        ),
{
    let ghost before = draws(ops@);
    if seg_start_char >= seg_end_char {
        assert(draws(ops@) =~= before + Seq::<Draw>::empty());
        return;
    }
    let default_fg = choose_rgb(theme.ui_fg("ui.text"), RgbValue::new(212, 212, 212));
    let line = data.line(line_idx);
    let ghost text = line_of(data.content@, line_idx as int);
    let from: usize = data.char_to_byte(line_idx, seg_start_char);
    let to: usize = data.char_to_byte(line_idx, seg_end_char);
    let _ = text_len(line);
    proof {
        lemma_char_at(text, seg_start_char as int);
        lemma_char_at(text, seg_end_char as int);
        lemma_byte_at_grows(text, seg_start_char as int, seg_end_char as int);
        lemma_byte_at_grows(text, seg_end_char as int, text.len() as int);
    }
    if line_idx < colored_lines.len() {
        let spans = &colored_lines[line_idx];
        let ghost all = page.file.colors[line_idx as int];
        let mut k: usize = 0;
        assert(before + page.tokens(line_idx as int, 0, from as int, to as int, back) =~= before);
        while k < spans.len()
            invariant
                k <= spans@.len(),
                line_idx < page.file.colors.len(),
                line_idx < starts_of(page.file.text).len(),
                page.file.colors_fit(),
                page.theme == theme@,
                text == line_of(page.file.text, line_idx as int),
                line@ == text,
                all == page.file.colors[line_idx as int],
                all.len() == spans@.len(),
                forall|j: int|
                    0 <= j < all.len() ==> #[trigger] all[j] == (
                        spans@[j].0,
                        spans@[j].1,
                        spans@[j].2@,
                    ),
                default_fg == page.colors().text,
                is_boundary(text, from as int),
                is_boundary(text, to as int),
                to <= byte_len(text),
                draws(ops@) == before + page.tokens(
                    line_idx as int,
                    k as int,
                    from as int,
                    to as int,
                    back,
                ),
            decreases spans@.len() - k,
        {
            let (start, end, kind) = spans[k];
            let a: usize = max_of(start, from);
            let b: usize = min_of(end, to);
            let ghost so_far = draws(ops@);
            assert(all[k as int] == (start, end, kind@));
            if a < b {
                assert(page.file.colors[line_idx as int][k as int] == all[k as int]);
                let part = slice(line, a, b);
                let fg = choose_rgb(theme.color_for_lsp_token(kind), default_fg);
                paint_colored(ops, part, fg, back);
            }
            k += 1;
            assert(draws(ops@) =~= before + page.tokens(
                line_idx as int,
                k as int,
                from as int,
                to as int,
                back,
            ));
        }
    } else {
        let part = slice(line, from, to);
        paint_colored(ops, part, default_fg, back);
    }
}

impl Page {
    /// The page shows a file, and the ends of a drag within one line are characters of that line
    /// or lie behind it.
    pub open spec fn fits(self) -> bool {
        &&& self.file.colors_fit()
        &&& byte_len(self.file.text) <= usize::MAX
        &&& self.drag matches Some((s, e)) ==> (s.0 == e.0 && s.0 < self.lines() ==> {
            let line = line_of(self.file.text, s.0 as int);
            let start = byte_at(self.file.text, starts_of(self.file.text)[s.0 as int]);
            &&& start <= s.1 && offset_fits(line, s.1 - start)
            &&& start <= e.1 && offset_fits(line, e.1 - start)
        })
    }
}

/// The same in executable code: where and what a page is drawn from.
struct PageSource<'a> {
    origin: Pos,
    columns: usize,
    rows: usize,
    data: &'a FileData,
    colored_lines: &'a Vec<ColoredLine>,
    theme: &'a HelixTheme,
    highlights: Option<&'a Vec<(usize, usize)>>,
    drag: Option<((usize, usize), (usize, usize))>,
    colors: PreviewColors,
    digits: usize,
    width: usize,
}

impl<'a> PageSource<'a> {
    /// Whether this is what a page is drawn from.
    spec fn stands_for(self, page: Page) -> bool {
        &&& page.origin == self.origin
        &&& page.columns == self.columns
        &&& page.rows == self.rows
        &&& page.file.text == self.data.content@
        &&& page.file.colors == colors_of(self.colored_lines@)
        &&& page.theme == self.theme@
        &&& page.highlights == match self.highlights {
            Some(ranges) => Some(ranges@),
            None => None,
        }
        &&& page.drag == self.drag
        &&& page.colors() == self.colors
        &&& self.digits == gutter_width(page.lines()) - 3
        &&& self.width == page.width()
        &&& self.width >= 1
        &&& self.data.wf()
        &&& page.fits()
    }

    /// Whether a whole line is highlighted or selected.
    fn is_marked(&self, line: usize, Ghost(page): Ghost<Page>) -> (r: bool)
        requires
            self.stands_for(page),
            line < page.lines(),
        ensures
            r == page.marked(line as int),
    {
        match self.drag {
            Some((s, e)) => s.0 != e.0 && min_of(s.0, e.0) <= line && line <= max_of(s.0, e.0),
            None => match self.highlights {
                Some(ranges) => {
                    let _ = self.data.line_starts.len();
                    let n: usize = line + 1;
                    let mut i: usize = 0;
                    while i < ranges.len()
                        invariant
                            i <= ranges@.len(),
                            n == line + 1,
                            self.drag is None,
                            page.drag == self.drag,
                            page.highlights == Some(ranges@),
                            forall|j: int|
                                0 <= j < i ==> !crate::ranges::in_range(
                                    #[trigger] ranges@[j],
                                    n as int,
                                ),
                        decreases ranges@.len() - i,
                    {
                        if ranges[i].0 <= n && n <= ranges[i].1 {
                            assert(crate::ranges::in_range(ranges@[i as int], n as int));
                            return true;
                        }
                        i += 1;
                    }
                    false
                },
                None => false,
            },
        }
    }

    /// The characters of a line that a drag within it selects.
    fn find_selected(&self, line: usize, Ghost(page): Ghost<Page>) -> (r: Option<(usize, usize)>)
        requires
            self.stands_for(page),
            line < page.lines(),
        ensures
            match r {
                Some((a, b)) => page.selected(line as int) == Some((a as int, b as int)) && a
                    <= line_of(page.file.text, line as int).len() && b <= line_of(
                    page.file.text,
                    line as int,
                ).len(),
                None => page.selected(line as int) is None,
            },
    {
        match self.drag {
            Some((s, e)) => {
                if s.0 == e.0 && s.0 == line {
                    let text = self.data.line(line);
                    let start: usize = self.data.line_starts[line];
                    proof {
                        lemma_starts(page.file.text, page.file.text.len() as int);
                        let at = starts_of(page.file.text)[line as int];
                        lemma_byte_at_grows(page.file.text, at, page.file.text.len() as int);
                        lemma_byte_at_grows(page.file.text, 0, at);
                        assert(start == byte_at(page.file.text, at));
                    }
                    let a: usize = byte_to_char(text, min_of(s.1, e.1) - start);
                    let b: usize = byte_to_char(text, max_of(s.1, e.1) - start);
                    Some((a, b))
                } else {
                    None
                }
            },
            None => None,
        }
    }

    /// Draws what comes before the text in a row.
    fn draw_row_start(
        &self,
        ops: &mut Vec<RenderOp>,
        line: usize,
        from: usize,
        shown: u128,
        marked: bool,
        Ghost(page): Ghost<Page>,
    )
        requires
            self.stands_for(page),
            line < page.lines(),
            marked == page.marked(line as int),
        ensures
            draws(final(ops)@) == draws(old(ops)@) + page.row_start(
                line as int,
                from as int,
                shown as int,
            ),
    {
        let ghost before = draws(ops@);
        let back = TuiStyle::on(
            TuiColor::Rgb(
                if marked {
                    self.colors.marked_back
                } else {
                    self.colors.back
                },
            ),
        );
        let number = if marked {
            self.colors.marked_number
        } else {
            self.colors.number
        };
        let row: u16 = shown as u16;
        let total: usize = self.data.line_starts.len();
        proof {
            lemma_decimal_short(greater(total as int, 1));
        }
        let gutter: usize = self.digits + 3;
        emit(ops, move_to(self.origin, 0, row));
        emit(ops, RenderOp::ApplyColors(Some(back)));
        emit(ops, paint(spaces(self.columns), Some(back)));
        emit(ops, move_to(self.origin, 0, row));
        emit(ops, RenderOp::ApplyColors(Some(number)));
        if from == 0 {
            let mut text = align(line + 1, self.digits);
            text.append("   ");
            emit(ops, paint(text, Some(number)));
        } else {
            emit(ops, paint(spaces(gutter), Some(back)));
        }
        emit(ops, move_to(self.origin, gutter as u16, row));
        assert(draws(ops@) =~= before + page.row_start(line as int, from as int, shown as int));
    }

    /// Draws the text of a row.
    fn draw_row_text(
        &self,
        ops: &mut Vec<RenderOp>,
        line: usize,
        from: usize,
        len: usize,
        marked: bool,
        Ghost(page): Ghost<Page>,
    )
        requires
            self.stands_for(page),
            line < page.lines(),
            len == line_of(page.file.text, line as int).len(),
            from <= len,
            marked == page.marked(line as int),
        ensures
            draws(final(ops)@) == draws(old(ops)@) + page.row_text(line as int, from as int),
    {
        let ghost before = draws(ops@);
        let to: usize = if self.width >= len - from {
            len
        } else {
            from + self.width
        };
        let back = self.colors.back;
        let marked_back = self.colors.marked_back;
        match self.find_selected(line, Ghost(page)) {
            Some((a, b)) => {
                if to <= a || from >= b {
                    self.draw_piece(ops, line, from, to, back, Ghost(page));
                } else {
                    self.draw_piece(ops, line, from, a, back, Ghost(page));
                    self.draw_piece(
                        ops,
                        line,
                        max_of(from, a),
                        min_of(to, b),
                        marked_back,
                        Ghost(page),
                    );
                    self.draw_piece(ops, line, b, to, back, Ghost(page));
                    assert(draws(ops@) =~= before + page.row_text(line as int, from as int));
                }
            },
            None => {
                self.draw_piece(
                    ops,
                    line,
                    from,
                    to,
                    if marked {
                        marked_back
                    } else {
                        back
                    },
                    Ghost(page),
                );
            },
        }
    }

    /// Draws the characters of a line from `from` up to `to`.
    fn draw_piece(
        &self,
        ops: &mut Vec<RenderOp>,
        line: usize,
        from: usize,
        to: usize,
        back: RgbValue,
        Ghost(page): Ghost<Page>,
    )
        requires
            self.stands_for(page),
            line < page.lines(),
            to <= line_of(page.file.text, line as int).len(),
        ensures
            draws(final(ops)@) == draws(old(ops)@) + page.piece(
                line as int,
                from as int,
                to as int,
                back,
            ),
    {
        paint_line_segment(
            ops,
            self.data,
            self.colored_lines,
            line,
            from,
            to,
            self.theme,
            back,
            Ghost(page),
        );
    }

    /// Draws the rows of a line, the first of them in row `shown`. Returns the row below it, or
    /// `None` where the bottom of the page came first.
    fn draw_line(
        &self,
        ops: &mut Vec<RenderOp>,
        line: usize,
        shown: u128,
        Ghost(page): Ghost<Page>,
    ) -> (r: Option<u128>)
        requires
            self.stands_for(page),
            line < page.lines(),
            shown <= self.rows + line,
        ensures
            draws(final(ops)@) == draws(old(ops)@) + page.line_rows(line as int, 0, shown as int),
            match r {
                Some(next) => page.line_end(line as int, 0, shown as int) == Some(next as int)
                    && next <= self.rows + line + 1,
                None => page.line_end(line as int, 0, shown as int) is None,
            },
    {
        let ghost before = draws(ops@);
        let ghost at = line as int;
        let len: usize = chars_of(self.data.line(line)).len();
        let marked = self.is_marked(line, Ghost(page));
        let mut from: usize = 0;
        let mut row: u128 = shown;
        loop
            invariant
                self.stands_for(page),
                line < page.lines(),
                at == line,
                len == line_of(page.file.text, at).len(),
                marked == page.marked(at),
                from <= len,
                row <= self.rows + line,
                before == draws(old(ops)@),
                draws(ops@) + page.line_rows(at, from as int, row as int) == before
                    + page.line_rows(at, 0, shown as int),
                page.line_end(at, from as int, row as int) == page.line_end(at, 0, shown as int),
            decreases len - from,
        {
            let ghost so_far = draws(ops@);
            self.draw_row_start(ops, line, from, row, marked, Ghost(page));
            self.draw_row_text(ops, line, from, len, marked, Ghost(page));
            assert(draws(ops@) =~= so_far + page.row(at, from as int, row as int));
            row = row + 1;
            if self.width >= len - from {
                assert(draws(ops@) =~= before + page.line_rows(at, 0, shown as int));
                return Some(row);
            }
            if row >= self.rows as u128 {
                assert(draws(ops@) =~= before + page.line_rows(at, 0, shown as int));
                return None;
            }
            let ghost next = from + self.width;
            assert(draws(ops@) + page.line_rows(at, next, row as int) =~= so_far + (page.row(
                at,
                from as int,
                row - 1,
            ) + page.line_rows(at, next, row as int)));
            from = from + self.width;
        }
    }

    /// Draws the lines from `scroll` on.
    fn draw_lines(&self, ops: &mut Vec<RenderOp>, scroll: usize, Ghost(page): Ghost<Page>)
        requires
            self.stands_for(page),
        ensures
            draws(final(ops)@) == draws(old(ops)@) + page.all_rows(scroll as int, 0),
    {
        let ghost before = draws(ops@);
        let ghost all = page.all_rows(scroll as int, 0);
        let total: usize = self.data.line_starts.len();
        let mut line: usize = scroll;
        let mut row: u128 = 0;
        while line < total
            invariant
                self.stands_for(page),
                total == page.lines(),
                row <= self.rows + line,
                before == draws(old(ops)@),
                all == page.all_rows(scroll as int, 0),
                draws(ops@) + page.all_rows(line as int, row as int) == before + all,
            decreases total - line,
        {
            let ghost so_far = draws(ops@);
            match self.draw_line(ops, line, row, Ghost(page)) {
                Some(next) => {
                    assert(draws(ops@) + page.all_rows(line + 1, next as int) =~= so_far + (
                    page.line_rows(line as int, 0, row as int) + page.all_rows(
                        line + 1,
                        next as int,
                    )));
                    row = next;
                },
                None => {
                    assert(draws(ops@) =~= before + all);
                    return;
                },
            }
            line += 1;
        }
        assert(draws(ops@) =~= before + all);
    }
}

/// The geometry of the content of a preview, in a box.
pub open spec fn placed_in(p: Preview, b: FlexBox) -> Preview {
    Preview {
        content_origin_row: b.style_adjusted_origin_pos.row_index as usize,
        content_origin_col: b.style_adjusted_origin_pos.col_index as usize,
        content_col_count: b.style_adjusted_bounds_size.col_width as usize,
        content_row_count: b.style_adjusted_bounds_size.row_height as usize,
        ..p
    }
}

/// The page and the length of a file are taken note of.
pub open spec fn measured(app: App, key: FileKey, rows: usize) -> App {
    let window = Window::FilePreview(key);
    let lines = starts_of(app.files[key.0 as int].text).len() as usize;
    App {
        panes: app.panes.with_state(
            window,
            WindowState {
                page_size: rows,
                scroll_max: lines,
                ..app.panes.state_of(window)
            }.clamped(),
        ),
        ..app
    }
}

/// The page of a file that a preview shows in a box.
pub open spec fn page_of(p: Preview, app: App, key: FileKey, b: FlexBox) -> Page {
    Page {
        origin: b.style_adjusted_origin_pos,
        columns: b.style_adjusted_bounds_size.col_width as int,
        rows: b.style_adjusted_bounds_size.row_height as int,
        file: app.files[key.0 as int],
        theme: app.theme,
        highlights: if app.highlights.contains_key(key) {
            Some(app.highlights[key])
        } else {
            None
        },
        drag: if p.text_drag_active {
            Some((p.text_drag_start->0, p.text_drag_end->0))
        } else {
            None
        },
    }
}

/// What a preview draws in a box.
pub open spec fn preview_draws(p: Preview, app: App, b: FlexBox) -> Seq<Draw> {
    match file_in(app, p.id) {
        Some(key) => {
            let after = measured(app, key, b.style_adjusted_bounds_size.row_height as usize);
            page_of(p, app, key, b).all_rows(
                after.panes.state_of(Window::FilePreview(key)).scroll as int,
                0,
            )
        },
        None => Seq::empty(),
    }
}

impl FilePreviewComponent {
    /// Draws the file in a box, from the line on that it is scrolled to, and takes note of the
    /// box.
    pub fn render(&mut self, ops: &mut Vec<RenderOp>, state: &mut AppState, current_box: FlexBox)
        requires
            old(state).wf(),
            old(self)@.wf(),
            file_in(old(state)@, old(self)@.id) matches Some(key) ==> page_of(
                old(self)@,
                old(state)@,
                key,
                current_box,
            ).fits(),
        ensures
            final(self)@ == placed_in(old(self)@, current_box),
            final(state)@ == match file_in(old(state)@, old(self)@.id) {
                Some(key) => measured(
                    old(state)@,
                    key,
                    current_box.style_adjusted_bounds_size.row_height as usize,
                ),
                None => old(state)@,
            },
            final(state).files == old(state).files,
            final(state).wf(),
            draws(final(ops)@) == draws(old(ops)@) + preview_draws(
                old(self)@,
                old(state)@,
                current_box,
            ),
    {
        let ghost before = draws(ops@);
        let ghost app = state@;
        let ghost p = self@;
        let origin = current_box.style_adjusted_origin_pos;
        let rows: usize = current_box.style_adjusted_bounds_size.row_height as usize;
        let columns: usize = current_box.style_adjusted_bounds_size.col_width as usize;
        self.content_origin_row = origin.row_index as usize;
        self.content_origin_col = origin.col_index as usize;
        self.content_col_count = columns;
        self.content_row_count = rows;
        let key: FileKey = match self.file_key(state) {
            Some(key) => key,
            None => {
                assert(draws(ops@) =~= before + Seq::<Draw>::empty());
                return;
            },
        };
        let window = Window::FilePreview(key);
        let lines: usize = state.files[key.0].data.line_starts.len();
        assert(state.files@[key.0 as int].data.wf());
        state.pane_manager.set_window_page_size(&window, rows);
        state.pane_manager.set_window_scroll_max(&window, lines);
        state.pane_manager.clamp_scroll(&window);
        proof {
            lemma_still_wf(app, state@);
        }
        assert(state@ =~= measured(app, key, rows)) by {
            assert(state@.panes.states =~= measured(app, key, rows).panes.states);
        }
        let scroll: usize = state.pane_manager.window_scroll(&window);
        let file = &state.files[key.0];
        let drag: Option<((usize, usize), (usize, usize))> = if self.text_drag_active {
            match (self.text_drag_start, self.text_drag_end) {
                (Some(s), Some(e)) => Some((s, e)),
                _ => None,
            }
        } else {
            None
        };
        let source = PageSource {
            origin,
            columns,
            rows,
            data: &file.data,
            colored_lines: &file.colored_lines,
            theme: &state.theme,
            highlights: state.highlight_ranges.get(&key),
            drag,
            colors: colors_from(&state.theme),
            digits: line_number_width(lines),
            width: content_width(columns, lines),
        };
        let ghost page = page_of(p, app, key, current_box);
        source.draw_lines(ops, scroll, Ghost(page));
    }
}

} // verus!
