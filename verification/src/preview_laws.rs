//! What a preview shows.

use vstd::prelude::*;
use crate::bytes::{byte_at, byte_len, char_at, is_boundary, lemma_byte_at_grows, lemma_char_at};
use crate::canvas::{
    Canvas, Shown, lemma_painted_in_turn, lemma_painted_one, lemma_painted_text,
    lemma_painted_three, lemma_painted_two, same_but_row, shows_text,
};
use crate::geometry::FlexBox;
use crate::loader::{lemma_starts, line_of, starts_of};
use crate::number::{decimal, lemma_decimal_short};
use crate::pane_manager::Window;
use crate::preview::{Preview, file_in};
use crate::preview_draw::{
    Page, aligned, chars_up_to, colored_text, measured, page_of, preview_draws,
};
use crate::preview_text::gutter_width;
use crate::ranges::in_range;
use crate::render::{Draw, RgbValue, TuiColor, colored};
use crate::screen::{greater, lesser};
use crate::state::{App, offset_fits};
use crate::theme::token_scopes;
use crate::title_row::rgb_or;

verus! {

/// A larger number has no fewer digits.
proof fn lemma_decimal_grows(m: int, n: int)
    requires
        0 <= m <= n,
    ensures
        1 <= decimal(m).len() <= decimal(n).len(),
    decreases n,
{
    if m >= 10 {
        lemma_decimal_grows(m / 10, n / 10);
    } else if n >= 10 {
        lemma_decimal_grows(0, n / 10);
    }
}

/// Whether a token of a line starts where the one before it ends, or at the start of the line.
pub open spec fn token_follows(page: Page, line: int, k: int) -> bool {
    let (start, end, _) = page.file.colors[line][k];
    start <= end && start == token_end(page, line, k)
}

/// Whether the tokens of a line follow each other from its start on, without gap or overlap.
pub open spec fn tokens_follow(page: Page, line: int) -> bool {
    line < page.file.colors.len() ==> forall|k: int|
        0 <= k < page.file.colors[line].len() ==> #[trigger] token_follows(page, line, k)
}

/// Where the first `n` tokens of a line end.
pub open spec fn token_end(page: Page, line: int, n: int) -> int {
    if n <= 0 {
        0
    } else {
        page.file.colors[line][n - 1].1 as int
    }
}

/// How many characters of a line are shown: those in tokens, where it has any, and else all.
pub open spec fn covered(page: Page, line: int) -> int {
    let text = line_of(page.file.text, line);
    if line < page.file.colors.len() {
        chars_up_to(text, token_end(page, line, page.file.colors[line].len() as int))
    } else {
        text.len() as int
    }
}

/// Whether a colour is that of the text at a byte of a line: that of the token there, by the theme,
/// or that of plain text.
pub open spec fn is_color_at(page: Page, line: int, byte: int, color: Option<TuiColor>) -> bool {
    let plain = page.colors().text;
    if line < page.file.colors.len() {
        exists|k: int|
            0 <= k < page.file.colors[line].len() && (#[trigger] page.file.colors[line][k]).0
                <= byte < page.file.colors[line][k].1 && color == Some(
                TuiColor::Rgb(
                    rgb_or(
                        page.theme.first_color(token_scopes(page.file.colors[line][k].2), 0),
                        plain,
                    ),
                ),
            )
    } else {
        color == Some(TuiColor::Rgb(plain))
    }
}

/// Whether a cell shows a character of a line, in its colour, on a background.
#[verifier::opaque]
pub open spec fn shows_char(
    shown: Option<Shown>,
    page: Page,
    line: int,
    k: int,
    back: RgbValue,
) -> bool {
    let text = line_of(page.file.text, line);
    &&& shown matches Some(s)
    &&& s.text == text[k]
    &&& s.style matches Some(style)
    &&& style.color_bg == Some(TuiColor::Rgb(back))
    &&& is_color_at(page, line, byte_at(text, k), style.color_fg)
}

/// Characters that start earlier come earlier.
proof fn lemma_char_order(text: Seq<char>, i: int, j: int)
    requires
        0 <= i <= text.len(),
        0 <= j <= text.len(),
    ensures
        byte_at(text, i) < byte_at(text, j) <==> i < j,
        byte_at(text, i) <= byte_at(text, j) <==> i <= j,
{
    if i <= j {
        lemma_byte_at_grows(text, i, j);
    } else {
        lemma_byte_at_grows(text, j, i);
    }
}

/// The character at a boundary starts there.
proof fn lemma_char_at_boundary(text: Seq<char>, byte: int)
    requires
        is_boundary(text, byte),
    ensures
        0 <= char_at(text, byte) <= text.len(),
        byte_at(text, char_at(text, byte)) == byte,
{
    let i = choose|i: int| 0 <= i <= text.len() && #[trigger] byte_at(text, i) == byte;
    lemma_char_at(text, i);
}

/// Up to which character the tokens that end at a byte show the characters from `from` up to `to`.
spec fn shown_until(text: Seq<char>, from: int, to: int, end: int) -> int {
    if end <= byte_at(text, from) {
        from
    } else if end >= byte_at(text, to) {
        to
    } else {
        char_at(text, end)
    }
}

/// What a surface shows after characters of a line were painted where the cursor was.
spec fn has_chars(
    done: Canvas,
    c: Canvas,
    page: Page,
    line: int,
    from: int,
    to: int,
    back: RgbValue,
) -> bool {
    &&& done.row == c.row
    &&& done.col == c.col + (to - from)
    &&& forall|y: int, x: int|
        y != c.row || x < c.col || x >= c.col + (to - from) ==> #[trigger] done.at(y, x) == c.at(
            y,
            x,
        )
    &&& forall|x: int|
        c.col <= x < c.col + (to - from) ==> shows_char(
            #[trigger] done.at(c.row, x),
            page,
            line,
            from + (x - c.col),
            back,
        )
}

/// The first tokens of a line show its characters up to where they end.
#[verifier::rlimit(40)]
proof fn lemma_tokens_show(
    c: Canvas,
    page: Page,
    line: int,
    n: int,
    from: int,
    to: int,
    back: RgbValue,
)
    requires
        0 <= line < page.lines(),
        line < page.file.colors.len(),
        0 <= n <= page.file.colors[line].len(),
        0 <= from < to <= line_of(page.file.text, line).len(),
        page.file.colors_fit(),
        tokens_follow(page, line),
    ensures
        ({
            let text = line_of(page.file.text, line);
            let stop = shown_until(text, from, to, token_end(page, line, n));
            let done = c.painted(
                page.tokens(line, n, byte_at(text, from), byte_at(text, to), back),
            );
            &&& from <= stop <= to
            &&& has_chars(done, c, page, line, from, stop, back)
        }),
    decreases n,
{
    let text = line_of(page.file.text, line);
    let fb = byte_at(text, from);
    let tb = byte_at(text, to);
    lemma_char_order(text, from, to);
    lemma_char_at(text, from);
    lemma_char_at(text, to);
    lemma_byte_at_grows(text, 0, from);
    lemma_byte_at_grows(text, to, text.len() as int);
    if n > 0 {
        lemma_tokens_show(c, page, line, n - 1, from, to, back);
        let (start, end, kind) = page.file.colors[line][n - 1];
        assert(token_follows(page, line, n - 1));
        assert(offset_fits(text, start as int) && offset_fits(text, end as int));
        let a = greater(start as int, fb);
        let b = lesser(end as int, tb);
        let first = page.tokens(line, n - 1, fb, tb, back);
        let mid = c.painted(first);
        let before = shown_until(text, from, to, start as int);
        let stop = shown_until(text, from, to, end as int);
        if a < b {
            if start > fb {
                lemma_char_at_boundary(text, start as int);
            }
            if end < tb {
                lemma_char_at_boundary(text, end as int);
            }
            let i = char_at(text, a);
            let j = char_at(text, b);
            assert(i == before);
            assert(j == stop);
            assert(byte_at(text, i) == a && byte_at(text, j) == b);
            lemma_char_order(text, i, j);
            lemma_char_order(text, from, i);
            lemma_char_order(text, j, to);
            let fg = rgb_or(page.theme.first_color(token_scopes(kind), 0), page.colors().text);
            let style = colored(TuiColor::Rgb(fg), TuiColor::Rgb(back));
            let part = text.subrange(i, j);
            let last = colored_text(part, fg, back);
            lemma_painted_in_turn(c, first, last);
            lemma_painted_two(
                mid,
                Draw::ApplyColors(Some(style)),
                Draw::Paint { text: part, style: Some(style) },
            );
            lemma_painted_text(mid, part, Some(style));
            let done = mid.with_text(part, Some(style));
            assert(c.painted(page.tokens(line, n, fb, tb, back)) == done);
            assert(shows_text(done, mid, c.row, c.col + (before - from), part, Some(style)));
            assert forall|x: int| c.col <= x < c.col + (stop - from) implies shows_char(
                #[trigger] done.at(c.row, x),
                page,
                line,
                from + (x - c.col),
                back,
            ) by {
                let k = from + (x - c.col);
                if k < i {
                    assert(done.at(c.row, x) == mid.at(c.row, x));
                } else {
                    assert(done.at(c.row, x) == Some(
                        Shown { text: part[k - i], style: Some(style) },
                    ));
                    lemma_char_order(text, i, k);
                    lemma_char_order(text, k, j);
                    assert(page.file.colors[line][n - 1].0 <= byte_at(text, k)
                        < page.file.colors[line][n - 1].1);
                    reveal(shows_char);
                }
            }
            assert forall|y: int, x: int|
                y != c.row || x < c.col || x >= c.col + (stop - from) implies #[trigger] done.at(
                y,
                x,
            ) == c.at(y, x) by {
                assert(done.at(y, x) == mid.at(y, x));
            }
        } else {
            assert(page.tokens(line, n, fb, tb, back) =~= first);
            assert(stop == before);
        }
    }
}

/// A piece of a line shows its characters, as far as they are covered.
proof fn lemma_piece_shows(
    c: Canvas,
    page: Page,
    line: int,
    from: int,
    to: int,
    back: RgbValue,
)
    requires
        0 <= line < page.lines(),
        0 <= from,
        to <= line_of(page.file.text, line).len(),
        page.file.colors_fit(),
        tokens_follow(page, line),
    ensures
        0 <= covered(page, line) <= line_of(page.file.text, line).len(),
        ({
            let end = lesser(to, covered(page, line));
            has_chars(
                c.painted(page.piece(line, from, to, back)),
                c,
                page,
                line,
                from,
                greater(from, end),
                back,
            )
        }),
{
    let text = line_of(page.file.text, line);
    if line < page.file.colors.len() {
        let n = page.file.colors[line].len() as int;
        let end = token_end(page, line, n);
        if n > 0 {
            assert(offset_fits(text, page.file.colors[line][n - 1].1 as int));
        } else {
            lemma_char_at(text, 0);
        }
        if end < byte_len(text) {
            lemma_char_at_boundary(text, end);
        }
        if from < to {
            lemma_tokens_show(c, page, line, n, from, to, back);
            lemma_char_order(text, from, to);
            lemma_char_order(text, to, text.len() as int);
            if end < byte_len(text) {
                lemma_char_order(text, covered(page, line), from);
                lemma_char_order(text, covered(page, line), to);
                lemma_char_order(text, from, covered(page, line));
                lemma_char_order(text, to, covered(page, line));
            }
            assert(shown_until(text, from, to, end) == greater(
                from,
                lesser(to, covered(page, line)),
            ));
        } else {
            assert(page.piece(line, from, to, back) =~= Seq::empty());
        }
    } else if from < to {
        let style = colored(TuiColor::Rgb(page.colors().text), TuiColor::Rgb(back));
        let part = text.subrange(from, to);
        lemma_painted_two(
            c,
            Draw::ApplyColors(Some(style)),
            Draw::Paint { text: part, style: Some(style) },
        );
        lemma_painted_text(c, part, Some(style));
        let done = c.with_text(part, Some(style));
        assert(c.painted(page.piece(line, from, to, back)) == done);
        assert forall|x: int| c.col <= x < c.col + (to - from) implies shows_char(
            #[trigger] done.at(c.row, x),
            page,
            line,
            from + (x - c.col),
            back,
        ) by {
            assert(done.at(c.row, x) == Some(
                Shown { text: part[x - c.col], style: Some(style) },
            ));
            reveal(shows_char);
        }
        assert(has_chars(done, c, page, line, from, to, back));
    } else {
        assert(page.piece(line, from, to, back) =~= Seq::empty());
    }
}

/// Whether a character of a line is highlighted: a drag within one line marks what lies between its
/// ends, one over several lines marks these lines, and without a drag the highlighted ranges are
/// marked.
pub open spec fn is_highlighted(page: Page, line: int, k: int) -> bool {
    match page.drag {
        Some((s, e)) => if s.0 == e.0 {
            let byte = byte_at(page.file.text, starts_of(page.file.text)[line]) + byte_at(
                line_of(page.file.text, line),
                k,
            );
            line == s.0 && ((s.1 <= byte < e.1) || (e.1 <= byte < s.1))
        } else {
            (s.0 <= line <= e.0) || (e.0 <= line <= s.0)
        },
        None => match page.highlights {
            Some(ranges) => exists|i: int|
                0 <= i < ranges.len() && in_range(#[trigger] ranges[i], line + 1),
            None => false,
        },
    }
}

/// The background of a character of a line.
pub open spec fn back_of(page: Page, line: int, k: int) -> RgbValue {
    if is_highlighted(page, line, k) {
        page.colors().marked_back
    } else {
        page.colors().back
    }
}

/// What a surface shows after characters of a line were painted where the cursor was, each on its
/// background.
spec fn has_row(done: Canvas, c: Canvas, page: Page, line: int, from: int, to: int) -> bool {
    &&& forall|y: int, x: int|
        y != c.row || x < c.col || x >= c.col + (to - from) ==> #[trigger] done.at(y, x) == c.at(
            y,
            x,
        )
    &&& forall|x: int|
        c.col <= x < c.col + (to - from) ==> shows_char(
            #[trigger] done.at(c.row, x),
            page,
            line,
            from + (x - c.col),
            back_of(page, line, from + (x - c.col)),
        )
}

/// A character lies before another place in a line where its byte does.
proof fn lemma_chars_up_to(text: Seq<char>, byte: int, k: int)
    requires
        offset_fits(text, byte),
        0 <= byte,
        0 <= k < text.len(),
    ensures
        0 <= chars_up_to(text, byte) <= text.len(),
        k < chars_up_to(text, byte) <==> byte_at(text, k) < byte,
{
    lemma_char_order(text, k, text.len() as int);
    if byte < byte_len(text) {
        lemma_char_at_boundary(text, byte);
        lemma_char_order(text, k, char_at(text, byte));
    }
}

/// Three pieces that follow each other show their characters, the middle one on another background.
proof fn lemma_three_pieces_show(
    c: Canvas,
    c1: Canvas,
    c2: Canvas,
    done: Canvas,
    page: Page,
    line: int,
    from: int,
    to: int,
    a: int,
    b: int,
    cover: int,
    back: RgbValue,
    marked_back: RgbValue,
)
    requires
        from < b,
        a < to,
        a <= b,
        from < to,
        has_chars(c1, c, page, line, from, greater(from, lesser(a, cover)), back),
        has_chars(
            c2,
            c1,
            page,
            line,
            greater(from, a),
            greater(greater(from, a), lesser(lesser(to, b), cover)),
            marked_back,
        ),
        has_chars(done, c2, page, line, b, greater(b, lesser(to, cover)), back),
    ensures
        forall|y: int, x: int|
            y != c.row || x < c.col || x >= c.col + (greater(from, lesser(to, cover)) - from)
                ==> #[trigger] done.at(y, x) == c.at(y, x),
        forall|x: int|
            c.col <= x < c.col + (greater(from, lesser(to, cover)) - from) ==> shows_char(
                #[trigger] done.at(c.row, x),
                page,
                line,
                from + (x - c.col),
                if a <= from + (x - c.col) < b {
                    marked_back
                } else {
                    back
                },
            ),
{
    let end = greater(from, lesser(to, cover));
    let mid_from = greater(from, a);
    assert forall|x: int| c.col <= x < c.col + (end - from) implies shows_char(
        #[trigger] done.at(c.row, x),
        page,
        line,
        from + (x - c.col),
        if a <= from + (x - c.col) < b {
            marked_back
        } else {
            back
        },
    ) by {
        let k = from + (x - c.col);
        if k < a {
            assert(c1.at(c.row, x) == c2.at(c.row, x));
            assert(c2.at(c.row, x) == done.at(c.row, x));
        } else if k < b {
            assert(c1.col == c.col + (mid_from - from));
            assert(c2.at(c1.row, x) == done.at(c.row, x));
        } else {
            assert(c2.col == c.col + (b - from));
            assert(c2.row == c.row);
        }
    }
    assert forall|y: int, x: int|
        y != c.row || x < c.col || x >= c.col + (end - from) implies #[trigger] done.at(y, x)
        == c.at(y, x) by {
        assert(done.at(y, x) == c2.at(y, x));
        assert(c2.at(y, x) == c1.at(y, x));
        assert(c1.at(y, x) == c.at(y, x));
    }
}

/// Characters between two byte offsets are those whose bytes are.
proof fn lemma_chars_between(text: Seq<char>, lo: int, hi: int)
    requires
        0 <= lo <= hi,
        offset_fits(text, lo),
        offset_fits(text, hi),
    ensures
        0 <= chars_up_to(text, lo) <= chars_up_to(text, hi) <= text.len(),
        forall|k: int|
            0 <= k < text.len() ==> (chars_up_to(text, lo) <= k < chars_up_to(text, hi) <==> lo
                <= #[trigger] byte_at(text, k) < hi),
{
    let a = chars_up_to(text, lo);
    let b = chars_up_to(text, hi);
    if text.len() > 0 {
        lemma_chars_up_to(text, lo, 0);
        lemma_chars_up_to(text, hi, 0);
        if b < a {
            lemma_chars_up_to(text, lo, b);
            lemma_chars_up_to(text, hi, b);
        }
    } else {
        assert(byte_len(text) == 0);
    }
    assert forall|k: int|
        0 <= k < text.len() implies (a <= k < b <==> lo <= #[trigger] byte_at(text, k) < hi) by {
        lemma_chars_up_to(text, lo, k);
        lemma_chars_up_to(text, hi, k);
    }
}

/// The characters that a drag within a line selects are those between its ends.
proof fn lemma_selected_chars(page: Page, line: int)
    requires
        0 <= line < page.lines(),
        page.fits(),
    ensures
        match page.selected(line) {
            Some((a, b)) => {
                &&& 0 <= a <= b <= line_of(page.file.text, line).len()
                &&& forall|k: int|
                    0 <= k < line_of(page.file.text, line).len() ==> (a <= k < b
                        <==> #[trigger] is_highlighted(page, line, k))
            },
            None => forall|k: int|
                0 <= k < line_of(page.file.text, line).len() ==> (page.marked(line)
                    <==> #[trigger] is_highlighted(page, line, k)),
        },
{
    let text = line_of(page.file.text, line);
    if let Some((a, b)) = page.selected(line) {
        let (s, e) = page.drag->0;
        let start = byte_at(page.file.text, starts_of(page.file.text)[line]);
        let lo = lesser(s.1 as int, e.1 as int) - start;
        let hi = greater(s.1 as int, e.1 as int) - start;
        lemma_chars_between(text, lo, hi);
    }
}

/// The text of a row shows the characters of the line from `from` on, as many as fit.
proof fn lemma_row_text_shows(c: Canvas, page: Page, line: int, from: int)
    requires
        0 <= line < page.lines(),
        0 <= from <= line_of(page.file.text, line).len(),
        page.fits(),
        page.width() >= 1,
        tokens_follow(page, line),
    ensures
        ({
            let to = lesser(from + page.width(), covered(page, line));
            has_row(c.painted(page.row_text(line, from)), c, page, line, from, greater(from, to))
        }),
{
    let text = line_of(page.file.text, line);
    let colors = page.colors();
    let to = lesser(from + page.width(), text.len() as int);
    let done = c.painted(page.row_text(line, from));
    lemma_selected_chars(page, line);
    lemma_piece_shows(c, page, line, from, to, colors.back);
    lemma_piece_shows(c, page, line, from, to, colors.marked_back);
    let end = greater(from, lesser(to, covered(page, line)));
    match page.selected(line) {
        Some((a, b)) => {
            if to <= a || from >= b {
                assert(has_chars(done, c, page, line, from, end, colors.back));
            } else {
                let mid_from = greater(from, a);
                let mid_to = lesser(to, b);
                let one = page.piece(line, from, a, colors.back);
                let two = page.piece(line, mid_from, mid_to, colors.marked_back);
                let three = page.piece(line, b, to, colors.back);
                lemma_painted_in_turn(c, one + two, three);
                lemma_painted_in_turn(c, one, two);
                let c1 = c.painted(one);
                let c2 = c1.painted(two);
                lemma_piece_shows(c, page, line, from, a, colors.back);
                lemma_piece_shows(c1, page, line, mid_from, mid_to, colors.marked_back);
                lemma_piece_shows(c2, page, line, b, to, colors.back);
                lemma_three_pieces_show(
                    c,
                    c1,
                    c2,
                    done,
                    page,
                    line,
                    from,
                    to,
                    a,
                    b,
                    covered(page, line),
                    colors.back,
                    colors.marked_back,
                );
            }
        },
        None => {
            let back = if page.marked(line) {
                colors.marked_back
            } else {
                colors.back
            };
            assert(has_chars(done, c, page, line, from, end, back));
        },
    }
    assert forall|x: int| c.col <= x < c.col + (end - from) implies shows_char(
        #[trigger] done.at(c.row, x),
        page,
        line,
        from + (x - c.col),
        back_of(page, line, from + (x - c.col)),
    ) by {
        let marked = is_highlighted(page, line, from + (x - c.col));
    }
}

/// How many characters of a line a row shows that starts with its character `from`: as many as fit,
/// and as many as there are.
pub open spec fn chars_in_row(page: Page, line: int, from: int) -> int {
    greater(lesser(page.width(), covered(page, line) - from), 0)
}

/// Whether a row of a surface shows a row of a page: before the text stands the number of the line,
/// counted from 1 and right-aligned, where the row is the first of the line, and else nothing; and
/// behind it stand the characters of the line from `from` on, one a cell, each in its colour and on
/// its background, and nothing else.
pub open spec fn shows_row(c: Canvas, page: Page, line: int, from: int, shown: int) -> bool {
    let y = page.origin.row_index + shown;
    let left = page.origin.col_index as int;
    let text = left + gutter_width(page.lines());
    let number = decimal(line + 1);
    let digits = text - 3 - number.len();
    let end = text + chars_in_row(page, line, from);
    &&& forall|x: int|
        from == 0 && digits <= x < text - 3 ==> ((#[trigger] c.at(y, x)) matches Some(s) && s.text
            == number[x - digits])
    &&& forall|x: int|
        left <= x < text && !(from == 0 && digits <= x < text - 3) ==> ((#[trigger] c.at(
            y,
            x,
        )) matches Some(s) && s.text == ' ')
    &&& forall|x: int|
        text <= x < end ==> shows_char(
            #[trigger] c.at(y, x),
            page,
            line,
            from + (x - text),
            back_of(page, line, from + (x - text)),
        )
    &&& forall|x: int|
        end <= x < left + page.columns ==> ((#[trigger] c.at(y, x)) matches Some(s) && s.text
            == ' ')
}

/// What comes before the text in a row, and where the cursor is then.
proof fn lemma_row_start_shows(c: Canvas, page: Page, line: int, from: int, shown: int)
    requires
        0 <= line < page.lines() <= u64::MAX,
        0 <= shown < 0x1_0000,
        0 <= page.columns,
    ensures
        ({
            let done = c.painted(page.row_start(line, from, shown));
            let y = page.origin.row_index + shown;
            let left = page.origin.col_index as int;
            let text = left + gutter_width(page.lines());
            let number = decimal(line + 1);
            let digits = text - 3 - number.len();
            &&& done.row == y
            &&& done.col == text
            &&& left <= digits
            &&& same_but_row(done, c, y)
            &&& forall|x: int|
                from == 0 && digits <= x < text - 3 ==> ((#[trigger] done.at(y, x)) matches Some(s)
                    && s.text == number[x - digits])
            &&& forall|x: int|
                (left <= x < text || left <= x < left + page.columns) && !(from == 0 && digits <= x
                    < text - 3) ==> ((#[trigger] done.at(y, x)) matches Some(s) && s.text == ' ')
        }),
{
    reveal_strlit("   ");
    let lines = page.lines();
    lemma_decimal_grows(line + 1, greater(lines, 1));
    lemma_decimal_short(greater(lines, 1));
    let width = gutter_width(lines) - 3;
    let number = decimal(line + 1);
    let ops = page.row_start(line, from, shown);
    let y = page.origin.row_index + shown;
    let left = page.origin.col_index as int;
    let spaces = Seq::new(page.columns as nat, |i: int| ' ');
    assert(ops =~= seq![ops[0], ops[1], ops[2]] + seq![ops[3], ops[4], ops[5]] + seq![ops[6]]);
    let one = seq![ops[0], ops[1], ops[2]];
    let two = seq![ops[3], ops[4], ops[5]];
    lemma_painted_in_turn(c, one + two, seq![ops[6]]);
    lemma_painted_in_turn(c, one, two);
    lemma_painted_three(c, ops[0], ops[1], ops[2]);
    let a = c.after(ops[0]).after(ops[1]);
    let back = ops[2]->style;
    assert(ops[2] == Draw::Paint { text: spaces, style: back });
    lemma_painted_text(a, spaces, back);
    let c1 = a.with_text(spaces, back);
    lemma_painted_three(c1, ops[3], ops[4], ops[5]);
    let b = c1.after(ops[3]).after(ops[4]);
    let text = ops[5]->Paint_text;
    let style = ops[5]->Paint_style;
    assert(ops[5] == Draw::Paint { text, style });
    assert(text.len() == width + 3);
    lemma_painted_text(b, text, style);
    let c2 = b.with_text(text, style);
    lemma_painted_one(c2, ops[6]);
    let done = c2.after(ops[6]);
    assert(c.painted(ops) == done);
    assert(a.row == y && a.col == left && b.row == y && b.col == left);
    assert forall|x: int, z: int| #[trigger] done.at(z, x) == if z == y && left <= x < left
        + text.len() {
        Some(Shown { text: text[x - left], style })
    } else if z == y && left <= x < left + page.columns {
        Some(Shown { text: ' ', style: back })
    } else {
        c.at(z, x)
    } by {
        assert(done.at(z, x) == c2.at(z, x));
        assert(b.at(z, x) == c1.at(z, x));
        assert(a.at(z, x) == c.at(z, x));
    }
    if from == 0 {
        assert(text == aligned(line + 1, width) + "   "@);
        let pad = width - number.len();
        assert forall|i: int| 0 <= i < text.len() implies #[trigger] text[i] == if pad <= i
            < width {
            number[i - pad]
        } else {
            ' '
        } by {}
    } else {
        assert forall|i: int| 0 <= i < text.len() implies #[trigger] text[i] == ' ' by {}
    }
}

/// A row shows the number and the text of its line, and nothing is changed outside the row.
proof fn lemma_row_shows(c: Canvas, page: Page, line: int, from: int, shown: int)
    requires
        0 <= line < page.lines() <= u64::MAX,
        0 <= shown < 0x1_0000,
        0 <= page.columns,
        0 <= from <= line_of(page.file.text, line).len(),
        page.fits(),
        page.width() >= 1,
        tokens_follow(page, line),
    ensures
        shows_row(c.painted(page.row(line, from, shown)), page, line, from, shown),
        same_but_row(
            c.painted(page.row(line, from, shown)),
            c,
            page.origin.row_index + shown,
        ),
{
    let start = page.row_start(line, from, shown);
    let text = page.row_text(line, from);
    lemma_painted_in_turn(c, start, text);
    lemma_row_start_shows(c, page, line, from, shown);
    let mid = c.painted(start);
    lemma_row_text_shows(mid, page, line, from);
    let done = mid.painted(text);
    let to = greater(from, lesser(from + page.width(), covered(page, line)));
    assert(to - from == chars_in_row(page, line, from));
    assert(has_row(done, mid, page, line, from, to));
    let y = page.origin.row_index + shown;
    assert forall|z: int, x: int| z != y implies #[trigger] done.at(z, x) == c.at(z, x) by {
        assert(done.at(z, x) == mid.at(z, x));
    }
    let at = page.origin.col_index + gutter_width(page.lines());
    assert(mid.row == y && mid.col == at);
    assert forall|x: int| x < at || x >= at + (to - from) implies #[trigger] done.at(y, x)
        == mid.at(y, x) by {}
}

/// Which row of a file follows another: the next characters of the same line, where it has more
/// than a row holds, and else the next line.
pub open spec fn next_place(page: Page, place: (int, int)) -> (int, int) {
    if place.1 + page.width() < line_of(page.file.text, place.0).len() {
        (place.0, place.1 + page.width())
    } else {
        (place.0 + 1, 0)
    }
}

/// The row that stands `n` rows below another: its line, and with which character it starts.
pub open spec fn place_below(page: Page, place: (int, int), n: int) -> (int, int)
    decreases n,
{
    if n <= 0 {
        place
    } else {
        place_below(page, next_place(page, place), n - 1)
    }
}

/// Rows further down are of later lines.
pub proof fn lemma_place_below(page: Page, place: (int, int), m: int, n: int)
    requires
        0 <= m,
        0 <= n,
    ensures
        place_below(page, place, m + n) == place_below(page, place_below(page, place, m), n),
        place.0 <= place_below(page, place, m).0 <= place_below(page, place, m + n).0,
    decreases m + n,
{
    if m > 0 {
        lemma_place_below(page, next_place(page, place), m - 1, n);
    } else if n > 0 {
        lemma_place_below(page, next_place(page, place), 0, n - 1);
    }
}

/// How many rows of a line are drawn, from its character `from` on.
spec fn rows_drawn(page: Page, line: int, from: int, shown: int) -> int
    decreases line_of(page.file.text, line).len() - from,
{
    let next = from + greater(page.width(), 1);
    if next >= line_of(page.file.text, line).len() || shown + 1 >= page.rows {
        1
    } else {
        1 + rows_drawn(page, line, next, shown + 1)
    }
}

/// How many rows of a line are drawn, and what follows them.
proof fn lemma_rows_drawn(page: Page, line: int, from: int, shown: int)
    requires
        page.width() >= 1,
    ensures
        rows_drawn(page, line, from, shown) >= 1,
        match page.line_end(line, from, shown) {
            Some(end) => end == shown + rows_drawn(page, line, from, shown) && place_below(
                page,
                (line, from),
                rows_drawn(page, line, from, shown),
            ) == (line + 1, 0int),
            None => shown + rows_drawn(page, line, from, shown) == greater(page.rows, shown + 1),
        },
        forall|i: int|
            0 <= i < rows_drawn(page, line, from, shown) ==> (#[trigger] place_below(
                page,
                (line, from),
                i,
            )).0 == line,
    decreases line_of(page.file.text, line).len() - from,
{
    let next = from + page.width();
    let n = rows_drawn(page, line, from, shown);
    if next < line_of(page.file.text, line).len() && shown + 1 < page.rows {
        lemma_rows_drawn(page, line, next, shown + 1);
        assert(next_place(page, (line, from)) == (line, next));
        assert forall|i: int| 0 <= i < n implies (#[trigger] place_below(
            page,
            (line, from),
            i,
        )).0 == line by {
            if i > 0 {
                assert(place_below(page, (line, from), i) == place_below(
                    page,
                    (line, next),
                    i - 1,
                ));
            }
        }
    } else {
        assert(place_below(page, (line, from), 0) == (line, from));
        assert(place_below(page, next_place(page, (line, from)), 0) == next_place(
            page,
            (line, from),
        ));
    }
}

/// Whether rows of a surface from row `shown` on show what follows a place, and all others what
/// they did.
spec fn shows_rows(
    done: Canvas,
    c: Canvas,
    page: Page,
    place: (int, int),
    shown: int,
    n: int,
) -> bool {
    &&& forall|i: int|
        0 <= i < n ==> shows_row(
            done,
            page,
            (#[trigger] place_below(page, place, i)).0,
            place_below(page, place, i).1,
            shown + i,
        )
    &&& forall|y: int, x: int|
        y < page.origin.row_index + shown || y >= page.origin.row_index + shown + n
            ==> #[trigger] done.at(y, x) == c.at(y, x)
}

/// What a row shows depends on its cells alone.
proof fn lemma_same_row(
    a: Canvas,
    b: Canvas,
    page: Page,
    line: int,
    from: int,
    shown: int,
)
    requires
        shows_row(a, page, line, from, shown),
        forall|x: int| #[trigger]
            b.at(page.origin.row_index + shown, x) == a.at(page.origin.row_index + shown, x),
    ensures
        shows_row(b, page, line, from, shown),
{
}

/// The rows of a line show its characters.
proof fn lemma_line_rows_show(c: Canvas, page: Page, line: int, from: int, shown: int)
    requires
        0 <= line < page.lines() <= u64::MAX,
        0 <= shown,
        shown + rows_drawn(page, line, from, shown) <= 0x1_0000,
        0 <= page.columns,
        0 <= from <= line_of(page.file.text, line).len(),
        page.fits(),
        page.width() >= 1,
        tokens_follow(page, line),
    ensures
        shows_rows(
            c.painted(page.line_rows(line, from, shown)),
            c,
            page,
            (line, from),
            shown,
            rows_drawn(page, line, from, shown),
        ),
    decreases line_of(page.file.text, line).len() - from,
{
    let next = from + page.width();
    let n = rows_drawn(page, line, from, shown);
    lemma_rows_drawn(page, line, from, shown);
    let first = page.row(line, from, shown);
    lemma_row_shows(c, page, line, from, shown);
    let mid = c.painted(first);
    let place = (line, from);
    assert(place_below(page, place, 0) == place);
    if next < line_of(page.file.text, line).len() && shown + 1 < page.rows {
        lemma_line_rows_show(mid, page, line, next, shown + 1);
        let rest = page.line_rows(line, next, shown + 1);
        lemma_painted_in_turn(c, first, rest);
        let done = mid.painted(rest);
        assert(next_place(page, place) == (line, next));
        assert forall|i: int| 0 <= i < n implies shows_row(
            done,
            page,
            (#[trigger] place_below(page, place, i)).0,
            place_below(page, place, i).1,
            shown + i,
        ) by {
            if i > 0 {
                assert(place_below(page, place, i) == place_below(page, (line, next), i - 1));
                assert(shown + 1 + (i - 1) == shown + i);
            } else {
                lemma_same_row(mid, done, page, line, from, shown);
            }
        }
        assert forall|y: int, x: int|
            y < page.origin.row_index + shown || y >= page.origin.row_index + shown + n implies
            #[trigger] done.at(y, x) == c.at(y, x) by {
            assert(done.at(y, x) == mid.at(y, x));
        }
    } else {
        assert(n == 1);
    }
}

/// The lines of a page show their characters, from a line on.
proof fn lemma_all_rows_show(c: Canvas, page: Page, line: int, shown: int)
    requires
        0 <= line,
        page.lines() <= u64::MAX,
        0 <= shown,
        0 <= page.columns,
        0 <= page.rows <= 0x1_0000,
        page.fits(),
        page.width() >= 1,
        forall|l: int| line <= l < page.lines() ==> #[trigger] tokens_follow(page, l),
        shown <= 0x1_0000,
        place_below(page, (line, 0), 0x1_0000 - shown).0 >= page.lines(),
    ensures
        forall|i: int|
            0 <= i && shown + i < page.rows && (#[trigger] place_below(page, (line, 0), i)).0
                < page.lines() ==> shows_row(
                c.painted(page.all_rows(line, shown)),
                page,
                place_below(page, (line, 0), i).0,
                place_below(page, (line, 0), i).1,
                shown + i,
            ),
        forall|y: int, x: int|
            y < page.origin.row_index + shown ==> #[trigger] c.painted(
                page.all_rows(line, shown),
            ).at(y, x) == c.at(y, x),
    decreases page.lines() - line,
{
    let done = c.painted(page.all_rows(line, shown));
    if line < page.lines() {
        let n = rows_drawn(page, line, 0, shown);
        lemma_rows_drawn(page, line, 0, shown);
        if n > 0x1_0000 - shown {
            assert(place_below(page, (line, 0), 0x1_0000 - shown).0 == line);
        }
        assert(tokens_follow(page, line));
        lemma_line_rows_show(c, page, line, 0, shown);
        let first = page.line_rows(line, 0, shown);
        let mid = c.painted(first);
        match page.line_end(line, 0, shown) {
            Some(end) => {
                let rest = page.all_rows(line + 1, end);
                lemma_painted_in_turn(c, first, rest);
                lemma_place_below(page, (line, 0), n, 0x1_0000 - shown - n);
                lemma_all_rows_show(mid, page, line + 1, end);
                assert forall|i: int|
                    0 <= i && shown + i < page.rows && (#[trigger] place_below(
                        page,
                        (line, 0),
                        i,
                    )).0 < page.lines() implies shows_row(
                    done,
                    page,
                    place_below(page, (line, 0), i).0,
                    place_below(page, (line, 0), i).1,
                    shown + i,
                ) by {
                    let place = place_below(page, (line, 0), i);
                    if i < n {
                        assert(shows_row(mid, page, place.0, place.1, shown + i));
                        lemma_same_row(mid, done, page, place.0, place.1, shown + i);
                    } else {
                        lemma_place_below(page, (line, 0), n, i - n);
                        assert(place == place_below(page, (line + 1, 0), i - n));
                        assert(end + (i - n) == shown + i);
                    }
                }
                assert forall|y: int, x: int| y < page.origin.row_index + shown implies
                    #[trigger] done.at(y, x) == c.at(y, x) by {
                    assert(done.at(y, x) == mid.at(y, x));
                }
            },
            None => {
                assert(page.all_rows(line, shown) =~= first);
            },
        }
    } else {
        assert forall|i: int| 0 <= i implies (#[trigger] place_below(page, (line, 0), i)).0
            >= page.lines() by {
            lemma_place_below(page, (line, 0), 0, i);
        }
    }
}

/// A preview shows the lines of its file from the one on that it is scrolled to, or the last page
/// where it is scrolled beyond: the first row shows that line from its start, and each row below
/// shows what follows, with the number and the characters of its line. This is said of files with
/// no more rows than a surface can count.
pub proof fn law_preview_shows_lines_from_scroll(
    c: Canvas,
    p: Preview,
    app: App,
    b: FlexBox,
    row: int,
)
    requires
        file_in(app, p.id) matches Some(key) && {
            let page = page_of(p, app, key, b);
            &&& page.fits()
            &&& page.lines() <= usize::MAX
            &&& forall|l: int| 0 <= l < page.lines() ==> #[trigger] tokens_follow(page, l)
            &&& place_below(page, (0, 0), 0x1_0000).0 >= page.lines()
        },
        0 <= row < b.style_adjusted_bounds_size.row_height,
    ensures
        ({
            let key = file_in(app, p.id)->0;
            let page = page_of(p, app, key, b);
            let height = b.style_adjusted_bounds_size.row_height as int;
            let scroll = app.panes.state_of(Window::FilePreview(key)).scroll as int;
            let first = if scroll + height <= page.lines() {
                scroll
            } else if page.lines() >= height {
                page.lines() - height
            } else {
                0
            };
            let (line, from) = place_below(page, (first, 0), row);
            let done = c.painted(preview_draws(p, app, b));
            &&& line < page.lines() ==> shows_row(done, page, line, from, row)
            &&& row == 0 ==> line == first && from == 0
        }),
{
    let key = file_in(app, p.id)->0;
    let page = page_of(p, app, key, b);
    let height = b.style_adjusted_bounds_size.row_height as int;
    let window = Window::FilePreview(key);
    let scroll = app.panes.state_of(window).scroll as int;
    let after = measured(app, key, height as usize);
    let first = after.panes.state_of(window).scroll as int;
    lemma_starts(page.file.text, page.file.text.len() as int);
    lemma_starting_later(page, (0, 0), first, 0x1_0000);
    lemma_all_rows_show(c, page, first, 0);
}

/// From a later line on, as many rows lead no less far.
proof fn lemma_starting_later(page: Page, place: (int, int), first: int, n: int)
    requires
        0 <= n,
        place.0 <= first,
        place.0 == first ==> place.1 == 0,
    ensures
        place_below(page, (first, 0), n).0 >= place_below(page, place, n).0,
    decreases n,
{
    if place.0 < first && n > 0 {
        lemma_starting_later(page, next_place(page, place), first, n - 1);
        lemma_place_below(page, (first, 0), n - 1, 1);
    }
}

} // verus!
