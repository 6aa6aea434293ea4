//! What a preview makes of texts: its title, the ranges in its command line, and the place in the
//! text that a cell of the screen shows.

use vstd::prelude::*;
use crate::bytes::{
    byte_at, byte_len, is_boundary, lemma_byte_at_grows, lemma_byte_at_part, lemma_byte_at_prefix,
    lemma_char_at, text_len, utf8_width,
};
use crate::loader::{FileData, lemma_starts, line_of, starts_of};
use crate::number::{
    decimal, digit_count, number_text, parse_number, parsed_number, trim_part, trimmed,
};
use crate::ranges::ordered_ranges;
use crate::screen::{greater, lesser, max_of, min_of};
use crate::text::{chars_of, copy_of, split_at_char, split_on, texts};
use crate::title_row::padded;

verus! {

/// How a range is written.
pub open spec fn range_text(range: (usize, usize)) -> Seq<char> {
    if range.0 == range.1 {
        decimal(range.0 as int)
    } else {
        decimal(range.0 as int) + "-"@ + decimal(range.1 as int)
    }
}

/// How the first `n` ranges are written.
pub open spec fn ranges_text(ranges: Seq<(usize, usize)>, n: int) -> Seq<char>
    decreases n,
{
    if n <= 0 {
        Seq::empty()
    } else if n == 1 {
        range_text(ranges[0])
    } else {
        ranges_text(ranges, n - 1) + ", "@ + range_text(ranges[n - 1])
    }
}

/// The title of a file with some ranges.
pub open spec fn title_with_ranges(base: Seq<char>, ranges: Seq<(usize, usize)>) -> Seq<char> {
    base + "  ["@ + ranges_text(ranges, ranges.len() as int) + "]"@
}

/// Writes a range.
pub fn write_range(range: (usize, usize)) -> (r: String)
    ensures
        r@ == range_text(range),
{
    let (lo, hi) = range;
    let mut out = number_text(lo);
    if lo != hi {
        out.append("-");
        out.append(number_text(hi).as_str());
    }
    out
}

/// Writes the title of a file with some ranges.
pub fn write_title(base: &str, ranges: &Vec<(usize, usize)>) -> (r: String)
    ensures
        r@ == title_with_ranges(base@, ranges@),
{
    let mut list = String::new();
    let mut i: usize = 0;
    while i < ranges.len()
        invariant
            i <= ranges@.len(),
            list@ == ranges_text(ranges@, i as int),
        decreases ranges@.len() - i,
    {
        let ghost before = list@;
        if i > 0 {
            list.append(", ");
        }
        list.append(write_range(ranges[i]).as_str());
        i += 1;
        assert(list@ =~= ranges_text(ranges@, i as int));
    }
    let mut out = copy_of(base);
    out.append("  [");
    out.append(list.as_str());
    out.append("]");
    out
}

/// The first place from `i` on that holds `c`.
pub open spec fn first_place(text: Seq<char>, c: char, i: int) -> Option<int>
    decreases text.len() - i,
{
    if i >= text.len() {
        None
    } else if text[i] == c {
        Some(i)
    } else {
        first_place(text, c, i + 1)
    }
}

/// The first place that holds `c`.
fn find_char(chars: &Vec<char>, c: char) -> (r: Option<usize>)
    ensures
        match r {
            Some(i) => first_place(chars@, c, 0) == Some(i as int) && i < chars@.len(),
            None => first_place(chars@, c, 0) is None,
        },
{
    let mut i: usize = 0;
    while i < chars.len()
        invariant
            i <= chars@.len(),
            first_place(chars@, c, i as int) == first_place(chars@, c, 0),
        decreases chars@.len() - i,
    {
        if chars[i] == c {
            return Some(i);
        }
        i += 1;
    }
    None
}

/// The range from the `i`-th on that is written at column `col`, where the `i`-th starts at
/// column `at`.
pub open spec fn range_at(ranges: Seq<(usize, usize)>, i: int, at: int, col: int) -> Option<
    (usize, usize),
>
    decreases ranges.len() - i,
{
    if i >= ranges.len() {
        None
    } else if at <= col < at + range_text(ranges[i]).len() {
        Some(ranges[i])
    } else {
        range_at(ranges, i + 1, at + range_text(ranges[i]).len() + 2, col)
    }
}

/// No range is written at a column in front of all of them.
proof fn lemma_no_range_before(ranges: Seq<(usize, usize)>, i: int, at: int, col: int)
    requires
        col < at,
    ensures
        range_at(ranges, i, at, col) is None,
    decreases ranges.len() - i,
{
    if i < ranges.len() {
        lemma_no_range_before(ranges, i + 1, at + range_text(ranges[i]).len() + 2, col);
    }
}

/// What stands before the ranges in a title bar.
pub open spec fn title_head(base: Seq<char>) -> Seq<char> {
    seq![' '] + base + "  ["@
}

/// The range that is written at column `col` of a title bar with `width` columns, both counted in
/// bytes. A title that does not fit shows none.
pub open spec fn title_range(
    base: Seq<char>,
    ranges: Seq<(usize, usize)>,
    col: int,
    width: int,
) -> Option<(usize, usize)> {
    if ranges.len() == 0 || byte_len(padded(title_with_ranges(base, ranges))) > width {
        None
    } else {
        range_at(ranges, 0, byte_len(title_head(base)), col)
    }
}

/// Where the text of the `i`-th range starts behind the bracket.
pub open spec fn range_offset(ranges: Seq<(usize, usize)>, i: int) -> int {
    if i <= 0 {
        0
    } else {
        ranges_text(ranges, i).len() as int + 2
    }
}

/// Whether the text of the `i`-th range covers column `col` of a title bar.
pub open spec fn covers_column(
    base: Seq<char>,
    ranges: Seq<(usize, usize)>,
    i: int,
    col: int,
) -> bool {
    let start = byte_len(title_head(base)) + range_offset(ranges, i);
    0 <= i < ranges.len() && start <= col < start + range_text(ranges[i]).len()
}

/// Each range starts two columns behind the one before it.
proof fn lemma_range_offset(ranges: Seq<(usize, usize)>, i: int, j: int)
    requires
        0 <= i < j <= ranges.len(),
    ensures
        range_offset(ranges, i + 1) == range_offset(ranges, i) + range_text(ranges[i]).len() + 2,
        range_offset(ranges, i) + range_text(ranges[i]).len() + 2 <= range_offset(ranges, j),
    decreases j - i,
{
    reveal_strlit(", ");
    if i + 1 < j {
        lemma_range_offset(ranges, i, j - 1);
        lemma_range_offset(ranges, j - 1, j);
    }
}

/// The range at a column is the one whose text covers it.
proof fn lemma_range_at(base: Seq<char>, ranges: Seq<(usize, usize)>, i: int, col: int)
    requires
        0 <= i <= ranges.len(),
    ensures
        ({
            let at = byte_len(title_head(base)) + range_offset(ranges, i);
            let found = range_at(ranges, i, at, col);
            &&& forall|j: int|
                i <= j && #[trigger] covers_column(base, ranges, j, col) ==> found == Some(
                    ranges[j],
                )
            &&& found is Some ==> exists|j: int|
                #[trigger] covers_column(base, ranges, j, col) && found == Some(ranges[j])
        }),
    decreases ranges.len() - i,
{
    if i < ranges.len() {
        lemma_range_offset(ranges, i, i + 1);
        lemma_range_at(base, ranges, i + 1, col);
        let at = byte_len(title_head(base)) + range_offset(ranges, i);
        let found = range_at(ranges, i, at, col);
        assert forall|j: int| i <= j && #[trigger] covers_column(base, ranges, j, col) implies found
            == Some(ranges[j]) by {
            if i < j {
                lemma_range_offset(ranges, i, j);
            }
        }
        if covers_column(base, ranges, i, col) {
            assert(found == Some(ranges[i]));
        }
    }
}

/// The range at a column of a title bar is the one whose text covers that column, and there is none
/// where no text does, or where the title does not fit.
pub proof fn law_range_at_column_covers_it(
    base: Seq<char>,
    ranges: Seq<(usize, usize)>,
    col: int,
    width: int,
)
    ensures
        ({
            let fits = byte_len(padded(title_with_ranges(base, ranges))) <= width;
            let found = title_range(base, ranges, col, width);
            &&& forall|i: int|
                fits && #[trigger] covers_column(base, ranges, i, col) ==> found == Some(ranges[i])
            &&& found is Some ==> fits && exists|i: int|
                #[trigger] covers_column(base, ranges, i, col) && found == Some(ranges[i])
        }),
{
    lemma_range_at(base, ranges, 0, col);
}

/// Whether every character of a text takes one byte.
spec fn is_narrow(text: Seq<char>) -> bool {
    forall|k: int| 0 <= k < text.len() ==> utf8_width(#[trigger] text[k]) == 1
}

/// Digits take one byte each.
proof fn lemma_decimal_is_narrow(n: int)
    requires
        0 <= n,
    ensures
        is_narrow(decimal(n)),
    decreases n,
{
    if n >= 10 {
        lemma_decimal_is_narrow(n / 10);
    }
}

/// The columns of a title bar that the law of [`law_range_at_column_covers_it`] speaks of are those
/// in which the text of the range stands.
pub proof fn law_range_stands_in_title(base: Seq<char>, ranges: Seq<(usize, usize)>, i: int)
    requires
        0 <= i < ranges.len(),
    ensures
        ({
            let shown = padded(title_with_ranges(base, ranges));
            let from = title_head(base).len() + range_offset(ranges, i);
            let to = from + range_text(ranges[i]).len();
            &&& 0 <= from <= to <= shown.len()
            &&& shown.subrange(from, to) == range_text(ranges[i])
            &&& byte_at(shown, from) == byte_len(title_head(base)) + range_offset(ranges, i)
            &&& byte_at(shown, to) == byte_at(shown, from) + range_text(ranges[i]).len()
        }),
{
    reveal_strlit("  [");
    reveal_strlit("]");
    let n = ranges.len() as int;
    let head = title_head(base);
    let list = ranges_text(ranges, n);
    let shown = padded(title_with_ranges(base, ranges));
    assert(shown =~= head + list + "]"@ + seq![' ']);
    lemma_ranges_text_part(ranges, i, n);
    let from = head.len() + range_offset(ranges, i);
    let to = from + range_text(ranges[i]).len();
    assert(shown.subrange(from, to) =~= list.subrange(
        range_offset(ranges, i),
        range_offset(ranges, i) + range_text(ranges[i]).len(),
    ));
    lemma_byte_at_prefix(head, shown, head.len() as int);
    lemma_narrow_bytes(shown, head.len() as int, from);
    lemma_narrow_bytes(shown, from, to);
}

/// Where characters take one byte each, byte offsets grow by one.
proof fn lemma_narrow_bytes(text: Seq<char>, i: int, j: int)
    requires
        0 <= i <= j <= text.len(),
        forall|k: int| i <= k < j ==> utf8_width(#[trigger] text[k]) == 1,
    ensures
        byte_at(text, j) == byte_at(text, i) + (j - i),
    decreases j,
{
    if i < j {
        lemma_narrow_bytes(text, i, j - 1);
        assert(utf8_width(text[j - 1]) == 1);
    }
}

/// The text of each range stands in that of all of them.
proof fn lemma_ranges_text_part(ranges: Seq<(usize, usize)>, i: int, n: int)
    requires
        0 <= i < n <= ranges.len(),
    ensures
        ({
            let list = ranges_text(ranges, n);
            let from = range_offset(ranges, i);
            let to = from + range_text(ranges[i]).len();
            &&& 0 <= from <= to <= list.len()
            &&& list.subrange(from, to) == range_text(ranges[i])
            &&& is_narrow(list)
        }),
    decreases n,
{
    reveal_strlit(", ");
    reveal_strlit("-");
    let list = ranges_text(ranges, n);
    let last = ranges[n - 1];
    lemma_decimal_is_narrow(last.0 as int);
    lemma_decimal_is_narrow(last.1 as int);
    assert(is_narrow(range_text(last)));
    if n > 1 {
        let before = ranges_text(ranges, n - 1);
        lemma_ranges_text_part(ranges, if i < n - 1 { i } else { 0 }, n - 1);
        assert(list =~= before + ", "@ + range_text(last));
        assert(is_narrow(list));
        let from = range_offset(ranges, i);
        let to = from + range_text(ranges[i]).len();
        if i < n - 1 {
            assert(list.subrange(from, to) =~= before.subrange(from, to));
        } else {
            assert(list.subrange(from, to) =~= range_text(last));
        }
    } else {
        assert(list.subrange(0, list.len() as int) =~= list);
    }
}

/// The range that is written at a column of a title bar.
pub fn range_in_title(base: &str, ranges: &Vec<(usize, usize)>, col: usize, width: usize) -> (r:
    Option<(usize, usize)>)
    ensures
        r == title_range(base@, ranges@, col as int, width as int),
        r is Some ==> ranges@.contains(r->0),
{
    if ranges.len() == 0 {
        return None;
    }
    let title = write_title(base, ranges);
    let mut shown = copy_of(" ");
    shown.append(title.as_str());
    shown.append(" ");
    let mut head = copy_of(" ");
    head.append(base);
    head.append("  [");
    proof {
        reveal_strlit(" ");
        assert(shown@ =~= padded(title@));
        assert(head@ =~= title_head(base@));
    }
    if text_len(shown.as_str()) > width {
        return None;
    }
    let start: usize = text_len(head.as_str());
    let ghost found = title_range(base@, ranges@, col as int, width as int);
    if start > col {
        proof {
            lemma_no_range_before(ranges@, 0, start as int, col as int);
        }
        return None;
    }
    let mut at: usize = start;
    let mut i: usize = 0;
    while i < ranges.len()
        invariant
            i <= ranges@.len(),
            at <= col,
            found == title_range(base@, ranges@, col as int, width as int),
            range_at(ranges@, i as int, at as int, col as int) == found,
        decreases ranges@.len() - i,
    {
        let text = write_range(ranges[i]);
        let len: usize = chars_of(text.as_str()).len();
        if col - at < len {
            assert(ranges@.contains(ranges@[i as int]));
            return Some(ranges[i]);
        }
        let past: usize = at + len;
        if col - past < 2 {
            proof {
                lemma_no_range_before(ranges@, i + 1, past + 2, col as int);
            }
            return None;
        }
        at = past + 2;
        i += 1;
    }
    None
}

/// The range that a piece of a command line asks for: one line, or two with a dash between them,
/// counted from 1. Lines behind the last are taken for the last, but not where one line is asked
/// for.
pub open spec fn range_of_piece(piece: Seq<char>, max: usize) -> Option<(usize, usize)> {
    let text = trimmed(piece);
    match first_place(text, '-', 0) {
        Some(i) => match (
            parsed_number(trimmed(text.take(i))),
            parsed_number(trimmed(text.skip(i + 1))),
        ) {
            (Some(a), Some(b)) => if a > 0 && b > 0 {
                Some(
                    (
                        lesser(lesser(a as int, b as int), max as int) as usize,
                        lesser(greater(a as int, b as int), max as int) as usize,
                    ),
                )
            } else {
                None
            },
            _ => None,
        },
        None => match parsed_number(trimmed(text)) {
            Some(n) => if 0 < n <= max {
                Some((n, n))
            } else {
                None
            },
            None => None,
        },
    }
}

/// The ranges that the first `n` pieces ask for.
pub open spec fn ranges_of_pieces(pieces: Seq<Seq<char>>, max: usize, n: int) -> Seq<(usize, usize)>
    decreases n,
{
    if n <= 0 {
        Seq::empty()
    } else {
        match range_of_piece(pieces[n - 1], max) {
            Some(range) => ranges_of_pieces(pieces, max, n - 1).push(range),
            None => ranges_of_pieces(pieces, max, n - 1),
        }
    }
}

/// The ranges that a command line asks for, with commas between them.
pub open spec fn ranges_of_command(cmd: Seq<char>, max: usize) -> Seq<(usize, usize)> {
    ranges_of_pieces(split_on(cmd, ','), max, split_on(cmd, ',').len() as int)
}

/// The range that a piece of a command line asks for.
fn parse_range(piece: &str, max: usize) -> (r: Option<(usize, usize)>)
    requires
        max > 0,
    ensures
        r == range_of_piece(piece@, max),
        r matches Some(range) ==> 1 <= range.0 <= range.1 <= max,
{
    let all = chars_of(piece);
    assert(all@.subrange(0, all@.len() as int) =~= all@);
    let text = trim_part(&all, 0, all.len());
    let chars = chars_of(text.as_str());
    match find_char(&chars, '-') {
        Some(i) => {
            assert(chars@.subrange(0, i as int) =~= text@.take(i as int));
            assert(chars@.subrange(i + 1, chars@.len() as int) =~= text@.skip(i + 1));
            let count: usize = chars.len();
            let start = trim_part(&chars, 0, i);
            let end = trim_part(&chars, i + 1, count);
            match (parse_number(start.as_str()), parse_number(end.as_str())) {
                (Some(a), Some(b)) => {
                    if a > 0 && b > 0 {
                        Some((min_of(min_of(a, b), max), min_of(max_of(a, b), max)))
                    } else {
                        None
                    }
                },
                _ => None,
            }
        },
        None => {
            assert(chars@.subrange(0, chars@.len() as int) =~= text@);
            let whole = trim_part(&chars, 0, chars.len());
            match parse_number(whole.as_str()) {
                Some(n) => {
                    if n > 0 && n <= max {
                        Some((n, n))
                    } else {
                        None
                    }
                },
                None => None,
            }
        },
    }
}

/// The ranges that a command line asks for, in a text of `max` lines.
pub fn parse_ranges(cmd: &str, max: usize) -> (r: Vec<(usize, usize)>)
    requires
        max > 0,
    ensures
        r@ == ranges_of_command(cmd@, max),
        ordered_ranges(r@),
        forall|i: int| 0 <= i < r@.len() ==> 1 <= (#[trigger] r@[i]).0 && r@[i].1 <= max,
{
    let pieces = split_at_char(cmd, ',');
    let ghost all = split_on(cmd@, ',');
    let mut ranges: Vec<(usize, usize)> = Vec::new();
    let mut i: usize = 0;
    while i < pieces.len()
        invariant
            i <= pieces@.len(),
            max > 0,
            texts(pieces@) == all,
            ranges@ == ranges_of_pieces(all, max, i as int),
            ordered_ranges(ranges@),
            forall|j: int|
                0 <= j < ranges@.len() ==> 1 <= (#[trigger] ranges@[j]).0 && ranges@[j].1 <= max,
        decreases pieces@.len() - i,
    {
        assert(all[i as int] == pieces@[i as int]@);
        if let Some(range) = parse_range(pieces[i].as_str(), max) {
            ranges.push(range);
        }
        i += 1;
    }
    ranges
}

/// How many rows a line of `len` characters takes, where a row holds `width` of them.
pub open spec fn rows_of(len: int, width: int) -> int {
    if len == 0 {
        1
    } else {
        len / width + if len % width == 0 {
            0int
        } else {
            1int
        }
    }
}

/// How many rows a line takes.
pub fn row_count(len: usize, width: usize) -> (r: usize)
    requires
        width > 0,
    ensures
        r == rows_of(len as int, width as int),
        r >= 1,
{
    if len == 0 {
        1
    } else {
        proof {
            vstd::arithmetic::div_mod::lemma_fundamental_div_mod(len as int, width as int);
            lemma_rows(len as int, width as int);
        }
        if len % width == 0 {
            len / width
        } else {
            len / width + 1
        }
    }
}

/// A line takes at least one row and no more rows than it has characters, each row starts within the
/// line, and the rows hold all of it.
pub proof fn lemma_rows(len: int, width: int)
    requires
        len > 0,
        width > 0,
    ensures
        1 <= rows_of(len, width) <= len,
        forall|k: int| 0 <= k < rows_of(len, width) ==> 0 <= #[trigger] (k * width) < len,
        len <= rows_of(len, width) * width,
{
    vstd::arithmetic::div_mod::lemma_fundamental_div_mod(len, width);
    let q = len / width;
    let m = len % width;
    assert(0 <= q <= len && (q == 0 ==> m > 0) && (m > 0 ==> q < len)) by (nonlinear_arith)
        requires
            len == width * q + m,
            0 <= m < width,
            len > 0,
            width > 0,
    ;
    assert(len <= rows_of(len, width) * width) by (nonlinear_arith)
        requires
            len == width * q + m,
            0 <= m < width,
            rows_of(len, width) == q + if m == 0 { 0int } else { 1 },
    ;
    assert forall|k: int| 0 <= k < rows_of(len, width) implies 0 <= #[trigger] (k * width) < len by {
        assert(0 <= k * width && k * width < len) by (nonlinear_arith)
            requires
                len == width * q + m,
                0 <= m < width,
                0 <= k,
                m > 0 ==> k <= q,
                m == 0 ==> k < q,
        ;
    }
}

/// The line, and the row within it, that row `rel_y` of the screen shows, where line `line` starts
/// at row `shown` and the screen has `limit` rows.
pub open spec fn row_at(
    text: Seq<char>,
    line: int,
    shown: int,
    rel_y: int,
    width: int,
    limit: int,
) -> Option<(int, int)>
    decreases starts_of(text).len() - line,
{
    if line >= starts_of(text).len() {
        None
    } else {
        let rows = rows_of(line_of(text, line).len() as int, width);
        if rel_y < shown + rows {
            Some((line, rel_y - shown))
        } else if shown + rows >= limit {
            None
        } else {
            row_at(text, line + 1, shown + rows, rel_y, width, limit)
        }
    }
}

/// Line `line` of a text from its `c`-th character on: the line, the character, and its byte
/// offset in the text.
pub open spec fn spot_in_line(text: Seq<char>, line: int, c: int) -> (int, int, int) {
    (line, c, byte_at(text, starts_of(text)[line] + c))
}

/// The line, the character in it, and its byte offset in the text that is shown in column `rel_x`
/// of row `rel_y`, where the text is scrolled to line `scroll`: the end of the line right of it,
/// and the end of the text below it.
pub open spec fn spot_shown(
    text: Seq<char>,
    scroll: int,
    rel_x: int,
    rel_y: int,
    width: int,
    limit: int,
) -> (int, int, int) {
    match row_at(text, scroll, 0, rel_y, width, limit) {
        Some((line, sub)) => spot_in_line(
            text,
            line,
            lesser(sub * width + rel_x, line_of(text, line).len() as int),
        ),
        None => {
            let last = starts_of(text).len() - 1;
            spot_in_line(text, last, line_of(text, last).len() as int)
        },
    }
}

/// The byte offset of a character of a line is that of the line and its own.
proof fn lemma_spot(text: Seq<char>, line: int, c: int)
    requires
        0 <= line < starts_of(text).len(),
        0 <= c <= line_of(text, line).len(),
    ensures
        byte_at(text, starts_of(text)[line]) + byte_at(line_of(text, line), c) == byte_at(
            text,
            starts_of(text)[line] + c,
        ),
        0 <= starts_of(text)[line],
        starts_of(text)[line] + c <= text.len(),
        byte_at(text, starts_of(text)[line] + c) <= byte_len(text),
        0 <= byte_at(text, starts_of(text)[line]) <= byte_at(text, starts_of(text)[line] + c),
        is_boundary(text, byte_at(text, starts_of(text)[line] + c)),
{
    let starts = starts_of(text);
    lemma_starts(text, text.len() as int);
    let from = starts[line];
    let to = if line + 1 < starts.len() {
        starts[line + 1] - 1
    } else {
        text.len() as int
    };
    if line + 1 < starts.len() {
        assert(starts[line] < starts[line + 1]);
    }
    lemma_byte_at_part(text, from, to, c);
    lemma_byte_at_grows(text, from + c, text.len() as int);
    lemma_byte_at_grows(text, from, from + c);
    lemma_byte_at_grows(text, 0, from);
    lemma_char_at(text, from + c);
}

/// The byte offset in the text of a character of a line.
fn offset_in_line(data: &FileData, line: usize, c: usize) -> (r: usize)
    requires
        data.wf(),
        line < data.line_starts@.len(),
        c <= line_of(data.content@, line as int).len(),
    ensures
        r == spot_in_line(data.content@, line as int, c as int).2,
        data.line_starts@[line as int] <= r,
        is_boundary(data.content@, r as int),
{
    let start: usize = data.line_starts[line];
    let within: usize = data.char_to_byte(line, c);
    proof {
        lemma_spot(data.content@, line as int, c as int);
    }
    start + within
}

/// How many columns the line numbers take, with the gap behind them.
pub open spec fn gutter_width(lines: int) -> int {
    decimal(greater(lines, 1)).len() + 3int
}

/// How many columns a preview of `columns` columns has for the text.
pub open spec fn text_width(columns: int, lines: int) -> int {
    if columns > gutter_width(lines) + 1 {
        columns - gutter_width(lines)
    } else {
        1
    }
}

/// How many columns the line numbers take, without the gap behind them.
pub fn line_number_width(lines: usize) -> (r: usize)
    ensures
        r == decimal(greater(lines as int, 1)).len(),
        r >= 1,
{
    let n: usize = max_of(lines, 1);
    let r: usize = digit_count(n);
    assert(decimal(n as int).len() >= 1);
    r
}

/// How many columns a preview has for the text.
pub fn content_width(columns: usize, lines: usize) -> (r: usize)
    ensures
        r == text_width(columns as int, lines as int),
        r >= 1,
{
    max_of(columns.saturating_sub(line_number_width(lines)).saturating_sub(3), 1)
}

/// The place in a text that a cell shows, counted from where the text is drawn: the line, the
/// character in it, and its byte offset in the text.
pub fn spot_at(
    data: &FileData,
    scroll: usize,
    rel_x: usize,
    rel_y: usize,
    width: usize,
    limit: usize,
) -> (r: (usize, usize, usize))
    requires
        data.wf(),
        width > 0,
    ensures
        ({
            let spot = spot_shown(
                data.content@,
                scroll as int,
                rel_x as int,
                rel_y as int,
                width as int,
                limit as int,
            );
            &&& r.0 == spot.0
            &&& r.1 == spot.1
            &&& r.2 == spot.2
        }),
        r.0 < data.line_starts@.len(),
        data.line_starts@[r.0 as int] <= r.2,
        is_boundary(data.content@, r.2 as int),
{
    let ghost text = data.content@;
    let total: usize = data.line_starts.len();
    let ghost found = row_at(text, scroll as int, 0, rel_y as int, width as int, limit as int);
    proof {
        lemma_starts(text, text.len() as int);
        assert(data.line_starts@.len() == starts_of(text).len());
    }
    let mut shown: usize = 0;
    let mut line: usize = scroll;
    let mut done = false;
    while line < total && !done
        invariant
            data.wf(),
            text == data.content@,
            total == data.line_starts@.len(),
            total == starts_of(text).len(),
            width > 0,
            shown <= rel_y,
            found == row_at(text, scroll as int, 0, rel_y as int, width as int, limit as int),
            !done ==> row_at(
                text,
                line as int,
                shown as int,
                rel_y as int,
                width as int,
                limit as int,
            ) == found,
            done ==> found is None,
        decreases total - line,
    {
        let len: usize = chars_of(data.line(line)).len();
        let rows: usize = row_count(len, width);
        if rel_y - shown < rows {
            let sub: usize = rel_y - shown;
            proof {
                if len > 0 {
                    lemma_rows(len as int, width as int);
                    assert(0 <= sub * width < len);
                } else {
                    assert(sub == 0);
                    assert(sub * width == 0) by (nonlinear_arith)
                        requires
                            sub == 0,
                    ;
                }
            }
            let from: usize = sub * width;
            let c: usize = if rel_x >= len - from {
                len
            } else {
                from + rel_x
            };
            return (line, c, offset_in_line(data, line, c));
        }
        shown = shown + rows;
        if shown >= limit {
            done = true;
        }
        line += 1;
    }
    let last: usize = total - 1;
    let len: usize = chars_of(data.line(last)).len();
    (last, len, offset_in_line(data, last, len))
}

/// The place that a cell shows lies in the text, in its line.
pub proof fn law_shown_spot_lies_in_text(
    text: Seq<char>,
    scroll: int,
    rel_x: int,
    rel_y: int,
    width: int,
    limit: int,
)
    requires
        0 <= scroll,
        0 <= rel_x,
        0 <= rel_y,
        0 < width,
    ensures
        ({
            let (line, c, byte) = spot_shown(text, scroll, rel_x, rel_y, width, limit);
            &&& 0 <= line < starts_of(text).len()
            &&& 0 <= c <= line_of(text, line).len()
            &&& is_boundary(text, byte)
            &&& byte_at(text, starts_of(text)[line]) <= byte <= byte_at(
                text,
                starts_of(text)[line] + line_of(text, line).len(),
            )
        }),
{
    lemma_starts(text, text.len() as int);
    lemma_row_at(text, scroll, 0, rel_y, width, limit);
    let (line, c, byte) = spot_shown(text, scroll, rel_x, rel_y, width, limit);
    if let Some((l, sub)) = row_at(text, scroll, 0, rel_y, width, limit) {
        assert(sub * width + rel_x >= 0) by (nonlinear_arith)
            requires
                sub >= 0,
                width > 0,
                rel_x >= 0,
        ;
    }
    lemma_spot(text, line, c);
    lemma_byte_at_grows(
        text,
        starts_of(text)[line] + c,
        starts_of(text)[line] + line_of(text, line).len(),
    );
}

proof fn lemma_row_at(text: Seq<char>, line: int, shown: int, rel_y: int, width: int, limit: int)
    requires
        0 <= line,
        0 <= shown <= rel_y,
        0 < width,
    ensures
        match row_at(text, line, shown, rel_y, width, limit) {
            Some((l, sub)) => line <= l < starts_of(text).len() && 0 <= sub,
            None => true,
        },
    decreases starts_of(text).len() - line,
{
    if line < starts_of(text).len() {
        let len = line_of(text, line).len() as int;
        if len > 0 {
            lemma_rows(len, width);
        }
        let rows = rows_of(len, width);
        if rel_y >= shown + rows && shown + rows < limit {
            lemma_row_at(text, line + 1, shown + rows, rel_y, width, limit);
        }
    }
}

} // verus!
