//! What keys, commands and the mouse do in a preview.

use vstd::prelude::*;
use crate::bytes::byte_at;
use crate::editing_laws::plain_key;
use crate::effect::Act;
use crate::geometry::FlexBox;
use crate::input::{InputEvent, Key, KeyPress, MouseInput, MouseInputKind, SpecialKey};
use crate::loader::{FileKey, line_of, starts_of};
use crate::number::{
    decimal, digit_value, law_written_number_reads_back, leading_space, lemma_decimal_digits,
    trailing_end, trimmed,
};
use crate::pane_manager::Window;
use crate::preview::{DragModifier, Preview, dragged, file_in};
use crate::preview_draw::{Page, measured, page_of, placed_in};
use crate::preview_laws::{lemma_place_below, next_place, place_below};
use crate::preview_text::{
    first_place, gutter_width, lemma_rows, range_of_piece, range_text, ranges_of_command,
    ranges_of_pieces, row_at, rows_of,
};
use crate::ranges::{
    covers, law_subtraction_removes_lines, law_union_covers_both, ordered_ranges, united,
};
use crate::session_time::Nanos;
use crate::shell::run_on;
use crate::state::App;
use crate::text::{is_white_space, pieces, split_on};

verus! {

/// The rows of a line start one after the other, each as many characters later as a row holds.
proof fn lemma_rows_in_line(page: Page, line: int, j: int, i: int)
    requires
        page.width() >= 1,
        0 <= j,
        0 <= i,
        j + i <= rows_of(line_of(page.file.text, line).len() as int, page.width()),
        j < rows_of(line_of(page.file.text, line).len() as int, page.width()),
    ensures
        ({
            let w = page.width();
            let rows = rows_of(line_of(page.file.text, line).len() as int, w);
            place_below(page, (line, j * w), i) == if j + i < rows {
                (line, (j + i) * w)
            } else {
                (line + 1, 0)
            }
        }),
    decreases i,
{
    let w = page.width();
    let len = line_of(page.file.text, line).len() as int;
    let rows = rows_of(len, w);
    if i > 0 {
        assert(j * w + w == (j + 1) * w) by (nonlinear_arith);
        if len > 0 {
            lemma_rows(len, w);
            assert(j + 1 < rows ==> (j + 1) * w < len);
            if j + 1 == rows {
                assert((j + 1) * w >= len);
            }
        } else {
            assert(j == 0 && rows == 1);
            assert(0 * w == 0) by (nonlinear_arith);
        }
        if j + 1 < rows {
            lemma_rows_in_line(page, line, j + 1, i - 1);
            assert(next_place(page, (line, j * w)) == (line, (j + 1) * w));
        } else {
            assert(i == 1);
            assert(next_place(page, (line, j * w)) == (line + 1, 0int));
            assert(place_below(page, (line + 1, 0int), 0) == (line + 1, 0int));
        }
    }
}

/// The row that is looked up is the one that is shown there.
proof fn lemma_row_is_shown(page: Page, line: int, shown: int, y: int)
    requires
        page.width() >= 1,
        0 <= line,
        0 <= shown <= y < page.rows,
    ensures
        match row_at(page.file.text, line, shown, y, page.width(), page.rows) {
            Some((l, sub)) => l < page.lines() && place_below(page, (line, 0), y - shown) == (
                l,
                sub * page.width(),
            ),
            None => place_below(page, (line, 0), y - shown).0 >= page.lines(),
        },
    decreases page.lines() - line,
{
    let w = page.width();
    if line < page.lines() {
        let rows = rows_of(line_of(page.file.text, line).len() as int, w);
        if line_of(page.file.text, line).len() > 0 {
            lemma_rows(line_of(page.file.text, line).len() as int, w);
        }
        assert(0 * w == 0) by (nonlinear_arith);
        if y < shown + rows {
            lemma_rows_in_line(page, line, 0, y - shown);
        } else {
            lemma_rows_in_line(page, line, 0, rows);
            lemma_place_below(page, (line, 0), rows, y - shown - rows);
            lemma_row_is_shown(page, line + 1, shown + rows, y);
        }
    } else {
        lemma_place_below(page, (line, 0), 0, y - shown);
    }
}

/// A click lands on what is shown: in a row that shows a line from its character `from` on, a click
/// that is `k` columns behind where the text starts is on the character `from + k` of that line, or
/// on its end where it has no such character.
pub proof fn law_click_lands_on_what_is_shown(
    p: Preview,
    app: App,
    b: FlexBox,
    key: FileKey,
    row: int,
    k: int,
)
    requires
        page_of(p, app, key, b).width() >= 1,
        page_of(p, app, key, b).lines() <= usize::MAX,
        0 <= row < b.style_adjusted_bounds_size.row_height,
        0 <= k,
    ensures
        ({
            let page = page_of(p, app, key, b);
            let after = measured(app, key, b.style_adjusted_bounds_size.row_height as usize);
            let first = after.panes.state_of(Window::FilePreview(key)).scroll as int;
            let (line, from) = place_below(page, (first, 0), row);
            let len = line_of(page.file.text, line).len();
            let at = if from + k <= len {
                from + k
            } else {
                len as int
            };
            line < page.lines() ==> placed_in(p, b).spot(
                after,
                key,
                b.style_adjusted_origin_pos.row_index + row,
                b.style_adjusted_origin_pos.col_index + gutter_width(page.lines()) + k,
            ) == (line, at, byte_at(page.file.text, starts_of(page.file.text)[line] + at))
        }),
{
    let page = page_of(p, app, key, b);
    let after = measured(app, key, b.style_adjusted_bounds_size.row_height as usize);
    let first = after.panes.state_of(Window::FilePreview(key)).scroll as int;
    lemma_row_is_shown(page, first, 0, row);
}

/// The Enter key.
pub open spec fn enter_key() -> InputEvent {
    InputEvent::Keyboard(KeyPress::Plain { key: Key::SpecialKey(SpecialKey::Enter) })
}

/// Entering `!` and a shell command runs the command with its placeholders replaced, in a terminal
/// at the root, or shows why it cannot be run; without a command it opens a shell there. The lines
/// that are highlighted stay what they are.
pub proof fn law_shell_command_is_run(
    p: Preview,
    app: App,
    key: FileKey,
    cmd: Seq<char>,
    crate_root: Option<Seq<char>>,
    repo_root: Option<Seq<char>>,
    now: Nanos,
)
    requires
        file_in(app, p.id) == Some(key),
        p.command == Some(seq!['!'] + cmd),
    ensures
        ({
            let (after, o) = p.outcome(app, enter_key(), crate_root, repo_root, now);
            let path = app.files[key.0 as int].path;
            &&& after.command is None
            &&& o.app.highlights == app.highlights
            &&& cmd.len() == 0 ==> o.acts == seq![
                Act::OpenTerminal { cmd: None, cwd: Some(app.root) },
            ]
            &&& cmd.len() > 0 ==> match run_on(cmd, path, app.root, crate_root, repo_root) {
                Ok(text) => o.acts == seq![
                    Act::OpenTerminal { cmd: Some(text), cwd: Some(app.root) },
                ],
                Err(msg) => o.acts.len() == 0 && after.error == Some((msg, now)),
            }
        }),
{
    let line = seq!['!'] + cmd;
    assert(line[0] == '!');
    assert(line.skip(1) =~= cmd);
}

/// The pieces of two texts with the separator between them are those of the first and then those of
/// the second.
proof fn lemma_pieces_concat(a: Seq<char>, b: Seq<char>, c: char, m: int)
    requires
        0 <= m <= b.len(),
    ensures
        pieces(a + seq![c] + b, c, a.len() + 1 + m) == pieces(a, c, a.len() as int) + pieces(
            b,
            c,
            m,
        ),
    decreases m,
{
    let all = a + seq![c] + b;
    let n = a.len() + 1 + m;
    let first = pieces(a, c, a.len() as int);
    if m == 0 {
        assert(all[a.len() as int] == c);
        lemma_pieces_prefix(a, all, c, a.len() as int);
        assert(pieces(all, c, n) =~= first + pieces(b, c, 0));
    } else {
        lemma_pieces_concat(a, b, c, m - 1);
        lemma_pieces_filled(b, c, m - 1);
        assert(all[n - 1] == b[m - 1]);
        assert(pieces(all, c, n) =~= first + pieces(b, c, m));
    }
}

/// The pieces of the first characters depend on these alone.
proof fn lemma_pieces_prefix(a: Seq<char>, b: Seq<char>, c: char, n: int)
    requires
        0 <= n <= a.len(),
        n <= b.len(),
        forall|i: int| 0 <= i < n ==> a[i] == b[i],
    ensures
        pieces(a, c, n) == pieces(b, c, n),
    decreases n,
{
    if n > 0 {
        lemma_pieces_prefix(a, b, c, n - 1);
    }
}

/// There is always a piece.
proof fn lemma_pieces_filled(text: Seq<char>, c: char, n: int)
    ensures
        pieces(text, c, n).len() > 0,
    decreases n,
{
    if n > 0 {
        lemma_pieces_filled(text, c, n - 1);
    }
}

/// A text without the separator is one piece.
proof fn lemma_one_piece(text: Seq<char>, c: char, n: int)
    requires
        0 <= n <= text.len(),
        forall|i: int| 0 <= i < n ==> text[i] != c,
    ensures
        pieces(text, c, n) == seq![text.take(n)],
    decreases n,
{
    if n > 0 {
        lemma_one_piece(text, c, n - 1);
        assert(text.take(n) =~= text.take(n - 1).push(text[n - 1]));
        assert(pieces(text, c, n) =~= seq![text.take(n)]);
    } else {
        assert(text.take(0) =~= Seq::<char>::empty());
        assert(pieces(text, c, 0) =~= seq![text.take(0)]);
    }
}

/// The ranges of two lists of pieces are those of the first and then those of the second.
proof fn lemma_ranges_concat(a: Seq<Seq<char>>, b: Seq<Seq<char>>, max: usize, m: int)
    requires
        0 <= m <= b.len(),
    ensures
        ranges_of_pieces(a + b, max, a.len() + m) == ranges_of_pieces(a, max, a.len() as int)
            + ranges_of_pieces(b, max, m),
    decreases m,
{
    let all = a + b;
    if m == 0 {
        lemma_ranges_prefix(a, all, max, a.len() as int);
        assert(ranges_of_pieces(a, max, a.len() as int) + ranges_of_pieces(b, max, 0)
            =~= ranges_of_pieces(a, max, a.len() as int));
    } else {
        lemma_ranges_concat(a, b, max, m - 1);
        assert(all[a.len() + m - 1] == b[m - 1]);
        assert(ranges_of_pieces(all, max, a.len() + m) =~= ranges_of_pieces(
            a,
            max,
            a.len() as int,
        ) + ranges_of_pieces(b, max, m));
    }
}

/// The ranges of the first pieces depend on these alone.
proof fn lemma_ranges_prefix(a: Seq<Seq<char>>, b: Seq<Seq<char>>, max: usize, n: int)
    requires
        0 <= n <= a.len(),
        n <= b.len(),
        forall|i: int| 0 <= i < n ==> a[i] == b[i],
    ensures
        ranges_of_pieces(a, max, n) == ranges_of_pieces(b, max, n),
    decreases n,
{
    if n > 0 {
        lemma_ranges_prefix(a, b, max, n - 1);
    }
}

/// What stands on the two sides of a comma asks for its own ranges, those on the left first.
pub proof fn law_commas_part_ranges(a: Seq<char>, b: Seq<char>, max: usize)
    ensures
        ranges_of_command(a + seq![','] + b, max) == ranges_of_command(a, max)
            + ranges_of_command(b, max),
{
    lemma_pieces_concat(a, b, ',', b.len() as int);
    let left = split_on(a, ',');
    let right = split_on(b, ',');
    assert((a + seq![','] + b).len() == a.len() + 1 + b.len());
    assert(split_on(a + seq![','] + b, ',') == left + right);
    lemma_ranges_concat(left, right, max, right.len() as int);
}

/// A text that starts and ends with a digit has no white space around it.
proof fn lemma_nothing_to_trim(text: Seq<char>)
    requires
        text.len() > 0,
        digit_value(text[0]) is Some,
        digit_value(text[text.len() - 1]) is Some,
    ensures
        trimmed(text) == text,
{
    assert(!is_white_space(text[0]) && !is_white_space(text[text.len() - 1]));
    assert(leading_space(text, 0) == 0);
    assert(trailing_end(text, 0, text.len() as int) == text.len());
    assert(text.subrange(0, text.len() as int) =~= text);
}

/// Where a character stands first.
proof fn lemma_first_place(text: Seq<char>, c: char, i: int, k: int)
    requires
        0 <= i <= k <= text.len(),
        forall|j: int| i <= j < k ==> text[j] != c,
        k < text.len() ==> text[k] == c,
    ensures
        first_place(text, c, i) == if k < text.len() {
            Some(k)
        } else {
            None
        },
    decreases k - i,
{
    if i < k {
        lemma_first_place(text, c, i + 1, k);
    }
}

/// A range that is entered as it is written is the range that is asked for; and so is one with its
/// ends exchanged.
pub proof fn law_written_range_reads_back(a: usize, b: usize, max: usize)
    requires
        1 <= a <= b <= max,
    ensures
        ranges_of_command(range_text((a, b)), max) == seq![(a, b)],
        a < b ==> ranges_of_command(range_text((b, a)), max) == seq![(a, b)],
{
    lemma_range_reads_back(a, b, max);
    if a < b {
        lemma_range_reads_back(b, a, max);
    }
}

proof fn lemma_range_reads_back(a: usize, b: usize, max: usize)
    requires
        1 <= a <= max,
        1 <= b <= max,
    ensures
        ranges_of_command(range_text((a, b)), max) == seq![
            if a <= b {
                (a, b)
            } else {
                (b, a)
            },
        ],
{
    reveal_strlit("-");
    let left = decimal(a as int);
    let right = decimal(b as int);
    let text = range_text((a, b));
    lemma_decimal_digits(a as int);
    lemma_decimal_digits(b as int);
    law_written_number_reads_back(a);
    law_written_number_reads_back(b);
    lemma_nothing_to_trim(left);
    lemma_nothing_to_trim(right);
    assert forall|i: int| 0 <= i < left.len() implies left[i] != '-' && left[i] != ',' by {
        assert(digit_value(left[i]) is Some);
    }
    assert forall|i: int| 0 <= i < right.len() implies right[i] != '-' && right[i] != ',' by {
        assert(digit_value(right[i]) is Some);
    }
    lemma_nothing_to_trim(text);
    assert forall|i: int| 0 <= i < text.len() implies text[i] != ',' by {
        if a != b && i > left.len() {
            assert(text[i] == right[i - left.len() - 1]);
        }
    }
    if a == b {
        lemma_first_place(text, '-', 0, text.len() as int);
    } else {
        assert(text[left.len() as int] == '-');
        lemma_first_place(text, '-', 0, left.len() as int);
        assert(text.take(left.len() as int) =~= left);
        assert(text.skip(left.len() + 1int) =~= right);
    }
    lemma_one_piece(text, ',', text.len() as int);
    assert(text.take(text.len() as int) =~= text);
    let all = split_on(text, ',');
    assert(all =~= seq![text]);
    assert(ranges_of_pieces(all, max, 0) =~= Seq::empty());
    assert(ranges_of_pieces(all, max, 1) =~= seq![range_of_piece(text, max)->0]);
}

/// Entering ranges of lines highlights these lines of the file, and no others.
pub proof fn law_line_command_highlights_lines(
    p: Preview,
    app: App,
    key: FileKey,
    cmd: Seq<char>,
    crate_root: Option<Seq<char>>,
    repo_root: Option<Seq<char>>,
    now: Nanos,
)
    requires
        file_in(app, p.id) == Some(key),
        p.command == Some(cmd),
        cmd.len() == 0 || cmd[0] != '!',
    ensures
        ({
            let (after, o) = p.outcome(app, enter_key(), crate_root, repo_root, now);
            let max = app.panes.state_of(Window::FilePreview(key)).scroll_max;
            let asked = ranges_of_command(cmd, max);
            &&& after.command is None
            &&& o.acts.len() == 0
            &&& max > 0 && asked.len() > 0 ==> o.app.highlights == app.highlights.insert(key, asked)
            &&& max == 0 || asked.len() == 0 ==> o.app == (App {
                command_mode_active: false,
                ..app
            })
        }),
{
}

/// The line that a preview is scrolled to after an event.
pub open spec fn scroll_after(p: Preview, app: App, key: FileKey, event: InputEvent) -> int {
    p.outcome(app, event, None, None, 0).1.app.panes.state_of(
        Window::FilePreview(key),
    ).scroll as int
}

/// The keys and the wheel scroll a preview by a line, three lines or a page, or to its start or its
/// last page, and never beyond these.
pub proof fn law_keys_scroll_preview(p: Preview, app: App, key: FileKey, wheel: MouseInput)
    requires
        file_in(app, p.id) == Some(key),
        p.command is None,
    ensures
        ({
            let s = app.panes.state_of(Window::FilePreview(key));
            let last = if s.scroll_max > s.page_size {
                s.scroll_max - s.page_size
            } else {
                0
            };
            let at = s.scroll as int;
            let page = s.page_size as int;
            0 <= at <= last ==> {
                &&& scroll_after(p, app, key, plain_key(SpecialKey::Down)) == between(at + 1, last)
                &&& scroll_after(p, app, key, plain_key(SpecialKey::Up)) == between(at - 1, last)
                &&& scroll_after(p, app, key, plain_key(SpecialKey::PageDown)) == between(
                    at + page,
                    last,
                )
                &&& scroll_after(p, app, key, plain_key(SpecialKey::PageUp)) == between(
                    at - page,
                    last,
                )
                &&& scroll_after(p, app, key, plain_key(SpecialKey::Home)) == 0
                &&& scroll_after(p, app, key, plain_key(SpecialKey::End)) == last
                &&& wheel.kind == MouseInputKind::ScrollDown ==> scroll_after(
                    p,
                    app,
                    key,
                    InputEvent::Mouse(wheel),
                ) == between(at + 3, last)
                &&& wheel.kind == MouseInputKind::ScrollUp ==> scroll_after(
                    p,
                    app,
                    key,
                    InputEvent::Mouse(wheel),
                ) == between(at - 3, last)
            }
        }),
{
}

/// A number that is kept between zero and another.
pub open spec fn between(n: int, most: int) -> int {
    if n < 0 {
        0
    } else if n > most {
        most
    } else {
        n
    }
}

/// Whether a line of a file, counted from 1, is highlighted.
pub open spec fn line_is_highlighted(app: App, key: FileKey, line: int) -> bool {
    app.highlights.contains_key(key) && covers(app.highlights[key], line)
}

/// A drag over lines with the shift key highlights them, besides those that were, and one with the
/// control key takes the highlight from them, in whichever direction it goes.
pub proof fn law_drag_highlights_lines(p: Preview, app: App, key: FileKey, to: usize, line: int)
    requires
        p.drag_start_line is Some,
        p.drag_snapshot matches Some(ranges) ==> ordered_ranges(ranges),
    ensures
        ({
            let start = p.drag_start_line->0;
            let was = p.drag_snapshot matches Some(ranges) && covers(ranges, line);
            let over = (start <= line <= to) || (to <= line <= start);
            let after = dragged(p, app, key, to);
            &&& p.drag_modifier == Some(DragModifier::Shift) ==> (line_is_highlighted(
                after,
                key,
                line,
            ) <==> was || over)
            &&& p.drag_modifier == Some(DragModifier::Ctrl) ==> (line_is_highlighted(
                after,
                key,
                line,
            ) <==> was && !over)
        }),
{
    let start = p.drag_start_line->0;
    let (lo, hi) = if start <= to {
        (start, to)
    } else {
        (to, start)
    };
    let ranges = match p.drag_snapshot {
        Some(ranges) => ranges,
        None => Seq::empty(),
    };
    law_union_covers_both(ranges, lo, hi);
    assert(covers(united(ranges, lo, hi), line) <==> covers(ranges, line) || lo <= line <= hi);
    law_subtraction_removes_lines(ranges, lo, hi, ranges.len() as int, line);
    assert(ranges.take(ranges.len() as int) =~= ranges);
}

} // verus!
