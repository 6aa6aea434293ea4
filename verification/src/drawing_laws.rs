//! What pickers, lists and bars show.

use vstd::prelude::*;
use crate::bytes::byte_len;
use crate::canvas::{
    Canvas, Shown, lemma_painted_in_turn, lemma_painted_one, lemma_painted_text,
    lemma_painted_three, lemma_painted_two, lemma_text_is_shown, same_but_row, shows_text,
};
use crate::file_list::{list_draws, row_draws as file_row_draws};
use crate::fuzzy_picker::{Label, ResultLook};
use crate::geometry::{FlexBox, Pos, Size};
use crate::paths::shown_path;
use crate::render::{Draw, TuiColor, backed, colored, rgb};
use crate::scrollbar::{
    ScrollState, law_thumb_fits, scroll_at, scroll_dragged, scrollbar_colors, scrollbar_glyph,
    scrollbar_rows, thumb_len, thumb_start,
};
use crate::screen::greater;
use crate::state::{App, File};
use crate::status_bar::{status_draws, status_texts};
use crate::theme::Theme;
use crate::title_row::{padded, shown_title, title_draws};

verus! {

/// The first `m` characters of a label.
proof fn lemma_label_shows(c: Canvas, look: ResultLook, label: Label, i: int, m: int)
    requires
        0 <= m <= label.text.len(),
    ensures
        ({
            let done = c.painted(look.label_draws(label, i).take(m));
            &&& done.row == c.row
            &&& done.col == c.col + m
            &&& forall|y: int, x: int| #[trigger]
                done.at(y, x) == if y == c.row && c.col <= x < c.col + m {
                    Some(
                        Shown {
                            text: label.text[x - c.col],
                            style: Some(look.char_style(label, i, x - c.col)),
                        },
                    )
                } else {
                    c.at(y, x)
                }
        }),
    decreases m,
{
    let all = look.label_draws(label, i);
    if m == 0 {
        assert(all.take(0) =~= Seq::<Draw>::empty());
    } else {
        lemma_label_shows(c, look, label, i, m - 1);
        let before = c.painted(all.take(m - 1));
        let op = all[m - 1];
        assert(all.take(m) =~= all.take(m - 1) + seq![op]);
        lemma_painted_in_turn(c, all.take(m - 1), seq![op]);
        lemma_painted_one(before, op);
        let text = seq![label.text[m - 1]];
        let style = Some(look.char_style(label, i, m - 1));
        lemma_painted_text(before, text, style);
        let done = before.with_text(text, style);
        assert forall|y: int, x: int| #[trigger] done.at(y, x) == if y == c.row && c.col <= x
            < c.col + m {
            Some(
                Shown {
                    text: label.text[x - c.col],
                    style: Some(look.char_style(label, i, x - c.col)),
                },
            )
        } else {
            c.at(y, x)
        } by {
            if y == c.row && x == c.col + m - 1 {
                assert(text[0] == label.text[m - 1]);
            }
        }
    }
}

/// Whether a row of a surface shows a result of a picker: its text from the left, with the matched
/// characters standing out, on the background of the selected result where it is that, and nothing
/// behind it.
pub open spec fn shows_result(c: Canvas, look: ResultLook, label: Label, i: int, k: int) -> bool {
    let y = look.origin.row_index + k;
    let left = look.origin.col_index as int;
    let back = if i == look.selected {
        look.colors.selected_bg
    } else {
        look.colors.bg
    };
    forall|x: int|
        left <= x < left + look.width || left <= x < left + label.text.len() ==> {
            &&& (#[trigger] c.at(y, x)) matches Some(s)
            &&& s.style matches Some(style)
            &&& style.color_bg == Some(back)
            &&& if x < left + label.text.len() {
                &&& s.text == label.text[x - left]
                &&& label.matched.contains(((x - left) as usize) as u32) ==> style.color_fg == Some(
                    look.colors.match_fg,
                ) && style.attribs.bold
                &&& !label.matched.contains(((x - left) as usize) as u32) ==> style.color_fg
                    == Some(
                    match label.accent {
                        Some(rgb) => TuiColor::Rgb(rgb),
                        None => look.colors.normal_fg,
                    },
                )
            } else {
                s.text == ' '
            }
        }
}

/// A row with a result.
proof fn lemma_result_row(c: Canvas, look: ResultLook, labels: Seq<Label>, k: int)
    requires
        0 <= k < 0x1_0000,
        0 <= look.width,
        0 <= look.scroll,
        labels.len() >= look.count,
    ensures
        ({
            let done = c.painted(look.row_draws(labels, k));
            let i = look.scroll + k;
            &&& same_but_row(done, c, look.origin.row_index + k)
            &&& i < look.count ==> shows_result(done, look, labels[i], i, k)
        }),
{
    let i = look.scroll + k;
    let y = look.origin.row_index + k;
    let left = look.origin.col_index as int;
    let all = look.row_draws(labels, k);
    let offset = Pos { col_index: 0, row_index: k as u16 };
    let bg = Some(backed(look.row_bg(i)));
    let spaces = Seq::new(look.width as nat, |j: int| ' ');
    let start = seq![
        look.row_start(k),
        Draw::ApplyColors(bg),
        Draw::Paint { text: spaces, style: bg },
    ];
    lemma_text_is_shown(c, look.origin, offset, Draw::ApplyColors(bg), spaces, bg);
    let one = c.painted(start);
    assert(shows_text(one, c, y, left, spaces, bg));
    if i < look.count {
        let label = labels[i];
        let text = look.label_draws(label, i);
        let rest = seq![look.row_start(k)] + text;
        assert(all =~= start + rest);
        lemma_painted_in_turn(c, start, rest);
        lemma_painted_in_turn(one, seq![look.row_start(k)], text);
        lemma_painted_one(one, look.row_start(k));
        let moved = one.after(look.row_start(k));
        let n = label.text.len() as int;
        lemma_label_shows(moved, look, label, i, n);
        assert(text.take(n) =~= text);
        let done = moved.painted(text);
        assert forall|z: int, x: int| z != y implies #[trigger] done.at(z, x) == c.at(z, x) by {
            assert(moved.at(z, x) == one.at(z, x));
        }
        assert forall|x: int|
            left <= x < left + look.width || left <= x < left + label.text.len() implies {
            &&& (#[trigger] done.at(y, x)) matches Some(s)
            &&& s.style matches Some(style)
            &&& style.color_bg == Some(look.row_bg(i))
        } by {
            assert(moved.at(y, x) == one.at(y, x));
            if x >= left + n {
                assert(one.at(y, x) == Some(Shown { text: spaces[x - left], style: bg }));
            }
        }
        assert(shows_result(done, look, label, i, k)) by {
            assert forall|x: int| left <= x implies #[trigger] done.at(y, x) == if x < left + n {
                Some(
                    Shown {
                        text: label.text[x - left],
                        style: Some(look.char_style(label, i, x - left)),
                    },
                )
            } else {
                one.at(y, x)
            } by {
                assert(moved.at(y, x) == one.at(y, x));
            }
        }
    } else if look.count == 0 && k == 0 {
        let style = Some(colored(look.colors.normal_fg, look.colors.bg));
        let a = look.row_start(k);
        let b = Draw::Paint { text: look.no_results(), style };
        assert(all =~= start + seq![a, b]);
        lemma_painted_in_turn(c, start, seq![a, b]);
        lemma_painted_two(one, a, b);
        let moved = one.after(a);
        lemma_painted_text(moved, look.no_results(), style);
        let done = moved.with_text(look.no_results(), style);
        assert forall|z: int, x: int| z != y implies #[trigger] done.at(z, x) == c.at(z, x) by {
            assert(moved.at(z, x) == one.at(z, x));
        }
    } else {
        assert(all =~= start);
    }
}

/// A picker shows its results one below the other, from the one on that it is scrolled to.
pub proof fn law_picker_shows_its_results(
    c: Canvas,
    look: ResultLook,
    labels: Seq<Label>,
    n: int,
    k: int,
)
    requires
        0 <= k < n <= 0x1_0000,
        0 <= look.width,
        0 <= look.scroll,
        labels.len() >= look.count,
    ensures
        look.scroll + k < look.count ==> shows_result(
            c.painted(look.rows_draws(labels, n)),
            look,
            labels[look.scroll + k],
            look.scroll + k,
            k,
        ),
    decreases n,
{
    let first = look.rows_draws(labels, n - 1);
    let last = look.row_draws(labels, n - 1);
    lemma_painted_in_turn(c, first, last);
    let mid = c.painted(first);
    let done = mid.painted(last);
    lemma_result_row(mid, look, labels, n - 1);
    if k < n - 1 {
        law_picker_shows_its_results(c, look, labels, n - 1, k);
        assert forall|x: int| #[trigger] done.at(look.origin.row_index + k, x) == mid.at(
            look.origin.row_index + k,
            x,
        ) by {}
    }
}

/// A list of files shows their paths, from the root on, one below the other, from the one on that
/// it is scrolled to, and the selected one differs from the others.
pub proof fn law_list_shows_its_files(
    c: Canvas,
    files: Seq<File>,
    root: Seq<char>,
    selected: int,
    origin: Pos,
    scroll: int,
    n: int,
    k: int,
)
    requires
        0 <= k < n <= 0x1_0000,
        0 <= scroll,
        scroll + k < files.len(),
    ensures
        ({
            let done = c.painted(list_draws(files, root, selected, origin, scroll, n));
            let path = shown_path(files[scroll + k].path, root);
            forall|x: int|
                origin.col_index <= x < origin.col_index + path.len() ==> {
                    &&& (#[trigger] done.at(origin.row_index + k, x)) matches Some(s)
                    &&& s.text == path[x - origin.col_index]
                }
        }),
    decreases n,
{
    let first = list_draws(files, root, selected, origin, scroll, n - 1);
    let last = file_row_draws(files, root, selected, origin, n - 1, scroll + n - 1);
    lemma_painted_in_turn(c, first, last);
    let mid = c.painted(first);
    lemma_painted_two(mid, last[0], last[1]);
    assert(last =~= seq![last[0], last[1]]);
    let moved = mid.after(last[0]);
    let text = last[1]->Paint_text;
    let style = last[1]->Paint_style;
    lemma_painted_text(moved, text, style);
    let done = moved.with_text(text, style);
    if k < n - 1 {
        law_list_shows_its_files(c, files, root, selected, origin, scroll, n - 1, k);
        assert forall|x: int| #[trigger] done.at(origin.row_index + k, x) == mid.at(
            origin.row_index + k,
            x,
        ) by {
            assert(moved.at(origin.row_index + k, x) == mid.at(origin.row_index + k, x));
        }
    }
}

/// A title bar shows its title, with a space before it, in the first row of its box, as far as the
/// title fits, and bold where the pane has the focus.
pub proof fn law_title_bar_shows_title(
    c: Canvas,
    b: FlexBox,
    title: Seq<char>,
    is_deleted: bool,
    theme: Theme,
    focused: bool,
    k: int,
)
    requires
        byte_len(padded(title)) <= b.style_adjusted_bounds_size.col_width,
        0 <= k < title.len(),
    ensures
        ({
            let origin = b.style_adjusted_origin_pos;
            let done = c.painted(title_draws(b, title, is_deleted, theme, focused));
            &&& done.at(origin.row_index as int, origin.col_index + 1 + k) matches Some(s)
            &&& s.text == title[k]
            &&& s.style matches Some(style)
            &&& style.attribs.bold == focused
        }),
{
    let ops = title_draws(b, title, is_deleted, theme, focused);
    let width = b.style_adjusted_bounds_size.col_width as int;
    let shown = shown_title(title, width);
    assert(shown == padded(title));
    assert(shown[1 + k] == title[k]);
    let one = seq![ops[0], ops[1], ops[2], ops[3]];
    assert(ops =~= one + seq![ops[4], ops[5]]);
    lemma_painted_in_turn(c, one, seq![ops[4], ops[5]]);
    let mid = c.painted(one);
    lemma_painted_two(mid, ops[4], ops[5]);
    let moved = mid.after(ops[4]);
    lemma_painted_text(moved, shown, ops[5]->Paint_style);
    let origin = b.style_adjusted_origin_pos;
    let done = moved.with_text(shown, ops[5]->Paint_style);
    assert(done.at(origin.row_index as int, origin.col_index + 1 + k) == Some(
        Shown { text: shown[1 + k], style: ops[5]->Paint_style },
    ));
}

/// The status bar shows its two texts one behind the other in the last row of the window.
pub proof fn law_status_bar_is_in_last_row(c: Canvas, app: App, size: Size, theme: Theme, k: int)
    requires
        size.row_height > 0,
        0 <= k < status_texts(app).0.len() + status_texts(app).1.len(),
    ensures
        ({
            let (leader, rest) = status_texts(app);
            let done = c.painted(status_draws(app, size, theme));
            &&& done.at(size.row_height - 1, k) matches Some(s)
            &&& s.text == (leader + rest)[k]
        }),
{
    let ops = status_draws(app, size, theme);
    let (leader, rest) = status_texts(app);
    let one = seq![ops[0], ops[1], ops[2], ops[3]];
    let two = seq![ops[4], ops[5], ops[6]];
    let three = seq![ops[7], ops[8], ops[9]];
    assert(ops =~= one + two + three + seq![ops[10]]);
    lemma_painted_in_turn(c, one + two + three, seq![ops[10]]);
    lemma_painted_in_turn(c, one + two, three);
    lemma_painted_in_turn(c, one, two);
    let c1 = c.painted(one);
    lemma_painted_three(c1, ops[4], ops[5], ops[6]);
    let a = c1.after(ops[4]).after(ops[5]);
    lemma_painted_text(a, leader, ops[6]->Paint_style);
    let c2 = a.with_text(leader, ops[6]->Paint_style);
    lemma_painted_three(c2, ops[7], ops[8], ops[9]);
    let b = c2.after(ops[7]).after(ops[8]);
    lemma_painted_text(b, rest, ops[9]->Paint_style);
    let c3 = b.with_text(rest, ops[9]->Paint_style);
    lemma_painted_one(c3, ops[10]);
    let done = c3.after(ops[10]);
    let y = size.row_height - 1;
    assert(done.at(y, k) == c3.at(y, k));
    assert(b.at(y, k) == c2.at(y, k));
    assert(b.row == y && b.col == leader.len());
    assert(a.row == y && a.col == 0);
}

/// A scrollbar shows its thumb in the last column of its box: a row is filled where both of its
/// halves lie on the thumb, half filled where one does, and else empty, in a colour that can be
/// told from the rest of the bar, unless that is the last one to choose from.
pub proof fn law_scrollbar_shows_thumb(
    c: Canvas,
    b: FlexBox,
    theme: Theme,
    s: ScrollState,
    n: int,
    row: int,
)
    requires
        b.style_adjusted_bounds_size.col_width > 0,
        0 <= row < n <= b.style_adjusted_bounds_size.row_height,
    ensures
        ({
            let origin = b.style_adjusted_origin_pos;
            let rows = b.style_adjusted_bounds_size.row_height as int;
            let done = c.painted(scrollbar_rows(b, theme, s, n));
            let start = thumb_start(2 * rows, s);
            let end = start + thumb_len(2 * rows, s);
            let top = start <= 2 * row < end;
            let bottom = start <= 2 * row + 1 < end;
            &&& done.at(
                origin.row_index + row,
                origin.col_index + b.style_adjusted_bounds_size.col_width - 1,
            ) matches Some(shown)
            &&& (shown.text == '█') == (top && bottom)
            &&& (shown.text == '▀') == (top && !bottom)
            &&& (shown.text == '▄') == (!top && bottom)
            &&& (shown.text == ' ') == (!top && !bottom)
            &&& (top || bottom) && scrollbar_colors(theme).0 != rgb(120, 120, 160) ==> {
                &&& shown.style matches Some(style)
                &&& style.color_fg != style.color_bg
            }
        }),
    decreases n,
{
    let origin = b.style_adjusted_origin_pos;
    let rows = b.style_adjusted_bounds_size.row_height as int;
    let width = b.style_adjusted_bounds_size.col_width;
    let all = scrollbar_rows(b, theme, s, n);
    let first = scrollbar_rows(b, theme, s, n - 1);
    let glyph = scrollbar_glyph(n - 1, rows, s);
    let offset = Pos { col_index: (width - 1) as u16, row_index: (n - 1) as u16 };
    let last = all.skip(first.len() as int);
    let style = last[2]->Paint_style;
    assert(last =~= seq![
        Draw::MoveTo { origin, offset },
        last[1],
        Draw::Paint { text: seq![glyph], style },
    ]);
    assert(all =~= first + last);
    lemma_painted_in_turn(c, first, last);
    let mid = c.painted(first);
    lemma_text_is_shown(mid, origin, offset, last[1], seq![glyph], style);
    let done = mid.painted(last);
    let y = origin.row_index + row;
    let x = origin.col_index + width - 1;
    if row < n - 1 {
        law_scrollbar_shows_thumb(c, b, theme, s, n - 1, row);
        assert(done.at(y, x) == mid.at(y, x));
    } else {
        assert(done.at(y, x) == Some(Shown { text: seq![glyph][0], style }));
    }
}

/// The thumb is at the top while the start is shown, at the bottom while the end is, and the
/// further down the further the content is scrolled.
pub proof fn law_thumb_follows_scroll(height: int, a: ScrollState, b: ScrollState)
    requires
        1 <= height,
        a.page_size < a.scroll_max,
        b.page_size == a.page_size,
        b.scroll_max == a.scroll_max,
        a.scroll <= b.scroll <= b.scroll_max - b.page_size,
    ensures
        a.scroll == 0 ==> thumb_start(height, a) == 0,
        b.scroll == b.scroll_max - b.page_size ==> thumb_start(height, b) + thumb_len(height, b)
            == height,
        thumb_start(height, a) <= thumb_start(height, b),
{
    law_thumb_fits(height, a);
    let room = height - thumb_len(height, a);
    let range = a.scroll_max - a.page_size;
    let p = a.scroll as int;
    let q = b.scroll as int;
    assert(p * room / range <= q * room / range) by (nonlinear_arith)
        requires
            0 <= p <= q,
            0 <= room,
            0 < range,
    ;
    assert(0 * room / range == 0 && range * room / range == room) by (nonlinear_arith)
        requires
            0 <= room,
            0 < range,
    ;
}

/// Clicking further down on the track, or dragging the thumb further down, scrolls no less far.
pub proof fn law_scrollbar_goes_down_with_mouse(
    grab_scroll: usize,
    grab_y: int,
    y: int,
    z: int,
    height: int,
    s: ScrollState,
)
    requires
        1 <= height,
        0 <= y <= z,
        s.page_size < s.scroll_max,
    ensures
        scroll_at(y, height, s) <= scroll_at(z, height, s),
        scroll_dragged(grab_scroll as int, grab_y, y, height, s) <= scroll_dragged(
            grab_scroll as int,
            grab_y,
            z,
            height,
            s,
        ),
        y >= grab_y ==> scroll_dragged(grab_scroll as int, grab_y, y, height, s) >= grab_scroll,
        y <= grab_y ==> scroll_dragged(grab_scroll as int, grab_y, y, height, s) <= grab_scroll,
{
    let range = s.scroll_max - s.page_size;
    let d = greater(height - 1, 1);
    let e = greater(height - thumb_len(height, s), 1);
    lemma_quotient_grows(y, z, range, d);
    let p = y - grab_y;
    let q = z - grab_y;
    assert(0 * range / e == 0) by (nonlinear_arith)
        requires
            e >= 1,
    ;
    if p >= 0 {
        lemma_quotient_grows(p, q, range, e);
        lemma_quotient_grows(0, p, range, e);
    } else {
        lemma_quotient_grows(0, -p, range, e);
        if q >= 0 {
            lemma_quotient_grows(0, q, range, e);
        } else {
            lemma_quotient_grows(-q, -p, range, e);
        }
    }
}

/// A larger number has a larger share.
proof fn lemma_quotient_grows(a: int, b: int, n: int, d: int)
    by (nonlinear_arith)
    requires
        0 <= a <= b,
        0 <= n,
        1 <= d,
    ensures
        0 <= a * n / d <= b * n / d,
{
}

} // verus!
