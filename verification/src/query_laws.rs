//! What an input line shows, and where its cursor is.

use vstd::prelude::*;
use crate::canvas::{
    Canvas, Shown, lemma_painted_in_turn, lemma_painted_one, lemma_painted_text, lemma_painted_two,
    same_but_row,
};
use crate::geometry::Pos;
use crate::input_line::{InputLook, cursor_place};
use crate::render::{Draw, reversed};

verus! {

/// How many clusters and line breaks come before a line.
pub open spec fn clusters_before(lines: Seq<Seq<Seq<char>>>, i: int) -> int
    decreases i,
{
    if i <= 0 {
        0
    } else {
        clusters_before(lines, i - 1) + lines[i - 1].len() + 1
    }
}

/// The cursor stands in the line, and before the cluster of it, that as many clusters and line
/// breaks come before as it was moved on by.
pub proof fn law_cursor_counts_clusters(lines: Seq<Seq<Seq<char>>>, cursor: int)
    requires
        lines.len() > 0,
        0 <= cursor < clusters_before(lines, lines.len() as int),
    ensures
        ({
            let (line, col) = cursor_place(lines, 0, cursor);
            &&& 0 <= line < lines.len()
            &&& 0 <= col <= lines[line].len()
            &&& cursor == clusters_before(lines, line) + col
        }),
{
    lemma_cursor_from(lines, 0, cursor);
}

proof fn lemma_cursor_from(lines: Seq<Seq<Seq<char>>>, i: int, left: int)
    requires
        0 <= i < lines.len(),
        0 <= left,
        clusters_before(lines, i) + left < clusters_before(lines, lines.len() as int),
    ensures
        ({
            let (line, col) = cursor_place(lines, i, left);
            &&& i <= line < lines.len()
            &&& 0 <= col <= lines[line].len()
            &&& clusters_before(lines, i) + left == clusters_before(lines, line) + col
        }),
    decreases lines.len() - i,
{
    if i + 1 < lines.len() && left > lines[i].len() {
        lemma_cursor_from(lines, i + 1, left - (lines[i].len() + 1));
    }
}

/// Whether a surface shows a line of single characters from the `s`-th on, in as many cells as it
/// has: the one under the cursor is reversed.
pub open spec fn shows_from(
    done: Canvas,
    look: InputLook,
    line: Seq<Seq<char>>,
    i: int,
    s: int,
) -> bool {
    let left = look.origin.col_index + look.line_left(i);
    &&& 0 <= s
    &&& s > 0 ==> i == look.cursor_line && line.len() >= look.width - look.line_left(i)
    &&& i == look.cursor_line && look.line_left(i) < look.width ==> s <= look.cursor_col && (
    look.cursor_col - s < look.width - look.line_left(i))
    &&& forall|x: int|
        left <= x < look.origin.col_index + look.width && s + x - left < line.len()
            ==> #[trigger] done.at(look.origin.row_index + i, x) == Some(
            Shown {
                text: line[s + x - left][0],
                style: Some(
                    if look.focused && i == look.cursor_line && s + x - left == look.cursor_col {
                        reversed()
                    } else {
                        look.text_style
                    },
                ),
            },
        )
    &&& look.focused && i == look.cursor_line && look.line_left(i) < look.width && look.cursor_col
        == line.len() ==> done.at(
        look.origin.row_index + i,
        left + look.cursor_col - s,
    ) == Some(Shown { text: ' ', style: Some(reversed()) })
}

/// Whether a surface shows a line, scrolled so that the cursor is in sight.
pub open spec fn shows_line(done: Canvas, look: InputLook, line: Seq<Seq<char>>, i: int) -> bool {
    exists|s: int| #[trigger] shows_from(done, look, line, i, s)
}

/// Whether a line is of single characters, and its place can be told.
pub open spec fn is_plain(look: InputLook, line: Seq<Seq<char>>, i: int) -> bool {
    &&& forall|k: int| 0 <= k < line.len() ==> (#[trigger] line[k]).len() == 1
    &&& 0 <= i <= u16::MAX
    &&& 0 <= look.prompt_width <= u16::MAX
    &&& 0 <= look.width <= u16::MAX
    &&& i == look.cursor_line ==> 0 <= look.cursor_col <= line.len()
}

/// The first `m` visible clusters of a line.
proof fn lemma_clusters_show(c: Canvas, look: InputLook, line: Seq<Seq<char>>, i: int, m: int)
    requires
        is_plain(look, line, i),
        0 <= m <= look.line_visible(line, i),
    ensures
        ({
            let s = look.line_scroll(line, i);
            let done = c.painted(Seq::new(m as nat, |k: int| look.cluster_draw(line, i, k)));
            &&& done.row == c.row
            &&& done.col == c.col + m
            &&& forall|y: int, x: int| #[trigger]
                done.at(y, x) == if y == c.row && c.col <= x < c.col + m {
                    Some(
                        Shown {
                            text: line[s + x - c.col][0],
                            style: look.cluster_draw(line, i, x - c.col)->style,
                        },
                    )
                } else {
                    c.at(y, x)
                }
        }),
    decreases m,
{
    let all = Seq::new(m as nat, |k: int| look.cluster_draw(line, i, k));
    if m > 0 {
        lemma_clusters_show(c, look, line, i, m - 1);
        let first = Seq::new((m - 1) as nat, |k: int| look.cluster_draw(line, i, k));
        let op = look.cluster_draw(line, i, m - 1);
        assert(all =~= first + seq![op]);
        lemma_painted_in_turn(c, first, seq![op]);
        let before = c.painted(first);
        lemma_painted_one(before, op);
        let s = look.line_scroll(line, i);
        assert(line[s + m - 1].len() == 1);
        lemma_painted_text(before, line[s + m - 1], op->style);
        let done = c.painted(all);
        assert forall|y: int, x: int| #[trigger]
            done.at(y, x) == if y == c.row && c.col <= x < c.col + m {
                Some(
                    Shown {
                        text: line[s + x - c.col][0],
                        style: look.cluster_draw(line, i, x - c.col)->style,
                    },
                )
            } else {
                c.at(y, x)
            } by {
            let b = before.at(y, x);
        }
    } else {
        assert(all =~= Seq::<Draw>::empty());
    }
}

/// A line is shown in its row, and nothing changes in the others.
proof fn lemma_line_shows(c: Canvas, look: InputLook, line: Seq<Seq<char>>, i: int)
    requires
        is_plain(look, line, i),
    ensures
        shows_line(c.painted(look.line_draws(line, i)), look, line, i),
        same_but_row(c.painted(look.line_draws(line, i)), c, look.origin.row_index + i),
{
    let row = look.origin.row_index + i;
    let prompt = look.prompt_draws(i);
    let visible = look.line_visible(line, i);
    let s = look.line_scroll(line, i);
    let start = Draw::MoveTo {
        origin: look.origin,
        offset: Pos {
            col_index: (look.line_left(i) as usize) as u16,
            row_index: (i as usize) as u16,
        },
    };
    let clusters = Seq::new(visible as nat, |k: int| look.cluster_draw(line, i, k));
    let cursor = look.cursor_draws(line, i);
    let a = c.painted(prompt);
    assert(same_but_row(a, c, row)) by {
        if prompt.len() > 0 {
            let to = prompt[0];
            let paint = prompt[1];
            assert(prompt =~= seq![to, paint]);
            lemma_painted_two(c, to, paint);
            lemma_painted_text(c.after(to), look.prompt, Some(look.text_style));
            assert forall|y: int, x: int| y != row implies #[trigger] a.at(y, x) == c.at(y, x) by {
                assert(c.after(to).at(y, x) == c.at(y, x));
            }
        } else {
            assert(prompt =~= Seq::<Draw>::empty());
        }
    }
    lemma_painted_in_turn(c, prompt, seq![start]);
    lemma_painted_one(a, start);
    let b = a.after(start);
    lemma_painted_in_turn(c, prompt + seq![start], clusters);
    lemma_clusters_show(b, look, line, i, visible);
    let d = b.painted(clusters);
    lemma_painted_in_turn(c, prompt + seq![start] + clusters, cursor);
    let done = d.painted(cursor);
    assert(c.painted(look.line_draws(line, i)) == done);
    let left = look.origin.col_index + look.line_left(i);
    assert(b.row == row && b.col == left);
    if cursor.len() > 0 {
        let to = cursor[0];
        let paint = cursor[1];
        assert(cursor =~= seq![to, paint]);
        lemma_painted_two(d, to, paint);
        lemma_painted_text(d.after(to), seq![' '], Some(reversed()));
        assert forall|y: int, x: int| #[trigger]
            done.at(y, x) == if y == row && x == left + look.cursor_col - s {
                Some(Shown { text: ' ', style: Some(reversed()) })
            } else {
                d.at(y, x)
            } by {
            assert(d.after(to).at(y, x) == d.at(y, x));
        }
    } else {
        assert(cursor =~= Seq::<Draw>::empty());
    }
    assert forall|y: int, x: int| y != row implies #[trigger] done.at(y, x) == c.at(y, x) by {
        assert(d.at(y, x) == b.at(y, x));
        assert(b.at(y, x) == a.at(y, x));
        assert(a.at(y, x) == c.at(y, x));
    }
    assert(shows_from(done, look, line, i, s)) by {
        assert forall|x: int|
            left <= x < look.origin.col_index + look.width && s + x - left < line.len()
            implies #[trigger] done.at(row, x) == Some(
            Shown {
                text: line[s + x - left][0],
                style: Some(
                    if look.focused && i == look.cursor_line && s + x - left == look.cursor_col {
                        reversed()
                    } else {
                        look.text_style
                    },
                ),
            },
        ) by {
            assert(done.at(row, x) == d.at(row, x));
        }
    }
}

/// Every line of an input line of single characters is shown in a row of its own, from the left, or
/// from so far on that the cursor is in sight; the cursor is reversed where the line has the focus.
pub proof fn law_input_line_shows_its_lines(
    c: Canvas,
    look: InputLook,
    lines: Seq<Seq<Seq<char>>>,
    n: int,
    i: int,
)
    requires
        0 <= i < n <= lines.len(),
        forall|j: int| 0 <= j < n ==> is_plain(look, #[trigger] lines[j], j),
    ensures
        shows_line(c.painted(look.all_draws(lines, n)), look, lines[i], i),
    decreases n,
{
    let before = c.painted(look.all_draws(lines, n - 1));
    let done = c.painted(look.all_draws(lines, n));
    lemma_painted_in_turn(c, look.all_draws(lines, n - 1), look.line_draws(lines[n - 1], n - 1));
    lemma_line_shows(before, look, lines[n - 1], n - 1);
    if i < n - 1 {
        law_input_line_shows_its_lines(c, look, lines, n - 1, i);
        let s = choose|s: int| #[trigger] shows_from(before, look, lines[i], i, s);
        assert(shows_from(before, look, lines[i], i, s));
        let row = look.origin.row_index + i;
        assert(forall|x: int| #[trigger] done.at(row, x) == before.at(row, x));
        assert(shows_from(done, look, lines[i], i, s));
    }
}

} // verus!
