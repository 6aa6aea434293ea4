//! What is drawn of the panes of a multiplexer, what is told of tasks, and where directories are
//! looked for.

use vstd::prelude::*;
use crate::paths::{dirs_above, first_holding, path_parent};
use crate::render::{TuiColor, rgb};
use crate::rmux_theme::{PaneCell, PaneColor, drawn_at, drawn_cell, drawn_color};
use crate::screen::PixelChar;
use crate::session_time::Nanos;
use crate::supervisor::{Entry, TaskStatus, changes};

verus! {

/// The first `n` rows of cells, one behind the other.
pub open spec fn rows_in_turn(rows: Seq<Seq<PaneCell>>, n: int) -> Seq<PaneCell>
    decreases n,
{
    if n <= 0 {
        Seq::empty()
    } else {
        rows_in_turn(rows, n - 1) + rows[n - 1]
    }
}

/// A row starts behind as many cells as the rows before it hold.
proof fn lemma_rows_in_turn(rows: Seq<Seq<PaneCell>>, cols: int, n: int, row: int, col: int)
    requires
        0 <= row < n <= rows.len(),
        0 <= col < cols,
        forall|i: int| 0 <= i < rows.len() ==> (#[trigger] rows[i]).len() == cols,
    ensures
        rows_in_turn(rows, n).len() == n * cols,
        0 <= row * cols + col < n * cols,
        rows_in_turn(rows, n)[row * cols + col] == rows[row][col],
    decreases n,
{
    assert(rows[n - 1].len() == cols);
    assert(n * cols == (n - 1) * cols + cols) by (nonlinear_arith);
    assert(0 <= row * cols) by (nonlinear_arith)
        requires
            0 <= row,
            0 < cols,
    ;
    if row < n - 1 {
        lemma_rows_in_turn(rows, cols, n - 1, row, col);
    } else if n > 1 {
        lemma_rows_in_turn(rows, cols, n - 1, 0, 0);
    } else {
        assert(rows_in_turn(rows, 0).len() == 0);
        assert(0 * cols == 0) by (nonlinear_arith);
    }
}

/// Of a pane whose rows come one behind the other, each cell is drawn in its row and column; one
/// that belongs to the wide character before it is left out.
pub proof fn law_cells_are_drawn_in_place(
    rows: Seq<Seq<PaneCell>>,
    cols: int,
    row: int,
    col: int,
)
    requires
        0 <= row < rows.len(),
        0 <= col < cols,
        forall|i: int| 0 <= i < rows.len() ==> (#[trigger] rows[i]).len() == cols,
    ensures
        rows[row][col].padding ==> drawn_at(
            rows_in_turn(rows, rows.len() as int),
            cols,
            row,
            col,
        ) == PixelChar::Spacer,
        !rows[row][col].padding ==> drawn_at(
            rows_in_turn(rows, rows.len() as int),
            cols,
            row,
            col,
        ) == drawn_cell(rows[row][col]),
{
    lemma_rows_in_turn(rows, cols, rows.len() as int, row, col);
}

/// A cell is drawn as the first character of its text, in its own colours.
pub proof fn law_drawn_cell_shows_first_character(cell: PaneCell)
    requires
        !cell.padding,
    ensures
        drawn_cell(cell) matches PixelChar::PlainText { display_char, style } && {
            &&& cell.text@.len() > 0 ==> display_char == cell.text@[0]
            &&& cell.text@.len() == 0 ==> display_char == ' '
            &&& style.color_fg == drawn_color(cell.foreground)
            &&& style.color_bg == drawn_color(cell.background)
        },
{
}

/// A colour that is given by a number is drawn as its three parts, as that of the palette, or as
/// one of the eight bright ones behind the eight plain ones.
pub proof fn law_numbered_color_is_drawn(red: u8, green: u8, blue: u8, index: u8)
    ensures
        drawn_color(
            PaneColor::Encoded {
                value: (0x200_0000 + red * 0x1_0000 + green * 0x100 + blue) as i32,
            },
        ) == Some(TuiColor::Rgb(rgb(red, green, blue))),
        drawn_color(PaneColor::Encoded { value: (0x100_0000 + index) as i32 }) == Some(
            TuiColor::Ansi(index),
        ),
        index < 8 ==> drawn_color(PaneColor::Encoded { value: index as i32 }) == Some(
            TuiColor::Ansi(index),
        ),
        index < 8 ==> drawn_color(PaneColor::Encoded { value: (90 + index) as i32 }) == Some(
            TuiColor::Ansi((index + 8) as u8),
        ),
{
}

/// Of all tasks, those are told of whose status changed, with the new one.
pub proof fn law_changed_tasks_are_told_of(
    entries: Seq<Entry>,
    finished: Seq<bool>,
    now: Nanos,
    n: int,
    i: usize,
    status: TaskStatus,
)
    requires
        0 <= n <= entries.len() <= usize::MAX,
        finished.len() == entries.len(),
    ensures
        changes(entries, finished, now, n).contains((i, status)) <==> i < n
            && entries[i as int].polled(finished[i as int], now).1 == Some(status),
    decreases n,
{
    if n > 0 {
        law_changed_tasks_are_told_of(entries, finished, now, n - 1, i, status);
        let before = changes(entries, finished, now, n - 1);
        let after = changes(entries, finished, now, n);
        if let Some(last) = entries[n - 1].polled(finished[n - 1], now).1 {
            let told = ((n - 1) as usize, last);
            assert(after == before.push(told));
            if before.contains((i, status)) {
                let k = choose|k: int| 0 <= k < before.len() && before[k] == (i, status);
                assert(after[k] == (i, status));
            }
            if after.contains((i, status)) {
                let k = choose|k: int| 0 <= k < after.len() && after[k] == (i, status);
                if k < before.len() {
                    assert(before[k] == (i, status));
                }
            }
            if i == n - 1 && last == status {
                assert(after[before.len() as int] == (i, status));
            }
        }
    }
}

/// The directory that is found is the nearest that holds what is looked for.
pub proof fn law_nearest_directory_is_found(dirs: Seq<Seq<char>>, holds: Seq<bool>, k: int)
    requires
        dirs.len() == holds.len(),
    ensures
        0 <= k < dirs.len() && holds[k] && (forall|j: int| 0 <= j < k ==> !#[trigger] holds[j])
            ==> first_holding(dirs, holds, 0) == Some(dirs[k]),
        (forall|j: int| 0 <= j < dirs.len() ==> !#[trigger] holds[j]) ==> first_holding(
            dirs,
            holds,
            0,
        ) is None,
{
    lemma_first_holding(dirs, holds, k, 0);
}

proof fn lemma_first_holding(dirs: Seq<Seq<char>>, holds: Seq<bool>, k: int, i: int)
    requires
        dirs.len() == holds.len(),
        0 <= i <= dirs.len(),
    ensures
        i <= k < dirs.len() && holds[k] && (forall|j: int| i <= j < k ==> !#[trigger] holds[j])
            ==> first_holding(dirs, holds, i) == Some(dirs[k]),
        (forall|j: int| i <= j < dirs.len() ==> !#[trigger] holds[j]) ==> first_holding(
            dirs,
            holds,
            i,
        ) is None,
    decreases dirs.len() - i,
{
    if i < dirs.len() {
        lemma_first_holding(dirs, holds, k, i + 1);
    }
}

/// The directories that hold a path go from each to the one that holds it.
pub proof fn law_directories_go_outward(path: Seq<char>, i: int)
    requires
        0 <= i < dirs_above(path).len(),
    ensures
        path_parent(
            if i == 0 {
                path
            } else {
                dirs_above(path)[i - 1]
            },
        ) == Some(dirs_above(path)[i]),
    decreases path.len(),
{
    if let Some(dir) = path_parent(path) {
        if dir.len() < path.len() {
            if i > 0 {
                law_directories_go_outward(dir, i - 1);
                assert(dirs_above(path)[i] == dirs_above(dir)[i - 1]);
                if i > 1 {
                    assert(dirs_above(path)[i - 1] == dirs_above(dir)[i - 2]);
                }
            }
        }
    }
}

} // verus!
