//! The layout of the window stack: panes stacked top to bottom in columns, left to right.

use vstd::prelude::*;
use crate::geometry::{FlexBox, Pos, Size};
use crate::pane_manager::{MAX_PANES, MIN_PANE_WIDTH, PaneManager, PaneSlot, Panes};

verus! {

/// How many columns a surface `width` cells wide is divided into.
pub open spec fn column_count(width: int) -> int {
    if width / (MIN_PANE_WIDTH as int) >= 1 {
        width / (MIN_PANE_WIDTH as int)
    } else {
        1
    }
}

/// The width of column `c`: an even share, and one of the cells left over for the first columns.
pub open spec fn column_width(width: int, c: int) -> int {
    width / column_count(width) + if c < width % column_count(width) {
        1int
    } else {
        0int
    }
}

/// The left edge of column `c`.
pub open spec fn column_left(width: int, c: int) -> int {
    c * (width / column_count(width)) + if c < width % column_count(width) {
        c
    } else {
        width % column_count(width)
    }
}

/// Where a pane goes: its column, its top row, and the first row below what it asked for.
pub struct Spot {
    pub col: int,
    pub top: int,
    pub bottom: int,
}

/// The place of a pane that wants `want` rows, where `used` of the `rows` rows of column `col`
/// are taken.
///
/// A pane that does not fit takes what is left of the column where that is a quarter of it or
/// more. Else, and where the column is full, the pane goes to the top of the next column.
pub open spec fn next_spot(col: int, used: int, want: int, rows: int) -> Spot {
    let left = rows - used;
    if left == 0 || (want > left && left * 100 / rows < 25) {
        Spot { col: col + 1, top: 0, bottom: want }
    } else {
        Spot {
            col,
            top: used,
            bottom: if want <= left {
                used + want
            } else {
                rows
            },
        }
    }
}

impl Panes {
    /// The rows that the `i`-th window of the stack asks for.
    pub open spec fn want(self, rows: int, i: int) -> int {
        self.state_of(self.stack[i]).pane_size.requested(rows)
    }

    /// Where the `i`-th window of the stack goes, with as many columns as it takes.
    pub open spec fn spot(self, rows: int, i: int) -> Spot
        decreases i,
    {
        if i <= 0 {
            next_spot(0, 0, self.want(rows, 0), rows)
        } else {
            let before = self.spot(rows, i - 1);
            next_spot(before.col, before.bottom, self.want(rows, i), rows)
        }
    }

    /// How many of the first `n` windows have a place within `cols` columns.
    pub open spec fn placed(self, rows: int, cols: int, n: int) -> int
        decreases n,
    {
        if n <= 0 {
            0
        } else if self.placed(rows, cols, n - 1) == n - 1 && self.spot(rows, n - 1).col < cols {
            n
        } else {
            self.placed(rows, cols, n - 1)
        }
    }

    /// How many windows are visible on a surface of `size`.
    pub open spec fn visible_count(self, size: Size) -> int {
        if size.row_height == 0 || size.col_width == 0 {
            0
        } else {
            self.placed(
                size.row_height as int,
                column_count(size.col_width as int),
                if self.stack.len() <= MAX_PANES {
                    self.stack.len() as int
                } else {
                    MAX_PANES as int
                },
            )
        }
    }

    /// The first row below the `i`-th of `n` visible panes: the top of the pane below it in its
    /// column, or the end of the surface.
    pub open spec fn pane_end(self, rows: int, n: int, i: int) -> int {
        if i + 1 < n && self.spot(rows, i + 1).col == self.spot(rows, i).col {
            self.spot(rows, i + 1).top
        } else {
            rows
        }
    }

    /// The `i`-th of `n` visible panes.
    pub open spec fn slot_at(self, size: Size, n: int, i: int) -> PaneSlot {
        let width = size.col_width as int;
        let rows = size.row_height as int;
        let s = self.spot(rows, i);
        PaneSlot {
            slot: i as usize,
            window: self.stack[i],
            box_: FlexBox {
                style_adjusted_origin_pos: Pos {
                    col_index: column_left(width, s.col) as u16,
                    row_index: s.top as u16,
                },
                style_adjusted_bounds_size: Size {
                    col_width: column_width(width, s.col) as u16,
                    row_height: (self.pane_end(rows, n, i) - s.top) as u16,
                },
            },
        }
    }

    /// The visible panes on a surface of `size`.
    pub open spec fn layout(self, size: Size) -> Seq<PaneSlot> {
        let n = self.visible_count(size);
        Seq::new(n as nat, |i: int| self.slot_at(size, n, i))
    }
}

/// A place lies within the rows, and comes right below or right of the one before it.
pub proof fn lemma_spot(p: Panes, rows: int, i: int)
    requires
        1 <= rows,
        0 <= i,
    ensures
        0 <= p.spot(rows, i).top < p.spot(rows, i).bottom <= rows,
        0 <= p.spot(rows, i).col <= i,
        i == 0 ==> p.spot(rows, i).col == 0 && p.spot(rows, i).top == 0,
        i > 0 ==> {
            let before = p.spot(rows, i - 1);
            let here = p.spot(rows, i);
            ||| here.col == before.col && here.top == before.bottom
            ||| here.col == before.col + 1 && here.top == 0
        },
    decreases i,
{
    let size = p.state_of(p.stack[i]).pane_size;
    assert(1 <= size.requested(rows) <= rows);
    if i > 0 {
        lemma_spot(p, rows, i - 1);
    } else {
        assert(p.want(rows, 0) <= rows);
    }
}

/// The places go from left to right.
pub proof fn lemma_spot_cols_grow(p: Panes, rows: int, i: int, j: int)
    requires
        1 <= rows,
        0 <= i <= j,
    ensures
        p.spot(rows, i).col <= p.spot(rows, j).col,
    decreases j - i,
{
    if i < j {
        lemma_spot_cols_grow(p, rows, i, j - 1);
        lemma_spot(p, rows, j);
    }
}

/// All windows that are placed have a place within the columns, and are no more than were asked
/// about.
pub proof fn lemma_placed(p: Panes, rows: int, cols: int, n: int)
    requires
        0 <= n,
    ensures
        0 <= p.placed(rows, cols, n) <= n,
        forall|i: int|
            0 <= i < p.placed(rows, cols, n) ==> (#[trigger] p.spot(rows, i)).col < cols,
        p.placed(rows, cols, n) < n ==> p.spot(rows, p.placed(rows, cols, n)).col >= cols,
    decreases n,
{
    if n > 0 {
        lemma_placed(p, rows, cols, n - 1);
    }
}

/// Windows past one that has no place have none either.
proof fn lemma_placed_stops(p: Panes, rows: int, cols: int, k: int, n: int)
    requires
        0 <= k <= n,
        p.placed(rows, cols, k) == k,
        k < n ==> p.spot(rows, k).col >= cols,
    ensures
        p.placed(rows, cols, n) == k,
    decreases n - k,
{
    if k < n {
        if n > k + 1 {
            lemma_placed_stops(p, rows, cols, k, n - 1);
        }
    }
}

/// The columns stand side by side and fill the width.
pub proof fn lemma_columns(width: int, c: int)
    requires
        1 <= width <= u16::MAX,
        0 <= c,
    ensures
        1 <= column_count(width) <= width,
        column_width(width, c) >= 1,
        column_left(width, 0) == 0,
        column_left(width, c + 1) == column_left(width, c) + column_width(width, c),
        column_left(width, column_count(width)) == width,
        c <= column_count(width) ==> 0 <= column_left(width, c) <= width,
        c < column_count(width) ==> column_left(width, c) + column_width(width, c) <= width,
{
    let n = column_count(width);
    let base = width / n;
    let rest = width % n;
    assert(1 <= n <= width);
    assert(width == n * base + rest && 0 <= rest < n && 1 <= base) by (nonlinear_arith)
        requires
            1 <= n <= width,
            base == width / n,
            rest == width % n,
    ;
    assert((c + 1) * base == c * base + base) by (nonlinear_arith);
    if c <= n {
        assert(0 <= c * base <= n * base) by (nonlinear_arith)
            requires
                0 <= c <= n,
                1 <= base,
        ;
    }
    if c < n {
        assert((c + 1) * base <= n * base) by (nonlinear_arith)
            requires
                c + 1 <= n,
                1 <= base,
        ;
    }
}

/// Columns further right start further right.
pub proof fn lemma_columns_ordered(width: int, c: int, d: int)
    requires
        1 <= width <= u16::MAX,
        0 <= c < d,
    ensures
        column_left(width, c) + column_width(width, c) <= column_left(width, d),
    decreases d - c,
{
    lemma_columns(width, c);
    if c + 1 < d {
        lemma_columns_ordered(width, c, d - 1);
        lemma_columns(width, d - 1);
    }
}

impl PaneManager {
    /// Lays out visible panes into columns and rows.
    ///
    /// There is a column for every `MIN_PANE_WIDTH` cells of the surface, and at least one.
    /// Within each column, panes are stacked top to bottom at the size they ask for. The last
    /// pane in each column is stretched to fill what is left of that column.
    pub fn layout(&self, surface_size: Size) -> (r: Vec<PaneSlot>)
        ensures
            r@ == self@.layout(surface_size),
            r@.len() <= MAX_PANES,
    {
        let ghost p = self@;
        let ghost width = surface_size.col_width as int;
        let rows: u16 = surface_size.row_height;
        let surface_cols: u16 = surface_size.col_width;
        let mut slots: Vec<PaneSlot> = Vec::new();
        if rows == 0 || surface_cols == 0 {
            assert(slots@ =~= p.layout(surface_size));
            return slots;
        }
        let cols: u16 = if surface_cols / MIN_PANE_WIDTH >= 1 {
            surface_cols / MIN_PANE_WIDTH
        } else {
            1
        };
        proof {
            lemma_columns(width, 0);
        }
        let base_col_width: u16 = surface_cols / cols;
        let remainder: u16 = surface_cols % cols;
        let max: usize = if self.window_stack.len() <= MAX_PANES {
            self.window_stack.len()
        } else {
            MAX_PANES
        };

        let mut current_col: u16 = 0;
        let mut used_rows: u16 = 0;
        let mut origin_col: u16 = 0;
        let mut i: usize = 0;
        let mut done = false;
        while i < max && !done
            invariant
                p == self@,
                rows == surface_size.row_height,
                surface_cols == surface_size.col_width,
                width == surface_cols,
                rows >= 1,
                surface_cols >= 1,
                cols == column_count(width),
                base_col_width == width / (cols as int),
                remainder == width % (cols as int),
                max <= self.window_stack@.len(),
                max <= MAX_PANES,
                i <= max,
                slots@.len() == i,
                p.placed(rows as int, cols as int, i as int) == i,
                current_col < cols,
                i == 0 ==> current_col == 0 && used_rows == 0,
                i > 0 ==> p.spot(rows as int, i - 1).col == current_col,
                i > 0 ==> p.spot(rows as int, i - 1).bottom == used_rows,
                used_rows <= rows,
                origin_col == column_left(width, current_col as int),
                done ==> i < max && p.spot(rows as int, i as int).col >= cols,
                forall|j: int|
                    0 <= j < i ==> #[trigger] slots@[j] == p.slot_at(surface_size, i as int, j),
            decreases max - i, !done as int,
        {
            let window = self.window_stack[i];
            let want: u16 = self.window_state(&window).pane_size.requested_rows(rows);
            let left: u16 = rows - used_rows;
            let ghost s = p.spot(rows as int, i as int);
            proof {
                lemma_spot(p, rows as int, i as int);
                if i > 0 {
                    lemma_spot(p, rows as int, i - 1);
                }
                lemma_columns(width, current_col as int);
                lemma_columns(width, current_col + 1);
                assert(p.want(rows as int, i as int) == want);
                assert(s == next_spot(
                    current_col as int,
                    used_rows as int,
                    want as int,
                    rows as int,
                ));
            }
            let wraps = left == 0 || (want > left && (left as u32 * 100) / (rows as u32) < 25);
            assert(wraps <==> left == 0 || (want > left && left * 100 / (rows as int) < 25));
            if wraps && current_col + 1 >= cols {
                done = true;
            } else {
                if wraps {
                    let width_here: u16 = base_col_width + if current_col < remainder {
                        1
                    } else {
                        0
                    };
                    origin_col = origin_col + width_here;
                    current_col = current_col + 1;
                    used_rows = 0;
                } else if i > 0 {
                    // The pane above ends where this one starts.
                    let mut above = slots[i - 1];
                    above.box_.style_adjusted_bounds_size.row_height = used_rows
                        - above.box_.style_adjusted_origin_pos.row_index;
                    slots[i - 1] = above;
                }
                let pane_width: u16 = base_col_width + if current_col < remainder {
                    1
                } else {
                    0
                };
                let slot = PaneSlot {
                    slot: i,
                    window,
                    box_: FlexBox {
                        style_adjusted_origin_pos: Pos {
                            col_index: origin_col,
                            row_index: used_rows,
                        },
                        style_adjusted_bounds_size: Size {
                            col_width: pane_width,
                            row_height: rows - used_rows,
                        },
                    },
                };
                proof {
                    assert(s.col == current_col && s.top == used_rows);
                    assert(slot == p.slot_at(surface_size, i + 1, i as int));
                }
                slots.push(slot);
                used_rows = if want <= rows - used_rows {
                    used_rows + want
                } else {
                    rows
                };
                proof {
                    assert forall|j: int| 0 <= j < i + 1 implies #[trigger] slots@[j]
                        == p.slot_at(surface_size, i + 1, j) by {
                        if j == i - 1 {
                            lemma_spot(p, rows as int, j);
                        }
                    }
                }
                i += 1;
            }
        }
        proof {
            lemma_placed_stops(p, rows as int, cols as int, i as int, max as int);
            assert(slots@ =~= p.layout(surface_size));
        }
        slots
    }
}

/// The visible panes are the front of the stack, in order, and no more than `MAX_PANES`.
pub proof fn law_layout_shows_front_of_stack(p: Panes, size: Size)
    ensures
        p.layout(size).len() <= MAX_PANES,
        p.layout(size).len() <= p.stack.len(),
        forall|i: int|
            0 <= i < p.layout(size).len() ==> (#[trigger] p.layout(size)[i]).slot == i
                && p.layout(size)[i].window == p.stack[i],
{
    if size.row_height > 0 && size.col_width > 0 {
        let max = if p.stack.len() <= MAX_PANES {
            p.stack.len() as int
        } else {
            MAX_PANES as int
        };
        lemma_placed(p, size.row_height as int, column_count(size.col_width as int), max);
    }
}

/// What the `i`-th visible pane covers, as plain numbers.
pub proof fn lemma_slot_box(p: Panes, size: Size, i: int)
    requires
        0 <= i < p.layout(size).len(),
    ensures
        ({
            let width = size.col_width as int;
            let rows = size.row_height as int;
            let n = p.visible_count(size);
            let s = p.spot(rows, i);
            let b = p.layout(size)[i].box_;
            &&& width >= 1
            &&& rows >= 1
            &&& n == p.layout(size).len()
            &&& 0 <= s.col < column_count(width)
            &&& 0 <= s.top < rows
            &&& s.top < p.pane_end(rows, n, i) <= rows
            &&& b.style_adjusted_origin_pos.col_index == column_left(width, s.col)
            &&& b.style_adjusted_bounds_size.col_width == column_width(width, s.col)
            &&& b.style_adjusted_origin_pos.row_index == s.top
            &&& b.style_adjusted_origin_pos.row_index + b.style_adjusted_bounds_size.row_height
                == p.pane_end(rows, n, i)
        }),
{
    let width = size.col_width as int;
    let rows = size.row_height as int;
    law_layout_shows_front_of_stack(p, size);
    let max = if p.stack.len() <= MAX_PANES {
        p.stack.len() as int
    } else {
        MAX_PANES as int
    };
    lemma_placed(p, rows, column_count(width), max);
    lemma_spot(p, rows, i);
    lemma_spot(p, rows, i + 1);
    lemma_columns(width, p.spot(rows, i).col);
}

/// Every visible pane has at least one cell and lies within the surface.
pub proof fn law_panes_lie_on_surface(p: Panes, size: Size, i: int)
    requires
        0 <= i < p.layout(size).len(),
    ensures
        ({
            let b = p.layout(size)[i].box_;
            &&& b.style_adjusted_bounds_size.col_width >= 1
            &&& b.style_adjusted_bounds_size.row_height >= 1
            &&& b.style_adjusted_origin_pos.col_index + b.style_adjusted_bounds_size.col_width
                <= size.col_width
            &&& b.style_adjusted_origin_pos.row_index + b.style_adjusted_bounds_size.row_height
                <= size.row_height
        }),
{
    lemma_slot_box(p, size, i);
    lemma_columns(size.col_width as int, p.spot(size.row_height as int, i).col);
}

/// No cell belongs to two panes.
pub proof fn law_panes_do_not_overlap(p: Panes, size: Size, i: int, j: int, x: int, y: int)
    requires
        0 <= i < j < p.layout(size).len(),
    ensures
        !(p.layout(size)[i].box_.covers(x, y) && p.layout(size)[j].box_.covers(x, y)),
{
    let width = size.col_width as int;
    let rows = size.row_height as int;
    lemma_slot_box(p, size, i);
    lemma_slot_box(p, size, j);
    let a = p.spot(rows, i);
    let b = p.spot(rows, j);
    lemma_spot_cols_grow(p, rows, i, j);
    if a.col < b.col {
        lemma_columns_ordered(width, a.col, b.col);
    } else {
        lemma_same_column_below(p, rows, i, j);
    }
}

/// A pane that comes later in a column starts below the panes before it.
proof fn lemma_same_column_below(p: Panes, rows: int, i: int, j: int)
    requires
        1 <= rows,
        0 <= i < j,
        p.spot(rows, i).col == p.spot(rows, j).col,
    ensures
        p.spot(rows, i + 1).col == p.spot(rows, i).col,
        p.spot(rows, i + 1).top <= p.spot(rows, j).top,
    decreases j - i,
{
    lemma_spot_cols_grow(p, rows, i, i + 1);
    lemma_spot_cols_grow(p, rows, i + 1, j);
    lemma_spot(p, rows, i + 1);
    if i + 1 < j {
        lemma_same_column_below(p, rows, i + 1, j);
        lemma_spot(p, rows, i + 2);
    }
}

/// Some pane of column `c` has row `y`, for every column up to that of pane `i`.
proof fn lemma_column_is_filled(p: Panes, size: Size, i: int, c: int, y: int) -> (j: int)
    requires
        0 <= i < p.layout(size).len(),
        0 <= c <= p.spot(size.row_height as int, i).col,
        0 <= y < size.row_height,
        c == p.spot(size.row_height as int, i).col ==> y < p.pane_end(
            size.row_height as int,
            p.visible_count(size),
            i,
        ),
    ensures
        0 <= j <= i,
        p.spot(size.row_height as int, j).col == c,
        p.spot(size.row_height as int, j).top <= y < p.pane_end(
            size.row_height as int,
            p.visible_count(size),
            j,
        ),
    decreases i,
{
    let rows = size.row_height as int;
    let s = p.spot(rows, i);
    lemma_spot(p, rows, i);
    if s.col == c && s.top <= y {
        i
    } else {
        lemma_spot(p, rows, i - 1);
        lemma_column_is_filled(p, size, i - 1, c, y)
    }
}

/// Which column a cell is in.
proof fn lemma_column_of(width: int, x: int, c: int) -> (d: int)
    requires
        1 <= width <= u16::MAX,
        0 <= x,
        0 <= c,
        x < column_left(width, c) + column_width(width, c),
    ensures
        0 <= d <= c,
        column_left(width, d) <= x < column_left(width, d) + column_width(width, d),
    decreases c,
{
    lemma_columns(width, c);
    if column_left(width, c) <= x {
        c
    } else {
        lemma_columns(width, c - 1);
        lemma_column_of(width, x, c - 1)
    }
}

/// The panes leave no gap: every cell from the left edge of the surface to the right edge of the
/// last pane's column belongs to a pane.
pub proof fn law_columns_are_filled(p: Panes, size: Size, x: int, y: int)
    requires
        p.layout(size).len() > 0,
        0 <= y < size.row_height,
        0 <= x,
        x < p.layout(size).last().box_.style_adjusted_origin_pos.col_index
            + p.layout(size).last().box_.style_adjusted_bounds_size.col_width,
    ensures
        exists|i: int|
            0 <= i < p.layout(size).len() && (#[trigger] p.layout(size)[i]).box_.covers(x, y),
{
    let last = p.layout(size).len() - 1;
    let rows = size.row_height as int;
    let width = size.col_width as int;
    lemma_slot_box(p, size, last);
    let c = lemma_column_of(width, x, p.spot(rows, last).col);
    let j = lemma_column_is_filled(p, size, last, c, y);
    lemma_slot_box(p, size, j);
    assert(p.layout(size)[j].box_.covers(x, y));
}

} // verus!
