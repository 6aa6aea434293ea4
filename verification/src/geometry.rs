//! Terminal-cell geometry: positions, sizes and the boxes that panes are drawn in.

use vstd::prelude::*;

verus! {

/// A cell position, counted from the top-left corner.
#[derive(Clone, Copy, Debug, Default, PartialEq, Eq, Structural)]
pub struct Pos {
    pub col_index: u16,
    pub row_index: u16,
}

/// A width and a height in cells.
#[derive(Clone, Copy, Debug, Default, PartialEq, Eq, Structural)]
pub struct Size {
    pub col_width: u16,
    pub row_height: u16,
}

/// A positioned box of cells.
#[derive(Clone, Copy, Debug, Default, PartialEq, Eq, Structural)]
pub struct FlexBox {
    pub style_adjusted_origin_pos: Pos,
    pub style_adjusted_bounds_size: Size,
}

impl Pos {
    /// The position in column `col_index` of row `row_index`.
    pub fn new(col_index: u16, row_index: u16) -> (r: Pos)
        ensures
            r == (Pos { col_index, row_index }),
    {
        Pos { col_index, row_index }
    }

    /// The position `n` columns further right, as far as there are columns.
    pub open spec fn right_by(self, n: int) -> Pos {
        Pos {
            col_index: if self.col_index + n <= u16::MAX {
                (self.col_index + n) as u16
            } else {
                u16::MAX
            },
            ..self
        }
    }

    /// The position `n` rows further down, as far as there are rows.
    pub open spec fn down_by(self, n: int) -> Pos {
        Pos {
            row_index: if self.row_index + n <= u16::MAX {
                (self.row_index + n) as u16
            } else {
                u16::MAX
            },
            ..self
        }
    }

    /// The position `n` columns further right.
    pub fn right_of(self, n: u16) -> (r: Pos)
        ensures
            r == self.right_by(n as int),
    {
        Pos { col_index: self.col_index.saturating_add(n), row_index: self.row_index }
    }

    /// The position `n` rows further down.
    pub fn below(self, n: u16) -> (r: Pos)
        ensures
            r == self.down_by(n as int),
    {
        Pos { col_index: self.col_index, row_index: self.row_index.saturating_add(n) }
    }
}

impl Size {
    /// The size of `col_width` columns by `row_height` rows.
    pub fn new(col_width: u16, row_height: u16) -> (r: Size)
        ensures
            r == (Size { col_width, row_height }),
    {
        Size { col_width, row_height }
    }
}

impl FlexBox {
    /// Whether the cell at column `x` of row `y` lies in this box.
    pub open spec fn covers(self, x: int, y: int) -> bool {
        &&& self.style_adjusted_origin_pos.col_index <= x
        &&& x < self.style_adjusted_origin_pos.col_index
            + self.style_adjusted_bounds_size.col_width
        &&& self.style_adjusted_origin_pos.row_index <= y
        &&& y < self.style_adjusted_origin_pos.row_index
            + self.style_adjusted_bounds_size.row_height
    }

    /// Whether the box covers a cell.
    pub fn covers_cell(&self, col: u16, row: u16) -> (r: bool)
        ensures
            r == self.covers(col as int, row as int),
    {
        let origin = self.style_adjusted_origin_pos;
        let size = self.style_adjusted_bounds_size;
        col >= origin.col_index && row >= origin.row_index && col - origin.col_index
            < size.col_width && row - origin.row_index < size.row_height
    }
}

} // verus!
