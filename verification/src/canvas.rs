//! What a surface shows once something has been drawn on it, cell by cell.

use vstd::prelude::*;
use crate::geometry::Pos;
use crate::render::{Draw, TuiStyle};

verus! {

/// A character in a cell, and how it is painted.
#[verifier::ext_equal]
pub struct Shown {
    pub text: char,
    pub style: Option<TuiStyle>,
}

/// A surface: where the cursor is, and what the cells show that something was painted in. Cells are
/// given by row and column. A text is painted from the cursor on, one character a cell.
#[verifier::ext_equal]
pub struct Canvas {
    pub row: int,
    pub col: int,
    pub cells: spec_fn(int, int) -> Option<Shown>,
}

impl Canvas {
    /// What a cell shows, where something was painted in it.
    pub open spec fn at(self, row: int, col: int) -> Option<Shown> {
        (self.cells)(row, col)
    }

    /// The surface with a text painted where the cursor is.
    pub open spec fn with_text(self, text: Seq<char>, style: Option<TuiStyle>) -> Canvas {
        Canvas {
            row: self.row,
            col: self.col + text.len(),
            cells: |y: int, x: int|
                if y == self.row && self.col <= x < self.col + text.len() {
                    Some(Shown { text: text[x - self.col], style })
                } else {
                    self.at(y, x)
                },
        }
    }

    /// The surface after a drawing operation.
    pub open spec fn after(self, op: Draw) -> Canvas {
        match op {
            Draw::MoveTo { origin, offset } => Canvas {
                row: origin.row_index + offset.row_index,
                col: origin.col_index + offset.col_index,
                ..self
            },
            Draw::MoveToAbs(pos) => Canvas {
                row: pos.row_index as int,
                col: pos.col_index as int,
                ..self
            },
            Draw::Paint { text, style } => self.with_text(text, style),
            _ => self,
        }
    }

    /// The surface after some drawing operations, one after the other.
    pub open spec fn painted(self, ops: Seq<Draw>) -> Canvas
        decreases ops.len(),
    {
        if ops.len() == 0 {
            self
        } else {
            self.painted(ops.drop_last()).after(ops.last())
        }
    }
}

/// Drawing some operations and then others is drawing all of them.
pub proof fn lemma_painted_in_turn(c: Canvas, a: Seq<Draw>, b: Seq<Draw>)
    ensures
        c.painted(a + b) == c.painted(a).painted(b),
    decreases b.len(),
{
    if b.len() == 0 {
        assert(a + b =~= a);
    } else {
        lemma_painted_in_turn(c, a, b.drop_last());
        assert((a + b).drop_last() =~= a + b.drop_last());
        assert((a + b).last() == b.last());
    }
}

/// One operation.
pub proof fn lemma_painted_one(c: Canvas, op: Draw)
    ensures
        c.painted(seq![op]) == c.after(op),
{
    assert(seq![op].drop_last() =~= Seq::<Draw>::empty());
    assert(c.painted(Seq::<Draw>::empty()) == c);
}

/// Two operations.
pub proof fn lemma_painted_two(c: Canvas, a: Draw, b: Draw)
    ensures
        c.painted(seq![a, b]) == c.after(a).after(b),
{
    lemma_painted_one(c, a);
    assert(seq![a, b].drop_last() =~= seq![a]);
}

/// Three operations.
pub proof fn lemma_painted_three(c: Canvas, x: Draw, y: Draw, z: Draw)
    ensures
        c.painted(seq![x, y, z]) == c.after(x).after(y).after(z),
{
    lemma_painted_two(c, x, y);
    assert(seq![x, y, z].drop_last() =~= seq![x, y]);
}

/// Whether a surface shows a text in a row from a column on, in one style, and else what another
/// shows.
pub open spec fn shows_text(
    c: Canvas,
    before: Canvas,
    row: int,
    col: int,
    text: Seq<char>,
    style: Option<TuiStyle>,
) -> bool {
    forall|y: int, x: int| #[trigger]
        c.at(y, x) == if y == row && col <= x < col + text.len() {
            Some(Shown { text: text[x - col], style })
        } else {
            before.at(y, x)
        }
}

/// Whether a surface shows what another does, but for one row.
pub open spec fn same_but_row(c: Canvas, before: Canvas, row: int) -> bool {
    forall|y: int, x: int| y != row ==> #[trigger] c.at(y, x) == before.at(y, x)
}

/// A text that is painted is shown where the cursor was.
pub proof fn lemma_painted_text(c: Canvas, text: Seq<char>, style: Option<TuiStyle>)
    ensures
        shows_text(c.with_text(text, style), c, c.row, c.col, text, style),
{
}

/// Moving somewhere and painting a text there, in a style or not, shows the text there.
pub proof fn lemma_text_is_shown(
    c: Canvas,
    origin: Pos,
    offset: Pos,
    apply: Draw,
    text: Seq<char>,
    style: Option<TuiStyle>,
)
    requires
        apply is ApplyColors || apply is ResetColor,
    ensures
        ({
            let done = c.painted(
                seq![Draw::MoveTo { origin, offset }, apply, Draw::Paint { text, style }],
            );
            &&& shows_text(
                done,
                c,
                origin.row_index + offset.row_index,
                origin.col_index + offset.col_index,
                text,
                style,
            )
            &&& done.row == origin.row_index + offset.row_index
            &&& done.col == origin.col_index + offset.col_index + text.len()
        }),
{
    lemma_painted_three(c, Draw::MoveTo { origin, offset }, apply, Draw::Paint { text, style });
    let moved = c.after(Draw::MoveTo { origin, offset }).after(apply);
    lemma_painted_text(moved, text, style);
    let done = moved.with_text(text, style);
    assert forall|y: int, x: int| #[trigger] done.at(y, x) == if y == moved.row && moved.col <= x
        < moved.col + text.len() {
        Some(Shown { text: text[x - moved.col], style })
    } else {
        c.at(y, x)
    } by {
        assert(moved.at(y, x) == c.at(y, x));
    }
}

} // verus!
