//! Drawing operations, as a list of values.

use vstd::prelude::*;
use crate::geometry::Pos;

verus! {

/// A colour by its parts.
#[derive(Clone, Copy, Debug, PartialEq, Eq, Structural)]
pub struct RgbValue {
    pub red: u8,
    pub green: u8,
    pub blue: u8,
}

/// The colour with the given parts.
pub open spec fn rgb(red: u8, green: u8, blue: u8) -> RgbValue {
    RgbValue { red, green, blue }
}

impl RgbValue {
    /// The colour with the given parts.
    pub fn new(red: u8, green: u8, blue: u8) -> (r: RgbValue)
        ensures
            r == rgb(red, green, blue),
    {
        RgbValue { red, green, blue }
    }
}

/// A colour.
#[derive(Clone, Copy, Debug, PartialEq, Eq, Structural)]
pub enum TuiColor {
    Rgb(RgbValue),
    Ansi(u8),
}

/// Attributes of painted text.
#[derive(Clone, Copy, Debug, PartialEq, Eq, Structural)]
pub struct TuiStyleAttribs {
    pub bold: bool,
    pub italic: bool,
    pub dim: bool,
    pub underline: bool,
    pub blink: bool,
    pub reverse: bool,
    pub hidden: bool,
    pub strikethrough: bool,
    pub overline: bool,
}

/// How text is painted.
#[derive(Clone, Copy, Debug, PartialEq, Eq, Structural)]
pub struct TuiStyle {
    pub attribs: TuiStyleAttribs,
    pub color_fg: Option<TuiColor>,
    pub color_bg: Option<TuiColor>,
}

/// A drawing operation.
#[derive(Debug)]
pub enum RenderOp {
    /// Moves the cursor to a cell, counted from `origin`.
    MoveTo { origin: Pos, offset: Pos },
    /// Moves the cursor to a cell of the surface.
    MoveToAbs(Pos),
    ResetColor,
    SetBgColor(TuiColor),
    ApplyColors(Option<TuiStyle>),
    /// Paints a text where the cursor is.
    Paint { text: String, style: Option<TuiStyle> },
}

/// What a [`RenderOp`] draws.
#[verifier::ext_equal]
pub enum Draw {
    MoveTo { origin: Pos, offset: Pos },
    MoveToAbs(Pos),
    ResetColor,
    SetBgColor(TuiColor),
    ApplyColors(Option<TuiStyle>),
    Paint { text: Seq<char>, style: Option<TuiStyle> },
}

impl View for RenderOp {
    type V = Draw;

    open spec fn view(&self) -> Draw {
        match *self {
            RenderOp::MoveTo { origin, offset } => Draw::MoveTo { origin, offset },
            RenderOp::MoveToAbs(pos) => Draw::MoveToAbs(pos),
            RenderOp::ResetColor => Draw::ResetColor,
            RenderOp::SetBgColor(color) => Draw::SetBgColor(color),
            RenderOp::ApplyColors(style) => Draw::ApplyColors(style),
            RenderOp::Paint { text, style } => Draw::Paint { text: text@, style },
        }
    }
}

/// What a list of operations draws.
pub open spec fn draws(ops: Seq<RenderOp>) -> Seq<Draw> {
    Seq::new(ops.len(), |i: int| ops[i]@)
}

/// One more operation is drawn last.
pub broadcast proof fn lemma_draws_push(ops: Seq<RenderOp>, op: RenderOp)
    ensures
        #[trigger] draws(ops.push(op)) == draws(ops).push(op@),
{
    assert(draws(ops.push(op)) =~= draws(ops).push(op@));
}

/// No attribute.
pub open spec fn plain_attribs() -> TuiStyleAttribs {
    TuiStyleAttribs {
        bold: false,
        italic: false,
        dim: false,
        underline: false,
        blink: false,
        reverse: false,
        hidden: false,
        strikethrough: false,
        overline: false,
    }
}

impl TuiStyleAttribs {
    /// No attribute.
    pub fn plain() -> (r: TuiStyleAttribs)
        ensures
            r == plain_attribs(),
    {
        TuiStyleAttribs {
            bold: false,
            italic: false,
            dim: false,
            underline: false,
            blink: false,
            reverse: false,
            hidden: false,
            strikethrough: false,
            overline: false,
        }
    }
}

/// Text of one colour on another.
pub open spec fn colored(fg: TuiColor, bg: TuiColor) -> TuiStyle {
    TuiStyle { attribs: plain_attribs(), color_fg: Some(fg), color_bg: Some(bg) }
}

/// Bold text of one colour on another.
pub open spec fn bold_colored(fg: TuiColor, bg: TuiColor) -> TuiStyle {
    TuiStyle {
        attribs: TuiStyleAttribs { bold: true, ..plain_attribs() },
        color_fg: Some(fg),
        color_bg: Some(bg),
    }
}

/// Nothing but a background.
pub open spec fn backed(bg: TuiColor) -> TuiStyle {
    TuiStyle { attribs: plain_attribs(), color_fg: None, color_bg: Some(bg) }
}

/// Text with foreground and background exchanged.
pub open spec fn reversed() -> TuiStyle {
    TuiStyle {
        attribs: TuiStyleAttribs { reverse: true, ..plain_attribs() },
        color_fg: None,
        color_bg: None,
    }
}

impl TuiStyle {
    /// Text of one colour on another.
    pub fn of(fg: TuiColor, bg: TuiColor) -> (r: TuiStyle)
        ensures
            r == colored(fg, bg),
    {
        TuiStyle { attribs: TuiStyleAttribs::plain(), color_fg: Some(fg), color_bg: Some(bg) }
    }

    /// Bold text of one colour on another.
    pub fn bold_of(fg: TuiColor, bg: TuiColor) -> (r: TuiStyle)
        ensures
            r == bold_colored(fg, bg),
    {
        let mut attribs = TuiStyleAttribs::plain();
        attribs.bold = true;
        TuiStyle { attribs, color_fg: Some(fg), color_bg: Some(bg) }
    }

    /// Nothing but a background.
    pub fn on(bg: TuiColor) -> (r: TuiStyle)
        ensures
            r == backed(bg),
    {
        TuiStyle { attribs: TuiStyleAttribs::plain(), color_fg: None, color_bg: Some(bg) }
    }

    /// Text with foreground and background exchanged.
    pub fn reverse() -> (r: TuiStyle)
        ensures
            r == reversed(),
    {
        let mut attribs = TuiStyleAttribs::plain();
        attribs.reverse = true;
        TuiStyle { attribs, color_fg: None, color_bg: None }
    }
}

/// The operation that moves to column `col` of row `row`, counted from `origin`.
pub fn move_to(origin: Pos, col: u16, row: u16) -> (r: RenderOp)
    ensures
        r@ == (Draw::MoveTo { origin, offset: Pos { col_index: col, row_index: row } }),
{
    RenderOp::MoveTo { origin, offset: Pos { col_index: col, row_index: row } }
}

/// The operation that paints `text`.
pub fn paint(text: String, style: Option<TuiStyle>) -> (r: RenderOp)
    ensures
        r@ == (Draw::Paint { text: text@, style }),
{
    RenderOp::Paint { text, style }
}

/// Appends one operation.
pub fn emit(ops: &mut Vec<RenderOp>, op: RenderOp)
    ensures
        draws(final(ops)@) == draws(old(ops)@).push(op@),
{
    let ghost before = ops@;
    ops.push(op);
    proof {
        lemma_draws_push(before, op);
    }
}

} // verus!
