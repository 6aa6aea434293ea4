//! Colours, attributes and cells of the terminal multiplexer.

use vstd::prelude::*;
use crate::geometry::{Pos, Size};
use crate::render::{RgbValue, TuiColor, TuiStyle, TuiStyleAttribs, rgb};
use crate::screen::{PixelChar, cells_of};
use crate::text::chars_of;

verus! {

/// A colour of a pane's cell.
#[derive(Clone, Copy, Debug, PartialEq, Eq, Structural)]
pub enum PaneColor {
    Default,
    NoColor,
    Terminal,
    Ansi { index: u8 },
    BrightAnsi { index: u8 },
    Indexed { index: u8 },
    Rgb { red: u8, green: u8, blue: u8 },
    /// A colour by its number.
    Encoded { value: i32 },
}

/// The colour with a number: a few have numbers of their own, those of the palette follow
/// `0x100_0000`, and those by their parts `0x200_0000`. Other numbers stand for no colour.
pub open spec fn color_of(value: i32) -> PaneColor {
    if value == -1 {
        PaneColor::NoColor
    } else if value == 8 {
        PaneColor::Default
    } else if value == 9 {
        PaneColor::Terminal
    } else if 0 <= value <= 7 {
        PaneColor::Ansi { index: value as u8 }
    } else if 90 <= value <= 97 {
        PaneColor::BrightAnsi { index: (value - 90) as u8 }
    } else if 0x100_0000 <= value <= 0x100_00ff {
        PaneColor::Indexed { index: (value - 0x100_0000) as u8 }
    } else if 0x200_0000 <= value <= 0x2ff_ffff {
        let parts = value - 0x200_0000;
        PaneColor::Rgb {
            red: (parts / 0x1_0000) as u8,
            green: (parts / 0x100 % 0x100) as u8,
            blue: (parts % 0x100) as u8,
        }
    } else {
        PaneColor::Encoded { value }
    }
}

/// `rmux_sdk::PaneColor::from_encoded`: the colour with a number.
#[verifier::external_body]
pub(crate) fn decode_color(value: i32) -> (r: PaneColor)
    ensures
        r == color_of(value),
{
    match rmux_sdk::PaneColor::from_encoded(value) {
        rmux_sdk::PaneColor::Default => PaneColor::Default,
        rmux_sdk::PaneColor::None => PaneColor::NoColor,
        rmux_sdk::PaneColor::Terminal => PaneColor::Terminal,
        rmux_sdk::PaneColor::Ansi { index } => PaneColor::Ansi { index },
        rmux_sdk::PaneColor::BrightAnsi { index } => PaneColor::BrightAnsi { index },
        rmux_sdk::PaneColor::Indexed { index } => PaneColor::Indexed { index },
        rmux_sdk::PaneColor::Rgb { red, green, blue } => PaneColor::Rgb { red, green, blue },
        rmux_sdk::PaneColor::Encoded { value } => PaneColor::Encoded { value },
        _ => PaneColor::Encoded { value },
    }
}

/// What a colour that is not a number is drawn with.
pub open spec fn plain_color(color: PaneColor) -> Option<TuiColor> {
    match color {
        PaneColor::Ansi { index } => Some(TuiColor::Ansi(index)),
        PaneColor::BrightAnsi { index } => Some(TuiColor::Ansi((index + 8) as u8)),
        PaneColor::Indexed { index } => Some(TuiColor::Ansi(index)),
        PaneColor::Rgb { red, green, blue } => Some(TuiColor::Rgb(rgb(red, green, blue))),
        _ => None,
    }
}

/// What a colour is drawn with, or `None` for the terminal's own.
pub open spec fn drawn_color(color: PaneColor) -> Option<TuiColor> {
    match color {
        PaneColor::Encoded { value } => plain_color(color_of(value)),
        _ => plain_color(color),
    }
}

/// What a colour that is not a number is drawn with.
fn map_plain_color(color: &PaneColor) -> (r: Option<TuiColor>)
    requires
        *color matches PaneColor::BrightAnsi { index } ==> index <= 247,
    ensures
        r == plain_color(*color),
{
    match color {
        PaneColor::Ansi { index } => Some(TuiColor::Ansi(*index)),
        PaneColor::BrightAnsi { index } => Some(TuiColor::Ansi(*index + 8)),
        PaneColor::Indexed { index } => Some(TuiColor::Ansi(*index)),
        PaneColor::Rgb { red, green, blue } => Some(
            TuiColor::Rgb(RgbValue { red: *red, green: *green, blue: *blue }),
        ),
        _ => None,
    }
}

/// What a colour is drawn with, or `None` for the terminal's own.
pub fn map_color(color: &PaneColor) -> (r: Option<TuiColor>)
    requires
        *color matches PaneColor::BrightAnsi { index } ==> index <= 247,
    ensures
        r == drawn_color(*color),
{
    match color {
        PaneColor::Encoded { value } => map_plain_color(&decode_color(*value)),
        _ => map_plain_color(color),
    }
}

/// Whether a set of attributes holds those of a mask.
pub open spec fn has(bits: u16, mask: u16) -> bool {
    bits & mask == mask
}

/// What a set of attributes, by its bits, is drawn with.
pub open spec fn drawn_attributes(bits: u16) -> TuiStyleAttribs {
    TuiStyleAttribs {
        bold: has(bits, 0x1),
        dim: has(bits, 0x2),
        underline: has(bits, 0x4) || has(bits, 0x200) || has(bits, 0x400) || has(bits, 0x800)
            || has(bits, 0x1000),
        blink: has(bits, 0x8),
        reverse: has(bits, 0x10),
        hidden: has(bits, 0x20),
        italic: has(bits, 0x40),
        strikethrough: has(bits, 0x100),
        overline: has(bits, 0x2000),
    }
}

/// Whether a set of attributes holds those of a mask.
fn contains(bits: u16, mask: u16) -> (r: bool)
    ensures
        r == has(bits, mask),
{
    bits & mask == mask
}

/// What a set of attributes, by its bits, is drawn with. All kinds of underlines are drawn as one.
pub fn map_attributes(bits: u16) -> (r: TuiStyleAttribs)
    ensures
        r == drawn_attributes(bits),
{
    TuiStyleAttribs {
        bold: contains(bits, 0x1),
        dim: contains(bits, 0x2),
        underline: contains(bits, 0x4) || contains(bits, 0x200) || contains(bits, 0x400)
            || contains(bits, 0x800) || contains(bits, 0x1000),
        blink: contains(bits, 0x8),
        reverse: contains(bits, 0x10),
        hidden: contains(bits, 0x20),
        italic: contains(bits, 0x40),
        strikethrough: contains(bits, 0x100),
        overline: contains(bits, 0x2000),
    }
}

/// A cell of a pane.
#[derive(Debug)]
pub struct PaneCell {
    pub text: String,
    /// The cell belongs to the wide character before it.
    pub padding: bool,
    pub attributes: u16,
    pub foreground: PaneColor,
    pub background: PaneColor,
}

/// What a pane shows: its cells, row by row, and the cursor.
#[derive(Debug)]
pub struct PaneSnapshot {
    pub cols: u16,
    pub rows: u16,
    pub cells: Vec<PaneCell>,
    pub cursor_row: u16,
    pub cursor_col: u16,
}

/// The character that a cell shows: the first of its text, or a space.
pub open spec fn shown_char(text: Seq<char>, padding: bool) -> char {
    if padding || text.len() == 0 {
        ' '
    } else {
        text[0]
    }
}

/// The character that a cell shows.
pub fn glyph_char(text: &str, padding: bool) -> (r: char)
    ensures
        r == shown_char(text@, padding),
{
    let chars = chars_of(text);
    if padding || chars.len() == 0 {
        ' '
    } else {
        chars[0]
    }
}

/// What a cell is drawn as.
pub open spec fn drawn_cell(cell: PaneCell) -> PixelChar {
    PixelChar::PlainText {
        display_char: shown_char(cell.text@, cell.padding),
        style: TuiStyle {
            attribs: drawn_attributes(cell.attributes),
            color_fg: drawn_color(cell.foreground),
            color_bg: drawn_color(cell.background),
        },
    }
}

/// What is drawn at a place of a pane: its cell, where there is one that belongs to no character
/// before it.
pub open spec fn drawn_at(cells: Seq<PaneCell>, cols: int, row: int, col: int) -> PixelChar {
    let index = row * cols + col;
    if index < cells.len() && !cells[index].padding {
        drawn_cell(cells[index])
    } else {
        PixelChar::Spacer
    }
}

/// What a pane shows, as a buffer to be drawn, with the cursor.
pub struct OffscreenBuffer {
    pub buffer: Vec<Vec<PixelChar>>,
    pub size: Size,
    pub cursor_pos: Pos,
}

/// Whether the colours of a cell can be drawn.
pub open spec fn can_be_drawn(cell: PaneCell) -> bool {
    &&& cell.foreground matches PaneColor::BrightAnsi { index } ==> index <= 247
    &&& cell.background matches PaneColor::BrightAnsi { index } ==> index <= 247
}

/// Turns what a pane shows into a buffer to be drawn.
pub fn to_offscreen_buffer(snapshot: &PaneSnapshot) -> (r: OffscreenBuffer)
    requires
        forall|i: int| 0 <= i < snapshot.cells@.len() ==> can_be_drawn(#[trigger] snapshot.cells@[i]),
    ensures
        r.size == (Size { col_width: snapshot.cols, row_height: snapshot.rows }),
        r.cursor_pos == (Pos {
            col_index: snapshot.cursor_col,
            row_index: snapshot.cursor_row,
        }),
        cells_of(r.buffer@) == Seq::new(
            snapshot.rows as nat,
            |row: int|
                Seq::new(
                    snapshot.cols as nat,
                    |col: int| drawn_at(snapshot.cells@, snapshot.cols as int, row, col),
                ),
        ),
{
    let ghost cells = snapshot.cells@;
    let ghost cols = snapshot.cols as int;
    let mut buffer: Vec<Vec<PixelChar>> = Vec::new();
    let mut row: u16 = 0;
    while row < snapshot.rows
        invariant
            row <= snapshot.rows,
            cells == snapshot.cells@,
            cols == snapshot.cols,
            forall|i: int| 0 <= i < cells.len() ==> can_be_drawn(#[trigger] cells[i]),
            buffer@.len() == row,
            forall|y: int|
                0 <= y < row ==> (#[trigger] buffer@[y])@ == Seq::new(
                    snapshot.cols as nat,
                    |col: int| drawn_at(cells, cols, y, col),
                ),
        decreases snapshot.rows - row,
    {
        let mut line: Vec<PixelChar> = Vec::new();
        let mut col: u16 = 0;
        while col < snapshot.cols
            invariant
                col <= snapshot.cols,
                row < snapshot.rows,
                cells == snapshot.cells@,
                cols == snapshot.cols,
                forall|i: int| 0 <= i < cells.len() ==> can_be_drawn(#[trigger] cells[i]),
                line@.len() == col,
                forall|x: int| 0 <= x < col ==> line@[x] == drawn_at(cells, cols, row as int, x),
            decreases snapshot.cols - col,
        {
            assert(0 <= row * cols <= 0xffff * 0xffff) by (nonlinear_arith)
                requires
                    0 <= row <= 0xffff,
                    0 <= cols <= 0xffff,
            ;
            let index: u64 = row as u64 * snapshot.cols as u64 + col as u64;
            let drawn = if index < snapshot.cells.len() as u64 {
                let cell = &snapshot.cells[index as usize];
                assert(can_be_drawn(cells[index as int]));
                if cell.padding {
                    PixelChar::Spacer
                } else {
                    PixelChar::PlainText {
                        display_char: glyph_char(cell.text.as_str(), cell.padding),
                        style: TuiStyle {
                            attribs: map_attributes(cell.attributes),
                            color_fg: map_color(&cell.foreground),
                            color_bg: map_color(&cell.background),
                        },
                    }
                }
            } else {
                PixelChar::Spacer
            };
            line.push(drawn);
            col += 1;
        }
        assert(line@ =~= Seq::new(
            snapshot.cols as nat,
            |col: int| drawn_at(cells, cols, row as int, col),
        ));
        buffer.push(line);
        row += 1;
    }
    assert(cells_of(buffer@) =~= Seq::new(
        snapshot.rows as nat,
        |row: int| Seq::new(snapshot.cols as nat, |col: int| drawn_at(cells, cols, row, col)),
    ));
    OffscreenBuffer {
        buffer,
        size: Size { col_width: snapshot.cols, row_height: snapshot.rows },
        cursor_pos: Pos { col_index: snapshot.cursor_col, row_index: snapshot.cursor_row },
    }
}

/// A colour that is given by its number is drawn as the colour itself.
pub proof fn law_encoded_color_is_drawn_as_itself(value: i32)
    ensures
        drawn_color(PaneColor::Encoded { value }) == drawn_color(color_of(value)),
{
}

} // verus!
