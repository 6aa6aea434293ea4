//! The title bar of a pane.

use vstd::prelude::*;
use crate::bytes::{byte_at, byte_len, lemma_byte_at_grows, len_utf8, text_len};
use crate::geometry::{FlexBox, Pos};
use crate::render::{
    Draw, RenderOp, RgbValue, TuiColor, TuiStyle, bold_colored, colored, draws, emit, move_to,
    paint, rgb,
};
use crate::text::{chars_of, spaces, text_of};
use crate::theme::{HelixTheme, Theme};

verus! {

/// A colour, or another where there is none.
pub open spec fn rgb_or(c: Option<RgbValue>, other: RgbValue) -> RgbValue {
    match c {
        Some(rgb) => rgb,
        None => other,
    }
}

/// A colour, or another where there is none.
pub fn choose_rgb(c: Option<RgbValue>, other: RgbValue) -> (r: RgbValue)
    ensures
        r == rgb_or(c, other),
{
    match c {
        Some(rgb) => rgb,
        None => other,
    }
}

/// The background and the foreground of a title bar.
pub open spec fn title_colors(focused: bool, theme: Theme) -> (RgbValue, RgbValue) {
    if focused {
        (
            rgb_or(theme.bg("ui.selection"@), rgb(50, 50, 90)),
            rgb_or(theme.fg("ui.text"@), rgb(220, 220, 255)),
        )
    } else {
        (
            rgb_or(theme.bg("ui.statusline"@), rgb(30, 30, 50)),
            rgb_or(theme.fg("ui.statusline"@), rgb(180, 180, 220)),
        )
    }
}

/// The background and the foreground of a title bar.
pub fn title_bar_colors(focused: bool, theme: &HelixTheme) -> (r: (RgbValue, RgbValue))
    ensures
        r == title_colors(focused, theme@),
{
    if focused {
        (
            choose_rgb(theme.ui_bg("ui.selection"), RgbValue::new(50, 50, 90)),
            choose_rgb(theme.ui_fg("ui.text"), RgbValue::new(220, 220, 255)),
        )
    } else {
        (
            choose_rgb(theme.ui_bg("ui.statusline"), RgbValue::new(30, 30, 50)),
            choose_rgb(theme.ui_fg("ui.statusline"), RgbValue::new(180, 180, 220)),
        )
    }
}

/// How many of the first `n` characters fit into `limit` bytes.
pub open spec fn fitting(text: Seq<char>, n: int, limit: int) -> int
    decreases n,
{
    if n <= 0 || byte_at(text, n) <= limit {
        n
    } else {
        fitting(text, n - 1, limit)
    }
}

/// A title with a space on either side.
pub open spec fn padded(title: Seq<char>) -> Seq<char> {
    seq![' '] + title + seq![' ']
}

/// What is shown of a title in `width` cells: all of it, or as much as fits, and an ellipsis.
pub open spec fn shown_title(title: Seq<char>, width: int) -> Seq<char> {
    let all = padded(title);
    if byte_len(all) > width {
        all.take(fitting(all, all.len() as int, if width > 0 { width - 1 } else { 0 })).push('…')
    } else {
        all
    }
}

/// A title that is cut takes no more bytes than the width, besides the ellipsis.
pub proof fn law_shown_title_fits(title: Seq<char>, width: int)
    requires
        0 < width,
    ensures
        byte_len(shown_title(title, width)) <= width + 2,
{
    let all = padded(title);
    if byte_len(all) > width {
        let n = fitting(all, all.len() as int, width - 1);
        lemma_fitting(all, all.len() as int, width - 1);
        let cut = all.take(n).push('…');
        crate::bytes::lemma_byte_at_prefix(cut, all, n);
        assert(byte_at(cut, n + 1) == byte_at(cut, n) + 3);
    }
}

proof fn lemma_fitting(text: Seq<char>, n: int, limit: int)
    requires
        0 <= n <= text.len(),
        0 <= limit,
    ensures
        0 <= fitting(text, n, limit) <= n,
        byte_at(text, fitting(text, n, limit)) <= limit,
    decreases n,
{
    if n > 0 && byte_at(text, n) > limit {
        lemma_fitting(text, n - 1, limit);
    }
}

/// What is shown of a title in `width` cells.
pub fn fit_title(title: &str, width: usize) -> (r: String)
    ensures
        r@ == shown_title(title@, width as int),
{
    let ghost all = padded(title@);
    let mut text = String::new();
    text.push(' ');
    text.append(title);
    text.push(' ');
    assert(text@ =~= all);
    let len: usize = text_len(text.as_str());
    if len <= width {
        return text;
    }
    let limit: usize = if width > 0 {
        width - 1
    } else {
        0
    };
    let chars = chars_of(text.as_str());
    let mut n: usize = chars.len();
    let mut at: usize = len;
    while n > 0 && at > limit
        invariant
            n <= chars@.len(),
            chars@ == all,
            at == byte_at(all, n as int),
            fitting(all, n as int, limit as int) == fitting(all, all.len() as int, limit as int),
        decreases n,
    {
        proof {
            lemma_byte_at_grows(all, n - 1, n - 1);
        }
        at = at - len_utf8(chars[n - 1]);
        n -= 1;
    }
    let mut cut = text_of(&chars, 0, n);
    cut.push('…');
    assert(cut@ =~= shown_title(title@, width as int));
    cut
}

/// A title bar.
pub open spec fn title_draws(
    pane_box: FlexBox,
    title: Seq<char>,
    is_deleted: bool,
    theme: Theme,
    focused: bool,
) -> Seq<Draw> {
    let origin = pane_box.style_adjusted_origin_pos;
    let width = pane_box.style_adjusted_bounds_size.col_width as int;
    let (bg_rgb, fg_rgb) = title_colors(focused, theme);
    let bg = TuiColor::Rgb(bg_rgb);
    let fg = if is_deleted {
        TuiColor::Rgb(rgb_or(theme.fg("error"@), rgb(220, 80, 80)))
    } else {
        TuiColor::Rgb(fg_rgb)
    };
    let start = Draw::MoveTo { origin, offset: Pos { col_index: 0, row_index: 0 } };
    seq![
        start,
        Draw::ResetColor,
        Draw::SetBgColor(bg),
        Draw::Paint { text: Seq::new(width as nat, |i: int| ' '), style: None },
        start,
        Draw::Paint {
            text: shown_title(title, width),
            style: Some(
                if focused {
                    bold_colored(fg, bg)
                } else {
                    colored(fg, bg)
                },
            ),
        },
    ]
}

/// Draws a title bar: bold where the pane has the focus, and in the colour of errors where what
/// the pane shows is deleted.
pub fn render_pane_title(
    ops: &mut Vec<RenderOp>,
    pane_box: &FlexBox,
    title: &str,
    is_deleted: bool,
    theme: &HelixTheme,
    focused: bool,
)
    ensures
        draws(final(ops)@) == draws(old(ops)@) + title_draws(
            *pane_box,
            title@,
            is_deleted,
            theme@,
            focused,
        ),
{
    let ghost before = draws(ops@);
    let origin = pane_box.style_adjusted_origin_pos;
    let width: usize = pane_box.style_adjusted_bounds_size.col_width as usize;
    let (bg_rgb, fg_rgb) = title_bar_colors(focused, theme);
    let error_rgb = choose_rgb(theme.ui_fg("error"), RgbValue::new(220, 80, 80));
    let bg = TuiColor::Rgb(bg_rgb);
    let fg = if is_deleted {
        TuiColor::Rgb(error_rgb)
    } else {
        TuiColor::Rgb(fg_rgb)
    };
    let display = fit_title(title, width);
    emit(ops, move_to(origin, 0, 0));
    emit(ops, RenderOp::ResetColor);
    emit(ops, RenderOp::SetBgColor(bg));
    emit(ops, paint(spaces(width), None));
    emit(ops, move_to(origin, 0, 0));
    let style = if focused {
        TuiStyle::bold_of(fg, bg)
    } else {
        TuiStyle::of(fg, bg)
    };
    emit(ops, paint(display, Some(style)));
    assert(draws(ops@) =~= before + title_draws(*pane_box, title@, is_deleted, theme@, focused));
}

} // verus!
