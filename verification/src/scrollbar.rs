//! The scrollbar of a pane: where its thumb is, what a click on it means, and how it is drawn.

use vstd::prelude::*;
use crate::geometry::{FlexBox, Pos};
use crate::render::{
    Draw, RenderOp, RgbValue, TuiColor, TuiStyle, colored, draws, emit, move_to, paint, rgb,
};
use crate::screen::{greater, lesser};
use crate::theme::{HelixTheme, Theme};
use crate::title_row::{choose_rgb, rgb_or};

verus! {

/// What a scrollbar shows: how far content is scrolled, how long it is, and how much of it is
/// visible.
#[derive(Clone, Copy, Debug, PartialEq, Eq, Structural)]
pub struct ScrollState {
    pub scroll: usize,
    pub scroll_max: usize,
    pub page_size: usize,
}

/// The height of the thumb of a scrollbar with `height` cells.
pub open spec fn thumb_len(height: int, s: ScrollState) -> int {
    greater(1, height * s.page_size / greater(s.scroll_max as int, 1))
}

/// Where the thumb starts.
pub open spec fn thumb_start(height: int, s: ScrollState) -> int {
    if s.scroll_max <= s.page_size {
        0
    } else {
        s.scroll * (height - thumb_len(height, s)) / (s.scroll_max - s.page_size)
    }
}

/// The number, or the largest one where it is larger.
pub open spec fn capped(n: int) -> int {
    lesser(n, usize::MAX as int)
}

/// How far a click on row `y` of the track scrolls.
pub open spec fn scroll_at(y: int, height: int, s: ScrollState) -> int {
    if s.scroll_max <= s.page_size || height == 0 {
        0
    } else {
        capped(y * (s.scroll_max - s.page_size) / greater(height - 1, 1))
    }
}

/// The quotient of `delta * n` and `d`, without what is behind the point.
pub open spec fn share(delta: int, n: int, d: int) -> int {
    if delta >= 0 {
        delta * n / d
    } else {
        -((-delta) * n / d)
    }
}

/// How far dragging the thumb scrolls, from `grab_scroll` where it was grabbed at row `grab_y`, to
/// row `y`.
pub open spec fn scroll_dragged(
    grab_scroll: int,
    grab_y: int,
    y: int,
    height: int,
    s: ScrollState,
) -> int {
    let denom = greater(height - thumb_len(height, s), 1);
    capped(greater(grab_scroll + share(y - grab_y, s.scroll_max - s.page_size, denom), 0))
}

/// The thumb is no higher than the scrollbar, where not all of the content is visible.
pub proof fn law_thumb_fits(height: int, s: ScrollState)
    requires
        1 <= height,
        s.page_size < s.scroll_max,
    ensures
        1 <= thumb_len(height, s) <= height,
{
    assert(height * s.page_size / (s.scroll_max as int) <= height) by (nonlinear_arith)
        requires
            1 <= height,
            0 <= s.page_size < s.scroll_max,
    ;
}

/// The thumb stays within the scrollbar, where the page lies within the content.
pub proof fn law_thumb_stays_in_scrollbar(height: int, s: ScrollState)
    requires
        1 <= height,
        s.page_size < s.scroll_max,
        s.scroll <= s.scroll_max - s.page_size,
    ensures
        0 <= thumb_start(height, s),
        thumb_start(height, s) + thumb_len(height, s) <= height,
{
    law_thumb_fits(height, s);
    let room = height - thumb_len(height, s);
    let range = s.scroll_max - s.page_size;
    let scroll = s.scroll as int;
    assert(0 <= scroll * room / range <= room) by (nonlinear_arith)
        requires
            0 <= room,
            0 < range,
            0 <= scroll <= range,
    ;
}

/// Dragging the thumb nowhere leaves the scroll offset where it was.
pub proof fn law_dragging_nowhere_keeps_scroll(grab_scroll: usize, y: int, height: int, s: ScrollState)
    ensures
        scroll_dragged(grab_scroll as int, y, y, height, s) == grab_scroll,
{
    let range = s.scroll_max - s.page_size;
    let denom = greater(height - thumb_len(height, s), 1);
    assert(0 * range / denom == 0) by (nonlinear_arith)
        requires
            denom >= 1,
    ;
}

/// A click on the top of the track scrolls to the top, and a click on its bottom to the bottom.
pub proof fn law_track_reaches_both_ends(height: int, s: ScrollState)
    requires
        2 <= height,
        s.page_size < s.scroll_max,
    ensures
        scroll_at(0, height, s) == 0,
        scroll_at(height - 1, height, s) == s.scroll_max - s.page_size,
{
    let range = s.scroll_max - s.page_size;
    let d = height - 1;
    assert(0 * range / d == 0 && d * range / d == range) by (nonlinear_arith)
        requires
            d >= 1,
            range >= 0,
    ;
}

/// The height of the thumb.
fn thumb_size(height: usize, s: ScrollState) -> (r: u128)
    requires
        height <= 2 * u16::MAX,
    ensures
        r == thumb_len(height as int, s),
        r <= 2 * u16::MAX * u64::MAX + 1,
{
    let max: u128 = if s.scroll_max >= 1 {
        s.scroll_max as u128
    } else {
        1
    };
    proof {
        let p = s.page_size as int;
        let h = height as int;
        assert(0 <= h * p <= 2 * u16::MAX * u64::MAX) by (nonlinear_arith)
            requires
                0 <= h <= 2 * u16::MAX,
                0 <= p <= u64::MAX,
        ;
        let n = h * p;
        let m = max as int;
        assert(0 <= n / m <= n) by (nonlinear_arith)
            requires
                0 <= n,
                1 <= m,
        ;
    }
    let n: u128 = (height as u128) * (s.page_size as u128) / max;
    if n >= 1 {
        n
    } else {
        1
    }
}

/// Where the thumb starts.
fn thumb_position(height: usize, s: ScrollState) -> (r: u128)
    requires
        1 <= height <= 2 * u16::MAX,
    ensures
        r == thumb_start(height as int, s),
        r <= 2 * u16::MAX * u64::MAX,
{
    if s.scroll_max <= s.page_size {
        0
    } else {
        let thumb: u128 = thumb_size(height, s);
        proof {
            law_thumb_fits(height as int, s);
            let room = height - thumb;
            let scroll = s.scroll as int;
            assert(0 <= scroll * room <= 2 * u16::MAX * u64::MAX) by (nonlinear_arith)
                requires
                    0 <= room <= 2 * u16::MAX,
                    0 <= scroll <= u64::MAX,
            ;
            let n = scroll * room;
            let m = s.scroll_max - s.page_size;
            assert(0 <= n / m <= n) by (nonlinear_arith)
                requires
                    0 <= n,
                    1 <= m,
            ;
        }
        (s.scroll as u128) * (height as u128 - thumb) / ((s.scroll_max - s.page_size) as u128)
    }
}

/// The number, or the largest one where it is larger.
fn cap(n: u128) -> (r: usize)
    ensures
        r == capped(n as int),
{
    if n <= usize::MAX as u128 {
        n as usize
    } else {
        usize::MAX
    }
}

/// Whether row `y` of a scrollbar is on the thumb.
pub fn is_on_thumb(y: usize, height: usize, s: ScrollState) -> (r: bool)
    requires
        1 <= height <= u16::MAX,
    ensures
        r == (thumb_start(height as int, s) <= y < thumb_start(height as int, s) + thumb_len(
            height as int,
            s,
        )),
{
    let size: u128 = thumb_size(height, s);
    let start: u128 = thumb_position(height, s);
    start <= y as u128 && (y as u128) < start + size
}

/// How far a click on row `y` of the track scrolls.
pub fn scroll_from_y(y: usize, height: usize, s: ScrollState) -> (r: usize)
    requires
        y <= u16::MAX,
    ensures
        r == scroll_at(y as int, height as int, s),
{
    if s.scroll_max <= s.page_size || height == 0 {
        return 0;
    }
    let d: u128 = if height > 1 {
        height as u128 - 1
    } else {
        1
    };
    let range: u128 = (s.scroll_max - s.page_size) as u128;
    proof {
        let n = y as int;
        let m = range as int;
        assert(0 <= n * m <= u16::MAX * u64::MAX) by (nonlinear_arith)
            requires
                0 <= n <= u16::MAX,
                0 <= m <= u64::MAX,
        ;
    }
    cap((y as u128) * range / d)
}

/// How far dragging the thumb scrolls.
pub fn scroll_from_drag(
    grab_scroll: usize,
    grab_y: usize,
    y: usize,
    height: usize,
    s: ScrollState,
) -> (r: usize)
    requires
        1 <= height <= u16::MAX,
        y <= u16::MAX,
        grab_y <= u16::MAX,
        s.page_size < s.scroll_max,
    ensures
        r == scroll_dragged(grab_scroll as int, grab_y as int, y as int, height as int, s),
{
    let thumb: u128 = thumb_size(height, s);
    proof {
        law_thumb_fits(height as int, s);
    }
    let room: u128 = height as u128 - thumb;
    let denom: u128 = if room >= 1 {
        room
    } else {
        1
    };
    let range: u128 = (s.scroll_max - s.page_size) as u128;
    let steps: u128 = if y >= grab_y {
        (y - grab_y) as u128
    } else {
        (grab_y - y) as u128
    };
    proof {
        let n = steps as int;
        let m = range as int;
        let d = denom as int;
        assert(0 <= n * m <= u16::MAX * u64::MAX) by (nonlinear_arith)
            requires
                0 <= n <= u16::MAX,
                0 <= m <= u64::MAX,
        ;
        let x = n * m;
        assert(0 <= x / d <= x) by (nonlinear_arith)
            requires
                0 <= x,
                1 <= d,
        ;
    }
    let by: u128 = steps * range / denom;
    if y >= grab_y {
        cap(grab_scroll as u128 + by)
    } else if grab_scroll as u128 >= by {
        cap(grab_scroll as u128 - by)
    } else {
        0
    }
}

/// The colours of a scrollbar: the track, and a thumb that differs from it.
pub open spec fn scrollbar_colors(theme: Theme) -> (RgbValue, RgbValue) {
    let track = rgb_or(
        theme.bg("ui.menu.scroll"@),
        rgb_or(theme.bg("ui.virtual.ruler"@), rgb(30, 30, 50)),
    );
    let first = rgb_or(
        theme.fg("ui.menu.scroll"@),
        rgb_or(
            theme.bg("ui.selection"@),
            rgb_or(
                theme.bg("ui.cursorline.primary"@),
                rgb_or(theme.bg("ui.cursorline"@), rgb(50, 50, 90)),
            ),
        ),
    );
    let second = if first == track {
        rgb_or(
            theme.bg("ui.cursor"@),
            rgb_or(
                theme.fg("ui.text.focus"@),
                rgb_or(theme.fg("ui.text"@), rgb(120, 120, 160)),
            ),
        )
    } else {
        first
    };
    (
        track,
        if second == track {
            rgb(120, 120, 160)
        } else {
            second
        },
    )
}

/// Takes the colours of a scrollbar from a theme.
fn colors_from(theme: &HelixTheme) -> (r: (RgbValue, RgbValue))
    ensures
        r == scrollbar_colors(theme@),
{
    let track = choose_rgb(
        theme.ui_bg("ui.menu.scroll"),
        choose_rgb(theme.ui_bg("ui.virtual.ruler"), RgbValue::new(30, 30, 50)),
    );
    let mut thumb = choose_rgb(
        theme.ui_fg("ui.menu.scroll"),
        choose_rgb(
            theme.ui_bg("ui.selection"),
            choose_rgb(
                theme.ui_bg("ui.cursorline.primary"),
                choose_rgb(theme.ui_bg("ui.cursorline"), RgbValue::new(50, 50, 90)),
            ),
        ),
    );
    if thumb == track {
        thumb = choose_rgb(
            theme.ui_bg("ui.cursor"),
            choose_rgb(
                theme.ui_fg("ui.text.focus"),
                choose_rgb(theme.ui_fg("ui.text"), RgbValue::new(120, 120, 160)),
            ),
        );
    }
    if thumb == track {
        thumb = RgbValue::new(120, 120, 160);
    }
    (track, thumb)
}

/// Whether a half of a cell is on the thumb of a scrollbar with `halves` of them.
pub open spec fn half_on_thumb(half: int, halves: int, s: ScrollState) -> bool {
    thumb_start(halves, s) <= half < thumb_start(halves, s) + thumb_len(halves, s)
}

/// What a row of a scrollbar of `rows` rows shows: a block in the halves that are on the thumb.
pub open spec fn scrollbar_glyph(row: int, rows: int, s: ScrollState) -> char {
    let top = half_on_thumb(2 * row, 2 * rows, s);
    let bottom = half_on_thumb(2 * row + 1, 2 * rows, s);
    if top && bottom {
        '█'
    } else if top {
        '▀'
    } else if bottom {
        '▄'
    } else {
        ' '
    }
}

/// The first `n` rows of a scrollbar in the last column of a box.
pub open spec fn scrollbar_rows(b: FlexBox, theme: Theme, s: ScrollState, n: int) -> Seq<Draw>
    decreases n,
{
    if n <= 0 {
        Seq::empty()
    } else {
        let rows = b.style_adjusted_bounds_size.row_height as int;
        let width = b.style_adjusted_bounds_size.col_width;
        let glyph = scrollbar_glyph(n - 1, rows, s);
        let (track, thumb) = scrollbar_colors(theme);
        let style = colored(
            TuiColor::Rgb(
                if glyph == ' ' {
                    track
                } else {
                    thumb
                },
            ),
            TuiColor::Rgb(track),
        );
        scrollbar_rows(b, theme, s, n - 1) + seq![
            Draw::MoveTo {
                origin: b.style_adjusted_origin_pos,
                offset: Pos {
                    col_index: if width > 0 {
                        (width - 1) as u16
                    } else {
                        0
                    },
                    row_index: (n - 1) as u16,
                },
            },
            Draw::ApplyColors(Some(style)),
            Draw::Paint { text: seq![glyph], style: Some(style) },
        ]
    }
}

/// Draws a scrollbar in the last column of a box, with twice as many steps as rows.
pub fn render_scrollbar(
    ops: &mut Vec<RenderOp>,
    content_box: &FlexBox,
    s: ScrollState,
    theme: &HelixTheme,
)
    ensures
        draws(final(ops)@) == draws(old(ops)@) + scrollbar_rows(
            *content_box,
            theme@,
            s,
            content_box.style_adjusted_bounds_size.row_height as int,
        ),
{
    let ghost before = draws(ops@);
    let rows: u16 = content_box.style_adjusted_bounds_size.row_height;
    assert(before + scrollbar_rows(*content_box, theme@, s, 0) =~= before);
    if rows == 0 {
        return;
    }
    let origin = content_box.style_adjusted_origin_pos;
    let col: u16 = content_box.style_adjusted_bounds_size.col_width.saturating_sub(1);
    let (track_rgb, thumb_rgb) = colors_from(theme);
    let halves: usize = 2 * (rows as usize);
    let size: u128 = thumb_size(halves, s);
    let start: u128 = thumb_position(halves, s);
    let mut row: u16 = 0;
    while row < rows
        invariant
            row <= rows,
            rows == content_box.style_adjusted_bounds_size.row_height,
            origin == content_box.style_adjusted_origin_pos,
            col == if content_box.style_adjusted_bounds_size.col_width > 0 {
                content_box.style_adjusted_bounds_size.col_width - 1
            } else {
                0
            },
            (track_rgb, thumb_rgb) == scrollbar_colors(theme@),
            halves == 2 * rows,
            size == thumb_len(halves as int, s),
            start == thumb_start(halves as int, s),
            size <= 2 * u16::MAX * u64::MAX + 1,
            start <= 2 * u16::MAX * u64::MAX,
            draws(ops@) == before + scrollbar_rows(*content_box, theme@, s, row as int),
        decreases rows - row,
    {
        let ghost so_far = draws(ops@);
        let first: u128 = 2 * (row as u128);
        let second: u128 = first + 1;
        let top = start <= first && first < start + size;
        let bottom = start <= second && second < start + size;
        let glyph: char = if top && bottom {
            '█'
        } else if top {
            '▀'
        } else if bottom {
            '▄'
        } else {
            ' '
        };
        let fg = if top || bottom {
            thumb_rgb
        } else {
            track_rgb
        };
        let style = TuiStyle::of(TuiColor::Rgb(fg), TuiColor::Rgb(track_rgb));
        let mut text = String::new();
        text.push(glyph);
        assert(text@ =~= seq![glyph]);
        emit(ops, move_to(origin, col, row));
        emit(ops, RenderOp::ApplyColors(Some(style)));
        emit(ops, paint(text, Some(style)));
        assert(glyph == scrollbar_glyph(row as int, rows as int, s));
        row += 1;
        assert(draws(ops@) =~= before + scrollbar_rows(*content_box, theme@, s, row as int));
    }
}

} // verus!
