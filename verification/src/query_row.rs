//! Title bars that hold an input line.

use vstd::prelude::*;
use crate::geometry::{FlexBox, Pos};
use crate::input_line::{InputLine, clustered_lines, input_look};
use crate::preview::{FilePreviewComponent, Preview, file_in};
use crate::render::{Draw, RenderOp, TuiColor, TuiStyle, colored, draws, emit, move_to, paint};
use crate::session_time::Nanos;
use crate::state::{App, AppState};
use crate::text::{copy_of, grapheme_clusters, spaces, split_on};
use crate::theme::{HelixTheme, Theme};
use crate::title_row::{render_pane_title, title_bar_colors, title_colors, title_draws};

verus! {

/// The background of the first `n` rows of a title bar.
pub open spec fn query_rows(origin: Pos, width: int, bg: TuiColor, style: TuiStyle, n: int) -> Seq<
    Draw,
>
    decreases n,
{
    if n <= 0 {
        Seq::empty()
    } else {
        query_rows(origin, width, bg, style, n - 1) + seq![
            Draw::MoveTo {
                origin,
                offset: Pos { col_index: 0, row_index: ((n - 1) as usize) as u16 },
            },
            Draw::SetBgColor(bg),
            Draw::Paint { text: Seq::new(width as nat, |i: int| ' '), style: Some(style) },
        ]
    }
}

/// An input line with the cursor at `cursor` and no prompt.
pub open spec fn query_draws(
    query: Seq<char>,
    cursor: int,
    origin: Pos,
    width: int,
    focused: bool,
    colors: (TuiColor, TuiColor),
) -> Seq<Draw> {
    let lines = clustered_lines(query);
    input_look(
        lines,
        cursor,
        ""@,
        grapheme_clusters(""@).len() as int,
        origin,
        width,
        focused,
        colors,
    ).all_draws(lines, lines.len() as int)
}

/// A title bar that is as high as a query has lines, and holds the query.
pub open spec fn query_title_draws(
    query: Seq<char>,
    cursor: int,
    pane_box: FlexBox,
    focused: bool,
    theme: Theme,
) -> Seq<Draw> {
    let origin = pane_box.style_adjusted_origin_pos;
    let width = pane_box.style_adjusted_bounds_size.col_width as int;
    let (bg_rgb, fg_rgb) = title_colors(focused, theme);
    let bg = TuiColor::Rgb(bg_rgb);
    let fg = TuiColor::Rgb(fg_rgb);
    query_rows(origin, width, bg, colored(fg, bg), split_on(query, '\n').len() as int)
        + query_draws(query, cursor, origin, width, focused, (bg, fg))
}

/// Draws a title bar that holds a query. Returns how many rows it takes.
pub fn render_query_title(
    ops: &mut Vec<RenderOp>,
    input: &InputLine,
    query: &str,
    pane_box: &FlexBox,
    focused: bool,
    theme: &HelixTheme,
) -> (r: usize)
    requires
        query@.len() < usize::MAX,
    ensures
        r == split_on(query@, '\n').len(),
        draws(final(ops)@) == draws(old(ops)@) + query_title_draws(
            query@,
            input.cursor() as int,
            *pane_box,
            focused,
            theme@,
        ),
{
    let ghost before = draws(ops@);
    let origin = pane_box.style_adjusted_origin_pos;
    let columns: u16 = pane_box.style_adjusted_bounds_size.col_width;
    let width: usize = columns as usize;
    let height: usize = InputLine::line_count(query);
    let (bg_rgb, fg_rgb) = title_bar_colors(focused, theme);
    let bg = TuiColor::Rgb(bg_rgb);
    let fg = TuiColor::Rgb(fg_rgb);
    let style = TuiStyle::of(fg, bg);
    let mut row: usize = 0;
    assert(before + query_rows(origin, width as int, bg, style, 0) =~= before);
    while row < height
        invariant
            row <= height,
            draws(ops@) == before + query_rows(origin, width as int, bg, style, row as int),
        decreases height - row,
    {
        let ghost so_far = draws(ops@);
        emit(ops, move_to(origin, 0, row as u16));
        emit(ops, RenderOp::SetBgColor(bg));
        emit(ops, paint(spaces(width), Some(style)));
        row += 1;
        assert(draws(ops@) =~= before + query_rows(origin, width as int, bg, style, row as int));
    }
    let ghost so_far = draws(ops@);
    input.render(ops, query, "", origin, columns, focused, (bg, fg));
    assert(draws(ops@) =~= before + query_title_draws(
        query@,
        input.cursor() as int,
        *pane_box,
        focused,
        theme@,
    ));
    height
}

/// The command line of a preview, in its title bar.
pub open spec fn command_draws(
    cmd: Seq<char>,
    cursor: int,
    origin: Pos,
    width: int,
    focused: bool,
    theme: Theme,
) -> Seq<Draw> {
    let (bg_rgb, fg_rgb) = title_colors(focused, theme);
    let bg = TuiColor::Rgb(bg_rgb);
    let fg = TuiColor::Rgb(fg_rgb);
    let style = colored(fg, bg);
    let start = Draw::MoveTo { origin, offset: Pos { col_index: 0, row_index: 0 } };
    seq![
        start,
        Draw::SetBgColor(bg),
        Draw::Paint { text: Seq::new(width as nat, |i: int| ' '), style: Some(style) },
        start,
        Draw::Paint { text: ":"@, style: Some(style) },
    ] + query_draws(
        cmd,
        cursor,
        origin.right_by(1),
        if width > 0 {
            width - 1
        } else {
            0
        },
        focused,
        (bg, fg),
    )
}

impl FilePreviewComponent {
    /// Draws the command line in the title bar, where there is one. Returns whether there is one.
    pub fn render_title_row(
        &self,
        ops: &mut Vec<RenderOp>,
        origin: Pos,
        width: u16,
        focused: bool,
        theme: &HelixTheme,
    ) -> (r: bool)
        requires
            self@.command matches Some(cmd) ==> cmd.len() < usize::MAX,
        ensures
            r == self@.command is Some,
            draws(final(ops)@) == draws(old(ops)@) + match self@.command {
                Some(cmd) => command_draws(
                    cmd,
                    self@.cursor,
                    origin,
                    width as int,
                    focused,
                    theme@,
                ),
                None => Seq::empty(),
            },
    {
        let ghost before = draws(ops@);
        match &self.command_mode {
            Some(cmd) => {
                let (bg_rgb, fg_rgb) = title_bar_colors(focused, theme);
                let bg = TuiColor::Rgb(bg_rgb);
                let fg = TuiColor::Rgb(fg_rgb);
                let style = TuiStyle::of(fg, bg);
                emit(ops, move_to(origin, 0, 0));
                emit(ops, RenderOp::SetBgColor(bg));
                emit(ops, paint(spaces(width as usize), Some(style)));
                emit(ops, move_to(origin, 0, 0));
                emit(ops, paint(copy_of(":"), Some(style)));
                self.command_input.render(
                    ops,
                    cmd.as_str(),
                    "",
                    origin.right_of(1),
                    width.saturating_sub(1),
                    focused,
                    (bg, fg),
                );
                assert(draws(ops@) =~= before + command_draws(
                    cmd@,
                    self@.cursor,
                    origin,
                    width as int,
                    focused,
                    theme@,
                ));
                true
            },
            None => {
                assert(draws(ops@) =~= before + Seq::<Draw>::empty());
                false
            },
        }
    }

    /// Draws the title bar: the command line where there is one, and else the title, in the colour
    /// of errors where the file is deleted.
    pub fn render_title(
        &mut self,
        ops: &mut Vec<RenderOp>,
        pane_box: &FlexBox,
        focused: bool,
        theme: &HelixTheme,
        state: &AppState,
        now: Nanos,
    )
        requires
            state.wf(),
            old(self)@.command matches Some(cmd) ==> cmd.len() < usize::MAX,
        ensures
            draws(final(ops)@) == draws(old(ops)@) + preview_title_draws(
                old(self)@,
                state@,
                *pane_box,
                focused,
                theme@,
                now,
            ),
            final(self)@ == if old(self)@.command is Some {
                old(self)@
            } else {
                old(self)@.without_stale_error(now)
            },
    {
        let origin = pane_box.style_adjusted_origin_pos;
        let width: u16 = pane_box.style_adjusted_bounds_size.col_width;
        let ghost before = draws(ops@);
        if !self.render_title_row(ops, origin, width, focused, theme) {
            let title = self.title_text(state, now);
            let deleted = match self.file_key(state) {
                Some(key) => state.files[key.0].removed,
                None => false,
            };
            assert(draws(ops@) =~= before);
            render_pane_title(ops, pane_box, title.as_str(), deleted, theme, focused);
        }
    }
}

/// Whether the file that a preview shows is deleted.
pub open spec fn shows_deleted(app: App, p: Preview) -> bool {
    file_in(app, p.id) matches Some(key) && app.files[key.0 as int].removed
}

/// The title bar of a preview.
pub open spec fn preview_title_draws(
    p: Preview,
    app: App,
    pane_box: FlexBox,
    focused: bool,
    theme: Theme,
    now: Nanos,
) -> Seq<Draw> {
    match p.command {
        Some(cmd) => command_draws(
            cmd,
            p.cursor,
            pane_box.style_adjusted_origin_pos,
            pane_box.style_adjusted_bounds_size.col_width as int,
            focused,
            theme,
        ),
        None => title_draws(pane_box, p.title(app, now), shows_deleted(app, p), theme, focused),
    }
}

} // verus!
