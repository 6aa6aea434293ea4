//! A list of all files, with one selected.

use vstd::prelude::*;
use crate::geometry::{FlexBox, Pos};
use crate::ids::FlexBoxId;
use crate::input::{EventPropagation, InputEvent, Key, KeyPress, SpecialKey};
use crate::paths::{relative_path, shown_path};
use crate::render::{
    Draw, RenderOp, RgbValue, TuiColor, TuiStyle, TuiStyleAttribs, bold_colored, draws, emit,
    move_to, paint, plain_attribs, rgb,
};
use crate::state::{File, LoadedFile, files_of};
use crate::text::copy_of;

verus! {

/// What the list asks the program to do.
#[derive(Clone, Copy, Debug, PartialEq, Eq, Structural)]
pub enum ListSignal {
    SelectPrev,
    SelectNext,
    OpenSelected,
    ScrollPreviewUp(usize),
    ScrollPreviewDown(usize),
}

/// A list of all files.
#[derive(Clone, Copy, Debug, PartialEq, Eq, Structural)]
pub struct FileListComponent {
    pub id: FlexBoxId,
    pub scroll_offset: usize,
}

/// What a key asks for. The preview is scrolled by a page, where a file is open.
pub open spec fn list_signal(event: InputEvent, file_open: bool, page_size: usize) -> Option<
    ListSignal,
> {
    let page = if page_size < 1 {
        1
    } else {
        page_size
    };
    match event {
        InputEvent::Keyboard(KeyPress::Plain { key: Key::SpecialKey(key) }) => match key {
            SpecialKey::Up => Some(ListSignal::SelectPrev),
            SpecialKey::Down => Some(ListSignal::SelectNext),
            SpecialKey::Enter => Some(ListSignal::OpenSelected),
            SpecialKey::PageUp => if file_open {
                Some(ListSignal::ScrollPreviewUp(page))
            } else {
                None
            },
            SpecialKey::PageDown => if file_open {
                Some(ListSignal::ScrollPreviewDown(page))
            } else {
                None
            },
            _ => None,
        },
        _ => None,
    }
}

/// The scroll offset at which the selected file is in sight.
pub open spec fn scrolled_to(scroll: int, selected: int, rows: int) -> int {
    if selected < scroll {
        selected
    } else if selected >= scroll + rows {
        selected + 1 - rows
    } else {
        scroll
    }
}

/// The style of a file of the list.
pub open spec fn file_style(is_selected: bool) -> TuiStyle {
    if is_selected {
        bold_colored(TuiColor::Rgb(rgb(255, 220, 100)), TuiColor::Rgb(rgb(60, 60, 100)))
    } else {
        tinted(rgb(180, 180, 210))
    }
}

/// Nothing but a foreground.
pub open spec fn tinted(color: RgbValue) -> TuiStyle {
    TuiStyle {
        attribs: plain_attribs(),
        color_fg: Some(TuiColor::Rgb(color)),
        color_bg: None,
    }
}

/// What a row of the list draws: a file, or nothing behind the last.
pub open spec fn row_draws(
    files: Seq<File>,
    root: Seq<char>,
    selected: int,
    origin: Pos,
    row: int,
    idx: int,
) -> Seq<Draw> {
    let offset = Pos { col_index: 0, row_index: row as u16 };
    seq![
        Draw::MoveTo { origin, offset },
        if idx < files.len() {
            Draw::Paint {
                text: shown_path(files[idx].path, root),
                style: Some(file_style(idx == selected)),
            }
        } else {
            Draw::Paint { text: seq![' '], style: Some(tinted(rgb(100, 100, 130))) }
        },
    ]
}

/// What the first `n` rows of the list draw.
pub open spec fn list_draws(
    files: Seq<File>,
    root: Seq<char>,
    selected: int,
    origin: Pos,
    scroll: int,
    n: int,
) -> Seq<Draw>
    decreases n,
{
    if n <= 0 {
        Seq::empty()
    } else {
        list_draws(files, root, selected, origin, scroll, n - 1) + row_draws(
            files,
            root,
            selected,
            origin,
            n - 1,
            scroll + n - 1,
        )
    }
}

impl FileListComponent {
    /// A list at its start.
    pub fn new(id: FlexBoxId) -> (r: Self)
        ensures
            r == (FileListComponent { id, scroll_offset: 0 }),
    {
        FileListComponent { id, scroll_offset: 0 }
    }

    /// The id of the list.
    pub fn get_id(&self) -> (r: FlexBoxId)
        ensures
            r == self.id,
    {
        self.id
    }

    /// Handles an event. `file_open` says whether a file is open, and `page_size` how many rows of it
    /// are in sight.
    pub fn handle_event(&self, event: &InputEvent, file_open: bool, page_size: usize) -> (r: (
        EventPropagation,
        Option<ListSignal>,
    ))
        ensures
            r.1 == list_signal(*event, file_open, page_size),
            r.0 == if r.1 is Some {
                EventPropagation::ConsumedRender
            } else {
                EventPropagation::Propagate
            },
    {
        let page: usize = if page_size < 1 {
            1
        } else {
            page_size
        };
        let signal = match event {
            InputEvent::Keyboard(KeyPress::Plain { key: Key::SpecialKey(key) }) => match key {
                SpecialKey::Up => Some(ListSignal::SelectPrev),
                SpecialKey::Down => Some(ListSignal::SelectNext),
                SpecialKey::Enter => Some(ListSignal::OpenSelected),
                SpecialKey::PageUp => if file_open {
                    Some(ListSignal::ScrollPreviewUp(page))
                } else {
                    None
                },
                SpecialKey::PageDown => if file_open {
                    Some(ListSignal::ScrollPreviewDown(page))
                } else {
                    None
                },
                _ => None,
            },
            _ => None,
        };
        match signal {
            Some(_) => (EventPropagation::ConsumedRender, signal),
            None => (EventPropagation::Propagate, None),
        }
    }

    /// Draws the list, scrolled so that the selected file is in sight.
    pub fn render(
        &mut self,
        ops: &mut Vec<RenderOp>,
        files: &Vec<LoadedFile>,
        root: &str,
        selected: usize,
        current_box: &FlexBox,
    )
        requires
            selected + 1 + current_box.style_adjusted_bounds_size.row_height <= usize::MAX,
        ensures
            final(self).id == old(self).id,
            final(self).scroll_offset == scrolled_to(
                old(self).scroll_offset as int,
                selected as int,
                current_box.style_adjusted_bounds_size.row_height as int,
            ),
            draws(final(ops)@) == draws(old(ops)@) + list_draws(
                files_of(files@),
                root@,
                selected as int,
                current_box.style_adjusted_origin_pos,
                final(self).scroll_offset as int,
                current_box.style_adjusted_bounds_size.row_height as int,
            ),
    {
        let ghost before = draws(ops@);
        let ghost all = files_of(files@);
        let origin = current_box.style_adjusted_origin_pos;
        let rows: u16 = current_box.style_adjusted_bounds_size.row_height;
        if selected < self.scroll_offset {
            self.scroll_offset = selected;
        } else if selected >= self.scroll_offset + rows as usize {
            self.scroll_offset = selected + 1 - rows as usize;
        }
        let scroll: usize = self.scroll_offset;
        let bold = TuiStyle::bold_of(
            TuiColor::Rgb(RgbValue::new(255, 220, 100)),
            TuiColor::Rgb(RgbValue::new(60, 60, 100)),
        );
        let normal = TuiStyle {
            attribs: TuiStyleAttribs::plain(),
            color_fg: Some(TuiColor::Rgb(RgbValue::new(180, 180, 210))),
            color_bg: None,
        };
        let dim = TuiStyle {
            attribs: TuiStyleAttribs::plain(),
            color_fg: Some(TuiColor::Rgb(RgbValue::new(100, 100, 130))),
            color_bg: None,
        };
        let mut row: u16 = 0;
        assert(before + list_draws(all, root@, selected as int, origin, scroll as int, 0)
            =~= before);
        while row < rows
            invariant
                row <= rows,
                scroll + rows <= usize::MAX,
                all == files_of(files@),
                bold == file_style(true),
                normal == file_style(false),
                dim == tinted(rgb(100, 100, 130)),
                draws(ops@) == before + list_draws(
                    all,
                    root@,
                    selected as int,
                    origin,
                    scroll as int,
                    row as int,
                ),
            decreases rows - row,
        {
            let ghost mid = draws(ops@);
            let idx: usize = scroll + row as usize;
            emit(ops, move_to(origin, 0, row));
            if idx < files.len() {
                assert(all[idx as int].path == files@[idx as int].path@);
                let text = relative_path(files[idx].path.as_str(), root);
                let style = if idx == selected {
                    bold
                } else {
                    normal
                };
                emit(ops, paint(text, Some(style)));
            } else {
                let blank = copy_of(" ");
                proof {
                    reveal_strlit(" ");
                    assert(blank@ =~= seq![' ']);
                }
                emit(ops, paint(blank, Some(dim)));
            }
            row += 1;
            proof {
                let drawn = row_draws(
                    all,
                    root@,
                    selected as int,
                    origin,
                    row - 1,
                    scroll + row - 1,
                );
                assert(draws(ops@) =~= mid + drawn);
                assert(draws(ops@) =~= before + list_draws(
                    all,
                    root@,
                    selected as int,
                    origin,
                    scroll as int,
                    row as int,
                ));
            }
        }
    }
}

/// The selected file is in sight, where the list has any rows.
pub proof fn law_selected_file_is_in_sight(scroll: int, selected: int, rows: int)
    requires
        rows > 0,
    ensures
        scrolled_to(scroll, selected, rows) <= selected < scrolled_to(scroll, selected, rows)
            + rows,
{
}

} // verus!
