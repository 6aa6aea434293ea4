//! The boxes on the surface: a column for each group of panes with the same left edge, and a box
//! for each pane in it.

use vstd::prelude::*;
use crate::app_frame::surface_color;
use crate::geometry::Size;
use crate::ids::{FlexBoxId, Id, id_number};
use crate::layout::law_panes_lie_on_surface;
use crate::pane_manager::{MAX_PANES, PaneSlot, Panes};
use crate::render::RgbValue;
use crate::theme::HelixTheme;

verus! {

/// The id of the first column.
pub const COLUMN_ID_BASE: u8 = 100;

/// Which way the boxes within a box are laid out.
#[derive(Clone, Copy, Debug, PartialEq, Eq, Structural)]
pub enum LayoutDirection {
    Horizontal,
    Vertical,
}

/// A step in laying out the surface.
#[derive(Clone, Copy, Debug, PartialEq, Eq, Structural)]
pub enum SurfaceOp {
    /// A box begins, with its size in percent of the box around it. It has the style of its id.
    StartBox { id: FlexBoxId, dir: LayoutDirection, width_pc: u32, height_pc: u32 },
    /// The component with an id is drawn in the current box.
    RenderComponent(FlexBoxId),
    /// The current box ends.
    EndBox,
}

/// The id of the pane in a slot.
pub open spec fn pane_box_id(slot: usize) -> FlexBoxId {
    FlexBoxId {
        inner: (2 + if slot < 15 {
            slot as int
        } else {
            15
        }) as u8,
    }
}

/// The width of a column, in percent of the window.
pub open spec fn width_percent(width: u16, window: Size) -> int {
    (width * 100) / (window.col_width as int)
}

/// The height of a pane, in percent of the surface, rounded up, and at least one.
pub open spec fn height_percent(height: u16, window: Size) -> int {
    let rows = window.row_height - 1;
    let pc = (height * 100 + rows - 1) / rows;
    if pc < 1 {
        1
    } else {
        pc
    }
}

/// The box of a column.
pub open spec fn column_start(columns: int, width: u16, window: Size) -> SurfaceOp {
    SurfaceOp::StartBox {
        id: FlexBoxId { inner: (COLUMN_ID_BASE + columns) as u8 },
        dir: LayoutDirection::Vertical,
        width_pc: width_percent(width, window) as u32,
        height_pc: 100,
    }
}

/// The box of a pane, with the pane in it.
pub open spec fn pane_steps(slot: PaneSlot, window: Size) -> Seq<SurfaceOp> {
    let id = pane_box_id(slot.slot);
    seq![
        SurfaceOp::StartBox {
            id,
            dir: LayoutDirection::Vertical,
            width_pc: 100,
            height_pc: height_percent(
                slot.box_.style_adjusted_bounds_size.row_height,
                window,
            ) as u32,
        },
        SurfaceOp::RenderComponent(id),
        SurfaceOp::EndBox,
    ]
}

/// The step that ends a column, where one has begun.
pub open spec fn column_end(origin: Option<u16>) -> Seq<SurfaceOp> {
    match origin {
        Some(_) => seq![SurfaceOp::EndBox],
        None => Seq::empty(),
    }
}

/// The steps for the panes from the `i`-th on, in the column with a left edge, where `columns`
/// have begun so far.
pub open spec fn steps_from(
    visible: Seq<PaneSlot>,
    i: int,
    origin: Option<u16>,
    columns: int,
    window: Size,
) -> Seq<SurfaceOp>
    decreases visible.len() - i,
{
    if i >= visible.len() {
        column_end(origin)
    } else {
        let edge = visible[i].box_.style_adjusted_origin_pos.col_index;
        let width = visible[i].box_.style_adjusted_bounds_size.col_width;
        if origin != Some(edge) {
            column_end(origin).push(column_start(columns, width, window)) + pane_steps(
                visible[i],
                window,
            ) + steps_from(visible, i + 1, Some(edge), columns + 1, window)
        } else {
            pane_steps(visible[i], window) + steps_from(visible, i + 1, origin, columns, window)
        }
    }
}

/// The box of the whole surface.
pub open spec fn container_start() -> SurfaceOp {
    SurfaceOp::StartBox {
        id: FlexBoxId { inner: id_number(Id::Container) },
        dir: LayoutDirection::Horizontal,
        width_pc: 100,
        height_pc: 100,
    }
}

/// All steps in laying out the surface.
pub open spec fn surface_steps(visible: Seq<PaneSlot>, window: Size) -> Seq<SurfaceOp> {
    seq![container_start()] + steps_from(visible, 0, None, 0, window) + seq![SurfaceOp::EndBox]
}

/// The `i`-th id that has a style: that of the surface, of the columns, and of the panes.
pub open spec fn styled_id(i: int) -> FlexBoxId {
    if i == 0 {
        FlexBoxId { inner: id_number(Id::Container) }
    } else if i <= MAX_PANES {
        FlexBoxId { inner: (COLUMN_ID_BASE + i - 1) as u8 }
    } else {
        pane_box_id((i - 1 - MAX_PANES) as usize)
    }
}

/// The styles of the boxes: each has the background of the surface, and no padding.
pub fn create_stylesheet(theme: &HelixTheme) -> (r: Vec<(FlexBoxId, RgbValue)>)
    ensures
        r@ == Seq::new(
            1 + 2 * MAX_PANES as nat,
            |i: int| (styled_id(i), surface_color(theme@)),
        ),
{
    let bg = match theme.ui_bg("ui.background") {
        Some(c) => c,
        None => RgbValue::new(15, 15, 25),
    };
    let mut styles: Vec<(FlexBoxId, RgbValue)> = Vec::new();
    styles.push((FlexBoxId::from(Id::Container), bg));
    let mut col: u8 = 0;
    while col < 16
        invariant
            col <= 16 == MAX_PANES,
            bg == surface_color(theme@),
            styles@ == Seq::new((1 + col) as nat, |i: int| (styled_id(i), bg)),
        decreases 16 - col,
    {
        styles.push((FlexBoxId { inner: COLUMN_ID_BASE + col }, bg));
        col += 1;
        assert(styles@ =~= Seq::new((1 + col) as nat, |i: int| (styled_id(i), bg)));
    }
    let mut slot: usize = 0;
    while slot < 16
        invariant
            slot <= 16 == MAX_PANES,
            bg == surface_color(theme@),
            styles@ == Seq::new((17 + slot) as nat, |i: int| (styled_id(i), bg)),
        decreases 16 - slot,
    {
        styles.push((FlexBoxId::from(Id::pane(slot)), bg));
        slot += 1;
        assert(styles@ =~= Seq::new((17 + slot) as nat, |i: int| (styled_id(i), bg)));
    }
    styles
}

/// Lays out the surface.
pub fn render_in_surface(visible: &Vec<PaneSlot>, window_size: Size) -> (r: Vec<SurfaceOp>)
    requires
        visible@.len() <= MAX_PANES,
        visible@.len() > 0 ==> window_size.col_width > 0 && window_size.row_height > 1,
    ensures
        r@ == surface_steps(visible@, window_size),
{
    let mut ops: Vec<SurfaceOp> = Vec::new();
    let container = FlexBoxId::from(Id::Container);
    ops.push(
        SurfaceOp::StartBox {
            id: container,
            dir: LayoutDirection::Horizontal,
            width_pc: 100,
            height_pc: 100,
        },
    );
    let rows: u32 = window_size.row_height.saturating_sub(1) as u32;
    let mut origin: Option<u16> = None;
    let mut columns: u8 = 0;
    let mut i: usize = 0;
    let ghost goal = seq![container_start()] + steps_from(visible@, 0, None, 0, window_size);
    assert(ops@ + steps_from(visible@, 0, None, 0, window_size) =~= goal);
    while i < visible.len()
        invariant
            i <= visible@.len() <= MAX_PANES,
            columns <= i,
            visible@.len() > 0 ==> window_size.col_width > 0 && window_size.row_height > 1,
            rows == if window_size.row_height > 0 {
                window_size.row_height - 1
            } else {
                0
            },
            ops@ + steps_from(visible@, i as int, origin, columns as int, window_size) == goal,
        decreases visible@.len() - i,
    {
        let ghost before = ops@;
        let ghost was = origin;
        let ghost columns_before = columns;
        let slot = visible[i];
        let edge: u16 = slot.box_.style_adjusted_origin_pos.col_index;
        let width: u16 = slot.box_.style_adjusted_bounds_size.col_width;
        let height: u16 = slot.box_.style_adjusted_bounds_size.row_height;
        if origin != Some(edge) {
            if origin.is_some() {
                ops.push(SurfaceOp::EndBox);
            }
            origin = Some(edge);
            let id = FlexBoxId { inner: COLUMN_ID_BASE + columns };
            columns += 1;
            let width_pc: u32 = (width as u32 * 100) / (window_size.col_width as u32);
            ops.push(
                SurfaceOp::StartBox {
                    id,
                    dir: LayoutDirection::Vertical,
                    width_pc,
                    height_pc: 100,
                },
            );
            assert(ops@ =~= before + column_end(was).push(
                column_start(columns_before as int, width, window_size),
            ));
        }
        let ghost mid = ops@;
        let id = FlexBoxId::from(Id::pane(slot.slot));
        let share: u32 = (height as u32 * 100 + rows - 1) / rows;
        let height_pc: u32 = if share < 1 {
            1
        } else {
            share
        };
        ops.push(
            SurfaceOp::StartBox { id, dir: LayoutDirection::Vertical, width_pc: 100, height_pc },
        );
        ops.push(SurfaceOp::RenderComponent(id));
        ops.push(SurfaceOp::EndBox);
        i += 1;
        proof {
            assert(ops@ =~= mid + pane_steps(slot, window_size));
            let rest = steps_from(visible@, i as int, origin, columns as int, window_size);
            assert(ops@ + rest =~= goal);
        }
    }
    if origin.is_some() {
        ops.push(SurfaceOp::EndBox);
    }
    assert(ops@ =~= goal);
    ops.push(SurfaceOp::EndBox);
    ops
}

/// How many boxes more begin than end.
pub open spec fn boxes_open(ops: Seq<SurfaceOp>) -> int
    decreases ops.len(),
{
    if ops.len() == 0 {
        0
    } else {
        boxes_open(ops.drop_last()) + match ops.last() {
            SurfaceOp::StartBox { .. } => 1int,
            SurfaceOp::EndBox => -1int,
            SurfaceOp::RenderComponent(_) => 0int,
        }
    }
}

/// The components that are drawn, in order.
pub open spec fn drawn_ids(ops: Seq<SurfaceOp>) -> Seq<FlexBoxId>
    decreases ops.len(),
{
    if ops.len() == 0 {
        Seq::empty()
    } else {
        match ops.last() {
            SurfaceOp::RenderComponent(id) => drawn_ids(ops.drop_last()).push(id),
            _ => drawn_ids(ops.drop_last()),
        }
    }
}

/// The boxes and the components of two parts add up.
proof fn lemma_steps_add_up(a: Seq<SurfaceOp>, b: Seq<SurfaceOp>)
    ensures
        boxes_open(a + b) == boxes_open(a) + boxes_open(b),
        drawn_ids(a + b) == drawn_ids(a) + drawn_ids(b),
    decreases b.len(),
{
    if b.len() == 0 {
        assert(a + b =~= a);
    } else {
        assert((a + b).drop_last() =~= a + b.drop_last());
        lemma_steps_add_up(a, b.drop_last());
        assert(drawn_ids(a + b) =~= drawn_ids(a) + drawn_ids(b));
    }
}

/// What short parts of the steps open and draw.
proof fn lemma_short_steps(slot: PaneSlot, origin: Option<u16>, start: SurfaceOp, window: Size)
    requires
        start is StartBox,
    ensures
        boxes_open(pane_steps(slot, window)) == 0,
        drawn_ids(pane_steps(slot, window)) == seq![pane_box_id(slot.slot)],
        boxes_open(column_end(origin)) == if origin is Some {
            -1int
        } else {
            0
        },
        drawn_ids(column_end(origin)) == Seq::<FlexBoxId>::empty(),
        boxes_open(seq![start]) == 1,
        drawn_ids(seq![start]) == Seq::<FlexBoxId>::empty(),
        boxes_open(seq![SurfaceOp::EndBox]) == -1,
        drawn_ids(seq![SurfaceOp::EndBox]) == Seq::<FlexBoxId>::empty(),
{
    reveal_with_fuel(boxes_open, 5);
    reveal_with_fuel(drawn_ids, 5);
    let steps = pane_steps(slot, window);
    assert(steps.drop_last().last() == SurfaceOp::RenderComponent(pane_box_id(slot.slot)));
    assert(steps.drop_last().drop_last().last() is StartBox);
    assert(drawn_ids(steps) =~= seq![pane_box_id(slot.slot)]);
}

/// What the steps from the `i`-th pane on open and draw.
proof fn lemma_steps_from(
    visible: Seq<PaneSlot>,
    i: int,
    origin: Option<u16>,
    columns: int,
    window: Size,
)
    requires
        0 <= i <= visible.len(),
    ensures
        boxes_open(steps_from(visible, i, origin, columns, window)) == if origin is Some {
            -1int
        } else {
            0
        },
        drawn_ids(steps_from(visible, i, origin, columns, window)) == Seq::new(
            (visible.len() - i) as nat,
            |j: int| pane_box_id(visible[i + j].slot),
        ),
    decreases visible.len() - i,
{
    let ids = Seq::new((visible.len() - i) as nat, |j: int| pane_box_id(visible[i + j].slot));
    if i >= visible.len() {
        if visible.len() > 0 {
            lemma_short_steps(visible[0], origin, container_start(), window);
        } else {
            reveal_with_fuel(boxes_open, 3);
            reveal_with_fuel(drawn_ids, 3);
        }
        assert(ids =~= Seq::empty());
    } else {
        let edge = visible[i].box_.style_adjusted_origin_pos.col_index;
        let width = visible[i].box_.style_adjusted_bounds_size.col_width;
        let start = column_start(columns, width, window);
        lemma_short_steps(visible[i], origin, start, window);
        let pane = pane_steps(visible[i], window);
        if origin != Some(edge) {
            let rest = steps_from(visible, i + 1, Some(edge), columns + 1, window);
            lemma_steps_from(visible, i + 1, Some(edge), columns + 1, window);
            assert(column_end(origin).push(start) =~= column_end(origin) + seq![start]);
            lemma_steps_add_up(column_end(origin), seq![start]);
            lemma_steps_add_up(column_end(origin).push(start), pane);
            lemma_steps_add_up(column_end(origin).push(start) + pane, rest);
        } else {
            let rest = steps_from(visible, i + 1, origin, columns, window);
            lemma_steps_from(visible, i + 1, origin, columns, window);
            lemma_steps_add_up(pane, rest);
        }
        assert(drawn_ids(steps_from(visible, i, origin, columns, window)) =~= ids);
    }
}

/// Every box that begins ends, and every visible pane is drawn once, from the front to the back.
pub proof fn law_panes_are_drawn_once(visible: Seq<PaneSlot>, window: Size)
    ensures
        boxes_open(surface_steps(visible, window)) == 0,
        drawn_ids(surface_steps(visible, window)) == Seq::new(
            visible.len(),
            |j: int| pane_box_id(visible[j].slot),
        ),
{
    let steps = steps_from(visible, 0, None, 0, window);
    lemma_steps_from(visible, 0, None, 0, window);
    reveal_with_fuel(boxes_open, 3);
    reveal_with_fuel(drawn_ids, 3);
    let first = seq![container_start()];
    let last = seq![SurfaceOp::EndBox];
    assert(first.drop_last() =~= Seq::empty());
    assert(last.drop_last() =~= Seq::empty());
    lemma_steps_add_up(first, steps);
    lemma_steps_add_up(first + steps, last);
    assert(drawn_ids(surface_steps(visible, window)) =~= Seq::new(
        visible.len(),
        |j: int| pane_box_id(visible[j].slot),
    ));
}

/// The sizes of the panes that a layout shows are percentages: at most all of the window, and of
/// its height at least one in a hundred.
pub proof fn law_sizes_are_percentages(p: Panes, window: Size, i: int)
    requires
        window.row_height > 1,
        0 <= i < p.layout(crate::app_keys::surface_of(window)).len(),
    ensures
        ({
            let size = p.layout(
                crate::app_keys::surface_of(window),
            )[i].box_.style_adjusted_bounds_size;
            &&& 0 <= width_percent(size.col_width, window) <= 100
            &&& 1 <= height_percent(size.row_height, window) <= 100
        }),
{
    let surface = crate::app_keys::surface_of(window);
    law_panes_lie_on_surface(p, surface, i);
    let size = p.layout(surface)[i].box_.style_adjusted_bounds_size;
    let w = size.col_width as int;
    let h = size.row_height as int;
    let cols = window.col_width as int;
    let rows = window.row_height - 1;
    assert(0 <= (w * 100) / cols <= 100) by (nonlinear_arith)
        requires
            0 <= w <= cols,
            cols > 0,
    ;
    assert((h * 100 + rows - 1) / rows <= 100) by (nonlinear_arith)
        requires
            0 <= h <= rows,
            rows > 0,
    ;
}

} // verus!
