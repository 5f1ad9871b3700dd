//! The desktop that the shell provides where Explorer's never appears: its wallpaper,
//! its icons' places, and dragging them.

use vstd::prelude::*;
use vstd::string::*;
use crate::config::{Config, ConfigView};
use crate::geometry::near;
use crate::num::{
    decimal, decimal_int, i64_text, is_digit, lemma_decimal, lemma_decimal_int_reads_back,
    parse_i32, parsed_int,
};
use crate::search::{first, first_from, lemma_first_is};
use crate::text::{
    alike, char_views, chars_of, cut, eq_ignore_case, lines, lowered, rfind_char, same_str,
    slice_of, split_lines, split_once, string_of, to_ascii_lower, trim, trimmed, white,
    without_return,
};
use crate::util::opt_view;

verus! {

// ---- Whether to have a desktop ----

/// When the shell provides the desktop.
#[derive(Clone, Copy, PartialEq, Eq, Structural, Debug)]
pub enum Plan {
    Never,
    /// Only if Explorer's desktop does not come up in time.
    IfExplorerFails,
    Always,
}

/// 0 = auto (create only if Explorer's desktop never appears), 2 = never, anything
/// else = always.
pub fn desktop_plan(own_desktop: u32) -> (r: Plan)
    ensures
        r == if own_desktop == 2 {
            Plan::Never
        } else if own_desktop == 0 {
            Plan::IfExplorerFails
        } else {
            Plan::Always
        },
{
    if own_desktop == 2 {
        Plan::Never
    } else if own_desktop == 0 {
        Plan::IfExplorerFails
    } else {
        Plan::Always
    }
}

/// Whether the shell creates its desktop, once it is known if Explorer's appeared.
pub fn create_if_needed(own_desktop: u32, explorer_present: bool) -> (r: bool)
    ensures
        r == (own_desktop != 2 && !(own_desktop == 0 && explorer_present)),
{
    match desktop_plan(own_desktop) {
        Plan::Never => false,
        Plan::IfExplorerFails => !explorer_present,
        Plan::Always => true,
    }
}

/// How long Explorer is given to bring its own desktop up.
pub const EXPLORER_WAIT_MS: u64 = 15_000;

/// Whether to go on waiting for Explorer's desktop.
pub fn keep_waiting(elapsed_ms: u64, present: bool) -> (r: bool)
    ensures
        r == (elapsed_ms < EXPLORER_WAIT_MS && !present),
{
    elapsed_ms < EXPLORER_WAIT_MS && !present
}

// ---- Wallpaper ----

/// The wallpaper: the configured one, else the Control Panel's, an empty one of
/// which counts as none.
pub open spec fn wallpaper_of(c: ConfigView, panel: Option<Seq<char>>) -> Option<Seq<char>> {
    match c.wallpaper {
        Some(p) => Some(p),
        None => match panel {
            Some(p) if p.len() > 0 => Some(p),
            _ => None,
        },
    }
}

pub fn resolve_wallpaper_path(cfg: &Config, panel: &Option<String>) -> (r: Option<String>)
    ensures
        opt_view(r) == wallpaper_of(cfg@, opt_view(*panel)),
{
    match &cfg.wallpaper {
        Some(p) => Some(p.clone()),
        None => match panel {
            Some(p) => {
                if chars_of(p.as_str()).len() == 0 {
                    None
                } else {
                    Some(p.clone())
                }
            },
            None => None,
        },
    }
}

/// The path names a bitmap, whatever the case of its ending. Only those are handed
/// to the system as its wallpaper.
pub fn is_bitmap(path: &str) -> (r: bool)
    ensures
        r == crate::taskbar::input::ends(lowered(path@), ".bmp"@),
{
    let low = to_ascii_lower(&chars_of(path));
    let p = chars_of(".bmp");
    if p.len() > low.len() {
        return false;
    }
    let tail = slice_of(&low, low.len() - p.len(), low.len());
    assert(tail@ =~= low@.skip(low@.len() - p@.len()));
    crate::text::same_chars(&tail, &p)
}

/// The part of a bitmap that fills a window: the largest one of the window's shape,
/// from its middle.
pub open spec fn cover(bw: int, bh: int, dw: int, dh: int) -> (int, int, int, int) {
    if dw > 0 && dh > 0 && bw > 0 && bh > 0 {
        if bw * dh > dw * bh {
            let w = bh * dw / dh;
            ((bw - w) / 2, 0, w, bh)
        } else {
            let h = bw * dh / dw;
            (0, (bh - h) / 2, bw, h)
        }
    } else {
        (0, 0, bw, bh)
    }
}

/// The part of a bitmap `bw` by `bh` that is stretched to a window `dw` by `dh`: its
/// left and top edge, its width and height.
pub fn cover_crop(bw: i32, bh: i32, dw: i32, dh: i32) -> (r: (i32, i32, i32, i32))
    ensures
        (r.0 as int, r.1 as int, r.2 as int, r.3 as int) == cover(
            bw as int,
            bh as int,
            dw as int,
            dh as int,
        ),
{
    if dw > 0 && dh > 0 && bw > 0 && bh > 0 {
        assert(0 < bw * dh <= i32::MAX * i32::MAX && 0 < dw * bh <= i32::MAX * i32::MAX)
            by (nonlinear_arith)
            requires
                0 < bw <= i32::MAX,
                0 < bh <= i32::MAX,
                0 < dw <= i32::MAX,
                0 < dh <= i32::MAX,
        ;
        let a: i64 = bw as i64 * dh as i64;
        let b: i64 = dw as i64 * bh as i64;
        assert(bh * dw == dw * bh) by (nonlinear_arith);
        if a > b {
            let w: i64 = b / dh as i64;
            assert(0 <= w <= bw) by (nonlinear_arith)
                requires
                    0 <= b <= bw * dh,
                    0 < dh,
                    w == b as int / dh as int,
            ;
            ((bw - w as i32) / 2, 0, w as i32, bh)
        } else {
            let h: i64 = a / dw as i64;
            assert(0 <= h <= bh) by (nonlinear_arith)
                requires
                    0 <= a <= dw * bh,
                    0 < dw,
                    h == a as int / dw as int,
            ;
            (0, (bh - h as i32) / 2, bw, h as i32)
        }
    } else {
        (0, 0, bw, bh)
    }
}

/// The cropped part lies inside the bitmap and spans it in one direction.
pub proof fn crop_lies_in_the_bitmap(bw: int, bh: int, dw: int, dh: int)
    requires
        0 < bw,
        0 < bh,
        0 < dw,
        0 < dh,
    ensures
        ({
            let (x, y, w, h) = cover(bw, bh, dw, dh);
            &&& 0 <= x && x + w <= bw && 0 <= w
            &&& 0 <= y && y + h <= bh && 0 <= h
            &&& w == bw || h == bh
        }),
{
    if bw * dh > dw * bh {
        let w = bh * dw / dh;
        assert(bh * dw == dw * bh) by (nonlinear_arith);
        assert(0 <= bh * dw) by (nonlinear_arith)
            requires
                0 < bh,
                0 < dw,
        ;
        assert(0 <= w <= bw) by (nonlinear_arith)
            requires
                0 <= bh * dw <= bw * dh,
                0 < dh,
                w == bh * dw / dh,
        ;
    } else {
        let h = bw * dh / dw;
        assert(0 <= bw * dh) by (nonlinear_arith)
            requires
                0 < bw,
                0 < dh,
        ;
        assert(0 <= h <= bh) by (nonlinear_arith)
            requires
                0 <= bw * dh <= dw * bh,
                0 < dw,
                h == bw * dh / dw,
        ;
    }
}

/// The views of the desktop that can be hosted.
#[derive(Clone, Copy, PartialEq, Eq, Structural, Debug)]
pub enum ViewKind {
    /// The whole namespace desktop, with the system's own icons.
    Full,
    /// The Public Desktop folder, with none of them.
    Public,
}

/// The views to try, in order: the whole desktop comes last where the system's icons
/// are not wanted.
pub fn view_choices(show_system: bool) -> (r: Vec<ViewKind>)
    ensures
        r@ == if show_system {
            seq![ViewKind::Full]
        } else {
            seq![ViewKind::Public, ViewKind::Full]
        },
{
    let mut v: Vec<ViewKind> = Vec::new();
    if !show_system {
        v.push(ViewKind::Public);
    }
    v.push(ViewKind::Full);
    assert(v@ =~= if show_system {
        seq![ViewKind::Full]
    } else {
        seq![ViewKind::Public, ViewKind::Full]
    });
    v
}

// ---- Dragging ----

#[derive(Clone, Copy, PartialEq, Eq, Structural, Debug)]
pub struct Point {
    pub x: i32,
    pub y: i32,
}

/// How far apart two clicks of a double click may be.
pub const DBLCLK_MS: u32 = 500;

/// Drag-to-reposition state for the desktop list.
pub struct DragState {
    pub tracking: bool,
    pub dragging: bool,
    /// The icon that was pressed.
    pub item: i32,
    pub down: Point,
    /// The icons that move, and where they stood when the mouse went down.
    pub group: Vec<(i32, Point)>,
    pub last_click_item: i32,
    pub last_click_ms: u32,
}

/// What a press does.
#[derive(Clone, Copy, PartialEq, Eq, Structural, Debug)]
pub enum Down {
    /// Off any icon: the list's own rubber band.
    Pass,
    /// The mouse is captured, and the list does not see the press.
    Capture,
}

/// What a move does.
#[derive(PartialEq, Eq, Debug)]
pub enum Move {
    Pass,
    Swallow,
    /// Put each of these icons there.
    Reposition(Vec<(i32, i32, i32)>),
}

/// What a release does.
#[derive(PartialEq, Eq, Debug)]
pub enum Up {
    Pass,
    /// Put each of these icons there: they were dropped, and snap to the grid.
    Drop(Vec<(i32, i32, i32)>),
    /// This icon was clicked.
    Click(i32),
}

/// Where an icon comes to stand that is moved by `(dx, dy)`.
pub open spec fn carried(icon: (i32, Point), dx: int, dy: int) -> (i32, i32, i32) {
    (icon.0, (icon.1.x + dx) as i32, (icon.1.y + dy) as i32)
}

/// Where all icons of a group come to stand, in order.
pub open spec fn group_carried(group: Seq<(i32, Point)>, dx: int, dy: int) -> Seq<(i32, i32, i32)> {
    Seq::new(group.len(), |i: int| carried(group[i], dx, dy))
}

/// Where an icon comes to stand that is dropped after it was moved by `(dx, dy)`.
pub open spec fn dropped(icon: (i32, Point), dx: int, dy: int, spacing: isize) -> (i32, i32, i32) {
    let p = on_grid(spacing, icon.1.x + dx, icon.1.y + dy);
    (icon.0, p.0 as i32, p.1 as i32)
}

/// Where all icons of a group come to stand when they are dropped, in order.
pub open spec fn group_dropped(
    group: Seq<(i32, Point)>,
    dx: int,
    dy: int,
    spacing: isize,
) -> Seq<(i32, i32, i32)> {
    Seq::new(group.len(), |i: int| dropped(group[i], dx, dy, spacing))
}

/// The icon is one of the group.
pub open spec fn in_group(group: Seq<(i32, Point)>, item: i32) -> bool {
    exists|i: int| 0 <= i < group.len() && (#[trigger] group[i]).0 == item
}

/// The icons that a press on `pressed`, which stands at `start`, drags: the selected
/// ones where it is one of them, else itself.
pub fn dragged_group(pressed: i32, start: Point, selected: Vec<(i32, Point)>) -> (r: Vec<
    (i32, Point),
>)
    ensures
        r@ == if in_group(selected@, pressed) {
            selected@
        } else {
            seq![(pressed, start)]
        },
{
    let mut i: usize = 0;
    while i < selected.len()
        invariant
            i <= selected.len(),
            forall|k: int| 0 <= k < i ==> (#[trigger] selected@[k]).0 != pressed,
        decreases selected.len() - i,
    {
        if selected[i].0 == pressed {
            assert(selected@[i as int].0 == pressed);
            return selected;
        }
        i = i + 1;
    }
    let mut alone: Vec<(i32, Point)> = Vec::new();
    alone.push((pressed, start));
    assert(alone@ =~= seq![(pressed, start)]);
    alone
}

/// A coordinate as a mouse message holds it.
pub open spec fn message_coord(v: int) -> bool {
    -0x8000 <= v <= 0x7fff
}

/// The mouse has moved far enough from where it went down.
pub open spec fn far(from: Point, x: int, y: int, threshold: int) -> bool {
    let dx = x - from.x;
    let dy = y - from.y;
    dx >= threshold || -dx >= threshold || dy >= threshold || -dy >= threshold
}

/// The icons' places are far from the ends of the coordinate range.
pub open spec fn group_near(group: Seq<(i32, Point)>) -> bool {
    forall|i: int|
        0 <= i < group.len() ==> near((#[trigger] group[i]).1.x as int) && near(
            group[i].1.y as int,
        )
}

/// How a press changes the state.
pub open spec fn pressed_on(
    was: DragState,
    now: DragState,
    at: Point,
    item: i32,
    selected: Seq<(i32, Point)>,
    r: Down,
) -> bool {
    if item < 0 {
        r == Down::Pass && !now.tracking && now.dragging == was.dragging
    } else {
        r == Down::Capture && now.tracking && !now.dragging && now.item == item && now.down == at
            && now.group@ == selected
    }
}

/// How a move changes the state.
pub open spec fn moved_to(
    was: DragState,
    now: DragState,
    button: bool,
    x: int,
    y: int,
    distance: int,
    r: Move,
) -> bool {
    &&& now.tracking == was.tracking && now.item == was.item && now.down == was.down && now.group
        == was.group
    &&& if !was.tracking || !button {
        r is Pass && now.dragging == was.dragging
    } else {
        &&& now.dragging == (was.dragging || far(
            was.down,
            x,
            y,
            crate::geometry::max2(distance, 2),
        ))
        &&& now.dragging ==> (r matches Move::Reposition(v) && v@ == group_carried(
            was.group@,
            x - was.down.x,
            y - was.down.y,
        ))
        &&& !now.dragging ==> r is Swallow
    }
}

/// How a release changes the state.
pub open spec fn released_at(
    was: DragState,
    now: DragState,
    x: int,
    y: int,
    spacing: isize,
    r: Up,
) -> bool {
    if !was.tracking {
        r is Pass && now == was
    } else {
        &&& !now.tracking && !now.dragging
        &&& was.dragging ==> (r matches Up::Drop(v) && v@ == group_dropped(
            was.group@,
            x - was.down.x,
            y - was.down.y,
            spacing,
        ))
        &&& !was.dragging ==> r == Up::Click(was.item)
    }
}

/// How a click changes the state, and whether it is the second of a double click.
pub open spec fn clicked_on(was: DragState, now: DragState, item: i32, ms: u32, r: bool) -> bool {
    &&& r == (was.last_click_item == item && elapsed(was.last_click_ms, ms) <= DBLCLK_MS)
    &&& now.last_click_ms == ms
    &&& now.last_click_item == if r {
        -1i32
    } else {
        item
    }
}

impl DragState {
    pub open spec fn wf(&self) -> bool {
        &&& message_coord(self.down.x as int)
        &&& message_coord(self.down.y as int)
        &&& group_near(self.group@)
    }

    pub fn new() -> (r: DragState)
        ensures
            r.wf(),
            !r.tracking,
            !r.dragging,
            r.item == -1,
            r.down == (Point { x: 0, y: 0 }),
            r.group@.len() == 0,
            r.last_click_item == -1,
            r.last_click_ms == 0,
    {
        DragState {
            tracking: false,
            dragging: false,
            item: -1,
            down: Point { x: 0, y: 0 },
            group: Vec::new(),
            last_click_item: -1,
            last_click_ms: 0,
        }
    }

    /// A press at a point on icon `pressed` (negative for none); `selected` are the
    /// icons that it drags, with the places where they stand.
    pub fn on_button_down(
        &mut self,
        at: Point,
        pressed: i32,
        selected: Vec<(i32, Point)>,
    ) -> (r: Down)
        requires
            old(self).wf(),
            message_coord(at.x as int),
            message_coord(at.y as int),
            group_near(selected@),
        ensures
            final(self).wf(),
            pressed < 0 ==> r == Down::Pass && *final(self) == (DragState {
                tracking: false,
                ..*old(self)
            }),
            pressed >= 0 ==> r == Down::Capture && *final(self) == (DragState {
                tracking: true,
                dragging: false,
                item: pressed,
                down: at,
                group: selected,
                ..*old(self)
            }),
            pressed_on(*old(self), *final(self), at, pressed, selected@, r),
    {
        if pressed < 0 {
            self.tracking = false;
            return Down::Pass;
        }
        self.tracking = true;
        self.dragging = false;
        self.item = pressed;
        self.down = at;
        self.group = selected;
        Down::Capture
    }

    /// A move to a point, with the left button down or not. A drag starts once the
    /// mouse has moved as far as the system's drag distance, two pixels at least; all
    /// icons of the group then follow it.
    pub fn on_mouse_move(&mut self, button: bool, x: i32, y: i32, drag_distance: i32) -> (r: Move)
        requires
            old(self).wf(),
            message_coord(x as int),
            message_coord(y as int),
        ensures
            final(self).wf(),
            ({
                let d = crate::geometry::max2(drag_distance as int, 2);
                let drags = old(self).dragging || far(old(self).down, x as int, y as int, d);
                if !old(self).tracking || !button {
                    r is Pass && *final(self) == *old(self)
                } else {
                    &&& *final(self) == (DragState { dragging: drags, ..*old(self) })
                    &&& if drags {
                        r matches Move::Reposition(v) && v@ == group_carried(
                            old(self).group@,
                            x - old(self).down.x,
                            y - old(self).down.y,
                        )
                    } else {
                        r is Swallow
                    }
                }
            }),
            moved_to(*old(self), *final(self), button, x as int, y as int, drag_distance as int, r),
    {
        if !self.tracking || !button {
            return Move::Pass;
        }
        let dx: i32 = x - self.down.x;
        let dy: i32 = y - self.down.y;
        if !self.dragging {
            let th: i32 = if drag_distance >= 2 {
                drag_distance
            } else {
                2
            };
            if dx >= th || -dx >= th || dy >= th || -dy >= th {
                self.dragging = true;
            }
        }
        if self.dragging {
            Move::Reposition(self.carry(dx, dy))
        } else {
            Move::Swallow
        }
    }

    fn carry(&self, dx: i32, dy: i32) -> (r: Vec<(i32, i32, i32)>)
        requires
            self.wf(),
            -0x1_0000 <= dx <= 0x1_0000,
            -0x1_0000 <= dy <= 0x1_0000,
        ensures
            r@ == group_carried(self.group@, dx as int, dy as int),
            forall|i: int|
                0 <= i < r@.len() ==> small_place((#[trigger] r@[i]).1 as int) && small_place(
                    r@[i].2 as int,
                ),
    {
        let mut v: Vec<(i32, i32, i32)> = Vec::new();
        let mut i: usize = 0;
        while i < self.group.len()
            invariant
                i <= self.group.len(),
                self.wf(),
                -0x1_0000 <= dx <= 0x1_0000,
                -0x1_0000 <= dy <= 0x1_0000,
                v@.len() == i,
                forall|k: int|
                    0 <= k < i ==> #[trigger] v@[k] == carried(
                        self.group@[k],
                        dx as int,
                        dy as int,
                    ) && small_place(v@[k].1 as int) && small_place(v@[k].2 as int),
            decreases self.group.len() - i,
        {
            let icon = self.group[i];
            assert(near(self.group@[i as int].1.x as int));
            v.push((icon.0, icon.1.x + dx, icon.1.y + dy));
            i = i + 1;
        }
        assert(v@ =~= group_carried(self.group@, dx as int, dy as int));
        v
    }

    /// A release at a point. Dropped icons snap to the grid that the list's answer
    /// `spacing` describes.
    pub fn on_button_up(&mut self, x: i32, y: i32, spacing: isize) -> (r: Up)
        requires
            old(self).wf(),
            message_coord(x as int),
            message_coord(y as int),
        ensures
            final(self).wf(),
            !old(self).tracking ==> r is Pass && *final(self) == *old(self),
            old(self).tracking ==> {
                &&& *final(self) == (DragState { tracking: false, dragging: false, ..*old(self) })
                &&& if old(self).dragging {
                    r matches Up::Drop(v) && v@ == group_dropped(
                        old(self).group@,
                        x - old(self).down.x,
                        y - old(self).down.y,
                        spacing,
                    )
                } else {
                    r == Up::Click(old(self).item)
                }
            },
            released_at(*old(self), *final(self), x as int, y as int, spacing, r),
    {
        if !self.tracking {
            return Up::Pass;
        }
        self.tracking = false;
        if !self.dragging {
            return Up::Click(self.item);
        }
        self.dragging = false;
        let dx: i32 = x - self.down.x;
        let dy: i32 = y - self.down.y;
        let mut v = self.carry(dx, dy);
        let ghost there = v@;
        let mut i: usize = 0;
        while i < v.len()
            invariant
                i <= v.len() == there.len(),
                there == group_carried(self.group@, dx as int, dy as int),
                forall|k: int|
                    0 <= k < there.len() ==> small_place((#[trigger] there[k]).1 as int)
                        && small_place(there[k].2 as int),
                forall|k: int| i <= k < v@.len() ==> #[trigger] v@[k] == there[k],
                forall|k: int|
                    0 <= k < i ==> #[trigger] v@[k] == dropped(
                        self.group@[k],
                        dx as int,
                        dy as int,
                        spacing,
                    ),
                group_near(self.group@),
                -0x1_0000 <= dx <= 0x1_0000,
                -0x1_0000 <= dy <= 0x1_0000,
            decreases v.len() - i,
        {
            let (item, nx, ny) = v[i];
            assert(v@[i as int] == there[i as int]);
            assert(there[i as int] == carried(self.group@[i as int], dx as int, dy as int));
            assert(near(self.group@[i as int].1.x as int));
            let (sx, sy) = snap_to_grid(spacing, nx, ny);
            v.set(i, (item, sx, sy));
            i = i + 1;
        }
        assert(v@ =~= group_dropped(self.group@, dx as int, dy as int, spacing));
        Up::Drop(v)
    }

    /// A click on an icon at a time in milliseconds, which wraps. Whether it is the
    /// second of a double click; a third one starts over.
    pub fn on_click(&mut self, item: i32, now: u32) -> (r: bool)
        requires
            old(self).wf(),
        ensures
            final(self).wf(),
            r == (old(self).last_click_item == item && elapsed(old(self).last_click_ms, now)
                <= DBLCLK_MS),
            *final(self) == (DragState {
                last_click_item: if r {
                    -1i32
                } else {
                    item
                },
                last_click_ms: now,
                ..*old(self)
            }),
            clicked_on(*old(self), *final(self), item, now, r),
    {
        let double = self.last_click_item == item && now.wrapping_sub(self.last_click_ms)
            <= DBLCLK_MS;
        self.last_click_item = if double {
            -1
        } else {
            item
        };
        self.last_click_ms = now;
        double
    }

    /// The capture went elsewhere: no drag is on.
    pub fn on_capture_changed(&mut self)
        requires
            old(self).wf(),
        ensures
            final(self).wf(),
            *final(self) == (DragState { tracking: false, dragging: false, ..*old(self) }),
    {
        self.tracking = false;
        self.dragging = false;
    }
}

/// Milliseconds from one time to a later one, on a clock of 32 bits.
pub open spec fn elapsed(from: u32, to: u32) -> int {
    if to >= from {
        to - from
    } else {
        to - from + 0x1_0000_0000
    }
}

/// A number without sign from 16 bits of a message's answer.
fn unsigned(w: i32) -> (r: i32)
    requires
        -0x8000 <= w <= 0x7fff,
    ensures
        r == w as int % 0x1_0000,
{
    if w < 0 {
        w + 0x1_0000
    } else {
        w
    }
}

/// Width and height of a cell of the icon grid, out of the list's answer.
pub fn grid_cell(spacing: isize) -> (r: (i32, i32))
    ensures
        r.0 == spacing as int % 0x1_0000,
        r.1 == spacing as int / 0x1_0000 % 0x1_0000,
{
    (unsigned(crate::util::loword(spacing)), unsigned(crate::util::hiword(spacing)))
}

/// The multiple of a cell's size nearest to a place; the upper one of two as near.
pub open spec fn snapped(v: int, cell: int) -> int {
    ((v + cell / 2) / cell) * cell
}

/// A place that can be moved by half a cell.
pub open spec fn small_place(v: int) -> bool {
    -0x4000_0000 <= v <= 0x4000_0000
}

fn snap(v: i32, cell: i32) -> (r: i32)
    requires
        small_place(v as int),
        0 < cell <= 0xffff,
    ensures
        r == snapped(v as int, cell as int),
{
    let s: i32 = v + cell / 2;
    // Division that rounds down.
    let q: i32 = if s >= 0 {
        s / cell
    } else {
        -((cell - 1 - s) / cell)
    };
    proof {
        let a = s as int;
        let c = cell as int;
        let d = a / c;
        vstd::arithmetic::div_mod::lemma_fundamental_div_mod(a, c);
        vstd::arithmetic::div_mod::lemma_mod_bound(a, c);
        assert(c * d == d * c) by (nonlinear_arith);
        if a < 0 {
            // -d cells and the rest up to c - 1 make up c - 1 - a.
            assert((-d) * c == -(d * c)) by (nonlinear_arith);
            vstd::arithmetic::div_mod::lemma_fundamental_div_mod_converse(
                c - 1 - a,
                c,
                -d,
                c - 1 - a % c,
            );
        }
    }
    q * cell
}

/// A place on the list's icon grid, whose cells `spacing` describes; without a grid
/// the place itself.
pub open spec fn on_grid(spacing: isize, x: int, y: int) -> (int, int) {
    let cx = spacing as int % 0x1_0000;
    let cy = spacing as int / 0x1_0000 % 0x1_0000;
    if cx <= 0 || cy <= 0 {
        (x, y)
    } else {
        (snapped(x, cx), snapped(y, cy))
    }
}

/// Round a position to the list's icon grid (so dropped icons stay aligned). A list
/// without a grid leaves it as it is.
pub fn snap_to_grid(spacing: isize, x: i32, y: i32) -> (r: (i32, i32))
    requires
        small_place(x as int),
        small_place(y as int),
    ensures
        (r.0 as int, r.1 as int) == on_grid(spacing, x as int, y as int),
{
    let (cx, cy) = grid_cell(spacing);
    if cx <= 0 || cy <= 0 {
        return (x, y);
    }
    (snap(x, cx), snap(y, cy))
}

/// A place snaps to the grid, by no more than half a cell; a place on the grid
/// stays.
pub proof fn snapping_is_near(v: int, cell: int)
    requires
        0 < cell,
    ensures
        snapped(v, cell) % cell == 0,
        2 * (snapped(v, cell) - v) <= cell,
        2 * (v - snapped(v, cell)) <= cell,
        v % cell == 0 ==> snapped(v, cell) == v,
{
    let a = v + cell / 2;
    let q = a / cell;
    vstd::arithmetic::div_mod::lemma_fundamental_div_mod(a, cell);
    vstd::arithmetic::div_mod::lemma_mod_bound(a, cell);
    assert(q * cell == cell * q) by (nonlinear_arith);
    vstd::arithmetic::div_mod::lemma_mod_multiples_basic(q, cell);
    if v % cell == 0 {
        let k = v / cell;
        vstd::arithmetic::div_mod::lemma_fundamental_div_mod(v, cell);
        assert(k * cell == cell * k) by (nonlinear_arith);
        vstd::arithmetic::div_mod::lemma_fundamental_div_mod_converse(a, cell, k, cell / 2);
    }
}

/// A dragged selection moves as a group: any two of its icons stay as far apart as
/// they were, and none but its icons moves.
pub proof fn a_group_keeps_its_shape(group: Seq<(i32, Point)>, dx: int, dy: int, i: int, j: int)
    requires
        group_near(group),
        -0x1_0000 <= dx <= 0x1_0000,
        -0x1_0000 <= dy <= 0x1_0000,
        0 <= i < group.len(),
        0 <= j < group.len(),
    ensures
        ({
            let v = group_carried(group, dx, dy);
            &&& v.len() == group.len()
            &&& v[i].0 == group[i].0
            &&& v[i].1 - v[j].1 == group[i].1.x - group[j].1.x
            &&& v[i].2 - v[j].2 == group[i].1.y - group[j].1.y
        }),
{
    assert(near(group[i].1.x as int) && near(group[j].1.x as int));
}

/// A dropped selection lands on the grid: each of its icons at the place nearest to
/// where it was carried.
pub proof fn a_dropped_group_is_on_the_grid(
    group: Seq<(i32, Point)>,
    dx: int,
    dy: int,
    spacing: isize,
    i: int,
)
    requires
        group_near(group),
        -0x1_0000 <= dx <= 0x1_0000,
        -0x1_0000 <= dy <= 0x1_0000,
        0 <= i < group.len(),
        0 < spacing as int % 0x1_0000,
        0 < spacing as int / 0x1_0000 % 0x1_0000,
    ensures
        ({
            let cx = spacing as int % 0x1_0000;
            let cy = spacing as int / 0x1_0000 % 0x1_0000;
            let to = group_dropped(group, dx, dy, spacing)[i];
            &&& to.0 == group[i].0
            &&& to.1 as int % cx == 0 && to.2 as int % cy == 0
            &&& -cx <= 2 * (to.1 - (group[i].1.x + dx)) <= cx
            &&& -cy <= 2 * (to.2 - (group[i].1.y + dy)) <= cy
        }),
{
    let cx = spacing as int % 0x1_0000;
    let cy = spacing as int / 0x1_0000 % 0x1_0000;
    snapping_is_near(group[i].1.x + dx, cx);
    snapping_is_near(group[i].1.y + dy, cy);
}

/// Two 16-bit coordinates in one number with a sign.
pub open spec fn packed(x: int, y: int) -> int {
    let v = x % 0x1_0000 + (y % 0x1_0000) * 0x1_0000;
    if v < 0x8000_0000 {
        v
    } else {
        v - 0x1_0000_0000
    }
}

/// The low 16 bits of a coordinate.
fn low_word(v: i32) -> (r: i64)
    ensures
        r == v as int % 0x1_0000,
        0 <= r <= 0xffff,
{
    (((v as i64 + 0x1_0000_0000) as u64) % 0x1_0000) as i64
}

/// The position argument that moves an icon.
pub fn pack_position(x: i32, y: i32) -> (r: i64)
    ensures
        r == packed(x as int, y as int),
{
    let v: i64 = low_word(x) + low_word(y) * 0x1_0000;
    if v < 0x8000_0000 {
        v
    } else {
        v - 0x1_0000_0000
    }
}

// ---- The saved layout ----

/// Path to the desktop-layout file next to the program; `None` for a path without a
/// directory.
pub fn layout_path(exe: &str) -> (r: Option<String>)
    ensures
        match exe@.index_of_last('\\') {
            Some(i) => r matches Some(p) && p@ == exe@.take(i + 1) + "desktop-layout.txt"@,
            None => r is None,
        },
{
    let full = chars_of(exe);
    match rfind_char(&full, '\\') {
        Some(pos) => {
            let dir = slice_of(&full, 0, pos + 1);
            assert(dir@ =~= exe@.take(pos + 1));
            let mut p = string_of(&dir);
            p.append("desktop-layout.txt");
            Some(p)
        },
        None => None,
    }
}

/// An icon on the desktop.
pub struct Icon {
    pub name: String,
    pub x: i32,
    pub y: i32,
}

pub struct IconView {
    pub name: Seq<char>,
    pub x: int,
    pub y: int,
}

impl View for Icon {
    type V = IconView;

    open spec fn view(&self) -> IconView {
        IconView { name: self.name@, x: self.x as int, y: self.y as int }
    }
}

pub open spec fn icon_views(v: Seq<Icon>) -> Seq<IconView> {
    Seq::new(v.len(), |i: int| v[i]@)
}

/// The line that records an icon's place.
pub open spec fn icon_line(i: IconView) -> Seq<char> {
    decimal_int(i.x) + ","@ + decimal_int(i.y) + ","@ + i.name
}

/// The text that records the icons' places: a line each.
pub open spec fn layout_text(v: Seq<IconView>) -> Seq<char>
    decreases v.len(),
{
    if v.len() == 0 {
        seq![]
    } else {
        icon_line(v[0]) + "\n"@ + layout_text(v.skip(1))
    }
}

/// Serialize the current desktop icon positions as `x,y,Name` lines.
pub fn capture_layout(icons: &Vec<Icon>) -> (r: String)
    ensures
        r@ == layout_text(icon_views(icons@)),
{
    let mut out = String::new();
    let ghost v = icon_views(icons@);
    let mut i: usize = 0;
    assert(v.skip(0) =~= v);
    assert(out@ + layout_text(v) =~= layout_text(v));
    while i < icons.len()
        invariant
            i <= icons.len(),
            v == icon_views(icons@),
            out@ + layout_text(v.skip(i as int)) == layout_text(v),
        decreases icons.len() - i,
    {
        let ghost before = out@;
        let ghost rest = v.skip(i as int);
        assert(rest[0] == icons@[i as int]@);
        out.append(i64_text(icons[i].x as i64).as_str());
        out.append(",");
        out.append(i64_text(icons[i].y as i64).as_str());
        out.append(",");
        out.append(icons[i].name.as_str());
        out.append("\n");
        i = i + 1;
        assert(rest.skip(1) =~= v.skip(i as int));
        assert(before + (icon_line(rest[0]) + "\n"@ + layout_text(rest.skip(1))) =~= out@
            + layout_text(rest.skip(1)));
    }
    assert(v.skip(i as int) =~= seq![]);
    assert(out@ =~= layout_text(v));
    out
}

/// `s` without carriage returns and newlines at its end.
pub open spec fn without_ends(s: Seq<char>) -> Seq<char>
    decreases s.len(),
{
    if s.len() > 0 && (s.last() == '\r' || s.last() == '\n') {
        without_ends(s.drop_last())
    } else {
        s
    }
}

/// What a line records: a place and a name, which may hold commas.
pub open spec fn parsed_line(line: Seq<char>) -> Option<IconView> {
    match cut(without_ends(line), ',') {
        None => None,
        Some((xs, rest)) => match cut(rest, ',') {
            None => None,
            Some((ys, name)) => match (parsed_int(trimmed(xs)), parsed_int(trimmed(ys))) {
                (Some(x), Some(y)) => Some(IconView { name, x, y }),
                _ => None,
            },
        },
    }
}

/// A move of one icon.
#[derive(Clone, Copy, PartialEq, Eq, Structural, Debug)]
pub struct Placed {
    pub item: usize,
    pub x: i32,
    pub y: i32,
}

/// The first icon of this name, whatever the case.
pub open spec fn named(names: Seq<Seq<char>>, name: Seq<char>) -> Option<int> {
    first(names.len() as int, |i: int| alike(names[i], name))
}

/// The moves that the first `n` lines record for the icons there are.
pub open spec fn moves_in(all: Seq<Seq<char>>, n: int, names: Seq<Seq<char>>) -> Seq<Placed>
    decreases n,
{
    if n <= 0 {
        seq![]
    } else {
        let before = moves_in(all, n - 1, names);
        match parsed_line(all[n - 1]) {
            Some(i) => match named(names, i.name) {
                Some(k) => before.push(
                    Placed { item: k as usize, x: i.x as i32, y: i.y as i32 },
                ),
                None => before,
            },
            None => before,
        }
    }
}

fn read_line(line: &Vec<char>) -> (r: Option<Icon>)
    ensures
        r is Some == parsed_line(line@) is Some,
        r matches Some(i) ==> i@ == parsed_line(line@)->0,
{
    let mut n: usize = line.len();
    assert(line@.take(n as int) =~= line@);
    while n > 0 && (line[n - 1] == '\r' || line[n - 1] == '\n')
        invariant
            n <= line.len(),
            without_ends(line@) == without_ends(line@.take(n as int)),
        decreases n,
    {
        assert(line@.take(n as int).drop_last() =~= line@.take(n - 1));
        n = n - 1;
    }
    let line2 = slice_of(line, 0, n);
    assert(line2@ =~= line@.take(n as int));
    match split_once(&line2, ',') {
        None => None,
        Some((xs, rest)) => match split_once(&rest, ',') {
            None => None,
            Some((ys, name)) => {
                match (parse_i32(&trim(&xs)), parse_i32(&trim(&ys))) {
                    (Some(x), Some(y)) => Some(Icon { name: string_of(&name), x, y }),
                    _ => None,
                }
            },
        },
    }
}

fn find_named(names: &Vec<String>, name: &str) -> (r: Option<usize>)
    ensures
        match named(crate::text::views(names@), name@) {
            Some(i) => r matches Some(j) && j == i && i < names.len(),
            None => r is None,
        },
{
    let ghost v = crate::text::views(names@);
    let ghost n = v.len() as int;
    let ghost p = |i: int| alike(v[i], name@);
    let wanted = chars_of(name);
    let mut i: usize = 0;
    while i < names.len()
        invariant
            i <= names.len() == n,
            v == crate::text::views(names@),
            wanted@ == name@,
            p == (|i: int| alike(v[i], name@)),
            first(n, p) == first_from(i as int, n, p),
        decreases names.len() - i,
    {
        assert(v[i as int] == names@[i as int]@);
        let other = chars_of(names[i].as_str());
        if eq_ignore_case(&other, &wanted) {
            assert(p(i as int));
            return Some(i);
        }
        assert(!p(i as int));
        i = i + 1;
    }
    None
}

/// The moves that a saved layout asks for, given the names of the icons there are.
pub fn apply_layout(text: &str, names: &Vec<String>) -> (r: Vec<Placed>)
    ensures
        r@ == moves_in(lines(text@), lines(text@).len() as int, crate::text::views(names@)),
{
    let file = split_lines(&chars_of(text));
    let ghost all = char_views(file@);
    let ghost v = crate::text::views(names@);
    let mut out: Vec<Placed> = Vec::new();
    let mut i: usize = 0;
    while i < file.len()
        invariant
            i <= file.len(),
            all == char_views(file@),
            v == crate::text::views(names@),
            out@ == moves_in(all, i as int, v),
        decreases file.len() - i,
    {
        assert(all[i as int] == file@[i as int]@);
        match read_line(&file[i]) {
            Some(icon) => {
                match find_named(names, icon.name.as_str()) {
                    Some(k) => {
                        out.push(Placed { item: k, x: icon.x, y: icon.y });
                    },
                    None => {},
                }
            },
            None => {},
        }
        i = i + 1;
    }
    out
}

// ---- The layout timer ----

/// What the layout timer keeps.
pub struct LayoutState {
    /// The icon list, or 0 until it is found.
    pub listview: u64,
    /// Ticks so far.
    pub ticks: u32,
    /// Last captured layout text, to avoid rewriting the file unchanged.
    pub last_layout: String,
}

/// What a tick does.
#[derive(Clone, Copy, PartialEq, Eq, Structural, Debug)]
pub enum Tick {
    /// The list is not up yet.
    Wait,
    /// Items load asynchronously: apply the saved layout a few times.
    Apply,
    /// See whether the layout changed.
    Capture,
}

/// What tick number `n`, counted from 1, does with this icon list.
pub open spec fn tick_of(listview: u64, n: int) -> Tick {
    if listview == 0 {
        Tick::Wait
    } else if n > 4 {
        Tick::Capture
    } else {
        Tick::Apply
    }
}

impl LayoutState {
    pub fn new() -> (r: LayoutState)
        ensures
            r.listview == 0,
            r.ticks == 0,
            r.last_layout@.len() == 0,
    {
        LayoutState { listview: 0, ticks: 0, last_layout: String::new() }
    }

    /// A tick, with the list as it is found now (0 for none): the first one found is
    /// kept. The saved layout is applied up to the fourth tick.
    pub fn on_tick(&mut self, found: u64) -> (r: Tick)
        requires
            old(self).ticks < u32::MAX,
        ensures
            final(self).ticks == old(self).ticks + 1,
            final(self).listview == if old(self).listview != 0 {
                old(self).listview
            } else {
                found
            },
            final(self).last_layout == old(self).last_layout,
            r == if final(self).listview == 0 {
                Tick::Wait
            } else if final(self).ticks <= 4 {
                Tick::Apply
            } else {
                Tick::Capture
            },
            r == tick_of(final(self).listview, final(self).ticks as int),
    {
        self.ticks = self.ticks + 1;
        if self.listview == 0 {
            self.listview = found;
        }
        if self.listview == 0 {
            Tick::Wait
        } else if self.ticks <= 4 {
            Tick::Apply
        } else {
            Tick::Capture
        }
    }

    /// Take a captured layout. Whether it is another one than the last, and is to be
    /// written.
    pub fn captured(&mut self, layout: &str) -> (r: bool)
        ensures
            r == (layout@ != old(self).last_layout@),
            final(self).last_layout@ == layout@,
            final(self).listview == old(self).listview,
            final(self).ticks == old(self).ticks,
    {
        if same_str(layout, self.last_layout.as_str()) {
            false
        } else {
            self.last_layout = layout.to_owned();
            true
        }
    }
}

// ---- Laws ----

/// Names that a layout file can hold: on one line, not ending in a carriage return,
/// and no two alike.
pub open spec fn layout_names(v: Seq<IconView>) -> bool {
    &&& forall|i: int|
        0 <= i < v.len() ==> !(#[trigger] v[i]).name.contains('\n') && (v[i].name.len() > 0
            ==> v[i].name.last() != '\r')
    &&& forall|i: int, j: int|
        0 <= i < j < v.len() ==> !alike((#[trigger] v[i]).name, (#[trigger] v[j]).name)
}

pub open spec fn names_of(v: Seq<IconView>) -> Seq<Seq<char>> {
    Seq::new(v.len(), |i: int| v[i].name)
}

/// What a written number is made of.
proof fn lemma_decimal_chars(i: int)
    ensures
        decimal_int(i).len() > 0,
        forall|k: int|
            0 <= k < decimal_int(i).len() ==> is_digit(#[trigger] decimal_int(i)[k])
                || decimal_int(i)[k] == '-',
{
    if i < 0 {
        lemma_decimal((-i) as nat);
        let d = decimal((-i) as nat);
        assert forall|k: int| 0 <= k < decimal_int(i).len() implies is_digit(
            #[trigger] decimal_int(i)[k],
        ) || decimal_int(i)[k] == '-' by {
            if k > 0 {
                assert(decimal_int(i)[k] == d[k - 1]);
                assert(is_digit(d[k - 1]));
            }
        }
    } else {
        lemma_decimal(i as nat);
    }
}

proof fn lemma_plain_trim(s: Seq<char>)
    requires
        s.len() > 0,
        !white(s[0]),
        !white(s.last()),
    ensures
        trimmed(s) == s,
{
}

proof fn lemma_number_trims(i: int)
    ensures
        trimmed(decimal_int(i)) == decimal_int(i),
{
    lemma_decimal_chars(i);
    let s = decimal_int(i);
    assert(is_digit(s[0]) || s[0] == '-');
    assert(is_digit(s[s.len() - 1]) || s[s.len() - 1] == '-');
    lemma_plain_trim(s);
}

/// Cutting behind a number and a comma gives both parts back.
proof fn lemma_cut_number(i: int, tail: Seq<char>)
    ensures
        cut(decimal_int(i) + ","@ + tail, ',') == Some((decimal_int(i), tail)),
{
    reveal_strlit(",");
    lemma_decimal_chars(i);
    let d = decimal_int(i);
    let s = d + ","@ + tail;
    let n = d.len() as int;
    s.index_of_first_ensures(',');
    assert(s[n] == ',');
    assert(s.contains(','));
    let k = s.index_of_first(',')->0;
    if k < n {
        assert(s[k] == d[k]);
        assert(is_digit(d[k]) || d[k] == '-');
    }
    assert(k == n);
    assert(s.take(n) =~= d);
    assert(s.skip(n + 1) =~= tail);
}

/// A recorded line reads back.
proof fn lemma_line_reads_back(i: IconView)
    requires
        i32::MIN <= i.x <= i32::MAX,
        i32::MIN <= i.y <= i32::MAX,
        i.name.len() > 0 ==> i.name.last() != '\r',
        !i.name.contains('\n'),
    ensures
        parsed_line(icon_line(i)) == Some(i),
{
    reveal_strlit(",");
    let l = icon_line(i);
    let rest = decimal_int(i.y) + ","@ + i.name;
    assert(l =~= decimal_int(i.x) + ","@ + rest);
    if i.name.len() > 0 {
        assert(l.last() == i.name.last());
        assert(i.name[i.name.len() - 1] == i.name.last());
        assert(i.name.contains(i.name.last()));
    } else {
        assert(l.last() == ',');
    }
    assert(without_ends(l) == l);
    lemma_cut_number(i.x, rest);
    lemma_cut_number(i.y, i.name);
    lemma_number_trims(i.x);
    lemma_number_trims(i.y);
    lemma_decimal_int_reads_back(i.x);
    lemma_decimal_int_reads_back(i.y);
}

proof fn lemma_line_is_plain(i: IconView)
    requires
        !i.name.contains('\n'),
        i.name.len() > 0 ==> i.name.last() != '\r',
    ensures
        !icon_line(i).contains('\n'),
        icon_line(i).len() > 0,
        icon_line(i).last() != '\r',
{
    reveal_strlit(",");
    lemma_decimal_chars(i.x);
    lemma_decimal_chars(i.y);
    let l = icon_line(i);
    let a = decimal_int(i.x);
    let b = decimal_int(i.y);
    assert forall|k: int| 0 <= k < l.len() implies l[k] != '\n' by {
        if k < a.len() {
            assert(l[k] == a[k]);
        } else if k == a.len() {
            assert(l[k] == ',');
        } else if k < a.len() + 1 + b.len() {
            assert(l[k] == b[k - a.len() - 1]);
        } else if k == a.len() + 1 + b.len() {
            assert(l[k] == ',');
        } else {
            let j = k - a.len() - b.len() - 2;
            assert(l[k] == i.name[j]);
            assert(i.name.contains(i.name[j]));
        }
    }
    if i.name.len() > 0 {
        assert(l.last() == i.name.last());
    } else {
        assert(l.last() == ',');
    }
}

pub open spec fn lines_of(v: Seq<IconView>) -> Seq<Seq<char>> {
    Seq::new(v.len(), |i: int| icon_line(v[i]))
}

proof fn lemma_layout_lines(v: Seq<IconView>)
    requires
        forall|i: int|
            0 <= i < v.len() ==> !(#[trigger] v[i]).name.contains('\n') && (v[i].name.len() > 0
                ==> v[i].name.last() != '\r'),
    ensures
        lines(layout_text(v)) == lines_of(v),
    decreases v.len(),
{
    reveal_strlit("\n");
    if v.len() == 0 {
        assert(lines(layout_text(v)) =~= lines_of(v));
    } else {
        let l = icon_line(v[0]);
        let rest = layout_text(v.skip(1));
        let s = layout_text(v);
        assert(s =~= l + "\n"@ + rest);
        assert(!v[0].name.contains('\n'));
        lemma_line_is_plain(v[0]);
        let n = l.len() as int;
        s.index_of_first_ensures('\n');
        assert(s[n] == '\n');
        assert(s.contains('\n'));
        let k = s.index_of_first('\n')->0;
        if k < n {
            assert(s[k] == l[k]);
            assert(l.contains(l[k]));
        }
        assert(k == n);
        assert(s.take(n) =~= l);
        assert(without_return(l) == l);
        assert(s.skip(n + 1) =~= rest);
        assert forall|i: int| 0 <= i < v.skip(1).len() implies !(#[trigger] v.skip(
            1,
        )[i]).name.contains('\n') && (v.skip(1)[i].name.len() > 0 ==> v.skip(1)[i].name.last()
            != '\r') by {
            assert(v.skip(1)[i] == v[i + 1]);
        }
        lemma_layout_lines(v.skip(1));
        assert(lines_of(v) =~= seq![l] + lines_of(v.skip(1))) by {
            assert forall|i: int| 0 <= i < v.skip(1).len() implies lines_of(v)[i + 1] == lines_of(
                v.skip(1),
            )[i] by {
                assert(v.skip(1)[i] == v[i + 1]);
            }
        }
    }
}

/// The moves that put every icon where it is.
pub open spec fn own_places(v: Seq<IconView>, n: int) -> Seq<Placed> {
    Seq::new(n as nat, |i: int| Placed { item: i as usize, x: v[i].x as i32, y: v[i].y as i32 })
}

/// Applying a captured layout to the same icons puts each where it was captured.
pub proof fn captured_layout_reads_back(v: Seq<IconView>)
    requires
        layout_names(v),
        v.len() <= usize::MAX,
        forall|i: int|
            0 <= i < v.len() ==> i32::MIN <= (#[trigger] v[i]).x <= i32::MAX && i32::MIN <= v[i].y
                <= i32::MAX,
    ensures
        ({
            let all = lines(layout_text(v));
            moves_in(all, all.len() as int, names_of(v)) == own_places(v, v.len() as int)
        }),
{
    lemma_layout_lines(v);
    lemma_moves_upto(v, v.len() as int);
}

proof fn lemma_moves_upto(v: Seq<IconView>, n: int)
    requires
        layout_names(v),
        0 <= n <= v.len() <= usize::MAX,
        forall|i: int|
            0 <= i < v.len() ==> i32::MIN <= (#[trigger] v[i]).x <= i32::MAX && i32::MIN <= v[i].y
                <= i32::MAX,
    ensures
        moves_in(lines_of(v), n, names_of(v)) == own_places(v, n),
    decreases n,
{
    if n > 0 {
        lemma_moves_upto(v, n - 1);
        let i = v[n - 1];
        lemma_line_reads_back(i);
        assert(lines_of(v)[n - 1] == icon_line(i));
        let names = names_of(v);
        let p = |k: int| alike(names[k], i.name);
        assert(p(n - 1));
        assert forall|k: int| 0 <= k < n - 1 implies !(#[trigger] p(k)) by {
            assert(!alike(v[k].name, v[n - 1].name));
        }
        lemma_first_is(0, names.len() as int, p, n - 1);
        assert(named(names, i.name) == Some(n - 1));
        assert(own_places(v, n) =~= own_places(v, n - 1).push(
            Placed { item: (n - 1) as usize, x: i.x as i32, y: i.y as i32 },
        ));
    } else {
        assert(own_places(v, n) =~= seq![]);
    }
}

// ---- What the desktop is for ----

/// The part of a bitmap that fills the window has the window's shape, as nearly as
/// whole pixels do, and is cut from the middle.
pub proof fn the_crop_has_the_windows_shape(bw: int, bh: int, dw: int, dh: int)
    requires
        0 < bw,
        0 < bh,
        0 < dw,
        0 < dh,
    ensures
        ({
            let (x, y, w, h) = cover(bw, bh, dw, dh);
            &&& 0 <= bw - w - 2 * x <= 1
            &&& 0 <= bh - h - 2 * y <= 1
            &&& -dh < w * dh - h * dw < dh || -dw < w * dh - h * dw < dw
        }),
{
    if bw * dh > dw * bh {
        let w = bh * dw / dh;
        assert(w * dh <= bh * dw < w * dh + dh) by (nonlinear_arith)
            requires
                dh > 0,
                w == bh * dw / dh,
        ;
        assert(w <= bw) by (nonlinear_arith)
            requires
                w * dh <= bh * dw,
                bw * dh > dw * bh,
                dh > 0,
        ;
    } else {
        let h = bw * dh / dw;
        assert(h * dw <= bw * dh < h * dw + dw) by (nonlinear_arith)
            requires
                dw > 0,
                h == bw * dh / dw,
        ;
        assert(h <= bh) by (nonlinear_arith)
            requires
                h * dw <= bw * dh,
                bw * dh <= dw * bh,
                dw > 0,
        ;
    }
}

/// Each dragged icon moves by exactly what the mouse moved.
pub proof fn icons_follow_the_mouse(group: Seq<(i32, Point)>, dx: int, dy: int, i: int)
    requires
        group_near(group),
        -0x1_0000 <= dx <= 0x1_0000,
        -0x1_0000 <= dy <= 0x1_0000,
        0 <= i < group.len(),
    ensures
        group_carried(group, dx, dy)[i].0 == group[i].0,
        group_carried(group, dx, dy)[i].1 - group[i].1.x == dx,
        group_carried(group, dx, dy)[i].2 - group[i].1.y == dy,
{
}

/// Without a grid a dropped icon stays where it was carried.
pub proof fn without_a_grid_icons_stay(
    group: Seq<(i32, Point)>,
    dx: int,
    dy: int,
    spacing: isize,
    i: int,
)
    requires
        group_near(group),
        -0x1_0000 <= dx <= 0x1_0000,
        -0x1_0000 <= dy <= 0x1_0000,
        0 <= i < group.len(),
        spacing as int % 0x1_0000 == 0 || spacing as int / 0x1_0000 % 0x1_0000 == 0,
    ensures
        group_dropped(group, dx, dy, spacing)[i] == group_carried(group, dx, dy)[i],
{
}

/// A drag starts once the mouse is as far away as the threshold, in any direction.
pub proof fn a_drag_starts_at_the_threshold(from: Point, x: int, y: int, threshold: int)
    ensures
        far(from, x, y, threshold) == (x <= from.x - threshold || x >= from.x + threshold || y
            <= from.y - threshold || y >= from.y + threshold),
{
}

/// A packed place holds both coordinates, each in 16 bits.
pub proof fn a_packed_place_holds_both(x: int, y: int)
    requires
        -0x8000 <= x <= 0x7fff,
        -0x8000 <= y <= 0x7fff,
    ensures
        packed(x, y) % 0x1_0000 == x % 0x1_0000,
        packed(x, y) / 0x1_0000 == y,
        -0x8000_0000 <= packed(x, y) <= 0x7fff_ffff,
{
}

/// The clock of 32 bits may wrap between two clicks: what is measured is the time
/// from the first to the second.
pub proof fn time_is_measured_across_the_wrap(from: u32, ms: u32)
    ensures
        elapsed(from, ((from + ms) % 0x1_0000_0000) as u32) == ms,
{
}

/// The configured wallpaper comes first, then the Control Panel's, unless that is
/// empty.
pub proof fn the_configured_wallpaper_wins(c: ConfigView, panel: Option<Seq<char>>)
    ensures
        c.wallpaper is Some ==> wallpaper_of(c, panel) == c.wallpaper,
        (c.wallpaper is None && panel is Some && panel->0.len() > 0) ==> wallpaper_of(c, panel)
            == panel,
        (c.wallpaper is None && (panel is None || panel->0.len() == 0)) ==> wallpaper_of(c, panel)
            is None,
{
}

/// A line of a layout moves the first icon of its name, whatever the case, to the
/// place it gives; lines for icons that are not there, or that are no such line, move
/// nothing.
pub proof fn a_layout_line_moves_its_icon(
    all: Seq<Seq<char>>,
    n: int,
    names: Seq<Seq<char>>,
    k: int,
)
    requires
        0 < n <= all.len(),
        names.len() <= usize::MAX,
    ensures
        ({
            let before = moves_in(all, n - 1, names);
            let after = moves_in(all, n, names);
            match parsed_line(all[n - 1]) {
                Some(i) => {
                    &&& (0 <= k < names.len() && alike(names[k], i.name) && (forall|j: int|
                        0 <= j < k ==> !alike(#[trigger] names[j], i.name))) ==> after
                        == before.push(
                        Placed { item: k as usize, x: i.x as i32, y: i.y as i32 },
                    )
                    &&& (forall|j: int|
                        0 <= j < names.len() ==> !alike(#[trigger] names[j], i.name)) ==> after
                        == before
                },
                None => after == before,
            }
        }),
{
    match parsed_line(all[n - 1]) {
        Some(i) => {
            let p = |k: int| alike(names[k], i.name);
            crate::search::lemma_first_from(0, names.len() as int, p);
            if 0 <= k < names.len() && alike(names[k], i.name) && (forall|j: int|
                0 <= j < k ==> !alike(#[trigger] names[j], i.name)) {
                assert(p(k));
                assert forall|j: int| 0 <= j < k implies !(#[trigger] p(j)) by {
                    assert(!alike(names[j], i.name));
                }
                crate::search::lemma_first_is(0, names.len() as int, p, k);
            }
            if forall|j: int| 0 <= j < names.len() ==> !alike(#[trigger] names[j], i.name) {
                match named(names, i.name) {
                    Some(j) => {
                        assert(p(j));
                        assert(!alike(names[j], i.name));
                    },
                    None => {},
                }
            }
        },
        None => {},
    }
}

/// An icon is one of the dragged group exactly where the group has its number.
pub proof fn a_group_has_the_icons_it_lists(group: Seq<(i32, Point)>, i: int, item: i32)
    requires
        0 <= i < group.len(),
    ensures
        in_group(group, group[i].0),
        (forall|k: int| 0 <= k < group.len() ==> (#[trigger] group[k]).0 != item) ==> !in_group(
            group,
            item,
        ),
{
}

/// A press and a release without moving far between them is a click on the icon that
/// was pressed; nothing is dropped.
pub proof fn a_press_without_a_move_is_a_click(
    s: [DragState; 4],
    at: Point,
    item: i32,
    selected: Seq<(i32, Point)>,
    down: Down,
    x: int,
    y: int,
    distance: int,
    mv: Move,
    spacing: isize,
    up: Up,
)
    requires
        item >= 0,
        pressed_on(s[0], s[1], at, item, selected, down),
        moved_to(s[1], s[2], true, x, y, distance, mv),
        at.x - 2 < x < at.x + 2 && at.y - 2 < y < at.y + 2,
        released_at(s[2], s[3], x, y, spacing, up),
    ensures
        down == Down::Capture,
        mv is Swallow,
        up == Up::Click(item),
        !s[3].tracking && !s[3].dragging,
{
}

/// Once the mouse has moved far enough, the icons follow it from where they stood when
/// it went down, however it moves on, and are dropped there when it comes up.
pub proof fn a_drag_carries_from_where_it_began(
    s: [DragState; 5],
    at: Point,
    item: i32,
    selected: Seq<(i32, Point)>,
    down: Down,
    a: (int, int),
    b: (int, int),
    distance: int,
    first_move: Move,
    second_move: Move,
    spacing: isize,
    up: Up,
)
    requires
        item >= 0,
        pressed_on(s[0], s[1], at, item, selected, down),
        moved_to(s[1], s[2], true, a.0, a.1, distance, first_move),
        moved_to(s[2], s[3], true, b.0, b.1, distance, second_move),
        far(at, a.0, a.1, crate::geometry::max2(distance, 2)),
        released_at(s[3], s[4], b.0, b.1, spacing, up),
    ensures
        first_move matches Move::Reposition(v) && v@ == group_carried(
            selected,
            a.0 - at.x,
            a.1 - at.y,
        ),
        second_move matches Move::Reposition(v) && v@ == group_carried(
            selected,
            b.0 - at.x,
            b.1 - at.y,
        ),
        up matches Up::Drop(v) && v@ == group_dropped(selected, b.0 - at.x, b.1 - at.y, spacing),
{
}

/// Off any icon the list sees the mouse itself.
pub proof fn off_the_icons_nothing_is_dragged(
    s: [DragState; 4],
    at: Point,
    item: i32,
    selected: Seq<(i32, Point)>,
    down: Down,
    button: bool,
    x: int,
    y: int,
    distance: int,
    mv: Move,
    spacing: isize,
    up: Up,
)
    requires
        item < 0,
        pressed_on(s[0], s[1], at, item, selected, down),
        moved_to(s[1], s[2], button, x, y, distance, mv),
        released_at(s[2], s[3], x, y, spacing, up),
    ensures
        down == Down::Pass && mv is Pass && up is Pass,
{
}

/// Two clicks on one icon within half a second are a double click, and a third one
/// starts over; later ones, or ones on another icon, are not.
pub proof fn two_quick_clicks_are_a_double_click(
    s: [DragState; 4],
    item: i32,
    other: i32,
    t: [u32; 3],
    first: bool,
    second: bool,
    third: bool,
)
    requires
        item >= 0,
        clicked_on(s[0], s[1], item, t[0], first),
        !first,
        clicked_on(s[1], s[2], other, t[1], second),
        clicked_on(s[2], s[3], other, t[2], third),
        other >= 0,
    ensures
        second == (other == item && elapsed(t[0], t[1]) <= 500),
        second ==> !third,
        (!second && elapsed(t[1], t[2]) <= 500) ==> third,
{
}

/// The saved layout is applied before any is captured: while the first four ticks last
/// nothing is saved over it, and without an icon list nothing is done at all.
pub proof fn the_saved_layout_is_applied_first(listview: u64, n: int)
    ensures
        listview == 0 ==> tick_of(listview, n) == Tick::Wait,
        (listview != 0 && n <= 4) ==> tick_of(listview, n) == Tick::Apply,
        (listview != 0 && n >= 5) ==> tick_of(listview, n) == Tick::Capture,
{
}

} // verus!
