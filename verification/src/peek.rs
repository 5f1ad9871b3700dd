//! Hover previews ("peek") for taskbar buttons: a panel above the taskbar with one
//! cell per window in the group, each with the window title and a ✕ that closes that
//! window. Without desktop composition the panel has icon + title rows instead.

use vstd::prelude::*;
use vstd::string::*;
use crate::geometry::{
    clamp_i32, clamped, lemma_px, max2, max_i32, near, px, rect, scaled, toward_zero, valid_dpi, Rect,
};
use crate::paint::{emit, fill, label, shown, Draw, DrawView, Font, LINE_CENTER, LINE_ELLIPSIS};
use crate::search::{first, first_from, lemma_first_is};
use crate::taskbar::{COL_BG, COL_HOVER, COL_TEXT, COL_TEXT_DIM};

verus! {

// Geometry (unscaled px).
pub const PAD: i32 = 8;

pub const CELL_W: i32 = 196;

pub const CELL_H: i32 = 150;

pub const TITLE_H: i32 = 28;

pub const ROW_W: i32 = 300;

pub const ROW_H: i32 = 38;

pub const CLOSE_W: i32 = 24;

/// Close-button red.
pub const COL_CLOSE_HOVER: u32 = 0x002311E8;

pub const GLYPH_CLOSE: &'static str = "\u{E8BB}";

pub struct PeekEntry {
    pub hwnd: u64,
    pub title: String,
    pub icon: Option<u64>,
}

pub struct EntryView {
    pub hwnd: u64,
    pub title: Seq<char>,
    pub icon: Option<u64>,
}

impl View for PeekEntry {
    type V = EntryView;

    open spec fn view(&self) -> EntryView {
        EntryView { hwnd: self.hwnd, title: self.title@, icon: self.icon }
    }
}

// ---- Layout ----

/// Left edge of a panel `w` pixels wide over a button that reaches from `a` to `b`.
pub open spec fn panel_left(a: int, b: int, w: int, screen_w: int, margin: int) -> int {
    clamped(toward_zero(a + b, 2) - w / 2, margin, max2(screen_w - w - margin, margin))
}

/// How far one item is from the next.
pub open spec fn pitch(thumbs: bool, dpi: int) -> int {
    if thumbs {
        px(CELL_W as int, dpi) + px(PAD as int, dpi)
    } else {
        px(ROW_H as int, dpi)
    }
}

/// The coordinates have room for `n` items.
pub open spec fn items_fit(n: int, thumbs: bool, dpi: int) -> bool {
    &&& n <= 0x1000_0000
    &&& n * pitch(thumbs, dpi) <= 0x1000_0000
}

/// Where there is room for more items, there is for fewer.
proof fn lemma_items_fit(n: int, m: int, thumbs: bool, dpi: int)
    requires
        0 <= n <= m,
        items_fit(m, thumbs, dpi),
        0 <= dpi <= 32767,
    ensures
        items_fit(n, thumbs, dpi),
        0 <= n * pitch(thumbs, dpi),
{
    lemma_px(8, dpi);
    lemma_px(196, dpi);
    lemma_px(38, dpi);
    let h = pitch(thumbs, dpi);
    assert(0 <= n * h <= m * h) by (nonlinear_arith)
        requires
            0 <= n <= m,
            h >= 0,
    ;
}

/// Width and height of a panel for `n` windows.
pub open spec fn panel_size(n: int, thumbs: bool, dpi: int) -> (int, int) {
    let pad = px(PAD as int, dpi);
    if thumbs {
        (n * px(CELL_W as int, dpi) + (n + 1) * pad, px(CELL_H as int, dpi) + 2 * pad)
    } else {
        (px(ROW_W as int, dpi), n * px(ROW_H as int, dpi) + 2 * pad)
    }
}

pub open spec fn cell_of(i: int, dpi: int) -> Rect {
    let pad = px(PAD as int, dpi);
    let w = px(CELL_W as int, dpi);
    let x = pad + i * (w + pad);
    rect(x, pad, x + w, pad + px(CELL_H as int, dpi))
}

pub open spec fn row_of(i: int, width: int, dpi: int) -> Rect {
    let pad = px(PAD as int, dpi);
    let h = px(ROW_H as int, dpi);
    rect(pad, pad + i * h, width - pad, pad + (i + 1) * h)
}

/// Item `i`: a cell, or a row of a panel `width` pixels wide.
pub open spec fn item_of(i: int, thumbs: bool, width: int, dpi: int) -> Rect {
    if thumbs {
        cell_of(i, dpi)
    } else {
        row_of(i, width, dpi)
    }
}

/// The close button of an item.
pub open spec fn close_of(r: Rect, thumbs: bool, dpi: int) -> Rect {
    let w = px(CLOSE_W as int, dpi);
    let h = px(ROW_H as int, dpi);
    if thumbs {
        rect(
            r.right - w - px(4, dpi),
            r.top + px(2, dpi),
            r.right - px(4, dpi),
            r.top + px(TITLE_H as int, dpi) - px(2, dpi),
        )
    } else {
        rect(
            r.right - w - px(4, dpi),
            r.top + toward_zero(h - w, 2),
            r.right - px(4, dpi),
            r.top + (h + w) / 2,
        )
    }
}

/// Where the live thumbnail of cell `i` goes.
pub open spec fn thumb_of(i: int, dpi: int) -> Rect {
    let c = cell_of(i, dpi);
    rect(
        c.left + px(6, dpi),
        c.top + px(TITLE_H as int, dpi),
        c.right - px(6, dpi),
        c.bottom - px(6, dpi),
    )
}

fn item_rect(i: usize, thumbs: bool, width: i32, dpi: i32) -> (r: Rect)
    requires
        valid_dpi(dpi),
        items_fit(i + 1, thumbs, dpi as int),
        -0x0010_0000 <= width <= 0x1800_0000,
    ensures
        r == item_of(i as int, thumbs, width as int, dpi as int),
        r.near(),
{
    let pad: i32 = scaled(PAD, dpi);
    let cw: i32 = scaled(CELL_W, dpi);
    let h: i32 = scaled(ROW_H, dpi);
    let n: i32 = i as i32;
    proof {
        lemma_items_fit(i as int, i + 1, thumbs, dpi as int);
        lemma_items_fit(i + 1, i + 1, thumbs, dpi as int);
    }
    if thumbs {
        let x: i32 = pad + n * (cw + pad);
        Rect { left: x, top: pad, right: x + cw, bottom: pad + scaled(CELL_H, dpi) }
    } else {
        Rect { left: pad, top: pad + n * h, right: width - pad, bottom: pad + (n + 1) * h }
    }
}

fn close_rect(r: Rect, thumbs: bool, dpi: i32) -> (c: Rect)
    requires
        valid_dpi(dpi),
        r.near(),
    ensures
        c == close_of(r, thumbs, dpi as int),
{
    let w: i32 = scaled(CLOSE_W, dpi);
    let h: i32 = scaled(ROW_H, dpi);
    if thumbs {
        Rect {
            left: r.right - w - scaled(4, dpi),
            top: r.top + scaled(2, dpi),
            right: r.right - scaled(4, dpi),
            bottom: r.top + scaled(TITLE_H, dpi) - scaled(2, dpi),
        }
    } else {
        Rect {
            left: r.right - w - scaled(4, dpi),
            top: r.top + (h - w) / 2,
            right: r.right - scaled(4, dpi),
            bottom: r.top + (h + w) / 2,
        }
    }
}

/// Where the live thumbnail of cell `i` goes.
pub fn thumb_rect(i: usize, dpi: i32) -> (r: Rect)
    requires
        valid_dpi(dpi),
        items_fit(i + 1, true, dpi as int),
    ensures
        r == thumb_of(i as int, dpi as int),
{
    let c = item_rect(i, true, 0, dpi);
    Rect {
        left: c.left + scaled(6, dpi),
        top: c.top + scaled(TITLE_H, dpi),
        right: c.right - scaled(6, dpi),
        bottom: c.bottom - scaled(6, dpi),
    }
}

// ---- State ----

/// A window under the mouse; `close` tells whether it is its close button.
#[derive(Clone, Copy, PartialEq, Eq, Structural, Debug)]
pub struct Hit {
    pub entry: usize,
    pub close: bool,
}

pub struct PeekState {
    pub entries: Vec<PeekEntry>,
    /// Live thumbnails that are registered.
    pub thumbs: Vec<u64>,
    pub thumbs_mode: bool,
    pub width: i32,
    pub height: i32,
    pub hover: Option<Hit>,
    /// Button rect (screen) that keeps the peek alive while hovered.
    pub anchor: Rect,
    pub taskbar_top: i32,
    pub visible: bool,
}

/// Where the panel is placed.
#[derive(Clone, Copy, PartialEq, Eq, Structural, Debug)]
pub struct Panel {
    pub x: i32,
    pub y: i32,
    pub width: i32,
    pub height: i32,
    /// Corner size of the panel's outline.
    pub corner: i32,
}

/// What a click does.
pub enum Action {
    Nothing,
    /// Hide the panel and bring this window to the front.
    Activate(u64),
    /// Close this window; the panel is shown again for the others.
    Close(u64, Vec<PeekEntry>),
}

impl PeekState {
    pub open spec fn wf(&self) -> bool {
        &&& 0 <= self.width <= 0x1800_0000
        &&& 0 <= self.height <= 0x1800_0000
        &&& near(self.taskbar_top as int)
    }

    /// The coordinates have room for the windows.
    pub open spec fn fits(&self, dpi: int) -> bool {
        items_fit(self.entries@.len() as int, self.thumbs_mode, dpi)
    }

    pub fn new() -> (r: PeekState)
        ensures
            r.wf(),
            !r.visible,
            r.entries@.len() == 0,
            r.thumbs@.len() == 0,
            !r.thumbs_mode,
            r.width == 0,
            r.height == 0,
            r.hover is None,
            r.anchor == rect(0, 0, 0, 0),
            r.taskbar_top == 0,
    {
        PeekState {
            entries: Vec::new(),
            thumbs: Vec::new(),
            thumbs_mode: false,
            width: 0,
            height: 0,
            hover: None,
            anchor: Rect { left: 0, top: 0, right: 0, bottom: 0 },
            taskbar_top: 0,
            visible: false,
        }
    }

    pub fn is_visible(&self) -> (r: bool)
        ensures
            r == self.visible,
    {
        self.visible
    }

    /// Forget the thumbnails; they are to be unregistered.
    fn clear_thumbs(&mut self) -> (r: Vec<u64>)
        ensures
            r@ == old(self).thumbs@,
            final(self).thumbs@.len() == 0,
            final(self).entries == old(self).entries,
            final(self).thumbs_mode == old(self).thumbs_mode,
            final(self).width == old(self).width,
            final(self).height == old(self).height,
            final(self).hover == old(self).hover,
            final(self).anchor == old(self).anchor,
            final(self).taskbar_top == old(self).taskbar_top,
            final(self).visible == old(self).visible,
    {
        let mut out: Vec<u64> = Vec::new();
        out.append(&mut self.thumbs);
        assert(out@ =~= old(self).thumbs@);
        out
    }

    /// Hide the panel; its thumbnails are to be unregistered.
    pub fn dismiss(&mut self) -> (r: Vec<u64>)
        requires
            old(self).wf(),
        ensures
            final(self).wf(),
            final(self).thumbs@.len() == 0,
            *final(self) == (PeekState {
                thumbs: final(self).thumbs,
                visible: false,
                ..*old(self)
            }),
            r@ == old(self).thumbs@,
    {
        self.visible = false;
        self.clear_thumbs()
    }

    /// Show the windows of a button at `anchor` (on the screen), above a taskbar
    /// whose top is `taskbar_top`. Without windows the panel hides. Beside its place
    /// come the thumbnails of the last one, to be unregistered; those of the new one
    /// are then registered and handed to `set_thumbs`.
    pub fn show(
        &mut self,
        entries: Vec<PeekEntry>,
        anchor: Rect,
        taskbar_top: i32,
        thumbs_mode: bool,
        screen_w: i32,
        dpi: i32,
    ) -> (r: (Option<Panel>, Vec<u64>))
        requires
            old(self).wf(),
            valid_dpi(dpi),
            items_fit(entries@.len() as int, thumbs_mode, dpi as int),
            anchor.near(),
            near(taskbar_top as int),
            0 <= screen_w <= 0x1000_0000,
        ensures
            final(self).wf(),
            final(self).thumbs@.len() == 0,
            r.1@ == old(self).thumbs@,
            r.0 is None <==> entries@.len() == 0,
            r.0 is None ==> *final(self) == (PeekState {
                thumbs: final(self).thumbs,
                visible: false,
                ..*old(self)
            }),
            r.0 matches Some(p) ==> {
                let size = panel_size(entries@.len() as int, thumbs_mode, dpi as int);
                let m = px(4, dpi as int);
                &&& final(self).visible
                &&& final(self).entries == entries
                &&& final(self).thumbs_mode == thumbs_mode
                &&& final(self).width == size.0
                &&& final(self).height == size.1
                &&& final(self).hover is None
                &&& final(self).anchor == anchor
                &&& final(self).taskbar_top == taskbar_top
                &&& p.width == size.0
                &&& p.height == size.1
                &&& p.x == clamped(
                    toward_zero(anchor.left + anchor.right, 2) - size.0 / 2,
                    m,
                    max2(screen_w - size.0 - m, m),
                )
                &&& p.y == taskbar_top - size.1 - px(8, dpi as int)
                &&& p.x == panel_left(
                    anchor.left as int,
                    anchor.right as int,
                    size.0,
                    screen_w as int,
                    px(4, dpi as int),
                )
                &&& p.corner == px(16, dpi as int)
            },
    {
        if entries.len() == 0 {
            let freed = self.dismiss();
            return (None, freed);
        }
        let freed = self.clear_thumbs();
        let n: i32 = entries.len() as i32;
        let pad: i32 = scaled(PAD, dpi);
        let cw: i32 = scaled(CELL_W, dpi);
        let rh: i32 = scaled(ROW_H, dpi);
        proof {
            lemma_items_fit(n as int, n as int, thumbs_mode, dpi as int);
            assert(n * (cw + pad) == n * cw + n * pad && (n + 1) * pad == n * pad + pad && 0 <= n
                * cw && 0 <= n * pad) by (nonlinear_arith)
                requires
                    0 <= n,
                    0 <= cw,
                    0 <= pad,
            ;
        }
        let (width, height) = if thumbs_mode {
            (n * cw + (n + 1) * pad, scaled(CELL_H, dpi) + 2 * pad)
        } else {
            (scaled(ROW_W, dpi), n * rh + 2 * pad)
        };
        let m: i32 = scaled(4, dpi);
        let x: i32 = clamp_i32(
            (anchor.left + anchor.right) / 2 - width / 2,
            m,
            max_i32(screen_w - width - m, m),
        );
        let y: i32 = taskbar_top - height - scaled(8, dpi);
        self.entries = entries;
        self.thumbs_mode = thumbs_mode;
        self.width = width;
        self.height = height;
        self.hover = None;
        self.anchor = anchor;
        self.taskbar_top = taskbar_top;
        self.visible = true;
        (Some(Panel { x, y, width, height, corner: scaled(16, dpi) }), freed)
    }

    /// Take the thumbnails that were registered.
    pub fn set_thumbs(&mut self, thumbs: Vec<u64>)
        requires
            old(self).wf(),
        ensures
            final(self).wf(),
            *final(self) == (PeekState { thumbs, ..*old(self) }),
    {
        self.thumbs = thumbs;
    }

    pub open spec fn item(&self, i: int, dpi: int) -> Rect {
        item_of(i, self.thumbs_mode, self.width as int, dpi)
    }

    /// What the panel has at a point.
    pub open spec fn hit(&self, x: int, y: int, dpi: int) -> Option<Hit> {
        match first(self.entries@.len() as int, |i: int| self.item(i, dpi).has(x, y)) {
            Some(i) => Some(
                Hit {
                    entry: i as usize,
                    close: close_of(self.item(i, dpi), self.thumbs_mode, dpi).has(x, y),
                },
            ),
            None => None,
        }
    }

    pub fn hit_test(&self, x: i32, y: i32, dpi: i32) -> (r: Option<Hit>)
        requires
            self.wf(),
            valid_dpi(dpi),
            self.fits(dpi as int),
        ensures
            r == self.hit(x as int, y as int, dpi as int),
            r matches Some(h) ==> h.entry < self.entries@.len(),
    {
        let n: usize = self.entries.len();
        let ghost p = |i: int| self.item(i, dpi as int).has(x as int, y as int);
        let mut i: usize = 0;
        while i < n
            invariant
                i <= n == self.entries@.len(),
                self.wf(),
                valid_dpi(dpi),
                self.fits(dpi as int),
                p == (|i: int| self.item(i, dpi as int).has(x as int, y as int)),
                first(n as int, p) == first_from(i as int, n as int, p),
            decreases n - i,
        {
            proof {
                lemma_items_fit(i + 1, n as int, self.thumbs_mode, dpi as int);
            }
            let item = item_rect(i, self.thumbs_mode, self.width, dpi);
            if item.contains(x, y) {
                assert(p(i as int));
                let close = close_rect(item, self.thumbs_mode, dpi).contains(x, y);
                return Some(Hit { entry: i, close });
            }
            assert(!p(i as int));
            i = i + 1;
        }
        None
    }

    /// Hover follows the mouse. Whether anything is to be repainted.
    pub fn on_mouse_move(&mut self, x: i32, y: i32, dpi: i32) -> (r: bool)
        requires
            old(self).wf(),
            valid_dpi(dpi),
            old(self).fits(dpi as int),
        ensures
            final(self).wf(),
            final(self).hover == old(self).hit(x as int, y as int, dpi as int),
            r == (final(self).hover != old(self).hover),
            *final(self) == (PeekState { hover: final(self).hover, ..*old(self) }),
    {
        let hit = self.hit_test(x, y, dpi);
        let changed = match (hit, self.hover) {
            (Some(a), Some(b)) => a != b,
            (None, None) => false,
            _ => true,
        };
        self.hover = hit;
        changed
    }

    /// Whether the panel stays, with the cursor at a point of the screen: while it is
    /// over the panel (whose window is at `window`), the gap below it, or its button.
    pub fn keep(&self, window: Rect, x: i32, y: i32, dpi: i32) -> (r: bool)
        requires
            self.wf(),
            valid_dpi(dpi),
        ensures
            r == (rect(
                window.left as int,
                window.top as int,
                window.right as int,
                self.taskbar_top + px(2, dpi as int),
            ).has(x as int, y as int) || self.anchor.has(x as int, y as int)),
    {
        let bridged = Rect {
            left: window.left,
            top: window.top,
            right: window.right,
            bottom: self.taskbar_top + scaled(2, dpi),
        };
        bridged.contains(x, y) || self.anchor.contains(x, y)
    }

    /// A click: on a close button its window is closed and leaves the panel, else the
    /// window is activated.
    pub fn on_button_up(&mut self, x: i32, y: i32, dpi: i32) -> (r: Action)
        requires
            old(self).wf(),
            valid_dpi(dpi),
            old(self).fits(dpi as int),
        ensures
            final(self).wf(),
            match old(self).hit(x as int, y as int, dpi as int) {
                None => r is Nothing && *final(self) == *old(self),
                Some(h) => {
                    let target = old(self).entries@[h.entry as int].hwnd;
                    &&& h.entry < old(self).entries@.len()
                    &&& if h.close {
                        &&& (r matches Action::Close(t, rest) && t == target && rest@ == old(
                            self,
                        ).entries@.remove(h.entry as int))
                        &&& final(self).entries@.len() == 0
                        &&& *final(self) == (PeekState {
                            entries: final(self).entries,
                            ..*old(self)
                        })
                    } else {
                        r == Action::Activate(target) && *final(self) == *old(self)
                    }
                },
            },
    {
        match self.hit_test(x, y, dpi) {
            None => Action::Nothing,
            Some(h) => {
                if h.close {
                    let gone = self.entries.remove(h.entry);
                    let mut rest: Vec<PeekEntry> = Vec::new();
                    rest.append(&mut self.entries);
                    assert(rest@ =~= old(self).entries@.remove(h.entry as int));
                    Action::Close(gone.hwnd, rest)
                } else {
                    Action::Activate(self.entries[h.entry].hwnd)
                }
            },
        }
    }
}

// ---- Laws ----

/// A point inside an item hits that item: the items do not overlap.
pub proof fn an_item_is_hit_inside_it(p: PeekState, i: int, x: int, y: int, dpi: int)
    requires
        p.wf(),
        0 <= dpi <= 32767,
        p.fits(dpi),
        0 <= i < p.entries@.len(),
        p.item(i, dpi).has(x, y),
    ensures
        p.hit(x, y, dpi) matches Some(h) && h.entry == i,
{
    let n = p.entries@.len() as int;
    let f = |i: int| p.item(i, dpi).has(x, y);
    assert(f(i));
    lemma_px(8, dpi);
    lemma_px(196, dpi);
    lemma_px(38, dpi);
    let pad = px(PAD as int, dpi);
    let w = px(CELL_W as int, dpi);
    let h = px(ROW_H as int, dpi);
    assert forall|j: int| 0 <= j < i implies !(#[trigger] f(j)) by {
        lemma_items_fit(j, n, p.thumbs_mode, dpi);
        lemma_items_fit(j + 1, n, p.thumbs_mode, dpi);
        lemma_items_fit(i, n, p.thumbs_mode, dpi);
        lemma_items_fit(i + 1, n, p.thumbs_mode, dpi);
        assert(j * (w + pad) + (w + pad) <= i * (w + pad) && (j + 1) * h <= i * h)
            by (nonlinear_arith)
            requires
                0 <= j < i,
                0 <= w,
                0 <= pad,
                0 <= h,
        ;
        let a = p.item(j, dpi);
        let b = p.item(i, dpi);
        if p.thumbs_mode {
            assert(a.right <= b.left);
        } else {
            assert(a.bottom <= b.top);
        }
    }
    lemma_first_is(0, n, f, i);
}

// ---- Painting ----

/// One item: its highlight, icon and title, and its close button.
pub open spec fn item_draws(
    e: EntryView,
    r: Rect,
    thumbs: bool,
    hovered: bool,
    close: bool,
    dpi: int,
) -> Seq<DrawView> {
    let h = if thumbs {
        px(TITLE_H as int, dpi)
    } else {
        px(ROW_H as int, dpi)
    };
    let size = px(16, dpi);
    let left = r.left + px(8, dpi);
    let c = close_of(r, thumbs, dpi);
    (if hovered {
        seq![DrawView::Fill { rect: r, color: COL_HOVER }]
    } else {
        seq![]
    }) + (match e.icon {
        Some(icon) => seq![
            DrawView::Icon {
                icon,
                x: left as i32,
                y: (r.top + toward_zero(h - size, 2)) as i32,
                size: size as i32,
            },
        ],
        None => seq![],
    }) + seq![
        DrawView::Text {
            font: Font::Text,
            color: COL_TEXT,
            text: e.title,
            rect: rect(
                left + px(22, dpi),
                r.top as int,
                r.right - px(CLOSE_W as int, dpi) - px(8, dpi),
                r.top + h,
            ),
            flags: LINE_ELLIPSIS,
        },
    ] + (if close {
        seq![DrawView::Fill { rect: c, color: COL_CLOSE_HOVER }]
    } else {
        seq![]
    }) + seq![
        DrawView::Text {
            font: Font::Glyph,
            color: if close {
                COL_TEXT
            } else {
                COL_TEXT_DIM
            },
            text: GLYPH_CLOSE@,
            rect: c,
            flags: LINE_CENTER,
        },
    ]
}

fn draw_item(
    out: &mut Vec<Draw>,
    e: &PeekEntry,
    r: Rect,
    thumbs: bool,
    hovered: bool,
    close: bool,
    dpi: i32,
)
    requires
        valid_dpi(dpi),
        r.near(),
    ensures
        shown(final(out)@) == shown(old(out)@) + item_draws(
            e@,
            r,
            thumbs,
            hovered,
            close,
            dpi as int,
        ),
{
    let ghost before = shown(out@);
    if hovered {
        fill(out, r, COL_HOVER);
    }
    let h: i32 = if thumbs {
        scaled(TITLE_H, dpi)
    } else {
        scaled(ROW_H, dpi)
    };
    let left: i32 = r.left + scaled(8, dpi);
    match e.icon {
        Some(icon) => {
            let size: i32 = scaled(16, dpi);
            emit(out, Draw::Icon { icon, x: left, y: r.top + (h - size) / 2, size });
        },
        None => {},
    }
    label(
        out,
        Font::Text,
        COL_TEXT,
        e.title.as_str(),
        Rect {
            left: left + scaled(22, dpi),
            top: r.top,
            right: r.right - scaled(CLOSE_W, dpi) - scaled(8, dpi),
            bottom: r.top + h,
        },
        LINE_ELLIPSIS,
    );
    let c = close_rect(r, thumbs, dpi);
    if close {
        fill(out, c, COL_CLOSE_HOVER);
    }
    label(
        out,
        Font::Glyph,
        if close {
            COL_TEXT
        } else {
            COL_TEXT_DIM
        },
        GLYPH_CLOSE,
        c,
        LINE_CENTER,
    );
    assert(shown(out@) =~= before + item_draws(e@, r, thumbs, hovered, close, dpi as int));
}

impl PeekState {
    pub open spec fn items_upto(&self, n: int, dpi: int) -> Seq<DrawView>
        decreases n,
    {
        if n <= 0 {
            seq![]
        } else {
            self.items_upto(n - 1, dpi) + item_draws(
                self.entries@[n - 1]@,
                self.item(n - 1, dpi),
                self.thumbs_mode,
                (self.hover matches Some(h) && h.entry == n - 1),
                self.hover == Some(Hit { entry: (n - 1) as usize, close: true }),
                dpi,
            )
        }
    }

    /// Everything the panel draws: its ground and its items.
    pub open spec fn painted(&self, dpi: int) -> Seq<DrawView> {
        seq![
            DrawView::Fill {
                rect: rect(0, 0, self.width as int, self.height as int),
                color: COL_BG,
            },
        ] + self.items_upto(self.entries@.len() as int, dpi)
    }

    pub fn paint(&self, dpi: i32) -> (r: Vec<Draw>)
        requires
            self.wf(),
            valid_dpi(dpi),
            self.fits(dpi as int),
        ensures
            shown(r@) == self.painted(dpi as int),
    {
        let mut out: Vec<Draw> = Vec::new();
        assert(shown(out@) =~= seq![]);
        fill(&mut out, Rect { left: 0, top: 0, right: self.width, bottom: self.height }, COL_BG);
        let ghost head = shown(out@);
        let ghost d = dpi as int;
        let mut i: usize = 0;
        assert(head + self.items_upto(0, d) =~= head);
        while i < self.entries.len()
            invariant
                i <= self.entries.len(),
                self.wf(),
                valid_dpi(dpi),
                self.fits(dpi as int),
                d == dpi,
                shown(out@) == head + self.items_upto(i as int, d),
            decreases self.entries.len() - i,
        {
            proof {
                lemma_items_fit(i + 1, self.entries@.len() as int, self.thumbs_mode, d);
            }
            let r = item_rect(i, self.thumbs_mode, self.width, dpi);
            let (hovered, close) = match self.hover {
                Some(h) => (h.entry == i, h.entry == i && h.close),
                None => (false, false),
            };
            draw_item(&mut out, &self.entries[i], r, self.thumbs_mode, hovered, close, dpi);
            i = i + 1;
            assert(shown(out@) =~= head + self.items_upto(i as int, d));
        }
        assert(shown(out@) =~= self.painted(dpi as int));
        out
    }
}

// ---- What a peek is for ----

/// The panel holds every item, with its margin all round.
pub proof fn items_lie_in_the_panel(n: int, i: int, thumbs: bool, dpi: int)
    requires
        0 <= i < n,
        0 <= dpi <= 32767,
        items_fit(n, thumbs, dpi),
    ensures
        ({
            let (w, h) = panel_size(n, thumbs, dpi);
            let r = item_of(i, thumbs, w, dpi);
            &&& px(8, dpi) <= r.left && r.right <= w - px(8, dpi)
            &&& px(8, dpi) <= r.top && r.bottom <= h - px(8, dpi)
        }),
{
    lemma_px(8, dpi);
    lemma_px(196, dpi);
    lemma_px(150, dpi);
    lemma_px(300, dpi);
    lemma_px(38, dpi);
    lemma_items_fit(i, n, thumbs, dpi);
    lemma_items_fit(i + 1, n, thumbs, dpi);
    lemma_items_fit(n, n, thumbs, dpi);
    let pad = px(PAD as int, dpi);
    let w = px(CELL_W as int, dpi);
    let h = px(ROW_H as int, dpi);
    assert(i * (w + pad) + (w + pad) <= n * (w + pad) && n * (w + pad) == n * w + n * pad && (n + 1)
        * pad == n * pad + pad && (i + 1) * h <= n * h && (i + 1) * h == i * h + h)
        by (nonlinear_arith)
        requires
            0 <= i < n,
            0 <= w,
            0 <= pad,
            0 <= h,
    ;
}

/// With live previews the items stand side by side, each as large as a preview; else
/// they are rows below each other. Both are in the windows' order.
pub proof fn items_stand_in_order(n: int, i: int, width: int, dpi: int)
    requires
        0 <= i,
        i + 1 < n,
        0 <= dpi <= 32767,
        items_fit(n, true, dpi),
        0 <= width <= 0x1000_0000,
    ensures
        ({
            let a = item_of(i, true, width, dpi);
            let b = item_of(i + 1, true, width, dpi);
            &&& b.left == a.right + px(8, dpi)
            &&& b.top == a.top && b.bottom == a.bottom
            &&& a.right - a.left == px(196, dpi) && a.bottom - a.top == px(150, dpi)
        }),
        items_fit(n, false, dpi) ==> ({
            let a = item_of(i, false, width, dpi);
            let b = item_of(i + 1, false, width, dpi);
            &&& b.top == a.bottom
            &&& b.left == a.left && b.right == a.right
            &&& a.bottom - a.top == px(38, dpi)
        }),
{
    lemma_px(8, dpi);
    lemma_px(196, dpi);
    lemma_px(150, dpi);
    lemma_px(38, dpi);
    lemma_items_fit(i, n, true, dpi);
    lemma_items_fit(i + 1, n, true, dpi);
    let pad = px(PAD as int, dpi);
    let w = px(CELL_W as int, dpi);
    let h = px(ROW_H as int, dpi);
    assert((i + 1) * (w + pad) == i * (w + pad) + w + pad && (i + 1) * h == i * h + h && (i + 2) * h
        == (i + 1) * h + h) by (nonlinear_arith);
    if items_fit(n, false, dpi) {
        lemma_items_fit(i, n, false, dpi);
        lemma_items_fit(i + 1, n, false, dpi);
        lemma_items_fit(i + 2, n, false, dpi);
    }
}

/// An item's close button lies inside it, at its right, and the live preview below the
/// title.
pub proof fn the_close_button_lies_at_the_right(i: int, dpi: int)
    requires
        0 <= i,
        3 <= dpi <= 32767,
        items_fit(i + 1, true, dpi),
    ensures
        ({
            let r = item_of(i, true, 0, dpi);
            let c = close_of(r, true, dpi);
            let t = thumb_of(i, dpi);
            &&& r.left <= c.left <= c.right <= r.right && r.top <= c.top <= c.bottom <= r.bottom
            &&& r.right - c.right == px(4, dpi) && c.right - c.left == px(24, dpi)
            &&& r.left <= t.left <= t.right <= r.right
            &&& r.top + px(28, dpi) == t.top && t.top <= t.bottom <= r.bottom
            &&& c.bottom <= t.top
        }),
{
    lemma_px(8, dpi);
    lemma_px(196, dpi);
    lemma_px(150, dpi);
    lemma_px(24, dpi);
    lemma_px(28, dpi);
    lemma_px(2, dpi);
    lemma_px(4, dpi);
    lemma_px(6, dpi);
    lemma_items_fit(i, i + 1, true, dpi);
    lemma_items_fit(i + 1, i + 1, true, dpi);
    let pad = px(PAD as int, dpi);
    let w = px(CELL_W as int, dpi);
    assert((i + 1) * (w + pad) == i * (w + pad) + w + pad) by (nonlinear_arith);
    reveal(px);
}

/// A point on an item's close button hits the close button of that window, and one
/// elsewhere on the item the window itself.
pub proof fn the_close_button_is_hit_inside_it(p: PeekState, i: int, x: int, y: int, dpi: int)
    requires
        p.wf(),
        0 <= dpi <= 32767,
        p.fits(dpi),
        0 <= i < p.entries@.len() <= usize::MAX,
        p.item(i, dpi).has(x, y),
    ensures
        p.hit(x, y, dpi) == Some(
            Hit {
                entry: i as usize,
                close: close_of(p.item(i, dpi), p.thumbs_mode, dpi).has(x, y),
            },
        ),
{
    an_item_is_hit_inside_it(p, i, x, y, dpi);
    let f = |i: int| p.item(i, dpi).has(x, y);
    crate::search::lemma_first_from(0, p.entries@.len() as int, f);
}

/// A panel is centered over its button, as far as the screen's edges leave room, and
/// is on the screen whenever that can hold it.
pub proof fn a_panel_is_centered_over_its_button(a: int, b: int, w: int, screen_w: int, margin: int)
    requires
        0 <= margin,
        0 <= w,
        0 <= a <= b,
    ensures
        ({
            let x = panel_left(a, b, w, screen_w, margin);
            &&& x >= margin
            &&& w + 2 * margin <= screen_w ==> x + w <= screen_w - margin
            &&& (margin < x && x + w < screen_w - margin) ==> -1 <= (a - x) - (x + w - b) <= 1
        }),
{
}

} // verus!
