//! Accent-colored frame around the foreground (non-maximized) window, drawn by a
//! click-through overlay where there is no desktop composition.
//!
//! Only the foreground window is bordered. The overlay follows it by window events:
//! foreground changes, moves and sizes, minimizing, destruction.

use vstd::prelude::*;
use crate::dwm_border::{
    is_desktop_class, desktop_class, FrameFacts, EVENT_OBJECT_DESTROY, EVENT_OBJECT_LOCATIONCHANGE,
    EVENT_SYSTEM_FOREGROUND, EVENT_SYSTEM_MINIMIZEEND, EVENT_SYSTEM_MINIMIZESTART,
};
use crate::geometry::{lemma_px, max2, max_i32, px, rect, scaled, valid_dpi, Rect};
use crate::taskbar::WS_EX_TOOLWINDOW;

verus! {

/// Border thickness in 96-DPI px.
pub const THICKNESS: i32 = 4;

/// Corner radius in 96-DPI px, to match rounded window corners. Only applied under
/// desktop composition.
pub const CORNER: i32 = 8;

/// A window to draw the frame around: a visible, non-minimized, non-maximized,
/// non-tool window of another process that is no part of the desktop.
pub open spec fn framed(w: FrameFacts, overlay: u64) -> bool {
    &&& w.hwnd != 0
    &&& w.hwnd != overlay
    &&& w.visible
    &&& !w.iconic
    &&& !w.zoomed
    &&& w.exstyle & WS_EX_TOOLWINDOW == 0
    &&& !w.own
    &&& !desktop_class(w.class@)
}

pub fn borderable(w: &FrameFacts, overlay: u64) -> (r: bool)
    ensures
        r == framed(*w, overlay),
{
    if w.hwnd == 0 || w.hwnd == overlay {
        return false;
    }
    if !w.visible || w.iconic || w.zoomed {
        return false;
    }
    if w.exstyle & WS_EX_TOOLWINDOW != 0 {
        return false;
    }
    if w.own {
        return false;
    }
    !is_desktop_class(w.class.as_str())
}

/// The window's visible outer edge: the composed frame's bounds where they are known
/// and have an area, else the window's rectangle.
pub fn visible_rect(bounds: Option<Rect>, window: Option<Rect>) -> (r: Option<Rect>)
    ensures
        r == match bounds {
            Some(b) if b.right > b.left && b.bottom > b.top => Some(b),
            _ => window,
        },
{
    match bounds {
        Some(b) => {
            if b.right > b.left && b.bottom > b.top {
                return Some(b);
            }
        },
        None => {},
    }
    window
}

/// The overlay over a window: its place, and the ring that belongs to it.
#[derive(Clone, Copy, PartialEq, Eq, Structural, Debug)]
pub struct Frame {
    pub x: i32,
    pub y: i32,
    pub width: i32,
    pub height: i32,
    /// The ring's outer edge, relative to the overlay.
    pub outer: Rect,
    /// The hole inside it.
    pub inner: Rect,
    /// Ellipse size of the outer and inner corners; 0 for square ones.
    pub outer_corner: i32,
    pub inner_corner: i32,
}

/// The overlay for a window at `r`.
pub open spec fn frame_of(r: Rect, rounded: bool, dpi: int) -> Frame {
    let w = r.right - r.left;
    let h = r.bottom - r.top;
    let t = max2(px(THICKNESS as int, dpi), 1);
    let c = px(CORNER as int, dpi);
    let e: int = if rounded {
        1
    } else {
        0
    };
    Frame {
        x: r.left,
        y: r.top,
        width: w as i32,
        height: h as i32,
        outer: rect(0, 0, w + e, h + e),
        inner: rect(t, t, w - t + e, h - t + e),
        outer_corner: if rounded {
            (2 * c) as i32
        } else {
            0
        },
        inner_corner: if rounded {
            (2 * max2(c - t, 1)) as i32
        } else {
            0
        },
    }
}

/// Fit the overlay to a window's visible edge. `None`, and the overlay hides, where
/// the window has vanished or has no area.
pub fn position(visible: Option<Rect>, rounded: bool, dpi: i32) -> (r: Option<Frame>)
    requires
        valid_dpi(dpi),
        visible matches Some(v) ==> v.near(),
    ensures
        r == match visible {
            Some(v) if v.right > v.left && v.bottom > v.top => Some(
                frame_of(v, rounded, dpi as int),
            ),
            _ => None,
        },
{
    match visible {
        None => None,
        Some(v) => {
            let w: i32 = v.right - v.left;
            let h: i32 = v.bottom - v.top;
            if w <= 0 || h <= 0 {
                return None;
            }
            let t: i32 = max_i32(scaled(THICKNESS, dpi), 1);
            if rounded {
                let c: i32 = scaled(CORNER, dpi);
                Some(
                    Frame {
                        x: v.left,
                        y: v.top,
                        width: w,
                        height: h,
                        outer: Rect { left: 0, top: 0, right: w + 1, bottom: h + 1 },
                        inner: Rect { left: t, top: t, right: w - t + 1, bottom: h - t + 1 },
                        outer_corner: 2 * c,
                        inner_corner: 2 * max_i32(c - t, 1),
                    },
                )
            } else {
                Some(
                    Frame {
                        x: v.left,
                        y: v.top,
                        width: w,
                        height: h,
                        outer: Rect { left: 0, top: 0, right: w, bottom: h },
                        inner: Rect { left: t, top: t, right: w - t, bottom: h - t },
                        outer_corner: 0,
                        inner_corner: 0,
                    },
                )
            }
        },
    }
}

/// The overlay's state.
pub struct Border {
    pub overlay: u64,
    /// The window currently bordered, or 0.
    pub target: u64,
    /// Round the frame to match rounded corners.
    pub rounded: bool,
}

/// What becomes of the overlay.
#[derive(Clone, Copy, PartialEq, Eq, Structural, Debug)]
pub enum Act {
    Nothing,
    Hide,
    /// Fit it to this window.
    Position(u64),
}

/// The target and the overlay after an event of a whole window.
pub open spec fn after_event(
    target: u64,
    event: u32,
    hwnd: u64,
    frames: bool,
    foreground: u64,
) -> (u64, Act) {
    if event == EVENT_SYSTEM_FOREGROUND || event == EVENT_SYSTEM_MINIMIZEEND {
        adopted(hwnd, frames)
    } else if event == EVENT_SYSTEM_MINIMIZESTART || event == EVENT_OBJECT_DESTROY {
        if target == hwnd {
            (0, Act::Hide)
        } else {
            (target, Act::Nothing)
        }
    } else if event == EVENT_OBJECT_LOCATIONCHANGE {
        if target == hwnd || (hwnd == foreground && frames) {
            adopted(hwnd, frames)
        } else {
            (target, Act::Nothing)
        }
    } else {
        (target, Act::Nothing)
    }
}

/// A candidate is bordered where it can be; else nothing is.
pub open spec fn adopted(candidate: u64, frames: bool) -> (u64, Act) {
    if frames {
        (candidate, Act::Position(candidate))
    } else {
        (0, Act::Hide)
    }
}

impl Border {
    pub fn install(overlay: u64, rounded: bool) -> (r: Border)
        ensures
            r.overlay == overlay,
            r.target == 0,
            r.rounded == rounded,
    {
        Border { overlay, target: 0, rounded }
    }

    /// Point the border at a window if it's borderable, otherwise hide it.
    pub fn update_target(&mut self, candidate: &FrameFacts) -> (r: Act)
        ensures
            (final(self).target, r) == adopted(
                candidate.hwnd,
                framed(*candidate, old(self).overlay),
            ),
            final(self).overlay == old(self).overlay,
            final(self).rounded == old(self).rounded,
    {
        if borderable(candidate, self.overlay) {
            self.target = candidate.hwnd;
            Act::Position(candidate.hwnd)
        } else {
            self.target = 0;
            Act::Hide
        }
    }

    /// Act on a window event; only events of whole windows count. The tracked window
    /// is followed, and dropped once it is minimized, destroyed or maximized.
    pub fn winevent_hook(
        &mut self,
        event: u32,
        w: &FrameFacts,
        id_object: i32,
        id_child: i32,
        foreground: u64,
    ) -> (r: Act)
        ensures
            (final(self).target, r) == if id_object == 0 && id_child == 0 {
                after_event(
                    old(self).target,
                    event,
                    w.hwnd,
                    framed(*w, old(self).overlay),
                    foreground,
                )
            } else {
                (old(self).target, Act::Nothing)
            },
            final(self).overlay == old(self).overlay,
            final(self).rounded == old(self).rounded,
    {
        if id_object != 0 || id_child != 0 {
            return Act::Nothing;
        }
        if event == EVENT_SYSTEM_FOREGROUND || event == EVENT_SYSTEM_MINIMIZEEND {
            return self.update_target(w);
        }
        if event == EVENT_SYSTEM_MINIMIZESTART || event == EVENT_OBJECT_DESTROY {
            if self.target == w.hwnd {
                self.target = 0;
                return Act::Hide;
            }
            return Act::Nothing;
        }
        if event == EVENT_OBJECT_LOCATIONCHANGE {
            if self.target == w.hwnd || (w.hwnd == foreground && borderable(w, self.overlay)) {
                return self.update_target(w);
            }
        }
        Act::Nothing
    }
}

/// The bordered window is always one that can be: whatever event comes, the target
/// is the window it was or one that qualifies now, or none.
pub proof fn target_qualifies(
    target: u64,
    event: u32,
    hwnd: u64,
    frames: bool,
    foreground: u64,
)
    ensures
        ({
            let now = after_event(target, event, hwnd, frames, foreground).0;
            now == target || now == 0 || (now == hwnd && frames)
        }),
{
}

// ---- What the frame is for ----

/// A window is framed unless it is hidden, minimized, maximized, a tool window, one of
/// the shell's own, the overlay itself or part of the desktop.
pub proof fn only_ordinary_windows_are_framed(w: FrameFacts, overlay: u64)
    ensures
        framed(w, overlay) == !(w.hwnd == 0 || w.hwnd == overlay || !w.visible || w.iconic || w.zoomed
            || w.exstyle & 0x80 != 0 || w.own || w.class@ == "Progman"@ || w.class@ == "WorkerW"@
            || w.class@ == "Shell_TrayWnd"@ || w.class@ == "Shell_SecondaryTrayWnd"@),
{
}

/// The overlay lies exactly over the window, and its ring is equally thick on all
/// sides: four pixels, and one at least.
pub proof fn the_ring_surrounds_the_window(r: Rect, rounded: bool, dpi: int)
    requires
        0 <= dpi <= 32767,
        r.near(),
        r.left < r.right,
        r.top < r.bottom,
    ensures
        ({
            let f = frame_of(r, rounded, dpi);
            let t = if px(4, dpi) < 1 {
                1
            } else {
                px(4, dpi)
            };
            &&& f.x == r.left && f.y == r.top
            &&& f.x + f.width == r.right && f.y + f.height == r.bottom
            &&& f.outer.left == 0 && f.outer.top == 0
            &&& f.inner.left - f.outer.left == t && f.outer.right - f.inner.right == t
            &&& f.inner.top - f.outer.top == t && f.outer.bottom - f.inner.bottom == t
            &&& !rounded ==> f.outer.right == f.width && f.outer.bottom == f.height
                && f.outer_corner == 0 && f.inner_corner == 0
            &&& rounded ==> f.outer_corner == 2 * px(8, dpi) && f.inner_corner <= max2(
                f.outer_corner as int,
                2,
            )
        }),
{
    lemma_px(4, dpi);
    lemma_px(8, dpi);
}

/// The frame goes to a window that comes to the front or comes back from being
/// minimized, follows the framed window as it moves, and is hidden when that is
/// minimized or destroyed. Windows in the background change nothing.
pub proof fn the_frame_follows_the_active_window(
    target: u64,
    event: u32,
    hwnd: u64,
    frames: bool,
    foreground: u64,
)
    ensures
        (event == 0x0003 || event == 0x0017) && frames ==> after_event(
            target,
            event,
            hwnd,
            frames,
            foreground,
        ) == (hwnd, Act::Position(hwnd)),
        (event == 0x0003 || event == 0x0017) && !frames ==> after_event(
            target,
            event,
            hwnd,
            frames,
            foreground,
        ) == (0u64, Act::Hide),
        (event == 0x0016 || event == 0x8001) && target == hwnd ==> after_event(
            target,
            event,
            hwnd,
            frames,
            foreground,
        ) == (0u64, Act::Hide),
        event == 0x800B && target == hwnd && frames ==> after_event(
            target,
            event,
            hwnd,
            frames,
            foreground,
        ) == (hwnd, Act::Position(hwnd)),
        event == 0x800B && target == hwnd && !frames ==> after_event(
            target,
            event,
            hwnd,
            frames,
            foreground,
        ) == (0u64, Act::Hide),
        event == 0x800B && hwnd == foreground && frames ==> after_event(
            target,
            event,
            hwnd,
            frames,
            foreground,
        ) == (hwnd, Act::Position(hwnd)),
        (target != hwnd && hwnd != foreground && event != 0x0003 && event != 0x0017) ==> after_event(
            target,
            event,
            hwnd,
            frames,
            foreground,
        ) == (target, Act::Nothing),
{
}

} // verus!
