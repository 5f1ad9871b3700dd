//! The shell's own Run dialog, nudged to the bottom-left above the taskbar.

use vstd::prelude::*;
use vstd::string::*;
use crate::geometry::{max2, max_i32, near, px, scaled, valid_dpi, Rect};
use crate::text::same_str;

verus! {

pub const RUN_PROMPT: &'static str =
    "Type the name of a program, folder, document, or Internet resource, and Windows will open it for you.";

/// The hook code of a window being activated.
pub const HCBT_ACTIVATE: i32 = 5;

/// Whether a hooked event is the dialog coming up.
pub fn is_dialog(code: i32, class: &str) -> (r: bool)
    ensures
        r == (code == HCBT_ACTIVATE && class@ == "#32770"@),
{
    code == HCBT_ACTIVATE && same_str(class, "#32770")
}

/// Where a window `height` pixels high goes: at the left, just above a taskbar whose
/// top edge is `taskbar_top`, but on the screen.
pub open spec fn seat(taskbar_top: int, height: int, dpi: int) -> (int, int) {
    let m = px(12, dpi);
    (m, max2(taskbar_top - height - m, m))
}

/// Where the window with this rectangle goes.
pub fn reposition(window: Rect, taskbar_top: i32, dpi: i32) -> (r: (i32, i32))
    requires
        valid_dpi(dpi),
        near(taskbar_top as int),
        0 <= window.bottom - window.top <= 0x3000_0000,
    ensures
        (r.0 as int, r.1 as int) == seat(
            taskbar_top as int,
            window.bottom - window.top,
            dpi as int,
        ),
{
    let h: i32 = window.bottom - window.top;
    let m: i32 = scaled(12, dpi);
    (m, max_i32(taskbar_top - h - m, m))
}

/// The window stands at the left with a margin, and the same margin above the taskbar
/// unless it is too high for that; it never starts above the screen.
pub proof fn the_window_stands_above_the_taskbar(taskbar_top: int, height: int, dpi: int)
    requires
        0 <= dpi <= 32767,
    ensures
        seat(taskbar_top, height, dpi).0 == px(12, dpi),
        seat(taskbar_top, height, dpi).1 >= px(12, dpi),
        height + 2 * px(12, dpi) <= taskbar_top ==> seat(taskbar_top, height, dpi).1 + height + px(
            12,
            dpi,
        ) == taskbar_top,
{
}

} // verus!
