//! Accent border for framed windows under desktop composition: the foreground
//! window's own border is recolored, windows that lose focus turn gray.

use vstd::prelude::*;
use vstd::string::*;
use crate::taskbar::WS_EX_TOOLWINDOW;
use crate::text::{begins, chars_of, same_str, starts_with};

verus! {

/// Border color for windows that don't have focus.
pub const GRAY: u32 = 0x0055_5555;

// Window events.
pub const EVENT_SYSTEM_FOREGROUND: u32 = 0x0003;

pub const EVENT_SYSTEM_MINIMIZESTART: u32 = 0x0016;

pub const EVENT_SYSTEM_MINIMIZEEND: u32 = 0x0017;

pub const EVENT_OBJECT_DESTROY: u32 = 0x8001;

pub const EVENT_OBJECT_SHOW: u32 = 0x8002;

pub const EVENT_OBJECT_LOCATIONCHANGE: u32 = 0x800B;

/// The ring around one of the shell's own windows: accent when it has focus, gray
/// otherwise.
pub fn ring_color(focused: bool, accent: u32) -> (r: u32)
    ensures
        r == if focused {
            accent
        } else {
            GRAY
        },
{
    if focused {
        accent
    } else {
        GRAY
    }
}

/// What the system reports of a window that may get a border.
pub struct FrameFacts {
    pub hwnd: u64,
    pub visible: bool,
    pub iconic: bool,
    pub zoomed: bool,
    pub exstyle: u32,
    /// It belongs to this process.
    pub own: bool,
    pub class: String,
}

pub open spec fn desktop_class(class: Seq<char>) -> bool {
    ||| class == "Progman"@
    ||| class == "WorkerW"@
    ||| class == "Shell_TrayWnd"@
    ||| class == "Shell_SecondaryTrayWnd"@
}

pub fn is_desktop_class(class: &str) -> (r: bool)
    ensures
        r == desktop_class(class@),
{
    same_str(class, "Progman") || same_str(class, "WorkerW") || same_str(class, "Shell_TrayWnd")
        || same_str(class, "Shell_SecondaryTrayWnd")
}

/// A window of another application that is to be framed: visible, no tool window,
/// none of the shell's own (those ring themselves), and no part of the desktop.
pub open spec fn framed(w: FrameFacts) -> bool {
    &&& w.hwnd != 0
    &&& w.visible
    &&& w.exstyle & WS_EX_TOOLWINDOW == 0
    &&& !w.own
    &&& !begins(w.class@, "StartPE"@)
    &&& !desktop_class(w.class@)
}

pub fn borderable(w: &FrameFacts) -> (r: bool)
    ensures
        r == framed(*w),
{
    if w.hwnd == 0 || !w.visible {
        return false;
    }
    if w.exstyle & WS_EX_TOOLWINDOW != 0 {
        return false;
    }
    if w.own {
        return false;
    }
    let class = chars_of(w.class.as_str());
    !starts_with(&class, &chars_of("StartPE")) && !is_desktop_class(w.class.as_str())
}

/// A border color to set.
#[derive(Clone, Copy, PartialEq, Eq, Structural, Debug)]
pub struct Tint {
    pub hwnd: u64,
    pub color: u32,
}

/// The window that has the accent color, or 0.
pub struct State {
    pub accented: u64,
}

/// The colors to set when `new` comes to the foreground.
pub open spec fn tints(accented: u64, new: u64, framed: bool, accent: u32) -> Seq<Tint> {
    if framed {
        if accented != 0 && accented != new {
            seq![Tint { hwnd: new, color: accent }, Tint { hwnd: accented, color: GRAY }]
        } else {
            seq![Tint { hwnd: new, color: accent }]
        }
    } else if accented != 0 {
        seq![Tint { hwnd: accented, color: GRAY }]
    } else {
        seq![]
    }
}

/// What turning the feature on or off comes to.
#[derive(Clone, Copy, PartialEq, Eq, Structural, Debug)]
pub enum Switch {
    Nothing,
    Install,
    TearDown,
    Refresh,
}

/// Turn the feature on or off at runtime: a feature that stays on is refreshed.
pub fn set_enabled(enabled: bool, installed: bool) -> (r: Switch)
    ensures
        r == if enabled && !installed {
            Switch::Install
        } else if !enabled && installed {
            Switch::TearDown
        } else if enabled {
            Switch::Refresh
        } else {
            Switch::Nothing
        },
{
    if enabled && !installed {
        Switch::Install
    } else if !enabled && installed {
        Switch::TearDown
    } else if enabled {
        Switch::Refresh
    } else {
        Switch::Nothing
    }
}

impl State {
    pub fn install() -> (r: State)
        ensures
            r.accented == 0,
    {
        State { accented: 0 }
    }

    /// Color the new foreground window accent and gray the one that lost it. Where
    /// the new one is not framed, the last one turns gray.
    pub fn on_foreground(&mut self, new: u64, framed: bool, accent: u32) -> (r: Vec<Tint>)
        ensures
            r@ == tints(old(self).accented, new, framed, accent),
            final(self).accented == if framed {
                new
            } else {
                0
            },
    {
        let mut out: Vec<Tint> = Vec::new();
        if framed {
            out.push(Tint { hwnd: new, color: accent });
            if self.accented != 0 && self.accented != new {
                out.push(Tint { hwnd: self.accented, color: GRAY });
            }
            self.accented = new;
        } else {
            if self.accented != 0 {
                out.push(Tint { hwnd: self.accented, color: GRAY });
            }
            self.accented = 0;
        }
        assert(out@ =~= tints(old(self).accented, new, framed, accent));
        out
    }

    /// Act on a window event: only events of whole windows count. A newly shown
    /// background window starts gray.
    pub fn winevent_hook(
        &mut self,
        event: u32,
        w: &FrameFacts,
        id_object: i32,
        id_child: i32,
        foreground: u64,
        accent: u32,
    ) -> (r: Vec<Tint>)
        ensures
            ({
                let counts = id_object == 0 && id_child == 0;
                let fronts = event == EVENT_SYSTEM_FOREGROUND || event == EVENT_SYSTEM_MINIMIZEEND;
                if counts && fronts {
                    &&& r@ == tints(old(self).accented, w.hwnd, framed(*w), accent)
                    &&& final(self).accented == if framed(*w) {
                        w.hwnd
                    } else {
                        0
                    }
                } else {
                    &&& *final(self) == *old(self)
                    &&& r@ == if counts && event == EVENT_OBJECT_SHOW && framed(*w) && w.hwnd
                        != foreground {
                        seq![Tint { hwnd: w.hwnd, color: GRAY }]
                    } else {
                        seq![]
                    }
                }
            }),
    {
        let mut out: Vec<Tint> = Vec::new();
        if id_object != 0 || id_child != 0 {
            assert(out@ =~= seq![]);
            return out;
        }
        let frame = borderable(w);
        if event == EVENT_SYSTEM_FOREGROUND || event == EVENT_SYSTEM_MINIMIZEEND {
            return self.on_foreground(w.hwnd, frame, accent);
        }
        if event == EVENT_OBJECT_SHOW && frame && w.hwnd != foreground {
            out.push(Tint { hwnd: w.hwnd, color: GRAY });
            assert(out@ =~= seq![Tint { hwnd: w.hwnd, color: GRAY }]);
        } else {
            assert(out@ =~= seq![]);
        }
        out
    }
}

// ---- Laws ----

/// The windows' border colors after some were set.
pub open spec fn colored(colors: Map<u64, u32>, t: Seq<Tint>) -> Map<u64, u32>
    decreases t.len(),
{
    if t.len() == 0 {
        colors
    } else {
        colored(colors, t.drop_last()).insert(t.last().hwnd, t.last().color)
    }
}

/// No window but `accented` has the accent color.
pub open spec fn only_accented(colors: Map<u64, u32>, accented: u64, accent: u32) -> bool {
    forall|h: u64|
        h != accented && #[trigger] colors.dom().contains(h) ==> colors[h] != accent
}

/// However the focus moves, one window at most has the accent color: the one in the
/// foreground, where it is framed.
pub proof fn one_window_is_accented(
    colors: Map<u64, u32>,
    accented: u64,
    new: u64,
    framed: bool,
    accent: u32,
)
    requires
        accent != GRAY,
        only_accented(colors, accented, accent),
        !colors.dom().contains(0),
    ensures
        ({
            let after = colored(colors, tints(accented, new, framed, accent));
            let now = if framed {
                new
            } else {
                0
            };
            &&& only_accented(after, now, accent)
            &&& framed ==> after[new] == accent
        }),
{
    let t = tints(accented, new, framed, accent);
    let after = colored(colors, t);
    reveal_with_fuel(colored, 3);
    if t.len() == 2 {
        assert(t.drop_last().drop_last() =~= seq![]);
        assert(t.drop_last().last() == t[0]);
    } else if t.len() == 1 {
        assert(t.drop_last() =~= seq![]);
    }
    let now = if framed {
        new
    } else {
        0
    };
    assert forall|h: u64| h != now && #[trigger] after.dom().contains(h) implies after[h]
        != accent by {
        if h != accented && h != new {
            assert(colors.dom().contains(h));
        } else if h == accented && accented == 0 {
            assert(!colors.dom().contains(0));
        }
    }
}

/// A window is framed unless it is hidden, a tool window, one of the shell's own or
/// part of the desktop.
pub proof fn only_other_programs_are_framed(w: FrameFacts)
    ensures
        framed(w) ==> w.hwnd != 0 && w.visible && w.exstyle & 0x80 == 0 && !w.own && w.class@
            != "Progman"@ && w.class@ != "WorkerW"@ && w.class@ != "Shell_TrayWnd"@ && w.class@
            != "Shell_SecondaryTrayWnd"@,
        (w.hwnd != 0 && w.visible && w.exstyle & 0x80 == 0 && !w.own && w.class@ != "Progman"@
            && w.class@ != "WorkerW"@ && w.class@ != "Shell_TrayWnd"@ && w.class@
            != "Shell_SecondaryTrayWnd"@ && !begins(w.class@, "StartPE"@)) ==> framed(w),
        begins(w.class@, "StartPE"@) ==> !framed(w),
{
}

/// The window that loses the focus turns gray, unless it keeps it, and no window is
/// colored but it and the new one.
pub proof fn the_last_window_turns_gray(accented: u64, new: u64, framed: bool, accent: u32, i: int)
    requires
        0 <= i < tints(accented, new, framed, accent).len(),
    ensures
        ({
            let t = tints(accented, new, framed, accent);
            &&& t[i].hwnd == new || t[i].hwnd == accented
            &&& t[i].hwnd == new && framed ==> t[i].color == accent
            &&& t[i].hwnd == accented && (accented != new || !framed) ==> t[i].color == GRAY
            &&& (accented != 0 && (accented != new || !framed)) ==> t.contains(
                Tint { hwnd: accented, color: 0x0055_5555 },
            )
        }),
{
    let t = tints(accented, new, framed, accent);
    if accented != 0 && (accented != new || !framed) {
        if framed {
            assert(t[1] == Tint { hwnd: accented, color: GRAY });
        } else {
            assert(t[0] == Tint { hwnd: accented, color: GRAY });
        }
    }
}

} // verus!
