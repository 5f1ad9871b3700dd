//! The taskbar: an appbar docked to the bottom edge with a start button, task
//! buttons for top-level windows, tray icons and a clock. The clock's strip also has
//! the network glyph and the show-desktop button.

pub mod corner;
pub mod input;
pub mod laws;
pub mod painting;

use vstd::multiset::Multiset;
use vstd::prelude::*;
use vstd::string::*;
use crate::config::{Config, ConfigView};
use crate::geometry::{
    clamp_i32, clamped, fits_i32, lemma_px, lemma_px_sum, max2, max_i32, min2, min_i32, near, px,
    rect, scaled, toward_zero, valid_dpi, Rect,
};
use crate::num::{hex, hex_text};
use crate::search::{first, first_from, lemma_first_from};
use crate::text::{alike, chars_of, eq_ignore_case, same_str};
use crate::util::opt_view;

verus! {

// Colors are 0x00BBGGRR.
pub const COL_BG: u32 = 0x00201F1F;

pub const COL_HOVER: u32 = 0x00353333;

pub const COL_ACTIVE: u32 = 0x00403D3D;

pub const COL_ACCENT: u32 = 0x00D47800;

pub const COL_TEXT: u32 = 0x00F0F0F0;

pub const COL_TEXT_DIM: u32 = 0x00B4B4B4;

/// Width reserved per tray icon (unscaled).
pub const TRAY_SLOT: i32 = 24;

/// The part of the taskbar at a point.
#[derive(Clone, Copy, PartialEq, Eq, Structural, Debug)]
pub enum Hit {
    Nothing,
    Start,
    Task(usize),
    TrayIcon(usize),
}

// ---------------------------------------------------------------------------
// Windows and buttons

/// What the system reports of a top-level window.
pub struct WindowFacts {
    pub hwnd: u64,
    pub visible: bool,
    pub title_length: i32,
    pub exstyle: u32,
    pub cloaked: u32,
    /// The window's rectangle, where it could be read.
    pub rect: Option<Rect>,
    /// The window that owns this one, or 0.
    pub owner: u64,
    pub class: String,
}

pub const WS_EX_TOOLWINDOW: u32 = 0x80;

/// Classes of windows that are part of a shell.
pub open spec fn shell_class(class: Seq<char>) -> bool {
    ||| class == "Progman"@
    ||| class == "WorkerW"@
    ||| class == "Shell_TrayWnd"@
    ||| class == "StartPE_Taskbar"@
    ||| class == "StartPE_Menu"@
}

/// A window that gets a task button: visible, titled, no tool window, not
/// cloaked, of some area, without an owner, and no part of a shell.
pub open spec fn task_window(w: WindowFacts, own: u64) -> bool {
    &&& w.hwnd != own
    &&& w.visible
    &&& w.title_length != 0
    &&& w.exstyle & WS_EX_TOOLWINDOW == 0
    &&& w.cloaked == 0
    &&& (w.rect matches Some(r) ==> r.left < r.right && r.top < r.bottom)
    &&& w.owner == 0
    &&& !shell_class(w.class@)
}

pub fn is_task_window(w: &WindowFacts, own: u64) -> (r: bool)
    ensures
        r == task_window(*w, own),
{
    if w.hwnd == own || !w.visible {
        return false;
    }
    if w.title_length == 0 {
        return false;
    }
    if w.exstyle & WS_EX_TOOLWINDOW != 0 {
        return false;
    }
    if w.cloaked != 0 {
        return false;
    }
    match w.rect {
        Some(r) => {
            if r.right <= r.left || r.bottom <= r.top {
                return false;
            }
        },
        None => {},
    }
    if w.owner != 0 {
        return false;
    }
    let c = w.class.as_str();
    !(same_str(c, "Progman") || same_str(c, "WorkerW") || same_str(c, "Shell_TrayWnd") || same_str(
        c,
        "StartPE_Taskbar",
    ) || same_str(c, "StartPE_Menu"))
}

/// The program that a window really belongs to.
pub open spec fn real_exe(
    class: Seq<char>,
    core: Option<Seq<char>>,
    own: Option<Seq<char>>,
) -> Option<Seq<char>> {
    if core is Some && class == "ApplicationFrameWindow"@ {
        core
    } else {
        own
    }
}

/// Exe path of the application a window really belongs to: that of the core
/// window inside an application frame, where there is one, else the window's own.
pub fn effective_exe(
    class: &str,
    core_exe: &Option<String>,
    own_exe: &Option<String>,
) -> (r: Option<String>)
    ensures
        opt_view(r) == if class@ == "ApplicationFrameWindow"@ && core_exe is Some {
            opt_view(*core_exe)
        } else {
            opt_view(*own_exe)
        },
        opt_view(r) == real_exe(class@, opt_view(*core_exe), opt_view(*own_exe)),
{
    if same_str(class, "ApplicationFrameWindow") {
        match core_exe {
            Some(exe) => {
                return Some(exe.clone());
            },
            None => {},
        }
    }
    match own_exe {
        Some(exe) => Some(exe.clone()),
        None => None,
    }
}

/// The icon a window answers with: the first of its answers that is not 0, asked
/// for small to large, the window before its class.
pub fn window_icon(answers: &Vec<u64>) -> (r: Option<u64>)
    ensures
        match first(answers.len() as int, |i: int| answers@[i] != 0) {
            Some(i) => r == Some(answers@[i]),
            None => r is None,
        },
{
    let ghost p = |i: int| answers@[i] != 0;
    let mut i: usize = 0;
    while i < answers.len()
        invariant
            i <= answers.len(),
            p == (|i: int| answers@[i] != 0),
            first(answers.len() as int, p) == first_from(i as int, answers.len() as int, p),
        decreases answers.len() - i,
    {
        if answers[i] != 0 {
            return Some(answers[i]);
        }
        i = i + 1;
    }
    None
}

/// A task window with what its button needs.
pub struct Seen {
    pub hwnd: u64,
    pub exe: Option<String>,
    pub title: String,
    /// The icon the window publishes.
    pub icon: Option<u64>,
    /// The icon of its exe file (application frames publish none).
    pub exe_icon: Option<u64>,
}

pub struct SeenView {
    pub hwnd: u64,
    pub exe: Option<Seq<char>>,
    pub title: Seq<char>,
    pub icon: Option<u64>,
}

impl View for Seen {
    type V = SeenView;

    open spec fn view(&self) -> SeenView {
        SeenView {
            hwnd: self.hwnd,
            exe: opt_view(self.exe),
            title: self.title@,
            icon: if self.icon is Some {
                self.icon
            } else if self.exe is Some {
                self.exe_icon
            } else {
                None
            },
        }
    }
}

/// A pinned program with what its button needs while it has no window.
pub struct Pin {
    pub exe: String,
    pub title: String,
    pub icon: Option<u64>,
}

pub struct PinView {
    pub exe: Seq<char>,
    pub title: Seq<char>,
    pub icon: Option<u64>,
}

impl View for Pin {
    type V = PinView;

    open spec fn view(&self) -> PinView {
        PinView { exe: self.exe@, title: self.title@, icon: self.icon }
    }
}

/// One taskbar button. With combining enabled this can represent several windows
/// of the same application; clicking cycles through them.
pub struct TaskButton {
    /// Grouping key (exe path with combining, per-window otherwise). Also used to
    /// keep button order stable across refreshes.
    pub key: String,
    pub windows: Vec<u64>,
    pub title: String,
    pub icon: Option<u64>,
    pub rect: Rect,
    /// For a pinned app: the exe to launch when the button has no open windows.
    pub pinned_exe: Option<String>,
}

pub struct ButtonView {
    pub key: Seq<char>,
    pub windows: Seq<u64>,
    pub title: Seq<char>,
    pub icon: Option<u64>,
    pub rect: Rect,
    pub pinned_exe: Option<Seq<char>>,
}

impl View for TaskButton {
    type V = ButtonView;

    open spec fn view(&self) -> ButtonView {
        ButtonView {
            key: self.key@,
            windows: self.windows@,
            title: self.title@,
            icon: self.icon,
            rect: self.rect,
            pinned_exe: opt_view(self.pinned_exe),
        }
    }
}

pub open spec fn button_views(v: Seq<TaskButton>) -> Seq<ButtonView> {
    Seq::new(v.len(), |i: int| v[i]@)
}

pub open spec fn seen_views(v: Seq<Seen>) -> Seq<SeenView> {
    Seq::new(v.len(), |i: int| v[i]@)
}

pub open spec fn pin_views(v: Seq<Pin>) -> Seq<PinView> {
    Seq::new(v.len(), |i: int| v[i]@)
}

pub open spec fn no_rect() -> Rect {
    rect(0, 0, 0, 0)
}

/// The key of a window that shares its button with none.
pub open spec fn window_key(hwnd: u64) -> Seq<char> {
    "hwnd:0x"@ + hex(hwnd as nat)
}

/// The key that decides which windows share a button.
pub open spec fn key_of(w: SeenView, combine: bool) -> Seq<char> {
    match w.exe {
        Some(exe) if combine => exe,
        _ => window_key(w.hwnd),
    }
}

/// Which of the buttons has this key.
pub open spec fn with_key(v: Seq<ButtonView>, key: Seq<char>) -> Option<int> {
    first(v.len() as int, |i: int| v[i].key == key)
}

/// A window put on the button of its key, or on a new one at the end.
pub open spec fn placed(v: Seq<ButtonView>, w: SeenView, combine: bool) -> Seq<ButtonView> {
    let key = key_of(w, combine);
    match with_key(v, key) {
        Some(i) => v.update(i, ButtonView { windows: v[i].windows.push(w.hwnd), ..v[i] }),
        None => v.push(
            ButtonView {
                key,
                windows: seq![w.hwnd],
                title: w.title,
                icon: w.icon,
                rect: no_rect(),
                pinned_exe: None,
            },
        ),
    }
}

/// The windows grouped into buttons, in the order their keys first come up.
pub open spec fn grouped(seen: Seq<SeenView>, combine: bool) -> Seq<ButtonView>
    decreases seen.len(),
{
    if seen.len() == 0 {
        seq![]
    } else {
        placed(grouped(seen.drop_last(), combine), seen.last(), combine)
    }
}

/// The keys of a list of buttons.
pub open spec fn keys(v: Seq<ButtonView>) -> Seq<Seq<char>> {
    Seq::new(v.len(), |i: int| v[i].key)
}

/// The fresh buttons in the order of the old ones; new ones follow.
pub open spec fn reordered(old_keys: Seq<Seq<char>>, fresh: Seq<ButtonView>) -> Seq<ButtonView>
    decreases old_keys.len(),
{
    if old_keys.len() == 0 {
        fresh
    } else {
        match with_key(fresh, old_keys[0]) {
            Some(p) => seq![fresh[p]] + reordered(old_keys.skip(1), fresh.remove(p)),
            None => reordered(old_keys.skip(1), fresh),
        }
    }
}

/// The button of a pinned program that has no window.
pub open spec fn pin_button(pin: PinView) -> ButtonView {
    ButtonView {
        key: pin.exe,
        windows: seq![],
        title: pin.title,
        icon: pin.icon,
        rect: no_rect(),
        pinned_exe: Some(pin.exe),
    }
}

/// Which of the buttons belongs to a pinned program.
pub open spec fn of_pin(v: Seq<ButtonView>, exe: Seq<char>) -> Option<int> {
    first(v.len() as int, |i: int| alike(v[i].key, exe))
}

/// Pinned programs first, in pin order; each adopts its running button. The
/// other buttons follow in their own order.
pub open spec fn with_pins(pins: Seq<PinView>, v: Seq<ButtonView>) -> Seq<ButtonView>
    decreases pins.len(),
{
    if pins.len() == 0 {
        v
    } else {
        let pin = pins[0];
        match of_pin(v, pin.exe) {
            Some(p) => seq![ButtonView { pinned_exe: Some(pin.exe), ..v[p] }] + with_pins(
                pins.skip(1),
                v.remove(p),
            ),
            None => seq![pin_button(pin)] + with_pins(pins.skip(1), v),
        }
    }
}

/// The buttons for these windows and pins, given the buttons there were.
pub open spec fn arranged(
    old_keys: Seq<Seq<char>>,
    seen: Seq<SeenView>,
    pins: Seq<PinView>,
    combine: bool,
) -> Seq<ButtonView> {
    with_pins(pins, reordered(old_keys, grouped(seen, combine)))
}

fn window_key_text(hwnd: u64) -> (r: String)
    ensures
        r@ == window_key(hwnd),
{
    let mut s = "hwnd:0x".to_owned();
    s.append(hex_text(hwnd).as_str());
    s
}

fn empty_rect() -> (r: Rect)
    ensures
        r == no_rect(),
{
    Rect { left: 0, top: 0, right: 0, bottom: 0 }
}

/// The first button with this key.
fn find_key(v: &Vec<TaskButton>, key: &str) -> (r: Option<usize>)
    ensures
        match r {
            Some(i) => i < v.len() && with_key(button_views(v@), key@) == Some(i as int),
            None => with_key(button_views(v@), key@) is None,
        },
{
    let ghost b = button_views(v@);
    let ghost p = |i: int| b[i].key == key@;
    let mut i: usize = 0;
    while i < v.len()
        invariant
            i <= v.len(),
            b == button_views(v@),
            p == (|i: int| b[i].key == key@),
            first(b.len() as int, p) == first_from(i as int, b.len() as int, p),
        decreases v.len() - i,
    {
        if same_str(v[i].key.as_str(), key) {
            assert(p(i as int));
            return Some(i);
        }
        assert(!p(i as int));
        i = i + 1;
    }
    None
}

/// The first button whose key is `exe`, whatever the case.
fn find_pin(v: &Vec<TaskButton>, exe: &str) -> (r: Option<usize>)
    ensures
        match r {
            Some(i) => i < v.len() && of_pin(button_views(v@), exe@) == Some(i as int),
            None => of_pin(button_views(v@), exe@) is None,
        },
{
    let wanted = chars_of(exe);
    let ghost b = button_views(v@);
    let ghost p = |i: int| alike(b[i].key, exe@);
    let mut i: usize = 0;
    while i < v.len()
        invariant
            i <= v.len(),
            wanted@ == exe@,
            b == button_views(v@),
            p == (|i: int| alike(b[i].key, exe@)),
            first(b.len() as int, p) == first_from(i as int, b.len() as int, p),
        decreases v.len() - i,
    {
        let key = chars_of(v[i].key.as_str());
        if eq_ignore_case(&key, &wanted) {
            assert(p(i as int));
            return Some(i);
        }
        assert(!p(i as int));
        i = i + 1;
    }
    None
}

/// Group the windows by owning exe. Without combining, every window gets its own
/// button.
fn group_windows(seen: &Vec<Seen>, combine: bool) -> (r: Vec<TaskButton>)
    ensures
        button_views(r@) == grouped(seen_views(seen@), combine),
{
    let mut fresh: Vec<TaskButton> = Vec::new();
    let ghost all = seen_views(seen@);
    let mut i: usize = 0;
    assert(all.take(0) =~= seq![]);
    assert(button_views(fresh@) =~= seq![]);
    while i < seen.len()
        invariant
            i <= seen.len(),
            all == seen_views(seen@),
            button_views(fresh@) == grouped(all.take(i as int), combine),
        decreases seen.len() - i,
    {
        let w = &seen[i];
        let ghost before = button_views(fresh@);
        assert(all[i as int] == w@);
        assert(all.take(i as int + 1).drop_last() =~= all.take(i as int));
        let key = match &w.exe {
            Some(exe) => {
                if combine {
                    exe.clone()
                } else {
                    window_key_text(w.hwnd)
                }
            },
            None => window_key_text(w.hwnd),
        };
        assert(key@ == key_of(w@, combine));
        match find_key(&fresh, key.as_str()) {
            Some(k) => {
                let mut b = fresh.remove(k);
                b.windows.push(w.hwnd);
                fresh.insert(k, b);
                assert(button_views(fresh@) =~= placed(before, w@, combine));
            },
            None => {
                let icon = match w.icon {
                    Some(h) => Some(h),
                    None => match &w.exe {
                        Some(_) => w.exe_icon,
                        None => None,
                    },
                };
                let mut windows: Vec<u64> = Vec::new();
                windows.push(w.hwnd);
                assert(windows@ =~= seq![w.hwnd]);
                fresh.push(
                    TaskButton {
                        key,
                        windows,
                        title: w.title.clone(),
                        icon,
                        rect: empty_rect(),
                        pinned_exe: None,
                    },
                );
                assert(button_views(fresh@) =~= placed(before, w@, combine));
            },
        }
        i = i + 1;
    }
    assert(all.take(i as int) =~= all);
    fresh
}

/// Keep button order stable: surviving buttons stay where they were, new ones
/// append at the end.
fn keep_order(old_buttons: &Vec<TaskButton>, fresh: Vec<TaskButton>) -> (r: Vec<TaskButton>)
    ensures
        button_views(r@) == reordered(keys(button_views(old_buttons@)), button_views(fresh@)),
{
    let mut fresh = fresh;
    let mut out: Vec<TaskButton> = Vec::new();
    let ghost names = keys(button_views(old_buttons@));
    let ghost wanted = reordered(names, button_views(fresh@));
    let mut i: usize = 0;
    assert(names.skip(0) =~= names);
    assert(button_views(out@) + wanted =~= wanted);
    while i < old_buttons.len()
        invariant
            i <= old_buttons.len(),
            names == keys(button_views(old_buttons@)),
            button_views(out@) + reordered(names.skip(i as int), button_views(fresh@)) == wanted,
        decreases old_buttons.len() - i,
    {
        let ghost rest = names.skip(i as int);
        let ghost done = button_views(out@);
        let ghost had = button_views(fresh@);
        assert(rest[0] == old_buttons@[i as int].key@);
        assert(rest.skip(1) =~= names.skip(i + 1));
        match find_key(&fresh, old_buttons[i].key.as_str()) {
            Some(p) => {
                let b = fresh.remove(p);
                out.push(b);
                assert(button_views(fresh@) =~= had.remove(p as int));
                assert(button_views(out@) =~= done.push(had[p as int]));
                assert(done + (seq![had[p as int]] + reordered(rest.skip(1), had.remove(p as int)))
                    =~= done.push(had[p as int]) + reordered(rest.skip(1), had.remove(p as int)));
            },
            None => {},
        }
        i = i + 1;
    }
    assert(names.skip(i as int) =~= seq![]);
    let ghost done = button_views(out@);
    let ghost left = button_views(fresh@);
    out.append(&mut fresh);
    assert(button_views(out@) =~= done + left);
    out
}

/// Put the pinned programs first, in pin order: a running app adopts its pinned
/// slot, and a pin with no open window becomes a launch button.
fn put_pins(pins: &Vec<Pin>, buttons: Vec<TaskButton>) -> (r: Vec<TaskButton>)
    ensures
        button_views(r@) == with_pins(pin_views(pins@), button_views(buttons@)),
{
    let mut slots = buttons;
    let mut out: Vec<TaskButton> = Vec::new();
    let ghost all = pin_views(pins@);
    let ghost wanted = with_pins(all, button_views(slots@));
    let mut i: usize = 0;
    assert(all.skip(0) =~= all);
    assert(button_views(out@) + wanted =~= wanted);
    while i < pins.len()
        invariant
            i <= pins.len(),
            all == pin_views(pins@),
            button_views(out@) + with_pins(all.skip(i as int), button_views(slots@)) == wanted,
        decreases pins.len() - i,
    {
        let ghost rest = all.skip(i as int);
        let ghost done = button_views(out@);
        let ghost had = button_views(slots@);
        let pin = &pins[i];
        assert(rest[0] == pin@);
        assert(rest.skip(1) =~= all.skip(i + 1));
        match find_pin(&slots, pin.exe.as_str()) {
            Some(p) => {
                let mut b = slots.remove(p);
                b.pinned_exe = Some(pin.exe.clone());
                let ghost added = b@;
                out.push(b);
                assert(added == ButtonView { pinned_exe: Some(pin@.exe), ..had[p as int] });
                assert(button_views(slots@) =~= had.remove(p as int));
                assert(button_views(out@) =~= done.push(added));
                assert(done + (seq![added] + with_pins(rest.skip(1), had.remove(p as int)))
                    =~= done.push(added) + with_pins(rest.skip(1), had.remove(p as int)));
            },
            None => {
                let b = TaskButton {
                    key: pin.exe.clone(),
                    windows: Vec::new(),
                    title: pin.title.clone(),
                    icon: pin.icon,
                    rect: empty_rect(),
                    pinned_exe: Some(pin.exe.clone()),
                };
                let ghost added = b@;
                assert(b.windows@ =~= seq![]);
                out.push(b);
                assert(added == pin_button(pin@));
                assert(button_views(out@) =~= done.push(added));
                assert(done + (seq![added] + with_pins(rest.skip(1), had)) =~= done.push(added)
                    + with_pins(rest.skip(1), had));
            },
        }
        i = i + 1;
    }
    assert(all.skip(i as int) =~= seq![]);
    let ghost done = button_views(out@);
    let ghost left = button_views(slots@);
    out.append(&mut slots);
    assert(button_views(out@) =~= done + left);
    out
}

// ---------------------------------------------------------------------------
// Layout

pub open spec fn start_w(dpi: int) -> int {
    px(64, dpi)
}

/// Left edge of the clock.
pub open spec fn clock_left(width: int, dpi: int) -> int {
    width - px(86, dpi)
}

/// Left edge of the tray, with `n` icons right-to-left from the clock.
pub open spec fn tray_left(n: int, width: int, dpi: int) -> int {
    clock_left(width, dpi) - px(4, dpi) - n * px(TRAY_SLOT as int, dpi)
}

/// Rectangle of tray icon `i` out of `n`.
pub open spec fn tray_rect(i: int, n: int, width: int, height: int, dpi: int) -> Rect {
    let left = tray_left(n - i, width, dpi);
    rect(left, 0, left + px(TRAY_SLOT as int, dpi), height)
}

/// The start button, which may be part of a centred cluster.
pub open spec fn start_rect(x: int, height: int, dpi: int) -> Rect {
    rect(x, 0, x + start_w(dpi), height)
}

/// What a layout depends on: `n` buttons beside `trays` tray icons on a bar of
/// `width` by `height` pixels.
pub struct Bar {
    pub n: int,
    pub trays: int,
    pub width: int,
    pub height: int,
    pub dpi: int,
}

/// Room left for task buttons.
pub open spec fn room(b: Bar) -> int {
    max2(tray_left(b.trays, b.width, b.dpi) - px(8, b.dpi) - start_w(b.dpi) - px(4, b.dpi), 0)
}

/// The widest a button gets: the configured width with labels, else roughly
/// square.
pub open spec fn widest(c: ConfigView, b: Bar) -> int {
    if c.show_labels {
        px(c.button_max_width, b.dpi)
    } else {
        b.height + px(8, b.dpi)
    }
}

/// Width of one button with its gap.
pub open spec fn slot_w(c: ConfigView, b: Bar) -> int {
    if b.n > 0 {
        min2(room(b) / b.n, widest(c, b))
    } else {
        0
    }
}

/// Width of the start button and the task buttons together.
pub open spec fn cluster_w(c: ConfigView, b: Bar) -> int {
    start_w(b.dpi) + px(4, b.dpi) + b.n * slot_w(c, b)
}

/// Left edge of the start button: centred with the buttons as one cluster, but
/// never under the tray; or at the left edge.
pub open spec fn start_left(c: ConfigView, b: Bar) -> int {
    if c.center_taskbar {
        clamped(
            toward_zero(b.width - cluster_w(c, b), 2),
            px(4, b.dpi),
            max2(
                tray_left(b.trays, b.width, b.dpi) - px(4, b.dpi) - cluster_w(c, b),
                px(4, b.dpi),
            ),
        )
    } else {
        0
    }
}

/// Rectangle of button `i`.
pub open spec fn button_rect(c: ConfigView, b: Bar, i: int) -> Rect {
    let x = start_left(c, b) + start_w(b.dpi) + px(4, b.dpi) + slot_w(c, b) * i;
    rect(x, px(3, b.dpi), x + slot_w(c, b) - px(2, b.dpi), b.height - px(3, b.dpi))
}

/// The buttons with their rectangles.
pub open spec fn laid_out(c: ConfigView, b: Bar, v: Seq<ButtonView>) -> Seq<ButtonView> {
    Seq::new(v.len(), |i: int| ButtonView { rect: button_rect(c, b, i), ..v[i] })
}

/// The layout's sums fit the coordinate range.
pub open spec fn bar_fits(c: ConfigView, b: Bar) -> bool {
    &&& 0 <= b.dpi <= 32767
    &&& 0 <= b.width <= 0x1000_0000
    &&& 0 <= b.height <= 0x1000_0000
    &&& 0 <= b.n <= 0x1000_0000
    &&& 0 <= b.trays
    &&& b.trays * px(TRAY_SLOT as int, b.dpi) <= 0x1000_0000
    &&& c.show_labels ==> {
        &&& fits_i32(c.button_max_width * b.dpi)
        &&& -0x0800_0000 <= b.n * px(c.button_max_width, b.dpi)
        &&& -0x0800_0000 <= px(c.button_max_width, b.dpi)
    }
}

/// Bounds of the layout's numbers, by which its sums fit.
proof fn lemma_layout(c: ConfigView, b: Bar)
    requires
        bar_fits(c, b),
    ensures
        0 <= room(b) <= 0x1000_0000,
        b.n > 0 ==> 0 <= room(b) / b.n <= room(b),
        -0x0800_0000 <= b.n * slot_w(c, b) <= room(b),
        -0x0800_0000 <= slot_w(c, b) <= 0x1000_0000,
        -0x2000_0000 <= tray_left(b.trays, b.width, b.dpi) <= 0x1000_0000,
        forall|i: int|
            0 <= i < b.n ==> -0x0800_0000 <= #[trigger] (slot_w(c, b) * i) <= 0x1000_0000,
{
    lemma_px(64, b.dpi);
    lemma_px(86, b.dpi);
    lemma_px(4, b.dpi);
    lemma_px(8, b.dpi);
    lemma_px(TRAY_SLOT as int, b.dpi);
    let n = b.n;
    let t = b.trays;
    let s = px(TRAY_SLOT as int, b.dpi);
    assert(0 <= t * s) by (nonlinear_arith)
        requires
            0 <= t,
            0 <= s,
    ;
    let w = slot_w(c, b);
    if n > 0 {
        let r = room(b);
        let q = r / n;
        assert(0 <= q <= r && n * q <= r) by (nonlinear_arith)
            requires
                n > 0,
                r >= 0,
                q == r / n,
        ;
        if w >= 0 {
            assert(0 <= n * w <= n * q) by (nonlinear_arith)
                requires
                    0 <= w <= q,
                    n > 0,
            ;
        } else {
            assert(n * w <= 0) by (nonlinear_arith)
                requires
                    w < 0,
                    n > 0,
            ;
        }
        assert forall|i: int| 0 <= i < n implies -0x0800_0000 <= #[trigger] (w * i)
            <= 0x1000_0000 by {
            if w >= 0 {
                assert(0 <= w * i <= n * w) by (nonlinear_arith)
                    requires
                        0 <= w,
                        0 <= i < n,
                ;
            } else {
                assert(n * w <= w * i <= 0) by (nonlinear_arith)
                    requires
                        w < 0,
                        0 <= i < n,
                ;
            }
        }
    } else {
        assert(n * w == 0) by (nonlinear_arith)
            requires
                n == 0,
        ;
    }
}

/// What fits with many buttons fits with fewer.
proof fn lemma_fits_fewer(c: ConfigView, b: Bar, n: int)
    requires
        bar_fits(c, b),
        0 <= n <= b.n,
    ensures
        bar_fits(c, Bar { n, ..b }),
{
    let p = px(c.button_max_width, b.dpi);
    let m = b.n;
    if p < 0 {
        assert(m * p <= n * p) by (nonlinear_arith)
            requires
                p < 0,
                n <= m,
        ;
    } else {
        assert(0 <= n * p) by (nonlinear_arith)
            requires
                p >= 0,
                n >= 0,
        ;
    }
}

pub fn start_width(dpi: i32) -> (r: i32)
    requires
        valid_dpi(dpi),
    ensures
        r == start_w(dpi as int),
        0 <= r <= 21888,
{
    scaled(64, dpi)
}

pub fn start_rect_at(x: i32, height: i32, dpi: i32) -> (r: Rect)
    requires
        valid_dpi(dpi),
        near(x as int),
    ensures
        r == start_rect(x as int, height as int, dpi as int),
        r.left == x,
        r.right == x + start_w(dpi as int),
        0 <= r.right - r.left <= 21888,
{
    Rect { left: x, top: 0, right: x + start_width(dpi), bottom: height }
}

pub fn clock_rect(width: i32, height: i32, dpi: i32) -> (r: Rect)
    requires
        valid_dpi(dpi),
        near(width as int),
    ensures
        r == rect(clock_left(width as int, dpi as int), 0, width as int, height as int),
        r.left == clock_left(width as int, dpi as int),
        width - 29412 <= r.left <= width,
{
    Rect { left: width - scaled(86, dpi), top: 0, right: width, bottom: height }
}

/// Left edge of the tray area of `n` icons.
pub fn tray_area_left(n: usize, width: i32, height: i32, dpi: i32) -> (r: i32)
    requires
        valid_dpi(dpi),
        0 <= width <= 0x1000_0000,
        n * px(TRAY_SLOT as int, dpi as int) <= 0x1000_0000,
        n <= i32::MAX,
    ensures
        r == tray_left(n as int, width as int, dpi as int),
        -0x2000_0000 <= r <= width,
{
    let slot: i32 = scaled(TRAY_SLOT, dpi);
    assert(0 <= n * slot) by (nonlinear_arith)
        requires
            0 <= slot,
    ;
    clock_rect(width, height, dpi).left - scaled(4, dpi) - n as i32 * slot
}

/// Rect of tray icon `i` out of `n`, laid out right-to-left from the clock.
pub fn tray_icon_rect(i: usize, n: usize, width: i32, height: i32, dpi: i32) -> (r: Rect)
    requires
        valid_dpi(dpi),
        0 <= width <= 0x1000_0000,
        i < n <= i32::MAX,
        n * px(TRAY_SLOT as int, dpi as int) <= 0x1000_0000,
    ensures
        r == tray_rect(i as int, n as int, width as int, height as int, dpi as int),
        r.left == tray_left(n - i, width as int, dpi as int),
        r.right == r.left + px(TRAY_SLOT as int, dpi as int),
        -0x2000_0000 <= r.left <= r.right <= 0x1000_2100,
{
    let slot: i32 = scaled(TRAY_SLOT, dpi);
    assert(0 <= (n - i) * slot <= n * slot) by (nonlinear_arith)
        requires
            0 <= slot,
            0 <= i < n,
    ;
    let left: i32 = tray_area_left(n - i, width, height, dpi);
    Rect { left, top: 0, right: left + slot, bottom: height }
}

/// The taskbar's state.
pub struct Taskbar {
    pub hwnd: u64,
    pub cfg: Config,
    /// Left edge of the start button (cluster may be centered).
    pub start_x: i32,
    pub buttons: Vec<TaskButton>,
    /// The visible tray icons, drawn left of the clock. 0 is an icon not drawn.
    pub tray_icons: Vec<u64>,
    pub hover: Hit,
    pub pressed: Hit,
    pub tracking_mouse: bool,
}

impl Taskbar {
    /// The size its layout is for.
    pub open spec fn bar(&self, width: int, height: int, dpi: int) -> Bar {
        Bar { n: self.buttons@.len() as int, trays: self.tray_icons@.len() as int, width, height, dpi }
    }

    /// Its rectangles are far from the ends of the coordinate range, as every
    /// refresh leaves them.
    pub open spec fn wf(&self) -> bool {
        &&& near(self.start_x as int)
        &&& forall|i: int| 0 <= i < self.buttons@.len() ==> (#[trigger] self.buttons@[i]).rect.near()
    }

    /// The tray fits a bar of this width.
    pub open spec fn tray_fits(&self, width: int, dpi: int) -> bool {
        &&& 0 <= width <= 0x1000_0000
        &&& 0 <= dpi <= 32767
        &&& self.tray_icons@.len() <= i32::MAX
        &&& self.tray_icons@.len() * px(TRAY_SLOT as int, dpi) <= 0x1000_0000
    }

    /// A taskbar before its first refresh.
    pub fn create(cfg: Config, hwnd: u64) -> (r: Taskbar)
        ensures
            r.hwnd == hwnd,
            r.cfg@ == cfg@,
            r.start_x == 0,
            r.buttons@.len() == 0,
            r.tray_icons@.len() == 0,
            r.hover == Hit::Nothing,
            r.pressed == Hit::Nothing,
            !r.tracking_mouse,
            r.wf(),
    {
        Taskbar {
            hwnd,
            cfg,
            start_x: 0,
            buttons: Vec::new(),
            tray_icons: Vec::new(),
            hover: Hit::Nothing,
            pressed: Hit::Nothing,
            tracking_mouse: false,
        }
    }

    /// Take the windows, pins and tray icons there are now, and lay the buttons
    /// out on a bar of `width` by `height` pixels.
    pub fn refresh_buttons(
        &mut self,
        seen: &Vec<Seen>,
        pins: &Vec<Pin>,
        tray_icons: Vec<u64>,
        width: i32,
        height: i32,
        dpi: i32,
    )
        requires
            bar_fits(
                old(self).cfg@,
                (Bar {
                    n: (seen@.len() + pins@.len()) as int,
                    trays: tray_icons@.len() as int,
                    width: width as int,
                    height: height as int,
                    dpi: dpi as int,
                }),
            ),
            tray_icons@.len() <= i32::MAX,
        ensures
            ({
                let v = arranged(
                    keys(button_views(old(self).buttons@)),
                    seen_views(seen@),
                    pin_views(pins@),
                    old(self).cfg.combine,
                );
                let b = final(self).bar(width as int, height as int, dpi as int);
                &&& button_views(final(self).buttons@) == laid_out(old(self).cfg@, b, v)
                &&& final(self).start_x == start_left(old(self).cfg@, b)
            }),
            final(self).tray_icons@ == tray_icons@,
            final(self).cfg == old(self).cfg,
            final(self).hwnd == old(self).hwnd,
            final(self).hover == old(self).hover,
            final(self).pressed == old(self).pressed,
            final(self).tracking_mouse == old(self).tracking_mouse,
            final(self).wf(),
    {
        let fresh = group_windows(seen, self.cfg.combine);
        proof {
            lemma_grouped_len(seen_views(seen@), self.cfg.combine);
            lemma_reordered_len(keys(button_views(self.buttons@)), button_views(fresh@));
        }
        let buttons = keep_order(&self.buttons, fresh);
        proof {
            lemma_with_pins_len(pin_views(pins@), button_views(buttons@));
        }
        let mut buttons = put_pins(pins, buttons);
        let ghost v = button_views(buttons@);
        let ghost c = self.cfg@;
        proof {
            lemma_fits_fewer(
                c,
                Bar {
                    n: (seen@.len() + pins@.len()) as int,
                    trays: tray_icons@.len() as int,
                    width: width as int,
                    height: height as int,
                    dpi: dpi as int,
                },
                buttons@.len() as int,
            );
        }
        let n: i32 = buttons.len() as i32;
        let ghost b = Bar {
            n: n as int,
            trays: tray_icons@.len() as int,
            width: width as int,
            height: height as int,
            dpi: dpi as int,
        };
        proof {
            lemma_layout(c, b);
            lemma_px(0, dpi as int);
        }
        let right_bound: i32 = tray_area_left(tray_icons.len(), width, height, dpi);
        let avail: i32 = max_i32(
            right_bound - scaled(8, dpi) - start_width(dpi) - scaled(4, dpi),
            0,
        );
        let max_w: i32 = if self.cfg.show_labels {
            scaled(self.cfg.button_max_width, dpi)
        } else {
            height + scaled(8, dpi)
        };
        let bw: i32 = if n > 0 {
            min_i32(avail / n, max_w)
        } else {
            0
        };
        assert(bw == slot_w(c, b));
        let cluster: i32 = start_width(dpi) + scaled(4, dpi) + n * bw;
        let max_left: i32 = max_i32(right_bound - scaled(4, dpi) - cluster, scaled(4, dpi));
        self.start_x = if self.cfg.center_taskbar {
            clamp_i32((width - cluster) / 2, scaled(4, dpi), max_left)
        } else {
            0
        };
        let tasks_left: i32 = self.start_x + start_width(dpi) + scaled(4, dpi);
        let mut i: usize = 0;
        while i < buttons.len()
            invariant
                i <= buttons.len() == v.len() == n == b.n,
                bar_fits(c, b),
                valid_dpi(dpi),
                b.dpi == dpi,
                b.height == height,
                bw == slot_w(c, b),
                -0x0800_0000 <= bw <= 0x1000_0000,
                forall|k: int|
                    0 <= k < b.n ==> -0x0800_0000 <= #[trigger] (slot_w(c, b) * k) <= 0x1000_0000,
                tasks_left == start_left(c, b) + start_w(b.dpi) + px(4, b.dpi),
                0 <= tasks_left <= 0x1000_8000,
                forall|k: int|
                    0 <= k < i ==> (#[trigger] buttons@[k])@ == (ButtonView {
                        rect: button_rect(c, b, k),
                        ..v[k]
                    }) && buttons@[k].rect.near(),
                forall|k: int| i <= k < v.len() ==> (#[trigger] buttons@[k])@ == v[k],
            decreases buttons.len() - i,
        {
            assert(-0x0800_0000 <= slot_w(c, b) * (i as int) <= 0x1000_0000);
            let x: i32 = tasks_left + bw * i as i32;
            let mut one = buttons.remove(i);
            one.rect = Rect {
                left: x,
                top: scaled(3, dpi),
                right: x + bw - scaled(2, dpi),
                bottom: height - scaled(3, dpi),
            };
            assert(one.rect == button_rect(c, b, i as int));
            buttons.insert(i, one);
            i = i + 1;
        }
        assert(button_views(buttons@) =~= laid_out(c, b, v));
        self.buttons = buttons;
        self.tray_icons = tray_icons;
    }

    /// The part of the taskbar at a point.
    pub open spec fn hit(&self, x: int, y: int, width: int, height: int, dpi: int) -> Hit {
        if self.start_x <= x < self.start_x + start_w(dpi) {
            Hit::Start
        } else {
            match first(self.buttons@.len() as int, |i: int| self.buttons@[i].rect.has(x, y)) {
                Some(i) => Hit::Task(i as usize),
                None => {
                    let n = self.tray_icons@.len() as int;
                    match first(
                        n,
                        |i: int|
                            tray_left(n - i, width, dpi) <= x < tray_left(n - i, width, dpi) + px(
                                TRAY_SLOT as int,
                                dpi,
                            ),
                    ) {
                        Some(i) => Hit::TrayIcon(i as usize),
                        None => Hit::Nothing,
                    }
                },
            }
        }
    }

    pub fn hit_test(&self, x: i32, y: i32, width: i32, height: i32, dpi: i32) -> (r: Hit)
        requires
            self.wf(),
            self.tray_fits(width as int, dpi as int),
        ensures
            r == self.hit(x as int, y as int, width as int, height as int, dpi as int),
    {
        let sr = start_rect_at(self.start_x, height, dpi);
        if x >= sr.left && x < sr.right {
            return Hit::Start;
        }
        let ghost m = self.buttons@.len() as int;
        let ghost p = |i: int| self.buttons@[i].rect.has(x as int, y as int);
        let mut i: usize = 0;
        while i < self.buttons.len()
            invariant
                i <= self.buttons.len(),
                m == self.buttons@.len(),
                p == (|i: int| self.buttons@[i].rect.has(x as int, y as int)),
                first(m, p) == first_from(i as int, m, p),
                !(self.start_x <= x < self.start_x + start_w(dpi as int)),
            decreases self.buttons.len() - i,
        {
            if self.buttons[i].rect.contains(x, y) {
                assert(p(i as int));
                return Hit::Task(i);
            }
            assert(!p(i as int));
            i = i + 1;
        }
        assert(first(m, p) is None);
        let n: usize = self.tray_icons.len();
        let ghost d = dpi as int;
        let ghost w = width as int;
        let ghost q = |i: int|
            tray_left(n - i, w, d) <= (x as int) < tray_left(n - i, w, d) + px(TRAY_SLOT as int, d);
        let mut k: usize = 0;
        while k < n
            invariant
                k <= n == self.tray_icons@.len(),
                d == dpi,
                w == width,
                self.tray_fits(w, d),
                m == self.buttons@.len(),
                p == (|i: int| self.buttons@[i].rect.has(x as int, y as int)),
                first(m, p) is None,
                !(self.start_x <= x < self.start_x + start_w(d)),
                q == (|i: int|
                    tray_left(n - i, w, d) <= (x as int) < tray_left(n - i, w, d) + px(
                        TRAY_SLOT as int,
                        d,
                    )),
                first(n as int, q) == first_from(k as int, n as int, q),
            decreases n - k,
        {
            let r = tray_icon_rect(k, n, width, height, dpi);
            proof {
                lemma_tray_edges(k as int, n as int, w, d);
            }
            if x >= r.left && x < r.right {
                assert(q(k as int));
                return Hit::TrayIcon(k);
            }
            assert(!q(k as int));
            k = k + 1;
        }
        Hit::Nothing
    }
}

/// The edges of a tray icon are numbers that a rectangle can hold.
proof fn lemma_tray_edges(i: int, n: int, width: int, dpi: int)
    requires
        0 <= i < n,
        0 <= width <= 0x1000_0000,
        0 <= dpi <= 32767,
        n * px(TRAY_SLOT as int, dpi) <= 0x1000_0000,
    ensures
        fits_i32(tray_left(n - i, width, dpi)),
        fits_i32(tray_left(n - i, width, dpi) + px(TRAY_SLOT as int, dpi)),
{
    lemma_px(86, dpi);
    lemma_px(4, dpi);
    lemma_px(TRAY_SLOT as int, dpi);
    let s = px(TRAY_SLOT as int, dpi);
    assert(0 <= (n - i) * s <= n * s) by (nonlinear_arith)
        requires
            0 <= i < n,
            0 <= s,
    ;
}

proof fn lemma_grouped_len(seen: Seq<SeenView>, combine: bool)
    ensures
        grouped(seen, combine).len() <= seen.len(),
    decreases seen.len(),
{
    if seen.len() > 0 {
        let v = grouped(seen.drop_last(), combine);
        let key = key_of(seen.last(), combine);
        lemma_grouped_len(seen.drop_last(), combine);
        lemma_first_from(0, v.len() as int, |i: int| v[i].key == key);
    }
}

proof fn lemma_reordered_len(names: Seq<Seq<char>>, fresh: Seq<ButtonView>)
    ensures
        reordered(names, fresh).len() == fresh.len(),
    decreases names.len(),
{
    if names.len() > 0 {
        lemma_first_from(0, fresh.len() as int, |i: int| fresh[i].key == names[0]);
        match with_key(fresh, names[0]) {
            Some(p) => lemma_reordered_len(names.skip(1), fresh.remove(p)),
            None => lemma_reordered_len(names.skip(1), fresh),
        }
    }
}

proof fn lemma_with_pins_len(pins: Seq<PinView>, v: Seq<ButtonView>)
    ensures
        with_pins(pins, v).len() <= pins.len() + v.len(),
        with_pins(pins, v).len() >= pins.len(),
    decreases pins.len(),
{
    if pins.len() > 0 {
        let pin = pins[0];
        lemma_first_from(0, v.len() as int, |i: int| alike(v[i].key, pin.exe));
        match of_pin(v, pin.exe) {
            Some(p) => lemma_with_pins_len(pins.skip(1), v.remove(p)),
            None => lemma_with_pins_len(pins.skip(1), v),
        }
    }
}

// ---------------------------------------------------------------------------
// Laws of the buttons

/// Every window on the buttons, as often as it is there.
pub open spec fn windows_on(v: Seq<ButtonView>) -> Multiset<u64>
    decreases v.len(),
{
    if v.len() == 0 {
        Multiset::empty()
    } else {
        windows_on(v.drop_last()).add(v.last().windows.to_multiset())
    }
}

/// The windows of a list.
pub open spec fn windows_of(seen: Seq<SeenView>) -> Seq<u64> {
    Seq::new(seen.len(), |i: int| seen[i].hwnd)
}

proof fn lemma_windows_update(v: Seq<ButtonView>, p: int, b: ButtonView)
    requires
        0 <= p < v.len(),
    ensures
        windows_on(v.update(p, b)).add(v[p].windows.to_multiset()) == windows_on(v).add(
            b.windows.to_multiset(),
        ),
    decreases v.len(),
{
    let w = v.update(p, b);
    if p == v.len() - 1 {
        assert(w.drop_last() =~= v.drop_last());
        assert(windows_on(w).add(v[p].windows.to_multiset()) =~= windows_on(v).add(
            b.windows.to_multiset(),
        ));
    } else {
        lemma_windows_update(v.drop_last(), p, b);
        assert(w.drop_last() =~= v.drop_last().update(p, b));
        let a = windows_on(w.drop_last());
        let c = windows_on(v.drop_last());
        let last = v.last().windows.to_multiset();
        assert(a.add(last).add(v[p].windows.to_multiset()) =~= a.add(
            v[p].windows.to_multiset(),
        ).add(last));
        assert(c.add(last).add(b.windows.to_multiset()) =~= c.add(b.windows.to_multiset()).add(
            last,
        ));
    }
}

proof fn lemma_windows_remove(v: Seq<ButtonView>, p: int)
    requires
        0 <= p < v.len(),
    ensures
        windows_on(v.remove(p)).add(v[p].windows.to_multiset()) == windows_on(v),
    decreases v.len(),
{
    let w = v.remove(p);
    if p == v.len() - 1 {
        assert(w =~= v.drop_last());
    } else {
        lemma_windows_remove(v.drop_last(), p);
        assert(w.drop_last() =~= v.drop_last().remove(p));
        assert(w.last() == v.last());
        assert(windows_on(w).add(v[p].windows.to_multiset()) =~= windows_on(
            v.drop_last().remove(p),
        ).add(v[p].windows.to_multiset()).add(v.last().windows.to_multiset()));
    }
}

proof fn lemma_windows_front(b: ButtonView, v: Seq<ButtonView>)
    ensures
        windows_on(seq![b] + v) == windows_on(v).add(b.windows.to_multiset()),
    decreases v.len(),
{
    let w = seq![b] + v;
    if v.len() == 0 {
        assert(w.drop_last() =~= seq![]);
        assert(w.last() == b);
        assert(windows_on(w.drop_last()) =~= windows_on(v));
        assert(windows_on(w) =~= windows_on(v).add(b.windows.to_multiset()));
    } else {
        lemma_windows_front(b, v.drop_last());
        assert(w.drop_last() =~= seq![b] + v.drop_last());
        assert(w.last() == v.last());
        assert(windows_on(w) =~= windows_on(v).add(b.windows.to_multiset()));
    }
}

proof fn lemma_windows_grouped(seen: Seq<SeenView>, combine: bool)
    ensures
        windows_on(grouped(seen, combine)) == windows_of(seen).to_multiset(),
    decreases seen.len(),
{
    broadcast use vstd::seq_lib::group_to_multiset_ensures;

    if seen.len() == 0 {
        assert(windows_of(seen) =~= seq![]);
        assert(windows_on(grouped(seen, combine)) =~= windows_of(seen).to_multiset());
    } else {
        let v = grouped(seen.drop_last(), combine);
        let w = seen.last();
        let key = key_of(w, combine);
        lemma_windows_grouped(seen.drop_last(), combine);
        lemma_first_from(0, v.len() as int, |i: int| v[i].key == key);
        assert(windows_of(seen) =~= windows_of(seen.drop_last()).push(w.hwnd));
        let one = windows_of(seen.drop_last()).to_multiset();
        assert(windows_of(seen).to_multiset() == one.insert(w.hwnd));
        match with_key(v, key) {
            Some(i) => {
                let b = ButtonView { windows: v[i].windows.push(w.hwnd), ..v[i] };
                lemma_windows_update(v, i, b);
                let m = v[i].windows.to_multiset();
                assert(b.windows.to_multiset() == m.insert(w.hwnd));
                let r = windows_on(v.update(i, b));
                assert(r.add(m) == one.add(m.insert(w.hwnd)));
                assert forall|x: u64| r.count(x) == one.insert(w.hwnd).count(x) by {
                    assert(r.add(m).count(x) == one.add(m.insert(w.hwnd)).count(x));
                }
                assert(r =~= one.insert(w.hwnd));
            },
            None => {
                let b = placed(v, w, combine).last();
                assert(placed(v, w, combine).drop_last() =~= v);
                assert(seq![w.hwnd] =~= Seq::<u64>::empty().push(w.hwnd));
                assert(b.windows.to_multiset() =~= Multiset::singleton(w.hwnd));
                assert(windows_on(placed(v, w, combine)) =~= one.insert(w.hwnd));
            },
        }
    }
}

proof fn lemma_windows_reordered(names: Seq<Seq<char>>, fresh: Seq<ButtonView>)
    ensures
        windows_on(reordered(names, fresh)) == windows_on(fresh),
    decreases names.len(),
{
    if names.len() > 0 {
        lemma_first_from(0, fresh.len() as int, |i: int| fresh[i].key == names[0]);
        match with_key(fresh, names[0]) {
            Some(p) => {
                lemma_windows_reordered(names.skip(1), fresh.remove(p));
                lemma_windows_remove(fresh, p);
                lemma_windows_front(fresh[p], reordered(names.skip(1), fresh.remove(p)));
            },
            None => lemma_windows_reordered(names.skip(1), fresh),
        }
    }
}

proof fn lemma_windows_pins(pins: Seq<PinView>, v: Seq<ButtonView>)
    ensures
        windows_on(with_pins(pins, v)) == windows_on(v),
    decreases pins.len(),
{
    broadcast use vstd::seq_lib::group_to_multiset_ensures;

    if pins.len() > 0 {
        let pin = pins[0];
        lemma_first_from(0, v.len() as int, |i: int| alike(v[i].key, pin.exe));
        match of_pin(v, pin.exe) {
            Some(p) => {
                let b = ButtonView { pinned_exe: Some(pin.exe), ..v[p] };
                lemma_windows_pins(pins.skip(1), v.remove(p));
                lemma_windows_remove(v, p);
                lemma_windows_front(b, with_pins(pins.skip(1), v.remove(p)));
            },
            None => {
                lemma_windows_pins(pins.skip(1), v);
                lemma_windows_front(pin_button(pin), with_pins(pins.skip(1), v));
                assert(pin_button(pin).windows.to_multiset() =~= Multiset::<u64>::empty());
                assert(windows_on(v).add(Multiset::empty()) =~= windows_on(v));
            },
        }
    }
}

/// Every task window is on the buttons exactly as often as it was listed: none
/// is lost, none is shown twice, whatever was pinned or shown before.
pub proof fn every_window_has_its_button(
    old_keys: Seq<Seq<char>>,
    seen: Seq<SeenView>,
    pins: Seq<PinView>,
    combine: bool,
)
    ensures
        windows_on(arranged(old_keys, seen, pins, combine)) == windows_of(seen).to_multiset(),
{
    lemma_windows_grouped(seen, combine);
    lemma_windows_reordered(old_keys, grouped(seen, combine));
    lemma_windows_pins(pins, reordered(old_keys, grouped(seen, combine)));
}

/// Windows of one key share one button: no two buttons have the same key.
pub proof fn one_button_per_key(seen: Seq<SeenView>, combine: bool)
    ensures
        keys(grouped(seen, combine)).no_duplicates(),
    decreases seen.len(),
{
    if seen.len() > 0 {
        let v = grouped(seen.drop_last(), combine);
        let key = key_of(seen.last(), combine);
        one_button_per_key(seen.drop_last(), combine);
        let p = |i: int| v[i].key == key;
        lemma_first_from(0, v.len() as int, p);
        match with_key(v, key) {
            Some(i) => {
                assert(keys(placed(v, seen.last(), combine)) =~= keys(v));
            },
            None => {
                assert forall|i: int| 0 <= i < v.len() implies keys(v)[i] != key by {
                    assert(!p(i));
                }
                assert(keys(placed(v, seen.last(), combine)) =~= keys(v).push(key));
            },
        }
    }
}

proof fn lemma_removed(s: Seq<Seq<char>>, p: int, k: Seq<char>)
    requires
        s.no_duplicates(),
        0 <= p < s.len(),
    ensures
        s.remove(p).no_duplicates(),
        s.remove(p).contains(k) <==> s.contains(k) && k != s[p],
{
    let r = s.remove(p);
    if s.contains(k) && k != s[p] {
        let i = choose|i: int| 0 <= i < s.len() && s[i] == k;
        let t = if i < p {
            i
        } else {
            i - 1
        };
        assert(r[t] == k);
    }
    if r.contains(k) {
        let i = choose|i: int| 0 <= i < r.len() && r[i] == k;
        let t = if i < p {
            i
        } else {
            i + 1
        };
        assert(s[t] == k);
    }
}

/// While the same applications have windows, their buttons stay where they are,
/// in whatever order the system lists the windows.
pub proof fn order_is_stable(names: Seq<Seq<char>>, fresh: Seq<ButtonView>)
    requires
        names.no_duplicates(),
        keys(fresh).no_duplicates(),
        forall|k: Seq<char>| names.contains(k) <==> #[trigger] keys(fresh).contains(k),
    ensures
        keys(reordered(names, fresh)) == names,
    decreases names.len(),
{
    let had = keys(fresh);
    if names.len() == 0 {
        if fresh.len() > 0 {
            assert(had[0] == fresh[0].key);
            assert(had.contains(had[0]));
            assert(names.contains(had[0]));
        }
        assert(keys(reordered(names, fresh)) =~= names);
    } else {
        let f = |i: int| fresh[i].key == names[0];
        lemma_first_from(0, fresh.len() as int, f);
        assert(names.contains(names[0]));
        assert(had.contains(names[0]));
        let j0 = choose|j: int| 0 <= j < had.len() && had[j] == names[0];
        assert(f(j0));
        let p = with_key(fresh, names[0])->0;
        let rest = names.skip(1);
        let left = fresh.remove(p);
        assert(rest =~= names.remove(0));
        assert(keys(left) =~= had.remove(p));
        lemma_removed(names, 0, names[0]);
        lemma_removed(had, p, names[0]);
        assert forall|k: Seq<char>| rest.contains(k) <==> #[trigger] keys(left).contains(k) by {
            lemma_removed(names, 0, k);
            lemma_removed(had, p, k);
            assert(names.contains(k) <==> had.contains(k));
        }
        order_is_stable(rest, left);
        let r = reordered(names, fresh);
        assert(r =~= seq![fresh[p]] + reordered(rest, left));
        assert(keys(r) =~= seq![names[0]] + keys(reordered(rest, left)));
        assert(keys(r) =~= names);
    }
}

/// Pinned programs have the first buttons, in pin order; a pin without a window
/// has one too. No other button is a pinned one.
pub proof fn pins_come_first(pins: Seq<PinView>, v: Seq<ButtonView>)
    requires
        forall|i: int| 0 <= i < v.len() ==> (#[trigger] v[i]).pinned_exe is None,
    ensures
        with_pins(pins, v).len() >= pins.len(),
        forall|i: int|
            0 <= i < pins.len() ==> (#[trigger] with_pins(pins, v)[i]).pinned_exe == Some(
                pins[i].exe,
            ),
        forall|i: int|
            pins.len() <= i < with_pins(pins, v).len() ==> (#[trigger] with_pins(
                pins,
                v,
            )[i]).pinned_exe is None,
    decreases pins.len(),
{
    if pins.len() > 0 {
        let pin = pins[0];
        lemma_first_from(0, v.len() as int, |i: int| alike(v[i].key, pin.exe));
        let rest = pins.skip(1);
        let left = match of_pin(v, pin.exe) {
            Some(p) => v.remove(p),
            None => v,
        };
        assert forall|i: int| 0 <= i < left.len() implies (#[trigger] left[i]).pinned_exe is None by {
            match of_pin(v, pin.exe) {
                Some(p) => {
                    let t = if i < p {
                        i
                    } else {
                        i + 1
                    };
                    assert(left[i] == v[t]);
                },
                None => {},
            }
        }
        pins_come_first(rest, left);
        let r = with_pins(pins, v);
        let tail = with_pins(rest, left);
        assert(r.len() == tail.len() + 1);
        assert forall|i: int| 0 <= i < pins.len() implies (#[trigger] r[i]).pinned_exe == Some(
            pins[i].exe,
        ) by {
            if i > 0 {
                assert(r[i] == tail[i - 1]);
                assert(rest[i - 1] == pins[i]);
            }
        }
        assert forall|i: int| pins.len() <= i < r.len() implies (#[trigger] r[i]).pinned_exe
            is None by {
            assert(r[i] == tail[i - 1]);
        }
    }
}

/// The windows of a key, in the order they were listed.
pub open spec fn windows_with(seen: Seq<SeenView>, combine: bool, key: Seq<char>) -> Seq<u64>
    decreases seen.len(),
{
    if seen.len() == 0 {
        seq![]
    } else if key_of(seen.last(), combine) == key {
        windows_with(seen.drop_last(), combine, key).push(seen.last().hwnd)
    } else {
        windows_with(seen.drop_last(), combine, key)
    }
}

/// The button with a key, or none.
proof fn lemma_with_key(v: Seq<ButtonView>, key: Seq<char>)
    ensures
        match with_key(v, key) {
            Some(k) => 0 <= k < v.len() && v[k].key == key,
            None => forall|j: int| 0 <= j < v.len() ==> (#[trigger] v[j]).key != key,
        },
{
    let p = |i: int| v[i].key == key;
    lemma_first_from(0, v.len() as int, p);
    if with_key(v, key) is None {
        assert forall|j: int| 0 <= j < v.len() implies (#[trigger] v[j]).key != key by {
            assert(!p(j));
        }
    }
}

/// A window's key has a button.
proof fn lemma_key_has_button(seen: Seq<SeenView>, combine: bool, j: int) -> (i: int)
    requires
        0 <= j < seen.len(),
    ensures
        0 <= i < grouped(seen, combine).len(),
        grouped(seen, combine)[i].key == key_of(seen[j], combine),
    decreases seen.len(),
{
    let before = grouped(seen.drop_last(), combine);
    let key = key_of(seen.last(), combine);
    lemma_with_key(before, key);
    if j == seen.len() - 1 {
        match with_key(before, key) {
            Some(p) => p,
            None => before.len() as int,
        }
    } else {
        assert(seen.drop_last()[j] == seen[j]);
        lemma_key_has_button(seen.drop_last(), combine, j)
    }
}

/// A button's key is that of some window.
proof fn lemma_button_has_key(seen: Seq<SeenView>, combine: bool, i: int) -> (j: int)
    requires
        0 <= i < grouped(seen, combine).len(),
    ensures
        0 <= j < seen.len(),
        grouped(seen, combine)[i].key == key_of(seen[j], combine),
    decreases seen.len(),
{
    let before = grouped(seen.drop_last(), combine);
    let key = key_of(seen.last(), combine);
    lemma_with_key(before, key);
    if i < before.len() {
        let j = lemma_button_has_key(seen.drop_last(), combine, i);
        assert(seen.drop_last()[j] == seen[j]);
        j
    } else {
        seen.len() - 1
    }
}

/// Where no button has a key, no window has it.
proof fn lemma_no_windows(seen: Seq<SeenView>, combine: bool, key: Seq<char>)
    requires
        forall|i: int|
            0 <= i < grouped(seen, combine).len() ==> (#[trigger] grouped(seen, combine)[i]).key
                != key,
    ensures
        windows_with(seen, combine, key).len() == 0,
    decreases seen.len(),
{
    if seen.len() > 0 {
        let last = seen.len() - 1;
        let i = lemma_key_has_button(seen, combine, last);
        let before = grouped(seen.drop_last(), combine);
        lemma_with_key(before, key_of(seen.last(), combine));
        assert forall|k: int| 0 <= k < before.len() implies (#[trigger] before[k]).key != key by {
            assert(grouped(seen, combine)[k].key == before[k].key);
        }
        lemma_no_windows(seen.drop_last(), combine, key);
    }
}

/// A button has all windows of its key, in order.
proof fn lemma_button_windows(seen: Seq<SeenView>, combine: bool, i: int)
    requires
        0 <= i < grouped(seen, combine).len(),
    ensures
        grouped(seen, combine)[i].windows == windows_with(
            seen,
            combine,
            grouped(seen, combine)[i].key,
        ),
    decreases seen.len(),
{
    let rest = seen.drop_last();
    let before = grouped(rest, combine);
    let w = seen.last();
    let key = key_of(w, combine);
    one_button_per_key(rest, combine);
    lemma_with_key(before, key);
    match with_key(before, key) {
        Some(p) => {
            lemma_button_windows(rest, combine, i);
            if i != p {
                assert(keys(before)[i] != keys(before)[p]);
            }
        },
        None => {
            if i < before.len() {
                lemma_button_windows(rest, combine, i);
            } else {
                lemma_no_windows(rest, combine, key);
                assert(windows_with(rest, combine, key).push(w.hwnd) =~= seq![w.hwnd]);
            }
        },
    }
}

/// Button `i` is `b`, and no other belongs to the program `exe`.
spec fn only_at(v: Seq<ButtonView>, i: int, b: ButtonView, exe: Seq<char>) -> bool {
    &&& 0 <= i < v.len()
    &&& v[i] == b
    &&& alike(b.key, exe)
    &&& forall|j: int| 0 <= j < v.len() && j != i ==> !alike((#[trigger] v[j]).key, exe)
}

spec fn none_like(v: Seq<ButtonView>, exe: Seq<char>) -> bool {
    forall|j: int| 0 <= j < v.len() ==> !alike((#[trigger] v[j]).key, exe)
}

proof fn lemma_none_removed(v: Seq<ButtonView>, p: int, exe: Seq<char>)
    requires
        0 <= p < v.len(),
        forall|j: int| 0 <= j < v.len() && j != p ==> !alike((#[trigger] v[j]).key, exe),
    ensures
        none_like(v.remove(p), exe),
{
    let r = v.remove(p);
    assert forall|j: int| 0 <= j < r.len() implies !alike((#[trigger] r[j]).key, exe) by {
        let t = if j < p {
            j
        } else {
            j + 1
        };
        assert(r[j] == v[t]);
    }
}

proof fn lemma_only_removed(v: Seq<ButtonView>, p: int, i: int, b: ButtonView, exe: Seq<char>)
    requires
        only_at(v, i, b, exe),
        0 <= p < v.len(),
        p != i,
    ensures
        only_at(
            v.remove(p),
            if i < p {
                i
            } else {
                i - 1
            },
            b,
            exe,
        ),
{
    let r = v.remove(p);
    assert forall|j: int|
        0 <= j < r.len() && j != (if i < p {
            i
        } else {
            i - 1
        }) implies !alike((#[trigger] r[j]).key, exe) by {
        let t = if j < p {
            j
        } else {
            j + 1
        };
        assert(r[j] == v[t]);
    }
}

proof fn lemma_reordered_none(old_keys: Seq<Seq<char>>, fresh: Seq<ButtonView>, exe: Seq<char>)
    requires
        none_like(fresh, exe),
    ensures
        none_like(reordered(old_keys, fresh), exe),
    decreases old_keys.len(),
{
    if old_keys.len() > 0 {
        lemma_with_key(fresh, old_keys[0]);
        match with_key(fresh, old_keys[0]) {
            Some(p) => {
                lemma_none_removed(fresh, p, exe);
                lemma_reordered_none(old_keys.skip(1), fresh.remove(p), exe);
            },
            None => lemma_reordered_none(old_keys.skip(1), fresh, exe),
        }
    }
}

proof fn lemma_reordered_only(
    old_keys: Seq<Seq<char>>,
    fresh: Seq<ButtonView>,
    i: int,
    b: ButtonView,
    exe: Seq<char>,
) -> (k: int)
    requires
        only_at(fresh, i, b, exe),
    ensures
        only_at(reordered(old_keys, fresh), k, b, exe),
    decreases old_keys.len(),
{
    if old_keys.len() == 0 {
        i
    } else {
        let rest = old_keys.skip(1);
        lemma_with_key(fresh, old_keys[0]);
        match with_key(fresh, old_keys[0]) {
            Some(p) => {
                let left = fresh.remove(p);
                let r = reordered(old_keys, fresh);
                let tail = reordered(rest, left);
                assert(forall|j: int| 0 < j < r.len() ==> #[trigger] r[j] == tail[j - 1]);
                if p == i {
                    lemma_none_removed(fresh, p, exe);
                    lemma_reordered_none(rest, left, exe);
                    0
                } else {
                    lemma_only_removed(fresh, p, i, b, exe);
                    let t = if i < p {
                        i
                    } else {
                        i - 1
                    };
                    let k = lemma_reordered_only(rest, left, t, b, exe);
                    assert(r[k + 1] == tail[k]);
                    assert(r[0] == fresh[p]);
                    k + 1
                }
            },
            None => lemma_reordered_only(rest, fresh, i, b, exe),
        }
    }
}

proof fn lemma_pin_adopts(pins: Seq<PinView>, v: Seq<ButtonView>, k: int, i: int, b: ButtonView)
    requires
        0 <= k < pins.len(),
        only_at(v, i, b, pins[k].exe),
        forall|m: int| 0 <= m < k ==> !alike((#[trigger] pins[m]).exe, pins[k].exe),
    ensures
        k < with_pins(pins, v).len(),
        with_pins(pins, v)[k] == (ButtonView { pinned_exe: Some(pins[k].exe), ..b }),
    decreases k,
{
    let exe = pins[0].exe;
    let p = |j: int| alike(v[j].key, exe);
    lemma_first_from(0, v.len() as int, p);
    let rest = pins.skip(1);
    if k == 0 {
        assert(p(i));
        let at = of_pin(v, exe)->0;
        assert(p(at));
        assert(at == i);
    } else {
        assert(rest[k - 1] == pins[k]);
        assert forall|m: int| 0 <= m < k - 1 implies !alike(
            (#[trigger] rest[m]).exe,
            rest[k - 1].exe,
        ) by {
            assert(rest[m] == pins[m + 1]);
        }
        assert(!alike(pins[0].exe, pins[k].exe));
        match of_pin(v, exe) {
            Some(at) => {
                assert(p(at));
                assert(at != i);
                lemma_only_removed(v, at, i, b, pins[k].exe);
                let t = if i < at {
                    i
                } else {
                    i - 1
                };
                lemma_pin_adopts(rest, v.remove(at), k - 1, t, b);
                assert(with_pins(pins, v)[k] == with_pins(rest, v.remove(at))[k - 1]);
            },
            None => {
                lemma_pin_adopts(rest, v, k - 1, i, b);
                assert(with_pins(pins, v)[k] == with_pins(rest, v)[k - 1]);
            },
        }
    }
}

/// All windows of a pinned program stand on its pin's button, in order, whatever was
/// shown before: `key` is the one spelling of its path under which its windows are
/// listed, `some` one of them, and no pin before it is of the same program.
pub proof fn a_pinned_program_has_one_button(
    old_keys: Seq<Seq<char>>,
    seen: Seq<SeenView>,
    pins: Seq<PinView>,
    combine: bool,
    k: int,
    key: Seq<char>,
    some: int,
)
    requires
        0 <= k < pins.len(),
        forall|m: int| 0 <= m < k ==> !alike((#[trigger] pins[m]).exe, pins[k].exe),
        alike(key, pins[k].exe),
        forall|j: int|
            0 <= j < seen.len() && alike(key_of(#[trigger] seen[j], combine), pins[k].exe)
                ==> key_of(seen[j], combine) == key,
        0 <= some < seen.len(),
        key_of(seen[some], combine) == key,
    ensures
        ({
            let v = arranged(old_keys, seen, pins, combine);
            &&& k < v.len()
            &&& v[k].key == key
            &&& v[k].pinned_exe == Some(pins[k].exe)
            &&& v[k].windows == windows_with(seen, combine, key)
        }),
{
    let exe = pins[k].exe;
    let g = grouped(seen, combine);
    let i = lemma_key_has_button(seen, combine, some);
    lemma_button_windows(seen, combine, i);
    one_button_per_key(seen, combine);
    assert forall|j: int| 0 <= j < g.len() && j != i implies !alike((#[trigger] g[j]).key, exe) by {
        let t = lemma_button_has_key(seen, combine, j);
        assert(keys(g)[i] != keys(g)[j]);
        if alike(g[j].key, exe) {
            assert(key_of(seen[t], combine) == key);
        }
    }
    let at = lemma_reordered_only(old_keys, g, i, g[i], exe);
    lemma_pin_adopts(pins, reordered(old_keys, g), k, at, g[i]);
}

proof fn lemma_slots(c: ConfigView, b: Bar, i: int, j: int)
    requires
        0 <= i < j,
        slot_w(c, b) >= 0,
    ensures
        slot_w(c, b) * i + slot_w(c, b) <= slot_w(c, b) * j,
{
    let w = slot_w(c, b);
    assert(w * i + w <= w * j) by (nonlinear_arith)
        requires
            w >= 0,
            0 <= i < j,
    ;
}

/// On a bar with room, every button stands right of the start button and ends
/// left of the tray.
pub proof fn a_button_stands_between_start_and_tray(c: ConfigView, b: Bar, i: int)
    requires
        bar_fits(c, b),
        0 <= i < b.n,
        widest(c, b) >= 0,
        tray_left(b.trays, b.width, b.dpi) >= px(8, b.dpi) + start_w(b.dpi) + px(4, b.dpi),
    ensures
        start_left(c, b) + start_w(b.dpi) <= button_rect(c, b, i).left,
        button_rect(c, b, i).right <= tray_left(b.trays, b.width, b.dpi),
{
    lemma_layout(c, b);
    lemma_px(64, b.dpi);
    lemma_px(2, b.dpi);
    lemma_px(4, b.dpi);
    lemma_px_sum(4, 4, b.dpi);
    let w = slot_w(c, b);
    let n = b.n;
    assert(room(b) / n >= 0) by (nonlinear_arith)
        requires
            room(b) >= 0,
            n > 0,
    ;
    assert(w >= 0);
    if i + 1 < n {
        lemma_slots(c, b, i, n - 1);
    }
    assert(w * (n - 1) + w == n * w) by (nonlinear_arith);
    assert(w * i >= 0) by (nonlinear_arith)
        requires
            w >= 0,
            0 <= i,
    ;
    assert(w * i <= 0x1000_0000);
}

/// On a bar with room, the buttons stand right of the start button and left of
/// the tray, one behind the other.
pub proof fn buttons_do_not_overlap(c: ConfigView, b: Bar, i: int, j: int)
    requires
        bar_fits(c, b),
        0 <= i < j < b.n,
        widest(c, b) >= 0,
        tray_left(b.trays, b.width, b.dpi) >= px(8, b.dpi) + start_w(b.dpi) + px(4, b.dpi),
    ensures
        start_left(c, b) + start_w(b.dpi) <= button_rect(c, b, i).left,
        button_rect(c, b, i).right <= button_rect(c, b, j).left,
        button_rect(c, b, j).right <= tray_left(b.trays, b.width, b.dpi),
{
    a_button_stands_between_start_and_tray(c, b, i);
    a_button_stands_between_start_and_tray(c, b, j);
    lemma_layout(c, b);
    lemma_px(64, b.dpi);
    lemma_px(2, b.dpi);
    lemma_px(4, b.dpi);
    let w = slot_w(c, b);
    assert(room(b) / b.n >= 0) by (nonlinear_arith)
        requires
            room(b) >= 0,
            b.n > 0,
    ;
    assert(w >= 0);
    lemma_slots(c, b, i, j);
    if j + 1 < b.n {
        lemma_slots(c, b, j, b.n - 1);
    }
    let n = b.n;
    assert(w * (n - 1) + w == n * w) by (nonlinear_arith);
    assert(w * i >= 0 && w * j >= 0) by (nonlinear_arith)
        requires
            w >= 0,
            0 <= i,
            0 <= j,
    ;
    assert(w * i <= 0x1000_0000 && w * j <= 0x1000_0000);
}

/// On a bar with room, a point on a button hits that button.
pub proof fn a_button_is_hit_inside_it(
    t: Taskbar,
    v: Seq<ButtonView>,
    i: int,
    x: int,
    y: int,
    width: int,
    height: int,
    dpi: int,
)
    requires
        ({
            let b = t.bar(width, height, dpi);
            let c = t.cfg@;
            &&& bar_fits(c, b)
            &&& button_views(t.buttons@) == laid_out(c, b, v)
            &&& t.start_x == start_left(c, b)
            &&& widest(c, b) >= 0
            &&& tray_left(b.trays, width, dpi) >= px(8, dpi) + start_w(dpi) + px(4, dpi)
        }),
        0 <= i < t.buttons@.len(),
        t.buttons@.len() <= usize::MAX,
        t.buttons@[i].rect.has(x, y),
    ensures
        t.hit(x, y, width, height, dpi) == Hit::Task(i as usize),
{
    let b = t.bar(width, height, dpi);
    let c = t.cfg@;
    let n = t.buttons@.len() as int;
    assert(button_views(t.buttons@).len() == n);
    assert(laid_out(c, b, v).len() == v.len());
    assert forall|k: int| 0 <= k < n implies (#[trigger] t.buttons@[k]).rect == button_rect(
        c,
        b,
        k,
    ) by {
        assert(button_views(t.buttons@)[k] == t.buttons@[k]@);
        assert(laid_out(c, b, v)[k].rect == button_rect(c, b, k));
    }
    lemma_left_of_buttons(c, b, i);
    let p = |i: int| t.buttons@[i].rect.has(x, y);
    assert(p(i));
    assert forall|j: int| 0 <= j < i implies !(#[trigger] p(j)) by {
        buttons_do_not_overlap(c, b, j, i);
        assert(t.buttons@[j].rect == button_rect(c, b, j));
        assert(t.buttons@[i].rect == button_rect(c, b, i));
    }
    crate::search::lemma_first_is(0, n, p, i);
}

proof fn lemma_left_of_buttons(c: ConfigView, b: Bar, i: int)
    requires
        bar_fits(c, b),
        0 <= i < b.n,
        widest(c, b) >= 0,
    ensures
        start_left(c, b) + start_w(b.dpi) <= button_rect(c, b, i).left,
{
    lemma_layout(c, b);
    lemma_px(64, b.dpi);
    lemma_px(4, b.dpi);
    let w = slot_w(c, b);
    assert(room(b) / b.n >= 0) by (nonlinear_arith)
        requires
            room(b) >= 0,
            b.n > 0,
    ;
    assert(w * i >= 0) by (nonlinear_arith)
        requires
            w >= 0,
            0 <= i,
    ;
    assert(w * i <= 0x1000_0000);
}

} // verus!
