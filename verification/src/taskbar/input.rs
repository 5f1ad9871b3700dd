//! What the taskbar does with the mouse, the Win key and its timers.

use vstd::prelude::*;
use vstd::string::*;
use crate::config::{Config, ConfigView};
use crate::geometry::{fits_i32, near, rect, Rect};
use crate::search::{first, first_from, lemma_first_from};
use crate::taskbar::{button_views, ButtonView, Hit, Taskbar};
use crate::text::{chars_of, same_chars, same_str, slice_of};
use crate::util::opt_view;

verus! {

// ---- Windows behind a button ----

/// Something done to a window.
#[derive(Clone, Copy, PartialEq, Eq, Structural, Debug)]
pub enum WindowStep {
    Restore(u64),
    Minimize(u64),
    Foreground(u64),
}

/// A single window toggles like on a classic taskbar: a minimized one comes back,
/// the foreground one is minimized, any other comes to the front.
pub open spec fn activation(hwnd: u64, iconic: bool, foreground: u64) -> Seq<WindowStep> {
    if iconic {
        seq![WindowStep::Restore(hwnd), WindowStep::Foreground(hwnd)]
    } else if foreground == hwnd {
        seq![WindowStep::Minimize(hwnd)]
    } else {
        seq![WindowStep::Foreground(hwnd)]
    }
}

pub fn activate_window(hwnd: u64, iconic: bool, foreground: u64) -> (r: Vec<WindowStep>)
    ensures
        r@ == activation(hwnd, iconic, foreground),
{
    let mut out: Vec<WindowStep> = Vec::new();
    if iconic {
        out.push(WindowStep::Restore(hwnd));
        out.push(WindowStep::Foreground(hwnd));
    } else if foreground == hwnd {
        out.push(WindowStep::Minimize(hwnd));
    } else {
        out.push(WindowStep::Foreground(hwnd));
    }
    assert(out@ =~= activation(hwnd, iconic, foreground));
    out
}

/// A group cycles through its windows: the one behind the foreground window comes
/// to the front. Without one in the foreground the first is activated.
pub open spec fn group_activation(
    windows: Seq<u64>,
    iconic: Seq<bool>,
    foreground: u64,
) -> Seq<WindowStep> {
    if windows.len() == 0 {
        seq![]
    } else if windows.len() == 1 {
        activation(windows[0], iconic[0], foreground)
    } else {
        match windows.index_of_first(foreground) {
            Some(pos) => {
                let next = (pos + 1) % (windows.len() as int);
                if iconic[next] {
                    seq![WindowStep::Restore(windows[next]), WindowStep::Foreground(windows[next])]
                } else {
                    seq![WindowStep::Foreground(windows[next])]
                }
            },
            None => activation(windows[0], iconic[0], foreground),
        }
    }
}

/// Click behavior for a (possibly combined) button. `iconic` tells of each window
/// whether it is minimized.
pub fn activate_group(windows: &Vec<u64>, iconic: &Vec<bool>, foreground: u64) -> (r: Vec<
    WindowStep,
>)
    requires
        iconic.len() == windows.len(),
    ensures
        r@ == group_activation(windows@, iconic@, foreground),
{
    if windows.len() == 0 {
        assert(Seq::<WindowStep>::empty() =~= group_activation(windows@, iconic@, foreground));
        return Vec::new();
    }
    if windows.len() == 1 {
        return activate_window(windows[0], iconic[0], foreground);
    }
    let ghost n = windows@.len() as int;
    proof {
        windows@.index_of_first_ensures(foreground);
    }
    let mut i: usize = 0;
    while i < windows.len()
        invariant
            i <= windows.len() == n,
            n > 1,
            iconic.len() == n,
            forall|k: int| 0 <= k < i ==> windows@[k] != foreground,
        decreases windows.len() - i,
    {
        if windows[i] == foreground {
            proof {
                windows@.index_of_first_ensures(foreground);
            }
            let next: usize = if i + 1 < windows.len() {
                i + 1
            } else {
                0
            };
            assert(next == (i as int + 1) % n) by {
                if i + 1 < n {
                    vstd::arithmetic::div_mod::lemma_small_mod((i + 1) as nat, n as nat);
                } else {
                    vstd::arithmetic::div_mod::lemma_mod_self_0(n);
                }
            }
            let mut out: Vec<WindowStep> = Vec::new();
            if iconic[next] {
                out.push(WindowStep::Restore(windows[next]));
            }
            out.push(WindowStep::Foreground(windows[next]));
            assert(out@ =~= group_activation(windows@, iconic@, foreground));
            return out;
        }
        i = i + 1;
    }
    activate_window(windows[0], iconic[0], foreground)
}

/// The windows that are on screen, in order.
pub open spec fn on_screen(windows: Seq<u64>, shown: Seq<bool>) -> Seq<u64>
    decreases windows.len(),
{
    if windows.len() == 0 {
        seq![]
    } else if shown[windows.len() - 1] {
        on_screen(windows.drop_last(), shown).push(windows.last())
    } else {
        on_screen(windows.drop_last(), shown)
    }
}

pub open spec fn minimize_all(windows: Seq<u64>) -> Seq<WindowStep> {
    Seq::new(windows.len(), |i: int| WindowStep::Minimize(windows[i]))
}

pub open spec fn restore_all(windows: Seq<u64>) -> Seq<WindowStep> {
    Seq::new(windows.len(), |i: int| WindowStep::Restore(windows[i]))
}

/// What a press of Win+D does: the windows it leaves minimized, and its steps.
pub open spec fn show_desktop(
    minimized: Seq<u64>,
    windows: Seq<u64>,
    shown: Seq<bool>,
) -> (Seq<u64>, Seq<WindowStep>) {
    if minimized.len() > 0 {
        (seq![], restore_all(minimized))
    } else {
        (on_screen(windows, shown), minimize_all(on_screen(windows, shown)))
    }
}

/// Win+D: minimize all app windows on the taskbar that are on screen (`shown`:
/// visible and not minimized); pressing again restores them. `minimized` holds the
/// windows that the last press minimized.
pub fn toggle_show_desktop(
    minimized: &mut Vec<u64>,
    windows: &Vec<u64>,
    shown: &Vec<bool>,
) -> (r: Vec<WindowStep>)
    requires
        shown.len() == windows.len(),
    ensures
        (final(minimized)@, r@) == show_desktop(old(minimized)@, windows@, shown@),
{
    let mut out: Vec<WindowStep> = Vec::new();
    let ghost before = minimized@;
    if minimized.len() > 0 {
        let mut i: usize = 0;
        while i < minimized.len()
            invariant
                i <= minimized.len(),
                minimized@ == before,
                out@ == restore_all(before).take(i as int),
            decreases minimized.len() - i,
        {
            out.push(WindowStep::Restore(minimized[i]));
            i = i + 1;
            assert(out@ =~= restore_all(before).take(i as int));
        }
        assert(out@ =~= restore_all(before));
        minimized.clear();
        assert(minimized@ =~= seq![]);
    } else {
        let mut i: usize = 0;
        assert(windows@.take(0) =~= seq![]);
        assert(minimized@ =~= on_screen(windows@.take(0), shown@));
        while i < windows.len()
            invariant
                i <= windows.len() == shown.len(),
                minimized@ == on_screen(windows@.take(i as int), shown@),
                out@ == minimize_all(minimized@),
            decreases windows.len() - i,
        {
            assert(windows@.take(i as int + 1).drop_last() =~= windows@.take(i as int));
            if shown[i] {
                let ghost so_far = minimized@;
                out.push(WindowStep::Minimize(windows[i]));
                minimized.push(windows[i]);
                assert(out@ =~= minimize_all(minimized@));
            }
            i = i + 1;
        }
        assert(windows@.take(i as int) =~= windows@);
    }
    out
}

/// The second press of Win+D restores exactly the windows that the first one
/// minimized, whatever was opened in between, and leaves the third to minimize.
pub proof fn show_desktop_undoes_itself(
    windows: Seq<u64>,
    shown: Seq<bool>,
    windows2: Seq<u64>,
    shown2: Seq<bool>,
)
    requires
        on_screen(windows, shown).len() > 0,
    ensures
        ({
            let first_press = show_desktop(seq![], windows, shown);
            let second_press = show_desktop(first_press.0, windows2, shown2);
            &&& first_press.1 == minimize_all(on_screen(windows, shown))
            &&& second_press.1 == restore_all(on_screen(windows, shown))
            &&& second_press.0 == Seq::<u64>::empty()
        }),
{
}

impl Taskbar {
    /// The windows on the first `n` buttons, in order.
    pub open spec fn windows_upto(&self, n: int) -> Seq<u64>
        decreases n,
    {
        if n <= 0 {
            seq![]
        } else {
            self.windows_upto(n - 1) + self.buttons@[n - 1].windows@
        }
    }

    /// All windows on the taskbar, button by button.
    pub fn task_windows(&self) -> (r: Vec<u64>)
        ensures
            r@ == self.windows_upto(self.buttons@.len() as int),
    {
        let mut out: Vec<u64> = Vec::new();
        let mut i: usize = 0;
        while i < self.buttons.len()
            invariant
                i <= self.buttons.len(),
                out@ == self.windows_upto(i as int),
            decreases self.buttons.len() - i,
        {
            let ghost before = out@;
            let w = &self.buttons[i].windows;
            let mut k: usize = 0;
            assert(before + w@.take(0) =~= before);
            while k < w.len()
                invariant
                    k <= w.len(),
                    out@ == before + w@.take(k as int),
                decreases w.len() - k,
            {
                out.push(w[k]);
                k = k + 1;
                assert(out@ =~= before + w@.take(k as int));
            }
            assert(w@.take(k as int) =~= w@);
            i = i + 1;
        }
        out
    }
}

// ---- The Win key ----

pub const VK_LWIN: u32 = 0x5B;

pub const VK_RWIN: u32 = 0x5C;

pub const WM_KEYDOWN: u32 = 0x100;

pub const WM_SYSKEYDOWN: u32 = 0x104;

/// The bit by which a low-level key event says that it was injected.
pub const LLKHF_INJECTED: u32 = 0x10;

pub const HOTKEY_RUN: u32 = 1;

pub const HOTKEY_EXPLORER: u32 = 2;

pub const HOTKEY_DESKTOP: u32 = 3;

pub const HOTKEY_POWER: u32 = 4;

pub const HOTKEY_SYSINFO: u32 = 5;

/// The action of Win+<key>: R is the Run window, E the file explorer, D the
/// desktop, X the power-user menu, Pause the system information.
pub open spec fn hotkey(vk: u32) -> Option<u32> {
    if vk == 0x52 {
        Some(HOTKEY_RUN)
    } else if vk == 0x45 {
        Some(HOTKEY_EXPLORER)
    } else if vk == 0x44 {
        Some(HOTKEY_DESKTOP)
    } else if vk == 0x58 {
        Some(HOTKEY_POWER)
    } else if vk == 0x13 {
        Some(HOTKEY_SYSINFO)
    } else {
        None
    }
}

/// Map a Win+<key> virtual-key code to a hotkey action id, or `None`.
pub fn win_hotkey(vk: u32) -> (r: Option<u32>)
    ensures
        r == hotkey(vk),
{
    match vk {
        0x52 => Some(HOTKEY_RUN),
        0x45 => Some(HOTKEY_EXPLORER),
        0x44 => Some(HOTKEY_DESKTOP),
        0x58 => Some(HOTKEY_POWER),
        0x13 => Some(HOTKEY_SYSINFO),
        _ => None,
    }
}

/// A synthetic key event.
#[derive(Clone, Copy, PartialEq, Eq, Structural, Debug)]
pub struct KeyStroke {
    pub vk: u16,
    pub up: bool,
}

/// What the keyboard hook answers.
#[derive(Clone, Copy, PartialEq, Eq, Structural, Debug)]
pub enum HookAnswer {
    /// The key goes on to everyone else.
    Pass,
    /// A bare Win tap: the key is swallowed, `tap_strokes` are sent in its place,
    /// and the start menu is toggled.
    Tap(u16),
    /// The key is swallowed and a hotkey runs.
    Hotkey(u32),
}

/// A key event as the low-level hook gets it.
#[derive(Clone, Copy, PartialEq, Eq, Structural, Debug)]
pub struct HookKey {
    pub code: i32,
    pub message: u32,
    pub vk: u32,
    pub flags: u32,
    /// A Win key is held down.
    pub win_held: bool,
}

impl HookKey {
    pub open spec fn counts(self) -> bool {
        self.code >= 0 && self.flags & LLKHF_INJECTED == 0
    }

    pub open spec fn down(self) -> bool {
        self.message == WM_KEYDOWN || self.message == WM_SYSKEYDOWN
    }

    pub open spec fn is_win(self) -> bool {
        self.vk == VK_LWIN || self.vk == VK_RWIN
    }
}

/// Whether a Win key is down with no other key pressed since, after this event.
pub open spec fn pending_after(pending: bool, k: HookKey) -> bool {
    if !k.counts() {
        pending
    } else if k.is_win() {
        k.down()
    } else {
        pending && !k.down()
    }
}

pub open spec fn hook_answer(pending: bool, k: HookKey) -> HookAnswer {
    if !k.counts() {
        HookAnswer::Pass
    } else if k.is_win() {
        if !k.down() && pending {
            HookAnswer::Tap(k.vk as u16)
        } else {
            HookAnswer::Pass
        }
    } else if k.down() && k.win_held {
        match hotkey(k.vk) {
            Some(id) => HookAnswer::Hotkey(id),
            None => HookAnswer::Pass,
        }
    } else {
        HookAnswer::Pass
    }
}

/// Watch for the Win key being pressed and released with no other key in
/// between, and for Win+<key>.
pub fn win_key_hook(pending: &mut bool, k: HookKey) -> (r: HookAnswer)
    ensures
        *final(pending) == pending_after(*old(pending), k),
        r == hook_answer(*old(pending), k),
{
    if k.code >= 0 {
        let injected = k.flags & LLKHF_INJECTED != 0;
        let down = k.message == WM_KEYDOWN || k.message == WM_SYSKEYDOWN;
        let is_win = k.vk == VK_LWIN || k.vk == VK_RWIN;
        if !injected {
            if is_win {
                if down {
                    *pending = true;
                } else {
                    let tap = *pending;
                    *pending = false;
                    if tap {
                        return HookAnswer::Tap(k.vk as u16);
                    }
                }
            } else if down {
                *pending = false;
                if k.win_held {
                    match win_hotkey(k.vk) {
                        Some(id) => {
                            return HookAnswer::Hotkey(id);
                        },
                        None => {},
                    }
                }
            }
        }
    }
    HookAnswer::Pass
}

/// What is sent in place of a swallowed Win release: a dummy key down and up,
/// which breaks the start menu's own sequence, then the release itself.
pub fn tap_strokes(vk: u16) -> (r: Vec<KeyStroke>)
    ensures
        r@ == seq![
            KeyStroke { vk: 0xFF, up: false },
            KeyStroke { vk: 0xFF, up: true },
            KeyStroke { vk, up: true },
        ],
{
    let mut v: Vec<KeyStroke> = Vec::new();
    v.push(KeyStroke { vk: 0xFF, up: false });
    v.push(KeyStroke { vk: 0xFF, up: true });
    v.push(KeyStroke { vk, up: true });
    assert(v@ =~= seq![
        KeyStroke { vk: 0xFF, up: false },
        KeyStroke { vk: 0xFF, up: true },
        KeyStroke { vk, up: true },
    ]);
    v
}

/// A Win key pressed and released with nothing in between opens the menu; any
/// other key pressed in between keeps it closed.
pub proof fn only_a_bare_tap_opens_the_menu(pending: bool, press: HookKey, other: HookKey, release: HookKey)
    requires
        press.counts() && press.is_win() && press.down(),
        other.counts() && !other.is_win() && other.down(),
        release.counts() && release.is_win() && !release.down(),
    ensures
        hook_answer(pending_after(pending, press), release) is Tap,
        hook_answer(pending_after(pending_after(pending, press), other), release) is Pass,
        !pending_after(pending, release),
{
}

/// A program and its arguments, for the shell to open.
pub struct Command {
    pub program: String,
    pub args: String,
}

/// What a hotkey does.
pub enum HotkeyAction {
    Run(Command),
    /// The shell's own Run window opens.
    RunWindow,
    ShowDesktop,
    PowerMenu,
    SystemInfo,
    Ignore,
}

/// The file browser: the configured one, else Explorer's This-PC view.
pub open spec fn file_manager_of(c: ConfigView) -> (Seq<char>, Seq<char>) {
    match c.file_manager {
        Some(f) => (f, seq![]),
        None => ("explorer.exe"@, "shell:MyComputerFolder"@),
    }
}

pub fn open_file_manager(cfg: &Config) -> (r: Command)
    ensures
        (r.program@, r.args@) == file_manager_of(cfg@),
{
    match &cfg.file_manager {
        Some(f) => Command { program: f.clone(), args: String::new() },
        None => Command {
            program: "explorer.exe".to_owned(),
            args: "shell:MyComputerFolder".to_owned(),
        },
    }
}

/// Resolve a posted hotkey.
pub fn run_hotkey(id: u32, cfg: &Config) -> (r: HotkeyAction)
    ensures
        id == HOTKEY_RUN <==> r is RunWindow,
        id == HOTKEY_EXPLORER ==> (r matches HotkeyAction::Run(c) && (c.program@, c.args@)
            == file_manager_of(cfg@)),
        id == HOTKEY_DESKTOP <==> r is ShowDesktop,
        id == HOTKEY_POWER <==> r is PowerMenu,
        id == HOTKEY_SYSINFO <==> r is SystemInfo,
        r is Ignore <==> id == 0 || id > HOTKEY_SYSINFO,
{
    if id == HOTKEY_RUN {
        HotkeyAction::RunWindow
    } else if id == HOTKEY_EXPLORER {
        HotkeyAction::Run(open_file_manager(cfg))
    } else if id == HOTKEY_DESKTOP {
        HotkeyAction::ShowDesktop
    } else if id == HOTKEY_POWER {
        HotkeyAction::PowerMenu
    } else if id == HOTKEY_SYSINFO {
        HotkeyAction::SystemInfo
    } else {
        HotkeyAction::Ignore
    }
}

// ---- The mouse ----

/// What happens to the peek when the hovered part changes.
#[derive(Clone, Copy, PartialEq, Eq, Structural, Debug)]
pub enum PeekStep {
    Keep,
    /// Show the windows of this button now: a peek is already open.
    Show(usize),
    /// Open after a short hover delay.
    StartTimer,
    StopTimer,
}

/// What follows a mouse move.
#[derive(Clone, Copy, PartialEq, Eq, Structural, Debug)]
pub struct MoveOutcome {
    /// Ask to be told when the mouse leaves.
    pub track: bool,
    pub peek: PeekStep,
    pub repaint: bool,
}

pub open spec fn peek_step(hit: Hit, peek_open: bool) -> PeekStep {
    match hit {
        Hit::Task(i) => if peek_open {
            PeekStep::Show(i)
        } else {
            PeekStep::StartTimer
        },
        _ => PeekStep::StopTimer,
    }
}

/// What a click comes to.
pub enum Click {
    Nothing,
    Start,
    Group(Vec<u64>),
    Launch(String),
    Tray(usize),
}

pub enum ClickView {
    Nothing,
    Start,
    Group(Seq<u64>),
    Launch(Seq<char>),
    Tray(usize),
}

impl View for Click {
    type V = ClickView;

    open spec fn view(&self) -> ClickView {
        match *self {
            Click::Nothing => ClickView::Nothing,
            Click::Start => ClickView::Start,
            Click::Group(w) => ClickView::Group(w@),
            Click::Launch(s) => ClickView::Launch(s@),
            Click::Tray(i) => ClickView::Tray(i),
        }
    }
}

/// A click counts where the button went down and came up on the same part. On a
/// task button it goes to its windows, or launches its pinned program.
pub open spec fn click_on(buttons: Seq<ButtonView>, pressed: Hit, hit: Hit) -> ClickView {
    if hit != pressed {
        ClickView::Nothing
    } else {
        match hit {
            Hit::Nothing => ClickView::Nothing,
            Hit::Start => ClickView::Start,
            Hit::TrayIcon(i) => ClickView::Tray(i),
            Hit::Task(i) => if i >= buttons.len() {
                ClickView::Nothing
            } else if buttons[i as int].windows.len() > 0 {
                ClickView::Group(buttons[i as int].windows)
            } else {
                match buttons[i as int].pinned_exe {
                    Some(exe) => ClickView::Launch(exe),
                    None => ClickView::Nothing,
                }
            },
        }
    }
}

/// What a right click comes to.
#[derive(Clone, Copy, PartialEq, Eq, Structural, Debug)]
pub enum RightClick {
    /// It is forwarded to the owner of this tray icon.
    Tray(usize),
    /// The power-user menu opens.
    PowerMenu,
    /// The taskbar's own menu opens.
    TaskbarMenu,
}

/// A tray icon gets its right click; the start button has the power-user menu, and
/// every other part of the bar the taskbar's own.
pub open spec fn right_click_on(hit: Hit) -> RightClick {
    match hit {
        Hit::TrayIcon(i) => RightClick::Tray(i),
        Hit::Start => RightClick::PowerMenu,
        _ => RightClick::TaskbarMenu,
    }
}

/// Peek data for the hovered button: its windows, the icon of windows without
/// one, the button's rectangle on the screen, and the taskbar's top.
pub struct PeekRequest {
    pub windows: Vec<u64>,
    pub icon: Option<u64>,
    pub anchor: Rect,
    pub taskbar_top: i32,
}

fn copy_handles(v: &Vec<u64>) -> (r: Vec<u64>)
    ensures
        r@ == v@,
{
    let mut out: Vec<u64> = Vec::new();
    let mut i: usize = 0;
    while i < v.len()
        invariant
            i <= v.len(),
            out@ == v@.take(i as int),
        decreases v.len() - i,
    {
        out.push(v[i]);
        i = i + 1;
        assert(out@ =~= v@.take(i as int));
    }
    assert(out@ =~= v@);
    out
}

impl Taskbar {
    /// Nothing but the mouse's state differs.
    pub open spec fn same_bar(&self, other: Taskbar) -> bool {
        &&& self.hwnd == other.hwnd
        &&& self.cfg == other.cfg
        &&& self.start_x == other.start_x
        &&& self.buttons == other.buttons
        &&& self.tray_icons == other.tray_icons
    }

    pub fn on_mouse_move(
        &mut self,
        x: i32,
        y: i32,
        width: i32,
        height: i32,
        dpi: i32,
        peek_open: bool,
    ) -> (r: MoveOutcome)
        requires
            old(self).wf(),
            old(self).tray_fits(width as int, dpi as int),
        ensures
            final(self).same_bar(*old(self)),
            final(self).pressed == old(self).pressed,
            final(self).tracking_mouse,
            final(self).hover == old(self).hit(
                x as int,
                y as int,
                width as int,
                height as int,
                dpi as int,
            ),
            r.track == !old(self).tracking_mouse,
            r.repaint == (final(self).hover != old(self).hover),
            r.peek == if r.repaint {
                peek_step(final(self).hover, peek_open)
            } else {
                PeekStep::Keep
            },
    {
        let hit = self.hit_test(x, y, width, height, dpi);
        let changed = hit != self.hover;
        self.hover = hit;
        let track = !self.tracking_mouse;
        self.tracking_mouse = true;
        let peek = if changed {
            match hit {
                Hit::Task(i) => if peek_open {
                    PeekStep::Show(i)
                } else {
                    PeekStep::StartTimer
                },
                _ => PeekStep::StopTimer,
            }
        } else {
            PeekStep::Keep
        };
        MoveOutcome { track, peek, repaint: changed }
    }

    pub fn on_mouse_leave(&mut self)
        ensures
            final(self).same_bar(*old(self)),
            final(self).pressed == old(self).pressed,
            !final(self).tracking_mouse,
            final(self).hover == Hit::Nothing,
    {
        self.tracking_mouse = false;
        self.hover = Hit::Nothing;
    }

    pub fn on_button_down(&mut self, x: i32, y: i32, width: i32, height: i32, dpi: i32)
        requires
            old(self).wf(),
            old(self).tray_fits(width as int, dpi as int),
        ensures
            final(self).same_bar(*old(self)),
            final(self).hover == old(self).hover,
            final(self).tracking_mouse == old(self).tracking_mouse,
            final(self).pressed == old(self).hit(
                x as int,
                y as int,
                width as int,
                height as int,
                dpi as int,
            ),
    {
        self.pressed = self.hit_test(x, y, width, height, dpi);
    }

    pub fn on_button_up(&mut self, x: i32, y: i32, width: i32, height: i32, dpi: i32) -> (r: Click)
        requires
            old(self).wf(),
            old(self).tray_fits(width as int, dpi as int),
        ensures
            final(self).same_bar(*old(self)),
            final(self).hover == old(self).hover,
            final(self).tracking_mouse == old(self).tracking_mouse,
            final(self).pressed == Hit::Nothing,
            r@ == click_on(
                button_views(old(self).buttons@),
                old(self).pressed,
                old(self).hit(x as int, y as int, width as int, height as int, dpi as int),
            ),
    {
        let hit = self.hit_test(x, y, width, height, dpi);
        let pressed = self.pressed;
        self.pressed = Hit::Nothing;
        if hit != pressed {
            return Click::Nothing;
        }
        match hit {
            Hit::Nothing => Click::Nothing,
            Hit::Start => Click::Start,
            Hit::TrayIcon(i) => Click::Tray(i),
            Hit::Task(i) => {
                if i >= self.buttons.len() {
                    return Click::Nothing;
                }
                let b = &self.buttons[i];
                assert(b@ == button_views(self.buttons@)[i as int]);
                if b.windows.len() > 0 {
                    Click::Group(copy_handles(&b.windows))
                } else {
                    match &b.pinned_exe {
                        Some(exe) => Click::Launch(exe.clone()),
                        None => Click::Nothing,
                    }
                }
            },
        }
    }

    /// Where a right click goes.
    pub fn on_right_up(&self, x: i32, y: i32, width: i32, height: i32, dpi: i32) -> (r: RightClick)
        requires
            self.wf(),
            self.tray_fits(width as int, dpi as int),
        ensures
            r == right_click_on(
                self.hit(x as int, y as int, width as int, height as int, dpi as int),
            ),
    {
        match self.hit_test(x, y, width, height, dpi) {
            Hit::TrayIcon(i) => RightClick::Tray(i),
            Hit::Start => RightClick::PowerMenu,
            _ => RightClick::TaskbarMenu,
        }
    }

    /// The button to peek at when the hover timer fires.
    pub fn on_peek_timer(&self) -> (r: Option<usize>)
        ensures
            r == match self.hover {
                Hit::Task(i) => Some(i),
                _ => None,
            },
    {
        match self.hover {
            Hit::Task(i) => Some(i),
            _ => None,
        }
    }

    /// Where on the screen a window minimizes to, on a taskbar at `bar`: its button,
    /// the first that holds the window.
    pub fn minimize_rect(&self, hwnd: u64, bar: Rect) -> (r: Option<Rect>)
        requires
            self.wf(),
            near(bar.left as int),
            near(bar.top as int),
        ensures
            r == match first(
                self.buttons@.len() as int,
                |i: int| self.buttons@[i].windows@.contains(hwnd),
            ) {
                Some(i) => {
                    let b = self.buttons@[i].rect;
                    Some(
                        rect(
                            bar.left + b.left,
                            bar.top + b.top,
                            bar.left + b.right,
                            bar.top + b.bottom,
                        ),
                    )
                },
                None => None,
            },
    {
        let ghost m = self.buttons@.len() as int;
        let ghost p = |i: int| self.buttons@[i].windows@.contains(hwnd);
        let mut i: usize = 0;
        while i < self.buttons.len()
            invariant
                i <= self.buttons.len(),
                self.wf(),
                near(bar.left as int),
                near(bar.top as int),
                m == self.buttons@.len(),
                p == (|i: int| self.buttons@[i].windows@.contains(hwnd)),
                first(m, p) == first_from(i as int, m, p),
            decreases self.buttons.len() - i,
        {
            let windows = &self.buttons[i].windows;
            let mut j: usize = 0;
            while j < windows.len()
                invariant
                    i < self.buttons.len(),
                    *windows == self.buttons@[i as int].windows,
                    self.wf(),
                    near(bar.left as int),
                    near(bar.top as int),
                    j <= windows.len(),
                    m == self.buttons@.len(),
                    p == (|i: int| self.buttons@[i].windows@.contains(hwnd)),
                    first(m, p) == first_from(i as int, m, p),
                    forall|k: int| 0 <= k < j ==> windows@[k] != hwnd,
                decreases windows.len() - j,
            {
                if windows[j] == hwnd {
                    assert(windows@[j as int] == hwnd);
                    assert(p(i as int));
                    let b = self.buttons[i].rect;
                    return Some(
                        Rect {
                            left: bar.left + b.left,
                            top: bar.top + b.top,
                            right: bar.left + b.right,
                            bottom: bar.top + b.bottom,
                        },
                    );
                }
                j = j + 1;
            }
            assert(!p(i as int));
            i = i + 1;
        }
        None
    }

    /// Peek data for button `index` of a taskbar at `bar` on the screen.
    pub fn peek_request(&self, index: usize, bar: Rect) -> (r: Option<PeekRequest>)
        requires
            self.wf(),
            near(bar.left as int),
        ensures
            r is Some == (index < self.buttons@.len()),
            r matches Some(q) ==> {
                let b = self.buttons@[index as int]@;
                &&& q.windows@ == b.windows
                &&& q.icon == b.icon
                &&& q.anchor == rect(
                    bar.left + b.rect.left,
                    bar.top as int,
                    bar.left + b.rect.right,
                    bar.bottom as int,
                )
                &&& q.taskbar_top == bar.top
            },
    {
        if index >= self.buttons.len() {
            return None;
        }
        let b = &self.buttons[index];
        assert(b.rect.near());
        Some(
            PeekRequest {
                windows: copy_handles(&b.windows),
                icon: b.icon,
                anchor: Rect {
                    left: bar.left + b.rect.left,
                    top: bar.top,
                    right: bar.left + b.rect.right,
                    bottom: bar.bottom,
                },
                taskbar_top: bar.top,
            },
        )
    }
}

// ---- Docking ----

/// The strip of the screen that the taskbar takes.
pub open spec fn bar_strip(screen_w: int, screen_h: int, height: int) -> Rect {
    rect(0, screen_h - height, screen_w, screen_h)
}

/// What it leaves to other windows.
pub open spec fn free_area(screen_w: int, screen_h: int, height: int) -> Rect {
    rect(0, 0, screen_w, screen_h - height)
}

/// The strip at the bottom of the screen that the taskbar asks for.
pub fn dock_rect(screen_w: i32, screen_h: i32, height: i32) -> (r: Rect)
    requires
        fits_i32(screen_h - height),
    ensures
        r == rect(0, screen_h - height, screen_w as int, screen_h as int),
        r == bar_strip(screen_w as int, screen_h as int, height as int),
{
    Rect { left: 0, top: screen_h - height, right: screen_w, bottom: screen_h }
}

/// The strip that it takes, whatever the system offered: the bottom edge is
/// always its own.
pub fn docked(offered: Rect, screen_h: i32, height: i32) -> (r: Rect)
    requires
        fits_i32(screen_h - height),
    ensures
        r.left == offered.left,
        r.right == offered.right,
        r.bottom == screen_h,
        r.top == screen_h - height,
{
    Rect { left: offered.left, top: screen_h - height, right: offered.right, bottom: screen_h }
}

/// The window was left off the bottom edge and has to dock again.
pub fn needs_dock(window: Rect, screen_h: i32, height: i32) -> (r: bool)
    requires
        fits_i32(screen_h - height),
    ensures
        r == (window.bottom != screen_h || window.top != screen_h - height),
{
    window.bottom != screen_h || window.top != screen_h - height
}

/// What maximized windows may cover: the screen above the taskbar.
pub fn work_area(screen_w: i32, screen_h: i32, height: i32) -> (r: Rect)
    requires
        fits_i32(screen_h - height),
    ensures
        r == rect(0, 0, screen_w as int, screen_h - height),
        r == free_area(screen_w as int, screen_h as int, height as int),
{
    Rect { left: 0, top: 0, right: screen_w, bottom: screen_h - height }
}

// ---- Explorer ----

/// `s` ends with `p`.
pub open spec fn ends(s: Seq<char>, p: Seq<char>) -> bool {
    p.len() <= s.len() && s.skip(s.len() - p.len()) == p
}

/// A window of this exe (lower-case path) is one of Explorer's.
pub open spec fn explorer_exe(exe: Option<Seq<char>>) -> bool {
    exe matches Some(e) && ends(e, "\\explorer.exe"@)
}

pub fn is_explorer_window(exe: &Option<String>) -> (r: bool)
    ensures
        r == explorer_exe(opt_view(*exe)),
{
    match exe {
        Some(e) => {
            let e = chars_of(e.as_str());
            let p = chars_of("\\explorer.exe");
            if p.len() > e.len() {
                return false;
            }
            let tail = slice_of(&e, e.len() - p.len(), e.len());
            assert(tail@ =~= e@.skip(e@.len() - p@.len()));
            same_chars(&tail, &p)
        },
        None => false,
    }
}

/// Explorer's window among all windows of one class, given the exes that they
/// belong to in the order the system lists them.
pub fn find_explorer_window(exes: &Vec<Option<String>>) -> (r: Option<usize>)
    ensures
        match first(exes.len() as int, |i: int| explorer_exe(opt_view(exes@[i]))) {
            Some(i) => r == Some(i as usize) && i < exes.len(),
            None => r is None,
        },
{
    let ghost n = exes@.len() as int;
    let ghost p = |i: int| explorer_exe(opt_view(exes@[i]));
    let mut i: usize = 0;
    while i < exes.len()
        invariant
            i <= exes.len() == n,
            p == (|i: int| explorer_exe(opt_view(exes@[i]))),
            first(n, p) == first_from(i as int, n, p),
        decreases exes.len() - i,
    {
        if is_explorer_window(&exes[i]) {
            assert(p(i as int));
            return Some(i);
        }
        assert(!p(i as int));
        i = i + 1;
    }
    None
}

/// Explorer has created the desktop shell: its own `Progman` with an icon view.
pub fn explorer_shell_ready(progman: u64, progman_exe: &Option<String>, defview: u64) -> (r: bool)
    ensures
        r == (progman != 0 && explorer_exe(opt_view(*progman_exe)) && defview != 0),
{
    progman != 0 && is_explorer_window(progman_exe) && defview != 0
}

/// Whether to go on waiting for Explorer's shell: until it is ready, or until the
/// time is up.
pub fn wait_for_explorer_shell_ready(elapsed_ms: u64, timeout_ms: u32, ready: bool) -> (r: bool)
    ensures
        r == (elapsed_ms < timeout_ms && !ready),
{
    elapsed_ms < timeout_ms as u64 && !ready
}

/// What is done to one of Explorer's taskbar windows.
#[derive(Clone, Copy, PartialEq, Eq, Structural, Debug)]
pub struct TrayStep {
    /// Put the appbar into auto-hide (`Some(true)`) or always-on-top
    /// (`Some(false)`) first. Only primary taskbars have that state.
    pub autohide: Option<bool>,
    pub show: bool,
}

/// What hides one of Explorer's taskbars: nothing where it is hidden already.
pub open spec fn hiding(primary: bool, visible: bool) -> Option<TrayStep> {
    if !visible {
        None
    } else if primary {
        Some(TrayStep { autohide: Some(true), show: false })
    } else {
        Some(TrayStep { autohide: None, show: false })
    }
}

/// What shows it again.
pub open spec fn showing(primary: bool) -> TrayStep {
    if primary {
        TrayStep { autohide: Some(false), show: true }
    } else {
        TrayStep { autohide: None, show: true }
    }
}

/// Hide one of Explorer's taskbars, if it is visible. Hiding alone would leave
/// its work-area reservation behind; auto-hide releases that of the primary one.
pub fn hide_explorer_taskbar(primary: bool, visible: bool) -> (r: Option<TrayStep>)
    ensures
        r == if visible {
            Some(
                TrayStep {
                    autohide: if primary {
                        Some(true)
                    } else {
                        None
                    },
                    show: false,
                },
            )
        } else {
            None
        },
        r == hiding(primary, visible),
{
    if visible {
        Some(
            TrayStep {
                autohide: if primary {
                    Some(true)
                } else {
                    None
                },
                show: false,
            },
        )
    } else {
        None
    }
}

/// Undo `hide_explorer_taskbar`.
pub fn show_explorer_taskbar(primary: bool) -> (r: TrayStep)
    ensures
        r == (TrayStep {
            autohide: if primary {
                Some(false)
            } else {
                None
            },
            show: true,
        }),
        r == showing(primary),
{
    TrayStep {
        autohide: if primary {
            Some(false)
        } else {
            None
        },
        show: true,
    }
}

/// Icons extracted from exe files, kept because extraction is not free.
pub struct IconCache {
    pub entries: Vec<(String, u64)>,
}

impl IconCache {
    /// The icon kept for an exe.
    pub open spec fn icon_of(&self, exe: Seq<char>) -> Option<u64> {
        match first(self.entries@.len() as int, |i: int| self.entries@[i].0@ == exe) {
            Some(i) => Some(self.entries@[i].1),
            None => None,
        }
    }

    pub fn new() -> (r: IconCache)
        ensures
            forall|exe: Seq<char>| r.icon_of(exe) is None,
    {
        IconCache { entries: Vec::new() }
    }

    pub fn get(&self, exe: &str) -> (r: Option<u64>)
        ensures
            r == self.icon_of(exe@),
    {
        let ghost n = self.entries@.len() as int;
        let ghost p = |i: int| self.entries@[i].0@ == exe@;
        let mut i: usize = 0;
        while i < self.entries.len()
            invariant
                i <= self.entries.len() == n,
                p == (|i: int| self.entries@[i].0@ == exe@),
                first(n, p) == first_from(i as int, n, p),
            decreases self.entries.len() - i,
        {
            if same_str(self.entries[i].0.as_str(), exe) {
                assert(p(i as int));
                return Some(self.entries[i].1);
            }
            assert(!p(i as int));
            i = i + 1;
        }
        None
    }

    /// Keep what was extracted for an exe, unless an icon of it is kept already.
    pub fn put(&mut self, exe: &str, icon: u64)
        ensures
            forall|other: Seq<char>| #[trigger]
                final(self).icon_of(other) == if other == exe@ && old(self).icon_of(other) is None {
                    Some(icon)
                } else {
                    old(self).icon_of(other)
                },
    {
        let ghost before = self.entries@;
        self.entries.push((exe.to_owned(), icon));
        proof {
            let n = before.len() as int;
            assert forall|other: Seq<char>| #[trigger]
                self.icon_of(other) == if other == exe@ && old(self).icon_of(other) is None {
                    Some(icon)
                } else {
                    old(self).icon_of(other)
                } by {
                let p = |i: int| before[i].0@ == other;
                let q = |i: int| self.entries@[i].0@ == other;
                lemma_first_from(0, n, p);
                lemma_first_from(0, n + 1, q);
                assert forall|i: int| 0 <= i < n implies p(i) == #[trigger] q(i) by {
                    assert(self.entries@[i] == before[i]);
                }
                match first(n, p) {
                    Some(k) => {
                        assert(q(k));
                        crate::search::lemma_first_is(0, n + 1, q, k);
                    },
                    None => {
                        if other == exe@ {
                            assert(q(n));
                            crate::search::lemma_first_is(0, n + 1, q, n);
                        } else {
                            assert(!q(n));
                            crate::search::lemma_first_none(0, n + 1, q);
                        }
                    },
                }
            }
        }
    }
}

// ---- Laws ----

/// The window that some steps leave in front, where `foreground` was before.
pub open spec fn front_after(steps: Seq<WindowStep>, foreground: u64) -> u64
    decreases steps.len(),
{
    if steps.len() == 0 {
        foreground
    } else {
        match steps.last() {
            WindowStep::Foreground(h) => h,
            _ => front_after(steps.drop_last(), foreground),
        }
    }
}

/// The window in front after `k` clicks on a group's button. `iconic[j]` tells which
/// windows are minimized at click `j`.
pub open spec fn front_after_clicks(
    windows: Seq<u64>,
    iconic: Seq<Seq<bool>>,
    foreground: u64,
    k: int,
) -> u64
    decreases k,
{
    if k <= 0 {
        foreground
    } else {
        let before = front_after_clicks(windows, iconic, foreground, k - 1);
        front_after(group_activation(windows, iconic[k - 1], before), before)
    }
}

/// A click on the button of a group one of whose windows is in front brings the next
/// one there, out of its minimized state if need be, and touches no other window.
pub proof fn a_click_brings_the_next_window(windows: Seq<u64>, iconic: Seq<bool>, p: int)
    requires
        windows.len() > 1,
        windows.no_duplicates(),
        iconic.len() == windows.len(),
        0 <= p < windows.len(),
    ensures
        ({
            let steps = group_activation(windows, iconic, windows[p]);
            let next = windows[(p + 1) % (windows.len() as int)];
            &&& steps.len() > 0
            &&& steps.last() == WindowStep::Foreground(next)
            &&& steps.contains(WindowStep::Restore(next)) == iconic[(p + 1) % (
            windows.len() as int)]
            &&& forall|i: int|
                0 <= i < steps.len() ==> (#[trigger] steps[i]) == WindowStep::Foreground(next)
                    || steps[i] == WindowStep::Restore(next)
        }),
{
    windows.index_of_first_ensures(windows[p]);
    let n = windows.len() as int;
    let steps = group_activation(windows, iconic, windows[p]);
    assert(windows.index_of_first(windows[p]) == Some(p));
    let next = (p + 1) % n;
    assert(0 <= next < n) by (nonlinear_arith)
        requires
            n > 0,
            next == (p + 1) % n,
    ;
    if iconic[next] {
        assert(steps[0] == WindowStep::Restore(windows[next]));
    }
}

/// As many clicks on a group's button as it has windows bring every one of them to
/// the front, each once, in their order.
pub proof fn clicks_go_round_a_group(
    windows: Seq<u64>,
    iconic: Seq<Seq<bool>>,
    p: int,
    k: int,
)
    requires
        windows.len() > 1,
        windows.no_duplicates(),
        forall|j: int| 0 <= j < iconic.len() ==> (#[trigger] iconic[j]).len() == windows.len(),
        0 <= p < windows.len(),
        0 <= k <= iconic.len(),
    ensures
        front_after_clicks(windows, iconic, windows[p], k) == windows[(p + k) % (
        windows.len() as int)],
    decreases k,
{
    let n = windows.len() as int;
    if k > 0 {
        clicks_go_round_a_group(windows, iconic, p, k - 1);
        let at = (p + k - 1) % n;
        assert(0 <= at < n) by (nonlinear_arith)
            requires
                n > 0,
                at == (p + k - 1) % n,
        ;
        assert(iconic[k - 1].len() == n);
        a_click_brings_the_next_window(windows, iconic[k - 1], at);
        vstd::arithmetic::div_mod::lemma_add_mod_noop(p + k - 1, 1, n);
        vstd::arithmetic::div_mod::lemma_small_mod(1, n as nat);
    } else {
        vstd::arithmetic::div_mod::lemma_small_mod(p as nat, n as nat);
    }
}

/// No window of a group comes to the front twice before all have been there.
pub proof fn clicks_reach_every_window(windows: Seq<u64>, iconic: Seq<Seq<bool>>, p: int, j: int)
    requires
        windows.len() > 1,
        windows.no_duplicates(),
        iconic.len() == windows.len(),
        forall|i: int| 0 <= i < iconic.len() ==> (#[trigger] iconic[i]).len() == windows.len(),
        0 <= p < windows.len(),
        0 <= j < windows.len(),
    ensures
        exists|k: int|
            1 <= k <= windows.len() && #[trigger] front_after_clicks(
                windows,
                iconic,
                windows[p],
                k,
            ) == windows[j],
{
    let n = windows.len() as int;
    let k = if j > p {
        j - p
    } else {
        j - p + n
    };
    clicks_go_round_a_group(windows, iconic, p, k);
    if j > p {
        vstd::arithmetic::div_mod::lemma_small_mod(j as nat, n as nat);
    } else {
        vstd::arithmetic::div_mod::lemma_mod_add_multiples_vanish(j, n);
        vstd::arithmetic::div_mod::lemma_small_mod(j as nat, n as nat);
    }
    assert(front_after_clicks(windows, iconic, windows[p], k) == windows[j]);
}

/// While none of a group's windows is in front, a click brings the first one there.
pub proof fn a_click_brings_a_group_up(windows: Seq<u64>, iconic: Seq<bool>, foreground: u64)
    requires
        windows.len() > 0,
        iconic.len() == windows.len(),
        !windows.contains(foreground),
    ensures
        front_after(group_activation(windows, iconic, foreground), foreground) == windows[0],
        group_activation(windows, iconic, foreground).contains(WindowStep::Restore(windows[0]))
            == iconic[0],
        forall|i: int|
            0 <= i < group_activation(windows, iconic, foreground).len() ==> !(
            #[trigger] group_activation(windows, iconic, foreground)[i] is Minimize),
{
    let steps = group_activation(windows, iconic, foreground);
    windows.index_of_first_ensures(foreground);
    assert(windows.contains(windows[0]));
    if iconic[0] {
        assert(steps[0] == WindowStep::Restore(windows[0]));
    }
}

/// A click on the button of the one window in front minimizes it; any other state of
/// it ends with it in front, restored first if it was minimized.
pub proof fn a_single_window_toggles(hwnd: u64, foreground: u64)
    ensures
        group_activation(seq![hwnd], seq![false], hwnd) == seq![WindowStep::Minimize(hwnd)],
        forall|iconic: bool|
            (iconic || foreground != hwnd) ==> {
                let steps = #[trigger] group_activation(seq![hwnd], seq![iconic], foreground);
                &&& front_after(steps, foreground) == hwnd
                &&& (steps[0] == WindowStep::Restore(hwnd)) == iconic
                &&& !steps.contains(WindowStep::Minimize(hwnd))
            },
        forall|iconic: bool|
            #[trigger] group_activation(seq![hwnd], seq![iconic], foreground) == activation(
                hwnd,
                iconic,
                foreground,
            ),
{
    assert forall|iconic: bool| (iconic || foreground != hwnd) implies {
        let steps = #[trigger] group_activation(seq![hwnd], seq![iconic], foreground);
        &&& front_after(steps, foreground) == hwnd
        &&& (steps[0] == WindowStep::Restore(hwnd)) == iconic
        &&& !steps.contains(WindowStep::Minimize(hwnd))
    } by {
        let steps = group_activation(seq![hwnd], seq![iconic], foreground);
        assert forall|i: int| 0 <= i < steps.len() implies steps[i] != WindowStep::Minimize(hwnd) by {
        }
    }
}

/// Showing one of Explorer's taskbars undoes what hiding it did, step for step.
pub proof fn showing_undoes_hiding(primary: bool)
    ensures
        hiding(primary, true) matches Some(h) && {
            &&& !h.show && showing(primary).show
            &&& h.autohide is Some == primary
            &&& h.autohide matches Some(a) ==> showing(primary).autohide == Some(!a) && a
            &&& h.autohide is None ==> showing(primary).autohide is None
        },
        hiding(primary, false) is None,
{
}

/// The taskbar lies at the bottom of the screen over its whole width, and what it leaves
/// is all the rest: no point of the screen is in both, and every one is in one.
pub proof fn the_bar_and_the_free_area_share_the_screen(
    screen_w: int,
    screen_h: int,
    height: int,
    x: int,
    y: int,
)
    requires
        0 <= screen_w <= i32::MAX,
        0 <= height <= screen_h <= i32::MAX,
        0 <= x < screen_w,
        0 <= y < screen_h,
    ensures
        bar_strip(screen_w, screen_h, height).has(x, y) != free_area(screen_w, screen_h, height).has(
            x,
            y,
        ),
        bar_strip(screen_w, screen_h, height).has(x, y) <==> y >= screen_h - height,
{
}

} // verus!
