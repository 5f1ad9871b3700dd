//! A dark System Information window. The content is hardware-first: a System summary
//! plus CPU & memory, graphics & displays, and storage & network sections.
//!
//! It is fixed size (overflow scrolls with the wheel). Hardware is gathered in the
//! background; until it is there the window says so.

pub mod format;
pub mod gather;
pub mod painting;
pub mod records;
pub mod rows;

use vstd::prelude::*;
use vstd::string::*;
use crate::geometry::{
    clamp_i32, clamped, max2, max_i32, near, px, rect, scaled, toward_zero, valid_dpi, Rect,
};
use crate::sysinfo::rows::{rows_fit, section_rows};
use crate::util::opt_view;

verus! {

/// A memory module.
pub struct MemModule {
    /// Bytes.
    pub capacity: u64,
    /// MT/s.
    pub speed: u32,
    pub slot: String,
}

pub struct Gpu {
    pub name: String,
    /// Bytes.
    pub vram: u64,
    pub driver: String,
}

pub struct Disk {
    pub model: String,
    /// Bytes.
    pub size: u64,
    pub bus: String,
}

pub struct Nic {
    pub name: String,
    pub mac: String,
}

/// Everything the window shows. An empty text or a 0 stands for what is not known.
pub struct SysInfo {
    pub os_caption: String,
    pub os_version: String,
    pub os_build: String,
    pub computer_name: String,
    pub manufacturer: String,
    pub model: String,
    pub system_type: String,
    pub cpu_name: String,
    pub cpu_cores: u32,
    pub cpu_threads: u32,
    pub cpu_clock_mhz: u32,
    pub cpu_arch: String,
    pub board: String,
    pub bios: String,
    pub ram_total: u64,
    pub ram_avail: u64,
    pub mem_modules: Vec<MemModule>,
    pub gpus: Vec<Gpu>,
    pub displays: Vec<String>,
    pub disks: Vec<Disk>,
    pub nics: Vec<Nic>,
}

// Layout metrics in 96-DPI px.
pub const WIDTH: i32 = 720;

pub const HEIGHT: i32 = 520;

pub const TITLE_H: i32 = 30;

pub const CLOSE: i32 = 30;

pub const NAV_W: i32 = 192;

pub const NAV_TOP: i32 = 8;

pub const NAV_ITEM_H: i32 = 46;

pub const PAD: i32 = 16;

pub const LABEL_W: i32 = 150;

pub const SECTIONS: usize = 4;

/// Label of a section in the navigation.
pub fn section_label(i: usize) -> (r: &'static str)
    requires
        i < SECTIONS,
    ensures
        r@ == section_name(i as int),
{
    if i == 0 {
        "System"
    } else if i == 1 {
        "CPU & Memory"
    } else if i == 2 {
        "Graphics & Displays"
    } else {
        "Storage & Network"
    }
}

pub open spec fn section_name(i: int) -> Seq<char> {
    if i == 0 {
        "System"@
    } else if i == 1 {
        "CPU & Memory"@
    } else if i == 2 {
        "Graphics & Displays"@
    } else {
        "Storage & Network"@
    }
}

pub open spec fn section_glyph(i: int) -> Seq<char> {
    if i == 0 {
        "\u{E770}"@
    } else if i == 1 {
        "\u{E950}"@
    } else if i == 2 {
        "\u{E7F4}"@
    } else {
        "\u{EDA2}"@
    }
}

/// Glyph of a section in the navigation.
pub fn glyph_of(i: usize) -> (r: &'static str)
    requires
        i < SECTIONS,
    ensures
        r@ == section_glyph(i as int),
{
    if i == 0 {
        "\u{E770}"
    } else if i == 1 {
        "\u{E950}"
    } else if i == 2 {
        "\u{E7F4}"
    } else {
        "\u{EDA2}"
    }
}

// ---- Layout ----

pub open spec fn close_rect(dpi: int) -> Rect {
    rect(px(WIDTH as int, dpi) - px(CLOSE as int, dpi), 0, px(WIDTH as int, dpi), px(CLOSE as int, dpi))
}

/// Entry `i` of the navigation.
pub open spec fn nav_rect(i: int, dpi: int) -> Rect {
    let item = px(NAV_ITEM_H as int, dpi);
    let top = px(TITLE_H as int, dpi) + px(NAV_TOP as int, dpi) + i * item;
    rect(px(6, dpi), top, px(NAV_W as int, dpi) - px(6, dpi), top + item - px(4, dpi))
}

pub open spec fn content_rect(dpi: int) -> Rect {
    rect(
        px(NAV_W as int, dpi) + px(PAD as int, dpi),
        px(TITLE_H as int, dpi) + px(PAD as int, dpi),
        px(WIDTH as int, dpi) - px(PAD as int, dpi),
        px(HEIGHT as int, dpi) - px(PAD as int, dpi),
    )
}

/// Height of the part of the content that is in view.
pub open spec fn view_h(dpi: int) -> int {
    content_rect(dpi).bottom - content_rect(dpi).top
}

pub fn close_button(dpi: i32) -> (r: Rect)
    requires
        valid_dpi(dpi),
    ensures
        r == close_rect(dpi as int),
        r.near(),
{
    let w: i32 = scaled(WIDTH, dpi);
    Rect { left: w - scaled(CLOSE, dpi), top: 0, right: w, bottom: scaled(CLOSE, dpi) }
}

pub fn nav_item(i: usize, dpi: i32) -> (r: Rect)
    requires
        valid_dpi(dpi),
        i < SECTIONS,
    ensures
        r == nav_rect(i as int, dpi as int),
        r.near(),
{
    let item: i32 = scaled(NAV_ITEM_H, dpi);
    assert(0 <= i * item <= 3 * 15732) by (nonlinear_arith)
        requires
            0 <= i <= 3,
            0 <= item <= 15732,
    ;
    let top: i32 = scaled(TITLE_H, dpi) + scaled(NAV_TOP, dpi) + i as i32 * item;
    Rect {
        left: scaled(6, dpi),
        top,
        right: scaled(NAV_W, dpi) - scaled(6, dpi),
        bottom: top + item - scaled(4, dpi),
    }
}

pub fn content_area(dpi: i32) -> (r: Rect)
    requires
        valid_dpi(dpi),
    ensures
        r == content_rect(dpi as int),
        r.near(),
        -0x0010_0000 <= r.left <= 0x0010_0000,
        0 <= r.top <= 0x0010_0000,
        -0x0010_0000 <= r.right <= 0x0010_0000,
        -0x0010_0000 <= r.bottom <= 0x0010_0000,
{
    Rect {
        left: scaled(NAV_W, dpi) + scaled(PAD, dpi),
        top: scaled(TITLE_H, dpi) + scaled(PAD, dpi),
        right: scaled(WIDTH, dpi) - scaled(PAD, dpi),
        bottom: scaled(HEIGHT, dpi) - scaled(PAD, dpi),
    }
}

/// Size of the window.
pub fn window_size(dpi: i32) -> (r: (i32, i32))
    requires
        valid_dpi(dpi),
    ensures
        r.0 == px(WIDTH as int, dpi as int),
        r.1 == px(HEIGHT as int, dpi as int),
        0 <= r.0 <= 246240,
        0 <= r.1 <= 177840,
{
    (scaled(WIDTH, dpi), scaled(HEIGHT, dpi))
}

/// Where the window opens: in the middle of the work area, but on the screen.
pub fn show_at(work: Rect, dpi: i32) -> (r: (i32, i32))
    requires
        valid_dpi(dpi),
        work.near(),
    ensures
        r.0 == max2(
            work.left + toward_zero(work.right - work.left - px(WIDTH as int, dpi as int), 2),
            0,
        ),
        r.1 == max2(
            work.top + toward_zero(work.bottom - work.top - px(HEIGHT as int, dpi as int), 2),
            0,
        ),
{
    let (w, h) = window_size(dpi);
    let x: i32 = work.left + (work.right - work.left - w) / 2;
    let y: i32 = work.top + (work.bottom - work.top - h) / 2;
    (max_i32(x, 0), max_i32(y, 0))
}

/// The part of the window at a point.
#[derive(Clone, Copy, PartialEq, Eq, Structural, Debug)]
pub enum Hit {
    Nothing,
    Close,
    Nav(usize),
}

pub open spec fn hit_at(x: int, y: int, dpi: int) -> Hit {
    if close_rect(dpi).has(x, y) {
        Hit::Close
    } else if nav_rect(0, dpi).has(x, y) {
        Hit::Nav(0)
    } else if nav_rect(1, dpi).has(x, y) {
        Hit::Nav(1)
    } else if nav_rect(2, dpi).has(x, y) {
        Hit::Nav(2)
    } else if nav_rect(3, dpi).has(x, y) {
        Hit::Nav(3)
    } else {
        Hit::Nothing
    }
}

/// Which interactive element is at (x, y).
pub fn hit(x: i32, y: i32, dpi: i32) -> (r: Hit)
    requires
        valid_dpi(dpi),
    ensures
        r == hit_at(x as int, y as int, dpi as int),
{
    if close_button(dpi).contains(x, y) {
        return Hit::Close;
    }
    if nav_item(0, dpi).contains(x, y) {
        return Hit::Nav(0);
    }
    if nav_item(1, dpi).contains(x, y) {
        return Hit::Nav(1);
    }
    if nav_item(2, dpi).contains(x, y) {
        return Hit::Nav(2);
    }
    if nav_item(3, dpi).contains(x, y) {
        return Hit::Nav(3);
    }
    Hit::Nothing
}

// ---- State ----

/// The window's state.
pub struct State {
    pub accent: u32,
    pub section: usize,
    pub hover: Hit,
    pub scroll: i32,
    /// How far the content scrolls, as it was last drawn.
    pub content_h: i32,
    pub tracking: bool,
    pub info: Option<SysInfo>,
}

/// What follows a mouse move.
#[derive(Clone, Copy, PartialEq, Eq, Structural, Debug)]
pub struct MoveOutcome {
    pub track: bool,
    pub repaint: bool,
}

/// What follows a press or a key.
#[derive(Clone, Copy, PartialEq, Eq, Structural, Debug)]
pub enum Outcome {
    Nothing,
    Close,
    Repaint,
    /// Drag the window by its title bar.
    Drag,
}

pub const VK_ESCAPE: u32 = 0x1B;

pub const VK_PRIOR: u32 = 0x21;

pub const VK_NEXT: u32 = 0x22;

pub const VK_HOME: u32 = 0x24;

pub const VK_UP: u32 = 0x26;

pub const VK_DOWN: u32 = 0x28;

/// Section and scroll after a key, where a page is `page` pixels.
pub open spec fn keyed(section: int, scroll: int, limit: int, vk: u32, page: int) -> (int, int) {
    if vk == VK_UP {
        if section > 0 {
            (section - 1, 0)
        } else {
            (section, scroll)
        }
    } else if vk == VK_DOWN {
        if section + 1 < SECTIONS {
            (section + 1, 0)
        } else {
            (section, scroll)
        }
    } else if vk == VK_PRIOR {
        (section, clamped(scroll - page, 0, limit))
    } else if vk == VK_NEXT {
        (section, clamped(scroll + page, 0, limit))
    } else if vk == VK_HOME {
        (section, 0)
    } else {
        (section, scroll)
    }
}

impl State {
    pub open spec fn wf(&self) -> bool {
        &&& self.section < SECTIONS
        &&& 0 <= self.scroll <= 0x1c00_0000
        &&& 0 <= self.content_h <= 0x1c00_0000
    }

    /// The heights of the rows in view add up.
    pub open spec fn fits(&self, dpi: int) -> bool {
        self.info matches Some(i) ==> rows_fit(section_rows(self.section as int, i), dpi)
    }

    /// Nothing but the scroll and the section differs.
    pub open spec fn same_window(&self, other: State) -> bool {
        &&& self.accent == other.accent
        &&& self.hover == other.hover
        &&& self.content_h == other.content_h
        &&& self.tracking == other.tracking
        &&& self.info == other.info
    }

    pub fn show(accent: u32) -> (r: State)
        ensures
            r.wf(),
            r.accent == accent,
            r.section == 0,
            r.hover == Hit::Nothing,
            r.scroll == 0,
            r.content_h == 0,
            !r.tracking,
            r.info is None,
    {
        State {
            accent,
            section: 0,
            hover: Hit::Nothing,
            scroll: 0,
            content_h: 0,
            tracking: false,
            info: None,
        }
    }

    /// Take what was gathered.
    pub fn on_data(&mut self, info: SysInfo)
        requires
            old(self).wf(),
        ensures
            final(self).wf(),
            final(self).info == Some(info),
            final(self).scroll == 0,
            final(self).section == old(self).section,
            final(self).accent == old(self).accent,
            final(self).hover == old(self).hover,
            final(self).tracking == old(self).tracking,
            final(self).content_h == old(self).content_h,
    {
        self.info = Some(info);
        self.scroll = 0;
    }

    pub fn on_mouse_move(&mut self, x: i32, y: i32, dpi: i32) -> (r: MoveOutcome)
        requires
            old(self).wf(),
            valid_dpi(dpi),
        ensures
            final(self).wf(),
            final(self).tracking,
            final(self).hover == hit_at(x as int, y as int, dpi as int),
            r.track == !old(self).tracking,
            r.repaint == (final(self).hover != old(self).hover),
            final(self).section == old(self).section,
            final(self).scroll == old(self).scroll,
            final(self).info == old(self).info,
            final(self).content_h == old(self).content_h,
            final(self).accent == old(self).accent,
    {
        let h = hit(x, y, dpi);
        let track = !self.tracking;
        let repaint = self.hover != h;
        self.tracking = true;
        self.hover = h;
        MoveOutcome { track, repaint }
    }

    /// The mouse left. Whether anything is to be repainted.
    pub fn on_mouse_leave(&mut self) -> (r: bool)
        requires
            old(self).wf(),
        ensures
            final(self).wf(),
            !final(self).tracking,
            final(self).hover == Hit::Nothing,
            r == (old(self).hover != Hit::Nothing),
            final(self).section == old(self).section,
            final(self).scroll == old(self).scroll,
            final(self).info == old(self).info,
            final(self).content_h == old(self).content_h,
            final(self).accent == old(self).accent,
    {
        let changed = self.hover != Hit::Nothing;
        self.tracking = false;
        self.hover = Hit::Nothing;
        changed
    }

    /// A press closes the window, picks a section, or drags the title bar.
    pub fn on_button_down(&mut self, x: i32, y: i32, dpi: i32) -> (r: Outcome)
        requires
            old(self).wf(),
            valid_dpi(dpi),
        ensures
            final(self).wf(),
            final(self).same_window(*old(self)),
            match hit_at(x as int, y as int, dpi as int) {
                Hit::Close => r == Outcome::Close && final(self).section == old(self).section
                    && final(self).scroll == old(self).scroll,
                Hit::Nav(i) => {
                    &&& final(self).section == i
                    &&& if i == old(self).section {
                        r == Outcome::Nothing && final(self).scroll == old(self).scroll
                    } else {
                        r == Outcome::Repaint && final(self).scroll == 0
                    }
                },
                Hit::Nothing => {
                    &&& final(self).section == old(self).section
                    &&& final(self).scroll == old(self).scroll
                    &&& r == if y < px(TITLE_H as int, dpi as int) {
                        Outcome::Drag
                    } else {
                        Outcome::Nothing
                    }
                },
            },
    {
        match hit(x, y, dpi) {
            Hit::Close => Outcome::Close,
            Hit::Nav(i) => {
                if self.section != i {
                    self.section = i;
                    self.scroll = 0;
                    Outcome::Repaint
                } else {
                    Outcome::Nothing
                }
            },
            Hit::Nothing => {
                if y < scaled(TITLE_H, dpi) {
                    Outcome::Drag
                } else {
                    Outcome::Nothing
                }
            },
        }
    }

    /// Scroll to a place as near as the content allows. Whether that is another one.
    fn scroll_to(&mut self, wanted: i32) -> (r: bool)
        requires
            old(self).wf(),
        ensures
            final(self).wf(),
            final(self).same_window(*old(self)),
            final(self).section == old(self).section,
            final(self).scroll == clamped(wanted as int, 0, old(self).content_h as int),
            r == (final(self).scroll != old(self).scroll),
    {
        let next: i32 = clamp_i32(wanted, 0, self.content_h);
        let changed = next != self.scroll;
        self.scroll = next;
        changed
    }

    /// Scroll by a turn of the wheel. Whether anything is to be repainted.
    pub fn on_wheel(&mut self, delta: i32, dpi: i32) -> (r: bool)
        requires
            old(self).wf(),
            valid_dpi(dpi),
            -32768 <= delta <= 32767,
        ensures
            final(self).wf(),
            final(self).same_window(*old(self)),
            final(self).section == old(self).section,
            final(self).scroll == clamped(
                old(self).scroll - toward_zero(px(40, dpi as int) * delta, 120),
                0,
                old(self).content_h as int,
            ),
            final(self).scroll == crate::geometry::wheeled(
                old(self).scroll as int,
                delta as int,
                px(40, dpi as int),
                old(self).content_h as int,
            ),
            r == (final(self).scroll != old(self).scroll),
    {
        let s: i32 = scaled(40, dpi);
        assert(-32768 * 13680 <= s * delta <= 32767 * 13680) by (nonlinear_arith)
            requires
                0 <= s <= 13680,
                -32768 <= delta <= 32767,
        ;
        let step: i32 = s * delta / 120;
        self.scroll_to(self.scroll - step)
    }

    /// Act on a key: Up and Down pick a section, Page Up and Page Down scroll, Home
    /// goes to the top, Escape closes.
    pub fn on_key(&mut self, vk: u32, dpi: i32) -> (r: Outcome)
        requires
            old(self).wf(),
            valid_dpi(dpi),
        ensures
            final(self).wf(),
            final(self).same_window(*old(self)),
            r == Outcome::Close <==> vk == VK_ESCAPE,
            final(self).section == if vk == VK_UP && old(self).section > 0 {
                old(self).section - 1
            } else if vk == VK_DOWN && old(self).section < SECTIONS - 1 {
                old(self).section + 1
            } else {
                old(self).section as int
            },
            final(self).scroll == if vk == VK_HOME || final(self).section != old(self).section {
                0
            } else if vk == VK_PRIOR {
                clamped(old(self).scroll - px(200, dpi as int), 0, old(self).content_h as int)
            } else if vk == VK_NEXT {
                clamped(old(self).scroll + px(200, dpi as int), 0, old(self).content_h as int)
            } else {
                old(self).scroll as int
            },
            r == Outcome::Repaint <==> vk == VK_HOME || final(self).section != old(self).section
                || final(self).scroll != old(self).scroll,
            r == Outcome::Close || r == Outcome::Repaint || r == Outcome::Nothing,
            (final(self).section as int, final(self).scroll as int) == keyed(
                old(self).section as int,
                old(self).scroll as int,
                old(self).content_h as int,
                vk,
                px(200, dpi as int),
            ),
    {
        if vk == VK_ESCAPE {
            return Outcome::Close;
        }
        let repaint = if vk == VK_UP {
            if self.section > 0 {
                self.section = self.section - 1;
                self.scroll = 0;
                true
            } else {
                false
            }
        } else if vk == VK_DOWN {
            if self.section < SECTIONS - 1 {
                self.section = self.section + 1;
                self.scroll = 0;
                true
            } else {
                false
            }
        } else if vk == VK_PRIOR {
            self.scroll_to(self.scroll - scaled(200, dpi))
        } else if vk == VK_NEXT {
            self.scroll_to(self.scroll + scaled(200, dpi))
        } else if vk == VK_HOME {
            self.scroll = 0;
            true
        } else {
            false
        };
        if repaint {
            Outcome::Repaint
        } else {
            Outcome::Nothing
        }
    }
}

// ---- Launching ----

/// How System Information comes up.
pub enum Launch {
    /// A window of that title is open: bring it to the front.
    Focus,
    /// Start this app; where that fails, the built-in window.
    External(String),
    BuiltIn,
}

/// An open window is focused rather than stacking new ones; else a configured app
/// is preferred to the built-in window.
pub fn launch(open: bool, app: &Option<String>) -> (r: Launch)
    ensures
        open <==> r is Focus,
        !open ==> match opt_view(*app) {
            Some(a) => r matches Launch::External(s) && s@ == a,
            None => r is BuiltIn,
        },
{
    if open {
        Launch::Focus
    } else {
        match app {
            Some(s) => Launch::External(s.clone()),
            None => Launch::BuiltIn,
        }
    }
}

// ---- The window's icon ----

/// A color's channels, each below 256: red is the lowest byte of 0x00BBGGRR.
pub open spec fn red(c: u32) -> int {
    c as int % 256
}

pub open spec fn green(c: u32) -> int {
    c as int / 256 % 256
}

pub open spec fn blue(c: u32) -> int {
    c as int / 65536 % 256
}

/// How much of a pixel the white glyph covers: its brightest channel.
pub open spec fn coverage(p: u32) -> int {
    max2(max2(p as int % 256, p as int / 256 % 256), p as int / 65536 % 256)
}

/// A pixel of the icon: the color under the glyph's coverage, premultiplied, with
/// the coverage as alpha.
pub open spec fn tinted(p: u32, color: u32) -> int {
    let a = coverage(p);
    a * 0x100_0000 + (red(color) * a / 255) * 0x1_0000 + (green(color) * a / 255) * 0x100 + blue(
        color,
    ) * a / 255
}

/// The byte of `v` that starts at bit `shift`.
fn byte_at(v: u32, shift: u32) -> (r: u32)
    requires
        shift == 0 || shift == 8 || shift == 16,
    ensures
        shift == 0 ==> r == v as int % 256,
        shift == 8 ==> r == v as int / 256 % 256,
        shift == 16 ==> r == v as int / 65536 % 256,
        r < 256,
{
    if shift == 0 {
        v % 256
    } else if shift == 8 {
        v / 256 % 256
    } else {
        v / 65536 % 256
    }
}

fn premultiplied(c: u32, a: u32) -> (r: u32)
    requires
        c < 256,
        a < 256,
    ensures
        r == (c * a) as int / 255,
        r < 256,
{
    assert(0 <= c * a <= 255 * 255) by (nonlinear_arith)
        requires
            c <= 255,
            a <= 255,
    ;
    c * a / 255
}

pub fn tint_pixel(p: u32, color: u32) -> (r: u32)
    ensures
        r == tinted(p, color),
{
    let b0: u32 = byte_at(p, 0);
    let b1: u32 = byte_at(p, 8);
    let b2: u32 = byte_at(p, 16);
    let m: u32 = if b0 >= b1 {
        b0
    } else {
        b1
    };
    let a: u32 = if m >= b2 {
        m
    } else {
        b2
    };
    let r: u32 = premultiplied(byte_at(color, 0), a);
    let g: u32 = premultiplied(byte_at(color, 8), a);
    let b: u32 = premultiplied(byte_at(color, 16), a);
    a * 0x100_0000 + r * 0x1_0000 + g * 0x100 + b
}

/// Recolor the pixels of a white glyph on black.
pub fn make_glyph_icon(pixels: &mut Vec<u32>, color: u32)
    ensures
        final(pixels)@.len() == old(pixels)@.len(),
        forall|i: int|
            0 <= i < old(pixels)@.len() ==> #[trigger] final(pixels)@[i] == tinted(
                old(pixels)@[i],
                color,
            ),
{
    let mut i: usize = 0;
    while i < pixels.len()
        invariant
            i <= pixels.len() == old(pixels)@.len(),
            forall|k: int| 0 <= k < i ==> #[trigger] pixels@[k] == tinted(old(pixels)@[k], color),
            forall|k: int| i <= k < pixels.len() ==> #[trigger] pixels@[k] == old(pixels)@[k],
        decreases pixels.len() - i,
    {
        let t: u32 = tint_pixel(pixels[i], color);
        pixels.set(i, t);
        i = i + 1;
    }
}

/// Height of the glyph in an icon `size` pixels high.
pub fn glyph_height(size: i32) -> (r: i32)
    requires
        0 <= size,
        size * 72 <= i32::MAX,
    ensures
        r == size * 72 / 100,
{
    size * 72 / 100
}

/// An icon's pixels are premultiplied: no channel is brighter than the alpha. Where
/// the glyph does not reach, the pixel is clear; under the full glyph it has the
/// color itself.
pub proof fn icon_is_premultiplied(p: u32, color: u32)
    ensures
        ({
            let a = coverage(p);
            &&& 0 <= a <= 255
            &&& red(color) * a / 255 <= a
            &&& green(color) * a / 255 <= a
            &&& blue(color) * a / 255 <= a
            &&& a == 0 ==> tinted(p, color) == 0
            &&& a == 255 ==> tinted(p, color) == 0xFF00_0000 + red(color) * 0x1_0000 + green(color)
                * 0x100 + blue(color)
        }),
{
    let a = coverage(p);
    lemma_scaled_channel(red(color), a);
    lemma_scaled_channel(green(color), a);
    lemma_scaled_channel(blue(color), a);
}

proof fn lemma_scaled_channel(c: int, a: int)
    requires
        0 <= c <= 255,
        0 <= a <= 255,
    ensures
        0 <= c * a / 255 <= a,
        a == 0 ==> c * a / 255 == 0,
        a == 255 ==> c * a / 255 == c,
{
    assert(0 <= c * a <= 255 * a) by (nonlinear_arith)
        requires
            0 <= c <= 255,
            0 <= a,
    ;
    if a == 0 {
        assert(c * a == 0) by (nonlinear_arith)
            requires
                a == 0,
        ;
    }
    if a == 255 {
        assert(c * a == c * 255) by (nonlinear_arith)
            requires
                a == 255,
        ;
    }
}

// ---- What the window is for ----

/// Each section has its place in the navigation, below the one before it, and is hit
/// inside it; the close button is in the upper right corner.
pub proof fn each_section_is_hit_inside_it(i: int, x: int, y: int, dpi: int)
    requires
        0 <= i < 4,
        0 <= dpi <= 32767,
    ensures
        nav_rect(i, dpi).has(x, y) ==> hit_at(x, y, dpi) == Hit::Nav(i as usize),
        close_rect(dpi).has(x, y) ==> hit_at(x, y, dpi) == Hit::Close,
        close_rect(dpi).right == px(WIDTH as int, dpi) && close_rect(dpi).top == 0,
        i < 3 ==> nav_rect(i, dpi).bottom <= nav_rect(i + 1, dpi).top,
{
    crate::geometry::lemma_px(WIDTH as int, dpi);
    crate::geometry::lemma_px(CLOSE as int, dpi);
    crate::geometry::lemma_px(TITLE_H as int, dpi);
    crate::geometry::lemma_px(NAV_TOP as int, dpi);
    crate::geometry::lemma_px(NAV_ITEM_H as int, dpi);
    crate::geometry::lemma_px(NAV_W as int, dpi);
    crate::geometry::lemma_px(6, dpi);
    crate::geometry::lemma_px(4, dpi);
    let h = px(NAV_ITEM_H as int, dpi);
    assert(0 * h == 0 && 1 * h == h && 2 * h == h + h && 3 * h == h + h + h) by (nonlinear_arith);
    reveal(px);
}

/// The sections are named for what they show.
pub proof fn sections_are_named_for_what_they_show()
    ensures
        section_name(0) == "System"@,
        section_name(1) == "CPU & Memory"@,
        section_name(2) == "Graphics & Displays"@,
        section_name(3) == "Storage & Network"@,
{
}

/// A pixel that the glyph covers whole has the icon's color, and one that it does not
/// cover is transparent.
pub proof fn covered_pixels_have_the_color(color: u32)
    ensures
        tinted(0xFFFFFF, color) == 0xFF00_0000 + (color as int % 256) * 0x1_0000 + (color as int / 256
            % 256) * 0x100 + color as int / 65536 % 256,
        tinted(0, color) == 0,
{
    assert(coverage(0xFFFFFF) == 255);
    assert(coverage(0) == 0);
    let r = red(color);
    let g = green(color);
    let b = blue(color);
    assert(r * 255 / 255 == r && g * 255 / 255 == g && b * 255 / 255 == b);
    assert(r * 0 / 255 == 0 && g * 0 / 255 == 0 && b * 0 / 255 == 0);
}

/// Down and Up go through the four sections and undo each other, each from its top;
/// Page Down and Page Up scroll and undo each other away from the ends; Home goes to
/// the top; other keys change nothing.
pub proof fn keys_go_through_the_sections(section: int, scroll: int, limit: int, vk: u32, page: int)
    requires
        0 <= section < 4,
        0 <= scroll <= limit,
        0 <= page,
    ensures
        section < 3 ==> keyed(section, scroll, limit, 0x28, page) == (section + 1, 0int),
        section == 3 ==> keyed(section, scroll, limit, 0x28, page) == (section, scroll),
        section > 0 ==> keyed(section, scroll, limit, 0x26, page) == (section - 1, 0int),
        section == 0 ==> keyed(section, scroll, limit, 0x26, page) == (section, scroll),
        scroll + page <= limit ==> {
            &&& keyed(section, scroll, limit, 0x22, page) == (section, scroll + page)
            &&& keyed(section, scroll + page, limit, 0x21, page) == (section, scroll)
        },
        scroll + page > limit ==> keyed(section, scroll, limit, 0x22, page) == (section, limit),
        keyed(section, scroll, limit, 0x24, page) == (section, 0int),
        (vk != 0x21 && vk != 0x22 && vk != 0x24 && vk != 0x26 && vk != 0x28) ==> keyed(
            section,
            scroll,
            limit,
            vk,
            page,
        ) == (section, scroll),
{
}

} // verus!
