//! Window switcher on Alt+Tab.
//!
//! A keyboard hook captures Alt+Tab (and the navigation that follows while Alt is
//! held) and drives a centered overlay panel: one tile per top-level window. Tiles
//! flow left-to-right and wrap into a grid once a row would run past 85% of the
//! screen width.
//!
//! Tab / →   next, Shift+Tab / ←   previous, ↑/↓ move by a row, Esc cancels,
//! releasing Alt (or Enter, or a mouse click) activates the selected window.

use vstd::prelude::*;
use vstd::string::*;
use crate::geometry::{lemma_px, max2, min2, px, rect, scaled, toward_zero, valid_dpi, Rect};
use crate::paint::{emit, fill, label, shown, Draw, DrawView, Font, LINE_ELLIPSIS};
use crate::search::{first, first_from, lemma_first_is};
use crate::taskbar::input::{
    HookKey, KeyStroke, WindowStep, LLKHF_INJECTED, WM_KEYDOWN, WM_SYSKEYDOWN,
};
use crate::taskbar::painting::centered;
use crate::taskbar::{
    WindowFacts, COL_ACCENT, COL_ACTIVE, COL_BG, COL_HOVER, COL_TEXT, COL_TEXT_DIM,
    WS_EX_TOOLWINDOW,
};
use crate::text::same_str;

verus! {

// Tile / panel geometry (unscaled px).
pub const TILE_W: i32 = 200;

pub const TILE_H: i32 = 150;

/// Icon + title strip at the top of each tile.
pub const HEADER_H: i32 = 30;

/// Inset inside a tile.
pub const TILE_PAD: i32 = 6;

/// Gap between tiles.
pub const GAP: i32 = 10;

/// Panel border around the grid.
pub const PANEL_PAD: i32 = 12;

/// The grid wraps once a row would exceed this fraction of the screen width.
pub const MAX_WIDTH_PCT: i32 = 85;

// ---------------------------------------------------------------------------
// Keyboard hook

pub const WM_KEYUP: u32 = 0x101;

pub const WM_SYSKEYUP: u32 = 0x105;

pub const VK_TAB: u32 = 0x09;

pub const VK_RETURN: u32 = 0x0D;

pub const VK_ESCAPE: u32 = 0x1B;

pub const VK_LEFT: u32 = 0x25;

pub const VK_UP: u32 = 0x26;

pub const VK_RIGHT: u32 = 0x27;

pub const VK_DOWN: u32 = 0x28;

pub const VK_LMENU: u32 = 0xA4;

pub const VK_RMENU: u32 = 0xA5;

/// What the hook tells the overlay to do.
#[derive(Clone, Copy, PartialEq, Eq, Structural, Debug)]
pub enum Post {
    Step(bool),
    NavRow(bool),
    Commit,
    Cancel,
}

/// What the hook answers to a key.
#[derive(Clone, Copy, PartialEq, Eq, Structural, Debug)]
pub struct HookAnswer {
    pub post: Option<Post>,
    /// Send a dummy keystroke, so that the Alt no longer reads as pressed alone.
    pub dummy: bool,
    /// Keep the key from everyone else.
    pub swallow: bool,
}

/// The state of the keys and the overlay when a key event comes.
#[derive(Clone, Copy, PartialEq, Eq, Structural, Debug)]
pub struct Held {
    /// The overlay window exists.
    pub overlay: bool,
    pub alt: bool,
    pub shift: bool,
}

pub open spec fn is_alt(vk: u32) -> bool {
    vk == VK_LMENU || vk == VK_RMENU
}

pub open spec fn is_up(message: u32) -> bool {
    message == WM_KEYUP || message == WM_SYSKEYUP
}

/// What a key means while the switcher is up.
pub open spec fn navigation(vk: u32) -> Option<Post> {
    if vk == VK_ESCAPE {
        Some(Post::Cancel)
    } else if vk == VK_RIGHT {
        Some(Post::Step(true))
    } else if vk == VK_LEFT {
        Some(Post::Step(false))
    } else if vk == VK_DOWN {
        Some(Post::NavRow(true))
    } else if vk == VK_UP {
        Some(Post::NavRow(false))
    } else if vk == VK_RETURN {
        Some(Post::Commit)
    } else {
        None
    }
}

pub open spec fn nothing() -> HookAnswer {
    HookAnswer { post: None, dummy: false, swallow: false }
}

/// The answer to a key, and whether the switcher is engaged afterwards.
pub open spec fn answered(engaged: bool, k: HookKey, held: Held) -> (bool, HookAnswer) {
    if !k.counts() || !held.overlay {
        (engaged, nothing())
    } else if is_up(k.message) && is_alt(k.vk) && engaged {
        // Releasing Alt commits; the release itself goes through.
        (false, HookAnswer { post: Some(Post::Commit), dummy: false, swallow: false })
    } else if k.down() && k.vk == VK_TAB && held.alt {
        // Open the switcher, or advance it.
        (
            true,
            HookAnswer { post: Some(Post::Step(!held.shift)), dummy: !engaged, swallow: true },
        )
    } else if k.down() && engaged && navigation(k.vk) is Some {
        (
            k.vk != VK_ESCAPE && k.vk != VK_RETURN,
            HookAnswer { post: navigation(k.vk), dummy: false, swallow: true },
        )
    } else if engaged && (k.vk == VK_TAB || is_alt(k.vk) && k.down()) {
        // Tab and Alt repeats are kept from the window below.
        (engaged, HookAnswer { post: None, dummy: false, swallow: true })
    } else {
        (engaged, nothing())
    }
}

fn navigate(vk: u32) -> (r: Option<Post>)
    ensures
        r == navigation(vk),
{
    if vk == VK_ESCAPE {
        Some(Post::Cancel)
    } else if vk == VK_RIGHT {
        Some(Post::Step(true))
    } else if vk == VK_LEFT {
        Some(Post::Step(false))
    } else if vk == VK_DOWN {
        Some(Post::NavRow(true))
    } else if vk == VK_UP {
        Some(Post::NavRow(false))
    } else if vk == VK_RETURN {
        Some(Post::Commit)
    } else {
        None
    }
}

/// Decide on a key event. `engaged` holds from the opening Alt+Tab until the
/// gesture commits or cancels.
pub fn kb_hook(engaged: &mut bool, k: HookKey, held: Held) -> (r: HookAnswer)
    ensures
        (*final(engaged), r) == answered(*old(engaged), k, held),
{
    if k.code >= 0 && k.flags & LLKHF_INJECTED == 0 && held.overlay {
        let down = k.message == WM_KEYDOWN || k.message == WM_SYSKEYDOWN;
        let up = k.message == WM_KEYUP || k.message == WM_SYSKEYUP;
        let alt = k.vk == VK_LMENU || k.vk == VK_RMENU;
        let was = *engaged;
        if up && alt && was {
            *engaged = false;
            return HookAnswer { post: Some(Post::Commit), dummy: false, swallow: false };
        }
        if down {
            if k.vk == VK_TAB && held.alt {
                *engaged = true;
                return HookAnswer {
                    post: Some(Post::Step(!held.shift)),
                    dummy: !was,
                    swallow: true,
                };
            }
            if was {
                let post = navigate(k.vk);
                if post.is_some() {
                    if k.vk == VK_ESCAPE || k.vk == VK_RETURN {
                        *engaged = false;
                    }
                    return HookAnswer { post, dummy: false, swallow: true };
                }
            }
        }
        if was && (k.vk == VK_TAB || (alt && down)) {
            return HookAnswer { post: None, dummy: false, swallow: true };
        }
    }
    HookAnswer { post: None, dummy: false, swallow: false }
}

/// An undefined key, down and up, that breaks a "lone Alt" sequence.
pub fn dummy_strokes() -> (r: Vec<KeyStroke>)
    ensures
        r@ == seq![KeyStroke { vk: 0xFF, up: false }, KeyStroke { vk: 0xFF, up: true }],
{
    let mut v: Vec<KeyStroke> = Vec::new();
    v.push(KeyStroke { vk: 0xFF, up: false });
    v.push(KeyStroke { vk: 0xFF, up: true });
    assert(v@ =~= seq![KeyStroke { vk: 0xFF, up: false }, KeyStroke { vk: 0xFF, up: true }]);
    v
}

/// A gesture ends once: after the commit or cancel that ends it, releasing Alt
/// sends nothing more.
pub proof fn gesture_ends_once(engaged: bool, k: HookKey, held: Held, release: HookKey, later: Held)
    requires
        answered(engaged, k, held).1.post == Some(Post::Commit) || answered(
            engaged,
            k,
            held,
        ).1.post == Some(Post::Cancel),
        is_up(release.message) && is_alt(release.vk),
    ensures
        engaged,
        !answered(engaged, k, held).0,
        answered(answered(engaged, k, held).0, release, later) == (false, nothing()),
{
}

/// Whether the switcher is engaged after these keys, each with what was held.
pub open spec fn engaged_after(engaged: bool, keys: Seq<(HookKey, Held)>) -> bool
    decreases keys.len(),
{
    if keys.len() == 0 {
        engaged
    } else {
        let (k, held) = keys.last();
        answered(engaged_after(engaged, keys.drop_last()), k, held).0
    }
}

/// A key that ends a gesture: Alt coming up, Escape or Return.
pub open spec fn ends_gesture(k: HookKey) -> bool {
    is_up(k.message) && is_alt(k.vk) || k.vk == VK_ESCAPE || k.vk == VK_RETURN
}

/// Alt+Tab and then releasing Alt commits, with any keys in between that do not
/// end the gesture.
pub proof fn release_commits(
    engaged: bool,
    keys: Seq<(HookKey, Held)>,
    release: HookKey,
    later: Held,
)
    requires
        keys.len() > 0,
        ({
            let (tab, held) = keys[0];
            tab.counts() && tab.down() && tab.vk == VK_TAB && held.overlay && held.alt
        }),
        forall|i: int| 1 <= i < keys.len() ==> !ends_gesture((#[trigger] keys[i]).0),
        release.counts() && is_up(release.message) && is_alt(release.vk) && later.overlay,
    ensures
        engaged_after(engaged, keys),
        answered(engaged_after(engaged, keys), release, later) == (
            false,
            HookAnswer { post: Some(Post::Commit), dummy: false, swallow: false },
        ),
    decreases keys.len(),
{
    if keys.len() > 1 {
        assert(keys.drop_last()[0] == keys[0]);
        release_commits(engaged, keys.drop_last(), release, later);
        assert(!ends_gesture(keys[keys.len() - 1].0));
    } else {
        assert(keys.drop_last() =~= seq![]);
    }
}

// ---------------------------------------------------------------------------
// Windows

pub open spec fn own_class(class: Seq<char>) -> bool {
    ||| class == "Progman"@
    ||| class == "WorkerW"@
    ||| class == "Shell_TrayWnd"@
    ||| class == "Shell_SecondaryTrayWnd"@
    ||| class == "StartPE_Taskbar"@
    ||| class == "StartPE_Menu"@
    ||| class == "StartPE_Peek"@
    ||| class == "StartPE_AltTab"@
    ||| class == "StartPE_Desktop"@
}

/// A visible, titled, un-owned, non-tool, non-cloaked top-level window that is not
/// one of the shell's own.
pub fn eligible(w: &WindowFacts) -> (r: bool)
    ensures
        r == (w.visible && w.title_length != 0 && w.exstyle & WS_EX_TOOLWINDOW == 0 && w.cloaked
            == 0 && w.owner == 0 && !own_class(w.class@)),
{
    if !w.visible || w.title_length == 0 {
        return false;
    }
    if w.exstyle & WS_EX_TOOLWINDOW != 0 {
        return false;
    }
    if w.cloaked != 0 {
        return false;
    }
    if w.owner != 0 {
        return false;
    }
    let c = w.class.as_str();
    !(same_str(c, "Progman") || same_str(c, "WorkerW") || same_str(c, "Shell_TrayWnd") || same_str(
        c,
        "Shell_SecondaryTrayWnd",
    ) || same_str(c, "StartPE_Taskbar") || same_str(c, "StartPE_Menu") || same_str(
        c,
        "StartPE_Peek",
    ) || same_str(c, "StartPE_AltTab") || same_str(c, "StartPE_Desktop"))
}

/// Width and height of the box a screenshot is fitted into.
pub open spec fn thumb_box(dpi: int) -> (int, int) {
    (
        px(TILE_W as int, dpi) - 2 * px(TILE_PAD as int, dpi),
        px(TILE_H - HEADER_H, dpi) - 2 * px(TILE_PAD as int, dpi),
    )
}

/// `w` by `h` fitted into the box, preserving aspect.
pub open spec fn fitted(w: int, h: int, bw: int, bh: int) -> (int, int) {
    if w * bh <= h * bw {
        (max2(w * bh / h, 1), bh)
    } else {
        (bw, max2(h * bw / w, 1))
    }
}

/// The size of a window's thumbnail; `None` for a window without area, which has
/// none.
pub fn thumb_size(w: i32, h: i32, dpi: i32) -> (r: Option<(i32, i32)>)
    requires
        valid_dpi(dpi),
    ensures
        w <= 0 || h <= 0 <==> r is None,
        r matches Some(s) ==> {
            let b = thumb_box(dpi as int);
            (s.0 as int, s.1 as int) == fitted(w as int, h as int, b.0, b.1)
        },
{
    if w <= 0 || h <= 0 {
        return None;
    }
    proof {
        lemma_px(200, dpi as int);
        lemma_px(120, dpi as int);
        lemma_px(6, dpi as int);
    }
    let bw: i32 = scaled(TILE_W, dpi) - 2 * scaled(TILE_PAD, dpi);
    let bh: i32 = scaled(TILE_H - HEADER_H, dpi) - 2 * scaled(TILE_PAD, dpi);
    assert(0 <= bw <= 68400 && 0 <= bh <= 41040);
    assert(0 <= w * bh <= i32::MAX * 41040) by (nonlinear_arith)
        requires
            0 < w <= i32::MAX,
            0 <= bh <= 41040,
    ;
    assert(0 <= h * bw <= i32::MAX * 68400) by (nonlinear_arith)
        requires
            0 < h <= i32::MAX,
            0 <= bw <= 68400,
    ;
    let by_w: i64 = w as i64 * bh as i64;
    let by_h: i64 = h as i64 * bw as i64;
    if by_w <= by_h {
        let q: i64 = by_w / h as i64;
        assert(0 <= q <= bw) by (nonlinear_arith)
            requires
                0 <= by_w <= h * bw,
                0 < h,
                q == by_w as int / h as int,
        ;
        let sw: i32 = if q as i32 >= 1 {
            q as i32
        } else {
            1
        };
        Some((sw, bh))
    } else {
        let q: i64 = by_h / w as i64;
        assert(0 <= q <= bh) by (nonlinear_arith)
            requires
                0 <= by_h <= w * bh,
                0 < w,
                q == by_h as int / w as int,
        ;
        let sh: i32 = if q as i32 >= 1 {
            q as i32
        } else {
            1
        };
        Some((bw, sh))
    }
}

/// A thumbnail is no larger than the tile's box, and touches two of its sides.
pub proof fn thumbnail_fits(w: int, h: int, bw: int, bh: int)
    requires
        0 < w,
        0 < h,
        1 <= bw,
        1 <= bh,
    ensures
        ({
            let s = fitted(w, h, bw, bh);
            &&& 1 <= s.0 <= bw
            &&& 1 <= s.1 <= bh
            &&& s.0 == bw || s.1 == bh
        }),
{
    if w * bh <= h * bw {
        let q = w * bh / h;
        assert(q <= bw) by (nonlinear_arith)
            requires
                w * bh <= h * bw,
                0 < h,
                q == w * bh / h,
        ;
    } else {
        let q = h * bw / w;
        assert(q <= bh) by (nonlinear_arith)
            requires
                h * bw <= w * bh,
                0 < w,
                q == h * bw / w,
        ;
    }
}

// ---------------------------------------------------------------------------
// The panel

/// One switchable window and its captured presentation.
pub struct Entry {
    pub hwnd: u64,
    pub title: String,
    pub icon: Option<u64>,
    /// Screenshot pre-scaled to fit a tile's thumbnail area, with its size. `None`
    /// for minimized / un-capturable windows (icon shown instead).
    pub shot: Option<u64>,
    pub shot_w: i32,
    pub shot_h: i32,
}

pub struct EntryView {
    pub hwnd: u64,
    pub title: Seq<char>,
    pub icon: Option<u64>,
    pub shot: Option<u64>,
    pub shot_w: i32,
    pub shot_h: i32,
}

impl View for Entry {
    type V = EntryView;

    open spec fn view(&self) -> EntryView {
        EntryView {
            hwnd: self.hwnd,
            title: self.title@,
            icon: self.icon,
            shot: self.shot,
            shot_w: self.shot_w,
            shot_h: self.shot_h,
        }
    }
}

/// The switcher's state.
pub struct AltTab {
    pub entries: Vec<Entry>,
    pub selected: usize,
    pub cols: usize,
    pub width: i32,
    pub height: i32,
    /// Tile under the mouse, for hover highlight.
    pub hover: Option<usize>,
    pub shown: bool,
}

/// Columns: as many tiles as fit within the share of the screen, at least one.
pub open spec fn columns(n: int, screen_w: int, dpi: int) -> int {
    let room = toward_zero(screen_w * MAX_WIDTH_PCT, 100) - 2 * px(PANEL_PAD as int, dpi) + px(
        GAP as int,
        dpi,
    );
    min2(max2(toward_zero(room, px(TILE_W as int, dpi) + px(GAP as int, dpi)), 1), n)
}

/// How many rows `n` tiles take.
pub open spec fn rows_of(n: int, cols: int) -> int {
    (n + cols - 1) / cols
}

/// What `n` tiles of `size` take side by side, with gaps.
pub open spec fn strip(n: int, size: int, dpi: int) -> int {
    n * size + (n - 1) * px(GAP as int, dpi)
}

pub open spec fn panel_w(cols: int, dpi: int) -> int {
    2 * px(PANEL_PAD as int, dpi) + strip(cols, px(TILE_W as int, dpi), dpi)
}

pub open spec fn panel_h(n: int, cols: int, dpi: int) -> int {
    2 * px(PANEL_PAD as int, dpi) + strip(rows_of(n, cols), px(TILE_H as int, dpi), dpi)
}

/// Tiles on the row of tile `i`: the last row may hold fewer.
pub open spec fn in_row(cols: int, n: int, i: int) -> int {
    if i / cols + 1 == rows_of(n, cols) {
        n - cols * (i / cols)
    } else {
        cols
    }
}

/// Rectangle of tile `i` out of `n` in a panel `width` pixels wide. The final,
/// partial row is centered.
pub open spec fn tile(cols: int, n: int, width: int, i: int, dpi: int) -> Rect {
    let tile_w = px(TILE_W as int, dpi);
    let tile_h = px(TILE_H as int, dpi);
    let gap = px(GAP as int, dpi);
    let x = toward_zero(width - strip(in_row(cols, n, i), tile_w, dpi), 2) + (i % cols) * (tile_w
        + gap);
    let y = px(PANEL_PAD as int, dpi) + (i / cols) * (tile_h + gap);
    rect(x, y, x + tile_w, y + tile_h)
}

/// The grid's coordinates have room for `n` windows.
pub open spec fn windows_fit(n: int, dpi: int) -> bool {
    &&& n <= 0x1000_0000
    &&& n * (px(TILE_W as int, dpi) + px(GAP as int, dpi)) <= 0x4640_0000
}

/// A tile is wider than high, so what fits side by side fits below each other.
proof fn lemma_windows_fit(n: int, m: int, dpi: int)
    requires
        0 <= n <= m,
        windows_fit(m, dpi),
        0 <= dpi <= 32767,
    ensures
        0 <= n * (px(TILE_W as int, dpi) + px(GAP as int, dpi)) <= 0x4640_0000,
        0 <= n * (px(TILE_H as int, dpi) + px(GAP as int, dpi)) <= 0x4640_0000,
{
    lemma_px(200, dpi);
    lemma_px(150, dpi);
    lemma_px(10, dpi);
    let w = px(TILE_W as int, dpi) + px(GAP as int, dpi);
    let h = px(TILE_H as int, dpi) + px(GAP as int, dpi);
    assert(h <= w) by {
        reveal(px);
    }
    assert(0 <= n * h <= n * w <= m * w) by (nonlinear_arith)
        requires
            0 <= n <= m,
            0 <= h <= w,
    ;
}

proof fn lemma_grid(cols: int, n: int, i: int)
    requires
        1 <= cols <= n,
        0 <= i < n,
    ensures
        0 <= i / cols < rows_of(n, cols) <= n,
        0 <= i % cols < in_row(cols, n, i) <= cols,
        i == cols * (i / cols) + i % cols,
{
    let row = i / cols;
    let rows = rows_of(n, cols);
    assert(i == cols * row + i % cols && 0 <= i % cols < cols) by (nonlinear_arith)
        requires
            cols > 0,
            row == i / cols,
    ;
    assert(cols * rows <= n + cols - 1 < cols * rows + cols) by (nonlinear_arith)
        requires
            cols > 0,
            rows == (n + cols - 1) / cols,
    ;
    assert(0 <= row) by (nonlinear_arith)
        requires
            cols > 0,
            i >= 0,
            row == i / cols,
    ;
    assert(row < rows) by (nonlinear_arith)
        requires
            cols > 0,
            cols * row <= i < n,
            n + cols - 1 < cols * rows + cols,
    ;
    assert(rows <= n) by (nonlinear_arith)
        requires
            1 <= cols <= n,
            cols * rows <= n + cols - 1,
    ;
    if row + 1 == rows {
        assert(n <= cols * row + cols) by (nonlinear_arith)
            requires
                n + cols - 1 < cols * rows + cols,
                row + 1 == rows,
        ;
    }
}

proof fn lemma_strip(n: int, m: int, size: int, dpi: int)
    requires
        1 <= n <= m,
        0 <= size,
        0 <= dpi <= 32767,
    ensures
        size <= strip(n, size, dpi) <= strip(m, size, dpi),
        strip(m, size, dpi) <= m * (size + px(GAP as int, dpi)),
        strip(n, size, dpi) == (n - 1) * (size + px(GAP as int, dpi)) + size,
{
    lemma_px(10, dpi);
    let g = px(10, dpi);
    assert(size <= n * size + (n - 1) * g <= m * size + (m - 1) * g) by (nonlinear_arith)
        requires
            1 <= n <= m,
            0 <= size,
            0 <= g,
    ;
    assert(m * size + (m - 1) * g <= m * (size + g)) by (nonlinear_arith)
        requires
            1 <= m,
            0 <= size,
            0 <= g,
    ;
    assert(n * size + (n - 1) * g == (n - 1) * (size + g) + size) by (nonlinear_arith);
}

/// Bounds by which the grid's sums fit.
proof fn lemma_tile_bounds(cols: int, n: int, i: int, dpi: int)
    requires
        1 <= cols <= n,
        windows_fit(n, dpi),
        0 <= i < n,
        0 <= dpi <= 32767,
    ensures
        ({
            let tw = px(TILE_W as int, dpi);
            let th = px(TILE_H as int, dpi);
            let g = px(GAP as int, dpi);
            let k = in_row(cols, n, i);
            &&& 0 <= strip(k, tw, dpi) <= 0x4640_0000
            &&& 0 <= k * tw <= 0x4640_0000
            &&& 0 <= (k - 1) * g <= 0x4640_0000
            &&& 0 <= (i % cols) * (tw + g) <= 0x4640_0000
            &&& 0 <= (i / cols) * (th + g) <= 0x4640_0000
        }),
{
    lemma_grid(cols, n, i);
    lemma_px(200, dpi);
    lemma_px(150, dpi);
    lemma_px(10, dpi);
    let tw = px(TILE_W as int, dpi);
    let th = px(TILE_H as int, dpi);
    let g = px(GAP as int, dpi);
    let k = in_row(cols, n, i);
    lemma_strip(k, n, tw, dpi);
    lemma_windows_fit(n, n, dpi);
    assert(0 <= k * tw && 0 <= (k - 1) * g) by (nonlinear_arith)
        requires
            1 <= k,
            0 <= tw,
            0 <= g,
    ;
    let c = i % cols;
    assert(0 <= c * (tw + g) <= (k - 1) * (tw + g)) by (nonlinear_arith)
        requires
            0 <= c <= k - 1,
            0 <= tw,
            0 <= g,
    ;
    let r = i / cols;
    lemma_windows_fit(r, n, dpi);
}

/// The columns that `n` tiles fill: one at least, and no more than there are tiles.
pub open spec fn filled_cols(cols: int, n: int) -> int {
    max2(min2(cols, n), 1)
}

/// Grid rect (in panel client coords) of tile `i`.
pub fn tile_rect(cols: usize, n: usize, width: i32, i: usize, dpi: i32) -> (r: Rect)
    requires
        valid_dpi(dpi),
        i < n,
        windows_fit(n as int, dpi as int),
        -0x1000_0000 <= width <= 0x3800_0000,
    ensures
        r == tile(
            filled_cols(cols as int, n as int),
            n as int,
            width as int,
            i as int,
            dpi as int,
        ),
        -0x4800_0000 <= r.left <= r.right <= 0x7000_0000,
        0 <= r.top <= r.bottom <= 0x4800_0000,
        r.right - r.left == px(TILE_W as int, dpi as int),
        r.bottom - r.top == px(TILE_H as int, dpi as int),
{
    let cols: usize = if cols == 0 {
        1
    } else if cols > n {
        n
    } else {
        cols
    };
    proof {
        lemma_tile_bounds(cols as int, n as int, i as int, dpi as int);
        lemma_grid(cols as int, n as int, i as int);
    }
    let tile_w: i32 = scaled(TILE_W, dpi);
    let tile_h: i32 = scaled(TILE_H, dpi);
    let gap: i32 = scaled(GAP, dpi);
    let pad: i32 = scaled(PANEL_PAD, dpi);
    let row: usize = i / cols;
    let col: usize = i % cols;
    let rows: usize = (n + cols - 1) / cols;
    assert(0 <= cols * row <= i) by (nonlinear_arith)
        requires
            i == cols * (i as int / cols as int) + (i as int % cols as int),
            row == i as int / cols as int,
            0 <= (i as int % cols as int),
            0 <= cols,
            0 <= row,
    ;
    let here: i32 = if row + 1 == rows {
        (n - cols * row) as i32
    } else {
        cols as i32
    };
    assert(here == in_row(cols as int, n as int, i as int));
    let row_w: i32 = here * tile_w + (here - 1) * gap;
    let x: i32 = (width - row_w) / 2 + col as i32 * (tile_w + gap);
    let y: i32 = pad + row as i32 * (tile_h + gap);
    Rect { left: x, top: y, right: x + tile_w, bottom: y + tile_h }
}

/// The screenshots among the entries, in order.
pub open spec fn shots(v: Seq<Entry>) -> Seq<u64>
    decreases v.len(),
{
    if v.len() == 0 {
        seq![]
    } else {
        match v.last().shot {
            Some(s) => shots(v.drop_last()).push(s),
            None => shots(v.drop_last()),
        }
    }
}

/// The window that a gesture switches to.
pub open spec fn chosen(entries: Seq<Entry>, selected: int) -> Option<u64> {
    if 0 <= selected < entries.len() {
        Some(entries[selected].hwnd)
    } else {
        None
    }
}

/// Where the panel opens.
#[derive(Clone, Copy, PartialEq, Eq, Structural, Debug)]
pub struct Panel {
    pub x: i32,
    pub y: i32,
    pub width: i32,
    pub height: i32,
    /// Corner radius of the panel's outline.
    pub corner: i32,
}

impl AltTab {
    /// What every operation keeps: a selection and a grid that fit the entries.
    pub open spec fn wf(&self) -> bool {
        &&& self.entries@.len() <= 0x1000_0000
        &&& self.entries@.len() > 0 ==> {
            &&& self.selected < self.entries@.len()
            &&& 1 <= self.cols <= self.entries@.len()
        }
        &&& 0 <= self.width <= 0x2000_0000
        &&& 0 <= self.height <= 0x4800_0000
        &&& self.shown ==> self.entries@.len() > 0
        &&& forall|i: int|
            0 <= i < self.entries@.len() ==> {
                &&& 0 <= (#[trigger] self.entries@[i]).shot_w <= 0x1000_0000
                &&& 0 <= self.entries@[i].shot_h <= 0x1000_0000
            }
    }

    /// The grid's coordinates have room for the entries.
    pub open spec fn fits(&self, dpi: int) -> bool {
        windows_fit(self.entries@.len() as int, dpi)
    }

    /// Nothing open.
    pub fn new() -> (r: AltTab)
        ensures
            r.wf(),
            !r.shown,
            r.entries@.len() == 0,
            r.selected == 0,
            r.cols == 1,
            r.width == 0,
            r.height == 0,
            r.hover is None,
    {
        AltTab {
            entries: Vec::new(),
            selected: 0,
            cols: 1,
            width: 0,
            height: 0,
            hover: None,
            shown: false,
        }
    }

    /// Drop the entries, and hand out their screenshots to be deleted.
    fn free_shots(&mut self) -> (r: Vec<u64>)
        ensures
            r@ == shots(old(self).entries@),
            final(self).entries@.len() == 0,
            final(self).selected == old(self).selected,
            final(self).cols == old(self).cols,
            final(self).width == old(self).width,
            final(self).height == old(self).height,
            final(self).hover == old(self).hover,
            final(self).shown == old(self).shown,
    {
        let mut out: Vec<u64> = Vec::new();
        let mut i: usize = 0;
        assert(self.entries@.take(0) =~= seq![]);
        while i < self.entries.len()
            invariant
                i <= self.entries.len(),
                out@ == shots(self.entries@.take(i as int)),
                *self == *old(self),
            decreases self.entries.len() - i,
        {
            match self.entries[i].shot {
                Some(s) => out.push(s),
                None => {},
            }
            i = i + 1;
            assert(self.entries@.take(i as int).drop_last() =~= self.entries@.take(i - 1));
        }
        assert(self.entries@.take(i as int) =~= self.entries@);
        self.entries = Vec::new();
        out
    }

    /// Take the windows there are and lay out the grid. `None`, and nothing
    /// changed, if there are no switchable windows. Beside the panel the
    /// screenshots of the last opening come back, to be deleted.
    pub fn open(&mut self, entries: Vec<Entry>, screen_w: i32, screen_h: i32, dpi: i32) -> (r: (
        Option<Panel>,
        Vec<u64>,
    ))
        requires
            old(self).wf(),
            valid_dpi(dpi),
            dpi > 0,
            windows_fit(entries@.len() as int, dpi as int),
            0 <= screen_w <= 0x0100_0000,
            0 <= screen_h <= 0x0100_0000,
            forall|i: int|
                0 <= i < entries@.len() ==> {
                    &&& 0 <= (#[trigger] entries@[i]).shot_w <= 0x1000_0000
                    &&& 0 <= entries@[i].shot_h <= 0x1000_0000
                },
        ensures
            final(self).wf(),
            r.0 is None <==> entries@.len() == 0,
            r.0 is None ==> *final(self) == *old(self) && r.1@.len() == 0,
            r.0 matches Some(p) ==> {
                let n = entries@.len() as int;
                let cols = columns(n, screen_w as int, dpi as int);
                &&& r.1@ == shots(old(self).entries@)
                &&& final(self).entries@ == entries@
                &&& final(self).selected == 0
                &&& final(self).cols == cols
                &&& final(self).width == panel_w(cols, dpi as int)
                &&& final(self).height == panel_h(n, cols, dpi as int)
                &&& final(self).hover is None
                &&& final(self).shown
                &&& p.width == final(self).width
                &&& p.height == final(self).height
                &&& p.x == toward_zero(screen_w - p.width, 2)
                &&& p.y == toward_zero(screen_h - p.height, 2)
                &&& p.corner == px(16, dpi as int)
            },
    {
        if entries.len() == 0 {
            return (None, Vec::new());
        }
        let n: usize = entries.len();
        let tile_w: i32 = scaled(TILE_W, dpi);
        let tile_h: i32 = scaled(TILE_H, dpi);
        let gap: i32 = scaled(GAP, dpi);
        let pad: i32 = scaled(PANEL_PAD, dpi);
        proof {
            lemma_px(200, dpi as int);
            lemma_px(10, dpi as int);
            lemma_px(12, dpi as int);
        }
        let max_panel_w: i32 = screen_w * MAX_WIDTH_PCT / 100;
        let room: i32 = max_panel_w - 2 * pad + gap;
        assert(tile_w >= 2);
        let fit: i32 = room / (tile_w + gap);
        let fit: i32 = if fit >= 1 {
            fit
        } else {
            1
        };
        let cols: usize = if fit as usize <= n {
            fit as usize
        } else {
            n
        };
        assert(cols == columns(n as int, screen_w as int, dpi as int));
        proof {
            lemma_open_fits(n as int, cols as int, screen_w as int, dpi as int);
            lemma_grid(cols as int, n as int, 0);
        }
        let rows: usize = (n + cols - 1) / cols;
        assert(rows == rows_of(n as int, cols as int));
        let width: i32 = 2 * pad + cols as i32 * tile_w + (cols as i32 - 1) * gap;
        let height: i32 = 2 * pad + rows as i32 * tile_h + (rows as i32 - 1) * gap;
        let freed = self.free_shots();
        self.entries = entries;
        self.selected = 0;
        self.cols = cols;
        self.width = width;
        self.height = height;
        self.hover = None;
        self.shown = true;
        let panel = Panel {
            x: (screen_w - width) / 2,
            y: (screen_h - height) / 2,
            width,
            height,
            corner: scaled(16, dpi),
        };
        (Some(panel), freed)
    }

    /// Move the selection by one, wrapping. Whether anything is to be repainted.
    pub fn step(&mut self, forward: bool) -> (r: bool)
        requires
            old(self).wf(),
        ensures
            final(self).wf(),
            r == (old(self).entries@.len() > 0),
            final(self).entries == old(self).entries,
            final(self).cols == old(self).cols,
            final(self).width == old(self).width,
            final(self).height == old(self).height,
            final(self).hover == old(self).hover,
            final(self).shown == old(self).shown,
            final(self).selected == if r {
                stepped(old(self).selected as int, old(self).entries@.len() as int, forward)
            } else {
                old(self).selected as int
            },
    {
        let n: usize = self.entries.len();
        if n == 0 {
            return false;
        }
        proof {
            lemma_step(self.selected as int, n as int, 1);
            lemma_step(self.selected as int, n as int, n as int - 1);
        }
        self.selected = if forward {
            (self.selected + 1) % n
        } else {
            (self.selected + n - 1) % n
        };
        true
    }

    /// Move the selection by one row, wrapping through the flat list.
    pub fn nav_row(&mut self, down: bool) -> (r: bool)
        requires
            old(self).wf(),
        ensures
            final(self).wf(),
            r == (old(self).entries@.len() > 0),
            final(self).entries == old(self).entries,
            final(self).cols == old(self).cols,
            final(self).width == old(self).width,
            final(self).height == old(self).height,
            final(self).hover == old(self).hover,
            final(self).shown == old(self).shown,
            final(self).selected == if r {
                row_moved(
                    old(self).selected as int,
                    old(self).entries@.len() as int,
                    old(self).cols as int,
                    down,
                )
            } else {
                old(self).selected as int
            },
    {
        let n: usize = self.entries.len();
        if n == 0 {
            return false;
        }
        let stride: usize = self.cols % n;
        proof {
            lemma_step(self.selected as int, n as int, stride as int);
            lemma_step(self.selected as int, n as int, n - stride);
            assert(0 <= stride < n) by (nonlinear_arith)
                requires
                    n > 0,
                    stride == self.cols as int % n as int,
            ;
        }
        self.selected = if down {
            (self.selected + stride) % n
        } else {
            (self.selected + n - stride) % n
        };
        true
    }

    /// Dismiss the panel; its screenshots come back, to be deleted.
    pub fn close(&mut self) -> (r: Vec<u64>)
        requires
            old(self).wf(),
        ensures
            final(self).wf(),
            final(self).entries@.len() == 0,
            *final(self) == (AltTab {
                entries: final(self).entries,
                shown: false,
                ..*old(self)
            }),
            r@ == shots(old(self).entries@),
    {
        self.shown = false;
        self.free_shots()
    }

    /// Dismiss the panel and say which window to activate.
    pub fn commit(&mut self) -> (r: (Option<u64>, Vec<u64>))
        requires
            old(self).wf(),
        ensures
            final(self).wf(),
            final(self).entries@.len() == 0,
            *final(self) == (AltTab {
                entries: final(self).entries,
                shown: false,
                ..*old(self)
            }),
            r.0 == if old(self).entries@.len() > 0 {
                Some(old(self).entries@[old(self).selected as int].hwnd)
            } else {
                None
            },
            r.0 == chosen(old(self).entries@, old(self).selected as int),
            r.1@ == shots(old(self).entries@),
    {
        let target = if self.selected < self.entries.len() {
            Some(self.entries[self.selected].hwnd)
        } else {
            None
        };
        let freed = self.close();
        (target, freed)
    }

    /// The tile at a point.
    pub open spec fn tile_hit(&self, x: int, y: int, dpi: int) -> Option<int> {
        first(
            self.entries@.len() as int,
            |i: int|
                tile(
                    self.cols as int,
                    self.entries@.len() as int,
                    self.width as int,
                    i,
                    dpi,
                ).has(x, y),
        )
    }

    pub fn tile_at(&self, x: i32, y: i32, dpi: i32) -> (r: Option<usize>)
        requires
            self.wf(),
            valid_dpi(dpi),
            self.fits(dpi as int),
        ensures
            match self.tile_hit(x as int, y as int, dpi as int) {
                Some(i) => r == Some(i as usize) && 0 <= i < self.entries@.len(),
                None => r is None,
            },
    {
        let n: usize = self.entries.len();
        let ghost d = dpi as int;
        let ghost gx = x as int;
        let ghost gy = y as int;
        let ghost p = |i: int|
            tile(
                self.cols as int,
                self.entries@.len() as int,
                self.width as int,
                i,
                d,
            ).has(gx, gy);
        let mut i: usize = 0;
        while i < n
            invariant
                i <= n == self.entries@.len(),
                self.wf(),
                valid_dpi(dpi),
                self.fits(dpi as int),
                d == dpi,
                gx == x,
                gy == y,
                p == (|i: int|
                    tile(
                        self.cols as int,
                        self.entries@.len() as int,
                        self.width as int,
                        i,
                        d,
                    ).has(gx, gy)),
                first(n as int, p) == first_from(i as int, n as int, p),
            decreases n - i,
        {
            let r = tile_rect(self.cols, n, self.width, i, dpi);
            if r.contains(x, y) {
                assert(p(i as int));
                return Some(i);
            }
            assert(!p(i as int));
            i = i + 1;
        }
        None
    }

    /// Hover follows the mouse. Whether anything is to be repainted.
    pub fn on_mouse_move(&mut self, x: i32, y: i32, dpi: i32) -> (r: bool)
        requires
            old(self).wf(),
            valid_dpi(dpi),
            old(self).fits(dpi as int),
        ensures
            final(self).wf(),
            match old(self).tile_hit(x as int, y as int, dpi as int) {
                Some(i) => final(self).hover == Some(i as usize),
                None => final(self).hover is None,
            },
            r == (final(self).hover != old(self).hover),
            *final(self) == (AltTab { hover: final(self).hover, ..*old(self) }),
    {
        let hit = self.tile_at(x, y, dpi);
        let changed = match (hit, self.hover) {
            (Some(a), Some(b)) => a != b,
            (None, None) => false,
            _ => true,
        };
        self.hover = hit;
        changed
    }

    /// A click on a tile selects it; the caller then commits.
    pub fn on_button_up(&mut self, x: i32, y: i32, dpi: i32) -> (r: bool)
        requires
            old(self).wf(),
            valid_dpi(dpi),
            old(self).fits(dpi as int),
        ensures
            final(self).wf(),
            r == old(self).tile_hit(x as int, y as int, dpi as int) is Some,
            final(self).selected == match old(self).tile_hit(x as int, y as int, dpi as int) {
                Some(i) => i,
                None => old(self).selected as int,
            },
            *final(self) == (AltTab { selected: final(self).selected, ..*old(self) }),
    {
        match self.tile_at(x, y, dpi) {
            Some(i) => {
                self.selected = i;
                true
            },
            None => false,
        }
    }
}

/// Bring a chosen window to the front, out of its minimized state if need be.
pub fn switch_to(hwnd: u64, iconic: bool) -> (r: Vec<WindowStep>)
    ensures
        r@ == if iconic {
            seq![WindowStep::Restore(hwnd), WindowStep::Foreground(hwnd)]
        } else {
            seq![WindowStep::Foreground(hwnd)]
        },
{
    let mut out: Vec<WindowStep> = Vec::new();
    if iconic {
        out.push(WindowStep::Restore(hwnd));
    }
    out.push(WindowStep::Foreground(hwnd));
    assert(out@ =~= if iconic {
        seq![WindowStep::Restore(hwnd), WindowStep::Foreground(hwnd)]
    } else {
        seq![WindowStep::Foreground(hwnd)]
    });
    out
}

proof fn lemma_open_fits(n: int, cols: int, screen_w: int, dpi: int)
    requires
        1 <= n,
        windows_fit(n, dpi),
        0 < dpi <= 32767,
        0 <= screen_w <= 0x0100_0000,
        cols == columns(n, screen_w, dpi),
    ensures
        1 <= cols <= n,
        0 <= cols * px(TILE_W as int, dpi) <= 0x1800_0000,
        0 <= (cols - 1) * px(GAP as int, dpi) <= 0x1000_0000,
        0 <= panel_w(cols, dpi) <= 0x2000_0000,
        0 <= panel_h(n, cols, dpi) <= 0x4800_0000,
        0 <= rows_of(n, cols) * px(TILE_H as int, dpi) <= 0x4640_0000,
        0 <= (rows_of(n, cols) - 1) * px(GAP as int, dpi) <= 0x4640_0000,
{
    lemma_px(200, dpi);
    lemma_px(150, dpi);
    lemma_px(10, dpi);
    lemma_px(12, dpi);
    let tw = px(TILE_W as int, dpi);
    let th = px(TILE_H as int, dpi);
    let g = px(GAP as int, dpi);
    let room = toward_zero(screen_w * MAX_WIDTH_PCT, 100) - 2 * px(PANEL_PAD as int, dpi) + g;
    let fit = toward_zero(room, tw + g);
    assert(tw >= 2);
    if room >= 0 {
        assert(fit * (tw + g) <= room) by (nonlinear_arith)
            requires
                fit == room / (tw + g),
                room >= 0,
                tw + g > 0,
        ;
        if fit >= 1 {
            assert(cols * (tw + g) <= room) by (nonlinear_arith)
                requires
                    0 <= cols <= fit,
                    fit * (tw + g) <= room,
                    tw + g > 0,
            ;
        }
    } else {
        let m = -room;
        assert(m / (tw + g) >= 0) by (nonlinear_arith)
            requires
                m >= 0,
                tw + g > 0,
        ;
    }
    if !(room >= 0 && fit >= 1) {
        assert(cols == 1);
    }
    assert(cols * (tw + g) == cols * tw + cols * g && cols * tw >= 0 && (cols - 1) * g >= 0 && (cols
        - 1) * g <= cols * g) by (nonlinear_arith)
        requires
            cols >= 1,
            tw >= 0,
            g >= 0,
    ;
    if cols == 1 {
        assert(cols * tw == tw && cols * g == g) by (nonlinear_arith)
            requires
                cols == 1,
        ;
    }
    lemma_grid(cols, n, 0);
    let r = rows_of(n, cols);
    lemma_windows_fit(r, n, dpi);
    assert(0 <= r * th && 0 <= (r - 1) * g && r * th + (r - 1) * g <= r * (th + g))
        by (nonlinear_arith)
        requires
            1 <= r,
            0 <= th,
            0 <= g,
    ;
}

/// The index one step further, wrapping.
pub open spec fn stepped(selected: int, n: int, forward: bool) -> int {
    if forward {
        if selected + 1 == n {
            0
        } else {
            selected + 1
        }
    } else {
        if selected == 0 {
            n - 1
        } else {
            selected - 1
        }
    }
}

/// The index one row further, wrapping through the flat list. With a single full
/// row the selection stays.
pub open spec fn row_moved(selected: int, n: int, cols: int, down: bool) -> int {
    if down {
        (selected + cols % n) % n
    } else {
        (selected + n - cols % n) % n
    }
}

proof fn lemma_step(selected: int, n: int, by: int)
    requires
        0 <= selected < n,
        0 <= by <= n,
    ensures
        (selected + by) % n == if selected + by >= n {
            selected + by - n
        } else {
            selected + by
        },
{
    if selected + by >= n {
        vstd::arithmetic::div_mod::lemma_mod_add_multiples_vanish(selected + by - n, n);
        vstd::arithmetic::div_mod::lemma_small_mod((selected + by - n) as nat, n as nat);
    } else {
        vstd::arithmetic::div_mod::lemma_small_mod((selected + by) as nat, n as nat);
    }
}

// ---- Laws ----

/// A step back undoes a step forward, and the other way round.
pub proof fn steps_undo_each_other(selected: int, n: int)
    requires
        0 <= selected < n,
    ensures
        stepped(stepped(selected, n, true), n, false) == selected,
        stepped(stepped(selected, n, false), n, true) == selected,
        0 <= stepped(selected, n, true) < n,
        0 <= stepped(selected, n, false) < n,
{
}

/// A row up undoes a row down, and the other way round.
pub proof fn rows_undo_each_other(selected: int, n: int, cols: int)
    requires
        0 <= selected < n,
        1 <= cols <= n,
    ensures
        row_moved(row_moved(selected, n, cols, true), n, cols, false) == selected,
        row_moved(row_moved(selected, n, cols, false), n, cols, true) == selected,
{
    let s = cols % n;
    assert(0 <= s < n) by (nonlinear_arith)
        requires
            n > 0,
            s == cols % n,
    ;
    lemma_step(selected, n, s);
    lemma_step(selected, n, n - s);
    lemma_step(row_moved(selected, n, cols, true), n, n - s);
    lemma_step(row_moved(selected, n, cols, false), n, s);
}

/// The panel is no wider than its share of the screen, unless that share is too
/// narrow for a single tile.
pub proof fn panel_stays_on_screen(n: int, screen_w: int, dpi: int)
    requires
        1 <= n,
        0 < dpi <= 32767,
        0 <= screen_w <= 0x0100_0000,
        panel_w(1, dpi) <= screen_w * MAX_WIDTH_PCT / 100,
    ensures
        panel_w(columns(n, screen_w, dpi), dpi) <= screen_w * MAX_WIDTH_PCT / 100,
{
    lemma_px(200, dpi);
    lemma_px(10, dpi);
    lemma_px(12, dpi);
    let tw = px(TILE_W as int, dpi);
    let g = px(GAP as int, dpi);
    let share = screen_w * MAX_WIDTH_PCT / 100;
    let room = share - 2 * px(PANEL_PAD as int, dpi) + g;
    let cols = columns(n, screen_w, dpi);
    assert(1 * tw + (1 - 1) * g == tw) by (nonlinear_arith);
    assert(room >= tw + g);
    let fit = room / (tw + g);
    assert(fit * (tw + g) <= room && fit >= 1) by (nonlinear_arith)
        requires
            fit == room / (tw + g),
            room >= tw + g,
            tw + g > 0,
    ;
    assert(cols * (tw + g) <= fit * (tw + g)) by (nonlinear_arith)
        requires
            0 <= cols <= fit,
            tw + g > 0,
    ;
    assert(cols * tw + (cols - 1) * g == cols * (tw + g) - g) by (nonlinear_arith);
}

/// Every tile lies inside the panel.
pub proof fn tiles_lie_in_the_panel(n: int, cols: int, i: int, dpi: int)
    requires
        1 <= cols <= n,
        windows_fit(n, dpi),
        0 <= i < n,
        0 <= dpi <= 32767,
    ensures
        ({
            let t = tile(cols, n, panel_w(cols, dpi), i, dpi);
            &&& 0 <= t.left && t.right <= panel_w(cols, dpi)
            &&& 0 <= t.top && t.bottom <= panel_h(n, cols, dpi)
        }),
{
    lemma_grid(cols, n, i);
    lemma_tile_bounds(cols, n, i, dpi);
    lemma_px(200, dpi);
    lemma_px(150, dpi);
    lemma_px(10, dpi);
    lemma_px(12, dpi);
    let tw = px(TILE_W as int, dpi);
    let th = px(TILE_H as int, dpi);
    let g = px(GAP as int, dpi);
    let k = in_row(cols, n, i);
    let c = i % cols;
    let r = i / cols;
    let rows = rows_of(n, cols);
    lemma_strip(k, cols, tw, dpi);
    lemma_strip(rows, rows, th, dpi);
    lemma_windows_fit(cols, n, dpi);
    lemma_windows_fit(rows, n, dpi);
    assert(c * (tw + g) <= (k - 1) * (tw + g)) by (nonlinear_arith)
        requires
            c <= k - 1,
            0 <= tw,
            0 <= g,
    ;
    assert(r * (th + g) <= (rows - 1) * (th + g)) by (nonlinear_arith)
        requires
            r <= rows - 1,
            0 <= th,
            0 <= g,
    ;
}

/// No two tiles overlap, so a point inside a tile hits that tile.
pub proof fn a_tile_is_hit_inside_it(a: AltTab, i: int, x: int, y: int, dpi: int)
    requires
        a.wf(),
        0 <= dpi <= 32767,
        a.fits(dpi),
        0 <= i < a.entries@.len(),
        tile(a.cols as int, a.entries@.len() as int, a.width as int, i, dpi).has(x, y),
    ensures
        a.tile_hit(x, y, dpi) == Some(i),
{
    let n = a.entries@.len() as int;
    let cols = a.cols as int;
    let w = a.width as int;
    let p = |i: int|
        tile(a.cols as int, a.entries@.len() as int, a.width as int, i, dpi).has(x, y);
    assert(p(i));
    assert forall|j: int| 0 <= j < i implies !(#[trigger] p(j)) by {
        lemma_grid(cols, n, i);
        lemma_grid(cols, n, j);
        lemma_tile_bounds(cols, n, i, dpi);
        lemma_tile_bounds(cols, n, j, dpi);
        lemma_px(200, dpi);
        lemma_px(150, dpi);
        lemma_px(10, dpi);
        lemma_px(12, dpi);
        let tw = px(TILE_W as int, dpi);
        let th = px(TILE_H as int, dpi);
        let g = px(GAP as int, dpi);
        let ri = i / cols;
        let rj = j / cols;
        let ci = i % cols;
        let cj = j % cols;
        if ri == rj {
            assert(ci >= cj + 1);
            assert(ci * (tw + g) >= cj * (tw + g) + (tw + g)) by (nonlinear_arith)
                requires
                    ci >= cj + 1,
                    tw + g >= 0,
            ;
        } else {
            assert(ri >= rj + 1) by (nonlinear_arith)
                requires
                    ri != rj,
                    i == cols * ri + ci,
                    j == cols * rj + cj,
                    j < i,
                    0 <= ci < cols,
                    0 <= cj < cols,
                    cols > 0,
            ;
            assert(ri * (th + g) >= rj * (th + g) + (th + g)) by (nonlinear_arith)
                requires
                    ri >= rj + 1,
                    th + g >= 0,
            ;
        }
    }
    lemma_first_is(0, n, p, i);
}

// ---------------------------------------------------------------------------
// Painting

/// The part of a tile below its header.
pub open spec fn thumb_area(r: Rect, dpi: int) -> Rect {
    let pad = px(TILE_PAD as int, dpi);
    rect(r.left + pad, r.top + px(HEADER_H as int, dpi), r.right - pad, r.bottom - pad)
}

/// A tile's icon and title.
pub open spec fn header_draws(e: EntryView, r: Rect, selected: bool, dpi: int) -> Seq<DrawView> {
    let pad = px(TILE_PAD as int, dpi);
    let header = px(HEADER_H as int, dpi);
    let size = px(16, dpi);
    let left = r.left + pad + px(2, dpi);
    let text_left = if e.icon is Some {
        left + size + px(6, dpi)
    } else {
        left
    };
    (match e.icon {
        Some(icon) => seq![
            DrawView::Icon {
                icon,
                x: left as i32,
                y: (r.top + toward_zero(header - size, 2)) as i32,
                size: size as i32,
            },
        ],
        None => seq![],
    }) + seq![
        DrawView::Text {
            font: Font::Text,
            color: if selected {
                COL_TEXT
            } else {
                COL_TEXT_DIM
            },
            text: e.title,
            rect: rect(text_left, r.top as int, r.right - pad, r.top + header),
            flags: LINE_ELLIPSIS,
        },
    ]
}

/// A tile's screenshot centered, or its icon enlarged.
pub open spec fn thumb_draws(e: EntryView, area: Rect, dpi: int) -> Seq<DrawView> {
    let size = px(48, dpi);
    match e.shot {
        Some(bitmap) => seq![
            DrawView::Image {
                bitmap,
                x: (area.left + toward_zero(area.right - area.left - e.shot_w, 2)) as i32,
                y: (area.top + toward_zero(area.bottom - area.top - e.shot_h, 2)) as i32,
                width: e.shot_w,
                height: e.shot_h,
            },
        ],
        None => match e.icon {
            Some(icon) => seq![
                DrawView::Icon {
                    icon,
                    x: centered(area.left as int, area.right as int, size) as i32,
                    y: centered(area.top as int, area.bottom as int, size) as i32,
                    size: size as i32,
                },
            ],
            None => seq![],
        },
    }
}

pub open spec fn tile_draws(e: EntryView, r: Rect, selected: bool, hovered: bool, dpi: int) -> Seq<
    DrawView,
> {
    let radius = px(8, dpi) as i32;
    (if selected {
        seq![DrawView::Round { rect: r, fill: COL_ACTIVE, edge: COL_ACTIVE, width: 1, radius }]
    } else if hovered {
        seq![DrawView::Round { rect: r, fill: COL_HOVER, edge: COL_HOVER, width: 1, radius }]
    } else {
        seq![]
    }) + header_draws(e, r, selected, dpi) + thumb_draws(e, thumb_area(r, dpi), dpi) + (
    if selected {
        seq![DrawView::Outline { rect: r, edge: COL_ACCENT, width: px(2, dpi) as i32, radius }]
    } else {
        seq![]
    })
}

impl AltTab {
    pub open spec fn tile_of(&self, i: int, dpi: int) -> Rect {
        tile(self.cols as int, self.entries@.len() as int, self.width as int, i, dpi)
    }

    pub open spec fn tiles_upto(&self, n: int, dpi: int) -> Seq<DrawView>
        decreases n,
    {
        if n <= 0 {
            seq![]
        } else {
            self.tiles_upto(n - 1, dpi) + tile_draws(
                self.entries@[n - 1]@,
                self.tile_of(n - 1, dpi),
                self.selected == n - 1,
                self.hover == Some((n - 1) as usize),
                dpi,
            )
        }
    }

    /// Everything the panel draws: its ground, its tiles, and a one-pixel ring.
    pub open spec fn painted(&self, ring: u32, dpi: int) -> Seq<DrawView> {
        let full = rect(0, 0, self.width as int, self.height as int);
        seq![DrawView::Fill { rect: full, color: COL_BG }] + self.tiles_upto(
            self.entries@.len() as int,
            dpi,
        ) + seq![DrawView::Outline { rect: full, edge: ring, width: 1, radius: px(16, dpi) as i32 }]
    }

    pub fn paint(&self, ring: u32, dpi: i32) -> (r: Vec<Draw>)
        requires
            self.wf(),
            valid_dpi(dpi),
            self.fits(dpi as int),
        ensures
            shown(r@) == self.painted(ring, dpi as int),
    {
        let mut out: Vec<Draw> = Vec::new();
        assert(shown(out@) =~= seq![]);
        let full = Rect { left: 0, top: 0, right: self.width, bottom: self.height };
        fill(&mut out, full, COL_BG);
        let n: usize = self.entries.len();
        let ghost d = dpi as int;
        let ghost head = shown(out@);
        let mut i: usize = 0;
        assert(head + self.tiles_upto(0, d) =~= head);
        while i < n
            invariant
                i <= n == self.entries@.len(),
                self.wf(),
                valid_dpi(dpi),
                self.fits(dpi as int),
                d == dpi,
                shown(out@) == head + self.tiles_upto(i as int, d),
            decreases n - i,
        {
            let r = tile_rect(self.cols, n, self.width, i, dpi);
            let hovered = match self.hover {
                Some(h) => h == i,
                None => false,
            };
            draw_tile(&mut out, &self.entries[i], r, i == self.selected, hovered, dpi);
            i = i + 1;
            assert(shown(out@) =~= head + self.tiles_upto(i as int, d));
        }
        emit(
            &mut out,
            Draw::Outline { rect: full, edge: ring, width: 1, radius: scaled(16, dpi) },
        );
        assert(shown(out@) =~= self.painted(ring, dpi as int));
        out
    }
}

fn draw_header(out: &mut Vec<Draw>, e: &Entry, r: Rect, selected: bool, dpi: i32)
    requires
        valid_dpi(dpi),
        -0x4800_0000 <= r.left <= r.right <= 0x7000_0000,
        0 <= r.top <= r.bottom <= 0x4800_0000,
    ensures
        shown(final(out)@) == shown(old(out)@) + header_draws(e@, r, selected, dpi as int),
{
    let ghost before = shown(out@);
    let pad: i32 = scaled(TILE_PAD, dpi);
    let header: i32 = scaled(HEADER_H, dpi);
    let mut text_left: i32 = r.left + pad + scaled(2, dpi);
    match e.icon {
        Some(icon) => {
            let size: i32 = scaled(16, dpi);
            emit(out, Draw::Icon { icon, x: text_left, y: r.top + (header - size) / 2, size });
            text_left = text_left + size + scaled(6, dpi);
        },
        None => {},
    }
    let color: u32 = if selected {
        COL_TEXT
    } else {
        COL_TEXT_DIM
    };
    label(
        out,
        Font::Text,
        color,
        e.title.as_str(),
        Rect { left: text_left, top: r.top, right: r.right - pad, bottom: r.top + header },
        LINE_ELLIPSIS,
    );
    assert(shown(out@) =~= before + header_draws(e@, r, selected, dpi as int));
}

fn draw_thumb(out: &mut Vec<Draw>, e: &Entry, area: Rect, dpi: i32)
    requires
        valid_dpi(dpi),
        -0x4900_0000 <= area.left <= 0x7100_0000,
        -0x0001_0000 <= area.top <= 0x4900_0000,
        -0x0010_0000 <= area.right - area.left <= 0x0010_0000,
        -0x0010_0000 <= area.bottom - area.top <= 0x0010_0000,
        0 <= e.shot_w <= 0x1000_0000,
        0 <= e.shot_h <= 0x1000_0000,
    ensures
        shown(final(out)@) == shown(old(out)@) + thumb_draws(e@, area, dpi as int),
{
    let ghost before = shown(out@);
    match e.shot {
        Some(bitmap) => {
            emit(
                out,
                Draw::Image {
                    bitmap,
                    x: area.left + (area.right - area.left - e.shot_w) / 2,
                    y: area.top + (area.bottom - area.top - e.shot_h) / 2,
                    width: e.shot_w,
                    height: e.shot_h,
                },
            );
        },
        None => match e.icon {
            Some(icon) => {
                let size: i32 = scaled(48, dpi);
                let x: i64 = (area.left as i64 + area.right as i64 - size as i64) / 2;
                let y: i64 = (area.top as i64 + area.bottom as i64 - size as i64) / 2;
                emit(out, Draw::Icon { icon, x: x as i32, y: y as i32, size });
            },
            None => {},
        },
    }
    assert(shown(out@) =~= before + thumb_draws(e@, area, dpi as int));
}

fn draw_tile(out: &mut Vec<Draw>, e: &Entry, r: Rect, selected: bool, hovered: bool, dpi: i32)
    requires
        valid_dpi(dpi),
        -0x4800_0000 <= r.left <= r.right <= 0x7000_0000,
        0 <= r.top <= r.bottom <= 0x4800_0000,
        r.right - r.left == px(TILE_W as int, dpi as int),
        r.bottom - r.top == px(TILE_H as int, dpi as int),
        0 <= e.shot_w <= 0x1000_0000,
        0 <= e.shot_h <= 0x1000_0000,
    ensures
        shown(final(out)@) == shown(old(out)@) + tile_draws(e@, r, selected, hovered, dpi as int),
{
    let ghost before = shown(out@);
    proof {
        lemma_px(200, dpi as int);
        lemma_px(150, dpi as int);
    }
    let radius: i32 = scaled(8, dpi);
    if selected {
        emit(
            out,
            Draw::Round { rect: r, fill: COL_ACTIVE, edge: COL_ACTIVE, width: 1, radius },
        );
    } else if hovered {
        emit(out, Draw::Round { rect: r, fill: COL_HOVER, edge: COL_HOVER, width: 1, radius });
    }
    draw_header(out, e, r, selected, dpi);
    let pad: i32 = scaled(TILE_PAD, dpi);
    let area = Rect {
        left: r.left + pad,
        top: r.top + scaled(HEADER_H, dpi),
        right: r.right - pad,
        bottom: r.bottom - pad,
    };
    assert(area == thumb_area(r, dpi as int));
    draw_thumb(out, e, area, dpi);
    if selected {
        emit(out, Draw::Outline { rect: r, edge: COL_ACCENT, width: scaled(2, dpi), radius });
    }
    assert(shown(out@) =~= before + tile_draws(e@, r, selected, hovered, dpi as int));
}

// ---------------------------------------------------------------------------
// What the switcher is for

/// A press of the Tab key, not injected by a program, that the hook is to judge.
pub open spec fn tab_press(k: HookKey) -> bool {
    &&& k.code >= 0
    &&& k.flags & 0x10 == 0
    &&& k.message == 0x100 || k.message == 0x104
    &&& k.vk == 0x09
}

/// Tab with Alt held always steps: forward exactly where Shift is not held, whether
/// the switcher was up before or not. The key is swallowed, and the switcher is up
/// afterwards.
pub proof fn tab_steps_with_shift_deciding(engaged: bool, k: HookKey, held: Held)
    requires
        tab_press(k),
        held.overlay && held.alt,
    ensures
        answered(engaged, k, held).0,
        answered(engaged, k, held).1.swallow,
        answered(engaged, k, held).1.post == Some(Post::Step(!held.shift)),
        answered(engaged, k, held).1.dummy == !engaged,
        answered(true, k, held).1.post == answered(false, k, held).1.post,
{
}

/// Before Alt+Tab the switcher neither answers nor keeps any key.
pub proof fn an_idle_switcher_lets_keys_through(k: HookKey, held: Held)
    requires
        !tab_press(k) || !held.alt || !held.overlay,
    ensures
        answered(false, k, held).0 == false,
        answered(false, k, held).1.post is None,
        !answered(false, k, held).1.swallow,
        !answered(false, k, held).1.dummy,
{
}

/// Keys that a program injected, or that are not to be judged, change nothing.
pub proof fn injected_keys_change_nothing(engaged: bool, k: HookKey, held: Held)
    requires
        k.code < 0 || k.flags & 0x10 != 0 || !held.overlay,
    ensures
        answered(engaged, k, held).0 == engaged,
        answered(engaged, k, held).1.post is None,
        !answered(engaged, k, held).1.swallow,
{
}

/// While the switcher is up, the arrow keys move the selection, Escape ends the
/// gesture without a switch, Return ends it with one, and all of them are swallowed.
/// Keys that mean nothing to it go through.
pub proof fn keys_of_an_engaged_switcher(k: HookKey, held: Held)
    requires
        k.code >= 0 && k.flags & 0x10 == 0 && held.overlay,
        k.message == 0x100 || k.message == 0x104,
    ensures
        ({
            let (engaged, a) = answered(true, k, held);
            &&& k.vk == 0x27 ==> engaged && a.swallow && a.post == Some(Post::Step(true))
            &&& k.vk == 0x25 ==> engaged && a.swallow && a.post == Some(Post::Step(false))
            &&& k.vk == 0x28 ==> engaged && a.swallow && a.post == Some(Post::NavRow(true))
            &&& k.vk == 0x26 ==> engaged && a.swallow && a.post == Some(Post::NavRow(false))
            &&& k.vk == 0x1B ==> !engaged && a.swallow && a.post == Some(Post::Cancel)
            &&& k.vk == 0x0D ==> !engaged && a.swallow && a.post == Some(Post::Commit)
            &&& (k.vk == 0xA4 || k.vk == 0xA5) ==> engaged && a.swallow && a.post is None
            &&& (k.vk != 0x09 && k.vk != 0x0D && k.vk != 0x1B && !(0x25 <= k.vk <= 0x28) && k.vk
                != 0xA4 && k.vk != 0xA5) ==> engaged && !a.swallow && a.post is None
        }),
{
}

/// The selection among `n` entries after some keys from an idle switcher, where its
/// window opens with the first entry selected and then follows what is posted.
pub open spec fn selected_after(n: int, keys: Seq<(HookKey, Held)>) -> int
    decreases keys.len(),
{
    if keys.len() == 0 {
        0
    } else {
        let before = selected_after(n, keys.drop_last());
        let (k, held) = keys.last();
        match answered(engaged_after(false, keys.drop_last()), k, held).1.post {
            Some(Post::Step(forward)) => stepped(before, n, forward),
            _ => before,
        }
    }
}

/// `k` presses of Tab with Alt held, and Shift not, select entry `k`, counted round
/// the entries; with Shift held as well, they count the other way.
pub proof fn tabs_count_round_the_entries(n: int, keys: Seq<(HookKey, Held)>, shift: bool)
    requires
        n > 0,
        forall|i: int|
            0 <= i < keys.len() ==> {
                &&& tab_press((#[trigger] keys[i]).0)
                &&& keys[i].1.overlay && keys[i].1.alt
                &&& keys[i].1.shift == shift
            },
    ensures
        0 <= selected_after(n, keys) < n,
        !shift ==> selected_after(n, keys) == keys.len() as int % n,
        shift ==> (selected_after(n, keys) + keys.len()) % n == 0,
    decreases keys.len(),
{
    if keys.len() == 0 {
        vstd::arithmetic::div_mod::lemma_small_mod(0, n as nat);
    } else {
        let fewer = keys.drop_last();
        assert forall|i: int| 0 <= i < fewer.len() implies {
            &&& tab_press((#[trigger] fewer[i]).0)
            &&& fewer[i].1.overlay && fewer[i].1.alt
            &&& fewer[i].1.shift == shift
        } by {
            assert(fewer[i] == keys[i]);
        }
        tabs_count_round_the_entries(n, fewer, shift);
        assert(tab_press(keys[keys.len() - 1].0));
        let c = fewer.len() as int;
        let before = selected_after(n, fewer);
        if !shift {
            vstd::arithmetic::div_mod::lemma_add_mod_noop(c, 1, n);
            vstd::arithmetic::div_mod::lemma_add_mod_noop(before, 1, n);
            vstd::arithmetic::div_mod::lemma_small_mod(before as nat, n as nat);
            lemma_step(before, n, 1);
            assert(selected_after(n, keys) == (before + 1) % n);
            assert((c + 1) % n == (before + 1) % n);
        } else {
            let now = selected_after(n, keys);
            if before == 0 {
                assert(now + (c + 1) == (before + c) + n);
                vstd::arithmetic::div_mod::lemma_mod_add_multiples_vanish(before + c, n);
            } else {
                assert(now + (c + 1) == before + c);
            }
        }
    }
}

/// A thumbnail keeps the window's proportions, as nearly as whole pixels do.
pub proof fn thumbnail_keeps_proportions(w: int, h: int, bw: int, bh: int)
    requires
        0 < w,
        0 < h,
        1 <= bw,
        1 <= bh,
    ensures
        ({
            let s = fitted(w, h, bw, bh);
            &&& (s.0 > 1 && s.1 > 1) ==> -w < s.0 * h - s.1 * w < w || -h < s.0 * h - s.1 * w < h
            &&& w * bh == h * bw ==> s == (bw, bh)
        }),
{
    if w * bh <= h * bw {
        let q = w * bh / h;
        assert(q * h <= w * bh < q * h + h) by (nonlinear_arith)
            requires
                0 < h,
                q == w * bh / h,
        ;
        assert(bh * w == w * bh) by (nonlinear_arith);
        if w * bh == h * bw {
            assert(q == bw) by (nonlinear_arith)
                requires
                    q * h <= h * bw < q * h + h,
                    0 < h,
            ;
        }
    } else {
        let q = h * bw / w;
        assert(q * w <= h * bw < q * w + w) by (nonlinear_arith)
            requires
                0 < w,
                q == h * bw / w,
        ;
        assert(bw * h == h * bw) by (nonlinear_arith);
    }
}

/// Unless all windows stand in one row, there is no room for one more column.
pub proof fn the_grid_is_as_wide_as_fits(n: int, screen_w: int, dpi: int)
    requires
        1 <= n,
        0 < dpi <= 32767,
        0 <= screen_w <= 0x0100_0000,
        columns(n, screen_w, dpi) < n,
    ensures
        panel_w(columns(n, screen_w, dpi) + 1, dpi) > screen_w * 85 / 100,
{
    lemma_px(200, dpi);
    lemma_px(10, dpi);
    lemma_px(12, dpi);
    let tw = px(TILE_W as int, dpi);
    let g = px(GAP as int, dpi);
    let share = screen_w * 85 / 100;
    let room = share - 2 * px(PANEL_PAD as int, dpi) + g;
    let c = columns(n, screen_w, dpi) + 1;
    assert(c * tw + (c - 1) * g == c * (tw + g) - g) by (nonlinear_arith);
    if room >= 0 {
        let fit = room / (tw + g);
        assert(room < (fit + 1) * (tw + g)) by (nonlinear_arith)
            requires
                fit == room / (tw + g),
                tw + g > 0,
        ;
        assert((fit + 1) * (tw + g) <= c * (tw + g)) by (nonlinear_arith)
            requires
                fit + 1 <= c,
                tw + g > 0,
        ;
    } else {
        assert(c * (tw + g) >= 0) by (nonlinear_arith)
            requires
                c >= 1,
                tw + g > 0,
        ;
    }
}

/// The rows hold all tiles, and one row fewer would not.
pub proof fn rows_are_as_few_as_hold_all(n: int, cols: int)
    requires
        1 <= cols <= n,
    ensures
        rows_of(n, cols) * cols >= n,
        (rows_of(n, cols) - 1) * cols < n,
{
    let rows = rows_of(n, cols);
    assert(cols * rows <= n + cols - 1 < cols * rows + cols) by (nonlinear_arith)
        requires
            cols > 0,
            rows == (n + cols - 1) / cols,
    ;
    assert(rows * cols == cols * rows && (rows - 1) * cols == cols * rows - cols)
        by (nonlinear_arith);
}

/// Tiles are read like text: the next one stands right of its neighbour, or starts
/// the row below.
pub proof fn tiles_are_read_like_text(n: int, cols: int, i: int, dpi: int)
    requires
        1 <= cols <= n,
        windows_fit(n, dpi),
        0 <= i,
        i + 1 < n,
        0 <= dpi <= 32767,
    ensures
        ({
            let w = panel_w(cols, dpi);
            let a = tile(cols, n, w, i, dpi);
            let b = tile(cols, n, w, i + 1, dpi);
            if (i + 1) % cols == 0 {
                b.top == a.bottom + px(10, dpi)
            } else {
                b.top == a.top && b.left == a.right + px(10, dpi)
            }
        }),
{
    tiles_lie_in_the_panel(n, cols, i, dpi);
    tiles_lie_in_the_panel(n, cols, i + 1, dpi);
    lemma_grid(cols, n, i);
    lemma_grid(cols, n, i + 1);
    lemma_tile_bounds(cols, n, i, dpi);
    lemma_tile_bounds(cols, n, i + 1, dpi);
    lemma_px(200, dpi);
    lemma_px(150, dpi);
    lemma_px(10, dpi);
    lemma_px(12, dpi);
    let tw = px(TILE_W as int, dpi);
    let th = px(TILE_H as int, dpi);
    let g = px(GAP as int, dpi);
    let r = i / cols;
    let c = i % cols;
    let r2 = (i + 1) / cols;
    let c2 = (i + 1) % cols;
    lemma_strip(cols, cols, tw, dpi);
    lemma_windows_fit(cols, n, dpi);
    if c + 1 < cols {
        assert(r2 == r && c2 == c + 1) by (nonlinear_arith)
            requires
                i == cols * r + c,
                i + 1 == cols * r2 + c2,
                0 <= c,
                c + 1 < cols,
                0 <= c2 < cols,
        ;
        assert((c + 1) * (tw + g) == c * (tw + g) + tw + g) by (nonlinear_arith);
    } else {
        assert(r2 == r + 1 && c2 == 0) by (nonlinear_arith)
            requires
                i == cols * r + c,
                i + 1 == cols * r2 + c2,
                c + 1 == cols,
                0 <= c2 < cols,
        ;
        assert((r + 1) * (th + g) == r * (th + g) + th + g) by (nonlinear_arith);
    }
}

/// Down moves to the tile in the same column one row below, while there is one.
pub proof fn down_goes_to_the_tile_below(selected: int, n: int, cols: int)
    requires
        0 <= selected,
        1 <= cols < n,
        selected + cols < n,
    ensures
        row_moved(selected, n, cols, true) == selected + cols,
        row_moved(selected + cols, n, cols, false) == selected,
{
    vstd::arithmetic::div_mod::lemma_small_mod(cols as nat, n as nat);
    lemma_step(selected, n, cols);
    lemma_step(selected + cols, n, n - cols);
}

/// Each row is centered in the panel: what is left of it is within a pixel of what
/// is right of it.
pub proof fn rows_are_centered(n: int, cols: int, i: int, dpi: int)
    requires
        1 <= cols <= n,
        windows_fit(n, dpi),
        0 <= i < n,
        0 <= dpi <= 32767,
        i % cols == 0,
    ensures
        ({
            let w = panel_w(cols, dpi);
            let left = tile(cols, n, w, i, dpi).left;
            let k = in_row(cols, n, i);
            let right = w - tile(cols, n, w, i + k - 1, dpi).right;
            &&& i + k <= n
            &&& -1 <= right - left <= 1
        }),
{
    let k = in_row(cols, n, i);
    let w = panel_w(cols, dpi);
    let j = i + k - 1;
    lemma_grid(cols, n, i);
    let r = i / cols;
    let rows = rows_of(n, cols);
    rows_are_as_few_as_hold_all(n, cols);
    if r + 1 != rows {
        assert(cols * r + cols <= n) by (nonlinear_arith)
            requires
                r + 1 <= rows - 1,
                (rows - 1) * cols < n,
                cols > 0,
        ;
    }
    lemma_grid(cols, n, j);
    let rj = j / cols;
    let cj = j % cols;
    assert(rj == r && cj == k - 1) by (nonlinear_arith)
        requires
            j == cols * r + (k - 1),
            j == cols * rj + cj,
            0 <= cj < cols,
            0 <= k - 1 < cols,
    ;
    tiles_lie_in_the_panel(n, cols, i, dpi);
    tiles_lie_in_the_panel(n, cols, j, dpi);
    lemma_tile_bounds(cols, n, i, dpi);
    lemma_tile_bounds(cols, n, j, dpi);
    lemma_px(200, dpi);
    lemma_px(150, dpi);
    lemma_px(10, dpi);
    lemma_px(12, dpi);
    let tw = px(TILE_W as int, dpi);
    lemma_strip(k, cols, tw, dpi);
    lemma_windows_fit(cols, n, dpi);
}

/// Every screenshot is handed out to be deleted, and nothing else is.
pub proof fn every_screenshot_is_handed_out(v: Seq<Entry>, b: u64)
    ensures
        shots(v).contains(b) <==> exists|i: int| 0 <= i < v.len() && (#[trigger] v[i]).shot == Some(b),
    decreases v.len(),
{
    if v.len() > 0 {
        let d = v.drop_last();
        every_screenshot_is_handed_out(d, b);
        let r = shots(v);
        let before = shots(d);
        if r.contains(b) {
            let k = choose|k: int| 0 <= k < r.len() && r[k] == b;
            if k < before.len() {
                assert(before[k] == b);
                let i = choose|i: int| 0 <= i < d.len() && (#[trigger] d[i]).shot == Some(b);
                assert(v[i].shot == Some(b));
            } else {
                assert(v[v.len() - 1].shot == Some(b));
            }
        }
        if exists|i: int| 0 <= i < v.len() && (#[trigger] v[i]).shot == Some(b) {
            let i = choose|i: int| 0 <= i < v.len() && (#[trigger] v[i]).shot == Some(b);
            if i < d.len() {
                assert(d[i].shot == Some(b));
                let k = choose|k: int| 0 <= k < before.len() && before[k] == b;
                assert(r[k] == b);
            } else {
                assert(r[before.len() as int] == b);
            }
        }
    }
}

/// The shell's own windows and the desktop are not switched to.
pub proof fn the_shells_own_windows_are_left_out(class: Seq<char>)
    ensures
        own_class("Progman"@) && own_class("WorkerW"@) && own_class("Shell_TrayWnd"@) && own_class(
            "Shell_SecondaryTrayWnd"@,
        ),
        own_class("StartPE_Taskbar"@) && own_class("StartPE_Menu"@) && own_class("StartPE_Peek"@)
            && own_class("StartPE_AltTab"@) && own_class("StartPE_Desktop"@),
        (class.len() > 0 && class[0] != 'P' && class[0] != 'W' && class[0] != 'S') ==> !own_class(
            class,
        ),
{
    reveal_strlit("Progman");
    reveal_strlit("WorkerW");
    reveal_strlit("Shell_TrayWnd");
    reveal_strlit("Shell_SecondaryTrayWnd");
    reveal_strlit("StartPE_Taskbar");
    reveal_strlit("StartPE_Menu");
    reveal_strlit("StartPE_Peek");
    reveal_strlit("StartPE_AltTab");
    reveal_strlit("StartPE_Desktop");
}

/// A screenshot is fitted below the tile's header, inside its margins.
pub proof fn screenshots_fit_below_the_header(r: Rect, dpi: int)
    requires
        0 <= dpi <= 32767,
        -0x4800_0000 <= r.left <= 0x7000_0000,
        0 <= r.top <= 0x4800_0000,
        r.right - r.left == px(TILE_W as int, dpi),
        r.bottom - r.top == px(TILE_H as int, dpi),
        r.right <= 0x7000_0000,
    ensures
        ({
            let a = thumb_area(r, dpi);
            &&& a.left == r.left + px(6, dpi) && a.right == r.right - px(6, dpi)
            &&& a.top == r.top + px(30, dpi) && a.bottom == r.bottom - px(6, dpi)
            &&& thumb_box(dpi).0 == a.right - a.left
            &&& thumb_box(dpi).1 <= a.bottom - a.top + px(6, dpi)
        }),
{
    lemma_px(200, dpi);
    lemma_px(150, dpi);
    lemma_px(120, dpi);
    lemma_px(6, dpi);
    lemma_px(30, dpi);
    reveal(px);
}

/// However many columns are asked for, at least one and no more than there are tiles
/// are filled.
pub proof fn columns_are_filled(cols: int, n: int)
    requires
        1 <= n,
    ensures
        1 <= filled_cols(cols, n) <= n,
        1 <= cols <= n ==> filled_cols(cols, n) == cols,
{
}

/// `k` presses of Tab with Alt held, and then letting go of Alt, switch to the window
/// listed `k`-th, counted from 0 and round the list.
pub proof fn tabs_switch_to_the_window_counted(
    entries: Seq<Entry>,
    keys: Seq<(HookKey, Held)>,
    release: HookKey,
    later: Held,
)
    requires
        entries.len() > 0,
        keys.len() > 0,
        forall|i: int|
            0 <= i < keys.len() ==> {
                &&& tab_press((#[trigger] keys[i]).0)
                &&& keys[i].1.overlay && keys[i].1.alt && !keys[i].1.shift
            },
        release.code >= 0 && release.flags & 0x10 == 0 && later.overlay,
        release.message == 0x101 || release.message == 0x105,
        release.vk == 0xA4 || release.vk == 0xA5,
    ensures
        answered(engaged_after(false, keys), release, later).1.post == Some(Post::Commit),
        chosen(entries, selected_after(entries.len() as int, keys)) == Some(
            entries[keys.len() as int % (entries.len() as int)].hwnd,
        ),
{
    tabs_count_round_the_entries(entries.len() as int, keys, false);
    assert(tab_press(keys[keys.len() - 1].0));
}

} // verus!
