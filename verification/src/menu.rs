//! Dark, rounded, custom-drawn popup menus.
//!
//! Each menu level is a small window. Items can be entries, separators, or
//! submenus; a submenu opens as a child window to the right with a chevron. Labels
//! may carry a `&` access-key marker (the next char is underlined and activates
//! the item).

use vstd::prelude::*;
use vstd::string::*;
use crate::geometry::{
    clamp_i32, clamped, lemma_px, max2, max_i32, px, rect, scaled, toward_zero, valid_dpi, Rect,
};
use crate::paint::{
    emit, fill, label, shown, Draw, DrawView, Font, DT_NOPREFIX, DT_RIGHT, DT_SINGLELINE, DT_VCENTER,
    LINE,
};
use crate::search::{first, first_from, lemma_first_from, lemma_first_is};
use crate::taskbar::{COL_BG, COL_HOVER, COL_TEXT, COL_TEXT_DIM};
use crate::text::{ascii_lower, chars_of, lower_char, string_of};

verus! {

/// ChevronRight, drawn at the right of a submenu row.
pub const GLYPH_CHEVRON: &'static str = "\u{E76C}";

// Geometry (unscaled px).
/// Entry row height.
pub const ITEM_H: i32 = 30;

/// Separator row height.
pub const SEP_H: i32 = 9;

/// Top/bottom margin inside a panel.
pub const PAD_V: i32 = 6;

/// Left text inset.
pub const TEXT_L: i32 = 16;

/// Right inset.
pub const TEXT_R: i32 = 16;

/// Extra right column when a panel has a submenu.
pub const CHEVRON_W: i32 = 22;

/// Rounded-corner ellipse size.
pub const RADIUS: i32 = 12;

/// Minimum panel width.
pub const MIN_W: i32 = 170;

/// A menu entry for `track_items`.
pub enum Item {
    /// Clickable entry: (command id, label).
    Entry(u32, String),
    /// A dark divider line (never selectable).
    Separator,
    /// A flyout submenu: (label, children). Selecting a leaf returns its command
    /// id.
    Submenu(String, Vec<Item>),
}

pub enum Kind {
    Entry,
    Separator,
    Submenu(Vec<RItem>),
}

/// One resolved menu item.
pub struct RItem {
    pub cmd: u32,
    /// Keeps the `&` access-key marker, which underlines the letter.
    pub label: String,
    /// Lowercased access-key letter from a `&` marker, if any.
    pub access: Option<char>,
    pub kind: Kind,
}

// ---- Labels ----

/// Two `&` from `i` on, which stand for one that is drawn.
pub open spec fn is_pair(s: Seq<char>, i: int) -> bool {
    0 <= i < s.len() - 1 && s[i] == '&' && s[i + 1] == '&'
}

/// The first `&` from `i` on that is not half of a pair.
pub open spec fn first_lone(s: Seq<char>, i: int) -> Option<int>
    decreases s.len() - i,
{
    if i >= s.len() {
        None
    } else if is_pair(s, i) {
        first_lone(s, i + 2)
    } else if s[i] == '&' {
        Some(i)
    } else {
        first_lone(s, i + 1)
    }
}

fn find_lone(s: &Vec<char>) -> (r: Option<usize>)
    ensures
        match first_lone(s@, 0) {
            Some(i) => r matches Some(j) && j == i && i < s.len(),
            None => r is None,
        },
{
    let mut i: usize = 0;
    while i < s.len()
        invariant
            i <= s.len(),
            first_lone(s@, 0) == first_lone(s@, i as int),
        decreases s.len() - i,
    {
        if s[i] != '&' {
            i = i + 1;
        } else if i + 1 < s.len() && s[i + 1] == '&' {
            i = i + 2;
        } else {
            return Some(i);
        }
    }
    None
}

/// The letter behind the first lone `&`, lowercased.
pub open spec fn access_of(s: Seq<char>) -> Option<char> {
    match first_lone(s, 0) {
        Some(i) if i + 1 < s.len() => Some(ascii_lower(s[i + 1])),
        _ => None,
    }
}

/// Find the `&`-marked access key, lowercased.
pub fn access_key(s: &str) -> (r: Option<char>)
    ensures
        r == access_of(s@),
{
    let v = chars_of(s);
    match find_lone(&v) {
        Some(i) => if i + 1 < v.len() {
            Some(lower_char(v[i + 1]))
        } else {
            None
        },
        None => None,
    }
}

/// A label without its first lone `&`.
pub open spec fn without_marker(s: Seq<char>) -> Seq<char> {
    match first_lone(s, 0) {
        Some(i) => s.remove(i),
        None => s,
    }
}

/// Label with the first lone `&` removed (for width measurement, since the marker
/// itself is not rendered).
pub fn measure_label(s: &str) -> (r: String)
    ensures
        r@ == without_marker(s@),
{
    let mut v = chars_of(s);
    match find_lone(&v) {
        Some(i) => {
            let _ = v.remove(i);
        },
        None => {},
    }
    string_of(&v)
}

// ---- Items ----

/// `r` is what `item` resolves to.
pub open spec fn resolves(item: Item, r: RItem) -> bool
    decreases item,
{
    match item {
        Item::Entry(id, t) => {
            &&& r.cmd == id
            &&& r.label@ == t@
            &&& r.access == access_of(t@)
            &&& r.kind is Entry
        },
        Item::Separator => {
            &&& r.cmd == 0
            &&& r.label@.len() == 0
            &&& r.access is None
            &&& r.kind is Separator
        },
        Item::Submenu(t, children) => {
            &&& r.cmd == 0
            &&& r.label@ == t@
            &&& r.access == access_of(t@)
            &&& (r.kind matches Kind::Submenu(v) && v@.len() == children@.len() && (forall|i: int|
                0 <= i < children@.len() ==> resolves(#[trigger] children@[i], v@[i])))
        },
    }
}

/// The items as the menu keeps them: one for one, submenus with their children.
pub fn resolve(items: &Vec<Item>) -> (r: Vec<RItem>)
    ensures
        r@.len() == items@.len(),
        forall|i: int| 0 <= i < items@.len() ==> resolves(#[trigger] items@[i], r@[i]),
    decreases items,
{
    let mut out: Vec<RItem> = Vec::new();
    let mut i: usize = 0;
    while i < items.len()
        invariant
            i <= items.len(),
            out.len() == i,
            forall|k: int| 0 <= k < i ==> resolves(#[trigger] items@[k], out@[k]),
        decreases items.len() - i,
    {
        let it = &items[i];
        assert(decreases_to!(items => items@[i as int]));
        let r = match it {
            Item::Entry(id, t) => RItem {
                cmd: *id,
                label: t.clone(),
                access: access_key(t.as_str()),
                kind: Kind::Entry,
            },
            Item::Separator => RItem {
                cmd: 0,
                label: String::new(),
                access: None,
                kind: Kind::Separator,
            },
            Item::Submenu(t, children) => RItem {
                cmd: 0,
                label: t.clone(),
                access: access_key(t.as_str()),
                kind: Kind::Submenu(resolve(children)),
            },
        };
        assert(resolves(items@[i as int], r));
        out.push(r);
        i = i + 1;
    }
    out
}

/// Items from `(command_id, label)` pairs; an empty label is a separator.
pub fn track(pairs: &Vec<(u32, String)>) -> (r: Vec<Item>)
    ensures
        r@.len() == pairs@.len(),
        forall|i: int|
            0 <= i < pairs@.len() ==> if pairs@[i].1@.len() == 0 {
                (#[trigger] r@[i]) is Separator
            } else {
                r@[i] matches Item::Entry(id, t) && id == pairs@[i].0 && t@ == pairs@[i].1@
            },
{
    let mut out: Vec<Item> = Vec::new();
    let mut i: usize = 0;
    while i < pairs.len()
        invariant
            i <= pairs.len(),
            out.len() == i,
            forall|k: int|
                0 <= k < i ==> if pairs@[k].1@.len() == 0 {
                    (#[trigger] out@[k]) is Separator
                } else {
                    out@[k] matches Item::Entry(id, t) && id == pairs@[k].0 && t@ == pairs@[k].1@
                },
        decreases pairs.len() - i,
    {
        let it = if chars_of(pairs[i].1.as_str()).len() == 0 {
            Item::Separator
        } else {
            Item::Entry(pairs[i].0, pairs[i].1.clone())
        };
        out.push(it);
        i = i + 1;
    }
    out
}

/// The heights of these items add up.
pub open spec fn rows_fit(items: Seq<RItem>, dpi: int) -> bool {
    row_top(items, items.len() as int, dpi) <= 0x1500_0000
}

/// On every level the heights of the items add up.
pub open spec fn bounded(items: Vec<RItem>, dpi: int) -> bool
    decreases items,
{
    &&& rows_fit(items@, dpi)
    &&& forall|i: int|
        0 <= i < items@.len() ==> match (#[trigger] items@[i]).kind {
            Kind::Submenu(c) => bounded(c, dpi),
            _ => true,
        }
}

pub open spec fn selectable(it: RItem) -> bool {
    !(it.kind is Separator)
}

fn is_separator(it: &RItem) -> (r: bool)
    ensures
        r == !selectable(*it),
{
    match &it.kind {
        Kind::Separator => true,
        _ => false,
    }
}

fn is_submenu(it: &RItem) -> (r: bool)
    ensures
        r == it.kind is Submenu,
{
    match &it.kind {
        Kind::Submenu(_) => true,
        _ => false,
    }
}

// ---- Geometry ----

/// Height of one row.
pub open spec fn item_h(it: RItem, dpi: int) -> int {
    if selectable(it) {
        px(ITEM_H as int, dpi)
    } else {
        px(SEP_H as int, dpi)
    }
}

/// Top of row `n`: the margin and the rows before it.
pub open spec fn row_top(items: Seq<RItem>, n: int, dpi: int) -> int
    decreases n,
{
    if n <= 0 {
        px(PAD_V as int, dpi)
    } else {
        row_top(items, n - 1, dpi) + item_h(items[n - 1], dpi)
    }
}

/// Client rect of a row in a panel of this width.
pub open spec fn row_rect(items: Seq<RItem>, n: int, width: int, dpi: int) -> Rect {
    rect(0, row_top(items, n, dpi), width, row_top(items, n + 1, dpi))
}

fn ih(it: &RItem, dpi: i32) -> (r: i32)
    requires
        valid_dpi(dpi),
    ensures
        r == item_h(*it, dpi as int),
        0 <= r <= 10260,
{
    if is_separator(it) {
        scaled(SEP_H, dpi)
    } else {
        scaled(ITEM_H, dpi)
    }
}

/// A row lies no higher than one before it.
proof fn lemma_row_top(items: Seq<RItem>, n: int, m: int, dpi: int)
    requires
        0 <= n <= m,
        0 <= dpi <= 32767,
    ensures
        0 <= row_top(items, n, dpi) <= row_top(items, m, dpi),
    decreases m,
{
    lemma_px(PAD_V as int, dpi);
    lemma_px(ITEM_H as int, dpi);
    lemma_px(SEP_H as int, dpi);
    if m > n {
        lemma_row_top(items, n, m - 1, dpi);
    } else if n > 0 {
        lemma_row_top(items, n - 1, n - 1, dpi);
    }
}

fn top_of(items: &Vec<RItem>, n: usize, dpi: i32) -> (r: i32)
    requires
        valid_dpi(dpi),
        n <= items.len(),
        rows_fit(items@, dpi as int),
    ensures
        r == row_top(items@, n as int, dpi as int),
        0 <= r <= 0x1500_0000,
{
    proof {
        lemma_row_top(items@, 0, items.len() as int, dpi as int);
        lemma_row_top(items@, n as int, items.len() as int, dpi as int);
    }
    let mut y: i32 = scaled(PAD_V, dpi);
    let mut i: usize = 0;
    while i < n
        invariant
            i <= n <= items.len(),
            valid_dpi(dpi),
            rows_fit(items@, dpi as int),
            y == row_top(items@, i as int, dpi as int),
        decreases n - i,
    {
        proof {
            lemma_row_top(items@, i as int, items.len() as int, dpi as int);
            lemma_row_top(items@, i + 1, items.len() as int, dpi as int);
        }
        y = y + ih(&items[i], dpi);
        i = i + 1;
    }
    y
}

/// Client rect of item `idx` within its panel (full panel width).
pub fn item_rect(items: &Vec<RItem>, idx: usize, width: i32, dpi: i32) -> (r: Rect)
    requires
        valid_dpi(dpi),
        idx < items.len(),
        rows_fit(items@, dpi as int),
    ensures
        r == row_rect(items@, idx as int, width as int, dpi as int),
        r.left == 0,
        r.right == width,
        r.top == row_top(items@, idx as int, dpi as int),
        r.bottom == row_top(items@, idx + 1, dpi as int),
        0 <= r.top <= r.bottom <= 0x1800_0000,
{
    proof {
        lemma_row_top(items@, idx + 1, items.len() as int, dpi as int);
    }
    let y: i32 = top_of(items, idx, dpi);
    Rect { left: 0, top: y, right: width, bottom: y + ih(&items[idx], dpi) }
}

/// The widest label among the rows that have one.
pub open spec fn widest_text(items: Seq<RItem>, widths: Seq<i32>, n: int) -> int
    decreases n,
{
    if n <= 0 {
        0
    } else if selectable(items[n - 1]) {
        max2(widest_text(items, widths, n - 1), widths[n - 1] as int)
    } else {
        widest_text(items, widths, n - 1)
    }
}

pub open spec fn has_submenu(items: Seq<RItem>) -> bool {
    exists|i: int| 0 <= i < items.len() && (#[trigger] items[i]).kind is Submenu
}

/// Width of a panel: its widest label with the insets, and a column for chevrons
/// where it has submenus.
pub open spec fn panel_w(items: Seq<RItem>, widths: Seq<i32>, dpi: int) -> int {
    max2(
        widest_text(items, widths, items.len() as int) + px(TEXT_L as int, dpi) + px(
            TEXT_R as int,
            dpi,
        ) + (if has_submenu(items) {
            px(CHEVRON_W as int, dpi)
        } else {
            0
        }),
        px(MIN_W as int, dpi),
    )
}

/// Height of a panel: its rows between two margins.
pub open spec fn panel_h(items: Seq<RItem>, dpi: int) -> int {
    row_top(items, items.len() as int, dpi) + px(PAD_V as int, dpi)
}

/// The measured widths of labels are usable.
pub open spec fn valid_widths(items: Seq<RItem>, widths: Seq<i32>) -> bool {
    &&& widths.len() == items.len()
    &&& forall|i: int| 0 <= i < widths.len() ==> 0 <= #[trigger] widths[i] <= 0x0800_0000
}

/// Size of a panel with these items, given the widths of their labels as drawn.
pub fn measure_panel(items: &Vec<RItem>, widths: &Vec<i32>, dpi: i32) -> (r: (i32, i32))
    requires
        valid_dpi(dpi),
        rows_fit(items@, dpi as int),
        valid_widths(items@, widths@),
    ensures
        r.0 == panel_w(items@, widths@, dpi as int),
        r.1 == panel_h(items@, dpi as int),
        0 <= r.0 <= 0x0900_0000,
        0 <= r.1 <= 0x1800_0000,
{
    let mut text_w: i32 = 0;
    let mut has_sub = false;
    let mut i: usize = 0;
    while i < items.len()
        invariant
            i <= items.len() == widths.len(),
            valid_widths(items@, widths@),
            text_w == widest_text(items@, widths@, i as int),
            0 <= text_w <= 0x0800_0000,
            has_sub == (exists|k: int| 0 <= k < i && (#[trigger] items@[k]).kind is Submenu),
        decreases items.len() - i,
    {
        if is_submenu(&items[i]) {
            has_sub = true;
            assert(items@[i as int].kind is Submenu);
        }
        if !is_separator(&items[i]) {
            text_w = max_i32(text_w, widths[i]);
        }
        i = i + 1;
    }
    let chevron: i32 = if has_sub {
        scaled(CHEVRON_W, dpi)
    } else {
        0
    };
    let w: i32 = max_i32(
        text_w + scaled(TEXT_L, dpi) + scaled(TEXT_R, dpi) + chevron,
        scaled(MIN_W, dpi),
    );
    let h: i32 = top_of(items, items.len(), dpi) + scaled(PAD_V, dpi);
    (w, h)
}

/// A coordinate of a window of this size kept on the screen, two pixels off its
/// edges.
pub open spec fn kept_on(v: int, size: int, screen: int, dpi: int) -> int {
    clamped(v, px(2, dpi), max2(screen - size - px(2, dpi), px(2, dpi)))
}

fn clamp_screen(x: i32, y: i32, w: i32, h: i32, screen_w: i32, screen_h: i32, dpi: i32) -> (r: (
    i32,
    i32,
))
    requires
        valid_dpi(dpi),
        0 <= w <= 0x2000_0000,
        0 <= h <= 0x2000_0000,
        0 <= screen_w <= 0x1000_0000,
        0 <= screen_h <= 0x1000_0000,
    ensures
        r.0 == kept_on(x as int, w as int, screen_w as int, dpi as int),
        r.1 == kept_on(y as int, h as int, screen_h as int, dpi as int),
{
    let m: i32 = scaled(2, dpi);
    (clamp_i32(x, m, max_i32(screen_w - w - m, m)), clamp_i32(y, m, max_i32(screen_h - h - m, m)))
}

pub const TPM_RIGHTALIGN: u32 = 0x8;

pub const TPM_BOTTOMALIGN: u32 = 0x20;

/// Place the root menu relative to its anchor and clamp it on-screen. The anchor
/// is the top-left, or the bottom or right edge where `align` says so.
pub fn root_pos(
    x: i32,
    y: i32,
    align: u32,
    w: i32,
    h: i32,
    screen_w: i32,
    screen_h: i32,
    dpi: i32,
) -> (r: (i32, i32))
    requires
        valid_dpi(dpi),
        -0x1000_0000 <= x <= 0x1000_0000,
        -0x1000_0000 <= y <= 0x1000_0000,
        0 <= w <= 0x2000_0000,
        0 <= h <= 0x2000_0000,
        0 <= screen_w <= 0x1000_0000,
        0 <= screen_h <= 0x1000_0000,
    ensures
        r.0 == kept_on(
            if align & TPM_RIGHTALIGN != 0 {
                x - w
            } else {
                x as int
            },
            w as int,
            screen_w as int,
            dpi as int,
        ),
        r.1 == kept_on(
            if align & TPM_BOTTOMALIGN != 0 {
                y - h
            } else {
                y as int
            },
            h as int,
            screen_h as int,
            dpi as int,
        ),
{
    let left: i32 = if align & TPM_RIGHTALIGN != 0 {
        x - w
    } else {
        x
    };
    let top: i32 = if align & TPM_BOTTOMALIGN != 0 {
        y - h
    } else {
        y
    };
    clamp_screen(left, top, w, h, screen_w, screen_h, dpi)
}

/// The menu is on the screen whenever the screen can hold it.
pub proof fn menu_stays_on_screen(v: int, size: int, screen: int, dpi: int)
    requires
        0 <= dpi <= 32767,
        0 <= size,
        size + 2 * px(2, dpi) <= screen,
    ensures
        0 <= kept_on(v, size, screen, dpi),
        kept_on(v, size, screen, dpi) + size <= screen,
{
    lemma_px(2, dpi);
}

// ---- Selection ----

pub open spec fn first_row(items: Seq<RItem>) -> Option<int> {
    first(items.len() as int, |i: int| selectable(items[i]))
}

/// The first row that can be selected.
pub fn first_selectable(items: &Vec<RItem>) -> (r: Option<usize>)
    ensures
        match first_row(items@) {
            Some(i) => r == Some(i as usize) && 0 <= i < items.len() && selectable(items@[i]),
            None => r is None,
        },
{
    let ghost v = items@;
    let ghost n = v.len() as int;
    let ghost p = |i: int| selectable(v[i]);
    let mut i: usize = 0;
    while i < items.len()
        invariant
            i <= items.len() == n,
            v == items@,
            p == (|i: int| selectable(v[i])),
            first(n, p) == first_from(i as int, n, p),
        decreases items.len() - i,
    {
        if !is_separator(&items[i]) {
            assert(p(i as int));
            return Some(i);
        }
        assert(!p(i as int));
        i = i + 1;
    }
    None
}

/// The row `t` steps from `start`, wrapping: downward, or upward.
pub open spec fn away(start: int, t: int, down: bool, n: int) -> int {
    if down {
        (start + t) % n
    } else {
        (start - t) % n
    }
}

/// Where a search starts: at the selected row, or just off the end.
pub open spec fn start_row(cur: Option<usize>, down: bool, n: int) -> int {
    match cur {
        Some(c) => c as int,
        None => if down {
            -1
        } else {
            n
        },
    }
}

/// The next row in a direction that can be selected, wrapping; the selection
/// stays where there is none.
pub open spec fn next_row(items: Seq<RItem>, cur: Option<usize>, down: bool) -> Option<usize> {
    let n = items.len() as int;
    let start = start_row(cur, down, n);
    if n == 0 {
        None
    } else {
        match first_from(1, n + 1, |t: int| selectable(items[away(start, t, down, n)])) {
            Some(t) => Some(away(start, t, down, n) as usize),
            None => cur,
        }
    }
}

proof fn lemma_mod_next(a: int, n: int)
    requires
        n > 0,
    ensures
        (a + 1) % n == if a % n + 1 == n {
            0
        } else {
            a % n + 1
        },
        (a - 1) % n == if a % n == 0 {
            n - 1
        } else {
            a % n - 1
        },
        0 <= a % n < n,
{
    let q = a / n;
    let r = a % n;
    vstd::arithmetic::div_mod::lemma_fundamental_div_mod(a, n);
    vstd::arithmetic::div_mod::lemma_mod_bound(a, n);
    assert(q * n == n * q) by (nonlinear_arith);
    if r + 1 == n {
        assert((q + 1) * n == q * n + n) by (nonlinear_arith);
        vstd::arithmetic::div_mod::lemma_fundamental_div_mod_converse(a + 1, n, q + 1, 0);
    } else {
        vstd::arithmetic::div_mod::lemma_fundamental_div_mod_converse(a + 1, n, q, r + 1);
    }
    if r == 0 {
        assert((q - 1) * n == q * n - n) by (nonlinear_arith);
        vstd::arithmetic::div_mod::lemma_fundamental_div_mod_converse(a - 1, n, q - 1, n - 1);
    } else {
        vstd::arithmetic::div_mod::lemma_fundamental_div_mod_converse(a - 1, n, q, r - 1);
    }
}

/// Next non-separator index from `cur`, downward or upward, wrapping.
pub fn next_sel(items: &Vec<RItem>, cur: Option<usize>, down: bool) -> (r: Option<usize>)
    requires
        cur matches Some(c) ==> c < items.len(),
    ensures
        r == next_row(items@, cur, down),
        r matches Some(i) ==> i < items.len(),
        (cur matches Some(c) ==> selectable(items@[c as int])) ==> (r matches Some(i)
            ==> selectable(items@[i as int])),
{
    let n: usize = items.len();
    if n == 0 {
        return None;
    }
    let ghost v = items@;
    let ghost m = n as int;
    let ghost start = start_row(cur, down, m);
    let ghost p = |t: int| selectable(v[away(start, t, down, m)]);
    // The row reached so far; just off the end it stands for the row before the
    // first step.
    let mut i: usize = match cur {
        Some(c) => c,
        None => if down {
            n - 1
        } else {
            0
        },
    };
    proof {
        match cur {
            Some(c) => {
                vstd::arithmetic::div_mod::lemma_small_mod(c as nat, m as nat);
            },
            None => {
                vstd::arithmetic::div_mod::lemma_small_mod(0, m as nat);
                lemma_mod_next(0, m);
                vstd::arithmetic::div_mod::lemma_mod_self_0(m);
            },
        }
    }
    let mut t: usize = 0;
    while t < n
        invariant
            t <= n == items.len() == m,
            n > 0,
            i < n,
            v == items@,
            i == away(start, t as int, down, m),
            start == start_row(cur, down, m),
            p == (|t: int| selectable(v[away(start, t, down, m)])),
            first_from(1, m + 1, p) == first_from(t + 1, m + 1, p),
        decreases n - t,
    {
        proof {
            lemma_mod_next(start + t, m);
            lemma_mod_next(start - t, m);
            assert(start + t + 1 == start + (t + 1));
            assert(start - t - 1 == start - (t + 1));
        }
        i = if down {
            if i + 1 == n {
                0
            } else {
                i + 1
            }
        } else {
            if i == 0 {
                n - 1
            } else {
                i - 1
            }
        };
        if !is_separator(&items[i]) {
            assert(p(t + 1));
            return Some(i);
        }
        assert(!p(t + 1));
        t = t + 1;
    }
    cur
}

/// Moving never lands on a separator while there is anything else, and reaches
/// some row then.
pub proof fn moves_skip_separators(items: Seq<RItem>, cur: Option<usize>, down: bool, some: int)
    requires
        0 <= some < items.len(),
        items.len() <= usize::MAX,
        selectable(items[some]),
        cur matches Some(c) ==> c < items.len(),
    ensures
        next_row(items, cur, down) matches Some(i) && i < items.len() && selectable(
            items[i as int],
        ),
{
    let n = items.len() as int;
    let start = start_row(cur, down, n);
    let p = |t: int| selectable(items[away(start, t, down, n)]);
    lemma_first_from(1, n + 1, p);
    // The step count that leads to `some`.
    let d = if down {
        some - start
    } else {
        start - some
    };
    let t = if d >= 1 {
        d
    } else {
        d + n
    };
    if down {
        if t == d {
            vstd::arithmetic::div_mod::lemma_small_mod(some as nat, n as nat);
        } else {
            assert(start + t == some + n);
            vstd::arithmetic::div_mod::lemma_mod_add_multiples_vanish(some, n);
            vstd::arithmetic::div_mod::lemma_small_mod(some as nat, n as nat);
        }
    } else {
        if t == d {
            vstd::arithmetic::div_mod::lemma_small_mod(some as nat, n as nat);
        } else {
            assert(start - t == some - n);
            vstd::arithmetic::div_mod::lemma_mod_sub_multiples_vanish(some, n);
            vstd::arithmetic::div_mod::lemma_small_mod(some as nat, n as nat);
        }
    }
    assert(p(t));
    let found = first_from(1, n + 1, p);
    assert(found is Some);
    lemma_mod_next(start + found->0, n);
    lemma_mod_next(start - found->0, n);
}

/// Up undoes down, and down undoes up.
pub proof fn moves_undo_each_other(items: Seq<RItem>, c: usize, down: bool)
    requires
        c < items.len(),
        items.len() <= usize::MAX,
        selectable(items[c as int]),
    ensures
        next_row(items, next_row(items, Some(c), down), !down) == Some(c),
{
    let n = items.len() as int;
    let start = c as int;
    let p = |t: int| selectable(items[away(start, t, down, n)]);
    lemma_first_from(1, n + 1, p);
    moves_skip_separators(items, Some(c), down, c as int);
    vstd::arithmetic::div_mod::lemma_small_mod(c as nat, n as nat);
    vstd::arithmetic::div_mod::lemma_mod_add_multiples_vanish(start, n);
    vstd::arithmetic::div_mod::lemma_mod_sub_multiples_vanish(start, n);
    assert(p(n)) by {
        assert(start + n == n + start);
    }
    let t = first_from(1, n + 1, p)->0;
    let j = away(start, t, down, n);
    lemma_mod_next(start + t, n);
    lemma_mod_next(start - t, n);
    let up = !down;
    let q = |s: int| selectable(items[away(j, s, up, n)]);
    assert forall|s: int| 1 <= s <= t implies (#[trigger] away(j, s, up, n)) == away(
        start,
        t - s,
        down,
        n,
    ) by {
        if down {
            lemma_shift(start + t, -s, n);
        } else {
            lemma_shift(start - t, s, n);
        }
    }
    assert(away(j, t, up, n) == away(start, 0, down, n));
    assert(q(t));
    assert forall|s: int| 1 <= s < t implies !(#[trigger] q(s)) by {
        assert(away(j, s, up, n) == away(start, t - s, down, n));
        assert(!p(t - s));
    }
    lemma_first_is(1, n + 1, q, t);
}

/// Reducing before or after a shift is the same.
proof fn lemma_shift(a: int, s: int, n: int)
    requires
        n > 0,
    ensures
        (a % n + s) % n == (a + s) % n,
{
    vstd::arithmetic::div_mod::lemma_add_mod_noop(a, s, n);
    vstd::arithmetic::div_mod::lemma_add_mod_noop(a % n, s, n);
    vstd::arithmetic::div_mod::lemma_mod_twice(a, n);
}

// ---- The open menu ----

/// One open menu level (a window).
pub struct Panel {
    pub hwnd: u64,
    /// Currently highlighted item index (never a separator).
    pub hover: Option<usize>,
    /// Where the window stands on the screen.
    pub at: Rect,
    pub width: i32,
    pub height: i32,
    /// Index, in the *parent* panel, of the item that opened this one.
    pub parent_item: usize,
}

/// An open menu.
pub struct Menu {
    /// The items of the root level; every other level's are below them.
    pub items: Vec<RItem>,
    /// `panels[0]` is the root; each later entry is an open submenu level.
    pub panels: Vec<Panel>,
    pub result: Option<u32>,
    pub done: bool,
    /// Last cursor position handled, to ignore a mouse move without movement, which
    /// showing a submenu window can cause.
    pub last_mouse: (i32, i32),
}

/// The children of an item.
pub open spec fn children(it: RItem) -> Vec<RItem>
    recommends
        it.kind is Submenu,
{
    it.kind->Submenu_0
}

/// The items `k` levels below `items`, along the items that the panels opened
/// from.
pub open spec fn level_of(items: Vec<RItem>, panels: Seq<Panel>, k: int) -> Vec<RItem>
    decreases k,
{
    if k <= 0 {
        items
    } else {
        children(level_of(items, panels, k - 1)@[panels[k].parent_item as int])
    }
}

/// Panel `k` belongs to a submenu item of the one before it, and its highlighted
/// row is one that can be selected.
pub open spec fn panel_ok(items: Vec<RItem>, panels: Seq<Panel>, k: int) -> bool {
    let v = level_of(items, panels, k);
    &&& (panels[k].hover matches Some(h) ==> h < v@.len() && selectable(v@[h as int]))
    &&& panels[k].at.near()
    &&& 0 <= panels[k].width <= 0x2000_0000
    &&& 0 <= panels[k].height <= 0x2000_0000
    &&& (k > 0 ==> {
        let parent = level_of(items, panels, k - 1);
        &&& panels[k].parent_item < parent@.len()
        &&& parent@[panels[k].parent_item as int].kind is Submenu
    })
}

pub open spec fn panels_ok(items: Vec<RItem>, panels: Seq<Panel>) -> bool {
    forall|k: int| 0 <= k < panels.len() ==> #[trigger] panel_ok(items, panels, k)
}

/// The items of a level depend on the panels up to it only.
proof fn lemma_level(items: Vec<RItem>, a: Seq<Panel>, b: Seq<Panel>, k: int)
    requires
        forall|j: int| 0 < j <= k ==> (#[trigger] a[j]).parent_item == b[j].parent_item,
    ensures
        level_of(items, a, k) == level_of(items, b, k),
    decreases k,
{
    if k > 0 {
        lemma_level(items, a, b, k - 1);
        assert(a[k].parent_item == b[k].parent_item);
    }
}

/// Fewer panels, or other highlights that are selectable, are as well formed.
proof fn lemma_panels_ok(items: Vec<RItem>, a: Seq<Panel>, b: Seq<Panel>)
    requires
        panels_ok(items, a),
        b.len() <= a.len(),
        forall|j: int|
            0 <= j < b.len() ==> {
                &&& (#[trigger] b[j]).parent_item == a[j].parent_item
                &&& b[j].at == a[j].at
                &&& b[j].width == a[j].width
                &&& b[j].height == a[j].height
                &&& (b[j].hover == a[j].hover || (b[j].hover matches Some(h) ==> h < level_of(
                    items,
                    a,
                    j,
                )@.len() && selectable(level_of(items, a, j)@[h as int])))
            },
    ensures
        panels_ok(items, b),
{
    assert forall|k: int| 0 <= k < b.len() implies #[trigger] panel_ok(items, b, k) by {
        lemma_level(items, b, a, k);
        assert(panel_ok(items, a, k));
        assert(b[k].parent_item == a[k].parent_item);
        if k > 0 {
            lemma_level(items, b, a, k - 1);
        }
    }
}

/// Where the heights add up on every level, they do on an open one.
proof fn lemma_bounded(items: Vec<RItem>, panels: Seq<Panel>, k: int, dpi: int)
    requires
        panels_ok(items, panels),
        bounded(items, dpi),
        0 <= k < panels.len(),
    ensures
        bounded(level_of(items, panels, k), dpi),
    decreases k,
{
    if k > 0 {
        lemma_bounded(items, panels, k - 1, dpi);
        assert(panel_ok(items, panels, k));
        let parent = level_of(items, panels, k - 1);
        assert(parent@[panels[k].parent_item as int].kind is Submenu);
    }
}

/// A panel behind well-formed ones is as well formed, where it belongs to a
/// submenu item of the last of them.
proof fn lemma_pushed(items: Vec<RItem>, a: Seq<Panel>, b: Seq<Panel>)
    requires
        a.len() > 0,
        panels_ok(items, a),
        b.len() == a.len() + 1,
        b.drop_last() == a,
        ({
            let d = a.len() - 1;
            let p = b.last();
            let parent = level_of(items, a, d);
            &&& p.parent_item < parent@.len()
            &&& parent@[p.parent_item as int].kind is Submenu
            &&& p.at.near()
            &&& 0 <= p.width <= 0x2000_0000
            &&& 0 <= p.height <= 0x2000_0000
            &&& (p.hover matches Some(h) ==> {
                let v = children(parent@[p.parent_item as int]);
                h < v@.len() && selectable(v@[h as int])
            })
        }),
    ensures
        panels_ok(items, b),
{
    let d = a.len() - 1;
    assert forall|j: int| 0 <= j <= d implies #[trigger] a[j] == b[j] by {
        assert(b.drop_last()[j] == b[j]);
    }
    assert forall|k: int| 0 <= k < b.len() implies #[trigger] panel_ok(items, b, k) by {
        if k <= d {
            lemma_level(items, b, a, k);
            if k > 0 {
                lemma_level(items, b, a, k - 1);
            }
            assert(a[k] == b[k]);
            assert(panel_ok(items, a, k));
        } else {
            lemma_level(items, b, a, d);
            assert(panel_ok(items, a, d));
        }
    }
}

/// The handles of panels.
pub open spec fn handles(v: Seq<Panel>) -> Seq<u64> {
    Seq::new(v.len(), |i: int| v[i].hwnd)
}

/// A row under the mouse.
#[derive(Clone, Copy, PartialEq, Eq, Structural, Debug)]
pub struct ItemHit {
    pub panel: usize,
    pub item: usize,
    pub submenu: bool,
    pub separator: bool,
}

/// The row of a panel at a height inside it.
pub open spec fn row_at(items: Seq<RItem>, y: int, dpi: int) -> Option<int> {
    first(
        items.len() as int,
        |i: int| row_top(items, i, dpi) <= y < row_top(items, i + 1, dpi),
    )
}

/// What stands for a screen point among the first `n` panels, the deepest first.
pub open spec fn hit_of(
    items: Vec<RItem>,
    panels: Seq<Panel>,
    n: int,
    x: int,
    y: int,
    dpi: int,
) -> Option<ItemHit>
    decreases n,
{
    if n <= 0 {
        None
    } else if panels[n - 1].at.has(x, y) {
        let v = level_of(items, panels, n - 1)@;
        match row_at(v, y - panels[n - 1].at.top, dpi) {
            Some(i) if x - panels[n - 1].at.left < panels[n - 1].width => Some(
                ItemHit {
                    panel: (n - 1) as usize,
                    item: i as usize,
                    submenu: v[i].kind is Submenu,
                    separator: v[i].kind is Separator,
                },
            ),
            _ => None,
        }
    } else {
        hit_of(items, panels, n - 1, x, y, dpi)
    }
}

/// What follows a mouse move.
pub struct MoveOutcome {
    /// Windows of submenus that closed.
    pub closed: Vec<u64>,
    /// The submenu to open: of this item in this panel.
    pub open: Option<(usize, usize)>,
    pub repaint: bool,
}

/// What follows a key or a click.
pub enum Act {
    Nothing,
    Repaint,
    /// The menu is over: it was dismissed, or an entry was picked.
    Finished,
    OpenSub(usize, usize),
    /// The deepest submenu closed; its window is to be destroyed.
    Closed(Vec<u64>),
}

/// Where a panel is placed.
#[derive(Clone, Copy, PartialEq, Eq, Structural, Debug)]
pub struct Placement {
    pub x: i32,
    pub y: i32,
    pub width: i32,
    pub height: i32,
    /// Corner radius of the window's outline.
    pub radius: i32,
}

// Virtual keys.
pub const VK_RETURN: u8 = 0x0D;

pub const VK_ESCAPE: u8 = 0x1B;

pub const VK_LEFT: u8 = 0x25;

pub const VK_UP: u8 = 0x26;

pub const VK_RIGHT: u8 = 0x27;

pub const VK_DOWN: u8 = 0x28;

/// Keys the open menu consumes: navigation plus letters/digits (access keys).
/// Everything else (modifiers, function keys, …) passes through.
pub fn is_menu_key(vk: u32) -> (r: bool)
    ensures
        r == (vk == 0x26 || vk == 0x28 || vk == 0x25 || vk == 0x27 || vk == 0x0D || vk == 0x1B || (
        0x30 <= vk <= 0x5A)),
{
    vk == 0x26 || vk == 0x28 || vk == 0x25 || vk == 0x27 || vk == 0x0D || vk == 0x1B || (vk >= 0x30
        && vk <= 0x5A)
}

/// Whether a key goes to the menu, and to nobody else.
pub fn kb_hook(code: i32, message: u32, vk: u32) -> (r: bool)
    ensures
        r == (code >= 0 && (message == 0x100 || message == 0x104) && (vk == 0x26 || vk == 0x28 || vk
            == 0x25 || vk == 0x27 || vk == 0x0D || vk == 0x1B || (0x30 <= vk <= 0x5A))),
{
    code >= 0 && (message == 0x100 || message == 0x104) && is_menu_key(vk)
}

/// Whether a message is a button press, over a window's client area or its frame.
pub fn is_press(message: u32) -> (r: bool)
    ensures
        r == (message == 0x201 || message == 0x204 || message == 0x207 || message == 0xA1 || message
            == 0xA4),
{
    message == 0x201 || message == 0x204 || message == 0x207 || message == 0xA1 || message == 0xA4
}

/// The first item that an access key picks.
pub open spec fn access_row(items: Seq<RItem>, vk: u8) -> Option<int> {
    first(
        items.len() as int,
        |i: int| items[i].access == Some(ascii_lower(vk as char)) && selectable(items[i]),
    )
}

fn find_access(items: &Vec<RItem>, vk: u8) -> (r: Option<usize>)
    ensures
        match access_row(items@, vk) {
            Some(i) => r == Some(i as usize) && 0 <= i < items.len() && selectable(items@[i]),
            None => r is None,
        },
{
    let ch = lower_char(vk as char);
    let ghost v = items@;
    let ghost n = v.len() as int;
    let ghost p = |i: int| v[i].access == Some(ascii_lower(vk as char)) && selectable(v[i]);
    let mut i: usize = 0;
    while i < items.len()
        invariant
            i <= items.len() == n,
            v == items@,
            ch == ascii_lower(vk as char),
            p == (|i: int| v[i].access == Some(ascii_lower(vk as char)) && selectable(v[i])),
            first(n, p) == first_from(i as int, n, p),
        decreases items.len() - i,
    {
        let same = match items[i].access {
            Some(c) => c == ch,
            None => false,
        };
        if same && !is_separator(&items[i]) {
            assert(p(i as int));
            return Some(i);
        }
        assert(!p(i as int));
        i = i + 1;
    }
    None
}

/// What a key comes to in a panel `depth` levels below the root.
pub enum KeyMeaning {
    Nothing,
    Move(bool),
    Open(int),
    CloseTop,
    Dismiss,
    Pick(int),
}

pub open spec fn meaning(items: Seq<RItem>, hover: Option<usize>, depth: int, vk: u8) -> KeyMeaning {
    if vk == VK_DOWN {
        KeyMeaning::Move(true)
    } else if vk == VK_UP {
        KeyMeaning::Move(false)
    } else if vk == VK_RIGHT {
        match hover {
            Some(i) if items[i as int].kind is Submenu => KeyMeaning::Open(i as int),
            _ => KeyMeaning::Nothing,
        }
    } else if vk == VK_LEFT {
        if depth > 0 {
            KeyMeaning::CloseTop
        } else {
            KeyMeaning::Nothing
        }
    } else if vk == VK_RETURN {
        match hover {
            Some(i) => match items[i as int].kind {
                Kind::Entry => KeyMeaning::Pick(i as int),
                Kind::Submenu(_) => KeyMeaning::Open(i as int),
                Kind::Separator => KeyMeaning::Nothing,
            },
            None => KeyMeaning::Nothing,
        }
    } else if vk == VK_ESCAPE {
        if depth > 0 {
            KeyMeaning::CloseTop
        } else {
            KeyMeaning::Dismiss
        }
    } else {
        match access_row(items, vk) {
            Some(i) => if items[i].kind is Submenu {
                KeyMeaning::Open(i)
            } else {
                KeyMeaning::Pick(i)
            },
            None => KeyMeaning::Nothing,
        }
    }
}

impl Menu {
    pub open spec fn wf(&self) -> bool {
        &&& self.panels@.len() > 0
        &&& panels_ok(self.items, self.panels@)
    }

    /// On every level the heights of the items add up.
    pub open spec fn fits(&self, dpi: int) -> bool {
        bounded(self.items, dpi)
    }

    /// The items of a level.
    pub open spec fn level(&self, k: int) -> Vec<RItem> {
        level_of(self.items, self.panels@, k)
    }

    /// How many submenus are open.
    pub open spec fn depth(&self) -> int {
        self.panels@.len() - 1
    }

    /// Show a menu at screen `(x, y)`. `hwnd` is the window made for it, or 0.
    /// Without items or without a window there is no menu. `select_first`
    /// pre-highlights the first entry.
    pub fn track_items(
        items: Vec<RItem>,
        widths: &Vec<i32>,
        hwnd: u64,
        x: i32,
        y: i32,
        align: u32,
        screen_w: i32,
        screen_h: i32,
        dpi: i32,
        select_first: bool,
    ) -> (r: Option<(Menu, Placement)>)
        requires
            valid_dpi(dpi),
            bounded(items, dpi as int),
            valid_widths(items@, widths@),
            -0x1000_0000 <= x <= 0x1000_0000,
            -0x1000_0000 <= y <= 0x1000_0000,
            0 <= screen_w <= 0x1000_0000,
            0 <= screen_h <= 0x1000_0000,
        ensures
            r is Some <==> items@.len() > 0 && hwnd != 0,
            r matches Some(mp) ==> {
                let m = mp.0;
                let p = mp.1;
                &&& m.wf()
                &&& m.items == items
                &&& m.depth() == 0
                &&& m.panels@[0].hwnd == hwnd
                &&& m.result is None
                &&& !m.done
                &&& m.panels@[0].hover == if select_first {
                    match first_row(items@) {
                        Some(i) => Some(i as usize),
                        None => None,
                    }
                } else {
                    None
                }
                &&& p.width == panel_w(items@, widths@, dpi as int)
                &&& p.height == panel_h(items@, dpi as int)
                &&& p.radius == px(RADIUS as int, dpi as int)
                &&& p.x == kept_on(
                    if align & TPM_RIGHTALIGN != 0 {
                        x - p.width
                    } else {
                        x as int
                    },
                    p.width as int,
                    screen_w as int,
                    dpi as int,
                )
                &&& p.y == kept_on(
                    if align & TPM_BOTTOMALIGN != 0 {
                        y - p.height
                    } else {
                        y as int
                    },
                    p.height as int,
                    screen_h as int,
                    dpi as int,
                )
                &&& m.panels@[0].width == p.width
                &&& m.panels@[0].height == p.height
                &&& m.panels@[0].at == rect(p.x as int, p.y as int, p.x + p.width, p.y + p.height)
            },
    {
        if items.len() == 0 || hwnd == 0 {
            return None;
        }
        proof {
            lemma_px(2, dpi as int);
        }
        let (w, h) = measure_panel(&items, widths, dpi);
        let (left, top) = root_pos(x, y, align, w, h, screen_w, screen_h, dpi);
        let hover = if select_first {
            first_selectable(&items)
        } else {
            None
        };
        let mut panels: Vec<Panel> = Vec::new();
        panels.push(
            Panel {
                hwnd,
                hover,
                at: Rect { left, top, right: left + w, bottom: top + h },
                width: w,
                height: h,
                parent_item: 0,
            },
        );
        let m = Menu { items, panels, result: None, done: false, last_mouse: (i32::MIN, i32::MIN) };
        assert(m.level(0) == m.items);
        assert(panel_ok(m.items, m.panels@, 0));
        let place = Placement { x: left, y: top, width: w, height: h, radius: scaled(RADIUS, dpi) };
        Some((m, place))
    }

    /// The menu is over.
    pub fn finished(&self) -> (r: bool)
        ensures
            r == (self.done || self.result is Some),
    {
        self.done || self.result.is_some()
    }

    /// The command of the picked entry, or 0.
    pub fn chosen(&self) -> (r: u32)
        ensures
            r == match self.result {
                Some(cmd) => cmd,
                None => 0,
            },
    {
        match self.result {
            Some(cmd) => cmd,
            None => 0,
        }
    }

    pub fn dismiss(&mut self)
        ensures
            *final(self) == (Menu { done: true, ..*old(self) }),
    {
        self.done = true;
    }

    /// A window is one of the menu's.
    pub fn owns(&self, hwnd: u64) -> (r: bool)
        ensures
            r == handles(self.panels@).contains(hwnd),
    {
        let ghost all = handles(self.panels@);
        let mut i: usize = 0;
        while i < self.panels.len()
            invariant
                i <= self.panels.len(),
                all == handles(self.panels@),
                forall|k: int| 0 <= k < i ==> self.panels@[k].hwnd != hwnd,
            decreases self.panels.len() - i,
        {
            if self.panels[i].hwnd == hwnd {
                assert(all[i as int] == hwnd);
                return true;
            }
            i = i + 1;
        }
        false
    }

    /// The items of level `k`.
    pub fn level_items(&self, k: usize) -> (r: &Vec<RItem>)
        requires
            self.wf(),
            k < self.panels@.len(),
        ensures
            *r == self.level(k as int),
    {
        let mut v = &self.items;
        let mut i: usize = 0;
        while i < k
            invariant
                i <= k < self.panels@.len(),
                self.wf(),
                *v == self.level(i as int),
            decreases k - i,
        {
            let next: usize = i + 1;
            assert(panel_ok(self.items, self.panels@, next as int));
            let it = &v[self.panels[next].parent_item];
            match &it.kind {
                Kind::Submenu(c) => {
                    v = c;
                },
                _ => {},
            }
            i = next;
        }
        v
    }

    /// Close the levels from `depth` down; their windows are to be destroyed.
    pub fn close_below(&mut self, depth: usize) -> (r: Vec<u64>)
        requires
            old(self).wf(),
            depth > 0,
        ensures
            final(self).wf(),
            depth < old(self).panels@.len() ==> {
                &&& final(self).panels@ == old(self).panels@.take(depth as int)
                &&& r@ == handles(old(self).panels@.skip(depth as int))
            },
            depth >= old(self).panels@.len() ==> {
                &&& final(self).panels@ == old(self).panels@
                &&& r@.len() == 0
            },
            final(self).items == old(self).items,
            final(self).result == old(self).result,
            final(self).done == old(self).done,
            final(self).last_mouse == old(self).last_mouse,
    {
        let mut out: Vec<u64> = Vec::new();
        if depth < self.panels.len() {
            let ghost all = self.panels@;
            let mut i: usize = depth;
            while i < self.panels.len()
                invariant
                    depth <= i <= self.panels.len(),
                    self.panels@ == all,
                    *self == *old(self),
                    out@ == handles(all.subrange(depth as int, i as int)),
                decreases self.panels.len() - i,
            {
                out.push(self.panels[i].hwnd);
                i = i + 1;
                assert(out@ =~= handles(all.subrange(depth as int, i as int)));
            }
            assert(all.subrange(depth as int, all.len() as int) =~= all.skip(depth as int));
            self.panels.truncate(depth);
            assert(self.panels@ =~= all.take(depth as int));
            proof {
                lemma_panels_ok(self.items, all, self.panels@);
            }
        }
        out
    }

    /// Hit-test a screen point against the open panels (deepest first).
    pub open spec fn hit(&self, x: int, y: int, dpi: int) -> Option<ItemHit> {
        hit_of(self.items, self.panels@, self.panels@.len() as int, x, y, dpi)
    }

    pub fn hit_panel_item(&self, x: i32, y: i32, dpi: i32) -> (r: Option<ItemHit>)
        requires
            self.wf(),
            valid_dpi(dpi),
            self.fits(dpi as int),
        ensures
            r == self.hit(x as int, y as int, dpi as int),
            r matches Some(h) ==> {
                let v = self.level(h.panel as int)@;
                &&& h.panel < self.panels@.len()
                &&& h.item < v.len()
                &&& h.submenu == v[h.item as int].kind is Submenu
                &&& h.separator == v[h.item as int].kind is Separator
            },
    {
        let mut n: usize = self.panels.len();
        while n > 0
            invariant
                n <= self.panels@.len(),
                self.wf(),
                valid_dpi(dpi),
                self.fits(dpi as int),
                self.hit(x as int, y as int, dpi as int) == hit_of(
                    self.items,
                    self.panels@,
                    n as int,
                    x as int,
                    y as int,
                    dpi as int,
                ),
            decreases n,
        {
            let p = &self.panels[n - 1];
            assert(panel_ok(self.items, self.panels@, n - 1));
            if p.at.contains(x, y) {
                proof {
                    lemma_bounded(self.items, self.panels@, n - 1, dpi as int);
                }
                let items = self.level_items(n - 1);
                let cx: i32 = x - p.at.left;
                let cy: i32 = y - p.at.top;
                let ghost v = items@;
                let ghost m = v.len() as int;
                let ghost gy = y - p.at.top;
                let ghost d = dpi as int;
                let ghost q = |i: int| row_top(v, i, d) <= gy < row_top(v, i + 1, d);
                let mut i: usize = 0;
                while i < items.len()
                    invariant
                        i <= items.len() == m,
                        v == items@,
                        rows_fit(v, d),
                        valid_dpi(dpi),
                        d == dpi,
                        gy == cy,
                        cx == x - p.at.left,
                        q == (|i: int| row_top(v, i, d) <= gy < row_top(v, i + 1, d)),
                        first(m, q) == first_from(i as int, m, q),
                        first(m, q) == row_at(v, gy, d),
                        n <= self.panels@.len(),
                        n > 0,
                        *p == self.panels@[n - 1],
                        p.at.has(x as int, y as int),
                        p.at.near(),
                        v == self.level(n - 1)@,
                        gy == y - p.at.top,
                        self.hit(x as int, y as int, d) == hit_of(
                            self.items,
                            self.panels@,
                            n as int,
                            x as int,
                            y as int,
                            d,
                        ),
                    decreases items.len() - i,
                {
                    let r = item_rect(items, i, p.width, dpi);
                    if cy >= r.top && cy < r.bottom {
                        assert(q(i as int));
                        assert(row_at(v, gy, d) == Some(i as int));
                        if cx < p.width {
                            return Some(
                                ItemHit {
                                    panel: n - 1,
                                    item: i,
                                    submenu: is_submenu(&items[i]),
                                    separator: is_separator(&items[i]),
                                },
                            );
                        }
                        return None;
                    }
                    assert(!q(i as int));
                    i = i + 1;
                }
                return None;
            }
            n = n - 1;
        }
        None
    }

    /// The items of the submenu that item `item` of panel `parent` would open:
    /// `None` for an item without one, and while that submenu is open already.
    pub open spec fn submenu_of(&self, parent: int, item: int) -> Option<Vec<RItem>> {
        if parent + 1 < self.panels@.len() && self.panels@[parent + 1].parent_item == item {
            None
        } else if parent < self.panels@.len() && item < self.level(parent)@.len() && self.level(
            parent,
        )@[item].kind is Submenu {
            Some(children(self.level(parent)@[item]))
        } else {
            None
        }
    }

    /// The items whose labels are to be measured before `open_submenu`.
    pub fn submenu(&self, parent: usize, item: usize) -> (r: Option<&Vec<RItem>>)
        requires
            self.wf(),
        ensures
            match self.submenu_of(parent as int, item as int) {
                Some(v) => r matches Some(c) && *c == v,
                None => r is None,
            },
    {
        if parent >= self.panels.len() {
            return None;
        }
        assert(panel_ok(self.items, self.panels@, parent as int));
        if parent + 1 < self.panels.len() && self.panels[parent + 1].parent_item == item {
            return None;
        }
        let items = self.level_items(parent);
        if item >= items.len() {
            return None;
        }
        match &items[item].kind {
            Kind::Submenu(c) => Some(c),
            _ => None,
        }
    }

    /// Left edge of a submenu beside its parent: to the right, or to the left where
    /// it would run off the screen.
    pub open spec fn beside(parent: Rect, w: int, screen_w: int, dpi: int) -> int {
        if parent.right - px(4, dpi) + w > screen_w - px(2, dpi) {
            parent.left - w + px(4, dpi)
        } else {
            parent.right - px(4, dpi)
        }
    }

    /// Add a level below the deepest one, opened from its item `item`, whose row
    /// stays highlighted while the submenu is open.
    fn attach(
        &mut self,
        item: usize,
        hwnd: u64,
        hover: Option<usize>,
        at: Rect,
        width: i32,
        height: i32,
    )
        requires
            old(self).wf(),
            item < old(self).level(old(self).depth())@.len(),
            old(self).level(old(self).depth())@[item as int].kind is Submenu,
            at.near(),
            0 <= width <= 0x2000_0000,
            0 <= height <= 0x2000_0000,
            hover matches Some(h) ==> {
                let v = children(old(self).level(old(self).depth())@[item as int]);
                h < v@.len() && selectable(v@[h as int])
            },
        ensures
            final(self).wf(),
            final(self).items == old(self).items,
            final(self).result == old(self).result,
            final(self).done == old(self).done,
            final(self).last_mouse == old(self).last_mouse,
            final(self).panels@ == old(self).panels@.drop_last().push(
                (Panel { hover: Some(item), ..old(self).panels@.last() }),
            ).push((Panel { hwnd, hover, at, width, height, parent_item: item })),
            final(self).level(final(self).depth()) == children(
                old(self).level(old(self).depth())@[item as int],
            ),
    {
        let ghost kept = self.panels@;
        let ghost d = self.depth();
        let ghost parent_items = self.level(d);
        assert(panel_ok(self.items, self.panels@, d));
        let last: usize = self.panels.len() - 1;
        let was = self.panels.remove(last);
        self.panels.push(
            Panel {
                hwnd: was.hwnd,
                hover: Some(item),
                at: was.at,
                width: was.width,
                height: was.height,
                parent_item: was.parent_item,
            },
        );
        let ghost lit = self.panels@;
        proof {
            assert(lit =~= kept.drop_last().push(Panel { hover: Some(item), ..kept.last() }));
            lemma_panels_ok(self.items, kept, lit);
        }
        self.panels.push(Panel { hwnd, hover, at, width, height, parent_item: item });
        proof {
            let new = self.panels@;
            assert(new.drop_last() =~= lit);
            lemma_level(self.items, lit, kept, d);
            lemma_level(self.items, new, lit, d);
            lemma_pushed(self.items, lit, new);
        }
    }

    /// Open the submenu of item `item` in panel `parent`, in the window `hwnd` made
    /// for it (0 where none could be made). Deeper levels close first; their
    /// windows come back. Nothing happens where `submenu` gives nothing.
    pub fn open_submenu(
        &mut self,
        parent: usize,
        item: usize,
        select_first: bool,
        widths: &Vec<i32>,
        hwnd: u64,
        screen_w: i32,
        screen_h: i32,
        dpi: i32,
    ) -> (r: (Vec<u64>, Option<Placement>))
        requires
            old(self).wf(),
            valid_dpi(dpi),
            old(self).fits(dpi as int),
            0 <= screen_w <= 0x1000_0000,
            0 <= screen_h <= 0x1000_0000,
            old(self).submenu_of(parent as int, item as int) matches Some(v) ==> valid_widths(
                v@,
                widths@,
            ),
        ensures
            final(self).wf(),
            final(self).items == old(self).items,
            final(self).result == old(self).result,
            final(self).done == old(self).done,
            final(self).last_mouse == old(self).last_mouse,
            r.1 is Some <==> old(self).submenu_of(parent as int, item as int) is Some && hwnd != 0,
            old(self).submenu_of(parent as int, item as int) is None ==> *final(self) == *old(self)
                && r.0@.len() == 0,
            old(self).submenu_of(parent as int, item as int) matches Some(v) ==> {
                &&& r.0@ == handles(old(self).panels@.skip(parent + 1))
                &&& hwnd == 0 ==> final(self).panels@ == old(self).panels@.take(parent + 1)
            },
            r.1 matches Some(p) ==> {
                let v = old(self).submenu_of(parent as int, item as int)->0;
                let was = old(self).panels@[parent as int];
                let new = final(self).panels@;
                &&& new.len() == parent + 2
                &&& new.take(parent as int) == old(self).panels@.take(parent as int)
                &&& new[parent as int] == (Panel { hover: Some(item), ..was })
                &&& new[parent + 1].hwnd == hwnd
                &&& new[parent + 1].parent_item == item
                &&& final(self).level(parent + 1) == v
                &&& new[parent + 1].hover == if select_first {
                    match first_row(v@) {
                        Some(i) => Some(i as usize),
                        None => None,
                    }
                } else {
                    None
                }
                &&& p.width == panel_w(v@, widths@, dpi as int)
                &&& p.height == panel_h(v@, dpi as int)
                &&& p.radius == px(RADIUS as int, dpi as int)
                &&& p.x == kept_on(
                    Menu::beside(was.at, p.width as int, screen_w as int, dpi as int),
                    p.width as int,
                    screen_w as int,
                    dpi as int,
                )
                &&& p.y == kept_on(
                    was.at.top + row_top(
                        old(self).level(parent as int)@,
                        item as int,
                        dpi as int,
                    ) - px(PAD_V as int, dpi as int),
                    p.height as int,
                    screen_h as int,
                    dpi as int,
                )
                &&& new[parent + 1].width == p.width
                &&& new[parent + 1].height == p.height
                &&& new[parent + 1].at == rect(
                    p.x as int,
                    p.y as int,
                    p.x + p.width,
                    p.y + p.height,
                )
            },
    {
        let ghost before = self.panels@;
        let (w, h, top, hover) = match self.submenu(parent, item) {
            None => {
                return (Vec::new(), None);
            },
            Some(c) => {
                proof {
                    lemma_bounded(self.items, self.panels@, parent as int, dpi as int);
                    assert(self.level(parent as int)@[item as int].kind is Submenu);
                    assert(bounded(*c, dpi as int));
                }
                let (w, h) = measure_panel(c, widths, dpi);
                let hover = if select_first {
                    first_selectable(c)
                } else {
                    None
                };
                assert(panel_ok(self.items, self.panels@, parent as int));
                let items = self.level_items(parent);
                let top: i32 = item_rect(items, item, 0, dpi).top;
                (w, h, top, hover)
            },
        };
        let ghost v = self.submenu_of(parent as int, item as int)->0;
        let ghost parent_items = self.level(parent as int);
        assert(parent < self.panels.len());
        let closed = self.close_below(parent + 1);
        assert(self.panels@ =~= before.take(parent + 1));
        assert(closed@ =~= handles(before.skip(parent + 1)));
        if hwnd == 0 {
            return (closed, None);
        }
        proof {
            lemma_px(2, dpi as int);
            lemma_level(self.items, self.panels@, before, parent as int);
        }
        let pr = self.panels[parent].at;
        assert(panel_ok(self.items, self.panels@, parent as int));
        assert(pr.near());
        let mut cx: i32 = pr.right - scaled(4, dpi);
        if cx + w > screen_w - scaled(2, dpi) {
            cx = pr.left - w + scaled(4, dpi);
        }
        let (x, y) = clamp_screen(
            cx,
            pr.top + top - scaled(PAD_V, dpi),
            w,
            h,
            screen_w,
            screen_h,
            dpi,
        );
        self.attach(
            item,
            hwnd,
            hover,
            Rect { left: x, top: y, right: x + w, bottom: y + h },
            w,
            h,
        );
        assert(self.panels@.take(parent as int) =~= before.take(parent as int));
        let place = Placement { x, y, width: w, height: h, radius: scaled(RADIUS, dpi) };
        (closed, Some(place))
    }
}

// ---- Input ----

/// The panels after the mouse moved onto a row: it is highlighted (a separator
/// never is), and submenus other than its own close.
pub open spec fn panels_after(panels: Seq<Panel>, h: ItemHit) -> Seq<Panel> {
    let kept = if submenu_shown(panels, h) {
        panels
    } else {
        panels.take(h.panel + 1)
    };
    kept.update(
        h.panel as int,
        Panel {
            hover: if h.separator {
                None
            } else {
                Some(h.item)
            },
            ..panels[h.panel as int]
        },
    )
}

/// The submenu of the row is the one that is open.
pub open spec fn submenu_shown(panels: Seq<Panel>, h: ItemHit) -> bool {
    h.panel + 1 < panels.len() && panels[h.panel + 1].parent_item == h.item && h.submenu
}

impl Menu {
    /// Highlight a row of level `k`, or none.
    fn set_hover(&mut self, k: usize, hover: Option<usize>)
        requires
            old(self).wf(),
            k < old(self).panels@.len(),
            hover matches Some(h) ==> {
                let v = old(self).level(k as int)@;
                h < v.len() && selectable(v[h as int])
            },
        ensures
            final(self).wf(),
            final(self).panels@ == old(self).panels@.update(
                k as int,
                (Panel { hover, ..old(self).panels@[k as int] }),
            ),
            final(self).items == old(self).items,
            final(self).result == old(self).result,
            final(self).done == old(self).done,
            final(self).last_mouse == old(self).last_mouse,
    {
        let ghost before = self.panels@;
        let p = self.panels.remove(k);
        self.panels.insert(
            k,
            Panel {
                hwnd: p.hwnd,
                hover,
                at: p.at,
                width: p.width,
                height: p.height,
                parent_item: p.parent_item,
            },
        );
        assert(self.panels@ =~= before.update(k as int, Panel { hover, ..before[k as int] }));
        proof {
            lemma_panels_ok(self.items, before, self.panels@);
        }
    }

    /// Update the highlight for a screen point and close submenus to match.
    pub fn on_mouse_move(&mut self, x: i32, y: i32, dpi: i32) -> (r: MoveOutcome)
        requires
            old(self).wf(),
            valid_dpi(dpi),
            old(self).fits(dpi as int),
        ensures
            final(self).wf(),
            final(self).items == old(self).items,
            final(self).result == old(self).result,
            final(self).done == old(self).done,
            final(self).last_mouse == (x, y),
            ({
                let hit = if old(self).last_mouse == (x, y) {
                    None
                } else {
                    old(self).hit(x as int, y as int, dpi as int)
                };
                let was = old(self).panels@;
                match hit {
                    None => {
                        &&& final(self).panels@ == was
                        &&& r.closed@.len() == 0
                        &&& r.open is None
                        &&& !r.repaint
                    },
                    Some(h) => {
                        &&& final(self).panels@ == panels_after(was, h)
                        &&& r.closed@ == if submenu_shown(was, h) {
                            seq![]
                        } else {
                            handles(was.skip(h.panel + 1))
                        }
                        &&& r.open == if h.submenu && !submenu_shown(was, h) {
                            Some((h.panel, h.item))
                        } else {
                            None
                        }
                        &&& r.repaint == (final(self).panels@[h.panel as int].hover
                            != was[h.panel as int].hover || r.closed@.len() > 0)
                    },
                }
            }),
    {
        if self.last_mouse.0 == x && self.last_mouse.1 == y {
            return MoveOutcome { closed: Vec::new(), open: None, repaint: false };
        }
        let ghost was = self.panels@;
        self.last_mouse = (x, y);
        let h = match self.hit_panel_item(x, y, dpi) {
            Some(h) => h,
            None => {
                return MoveOutcome { closed: Vec::new(), open: None, repaint: false };
            },
        };
        let hover = if h.separator {
            None
        } else {
            Some(h.item)
        };
        let count: usize = self.panels.len();
        let deeper = h.panel + 1 < count;
        let shown = deeper && self.panels[h.panel + 1].parent_item == h.item && h.submenu;
        let before = self.panels[h.panel].hover;
        let same = match (before, hover) {
            (Some(a), Some(b)) => a == b,
            (None, None) => true,
            _ => false,
        };
        self.set_hover(h.panel, hover);
        let closed = if shown {
            Vec::new()
        } else {
            self.close_below(h.panel + 1)
        };
        proof {
            let lit = was.update(h.panel as int, Panel { hover, ..was[h.panel as int] });
            assert(lit.take(h.panel + 1) =~= was.take(h.panel + 1).update(
                h.panel as int,
                Panel { hover, ..was[h.panel as int] },
            ));
            assert(self.panels@ =~= panels_after(was, h));
            assert(handles(lit.skip(h.panel + 1)) =~= handles(was.skip(h.panel + 1)));
            if shown {
                assert(closed@ =~= seq![]);
            } else {
                assert(closed@ =~= handles(was.skip(h.panel + 1)));
            }
        }
        let open = if h.submenu && !shown {
            Some((h.panel, h.item))
        } else {
            None
        };
        MoveOutcome { closed, open, repaint: !same || (deeper && !shown) }
    }

    /// Act on a key: on the deepest level.
    pub fn on_key(&mut self, vk: u8) -> (r: Act)
        requires
            old(self).wf(),
        ensures
            final(self).wf(),
            final(self).items == old(self).items,
            final(self).last_mouse == old(self).last_mouse,
            ({
                let d = old(self).depth();
                let v = old(self).level(d)@;
                let was = old(self).panels@;
                let m = meaning(v, was[d].hover, d, vk);
                &&& final(self).panels@ == match m {
                    KeyMeaning::Move(down) => was.update(
                        d,
                        Panel { hover: next_row(v, was[d].hover, down), ..was[d] },
                    ),
                    KeyMeaning::CloseTop => was.drop_last(),
                    _ => was,
                }
                &&& final(self).result == match m {
                    KeyMeaning::Pick(i) => Some(v[i].cmd),
                    _ => old(self).result,
                }
                &&& final(self).done == (old(self).done || m is Dismiss)
                &&& match m {
                    KeyMeaning::Nothing => r is Nothing,
                    KeyMeaning::Move(_) => r is Repaint,
                    KeyMeaning::Open(i) => r == Act::OpenSub(d as usize, i as usize),
                    KeyMeaning::CloseTop => r matches Act::Closed(c) && c@ == seq![was[d].hwnd],
                    KeyMeaning::Dismiss => r is Finished,
                    KeyMeaning::Pick(_) => r is Finished,
                }
            }),
    {
        let depth: usize = self.panels.len() - 1;
        assert(panel_ok(self.items, self.panels@, depth as int));
        let hover = self.panels[depth].hover;
        let ghost was = self.panels@;
        if vk == VK_DOWN || vk == VK_UP {
            let items = self.level_items(depth);
            let next = next_sel(items, hover, vk == VK_DOWN);
            self.set_hover(depth, next);
            return Act::Repaint;
        }
        if vk == VK_LEFT || vk == VK_ESCAPE {
            if depth > 0 {
                let closed = self.close_below(depth);
                assert(self.panels@ =~= was.drop_last());
                assert(closed@ =~= seq![was[depth as int].hwnd]);
                return Act::Closed(closed);
            }
            if vk == VK_ESCAPE {
                self.done = true;
                return Act::Finished;
            }
            return Act::Nothing;
        }
        let items = self.level_items(depth);
        if vk == VK_RIGHT {
            return match hover {
                Some(i) => if is_submenu(&items[i]) {
                    Act::OpenSub(depth, i)
                } else {
                    Act::Nothing
                },
                None => Act::Nothing,
            };
        }
        let row = if vk == VK_RETURN {
            hover
        } else {
            find_access(items, vk)
        };
        match row {
            Some(i) => {
                if is_submenu(&items[i]) {
                    Act::OpenSub(depth, i)
                } else {
                    let cmd: u32 = items[i].cmd;
                    self.result = Some(cmd);
                    Act::Finished
                }
            },
            None => Act::Nothing,
        }
    }

    /// Act on a click: an entry is picked, a submenu opens.
    pub fn on_button_up(&mut self, x: i32, y: i32, dpi: i32) -> (r: Act)
        requires
            old(self).wf(),
            valid_dpi(dpi),
            old(self).fits(dpi as int),
        ensures
            final(self).wf(),
            final(self).items == old(self).items,
            final(self).panels == old(self).panels,
            final(self).done == old(self).done,
            final(self).last_mouse == old(self).last_mouse,
            match old(self).hit(x as int, y as int, dpi as int) {
                Some(h) if h.submenu => r == Act::OpenSub(h.panel, h.item) && final(self).result
                    == old(self).result,
                Some(h) if !h.separator => r is Finished && final(self).result == Some(
                    old(self).level(h.panel as int)@[h.item as int].cmd,
                ),
                _ => r is Nothing && final(self).result == old(self).result,
            },
    {
        match self.hit_panel_item(x, y, dpi) {
            Some(h) => {
                if h.submenu {
                    Act::OpenSub(h.panel, h.item)
                } else if !h.separator {
                    let items = self.level_items(h.panel);
                    let cmd: u32 = items[h.item].cmd;
                    self.result = Some(cmd);
                    Act::Finished
                } else {
                    Act::Nothing
                }
            },
            None => Act::Nothing,
        }
    }

    /// Whether a mouse event elsewhere dismisses the menu: a button press that is
    /// on none of its rows.
    pub fn mouse_hook(&self, code: i32, message: u32, x: i32, y: i32, dpi: i32) -> (r: bool)
        requires
            self.wf(),
            valid_dpi(dpi),
            self.fits(dpi as int),
        ensures
            r == (code >= 0 && (message == 0x201 || message == 0x204 || message == 0x207 || message
                == 0xA1 || message == 0xA4) && self.hit(x as int, y as int, dpi as int) is None),
    {
        code >= 0 && is_press(message) && self.hit_panel_item(x, y, dpi).is_none()
    }

    /// Whether another window coming to the foreground dismisses the menu.
    pub fn winevent_hook(&self, event: u32, hwnd: u64) -> (r: bool)
        ensures
            r == (event == 3 && !handles(self.panels@).contains(hwnd)),
    {
        event == 3 && !self.owns(hwnd)
    }
}

// ---- Painting ----

/// A separator's line.
pub open spec fn bar_of(r: Rect, dpi: int) -> Rect {
    let y = toward_zero(r.top + r.bottom, 2);
    rect(r.left + px(12, dpi), y, r.right - px(12, dpi), y + 1)
}

/// One row: a line for a separator; else its highlight, its label and a chevron.
pub open spec fn row_draws(it: RItem, r: Rect, hovered: bool, dpi: int) -> Seq<DrawView> {
    if !selectable(it) {
        seq![DrawView::Fill { rect: bar_of(r, dpi), color: COL_TEXT_DIM }]
    } else {
        (if hovered {
            seq![
                DrawView::Pill {
                    rect: rect(
                        r.left + px(4, dpi),
                        r.top + px(1, dpi),
                        r.right - px(4, dpi),
                        r.bottom - px(1, dpi),
                    ),
                    fill: COL_HOVER,
                    radius: px(7, dpi) as i32,
                },
            ]
        } else {
            seq![]
        }) + (if it.label@.len() > 0 {
            seq![
                DrawView::Text {
                    font: Font::Text,
                    color: COL_TEXT,
                    text: it.label@,
                    rect: rect(
                        r.left + px(TEXT_L as int, dpi),
                        r.top as int,
                        r.right - px(TEXT_R as int, dpi),
                        r.bottom as int,
                    ),
                    flags: LINE,
                },
            ]
        } else {
            seq![]
        }) + (if it.kind is Submenu {
            seq![
                DrawView::Text {
                    font: Font::GlyphSmall,
                    color: COL_TEXT_DIM,
                    text: GLYPH_CHEVRON@,
                    rect: rect(
                        r.right - px(24, dpi),
                        r.top as int,
                        r.right - px(8, dpi),
                        r.bottom as int,
                    ),
                    flags: DT_SINGLELINE | DT_VCENTER | DT_RIGHT | DT_NOPREFIX,
                },
            ]
        } else {
            seq![]
        })
    }
}

/// The first `n` rows of a panel.
pub open spec fn rows_draws(
    items: Seq<RItem>,
    hover: Option<usize>,
    width: int,
    n: int,
    dpi: int,
) -> Seq<DrawView>
    decreases n,
{
    if n <= 0 {
        seq![]
    } else {
        rows_draws(items, hover, width, n - 1, dpi) + row_draws(
            items[n - 1],
            row_rect(items, n - 1, width, dpi),
            hover == Some((n - 1) as usize),
            dpi,
        )
    }
}

fn draw_row(out: &mut Vec<Draw>, it: &RItem, r: Rect, hovered: bool, dpi: i32)
    requires
        valid_dpi(dpi),
        r.near(),
    ensures
        shown(final(out)@) == shown(old(out)@) + row_draws(*it, r, hovered, dpi as int),
{
    let ghost before = shown(out@);
    if is_separator(it) {
        let y: i32 = (r.top + r.bottom) / 2;
        fill(
            out,
            Rect {
                left: r.left + scaled(12, dpi),
                top: y,
                right: r.right - scaled(12, dpi),
                bottom: y + 1,
            },
            COL_TEXT_DIM,
        );
    } else {
        if hovered {
            emit(
                out,
                Draw::Pill {
                    rect: Rect {
                        left: r.left + scaled(4, dpi),
                        top: r.top + scaled(1, dpi),
                        right: r.right - scaled(4, dpi),
                        bottom: r.bottom - scaled(1, dpi),
                    },
                    fill: COL_HOVER,
                    radius: scaled(7, dpi),
                },
            );
        }
        if chars_of(it.label.as_str()).len() > 0 {
            label(
                out,
                Font::Text,
                COL_TEXT,
                it.label.as_str(),
                Rect {
                    left: r.left + scaled(TEXT_L, dpi),
                    top: r.top,
                    right: r.right - scaled(TEXT_R, dpi),
                    bottom: r.bottom,
                },
                LINE,
            );
        }
        if is_submenu(it) {
            label(
                out,
                Font::GlyphSmall,
                COL_TEXT_DIM,
                GLYPH_CHEVRON,
                Rect {
                    left: r.right - scaled(24, dpi),
                    top: r.top,
                    right: r.right - scaled(8, dpi),
                    bottom: r.bottom,
                },
                DT_SINGLELINE | DT_VCENTER | DT_RIGHT | DT_NOPREFIX,
            );
        }
    }
    assert(shown(out@) =~= before + row_draws(*it, r, hovered, dpi as int));
}

impl Menu {
    /// Everything level `k` draws: its ground, its rows, and an accent ring.
    pub open spec fn painted(&self, k: int, accent: u32, dpi: int) -> Seq<DrawView> {
        let p = self.panels@[k];
        let v = self.level(k)@;
        let full = rect(0, 0, p.width as int, p.height as int);
        seq![DrawView::Fill { rect: full, color: COL_BG }] + rows_draws(
            v,
            p.hover,
            p.width as int,
            v.len() as int,
            dpi,
        ) + seq![
            DrawView::Outline {
                rect: full,
                edge: accent,
                width: 1,
                radius: px(RADIUS as int, dpi) as i32,
            },
        ]
    }

    pub fn paint(&self, k: usize, accent: u32, dpi: i32) -> (r: Vec<Draw>)
        requires
            self.wf(),
            k < self.panels@.len(),
            valid_dpi(dpi),
            self.fits(dpi as int),
        ensures
            shown(r@) == self.painted(k as int, accent, dpi as int),
    {
        assert(panel_ok(self.items, self.panels@, k as int));
        proof {
            lemma_bounded(self.items, self.panels@, k as int, dpi as int);
        }
        let p = &self.panels[k];
        let items = self.level_items(k);
        let mut out: Vec<Draw> = Vec::new();
        assert(shown(out@) =~= seq![]);
        let full = Rect { left: 0, top: 0, right: p.width, bottom: p.height };
        fill(&mut out, full, COL_BG);
        let ghost head = shown(out@);
        let ghost v = items@;
        let ghost d = dpi as int;
        let ghost w = p.width as int;
        let mut i: usize = 0;
        assert(head + rows_draws(v, p.hover, w, 0, d) =~= head);
        while i < items.len()
            invariant
                i <= items.len(),
                v == items@,
                rows_fit(v, d),
                valid_dpi(dpi),
                d == dpi,
                w == p.width,
                0 <= w <= 0x2000_0000,
                shown(out@) == head + rows_draws(v, p.hover, w, i as int, d),
            decreases items.len() - i,
        {
            let r = item_rect(items, i, p.width, dpi);
            let hovered = match p.hover {
                Some(h) => h == i,
                None => false,
            };
            draw_row(&mut out, &items[i], r, hovered, dpi);
            i = i + 1;
            assert(shown(out@) =~= head + rows_draws(v, p.hover, w, i as int, d));
        }
        emit(
            &mut out,
            Draw::Outline { rect: full, edge: accent, width: 1, radius: scaled(RADIUS, dpi) },
        );
        assert(shown(out@) =~= self.painted(k as int, accent, dpi as int));
        out
    }
}

// ---- What a menu is for ----

/// The letter behind a lone `&` is the access key, whatever its case, and the `&` is
/// not drawn. A pair of them is no marker.
pub proof fn the_marked_letter_is_the_access_key(a: Seq<char>, c: char, rest: Seq<char>)
    requires
        !a.contains('&'),
        c != '&',
    ensures
        access_of(a.push('&').push(c) + rest) == Some(ascii_lower(c)),
        without_marker(a.push('&').push(c) + rest) == a.push(c) + rest,
        access_of(a) is None,
        without_marker(a) == a,
        access_of(a.push('&').push('&') + a) is None,
        without_marker(a.push('&').push('&') + a) == a.push('&').push('&') + a,
{
    let s = a.push('&').push(c) + rest;
    let n = a.len() as int;
    assert forall|i: int| 0 <= i < n implies s[i] == #[trigger] a[i] && a[i] != '&' by {
        assert(a.contains(a[i]));
    }
    assert(s[n] == '&' && s[n + 1] == c);
    lemma_no_marker_before(s, 0, n);
    assert(first_lone(s, n) == Some(n));
    assert(s.remove(n) =~= a.push(c) + rest);
    lemma_no_marker_before(a, 0, n);
    let t = a.push('&').push('&') + a;
    assert forall|i: int| 0 <= i < n implies t[i] == #[trigger] a[i] && t[n + 2 + i] == a[i] && a[i]
        != '&' by {
        assert(a.contains(a[i]));
    }
    lemma_no_marker_before(t, 0, n);
    assert(t[n] == '&' && t[n + 1] == '&');
    assert(first_lone(t, n) == first_lone(t, n + 2));
    assert forall|i: int| n + 2 <= i < t.len() implies #[trigger] t[i] != '&' by {
        assert(t[i] == a[i - n - 2]);
    }
    lemma_no_marker_before(t, n + 2, t.len() as int);
}

proof fn lemma_no_marker_before(s: Seq<char>, i: int, n: int)
    requires
        0 <= i <= n <= s.len(),
        forall|k: int| i <= k < n ==> #[trigger] s[k] != '&',
    ensures
        first_lone(s, i) == first_lone(s, n),
    decreases n - i,
{
    if i < n {
        assert(s[i] != '&');
        lemma_no_marker_before(s, i + 1, n);
    }
}

/// Down goes to the nearest row below that can be selected, and from the last one
/// round to the first; Up the other way. Without a selection Down takes the first and
/// Up the last.
pub proof fn moves_go_to_the_nearest_row(items: Seq<RItem>, cur: Option<usize>, j: int)
    requires
        items.len() <= usize::MAX,
        cur matches Some(c) ==> c < items.len(),
        0 <= j < items.len(),
        selectable(items[j]),
    ensures
        ({
            let at = match cur {
                Some(c) => c as int,
                None => -1,
            };
            (at < j && (forall|k: int| at < k < j ==> !selectable(#[trigger] items[k]))) ==> next_row(
                items,
                cur,
                true,
            ) == Some(j as usize)
        }),
        ({
            let at = match cur {
                Some(c) => c as int,
                None => items.len() as int,
            };
            (j < at && (forall|k: int| j < k < at ==> !selectable(#[trigger] items[k]))) ==> next_row(
                items,
                cur,
                false,
            ) == Some(j as usize)
        }),
        ({
            let c = cur->0 as int;
            (cur is Some && j <= c && (forall|k: int|
                c < k < items.len() || 0 <= k < j ==> !selectable(#[trigger] items[k])))
                ==> next_row(items, cur, true) == Some(j as usize)
        }),
        ({
            let c = cur->0 as int;
            (cur is Some && c <= j && (forall|k: int|
                0 <= k < c || j < k < items.len() ==> !selectable(#[trigger] items[k])))
                ==> next_row(items, cur, false) == Some(j as usize)
        }),
{
    let n = items.len() as int;
    {
        let start = start_row(cur, true, n);
        let p = |t: int| selectable(items[away(start, t, true, n)]);
        if start < j && (forall|k: int| start < k < j ==> !selectable(#[trigger] items[k])) {
            let t = j - start;
            assert forall|s: int| 1 <= s <= t implies #[trigger] away(start, s, true, n) == start
                + s by {
                vstd::arithmetic::div_mod::lemma_small_mod((start + s) as nat, n as nat);
            }
            assert(away(start, t, true, n) == j);
            assert(p(t));
            assert forall|s: int| 1 <= s < t implies !(#[trigger] p(s)) by {
                assert(away(start, s, true, n) == start + s);
                assert(!selectable(items[start + s]));
            }
            lemma_first_is(1, n + 1, p, t);
        }
        if cur is Some && j <= start && (forall|k: int|
            start < k < n || 0 <= k < j ==> !selectable(#[trigger] items[k])) {
            let t = j - start + n;
            assert forall|s: int| 1 <= s <= t implies #[trigger] away(start, s, true, n) == if start
                + s < n {
                start + s
            } else {
                start + s - n
            } by {
                if start + s < n {
                    vstd::arithmetic::div_mod::lemma_small_mod((start + s) as nat, n as nat);
                } else {
                    vstd::arithmetic::div_mod::lemma_mod_add_multiples_vanish(start + s - n, n);
                    vstd::arithmetic::div_mod::lemma_small_mod((start + s - n) as nat, n as nat);
                }
            }
            assert(away(start, t, true, n) == j);
            assert(p(t));
            assert forall|s: int| 1 <= s < t implies !(#[trigger] p(s)) by {
                let k = away(start, s, true, n);
                assert(!selectable(items[k]));
            }
            lemma_first_is(1, n + 1, p, t);
        }
    }
    {
        let start = start_row(cur, false, n);
        let p = |t: int| selectable(items[away(start, t, false, n)]);
        if j < start && (forall|k: int| j < k < start ==> !selectable(#[trigger] items[k])) {
            let t = start - j;
            assert forall|s: int| 1 <= s <= t implies #[trigger] away(start, s, false, n) == start
                - s by {
                vstd::arithmetic::div_mod::lemma_small_mod((start - s) as nat, n as nat);
            }
            assert(away(start, t, false, n) == j);
            assert(p(t));
            assert forall|s: int| 1 <= s < t implies !(#[trigger] p(s)) by {
                assert(away(start, s, false, n) == start - s);
                assert(!selectable(items[start - s]));
            }
            lemma_first_is(1, n + 1, p, t);
        }
        if cur is Some && start <= j && (forall|k: int|
            0 <= k < start || j < k < n ==> !selectable(#[trigger] items[k])) {
            let t = start - j + n;
            assert forall|s: int| 1 <= s <= t implies #[trigger] away(start, s, false, n) == if start
                - s >= 0 {
                start - s
            } else {
                start - s + n
            } by {
                if start - s >= 0 {
                    vstd::arithmetic::div_mod::lemma_small_mod((start - s) as nat, n as nat);
                } else {
                    vstd::arithmetic::div_mod::lemma_mod_add_multiples_vanish(start - s, n);
                    vstd::arithmetic::div_mod::lemma_small_mod((start - s + n) as nat, n as nat);
                }
            }
            assert(away(start, t, false, n) == j);
            assert(p(t));
            assert forall|s: int| 1 <= s < t implies !(#[trigger] p(s)) by {
                let k = away(start, s, false, n);
                assert(!selectable(items[k]));
            }
            lemma_first_is(1, n + 1, p, t);
        }
    }
}

/// Return picks the highlighted entry, or opens its submenu as Right does; Left and
/// Escape leave a submenu, and Escape dismisses the menu itself; arrows up and down
/// move.
pub proof fn keys_mean_what_they_say(items: Seq<RItem>, i: usize, hover: Option<usize>, depth: int)
    requires
        i < items.len(),
        0 <= depth,
    ensures
        items[i as int].kind is Entry ==> meaning(items, Some(i), depth, 0x0D) == KeyMeaning::Pick(
            i as int,
        ),
        items[i as int].kind is Submenu ==> meaning(items, Some(i), depth, 0x0D)
            == KeyMeaning::Open(i as int) && meaning(items, Some(i), depth, 0x27)
            == KeyMeaning::Open(i as int),
        items[i as int].kind is Entry ==> meaning(items, Some(i), depth, 0x27)
            == KeyMeaning::Nothing,
        meaning(items, None, depth, 0x0D) == KeyMeaning::Nothing,
        meaning(items, hover, depth, 0x28) == KeyMeaning::Move(true),
        meaning(items, hover, depth, 0x26) == KeyMeaning::Move(false),
        depth > 0 ==> meaning(items, hover, depth, 0x25) == KeyMeaning::CloseTop && meaning(
            items,
            hover,
            depth,
            0x1B,
        ) == KeyMeaning::CloseTop,
        depth == 0 ==> meaning(items, hover, depth, 0x25) == KeyMeaning::Nothing && meaning(
            items,
            hover,
            depth,
            0x1B,
        ) == KeyMeaning::Dismiss,
{
}

/// A letter picks the first entry that has it as its access key, or opens the submenu
/// that has it; a letter that none has does nothing. What is highlighted does not
/// matter.
pub proof fn letters_pick_by_access_key(
    items: Seq<RItem>,
    hover: Option<usize>,
    depth: int,
    vk: u8,
    i: int,
)
    requires
        0x30 <= vk <= 0x5A,
    ensures
        (0 <= i < items.len() && selectable(items[i]) && items[i].access == Some(
            ascii_lower(vk as char),
        ) && (forall|k: int|
            0 <= k < i ==> (#[trigger] items[k]).access != Some(ascii_lower(vk as char)))) ==> meaning(
            items,
            hover,
            depth,
            vk,
        ) == if items[i].kind is Submenu {
            KeyMeaning::Open(i)
        } else {
            KeyMeaning::Pick(i)
        },
        (forall|k: int|
            0 <= k < items.len() ==> (#[trigger] items[k]).access != Some(ascii_lower(vk as char)))
            ==> meaning(items, hover, depth, vk) == KeyMeaning::Nothing,
{
    let n = items.len() as int;
    let p = |i: int| items[i].access == Some(ascii_lower(vk as char)) && selectable(items[i]);
    lemma_first_from(0, n, p);
    if 0 <= i < n && selectable(items[i]) && items[i].access == Some(ascii_lower(vk as char)) && (
    forall|k: int| 0 <= k < i ==> (#[trigger] items[k]).access != Some(ascii_lower(vk as char))) {
        assert(p(i));
        assert forall|k: int| 0 <= k < i implies !(#[trigger] p(k)) by {
            assert(items[k].access != Some(ascii_lower(vk as char)));
        }
        lemma_first_is(0, n, p, i);
    }
    if forall|k: int|
        0 <= k < n ==> (#[trigger] items[k]).access != Some(ascii_lower(vk as char)) {
        match access_row(items, vk) {
            Some(k) => {
                assert(p(k));
                assert(items[k].access != Some(ascii_lower(vk as char)));
            },
            None => {},
        }
    }
}

/// A row of a panel is hit where it lies: below the margin and the rows above it,
/// where no deeper panel covers it.
pub proof fn a_menu_row_is_hit_where_it_lies(m: Menu, k: int, i: int, x: int, y: int, dpi: int)
    requires
        0 <= k < m.panels@.len(),
        m.panels@.len() <= usize::MAX,
        0 <= dpi <= 32767,
        ({
            let p = m.panels@[k];
            let v = m.level(k)@;
            &&& 0 <= i < v.len() <= usize::MAX
            &&& p.at.has(x, y)
            &&& x - p.at.left < p.width
            &&& row_top(v, i, dpi) <= y - p.at.top < row_top(v, i + 1, dpi)
        }),
        forall|j: int| k < j < m.panels@.len() ==> !(#[trigger] m.panels@[j]).at.has(x, y),
    ensures
        m.hit(x, y, dpi) matches Some(h) && h.panel == k && h.item == i && h.submenu == (m.level(
            k,
        )@[i].kind is Submenu) && h.separator == (m.level(k)@[i].kind is Separator),
{
    lemma_hit_deepest(m.items, m.panels@, m.panels@.len() as int, k, x, y, dpi);
    let v = m.level(k)@;
    let gy = y - m.panels@[k].at.top;
    let q = |i: int| row_top(v, i, dpi) <= gy < row_top(v, i + 1, dpi);
    assert(q(i));
    assert forall|j: int| 0 <= j < i implies !(#[trigger] q(j)) by {
        lemma_row_top(v, j + 1, i, dpi);
    }
    lemma_first_is(0, v.len() as int, q, i);
}

proof fn lemma_hit_deepest(
    items: Vec<RItem>,
    panels: Seq<Panel>,
    n: int,
    k: int,
    x: int,
    y: int,
    dpi: int,
)
    requires
        0 <= k < n <= panels.len(),
        forall|j: int| k < j < n ==> !(#[trigger] panels[j]).at.has(x, y),
    ensures
        hit_of(items, panels, n, x, y, dpi) == hit_of(items, panels, k + 1, x, y, dpi),
    decreases n,
{
    if n > k + 1 {
        assert(!panels[n - 1].at.has(x, y));
        lemma_hit_deepest(items, panels, n - 1, k, x, y, dpi);
    }
}

/// Rows follow one another without gaps: an entry is 30 pixels high and a separator 9,
/// between margins of 6.
pub proof fn rows_follow_one_another(items: Seq<RItem>, n: int, dpi: int)
    requires
        0 <= n < items.len(),
    ensures
        row_top(items, 0, dpi) == px(6, dpi),
        row_top(items, n + 1, dpi) - row_top(items, n, dpi) == if items[n].kind is Separator {
            px(9, dpi)
        } else {
            px(30, dpi)
        },
        panel_h(items, dpi) == row_top(items, items.len() as int, dpi) + px(6, dpi),
{
}

/// A panel is wide enough for every label with its insets, and for the chevrons where
/// there are submenus; it is never narrower than 170 pixels, and no wider than that or
/// its widest label needs.
pub proof fn a_panel_has_room_for_its_labels(items: Seq<RItem>, widths: Seq<i32>, i: int, dpi: int)
    requires
        valid_widths(items, widths),
        0 <= i < items.len(),
    ensures
        panel_w(items, widths, dpi) >= px(170, dpi),
        selectable(items[i]) ==> panel_w(items, widths, dpi) >= widths[i] + px(16, dpi) + px(
            16,
            dpi,
        ) + (if has_submenu(items) {
            px(22, dpi)
        } else {
            0
        }),
        panel_w(items, widths, dpi) > px(170, dpi) ==> panel_w(items, widths, dpi) == px(16, dpi) + px(
            16,
            dpi,
        ) + (if has_submenu(items) {
            px(22, dpi)
        } else {
            0
        }) || exists|k: int|
            0 <= k < items.len() && selectable(#[trigger] items[k]) && panel_w(items, widths, dpi)
                == widths[k] + px(16, dpi) + px(16, dpi) + (if has_submenu(items) {
                px(22, dpi)
            } else {
                0
            }),
{
    lemma_widest(items, widths, items.len() as int);
}

proof fn lemma_widest(items: Seq<RItem>, widths: Seq<i32>, n: int)
    requires
        0 <= n <= items.len(),
        widths.len() == items.len(),
    ensures
        forall|k: int|
            0 <= k < n && selectable(#[trigger] items[k]) ==> widths[k] <= widest_text(
                items,
                widths,
                n,
            ),
        widest_text(items, widths, n) == 0 || exists|k: int|
            0 <= k < n && selectable(#[trigger] items[k]) && widths[k] == widest_text(
                items,
                widths,
                n,
            ),
    decreases n,
{
    if n > 0 {
        lemma_widest(items, widths, n - 1);
        let w = widest_text(items, widths, n);
        if w != 0 {
            if selectable(items[n - 1]) && widths[n - 1] == w {
                assert(selectable(items[n - 1]));
            } else {
                let k = choose|k: int|
                    0 <= k < n - 1 && selectable(#[trigger] items[k]) && widths[k] == widest_text(
                        items,
                        widths,
                        n - 1,
                    );
                assert(selectable(items[k]));
            }
        }
    }
}

/// A menu opens where it is asked to, as long as it lies on the screen there.
pub proof fn a_menu_opens_where_asked(v: int, size: int, screen: int, dpi: int)
    requires
        px(2, dpi) <= v,
        v + size <= screen - px(2, dpi),
    ensures
        kept_on(v, size, screen, dpi) == v,
{
}

/// A submenu opens to the right of its parent, overlapping it by four pixels, and
/// where there is no room to the left of it.
pub proof fn a_submenu_opens_beside_its_parent(parent: Rect, w: int, screen_w: int, dpi: int)
    ensures
        parent.right - px(4, dpi) + w <= screen_w - px(2, dpi) ==> Menu::beside(
            parent,
            w,
            screen_w,
            dpi,
        ) == parent.right - px(4, dpi),
        parent.right - px(4, dpi) + w > screen_w - px(2, dpi) ==> Menu::beside(
            parent,
            w,
            screen_w,
            dpi,
        ) + w == parent.left + px(4, dpi),
{
}

/// Moving onto a row highlights it, unless it is a separator, and leaves no submenu
/// open but its own. Panels above it stay as they are.
pub proof fn hovering_a_row_highlights_it(panels: Seq<Panel>, h: ItemHit, k: int)
    requires
        h.panel < panels.len(),
    ensures
        ({
            let after = panels_after(panels, h);
            &&& h.panel < after.len() <= panels.len()
            &&& after[h.panel as int].hover == if h.separator {
                None
            } else {
                Some(h.item)
            }
            &&& 0 <= k < h.panel ==> after[k] == panels[k]
            &&& after.len() > h.panel + 1 ==> h.submenu && after[h.panel + 1].parent_item == h.item
            &&& (h.submenu && h.panel + 1 < panels.len() && panels[h.panel + 1].parent_item
                == h.item) ==> after.len() == panels.len()
        }),
{
}

/// A menu opened by key highlights its first row that can be selected.
pub proof fn the_first_row_is_the_first_selectable(items: Seq<RItem>, i: int)
    requires
        0 <= i < items.len(),
    ensures
        (!(items[i].kind is Separator) && (forall|k: int|
            0 <= k < i ==> (#[trigger] items[k]).kind is Separator)) ==> first_row(items) == Some(i),
        (forall|k: int| 0 <= k < items.len() ==> (#[trigger] items[k]).kind is Separator)
            ==> first_row(items) is None,
{
    let p = |i: int| selectable(items[i]);
    lemma_first_from(0, items.len() as int, p);
    if !(items[i].kind is Separator) && (forall|k: int|
        0 <= k < i ==> (#[trigger] items[k]).kind is Separator) {
        assert(p(i));
        assert forall|k: int| 0 <= k < i implies !(#[trigger] p(k)) by {
            assert(items[k].kind is Separator);
        }
        lemma_first_is(0, items.len() as int, p, i);
    }
    if forall|k: int| 0 <= k < items.len() ==> (#[trigger] items[k]).kind is Separator {
        match first_row(items) {
            Some(k) => {
                assert(p(k));
                assert(items[k].kind is Separator);
            },
            None => {},
        }
    }
}

/// A resolved entry keeps its command and label, and has the access key that its label
/// marks; a submenu keeps its children, one for one.
pub proof fn resolving_keeps_commands_and_labels(item: Item, r: RItem)
    requires
        resolves(item, r),
    ensures
        item matches Item::Entry(id, t) ==> r.kind is Entry && r.cmd == id && r.label@ == t@
            && r.access == access_of(t@),
        item is Separator ==> r.kind is Separator,
        item matches Item::Submenu(t, c) ==> r.label@ == t@ && r.access == access_of(t@) && (r.kind matches Kind::Submenu(
            v,
        ) && v@.len() == c@.len() && (forall|i: int|
            0 <= i < c@.len() ==> resolves(#[trigger] c@[i], v@[i]))),
{
}

/// A submenu is opened from an item that has one, unless it is open already, and shows
/// that item's own entries.
pub proof fn a_submenu_shows_its_items_entries(m: Menu, parent: int, item: int)
    requires
        0 <= parent < m.panels@.len(),
        0 <= item < m.level(parent)@.len(),
        m.level(parent)@[item].kind is Submenu,
    ensures
        (parent + 1 == m.panels@.len() || m.panels@[parent + 1].parent_item != item) ==> m.submenu_of(
            parent,
            item,
        ) == Some(m.level(parent)@[item].kind->Submenu_0),
        (parent + 1 < m.panels@.len() && m.panels@[parent + 1].parent_item == item) ==> m.submenu_of(
            parent,
            item,
        ) is None,
        m.level(0) == m.items,
        parent + 1 < m.panels@.len() && m.panels@[parent + 1].parent_item == item ==> m.level(
            parent + 1,
        ) == m.level(parent)@[item].kind->Submenu_0,
{
}

/// The windows that are to be destroyed are those of the panels that closed, one for
/// one.
pub proof fn closed_panels_give_up_their_windows(v: Seq<Panel>, i: int)
    requires
        0 <= i < v.len(),
    ensures
        handles(v).len() == v.len(),
        handles(v)[i] == v[i].hwnd,
        handles(v).contains(v[i].hwnd),
{
    assert(handles(v)[i] == v[i].hwnd);
}

} // verus!
