//! What the surfaces show: that everything a user is to see is drawn, where it
//! belongs.

use vstd::prelude::*;
use vstd::string::*;
use crate::alttab::{self, AltTab};
use crate::geometry::{lemma_px, min2, px, rect, Rect};
use crate::menu::{self, Menu};
use crate::paint::{DrawView, Font};
use crate::peek::{self, PeekState};
use crate::run_window;
use crate::settings;
use crate::start_menu::{self, MenuState};
use crate::sysinfo;
use crate::sysinfo::rows::{height_upto, section_rows, RowView};
use crate::taskbar::corner::{corner_draws, network_place, status_glyph, Corner};
use crate::taskbar::painting::{
    button_draws, buttons_draws, clock_draws, tray_draws, trays_draws, underline,
};
use crate::taskbar::{
    button_views, clock_left, tray_rect, ButtonView, Hit, Taskbar, COL_ACCENT, COL_ACTIVE, COL_HOVER,
    COL_TEXT_DIM,
};

verus! {

/// This text is drawn between these heights.
pub open spec fn writes(v: Seq<DrawView>, text: Seq<char>, top: i32, bottom: i32) -> bool {
    exists|i: int|
        0 <= i < v.len() && (#[trigger] v[i] matches DrawView::Text { text: t, rect: r, .. } && t
            == text && r.top == top && r.bottom == bottom)
}

/// This icon is drawn.
pub open spec fn pictures(v: Seq<DrawView>, icon: u64) -> bool {
    exists|i: int| 0 <= i < v.len() && (#[trigger] v[i] matches DrawView::Icon { icon: h, .. } && h == icon)
}

/// `part` is drawn as part of `v`, in one piece.
pub open spec fn includes(v: Seq<DrawView>, part: Seq<DrawView>) -> bool {
    exists|k: int| 0 <= k && k + part.len() <= v.len() && #[trigger] v.subrange(k, k + part.len()) == part
}

proof fn lemma_here(v: Seq<DrawView>)
    ensures
        includes(v, v),
{
    assert(v.subrange(0, 0int + v.len()) =~= v);
}

proof fn lemma_left(a: Seq<DrawView>, b: Seq<DrawView>, part: Seq<DrawView>)
    requires
        includes(a, part),
    ensures
        includes(a + b, part),
{
    let k = choose|k: int|
        0 <= k && k + part.len() <= a.len() && #[trigger] a.subrange(k, k + part.len()) == part;
    assert((a + b).subrange(k, k + part.len()) =~= a.subrange(k, k + part.len()));
}

proof fn lemma_right(a: Seq<DrawView>, b: Seq<DrawView>, part: Seq<DrawView>)
    requires
        includes(b, part),
    ensures
        includes(a + b, part),
{
    let k = choose|k: int|
        0 <= k && k + part.len() <= b.len() && #[trigger] b.subrange(k, k + part.len()) == part;
    let m = a.len() + k;
    assert((a + b).subrange(m, m + part.len()) =~= b.subrange(k, k + part.len()));
}

/// A part of a part is a part.
proof fn lemma_through(v: Seq<DrawView>, part: Seq<DrawView>, piece: Seq<DrawView>)
    requires
        includes(v, part),
        includes(part, piece),
    ensures
        includes(v, piece),
{
    let k = choose|k: int|
        0 <= k && k + part.len() <= v.len() && #[trigger] v.subrange(k, k + part.len()) == part;
    let j = choose|j: int|
        0 <= j && j + piece.len() <= part.len() && #[trigger] part.subrange(j, j + piece.len()) == piece;
    let m = k + j;
    assert(v.subrange(m, m + piece.len()) =~= v.subrange(k, k + part.len()).subrange(
        j,
        j + piece.len(),
    ));
}

/// What a part has, the whole has.
proof fn lemma_part(v: Seq<DrawView>, part: Seq<DrawView>)
    requires
        includes(v, part),
    ensures
        forall|x: DrawView| #[trigger] part.contains(x) ==> v.contains(x),
        forall|t: Seq<char>, a: i32, b: i32| #[trigger] writes(part, t, a, b) ==> writes(v, t, a, b),
        forall|h: u64| #[trigger] pictures(part, h) ==> pictures(v, h),
{
    let k = choose|k: int|
        0 <= k && k + part.len() <= v.len() && #[trigger] v.subrange(k, k + part.len()) == part;
    assert forall|i: int| 0 <= i < part.len() implies #[trigger] part[i] == v[k + i] by {
        assert(v.subrange(k, k + part.len())[i] == v[k + i]);
    }
    assert forall|x: DrawView| #[trigger] part.contains(x) implies v.contains(x) by {
        let i = choose|i: int| 0 <= i < part.len() && part[i] == x;
        assert(v[k + i] == x);
    }
    assert forall|t: Seq<char>, a: i32, b: i32| #[trigger] writes(part, t, a, b) implies writes(
        v,
        t,
        a,
        b,
    ) by {
        let i = choose|i: int|
            0 <= i < part.len() && (#[trigger] part[i] matches DrawView::Text { text: x, rect: r, .. }
                && x == t && r.top == a && r.bottom == b);
        assert(v[k + i] == part[i]);
    }
    assert forall|h: u64| #[trigger] pictures(part, h) implies pictures(v, h) by {
        let i = choose|i: int|
            0 <= i < part.len() && (#[trigger] part[i] matches DrawView::Icon { icon: x, .. } && x == h);
        assert(v[k + i] == part[i]);
    }
}

// ---- The taskbar ----

proof fn lemma_button_drawn(
    v: Seq<ButtonView>,
    n: int,
    hover: Hit,
    foreground: u64,
    labels: bool,
    dpi: int,
    i: int,
)
    requires
        0 <= i < n,
    ensures
        includes(
            buttons_draws(v, n, hover, foreground, labels, dpi),
            button_draws(v[i], hover == Hit::Task(i as usize), foreground, labels, dpi),
        ),
    decreases n,
{
    let before = buttons_draws(v, n - 1, hover, foreground, labels, dpi);
    let last = button_draws(v[n - 1], hover == Hit::Task((n - 1) as usize), foreground, labels, dpi);
    let part = button_draws(v[i], hover == Hit::Task(i as usize), foreground, labels, dpi);
    if i < n - 1 {
        lemma_button_drawn(v, n - 1, hover, foreground, labels, dpi, i);
        lemma_left(before, last, part);
    } else {
        lemma_here(last);
        lemma_right(before, last, part);
    }
}

/// Every button shows its icon, the one with the active window is highlighted, and
/// else the one under the mouse is. With labels its title stands on it.
#[verifier::rlimit(60)]
pub proof fn every_button_is_drawn(
    t: Taskbar,
    foreground: u64,
    time: Seq<char>,
    date: Seq<char>,
    width: int,
    height: int,
    dpi: int,
    i: int,
)
    requires
        0 <= i < t.buttons@.len(),
    ensures
        ({
            let b = t.buttons@[i]@;
            let p = t.painted(foreground, time, date, width, height, dpi);
            &&& b.windows.contains(foreground) ==> p.contains(
                DrawView::Fill { rect: b.rect, color: COL_ACTIVE },
            )
            &&& (!b.windows.contains(foreground) && t.hover == Hit::Task(i as usize)) ==> p.contains(
                DrawView::Fill { rect: b.rect, color: COL_HOVER },
            )
            &&& b.icon matches Some(h) ==> pictures(p, h)
            &&& (t.cfg.show_labels && b.rect.left + px(6, dpi) + (if b.icon is Some {
                px(16, dpi) + px(6, dpi)
            } else {
                0
            }) < b.rect.right - px(4, dpi)) ==> writes(p, b.title, b.rect.top, b.rect.bottom)
            &&& includes(
                p,
                underline(
                    b.rect,
                    b.windows.len() as int,
                    b.windows.contains(foreground),
                    dpi,
                ),
            )
        }),
{
    let v = button_views(t.buttons@);
    let n = t.buttons@.len() as int;
    let b = t.buttons@[i]@;
    assert(v[i] == b);
    let active = b.windows.contains(foreground);
    let labels = t.cfg.show_labels;
    let part = button_draws(b, t.hover == Hit::Task(i as usize), foreground, labels, dpi);
    let p = t.painted(foreground, time, date, width, height, dpi);
    let all = buttons_draws(v, n, t.hover, foreground, labels, dpi);
    let front = seq![
        DrawView::Fill { rect: rect(0, 0, width, height), color: crate::taskbar::COL_BG },
    ] + crate::taskbar::painting::start_draws(
        t.start_x as int,
        t.hover == Hit::Start,
        t.cfg.start_button_color,
        height,
        dpi,
    );
    let trays = trays_draws(
        t.tray_icons@,
        t.tray_icons@.len() as int,
        t.hover,
        width,
        height,
        dpi,
    );
    lemma_button_drawn(v, n, t.hover, foreground, labels, dpi, i);
    lemma_right(front, all, part);
    lemma_left(front + all, trays, part);
    lemma_left(front + all + trays, clock_draws(time, date, width, height, dpi), part);
    lemma_part(p, part);
    let fill = if active {
        seq![DrawView::Fill { rect: b.rect, color: COL_ACTIVE }]
    } else if t.hover == Hit::Task(i as usize) {
        seq![DrawView::Fill { rect: b.rect, color: COL_HOVER }]
    } else {
        seq![]
    };
    let line = underline(b.rect, b.windows.len() as int, active, dpi);
    let face = if labels {
        crate::taskbar::painting::labelled_draws(b, dpi)
    } else {
        crate::taskbar::painting::icon_draws(b, dpi)
    };
    assert(part == fill + line + face);
    if active || t.hover == Hit::Task(i as usize) {
        assert(part[0] == fill[0]);
        assert(part.contains(part[0]));
    }
    let at = (fill + line).len() as int;
    assert forall|k: int| 0 <= k < face.len() implies #[trigger] part[at + k] == face[k] by {
    }
    if b.icon is Some {
        assert(part[at + 0] == face[0]);
        assert(pictures(part, b.icon->0));
    }
    if labels && b.rect.left + px(6, dpi) + (if b.icon is Some {
        px(16, dpi) + px(6, dpi)
    } else {
        0
    }) < b.rect.right - px(4, dpi) {
        let k = face.len() - 1;
        assert(part[at + k] == face[k]);
        assert(writes(part, b.title, b.rect.top, b.rect.bottom));
    }
    lemma_here(line);
    lemma_right(fill, line, line);
    lemma_left(fill + line, face, line);
    lemma_through(p, part, line);
}

/// A button has a mark for each of its windows, three at most, in the accent color
/// where one of them is active. Together they reach from edge to edge.
pub proof fn marks_count_the_windows(r: Rect, windows: int, active: bool, dpi: int, s: int)
    requires
        0 <= windows,
        0 <= dpi <= 32767,
        r.near(),
        0 <= s < min2(windows, 3),
    ensures
        underline(r, windows, active, dpi).len() == if windows > 3 {
            3
        } else {
            windows
        },
        underline(r, windows, active, dpi)[s] matches DrawView::Fill { rect: q, color } && {
            &&& color == if active {
                COL_ACCENT
            } else {
                COL_TEXT_DIM
            }
            &&& q.bottom == r.bottom
            &&& s == 0 ==> q.left == r.left
            &&& s == min2(windows, 3) - 1 ==> q.right == r.right
        },
{
    lemma_px(2, dpi);
    assert(0 * (crate::taskbar::painting::segment_w(r, min2(windows, 3), dpi) + px(2, dpi)) == 0)
        by (nonlinear_arith);
}

proof fn lemma_tray_drawn(
    icons: Seq<u64>,
    n: int,
    hover: Hit,
    width: int,
    height: int,
    dpi: int,
    i: int,
)
    requires
        0 <= i < n,
    ensures
        includes(
            trays_draws(icons, n, hover, width, height, dpi),
            tray_draws(
                tray_rect(i, icons.len() as int, width, height, dpi),
                icons[i],
                hover == Hit::TrayIcon(i as usize),
                dpi,
            ),
        ),
    decreases n,
{
    let before = trays_draws(icons, n - 1, hover, width, height, dpi);
    let last = tray_draws(
        tray_rect(n - 1, icons.len() as int, width, height, dpi),
        icons[n - 1],
        hover == Hit::TrayIcon((n - 1) as usize),
        dpi,
    );
    let part = tray_draws(
        tray_rect(i, icons.len() as int, width, height, dpi),
        icons[i],
        hover == Hit::TrayIcon(i as usize),
        dpi,
    );
    if i < n - 1 {
        lemma_tray_drawn(icons, n - 1, hover, width, height, dpi, i);
        lemma_left(before, last, part);
    } else {
        lemma_here(last);
        lemma_right(before, last, part);
    }
}

/// Every tray icon is drawn, the one under the mouse highlighted; and so is the clock,
/// the time above the date, up to its right edge.
#[verifier::rlimit(60)]
pub proof fn the_tray_and_the_clock_are_drawn(
    t: Taskbar,
    foreground: u64,
    time: Seq<char>,
    date: Seq<char>,
    width: int,
    height: int,
    dpi: int,
    i: int,
)
    requires
        0 <= i < t.tray_icons@.len(),
    ensures
        ({
            let p = t.painted(foreground, time, date, width, height, dpi);
            let r = tray_rect(i, t.tray_icons@.len() as int, width, height, dpi);
            &&& t.tray_icons@[i] != 0 ==> pictures(p, t.tray_icons@[i])
            &&& t.hover == Hit::TrayIcon(i as usize) ==> p.contains(
                DrawView::Fill { rect: r, color: COL_HOVER },
            )
        }),
{
    let p = t.painted(foreground, time, date, width, height, dpi);
    let n = t.tray_icons@.len() as int;
    let r = tray_rect(i, n, width, height, dpi);
    let all = trays_draws(t.tray_icons@, n, t.hover, width, height, dpi);
    let clock = clock_draws(time, date, width, height, dpi);
    let part = tray_draws(r, t.tray_icons@[i], t.hover == Hit::TrayIcon(i as usize), dpi);
    lemma_tray_drawn(t.tray_icons@, n, t.hover, width, height, dpi, i);
    let front = p.take(p.len() - clock.len() - all.len());
    assert(p =~= front + all + clock);
    lemma_right(front, all, part);
    lemma_left(front + all, clock, part);
    lemma_part(p, part);
    if t.hover == Hit::TrayIcon(i as usize) {
        assert(part[0] == DrawView::Fill { rect: r, color: COL_HOVER });
        assert(part.contains(part[0]));
    }
    if t.tray_icons@[i] != 0 {
        assert(part[part.len() - 1] matches DrawView::Icon { icon: h, .. } && h == t.tray_icons@[i]);
        assert(pictures(part, t.tray_icons@[i]));
    }
}

/// The clock shows the time above the date, and both end at the bar's right edge less
/// a margin.
pub proof fn the_clock_shows_the_time_above_the_date(
    t: Taskbar,
    foreground: u64,
    time: Seq<char>,
    date: Seq<char>,
    width: int,
    height: int,
    dpi: int,
)
    ensures
        ({
            let p = t.painted(foreground, time, date, width, height, dpi);
            &&& p.len() >= 2
            &&& (p[p.len() - 2] matches DrawView::Text { text, rect: a, .. } && text == time
                && (p[p.len() - 1] matches DrawView::Text { text: d, rect: b, .. } && d == date
                && a.bottom == b.top && a.right == b.right && a.right == (width - px(
                8,
                dpi,
            )) as i32 && a.left == clock_left(width, dpi) as i32))
        }),
{
    let p = t.painted(foreground, time, date, width, height, dpi);
    let clock = clock_draws(time, date, width, height, dpi);
    assert(p[p.len() - 2] == clock[0]);
    assert(p[p.len() - 1] == clock[1]);
}

/// The network glyph is drawn next to the clock while it is wanted, and not else.
pub proof fn the_network_glyph_is_drawn_while_wanted(c: Corner, width: int, height: int, dpi: int)
    ensures
        ({
            let p = corner_draws(c, width, height, dpi);
            let r = network_place(width, height, dpi);
            &&& c.show_network ==> writes(p, status_glyph(c.status), r.top, r.bottom)
            &&& !c.show_network ==> forall|i: int|
                0 <= i < p.len() ==> !(#[trigger] p[i] is Text)
        }),
        status_glyph(crate::network::NetStatus::Disconnected) == seq!['\u{E774}'],
        status_glyph(crate::network::NetStatus::Wifi) == seq!['\u{E701}'],
        status_glyph(crate::network::NetStatus::Ethernet) == seq!['\u{E839}'],
{
    let p = corner_draws(c, width, height, dpi);
    let r = network_place(width, height, dpi);
    if c.show_network {
        let k: int = if c.hover == crate::taskbar::corner::Part::Network {
            1
        } else {
            0
        };
        assert(p[k] matches DrawView::Text { text: t, rect: q, .. } && t == status_glyph(c.status)
            && q == r);
    }
}

// ---- The window switcher ----

proof fn lemma_tile_drawn(a: AltTab, n: int, dpi: int, i: int)
    requires
        0 <= i < n,
    ensures
        includes(
            a.tiles_upto(n, dpi),
            alttab::tile_draws(
                a.entries@[i]@,
                a.tile_of(i, dpi),
                a.selected == i,
                a.hover == Some(i as usize),
                dpi,
            ),
        ),
    decreases n,
{
    let before = a.tiles_upto(n - 1, dpi);
    let last = alttab::tile_draws(
        a.entries@[n - 1]@,
        a.tile_of(n - 1, dpi),
        a.selected == n - 1,
        a.hover == Some((n - 1) as usize),
        dpi,
    );
    let part = alttab::tile_draws(
        a.entries@[i]@,
        a.tile_of(i, dpi),
        a.selected == i,
        a.hover == Some(i as usize),
        dpi,
    );
    if i < n - 1 {
        lemma_tile_drawn(a, n - 1, dpi, i);
        lemma_left(before, last, part);
    } else {
        lemma_here(last);
        lemma_right(before, last, part);
    }
}

/// Every window has its tile: with its title at the top, and its screenshot, or its
/// icon where it has none. The selected one has an outline in the accent color, and
/// no other has.
#[verifier::rlimit(60)]
pub proof fn every_window_has_its_tile(a: AltTab, ring: u32, dpi: int, i: int)
    requires
        0 <= i < a.entries@.len(),
    ensures
        ({
            let p = a.painted(ring, dpi);
            let e = a.entries@[i]@;
            let r = a.tile_of(i, dpi);
            &&& writes(p, e.title, r.top, (r.top + px(30, dpi)) as i32)
            &&& e.shot matches Some(b) ==> exists|k: int|
                0 <= k < p.len() && (#[trigger] p[k] matches DrawView::Image { bitmap, width, height, .. }
                    && bitmap == b && width == e.shot_w && height == e.shot_h)
            &&& e.icon matches Some(h) ==> pictures(p, h)
            &&& a.selected == i ==> exists|k: int|
                0 <= k < p.len() && (#[trigger] p[k] matches DrawView::Outline { rect: q, edge, .. }
                    && q == r && edge == COL_ACCENT)
            &&& (a.selected != i && a.hover == Some(i as usize)) ==> exists|k: int|
                0 <= k < p.len() && (#[trigger] p[k] matches DrawView::Round { rect: q, fill, .. } && q
                    == r && fill == COL_HOVER)
        }),
{
    let p = a.painted(ring, dpi);
    let n = a.entries@.len() as int;
    let e = a.entries@[i]@;
    let r = a.tile_of(i, dpi);
    let selected = a.selected == i;
    let hovered = a.hover == Some(i as usize);
    let part = alttab::tile_draws(e, r, selected, hovered, dpi);
    let all = a.tiles_upto(n, dpi);
    lemma_tile_drawn(a, n, dpi, i);
    let front = p.take(1);
    let back = p.skip(p.len() - 1);
    assert(p =~= front + all + back);
    lemma_right(front, all, part);
    lemma_left(front + all, back, part);
    lemma_part(p, part);
    let head = alttab::header_draws(e, r, selected, dpi);
    let thumb = alttab::thumb_draws(e, alttab::thumb_area(r, dpi), dpi);
    let k: int = if selected || hovered {
        1
    } else {
        0
    };
    let m = k + head.len();
    assert forall|x: int| 0 <= x < head.len() implies #[trigger] part[k + x] == head[x] by {
    }
    assert forall|x: int| 0 <= x < thumb.len() implies #[trigger] part[m + x] == thumb[x] by {
    }
    assert(part[k + (head.len() - 1)] == head[head.len() - 1]);
    assert(writes(part, e.title, r.top, (r.top + px(30, dpi)) as i32));
    if e.icon is Some {
        assert(part[k + 0] == head[0]);
        assert(pictures(part, e.icon->0));
    }
    if e.shot is Some {
        assert(part[m + 0] == thumb[0]);
        assert(part.contains(thumb[0]));
        let x = choose|x: int| 0 <= x < p.len() && p[x] == thumb[0];
        assert(p[x] matches DrawView::Image { bitmap, .. });
    }
    if selected {
        let o = part[part.len() - 1];
        assert(part.contains(o));
        let x = choose|x: int| 0 <= x < p.len() && p[x] == o;
        assert(p[x] matches DrawView::Outline { rect: q, edge, .. } && q == r && edge == COL_ACCENT);
    } else if hovered {
        let o = part[0];
        assert(part.contains(o));
        let x = choose|x: int| 0 <= x < p.len() && p[x] == o;
        assert(p[x] matches DrawView::Round { rect: q, fill, .. } && q == r && fill == COL_HOVER);
    }
}

// ---- Peek ----

proof fn lemma_item_drawn(s: PeekState, n: int, dpi: int, i: int)
    requires
        0 <= i < n,
    ensures
        includes(
            s.items_upto(n, dpi),
            peek::item_draws(
                s.entries@[i]@,
                s.item(i, dpi),
                s.thumbs_mode,
                (s.hover matches Some(h) && h.entry == i),
                s.hover == Some(peek::Hit { entry: i as usize, close: true }),
                dpi,
            ),
        ),
    decreases n,
{
    let before = s.items_upto(n - 1, dpi);
    let last = peek::item_draws(
        s.entries@[n - 1]@,
        s.item(n - 1, dpi),
        s.thumbs_mode,
        (s.hover matches Some(h) && h.entry == n - 1),
        s.hover == Some(peek::Hit { entry: (n - 1) as usize, close: true }),
        dpi,
    );
    let part = peek::item_draws(
        s.entries@[i]@,
        s.item(i, dpi),
        s.thumbs_mode,
        (s.hover matches Some(h) && h.entry == i),
        s.hover == Some(peek::Hit { entry: i as usize, close: true }),
        dpi,
    );
    if i < n - 1 {
        lemma_item_drawn(s, n - 1, dpi, i);
        lemma_left(before, last, part);
    } else {
        lemma_here(last);
        lemma_right(before, last, part);
    }
}

/// Every window of a peek is named on its item, which also has a close button; the
/// item under the mouse is highlighted.
#[verifier::rlimit(60)]
pub proof fn every_previewed_window_is_named(s: PeekState, dpi: int, i: int)
    requires
        0 <= i < s.entries@.len(),
    ensures
        ({
            let p = s.painted(dpi);
            let r = s.item(i, dpi);
            let c = peek::close_of(r, s.thumbs_mode, dpi);
            &&& writes(
                p,
                s.entries@[i].title@,
                r.top,
                (r.top + (if s.thumbs_mode {
                    px(28, dpi)
                } else {
                    px(38, dpi)
                })) as i32,
            )
            &&& writes(p, "\u{E8BB}"@, c.top, c.bottom)
            &&& s.entries@[i].icon matches Some(h) ==> pictures(p, h)
            &&& (s.hover matches Some(h) && h.entry == i) ==> p.contains(
                DrawView::Fill { rect: r, color: COL_HOVER },
            )
        }),
{
    let p = s.painted(dpi);
    let n = s.entries@.len() as int;
    let e = s.entries@[i]@;
    let r = s.item(i, dpi);
    let hovered = s.hover matches Some(h) && h.entry == i;
    let close = s.hover == Some(peek::Hit { entry: i as usize, close: true });
    let part = peek::item_draws(e, r, s.thumbs_mode, hovered, close, dpi);
    let all = s.items_upto(n, dpi);
    lemma_item_drawn(s, n, dpi, i);
    let front = p.take(1);
    assert(p =~= front + all);
    lemma_right(front, all, part);
    lemma_part(p, part);
    let a: int = if hovered {
        1
    } else {
        0
    };
    let b: int = if e.icon is Some {
        1
    } else {
        0
    };
    if hovered {
        assert(part[0] == DrawView::Fill { rect: r, color: COL_HOVER });
        assert(part.contains(part[0]));
    }
    if e.icon is Some {
        assert(part[a] matches DrawView::Icon { icon, .. } && icon == e.icon->0);
        assert(pictures(part, e.icon->0));
    }
    assert(part[a + b] matches DrawView::Text { text, rect: q, .. } && text == e.title && q.top == r.top);
    assert(part[part.len() - 1] matches DrawView::Text { text, rect: q, .. } && q == peek::close_of(
        r,
        s.thumbs_mode,
        dpi,
    ));
    assert(writes(
        part,
        e.title,
        r.top,
        (r.top + (if s.thumbs_mode {
            px(28, dpi)
        } else {
            px(38, dpi)
        })) as i32,
    ));
    let c = peek::close_of(r, s.thumbs_mode, dpi);
    assert(writes(part, "\u{E8BB}"@, c.top, c.bottom));
}

// ---- Menus ----

proof fn lemma_menu_row_drawn(
    items: Seq<menu::RItem>,
    hover: Option<usize>,
    width: int,
    n: int,
    dpi: int,
    i: int,
)
    requires
        0 <= i < n,
    ensures
        includes(
            menu::rows_draws(items, hover, width, n, dpi),
            menu::row_draws(
                items[i],
                menu::row_rect(items, i, width, dpi),
                hover == Some(i as usize),
                dpi,
            ),
        ),
    decreases n,
{
    let before = menu::rows_draws(items, hover, width, n - 1, dpi);
    let last = menu::row_draws(
        items[n - 1],
        menu::row_rect(items, n - 1, width, dpi),
        hover == Some((n - 1) as usize),
        dpi,
    );
    let part = menu::row_draws(
        items[i],
        menu::row_rect(items, i, width, dpi),
        hover == Some(i as usize),
        dpi,
    );
    if i < n - 1 {
        lemma_menu_row_drawn(items, hover, width, n - 1, dpi, i);
        lemma_left(before, last, part);
    } else {
        lemma_here(last);
        lemma_right(before, last, part);
    }
}

/// Every entry of a menu is labelled on its row, with a chevron where it opens a
/// submenu; the highlighted row has a pill behind it.
#[verifier::rlimit(60)]
pub proof fn every_entry_is_labelled(m: Menu, k: int, accent: u32, dpi: int, i: int)
    requires
        0 <= k < m.panels@.len(),
        0 <= i < m.level(k)@.len(),
        !(m.level(k)@[i].kind is Separator),
    ensures
        ({
            let p = m.painted(k, accent, dpi);
            let it = m.level(k)@[i];
            let r = menu::row_rect(m.level(k)@, i, m.panels@[k].width as int, dpi);
            &&& it.label@.len() > 0 ==> writes(p, it.label@, r.top, r.bottom)
            &&& it.kind is Submenu ==> writes(p, "\u{E76C}"@, r.top, r.bottom)
            &&& m.panels@[k].hover == Some(i as usize) ==> exists|x: int|
                0 <= x < p.len() && (#[trigger] p[x] matches DrawView::Pill { rect: q, fill, .. } && fill
                    == COL_HOVER && q.top == (r.top + px(1, dpi)) as i32)
        }),
{
    let p = m.painted(k, accent, dpi);
    let v = m.level(k)@;
    let it = v[i];
    let w = m.panels@[k].width as int;
    let hover = m.panels@[k].hover;
    let r = menu::row_rect(v, i, w, dpi);
    let part = menu::row_draws(it, r, hover == Some(i as usize), dpi);
    let all = menu::rows_draws(v, hover, w, v.len() as int, dpi);
    lemma_menu_row_drawn(v, hover, w, v.len() as int, dpi, i);
    let front = p.take(1);
    let back = p.skip(p.len() - 1);
    assert(p =~= front + all + back);
    lemma_right(front, all, part);
    lemma_left(front + all, back, part);
    lemma_part(p, part);
    let a: int = if hover == Some(i as usize) {
        1
    } else {
        0
    };
    if it.label@.len() > 0 {
        assert(part[a] matches DrawView::Text { text, rect: q, .. } && text == it.label@ && q.top == r.top);
        assert(writes(part, it.label@, r.top, r.bottom));
    }
    if it.kind is Submenu {
        assert(part[part.len() - 1] matches DrawView::Text { text, .. });
        assert(writes(part, "\u{E76C}"@, r.top, r.bottom));
    }
    if hover == Some(i as usize) {
        let o = part[0];
        assert(part.contains(o));
        let x = choose|x: int| 0 <= x < p.len() && p[x] == o;
        assert(p[x] matches DrawView::Pill { rect: q, fill, .. });
    }
}

// ---- The start menu ----

proof fn lemma_list_row_drawn(m: MenuState, n: int, dpi: int, i: int)
    requires
        0 <= i < n,
        ({
            let row = px(34, dpi);
            let lt = MenuState::list_y(dpi);
            let top = lt + i * row - m.scroll;
            !(top + row < lt || top >= lt + m.list_h(dpi))
        }),
    ensures
        includes(
            m.rows_upto(n, dpi),
            start_menu::painting::row_draws(
                m.items@[i]@,
                MenuState::list_y(dpi) + i * px(34, dpi) - m.scroll,
                px(34, dpi),
                m.pane_x(dpi),
                m.hover == start_menu::Hit::Row(i as usize),
                dpi,
            ),
        ),
    decreases n,
{
    let row = px(34, dpi);
    let lt = MenuState::list_y(dpi);
    let before = m.rows_upto(n - 1, dpi);
    let top = lt + (n - 1) * row - m.scroll;
    let last = if top + row < lt || top >= lt + m.list_h(dpi) {
        Seq::<DrawView>::empty()
    } else {
        start_menu::painting::row_draws(
            m.items@[n - 1]@,
            top,
            row,
            m.pane_x(dpi),
            m.hover == start_menu::Hit::Row((n - 1) as usize),
            dpi,
        )
    };
    let part = start_menu::painting::row_draws(
        m.items@[i]@,
        lt + i * row - m.scroll,
        row,
        m.pane_x(dpi),
        m.hover == start_menu::Hit::Row(i as usize),
        dpi,
    );
    assert(m.rows_upto(n, dpi) =~= before + last);
    if i < n - 1 {
        lemma_list_row_drawn(m, n - 1, dpi, i);
        lemma_left(before, last, part);
    } else {
        lemma_here(last);
        lemma_right(before, last, part);
    }
}

/// Every row of the list that is in view is drawn, `i` rows below the list's top less
/// what is scrolled away: its name and icon, a chevron where it is a folder, and a
/// highlight where it has the focus.
#[verifier::rlimit(60)]
pub proof fn every_row_in_view_is_drawn(m: MenuState, dpi: int, i: int)
    requires
        0 <= i < m.items@.len(),
        ({
            let row = px(34, dpi);
            let lt = MenuState::list_y(dpi);
            let top = lt + i * row - m.scroll;
            top + row >= lt && top < lt + m.list_h(dpi)
        }),
    ensures
        ({
            let p = m.painted(dpi);
            let top = MenuState::list_y(dpi) + i * px(34, dpi) - m.scroll;
            let it = m.items@[i]@;
            &&& writes(p, it.name, top as i32, (top + px(34, dpi)) as i32)
            &&& it.icon matches Some(h) ==> pictures(p, h)
            &&& it.kind is Folder ==> writes(p, "\u{E76C}"@, top as i32, (top + px(34, dpi)) as i32)
            &&& m.hover == start_menu::Hit::Row(i as usize) ==> exists|x: int|
                0 <= x < p.len() && (#[trigger] p[x] matches DrawView::Fill { rect: q, color } && color
                    == COL_HOVER && q.top == top as i32)
        }),
{
    let p = m.painted(dpi);
    let row = px(34, dpi);
    let top = MenuState::list_y(dpi) + i * row - m.scroll;
    let it = m.items@[i]@;
    let hovered = m.hover == start_menu::Hit::Row(i as usize);
    let part = start_menu::painting::row_draws(it, top, row, m.pane_x(dpi), hovered, dpi);
    let all = m.rows_upto(m.items@.len() as int, dpi);
    lemma_list_row_drawn(m, m.items@.len() as int, dpi, i);
    let left = m.left_draws(dpi);
    let head = left.take(1);
    let tail = left.skip(1int + all.len());
    assert(left =~= head + all + tail);
    lemma_right(head, all, part);
    lemma_left(head + all, tail, part);
    let front = p.take(2);
    let back = p.skip(2int + left.len());
    assert(p =~= front + left + back);
    lemma_right(front, left, part);
    lemma_left(front + left, back, part);
    lemma_part(p, part);
    let a: int = if hovered {
        1
    } else {
        0
    };
    let b: int = if it.icon is Some {
        1
    } else {
        0
    };
    assert(part[a + b] matches DrawView::Text { text, .. } && text == it.name);
    assert(writes(part, it.name, top as i32, (top + row) as i32));
    if it.icon is Some {
        assert(part[a] matches DrawView::Icon { icon, .. } && icon == it.icon->0);
        assert(pictures(part, it.icon->0));
    }
    if it.kind is Folder {
        assert(part[part.len() - 1] matches DrawView::Text { text, .. });
        assert(writes(part, "\u{E76C}"@, top as i32, (top + row) as i32));
    }
    if hovered {
        let o = part[0];
        assert(part.contains(o));
        let x = choose|x: int| 0 <= x < p.len() && p[x] == o;
        assert(p[x] matches DrawView::Fill { rect: q, color });
    }
}

proof fn lemma_link_drawn(m: MenuState, n: int, dpi: int, i: int)
    requires
        0 <= i < n,
    ensures
        includes(
            m.links_upto(n, dpi),
            start_menu::painting::link_draws(
                m.rights@[i]@,
                MenuState::links_y(dpi) + i * px(38, dpi),
                px(38, dpi),
                m.pane_x(dpi) + px(8, dpi),
                m.width as int,
                m.hover == start_menu::Hit::Right(i as usize),
                dpi,
            ),
        ),
    decreases n,
{
    let row = px(38, dpi);
    let before = m.links_upto(n - 1, dpi);
    let last = start_menu::painting::link_draws(
        m.rights@[n - 1]@,
        MenuState::links_y(dpi) + (n - 1) * row,
        row,
        m.pane_x(dpi) + px(8, dpi),
        m.width as int,
        m.hover == start_menu::Hit::Right((n - 1) as usize),
        dpi,
    );
    let part = start_menu::painting::link_draws(
        m.rights@[i]@,
        MenuState::links_y(dpi) + i * row,
        row,
        m.pane_x(dpi) + px(8, dpi),
        m.width as int,
        m.hover == start_menu::Hit::Right(i as usize),
        dpi,
    );
    if i < n - 1 {
        lemma_link_drawn(m, n - 1, dpi, i);
        lemma_left(before, last, part);
    } else {
        lemma_here(last);
        lemma_right(before, last, part);
    }
}

/// Every link of the right pane is labelled where it is hit.
#[verifier::rlimit(60)]
pub proof fn every_link_is_labelled(m: MenuState, dpi: int, i: int)
    requires
        0 <= i < m.rights@.len(),
    ensures
        ({
            let p = m.painted(dpi);
            let top = px(64, dpi) + px(12, dpi) + i * px(38, dpi);
            &&& writes(p, m.rights@[i].label@, top as i32, (top + px(38, dpi)) as i32)
            &&& writes(p, m.rights@[i].glyph@, top as i32, (top + px(38, dpi)) as i32)
        }),
{
    let p = m.painted(dpi);
    let n = m.rights@.len() as int;
    let row = px(38, dpi);
    let top = MenuState::links_y(dpi) + i * row;
    let part = start_menu::painting::link_draws(
        m.rights@[i]@,
        top,
        row,
        m.pane_x(dpi) + px(8, dpi),
        m.width as int,
        m.hover == start_menu::Hit::Right(i as usize),
        dpi,
    );
    let all = m.links_upto(n, dpi);
    lemma_link_drawn(m, n, dpi, i);
    let k = 2 + m.left_draws(dpi).len() as int;
    let front = p.take(k);
    let back = p.skip(k + all.len());
    assert(p =~= front + all + back);
    lemma_right(front, all, part);
    lemma_left(front + all, back, part);
    lemma_part(p, part);
    let z = part.len() as int;
    assert(part[z - 1] matches DrawView::Text { text, .. } && text == m.rights@[i].label@);
    assert(part[z - 2] matches DrawView::Text { text, .. } && text == m.rights@[i].glyph@);
    assert(writes(part, m.rights@[i].label@, top as i32, (top + row) as i32));
    assert(writes(part, m.rights@[i].glyph@, top as i32, (top + row) as i32));
}

/// The search box shows what is typed, or a hint; a search without results says so;
/// and the row below the list says where it leads.
#[verifier::rlimit(60)]
pub proof fn the_search_box_shows_the_query(m: MenuState, dpi: int)
    ensures
        ({
            let p = m.painted(dpi);
            let sb = m.search_rect(dpi);
            &&& m.query@.len() > 0 ==> writes(p, m.query@, sb.top, sb.bottom)
            &&& m.query@.len() == 0 ==> writes(p, "Search programs and files"@, sb.top, sb.bottom)
            &&& (m.query@.len() > 0 && m.items@.len() == 0) ==> exists|x: int|
                0 <= x < p.len() && (#[trigger] p[x] matches DrawView::Text { text, .. } && text
                    == "No results"@)
            &&& (m.query@.len() == 0 || m.items@.len() > 0) ==> m.left_draws(dpi).len() == m.rows_upto(
                m.items@.len() as int,
                dpi,
            ).len() + 6 + (if m.hover is AllPrograms {
                1int
            } else {
                0
            })
            &&& m.pinned@.len() > 0 && !m.showing_all ==> m.all_programs_label().1 == "All apps"@
            &&& m.pinned@.len() > 0 && m.showing_all ==> m.all_programs_label().1 == "Pinned"@
            &&& m.pinned@.len() == 0 ==> m.all_programs_label().1 == "All Programs"@
        }),
{
    let p = m.painted(dpi);
    let sb = m.search_rect(dpi);
    let foot = m.footer_draws(dpi);
    let left = m.left_draws(dpi);
    let links = m.links_upto(m.rights@.len() as int, dpi);
    let k = 2 + left.len() as int + links.len() as int;
    assert(p[k + 2] == foot[2]);
    assert(foot[2] matches DrawView::Text { text, rect: q, .. } && q.top == sb.top && q.bottom == sb.bottom);
    let rows = m.rows_upto(m.items@.len() as int, dpi);
    if m.query@.len() > 0 && m.items@.len() == 0 {
        let at = 1 + rows.len() as int;
        assert(left[at] matches DrawView::Text { text, .. } && text == "No results"@);
        assert(p[2 + at] == left[at]);
    }
}

// ---- Settings ----

proof fn lemma_setting_drawn(s: settings::State, n: int, width: int, dpi: int, i: int)
    requires
        0 <= i < n,
    ensures
        includes(s.rows_upto(n, width, dpi), s.row_draws(i, width, dpi)),
    decreases n,
{
    let before = s.rows_upto(n - 1, width, dpi);
    let last = s.row_draws(n - 1, width, dpi);
    if i < n - 1 {
        lemma_setting_drawn(s, n - 1, width, dpi, i);
        lemma_left(before, last, s.row_draws(i, width, dpi));
    } else {
        lemma_here(last);
        lemma_right(before, last, last);
    }
}

/// Every setting is labelled on its row, and has a check mark exactly while it is on.
#[verifier::rlimit(60)]
pub proof fn every_setting_is_labelled_and_marked(
    s: settings::State,
    width: int,
    height: int,
    dpi: int,
    i: int,
    t: usize,
)
    requires
        0 <= i < s.rows@.len(),
        s.rows@[i] == settings::Row::Toggle(t),
    ensures
        ({
            let p = s.painted(width, height, dpi);
            let row = s.row_draws(i, width, dpi);
            let top = settings::top_of(settings::row_views(s.rows@), i, dpi);
            &&& includes(p, row)
            &&& t != 4 ==> writes(p, settings::label_of(t as int), top as i32, (top + px(36, dpi)) as i32)
            &&& (exists|k: int|
                0 <= k < row.len() && (#[trigger] row[k] matches DrawView::Text { font: Font::Glyph, .. }))
                == s.values@[t as int]
        }),
{
    let p = s.painted(width, height, dpi);
    let v = settings::row_views(s.rows@);
    assert(v[i] == s.rows@[i]@);
    let row = s.row_draws(i, width, dpi);
    let n = s.rows@.len() as int;
    let all = s.rows_upto(n, width, dpi);
    lemma_setting_drawn(s, n, width, dpi, i);
    let front = p.take(4);
    let back = p.skip(4int + all.len());
    assert(p =~= front + all + back);
    lemma_right(front, all, row);
    lemma_left(front + all, back, row);
    lemma_part(p, row);
    let top = settings::top_of(v, i, dpi);
    let z = row.len() - 1;
    assert(row[z] matches DrawView::Text { font: Font::Text, .. });
    if t != 4 {
        assert(row[z] matches DrawView::Text { text, .. } && text == settings::label_of(t as int));
        assert(writes(row, settings::label_of(t as int), top as i32, (top + px(36, dpi)) as i32));
    }
    if s.values@[t as int] {
        assert(row[z - 1] matches DrawView::Text { font: Font::Glyph, .. });
    }
}

// ---- System Information ----

proof fn lemma_content_drawn(v: Seq<RowView>, n: int, y: int, accent: u32, dpi: int, i: int)
    requires
        0 <= i < n,
    ensures
        includes(
            sysinfo::painting::contents_upto(v, n, y, accent, dpi),
            sysinfo::painting::content_draws(v[i], y + height_upto(v, i, dpi), accent, dpi),
        ),
    decreases n,
{
    let before = sysinfo::painting::contents_upto(v, n - 1, y, accent, dpi);
    let last = sysinfo::painting::content_draws(
        v[n - 1],
        y + height_upto(v, n - 1, dpi),
        accent,
        dpi,
    );
    let part = sysinfo::painting::content_draws(v[i], y + height_upto(v, i, dpi), accent, dpi);
    if i < n - 1 {
        lemma_content_drawn(v, n - 1, y, accent, dpi, i);
        lemma_left(before, last, part);
    } else {
        lemma_here(last);
        lemma_right(before, last, part);
    }
}

/// Every row of the chosen section is drawn, the label beside its value, below the
/// rows before it and as far up as is scrolled.
#[verifier::rlimit(60)]
pub proof fn every_fact_is_drawn(
    s: sysinfo::State,
    ring: u32,
    width: int,
    height: int,
    dpi: int,
    info: sysinfo::SysInfo,
    i: int,
)
    requires
        s.info == Some(info),
        0 <= i < section_rows(s.section as int, info).len(),
    ensures
        ({
            let p = s.painted(ring, width, height, dpi);
            let v = section_rows(s.section as int, info);
            let y = sysinfo::content_rect(dpi).top - s.shown_scroll(dpi) + height_upto(v, i, dpi);
            match v[i] {
                RowView::Kv(k, t) => {
                    &&& k.len() > 0 ==> writes(p, k, y as i32, (y + px(24, dpi)) as i32)
                    &&& t.len() > 0 ==> writes(p, t, y as i32, (y + px(24, dpi)) as i32)
                },
                RowView::Head(t) => t.len() > 0 ==> writes(
                    p,
                    t,
                    (y + px(16, dpi)) as i32,
                    (y + px(16, dpi) + px(24, dpi)) as i32,
                ),
                RowView::Gap => true,
            }
        }),
{
    let p = s.painted(ring, width, height, dpi);
    let v = section_rows(s.section as int, info);
    let n = v.len() as int;
    let y0 = sysinfo::content_rect(dpi).top - s.shown_scroll(dpi);
    let y = y0 + height_upto(v, i, dpi);
    let all = sysinfo::painting::contents_upto(v, n, y0, s.accent, dpi);
    let part = sysinfo::painting::content_draws(v[i], y, s.accent, dpi);
    lemma_content_drawn(v, n, y0, s.accent, dpi, i);
    let back = p.skip(p.len() - 2);
    let front = p.take(p.len() - 2 - all.len());
    assert(p =~= front + all + back);
    lemma_right(front, all, part);
    lemma_left(front + all, back, part);
    lemma_part(p, part);
    match v[i] {
        RowView::Kv(k, t) => {
            if k.len() > 0 {
                assert(part[0] matches DrawView::Text { text, .. } && text == k);
                assert(writes(part, k, y as i32, (y + px(24, dpi)) as i32));
            }
            if t.len() > 0 {
                assert(part[part.len() - 1] matches DrawView::Text { text, .. } && text == t);
                assert(writes(part, t, y as i32, (y + px(24, dpi)) as i32));
            }
        },
        RowView::Head(t) => {
            if t.len() > 0 {
                assert(part[0] matches DrawView::Text { text, .. } && text == t);
                assert(writes(
                    part,
                    t,
                    (y + px(16, dpi)) as i32,
                    (y + px(16, dpi) + px(24, dpi)) as i32,
                ));
            }
        },
        RowView::Gap => {},
    }
}

/// The start button has four squares of the configured color, two by two, and is
/// highlighted under the mouse.
#[verifier::rlimit(60)]
pub proof fn the_start_button_has_four_squares(start_x: int, hover: bool, color: u32, height: int, dpi: int)
    requires
        0 <= dpi <= 32767,
        -0x2000_0000 <= start_x <= 0x2000_0000,
        0 <= height <= 0x1000_0000,
    ensures
        ({
            let v = crate::taskbar::painting::start_draws(start_x, hover, color, height, dpi);
            let k: int = if hover {
                1
            } else {
                0
            };
            &&& v.len() == k + 4
            &&& hover ==> v[0] == (DrawView::Fill {
                rect: crate::taskbar::start_rect(start_x, height, dpi),
                color: COL_HOVER,
            })
            &&& (v[k] matches DrawView::Fill { rect: a, color: ca } && ca == color && (v[k + 1] matches DrawView::Fill {
                rect: b,
                color: cb,
            } && cb == color && (v[k + 2] matches DrawView::Fill { rect: c, color: cc } && cc == color && (v[k
                + 3] matches DrawView::Fill { rect: d, color: cd } && cd == color && {
                &&& a.top == b.top && c.top == d.top && a.left == c.left && b.left == d.left
                &&& b.left == a.right + px(2, dpi) && c.top == a.bottom + px(2, dpi)
                &&& a.right - a.left == px(7, dpi) && a.bottom - a.top == px(7, dpi)
            }))))
        }),
{
    lemma_px(7, dpi);
    lemma_px(2, dpi);
    lemma_px(64, dpi);
}

/// The navigation names every section, and highlights the chosen one.
#[verifier::rlimit(60)]
pub proof fn every_section_is_named(
    s: sysinfo::State,
    ring: u32,
    width: int,
    height: int,
    dpi: int,
    i: int,
)
    requires
        0 <= i < 4,
    ensures
        ({
            let p = s.painted(ring, width, height, dpi);
            let r = sysinfo::nav_rect(i, dpi);
            &&& writes(p, sysinfo::section_name(i), r.top, r.bottom)
            &&& writes(p, sysinfo::section_glyph(i), r.top, r.bottom)
            &&& s.section == i ==> exists|x: int|
                0 <= x < p.len() && (#[trigger] p[x] matches DrawView::Round { rect: q, fill, .. } && q
                    == r && fill == COL_ACTIVE)
        }),
{
    let p = s.painted(ring, width, height, dpi);
    let r = sysinfo::nav_rect(i, dpi);
    let all = sysinfo::painting::navs_upto(4, s.accent, s.section as int, s.hover, dpi);
    let part = sysinfo::painting::nav_draws(i, s.accent, s.section as int, s.hover, dpi);
    lemma_nav_drawn(4, s.accent, s.section as int, s.hover, dpi, i);
    let full = rect(0, 0, width, height);
    let front = seq![DrawView::Fill { rect: full, color: crate::taskbar::COL_BG }]
        + sysinfo::painting::title_draws(s.accent, s.hover, width, dpi);
    let line = seq![
        DrawView::Fill {
            rect: rect(
                px(sysinfo::NAV_W as int, dpi),
                px(sysinfo::TITLE_H as int, dpi),
                px(sysinfo::NAV_W as int, dpi) + 1,
                height,
            ),
            color: COL_HOVER,
        },
    ];
    let body = s.body_draws(dpi);
    let ringed = seq![
        DrawView::Outline { rect: full, edge: ring, width: 1, radius: px(16, dpi) as i32 },
    ];
    assert(p == front + all + line + body + ringed);
    lemma_right(front, all, part);
    lemma_left(front + all, line, part);
    lemma_left(front + all + line, body, part);
    lemma_left(front + all + line + body, ringed, part);
    lemma_part(p, part);
    let z = part.len() as int;
    assert(part[z - 1] matches DrawView::Text { text, .. } && text == sysinfo::section_name(i));
    assert(part[z - 2] matches DrawView::Text { text, .. } && text == sysinfo::section_glyph(i));
    assert(writes(part, sysinfo::section_name(i), r.top, r.bottom));
    assert(writes(part, sysinfo::section_glyph(i), r.top, r.bottom));
    if s.section == i {
        let o = part[0];
        assert(part.contains(o));
        let x = choose|x: int| 0 <= x < p.len() && p[x] == o;
        assert(p[x] matches DrawView::Round { rect: q, fill, .. });
    }
}

proof fn lemma_nav_drawn(n: int, accent: u32, section: int, hover: sysinfo::Hit, dpi: int, i: int)
    requires
        0 <= i < n,
    ensures
        includes(
            sysinfo::painting::navs_upto(n, accent, section, hover, dpi),
            sysinfo::painting::nav_draws(i, accent, section, hover, dpi),
        ),
    decreases n,
{
    let before = sysinfo::painting::navs_upto(n - 1, accent, section, hover, dpi);
    let last = sysinfo::painting::nav_draws(n - 1, accent, section, hover, dpi);
    let part = sysinfo::painting::nav_draws(i, accent, section, hover, dpi);
    if i < n - 1 {
        lemma_nav_drawn(n - 1, accent, section, hover, dpi, i);
        lemma_left(before, last, part);
    } else {
        lemma_here(last);
        lemma_right(before, last, part);
    }
}

/// Until the facts are gathered the window says so.
pub proof fn the_window_says_that_it_gathers(s: sysinfo::State, dpi: int)
    requires
        s.info is None,
    ensures
        ({
            let c = sysinfo::content_rect(dpi);
            writes(s.body_draws(dpi), "Gathering system information\u{2026}"@, c.top, c.bottom)
        }),
{
    let v = s.body_draws(dpi);
    assert(v[0] matches DrawView::Text { text, .. });
}

/// The Run window's three buttons are labelled where they are hit, and its field is
/// labelled too.
#[verifier::rlimit(60)]
pub proof fn the_run_windows_buttons_are_labelled(s: run_window::State, width: int, height: int, dpi: int)
    ensures
        ({
            let p = s.painted(width, height, dpi);
            let r = run_window::button_rect(0, dpi);
            let n = p.len() as int;
            &&& n >= 6
            &&& (p[n - 1] matches DrawView::Text { text, rect: q, .. } && text == "Browse\u{2026}"@ && q
                == run_window::button_rect(0, dpi))
            &&& (p[n - 3] matches DrawView::Text { text, rect: q, .. } && text == "Cancel"@ && q
                == run_window::button_rect(1, dpi))
            &&& (p[n - 5] matches DrawView::Text { text, rect: q, .. } && text == "OK"@ && q
                == run_window::button_rect(2, dpi))
            &&& writes(
                p,
                "Open:"@,
                run_window::label_rect(dpi).top,
                run_window::label_rect(dpi).bottom,
            )
            &&& s.icon != 0 ==> pictures(p, s.icon)
        }),
{
    let p = s.painted(width, height, dpi);
    let n = p.len() as int;
    let k: int = if s.icon != 0 {
        5
    } else {
        4
    };
    assert(p[k + 1] matches DrawView::Text { text, rect: q, .. } && text == "Open:"@ && q
        == run_window::label_rect(dpi));
    if s.icon != 0 {
        assert(p[4] matches DrawView::Icon { icon, .. } && icon == s.icon);
    }
}

/// The start menu shows the user's picture, or a glyph in its place, and the power
/// controls by name.
#[verifier::rlimit(60)]
pub proof fn the_menu_shows_picture_and_power(m: MenuState, dpi: int)
    ensures
        ({
            let p = m.painted(dpi);
            let sd = m.power_rect(dpi);
            &&& m.avatar matches Some(b) ==> exists|x: int|
                0 <= x < p.len() && (#[trigger] p[x] matches DrawView::Image { bitmap, .. } && bitmap == b)
            &&& m.avatar is None ==> exists|x: int|
                0 <= x < p.len() && (#[trigger] p[x] matches DrawView::Text { text, font: Font::GlyphBig, .. } && text
                    == "\u{E77B}"@)
            &&& writes(p, "Shut down"@, sd.top, sd.bottom)
        }),
{
    let p = m.painted(dpi);
    let sd = m.power_rect(dpi);
    let avatar = m.avatar_draws(dpi);
    let foot = m.footer_draws(dpi);
    let a = p.len() - avatar.len();
    let f = a - foot.len();
    assert forall|k: int| 0 <= k < avatar.len() implies #[trigger] p[a + k] == avatar[k] by {
    }
    assert forall|k: int| 0 <= k < foot.len() implies #[trigger] p[f + k] == foot[k] by {
    }
    match m.avatar {
        Some(b) => {
            assert(p[a + 1] == avatar[1]);
        },
        None => {
            assert(p[a + 2] == avatar[2]);
        },
    }
    let k: int = if m.hover == start_menu::Hit::Shutdown {
        5
    } else {
        4
    };
    assert(foot[k] matches DrawView::Text { text, rect: q, .. } && text == "Shut down"@ && q.top == sd.top);
    assert(p[f + k] == foot[k]);
}

/// Every swatch is drawn in its own color, and the chosen one has a ring in the accent
/// color behind it.
#[verifier::rlimit(60)]
pub proof fn every_swatch_is_drawn(color: u32, hover: settings::Hover, top: int, dpi: int, i: int)
    requires
        0 <= i < 7,
    ensures
        ({
            let v = settings::color_draws(color, hover, top, dpi);
            let r = settings::swatch_rect(i, top, dpi);
            &&& exists|x: int|
                0 <= x < v.len() && (#[trigger] v[x] matches DrawView::Round { rect: q, fill, .. } && q == r
                    && fill == settings::swatch_of(i) as u32)
            &&& color == settings::swatch_of(i) ==> exists|x: int|
                0 <= x < v.len() && (#[trigger] v[x] matches DrawView::Round { rect: q, fill, .. } && q.left
                    == (r.left - px(3, dpi)) as i32 && fill == COL_ACCENT)
        }),
{
    let v = settings::color_draws(color, hover, top, dpi);
    let all = settings::swatches_upto(7, color, hover, top, dpi);
    let part = settings::swatch_draws(i, color, hover, top, dpi);
    lemma_swatch_drawn(7, color, hover, top, dpi, i);
    let back = v.skip(all.len() as int);
    assert(v =~= all + back);
    lemma_left(all, back, part);
    lemma_part(v, part);
    let o = part[part.len() - 1];
    assert(part.contains(o));
    let x = choose|x: int| 0 <= x < v.len() && v[x] == o;
    assert(v[x] matches DrawView::Round { rect: q, fill, .. });
    if color == settings::swatch_of(i) {
        let b = part[0];
        assert(part.contains(b));
        let y = choose|y: int| 0 <= y < v.len() && v[y] == b;
        assert(v[y] matches DrawView::Round { rect: q, fill, .. });
    }
}

proof fn lemma_swatch_drawn(n: int, color: u32, hover: settings::Hover, top: int, dpi: int, i: int)
    requires
        0 <= i < n,
    ensures
        includes(
            settings::swatches_upto(n, color, hover, top, dpi),
            settings::swatch_draws(i, color, hover, top, dpi),
        ),
    decreases n,
{
    let before = settings::swatches_upto(n - 1, color, hover, top, dpi);
    let last = settings::swatch_draws(n - 1, color, hover, top, dpi);
    let part = settings::swatch_draws(i, color, hover, top, dpi);
    if i < n - 1 {
        lemma_swatch_drawn(n - 1, color, hover, top, dpi, i);
        lemma_left(before, last, part);
    } else {
        lemma_here(last);
        lemma_right(before, last, part);
    }
}

} // verus!
