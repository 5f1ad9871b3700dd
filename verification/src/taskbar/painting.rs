//! What the taskbar draws.

use vstd::prelude::*;
use vstd::string::*;
use crate::geometry::{min2, near, px, rect, scaled, toward_zero, valid_dpi, Rect};
use crate::num::{padded, padded_text};
use crate::paint::{
    emit, fill, label, shown, Draw, DrawView, Font, DT_BOTTOM, DT_RIGHT, DT_SINGLELINE,
    LINE_ELLIPSIS,
};
use crate::taskbar::{
    button_views, clock_left, clock_rect, start_rect, start_rect_at, tray_icon_rect, tray_rect,
    ButtonView, Hit, TaskButton, Taskbar, COL_ACCENT, COL_ACTIVE, COL_BG, COL_HOVER, COL_TEXT,
    COL_TEXT_DIM,
};

verus! {

/// The middle of a stretch that holds `size` pixels: where they start.
pub open spec fn centered(a: int, b: int, size: int) -> int {
    toward_zero(a + b - size, 2)
}

/// One square of the start button's logo.
pub open spec fn logo_square(x: int, y: int, sq: int, color: u32) -> DrawView {
    DrawView::Fill { rect: rect(x, y, x + sq, y + sq), color }
}

/// The start button: its hover fill, then a four-square logo, centred.
pub open spec fn start_draws(start_x: int, hover: bool, color: u32, height: int, dpi: int) -> Seq<
    DrawView,
> {
    let r = start_rect(start_x, height, dpi);
    let sq = px(7, dpi);
    let step = sq + px(2, dpi);
    let total = sq * 2 + px(2, dpi);
    let cx = centered(r.left as int, r.right as int, total);
    let cy = centered(0, height, total);
    (if hover {
        seq![DrawView::Fill { rect: r, color: COL_HOVER }]
    } else {
        seq![]
    }) + seq![
        logo_square(cx, cy, sq, color),
        logo_square(cx + step, cy, sq, color),
        logo_square(cx, cy + step, sq, color),
        logo_square(cx + step, cy + step, sq, color),
    ]
}

/// Width of one underline segment out of `n`.
pub open spec fn segment_w(r: Rect, n: int, dpi: int) -> int {
    toward_zero(r.right - r.left - px(2, dpi) * (n - 1), n)
}

/// Segment `s` out of `n`; the last one reaches the button's edge.
pub open spec fn segment(r: Rect, n: int, s: int, color: u32, dpi: int) -> DrawView {
    let x = r.left + s * (segment_w(r, n, dpi) + px(2, dpi));
    DrawView::Fill {
        rect: rect(
            x,
            r.bottom - px(2, dpi),
            if s == n - 1 {
                r.right as int
            } else {
                x + segment_w(r, n, dpi)
            },
            r.bottom as int,
        ),
        color,
    }
}

/// The underline of a button with windows: one segment per window, three at most.
pub open spec fn underline(r: Rect, windows: int, active: bool, dpi: int) -> Seq<DrawView> {
    let n = min2(windows, 3);
    let color = if active {
        COL_ACCENT
    } else {
        COL_TEXT_DIM
    };
    Seq::new(n as nat, |s: int| segment(r, n, s, color, dpi))
}

/// A button's icon and title.
pub open spec fn labelled_draws(b: ButtonView, dpi: int) -> Seq<DrawView> {
    let r = b.rect;
    let size = px(16, dpi);
    let icon_y = centered(r.top as int, r.bottom as int, size);
    let icon_x = r.left + px(6, dpi);
    let text_left = icon_x + if b.icon is Some {
        size + px(6, dpi)
    } else {
        0
    };
    let text_right = r.right - px(4, dpi);
    (match b.icon {
        Some(icon) => seq![
            DrawView::Icon { icon, x: icon_x as i32, y: icon_y as i32, size: size as i32 },
        ],
        None => seq![],
    }) + (if text_right > text_left {
        seq![
            DrawView::Text {
                font: Font::Text,
                color: COL_TEXT,
                text: b.title,
                rect: rect(text_left, r.top as int, text_right, r.bottom as int),
                flags: LINE_ELLIPSIS,
            },
        ]
    } else {
        seq![]
    })
}

/// A button's icon alone, larger and centred.
pub open spec fn icon_draws(b: ButtonView, dpi: int) -> Seq<DrawView> {
    let size = px(24, dpi);
    match b.icon {
        Some(icon) => seq![
            DrawView::Icon {
                icon,
                x: centered(b.rect.left as int, b.rect.right as int, size) as i32,
                y: (centered(b.rect.top as int, b.rect.bottom as int, size) - px(1, dpi)) as i32,
                size: size as i32,
            },
        ],
        None => seq![],
    }
}

/// One task button: its fill, its underline, its icon and title.
pub open spec fn button_draws(
    b: ButtonView,
    hovered: bool,
    foreground: u64,
    labels: bool,
    dpi: int,
) -> Seq<DrawView> {
    let active = b.windows.contains(foreground);
    (if active {
        seq![DrawView::Fill { rect: b.rect, color: COL_ACTIVE }]
    } else if hovered {
        seq![DrawView::Fill { rect: b.rect, color: COL_HOVER }]
    } else {
        seq![]
    }) + underline(b.rect, b.windows.len() as int, active, dpi) + (if labels {
        labelled_draws(b, dpi)
    } else {
        icon_draws(b, dpi)
    })
}

/// The first `n` task buttons.
pub open spec fn buttons_draws(
    v: Seq<ButtonView>,
    n: int,
    hover: Hit,
    foreground: u64,
    labels: bool,
    dpi: int,
) -> Seq<DrawView>
    decreases n,
{
    if n <= 0 {
        seq![]
    } else {
        buttons_draws(v, n - 1, hover, foreground, labels, dpi) + button_draws(
            v[n - 1],
            hover == Hit::Task((n - 1) as usize),
            foreground,
            labels,
            dpi,
        )
    }
}

/// One tray icon.
pub open spec fn tray_draws(r: Rect, icon: u64, hovered: bool, dpi: int) -> Seq<DrawView> {
    let size = px(16, dpi);
    (if hovered {
        seq![DrawView::Fill { rect: r, color: COL_HOVER }]
    } else {
        seq![]
    }) + (if icon == 0 {
        seq![]
    } else {
        seq![
            DrawView::Icon {
                icon,
                x: centered(r.left as int, r.right as int, size) as i32,
                y: centered(r.top as int, r.bottom as int, size) as i32,
                size: size as i32,
            },
        ]
    })
}

/// The first `n` tray icons.
pub open spec fn trays_draws(
    icons: Seq<u64>,
    n: int,
    hover: Hit,
    width: int,
    height: int,
    dpi: int,
) -> Seq<DrawView>
    decreases n,
{
    if n <= 0 {
        seq![]
    } else {
        trays_draws(icons, n - 1, hover, width, height, dpi) + tray_draws(
            tray_rect(n - 1, icons.len() as int, width, height, dpi),
            icons[n - 1],
            hover == Hit::TrayIcon((n - 1) as usize),
            dpi,
        )
    }
}

/// The clock: the time above the date, both at the right edge.
pub open spec fn clock_draws(
    time: Seq<char>,
    date: Seq<char>,
    width: int,
    height: int,
    dpi: int,
) -> Seq<DrawView> {
    let left = clock_left(width, dpi);
    let right = width - px(8, dpi);
    seq![
        DrawView::Text {
            font: Font::Text,
            color: COL_TEXT,
            text: time,
            rect: rect(left, px(3, dpi), right, height / 2),
            flags: DT_SINGLELINE | DT_RIGHT | DT_BOTTOM,
        },
        DrawView::Text {
            font: Font::Small,
            color: COL_TEXT_DIM,
            text: date,
            rect: rect(left, height / 2, right, height - px(3, dpi)),
            flags: DT_SINGLELINE | DT_RIGHT,
        },
    ]
}

/// A wall-clock time as hours and minutes.
pub fn clock_time(hour: u16, minute: u16) -> (r: String)
    ensures
        r@ == padded(hour as nat, 2) + ":"@ + padded(minute as nat, 2),
{
    let mut s = padded_text(hour as u64, 2);
    s.append(":");
    s.append(padded_text(minute as u64, 2).as_str());
    s
}

/// A date as year, month and day.
pub fn clock_date(year: u16, month: u16, day: u16) -> (r: String)
    ensures
        r@ == padded(year as nat, 4) + "-"@ + padded(month as nat, 2) + "-"@ + padded(
            day as nat,
            2,
        ),
{
    let mut s = padded_text(year as u64, 4);
    s.append("-");
    s.append(padded_text(month as u64, 2).as_str());
    s.append("-");
    s.append(padded_text(day as u64, 2).as_str());
    s
}

fn draw_start_button(
    out: &mut Vec<Draw>,
    start_x: i32,
    hover: bool,
    color: u32,
    height: i32,
    dpi: i32,
)
    requires
        valid_dpi(dpi),
        near(start_x as int),
        near(height as int),
    ensures
        shown(final(out)@) == shown(old(out)@) + start_draws(
            start_x as int,
            hover,
            color,
            height as int,
            dpi as int,
        ),
{
    let ghost before = shown(out@);
    let r = start_rect_at(start_x, height, dpi);
    if hover {
        fill(out, r, COL_HOVER);
    }
    let sq: i32 = scaled(7, dpi);
    let gap: i32 = scaled(2, dpi);
    let total: i32 = sq * 2 + gap;
    let cx: i32 = (r.left + r.right - total) / 2;
    let cy: i32 = (r.top + r.bottom - total) / 2;
    let step: i32 = sq + gap;
    fill(out, Rect { left: cx, top: cy, right: cx + sq, bottom: cy + sq }, color);
    fill(out, Rect { left: cx + step, top: cy, right: cx + step + sq, bottom: cy + sq }, color);
    fill(out, Rect { left: cx, top: cy + step, right: cx + sq, bottom: cy + step + sq }, color);
    fill(
        out,
        Rect { left: cx + step, top: cy + step, right: cx + step + sq, bottom: cy + step + sq },
        color,
    );
    assert(shown(out@) =~= before + start_draws(
        start_x as int,
        hover,
        color,
        height as int,
        dpi as int,
    ));
}

fn draw_underline(out: &mut Vec<Draw>, r: Rect, windows: usize, active: bool, dpi: i32)
    requires
        valid_dpi(dpi),
        r.near(),
    ensures
        shown(final(out)@) == shown(old(out)@) + underline(r, windows as int, active, dpi as int),
{
    let ghost before = shown(out@);
    let n: i32 = if windows >= 3 {
        3
    } else {
        windows as i32
    };
    let color: u32 = if active {
        COL_ACCENT
    } else {
        COL_TEXT_DIM
    };
    let ghost wanted = underline(r, windows as int, active, dpi as int);
    assert(wanted.len() == n);
    if n > 0 {
        let gap: i32 = scaled(2, dpi);
        assert(0 <= gap * (n - 1) <= 1368) by (nonlinear_arith)
            requires
                1 <= n <= 3,
                0 <= gap <= 684,
        ;
        let seg_w: i32 = (r.right - r.left - gap * (n - 1)) / n;
        let mut s: i32 = 0;
        let mut x: i32 = r.left;
        assert(wanted.take(0) =~= seq![]);
        assert(before + wanted.take(0) =~= before);
        while s < n
            invariant
                0 <= s <= n <= 3,
                valid_dpi(dpi),
                r.near(),
                0 <= gap <= 684,
                gap == px(2, dpi as int),
                seg_w == segment_w(r, n as int, dpi as int),
                seg_w == toward_zero(r.right - r.left - gap * (n - 1), n as int),
                s < n ==> x == r.left + s * (seg_w + gap),
                color == if active {
                    COL_ACCENT
                } else {
                    COL_TEXT_DIM
                },
                wanted == underline(r, windows as int, active, dpi as int),
                n == min2(windows as int, 3),
                wanted.len() == n,
                shown(out@) == before + wanted.take(s as int),
            decreases n - s,
        {
            proof {
                assert(s == 0 || s == 1 || s == 2);
                assert(n == 1 || n == 2 || n == 3);
                let w = seg_w + gap;
                assert(0 * w == 0 && 1 * w == w && 2 * w == w + w) by (nonlinear_arith);
                assert((s + 1) * w == s * w + w) by (nonlinear_arith);
                assert(gap * 0 == 0 && gap * 1 == gap && gap * 2 == gap + gap)
                    by (nonlinear_arith);
            }
            let line = Rect {
                left: x,
                top: r.bottom - scaled(2, dpi),
                right: if s == n - 1 {
                    r.right
                } else {
                    x + seg_w
                },
                bottom: r.bottom,
            };
            fill(out, line, color);
            assert(shown(out@) =~= before + wanted.take(s + 1));
            if s + 1 < n {
                x = x + (seg_w + gap);
            }
            s = s + 1;
        }
        assert(wanted.take(s as int) =~= wanted);
    } else {
        assert(before + wanted =~= before);
    }
}

fn has_window(windows: &Vec<u64>, hwnd: u64) -> (r: bool)
    ensures
        r == windows@.contains(hwnd),
{
    let mut i: usize = 0;
    while i < windows.len()
        invariant
            i <= windows.len(),
            forall|k: int| 0 <= k < i ==> windows@[k] != hwnd,
        decreases windows.len() - i,
    {
        if windows[i] == hwnd {
            return true;
        }
        i = i + 1;
    }
    false
}

fn draw_button(
    out: &mut Vec<Draw>,
    b: &TaskButton,
    hovered: bool,
    foreground: u64,
    labels: bool,
    dpi: i32,
)
    requires
        valid_dpi(dpi),
        b.rect.near(),
    ensures
        shown(final(out)@) == shown(old(out)@) + button_draws(
            b@,
            hovered,
            foreground,
            labels,
            dpi as int,
        ),
{
    let ghost before = shown(out@);
    let active = has_window(&b.windows, foreground);
    if active {
        fill(out, b.rect, COL_ACTIVE);
    } else if hovered {
        fill(out, b.rect, COL_HOVER);
    }
    draw_underline(out, b.rect, b.windows.len(), active, dpi);
    if labels {
        let size: i32 = scaled(16, dpi);
        let icon_y: i32 = (b.rect.top + b.rect.bottom - size) / 2;
        let mut text_left: i32 = b.rect.left + scaled(6, dpi);
        match b.icon {
            Some(icon) => {
                emit(out, Draw::Icon { icon, x: text_left, y: icon_y, size });
                text_left = text_left + (size + scaled(6, dpi));
            },
            None => {},
        }
        let tr = Rect {
            left: text_left,
            top: b.rect.top,
            right: b.rect.right - scaled(4, dpi),
            bottom: b.rect.bottom,
        };
        if tr.right > tr.left {
            label(out, Font::Text, COL_TEXT, b.title.as_str(), tr, LINE_ELLIPSIS);
        }
    } else {
        let size: i32 = scaled(24, dpi);
        let x: i32 = (b.rect.left + b.rect.right - size) / 2;
        let y: i32 = (b.rect.top + b.rect.bottom - size) / 2 - scaled(1, dpi);
        match b.icon {
            Some(icon) => {
                emit(out, Draw::Icon { icon, x, y, size });
            },
            None => {},
        }
    }
    assert(shown(out@) =~= before + button_draws(b@, hovered, foreground, labels, dpi as int));
}

impl Taskbar {
    /// Everything the taskbar draws, back to front.
    pub open spec fn painted(
        &self,
        foreground: u64,
        time: Seq<char>,
        date: Seq<char>,
        width: int,
        height: int,
        dpi: int,
    ) -> Seq<DrawView> {
        seq![DrawView::Fill { rect: rect(0, 0, width, height), color: COL_BG }] + start_draws(
            self.start_x as int,
            self.hover == Hit::Start,
            self.cfg.start_button_color,
            height,
            dpi,
        ) + buttons_draws(
            button_views(self.buttons@),
            self.buttons@.len() as int,
            self.hover,
            foreground,
            self.cfg.show_labels,
            dpi,
        ) + trays_draws(
            self.tray_icons@,
            self.tray_icons@.len() as int,
            self.hover,
            width,
            height,
            dpi,
        ) + clock_draws(time, date, width, height, dpi)
    }

    fn draw_task_buttons(&self, out: &mut Vec<Draw>, foreground: u64, dpi: i32)
        requires
            valid_dpi(dpi),
            self.wf(),
        ensures
            shown(final(out)@) == shown(old(out)@) + buttons_draws(
                button_views(self.buttons@),
                self.buttons@.len() as int,
                self.hover,
                foreground,
                self.cfg.show_labels,
                dpi as int,
            ),
    {
        let ghost before = shown(out@);
        let ghost v = button_views(self.buttons@);
        let ghost d = dpi as int;
        let ghost labels = self.cfg.show_labels;
        let mut i: usize = 0;
        assert(before + buttons_draws(v, 0, self.hover, foreground, labels, d) =~= before);
        while i < self.buttons.len()
            invariant
                i <= self.buttons.len(),
                valid_dpi(dpi),
                self.wf(),
                v == button_views(self.buttons@),
                d == dpi,
                labels == self.cfg.show_labels,
                shown(out@) == before + buttons_draws(
                    v,
                    i as int,
                    self.hover,
                    foreground,
                    labels,
                    d,
                ),
            decreases self.buttons.len() - i,
        {
            let b = &self.buttons[i];
            assert(v[i as int] == b@);
            let hovered = self.hover == Hit::Task(i);
            draw_button(out, b, hovered, foreground, self.cfg.show_labels, dpi);
            i = i + 1;
            assert(shown(out@) =~= before + buttons_draws(
                v,
                i as int,
                self.hover,
                foreground,
                labels,
                d,
            ));
        }
    }

    fn draw_tray(&self, out: &mut Vec<Draw>, width: i32, height: i32, dpi: i32)
        requires
            valid_dpi(dpi),
            near(height as int),
            self.tray_fits(width as int, dpi as int),
        ensures
            shown(final(out)@) == shown(old(out)@) + trays_draws(
                self.tray_icons@,
                self.tray_icons@.len() as int,
                self.hover,
                width as int,
                height as int,
                dpi as int,
            ),
    {
        let ghost before = shown(out@);
        let ghost d = dpi as int;
        let ghost w = width as int;
        let ghost h = height as int;
        let ghost icons = self.tray_icons@;
        let n: usize = self.tray_icons.len();
        let mut i: usize = 0;
        assert(before + trays_draws(icons, 0, self.hover, w, h, d) =~= before);
        while i < n
            invariant
                i <= n == self.tray_icons@.len(),
                valid_dpi(dpi),
                near(h),
                self.tray_fits(w, d),
                d == dpi,
                w == width,
                h == height,
                icons == self.tray_icons@,
                shown(out@) == before + trays_draws(icons, i as int, self.hover, w, h, d),
            decreases n - i,
        {
            let r = tray_icon_rect(i, n, width, height, dpi);
            let icon: u64 = self.tray_icons[i];
            let ghost so_far = shown(out@);
            if self.hover == Hit::TrayIcon(i) {
                fill(out, r, COL_HOVER);
            }
            if icon != 0 {
                let size: i32 = scaled(16, dpi);
                emit(
                    out,
                    Draw::Icon {
                        icon,
                        x: (r.left + r.right - size) / 2,
                        y: (r.top + r.bottom - size) / 2,
                        size,
                    },
                );
            }
            assert(shown(out@) =~= so_far + tray_draws(r, icon, self.hover == Hit::TrayIcon(i), d));
            i = i + 1;
            assert(shown(out@) =~= before + trays_draws(icons, i as int, self.hover, w, h, d));
        }
    }

    /// Draw the taskbar while `foreground` is the active window.
    pub fn paint(
        &self,
        foreground: u64,
        time: &str,
        date: &str,
        width: i32,
        height: i32,
        dpi: i32,
    ) -> (r: Vec<Draw>)
        requires
            self.wf(),
            self.tray_fits(width as int, dpi as int),
            0 <= height <= 0x1000_0000,
        ensures
            shown(r@) == self.painted(
                foreground,
                time@,
                date@,
                width as int,
                height as int,
                dpi as int,
            ),
    {
        let mut out: Vec<Draw> = Vec::new();
        assert(shown(out@) =~= seq![]);
        fill(&mut out, Rect { left: 0, top: 0, right: width, bottom: height }, COL_BG);
        let hover = self.hover == Hit::Start;
        draw_start_button(
            &mut out,
            self.start_x,
            hover,
            self.cfg.start_button_color,
            height,
            dpi,
        );
        self.draw_task_buttons(&mut out, foreground, dpi);
        self.draw_tray(&mut out, width, height, dpi);
        let rc = clock_rect(width, height, dpi);
        let half: i32 = height / 2;
        label(
            &mut out,
            Font::Text,
            COL_TEXT,
            time,
            Rect {
                left: rc.left,
                top: rc.top + scaled(3, dpi),
                right: rc.right - scaled(8, dpi),
                bottom: rc.top + half,
            },
            DT_SINGLELINE | DT_RIGHT | DT_BOTTOM,
        );
        label(
            &mut out,
            Font::Small,
            COL_TEXT_DIM,
            date,
            Rect {
                left: rc.left,
                top: half,
                right: rc.right - scaled(8, dpi),
                bottom: rc.bottom - scaled(3, dpi),
            },
            DT_SINGLELINE | DT_RIGHT,
        );
        assert(shown(out@) =~= self.painted(
            foreground,
            time@,
            date@,
            width as int,
            height as int,
            dpi as int,
        ));
        out
    }
}

} // verus!
