//! What the System Information window draws.

use vstd::prelude::*;
use vstd::string::*;
use crate::geometry::{clamp_i32, clamped, max2, max_i32, px, rect, scaled, valid_dpi, Rect};
use crate::paint::{
    emit, fill, label, label_if, shown, text_if, Draw, DrawView, Font, GLYPH_CENTER, LINE_ELLIPSIS,
    LINE_PLAIN,
};
use crate::sysinfo::rows::{
    build_rows, height_of, height_upto, lemma_height_upto, row_views, rows_fit, rows_height,
    section_rows, Row, RowView,
    HEAD_GAP, HEAD_H, ROW_H,
};
use crate::sysinfo::{
    close_button, close_rect, content_area, content_rect, glyph_of, nav_item, nav_rect,
    section_glyph, section_label, section_name, view_h, Hit, State, SysInfo, CLOSE, LABEL_W, NAV_W,
    SECTIONS, TITLE_H,
};
use crate::taskbar::{COL_ACTIVE, COL_BG, COL_HOVER, COL_TEXT, COL_TEXT_DIM};

verus! {

pub const GLYPH_CLOSE: &'static str = "\u{E8BB}";

pub const GLYPH_TITLE: &'static str = "\u{E946}";

/// The title bar: its ground, the accent glyph, the title, the close button.
pub open spec fn title_draws(accent: u32, hover: Hit, width: int, dpi: int) -> Seq<DrawView> {
    let h = px(TITLE_H as int, dpi);
    seq![
        DrawView::Fill { rect: rect(0, 0, width, h), color: COL_HOVER },
        DrawView::Text {
            font: Font::GlyphSmall,
            color: accent,
            text: GLYPH_TITLE@,
            rect: rect(px(10, dpi), 0, px(10, dpi) + px(18, dpi), h),
            flags: GLYPH_CENTER,
        },
        DrawView::Text {
            font: Font::Title,
            color: COL_TEXT,
            text: "System Information"@,
            rect: rect(px(34, dpi), 0, width - px(CLOSE as int, dpi), h),
            flags: LINE_PLAIN,
        },
        DrawView::Text {
            font: Font::GlyphSmall,
            color: if hover == Hit::Close {
                COL_TEXT
            } else {
                COL_TEXT_DIM
            },
            text: GLYPH_CLOSE@,
            rect: close_rect(dpi),
            flags: GLYPH_CENTER,
        },
    ]
}

/// Entry `i` of the navigation.
pub open spec fn nav_draws(i: int, accent: u32, section: int, hover: Hit, dpi: int) -> Seq<DrawView> {
    let r = nav_rect(i, dpi);
    let selected = i == section;
    (if selected {
        seq![
            DrawView::Round {
                rect: r,
                fill: COL_ACTIVE,
                edge: COL_ACTIVE,
                width: 1,
                radius: px(6, dpi) as i32,
            },
        ]
    } else if hover == Hit::Nav(i as usize) {
        seq![
            DrawView::Round {
                rect: r,
                fill: COL_HOVER,
                edge: COL_HOVER,
                width: 1,
                radius: px(6, dpi) as i32,
            },
        ]
    } else {
        seq![]
    }) + seq![
        DrawView::Text {
            font: Font::Glyph,
            color: if selected {
                accent
            } else {
                COL_TEXT_DIM
            },
            text: section_glyph(i),
            rect: rect(r.left + px(6, dpi), r.top as int, r.left + px(36, dpi), r.bottom as int),
            flags: GLYPH_CENTER,
        },
        DrawView::Text {
            font: Font::Small,
            color: if selected {
                COL_TEXT
            } else {
                COL_TEXT_DIM
            },
            text: section_name(i),
            rect: rect(r.left + px(40, dpi), r.top as int, r.right - px(6, dpi), r.bottom as int),
            flags: LINE_ELLIPSIS,
        },
    ]
}

/// The first `n` entries of the navigation.
pub open spec fn navs_upto(n: int, accent: u32, section: int, hover: Hit, dpi: int) -> Seq<DrawView>
    decreases n,
{
    if n <= 0 {
        seq![]
    } else {
        navs_upto(n - 1, accent, section, hover, dpi) + nav_draws(
            n - 1,
            accent,
            section,
            hover,
            dpi,
        )
    }
}

/// One row of content at height `y`.
pub open spec fn content_draws(r: RowView, y: int, accent: u32, dpi: int) -> Seq<DrawView> {
    let c = content_rect(dpi);
    match r {
        RowView::Head(t) => text_if(
            Font::Head,
            accent,
            t,
            rect(
                c.left as int,
                y + px(HEAD_GAP as int, dpi),
                c.right as int,
                y + px(HEAD_GAP as int, dpi) + px(HEAD_H as int, dpi),
            ),
            LINE_PLAIN,
        ),
        RowView::Kv(k, v) => text_if(
            Font::Text,
            COL_TEXT_DIM,
            k,
            rect(
                c.left as int,
                y,
                c.left + px(LABEL_W as int, dpi),
                y + px(ROW_H as int, dpi),
            ),
            LINE_ELLIPSIS,
        ) + text_if(
            Font::Text,
            COL_TEXT,
            v,
            rect(
                c.left + px(LABEL_W as int, dpi),
                y,
                c.right as int,
                y + px(ROW_H as int, dpi),
            ),
            LINE_ELLIPSIS,
        ),
        RowView::Gap => seq![],
    }
}

/// The first `n` rows of content, from height `y` down.
pub open spec fn contents_upto(v: Seq<RowView>, n: int, y: int, accent: u32, dpi: int) -> Seq<
    DrawView,
>
    decreases n,
{
    if n <= 0 {
        seq![]
    } else {
        contents_upto(v, n - 1, y, accent, dpi) + content_draws(
            v[n - 1],
            y + height_upto(v, n - 1, dpi),
            accent,
            dpi,
        )
    }
}

/// How far a section scrolls.
pub open spec fn scroll_limit(section: int, info: SysInfo, dpi: int) -> int {
    let v = section_rows(section, info);
    max2(height_upto(v, v.len() as int, dpi) - view_h(dpi), 0)
}

impl State {
    /// The scroll as it is drawn: within what the section allows.
    pub open spec fn shown_scroll(&self, dpi: int) -> int {
        match self.info {
            Some(info) => clamped(
                self.scroll as int,
                0,
                scroll_limit(self.section as int, info, dpi),
            ),
            None => self.scroll as int,
        }
    }

    /// The content: its rows, clipped and scrolled, or a note while it is gathered.
    pub open spec fn body_draws(&self, dpi: int) -> Seq<DrawView> {
        let c = content_rect(dpi);
        match self.info {
            None => seq![
                DrawView::Text {
                    font: Font::Text,
                    color: COL_TEXT_DIM,
                    text: "Gathering system information\u{2026}"@,
                    rect: c,
                    flags: GLYPH_CENTER,
                },
            ],
            Some(info) => {
                let v = section_rows(self.section as int, info);
                seq![DrawView::Clip { rect: c }] + contents_upto(
                    v,
                    v.len() as int,
                    c.top - self.shown_scroll(dpi),
                    self.accent,
                    dpi,
                ) + seq![DrawView::Unclip]
            },
        }
    }

    /// Everything the window draws, back to front.
    pub open spec fn painted(&self, ring: u32, width: int, height: int, dpi: int) -> Seq<DrawView> {
        let full = rect(0, 0, width, height);
        seq![DrawView::Fill { rect: full, color: COL_BG }] + title_draws(
            self.accent,
            self.hover,
            width,
            dpi,
        ) + navs_upto(SECTIONS as int, self.accent, self.section as int, self.hover, dpi) + seq![
            DrawView::Fill {
                rect: rect(
                    px(NAV_W as int, dpi),
                    px(TITLE_H as int, dpi),
                    px(NAV_W as int, dpi) + 1,
                    height,
                ),
                color: COL_HOVER,
            },
        ] + self.body_draws(dpi) + seq![
            DrawView::Outline { rect: full, edge: ring, width: 1, radius: px(16, dpi) as i32 },
        ]
    }

    fn draw_nav(&self, out: &mut Vec<Draw>, dpi: i32)
        requires
            self.wf(),
            valid_dpi(dpi),
        ensures
            shown(final(out)@) == shown(old(out)@) + navs_upto(
                SECTIONS as int,
                self.accent,
                self.section as int,
                self.hover,
                dpi as int,
            ),
    {
        let ghost before = shown(out@);
        let ghost d = dpi as int;
        let mut i: usize = 0;
        assert(before + navs_upto(0, self.accent, self.section as int, self.hover, d) =~= before);
        while i < SECTIONS
            invariant
                i <= SECTIONS,
                valid_dpi(dpi),
                d == dpi,
                shown(out@) == before + navs_upto(
                    i as int,
                    self.accent,
                    self.section as int,
                    self.hover,
                    d,
                ),
            decreases SECTIONS - i,
        {
            let r = nav_item(i, dpi);
            let selected = i == self.section;
            let hovered = self.hover == Hit::Nav(i);
            if selected {
                emit(
                    out,
                    Draw::Round {
                        rect: r,
                        fill: COL_ACTIVE,
                        edge: COL_ACTIVE,
                        width: 1,
                        radius: scaled(6, dpi),
                    },
                );
            } else if hovered {
                emit(
                    out,
                    Draw::Round {
                        rect: r,
                        fill: COL_HOVER,
                        edge: COL_HOVER,
                        width: 1,
                        radius: scaled(6, dpi),
                    },
                );
            }
            let (glyph_color, text_color) = if selected {
                (self.accent, COL_TEXT)
            } else {
                (COL_TEXT_DIM, COL_TEXT_DIM)
            };
            label(
                out,
                Font::Glyph,
                glyph_color,
                glyph_of(i),
                Rect {
                    left: r.left + scaled(6, dpi),
                    top: r.top,
                    right: r.left + scaled(36, dpi),
                    bottom: r.bottom,
                },
                GLYPH_CENTER,
            );
            label(
                out,
                Font::Small,
                text_color,
                section_label(i),
                Rect {
                    left: r.left + scaled(40, dpi),
                    top: r.top,
                    right: r.right - scaled(6, dpi),
                    bottom: r.bottom,
                },
                LINE_ELLIPSIS,
            );
            i = i + 1;
            assert(shown(out@) =~= before + navs_upto(
                i as int,
                self.accent,
                self.section as int,
                self.hover,
                d,
            ));
        }
    }

    /// Draw the window. The scroll is brought within what the section allows, and
    /// that limit is kept for the next turn of the wheel.
    pub fn paint(&mut self, ring: u32, width: i32, height: i32, dpi: i32) -> (r: Vec<Draw>)
        requires
            old(self).wf(),
            valid_dpi(dpi),
            old(self).fits(dpi as int),
            0 <= width <= 0x1000_0000,
            0 <= height <= 0x1000_0000,
        ensures
            final(self).wf(),
            shown(r@) == old(self).painted(ring, width as int, height as int, dpi as int),
            final(self).scroll == old(self).shown_scroll(dpi as int),
            final(self).content_h == match old(self).info {
                Some(info) => scroll_limit(old(self).section as int, info, dpi as int),
                None => old(self).content_h as int,
            },
            final(self).section == old(self).section,
            final(self).accent == old(self).accent,
            final(self).hover == old(self).hover,
            final(self).tracking == old(self).tracking,
            final(self).info == old(self).info,
    {
        let mut out: Vec<Draw> = Vec::new();
        assert(shown(out@) =~= seq![]);
        let full = Rect { left: 0, top: 0, right: width, bottom: height };
        fill(&mut out, full, COL_BG);
        let title_h: i32 = scaled(TITLE_H, dpi);
        fill(&mut out, Rect { left: 0, top: 0, right: width, bottom: title_h }, COL_HOVER);
        label(
            &mut out,
            Font::GlyphSmall,
            self.accent,
            GLYPH_TITLE,
            Rect {
                left: scaled(10, dpi),
                top: 0,
                right: scaled(10, dpi) + scaled(18, dpi),
                bottom: title_h,
            },
            GLYPH_CENTER,
        );
        label(
            &mut out,
            Font::Title,
            COL_TEXT,
            "System Information",
            Rect {
                left: scaled(34, dpi),
                top: 0,
                right: width - scaled(CLOSE, dpi),
                bottom: title_h,
            },
            LINE_PLAIN,
        );
        label(
            &mut out,
            Font::GlyphSmall,
            if self.hover == Hit::Close {
                COL_TEXT
            } else {
                COL_TEXT_DIM
            },
            GLYPH_CLOSE,
            close_button(dpi),
            GLYPH_CENTER,
        );
        self.draw_nav(&mut out, dpi);
        let sep: i32 = scaled(NAV_W, dpi);
        fill(
            &mut out,
            Rect { left: sep, top: title_h, right: sep + 1, bottom: height },
            COL_HOVER,
        );
        let ghost head = shown(out@);
        self.draw_body(&mut out, dpi);
        emit(
            &mut out,
            Draw::Outline { rect: full, edge: ring, width: 1, radius: scaled(16, dpi) },
        );
        assert(shown(out@) =~= old(self).painted(ring, width as int, height as int, dpi as int));
        out
    }

    fn draw_body(&mut self, out: &mut Vec<Draw>, dpi: i32)
        requires
            old(self).wf(),
            valid_dpi(dpi),
            old(self).fits(dpi as int),
        ensures
            final(self).wf(),
            shown(final(out)@) == shown(old(out)@) + old(self).body_draws(dpi as int),
            final(self).scroll == old(self).shown_scroll(dpi as int),
            final(self).content_h == match old(self).info {
                Some(info) => scroll_limit(old(self).section as int, info, dpi as int),
                None => old(self).content_h as int,
            },
            final(self).section == old(self).section,
            final(self).accent == old(self).accent,
            final(self).hover == old(self).hover,
            final(self).tracking == old(self).tracking,
            final(self).info == old(self).info,
    {
        let ghost before = shown(out@);
        let c = content_area(dpi);
        let ghost d = dpi as int;
        match &self.info {
            None => {
                label(
                    out,
                    Font::Text,
                    COL_TEXT_DIM,
                    "Gathering system information\u{2026}",
                    c,
                    GLYPH_CENTER,
                );
                assert(shown(out@) =~= before + self.body_draws(d));
            },
            Some(info) => {
                let rows = build_rows(self.section, info);
                let ghost v = row_views(rows@);
                proof {
                    assert(v.len() == rows@.len());
                    assert(rows_fit(v, d));
                }
                let total: i32 = rows_height(&rows, dpi);
                let max: i32 = max_i32(total - (c.bottom - c.top), 0);
                let scroll: i32 = clamp_i32(self.scroll, 0, max);
                let accent: u32 = self.accent;
                emit(out, Draw::Clip { rect: c });
                let ghost clipped = shown(out@);
                let ghost top = c.top - scroll;
                let mut y: i32 = c.top - scroll;
                let mut i: usize = 0;
                assert(clipped + contents_upto(v, 0, top, accent, d) =~= clipped);
                while i < rows.len()
                    invariant
                        i <= rows.len() == v.len(),
                        rows_fit(v, d),
                        valid_dpi(dpi),
                        d == dpi,
                        v == row_views(rows@),
                        c == content_rect(d),
                        -0x0010_0000 <= c.left <= 0x0010_0000,
                        -0x1d00_0000 <= top <= 0x0010_0000,
                        y == top + height_upto(v, i as int, d),
                        0 <= height_upto(v, i as int, d) <= 0x1b00_0000,
                        shown(out@) == clipped + contents_upto(v, i as int, top, accent, d),
                    decreases rows.len() - i,
                {
                    let row = &rows[i];
                    assert(v[i as int] == row@);
                    proof {
                        lemma_height_upto(v, i + 1, v.len() as int, d);
                    }
                    let ghost so_far = shown(out@);
                    match row {
                        Row::Head(t) => {
                            let at: i32 = y + scaled(HEAD_GAP, dpi);
                            label_if(
                                out,
                                Font::Head,
                                accent,
                                t.as_str(),
                                Rect {
                                    left: c.left,
                                    top: at,
                                    right: c.right,
                                    bottom: at + scaled(HEAD_H, dpi),
                                },
                                LINE_PLAIN,
                            );
                        },
                        Row::Kv(k, t) => {
                            let mid: i32 = c.left + scaled(LABEL_W, dpi);
                            let bottom: i32 = y + scaled(ROW_H, dpi);
                            label_if(
                                out,
                                Font::Text,
                                COL_TEXT_DIM,
                                k.as_str(),
                                Rect { left: c.left, top: y, right: mid, bottom },
                                LINE_ELLIPSIS,
                            );
                            label_if(
                                out,
                                Font::Text,
                                COL_TEXT,
                                t.as_str(),
                                Rect { left: mid, top: y, right: c.right, bottom },
                                LINE_ELLIPSIS,
                            );
                        },
                        Row::Gap => {},
                    }
                    assert(shown(out@) =~= so_far + content_draws(row@, y as int, accent, d));
                    y = y + height_of(row, dpi);
                    i = i + 1;
                    assert(shown(out@) =~= clipped + contents_upto(v, i as int, top, accent, d));
                }
                emit(out, Draw::Unclip);
                assert(shown(out@) =~= before + self.body_draws(d));
                self.scroll = scroll;
                self.content_h = max;
            },
        }
    }
}

/// A section scrolls until its last row is at the bottom of the view, and no further;
/// one that fits does not scroll, and what is drawn is never scrolled further.
pub proof fn a_section_scrolls_to_its_end(s: State, info: SysInfo, dpi: int)
    requires
        s.info == Some(info),
    ensures
        ({
            let v = section_rows(s.section as int, info);
            let h = height_upto(v, v.len() as int, dpi);
            let limit = scroll_limit(s.section as int, info, dpi);
            &&& h <= view_h(dpi) ==> limit == 0
            &&& h > view_h(dpi) ==> limit == h - view_h(dpi)
            &&& 0 <= s.shown_scroll(dpi) <= limit
            &&& 0 <= s.scroll <= limit ==> s.shown_scroll(dpi) == s.scroll
        }),
{
}

} // verus!
