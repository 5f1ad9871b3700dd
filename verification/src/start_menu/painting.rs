//! What the start menu draws.

use vstd::prelude::*;
use vstd::string::*;
use crate::geometry::{max2, px, rect, scaled, toward_zero, Rect};
use crate::paint::{
    emit, fill, label, shown, Draw, DrawView, Font, LINE, LINE_CENTER, LINE_CUT, LINE_ELLIPSIS,
    LINE_RIGHT,
};
use crate::start_menu::items::{Item, ItemKind, ItemView};
use crate::start_menu::{
    avatar_x, lemma_rows_fit, usable_dpi, Hit, MenuState, RightView, AVATAR, GLYPH_PERSON, OVERHANG, RIGHT_ROW,
    RIGHT_W, ROW,
};
use crate::taskbar::{COL_ACCENT, COL_BG, COL_HOVER, COL_TEXT, COL_TEXT_DIM};
use crate::text::chars_of;

verus! {

// Extra colors for the menu (0x00BBGGRR).
pub const COL_FOOTER: u32 = 0x00191818;

pub const COL_SEP: u32 = 0x00343232;

pub const COL_SEARCH_BG: u32 = 0x00121111;

pub const COL_AVATAR_BG: u32 = 0x003F3D3C;

pub const COL_RING: u32 = 0x00121111;

pub const GLYPH_POWER: &'static str = "\u{E7E8}";

pub const GLYPH_SEARCH: &'static str = "\u{E721}";

pub const GLYPH_CHEVRON: &'static str = "\u{E76C}";

pub const GLYPH_CHEVRON_LEFT: &'static str = "\u{E76B}";

pub open spec fn text_draw(
    font: Font,
    color: u32,
    text: Seq<char>,
    r: Rect,
    flags: u32,
) -> DrawView {
    DrawView::Text { font, color, text, rect: r, flags }
}

/// One row of the list, `row` pixels high at `top`: its highlight, its icon, its
/// name, and a chevron behind a folder's.
pub open spec fn row_draws(
    it: ItemView,
    top: int,
    row: int,
    pane_x: int,
    hovered: bool,
    dpi: int,
) -> Seq<DrawView> {
    let size = px(22, dpi);
    (if hovered {
        seq![
            DrawView::Fill {
                rect: rect(px(6, dpi), top, pane_x - px(4, dpi), top + row),
                color: COL_HOVER,
            },
        ]
    } else {
        seq![]
    }) + (match it.icon {
        Some(icon) => seq![
            DrawView::Icon {
                icon,
                x: px(14, dpi) as i32,
                y: (top + toward_zero(row - size, 2)) as i32,
                size: size as i32,
            },
        ],
        None => seq![],
    }) + seq![
        text_draw(
            Font::Text,
            if it.kind is Back {
                COL_TEXT_DIM
            } else {
                COL_TEXT
            },
            it.name,
            rect(px(14, dpi) + px(32, dpi), top, pane_x - px(24, dpi), top + row),
            LINE_ELLIPSIS,
        ),
    ] + (if it.kind is Folder {
        seq![
            text_draw(
                Font::Glyph,
                COL_TEXT_DIM,
                GLYPH_CHEVRON@,
                rect(pane_x - px(26, dpi), top, pane_x - px(10, dpi), top + row),
                LINE_RIGHT,
            ),
        ]
    } else {
        seq![]
    })
}

/// One link of the right pane.
pub open spec fn link_draws(
    it: RightView,
    top: int,
    row: int,
    left: int,
    width: int,
    hovered: bool,
    dpi: int,
) -> Seq<DrawView> {
    (if hovered {
        seq![
            DrawView::Fill {
                rect: rect(left, top, width - px(8, dpi), top + row),
                color: COL_HOVER,
            },
        ]
    } else {
        seq![]
    }) + seq![
        text_draw(
            Font::Glyph,
            COL_TEXT,
            it.glyph,
            rect(left + px(8, dpi), top, left + px(30, dpi), top + row),
            LINE,
        ),
        text_draw(
            Font::Text,
            COL_TEXT,
            it.label,
            rect(left + px(38, dpi), top, width - px(10, dpi), top + row),
            LINE_ELLIPSIS,
        ),
    ]
}

fn draw_row(
    out: &mut Vec<Draw>,
    it: &Item,
    top: i32,
    row: i32,
    pane_x: i32,
    hovered: bool,
    dpi: i32,
)
    requires
        usable_dpi(dpi),
        -0x2000_0000 <= top <= 0x2000_0000,
        0 <= row <= 11628,
        -0x2000_0000 <= pane_x <= 0x2000_0000,
    ensures
        shown(final(out)@) == shown(old(out)@) + row_draws(
            it@,
            top as int,
            row as int,
            pane_x as int,
            hovered,
            dpi as int,
        ),
{
    let ghost before = shown(out@);
    if hovered {
        fill(
            out,
            Rect {
                left: scaled(6, dpi),
                top,
                right: pane_x - scaled(4, dpi),
                bottom: top + row,
            },
            COL_HOVER,
        );
    }
    let text_left: i32 = scaled(14, dpi);
    match it.icon {
        Some(icon) => {
            let size: i32 = scaled(22, dpi);
            emit(out, Draw::Icon { icon, x: text_left, y: top + (row - size) / 2, size });
        },
        None => {},
    }
    let (color, is_folder) = match &it.kind {
        ItemKind::Back => (COL_TEXT_DIM, false),
        ItemKind::Folder(_) => (COL_TEXT, true),
        ItemKind::Launch(_) => (COL_TEXT, false),
    };
    label(
        out,
        Font::Text,
        color,
        it.name.as_str(),
        Rect {
            left: text_left + scaled(32, dpi),
            top,
            right: pane_x - scaled(24, dpi),
            bottom: top + row,
        },
        LINE_ELLIPSIS,
    );
    if is_folder {
        label(
            out,
            Font::Glyph,
            COL_TEXT_DIM,
            GLYPH_CHEVRON,
            Rect {
                left: pane_x - scaled(26, dpi),
                top,
                right: pane_x - scaled(10, dpi),
                bottom: top + row,
            },
            LINE_RIGHT,
        );
    }
    assert(shown(out@) =~= before + row_draws(
        it@,
        top as int,
        row as int,
        pane_x as int,
        hovered,
        dpi as int,
    ));
}

impl MenuState {
    /// The first `n` rows of the list: those that reach into it are drawn.
    pub open spec fn rows_upto(&self, n: int, dpi: int) -> Seq<DrawView>
        decreases n,
    {
        if n <= 0 {
            seq![]
        } else {
            let row = px(ROW as int, dpi);
            let lt = Self::list_y(dpi);
            let top = lt + (n - 1) * row - self.scroll;
            self.rows_upto(n - 1, dpi) + (if top + row < lt || top >= lt + self.list_h(dpi) {
                seq![]
            } else {
                row_draws(
                    self.items@[n - 1]@,
                    top,
                    row,
                    self.pane_x(dpi),
                    self.hover == Hit::Row((n - 1) as usize),
                    dpi,
                )
            })
        }
    }

    /// Glyph and label of the row below the list: it flips between the pinned view
    /// and the full list where there are pins.
    pub open spec fn all_programs_label(&self) -> (Seq<char>, Seq<char>) {
        if self.shows_pins() {
            (GLYPH_CHEVRON@, "All apps"@)
        } else if self.pinned@.len() > 0 {
            (GLYPH_CHEVRON_LEFT@, "Pinned"@)
        } else {
            (GLYPH_CHEVRON@, "All Programs"@)
        }
    }

    /// The left pane: the clipped list, then the All Programs row between its
    /// separators.
    pub open spec fn left_draws(&self, dpi: int) -> Seq<DrawView> {
        let lx = self.pane_x(dpi);
        let lt = Self::list_y(dpi);
        let row = px(ROW as int, dpi);
        let at = self.allprog_y(dpi);
        let ap_top = at + px(2, dpi);
        let ap_bottom = self.footer_y(dpi) - px(2, dpi);
        seq![DrawView::Clip { rect: rect(px(6, dpi), lt, lx, lt + self.list_h(dpi)) }]
            + self.rows_upto(self.items@.len() as int, dpi) + (if self.items@.len() == 0
            && self.query@.len() > 0 {
            seq![
                text_draw(
                    Font::Text,
                    COL_TEXT_DIM,
                    "No results"@,
                    rect(px(16, dpi), lt, lx, lt + row),
                    LINE,
                ),
            ]
        } else {
            seq![]
        }) + seq![
            DrawView::Unclip,
            DrawView::Fill {
                rect: rect(px(12, dpi), at, lx - px(8, dpi), at + 1),
                color: COL_SEP,
            },
        ] + (if self.hover == Hit::AllPrograms {
            seq![
                DrawView::Fill {
                    rect: rect(px(6, dpi), ap_top, lx - px(4, dpi), ap_bottom),
                    color: COL_HOVER,
                },
            ]
        } else {
            seq![]
        }) + seq![
            text_draw(
                Font::Glyph,
                COL_TEXT,
                self.all_programs_label().0,
                rect(px(16, dpi), ap_top, px(36, dpi), ap_bottom),
                LINE,
            ),
            text_draw(
                Font::Text,
                COL_TEXT,
                self.all_programs_label().1,
                rect(px(46, dpi), ap_top, lx - px(8, dpi), ap_bottom),
                LINE,
            ),
            DrawView::Fill {
                rect: rect(
                    lx,
                    px(OVERHANG as int, dpi) + px(10, dpi),
                    lx + 1,
                    self.footer_y(dpi) - px(6, dpi),
                ),
                color: COL_SEP,
            },
        ]
    }

    /// The first `n` links of the right pane.
    pub open spec fn links_upto(&self, n: int, dpi: int) -> Seq<DrawView>
        decreases n,
    {
        if n <= 0 {
            seq![]
        } else {
            let row = px(RIGHT_ROW as int, dpi);
            self.links_upto(n - 1, dpi) + link_draws(
                self.rights@[n - 1]@,
                Self::links_y(dpi) + (n - 1) * row,
                row,
                self.pane_x(dpi) + px(8, dpi),
                self.width as int,
                self.hover == Hit::Right((n - 1) as usize),
                dpi,
            )
        }
    }

    /// The footer: the search box with its query or a hint, and the power controls.
    pub open spec fn footer_draws(&self, dpi: int) -> Seq<DrawView> {
        let sb = self.search_rect(dpi);
        let sd = self.power_rect(dpi);
        let cv = self.chevron_rect(dpi);
        let focused = self.hover == Hit::Search;
        seq![
            DrawView::Round {
                rect: sb,
                fill: COL_SEARCH_BG,
                edge: if focused {
                    COL_ACCENT
                } else {
                    COL_SEP
                },
                width: if focused {
                    max2(px(1, dpi), 1) as i32
                } else {
                    1
                },
                radius: (sb.bottom - sb.top) as i32,
            },
            text_draw(
                Font::Glyph,
                COL_TEXT_DIM,
                GLYPH_SEARCH@,
                rect(
                    sb.left + px(10, dpi),
                    sb.top as int,
                    sb.left + px(28, dpi),
                    sb.bottom as int,
                ),
                LINE,
            ),
            text_draw(
                Font::Small,
                if self.query@.len() == 0 {
                    COL_TEXT_DIM
                } else {
                    COL_TEXT
                },
                if self.query@.len() == 0 {
                    "Search programs and files"@
                } else {
                    self.query@
                },
                rect(
                    sb.left + px(34, dpi),
                    sb.top as int,
                    sb.right - px(10, dpi),
                    sb.bottom as int,
                ),
                LINE_CUT,
            ),
        ] + (if self.hover == Hit::Shutdown {
            seq![DrawView::Fill { rect: sd, color: COL_HOVER }]
        } else {
            seq![]
        }) + seq![
            text_draw(
                Font::Glyph,
                COL_TEXT,
                GLYPH_POWER@,
                rect(
                    sd.left + px(6, dpi),
                    sd.top as int,
                    sd.left + px(26, dpi),
                    sd.bottom as int,
                ),
                LINE,
            ),
            text_draw(
                Font::Text,
                COL_TEXT,
                "Shut down"@,
                rect(sd.left + px(32, dpi), sd.top as int, sd.right as int, sd.bottom as int),
                LINE,
            ),
        ] + (if self.hover == Hit::ShutdownMenu {
            seq![DrawView::Fill { rect: cv, color: COL_HOVER }]
        } else {
            seq![]
        }) + seq![text_draw(Font::Glyph, COL_TEXT_DIM, GLYPH_CHEVRON@, cv, LINE_CENTER)]
    }

    /// The user picture in its circle, or a glyph in its place, inside a ring.
    pub open spec fn avatar_draws(&self, dpi: int) -> Seq<DrawView> {
        let d = px(AVATAR as int, dpi);
        let x = avatar_x(self.width as int, dpi) - d / 2;
        let r = rect(x, 0, x + d, d);
        seq![DrawView::ClipEllipse { rect: rect(x, 0, x + d + 1, d + 1) }] + (match self.avatar {
            Some(bitmap) => seq![
                DrawView::Image { bitmap, x: x as i32, y: 0, width: d as i32, height: d as i32 },
            ],
            None => seq![
                DrawView::Fill { rect: r, color: COL_AVATAR_BG },
                text_draw(Font::GlyphBig, COL_TEXT_DIM, GLYPH_PERSON@, r, LINE_CENTER),
            ],
        }) + seq![
            DrawView::Unclip,
            DrawView::Ring { rect: r, edge: COL_RING, width: px(3, dpi) as i32 },
        ]
    }

    /// Everything the menu draws, back to front.
    pub open spec fn painted(&self, dpi: int) -> Seq<DrawView> {
        seq![
            DrawView::Fill {
                rect: rect(0, 0, self.width as int, self.height as int),
                color: COL_BG,
            },
            DrawView::Fill {
                rect: rect(0, self.footer_y(dpi), self.width as int, self.height as int),
                color: COL_FOOTER,
            },
        ] + self.left_draws(dpi) + self.links_upto(self.rights@.len() as int, dpi)
            + self.footer_draws(dpi) + self.avatar_draws(dpi)
    }

    fn draw_rows(&self, out: &mut Vec<Draw>, dpi: i32)
        requires
            self.wf(dpi),
        ensures
            shown(final(out)@) == shown(old(out)@) + self.rows_upto(
                self.items@.len() as int,
                dpi as int,
            ),
    {
        let ghost before = shown(out@);
        let ghost d = dpi as int;
        proof {
            self.lemma_metrics(dpi);
        }
        let pane_x: i32 = self.left_pane_right(dpi);
        let row: i32 = scaled(ROW, dpi);
        let lt: i32 = Self::list_top(dpi);
        let lh: i32 = self.list_height(dpi);
        let mut i: usize = 0;
        assert(before + self.rows_upto(0, d) =~= before);
        while i < self.items.len()
            invariant
                i <= self.items.len(),
                self.wf(dpi),
                d == dpi,
                row == px(ROW as int, d),
                1 <= row <= 11628,
                lt == Self::list_y(d),
                0 <= lt <= 0x4000,
                lh == self.list_h(d),
                -0x1020_0000 <= lh <= self.height,
                pane_x == self.pane_x(d),
                -0x1010_0000 <= pane_x <= self.width,
                self.scroll <= 0x2100_0000,
                shown(out@) == before + self.rows_upto(i as int, d),
            decreases self.items.len() - i,
        {
            proof {
                lemma_rows_fit(i as int, self.items@.len() as int, ROW as int, d);
            }
            let top: i32 = lt + i as i32 * row - self.scroll;
            if !(top + row < lt || top >= lt + lh) {
                let hovered = self.hover == Hit::Row(i);
                draw_row(out, &self.items[i], top, row, pane_x, hovered, dpi);
            }
            i = i + 1;
            assert(shown(out@) =~= before + self.rows_upto(i as int, d));
        }
    }

    #[verifier::rlimit(60)]
    fn draw_left_pane(&self, out: &mut Vec<Draw>, dpi: i32)
        requires
            self.wf(dpi),
        ensures
            shown(final(out)@) == shown(old(out)@) + self.left_draws(dpi as int),
    {
        let ghost before = shown(out@);
        proof {
            self.lemma_metrics(dpi);
        }
        let lx: i32 = self.left_pane_right(dpi);
        let row: i32 = scaled(ROW, dpi);
        let lt: i32 = Self::list_top(dpi);
        let lh: i32 = self.list_height(dpi);
        emit(
            out,
            Draw::Clip {
                rect: Rect { left: scaled(6, dpi), top: lt, right: lx, bottom: lt + lh },
            },
        );
        self.draw_rows(out, dpi);
        if self.items.len() == 0 && chars_of(self.query.as_str()).len() > 0 {
            label(
                out,
                Font::Text,
                COL_TEXT_DIM,
                "No results",
                Rect { left: scaled(16, dpi), top: lt, right: lx, bottom: lt + row },
                LINE,
            );
        }
        emit(out, Draw::Unclip);
        let at: i32 = self.allprog_top(dpi);
        fill(
            out,
            Rect { left: scaled(12, dpi), top: at, right: lx - scaled(8, dpi), bottom: at + 1 },
            COL_SEP,
        );
        let ap = Rect {
            left: scaled(6, dpi),
            top: at + scaled(2, dpi),
            right: lx - scaled(4, dpi),
            bottom: self.footer_top(dpi) - scaled(2, dpi),
        };
        if self.hover == Hit::AllPrograms {
            fill(out, ap, COL_HOVER);
        }
        let (glyph, text) = if self.pinned_view() {
            (GLYPH_CHEVRON, "All apps")
        } else if self.pinned.len() > 0 {
            (GLYPH_CHEVRON_LEFT, "Pinned")
        } else {
            (GLYPH_CHEVRON, "All Programs")
        };
        label(
            out,
            Font::Glyph,
            COL_TEXT,
            glyph,
            Rect { left: scaled(16, dpi), top: ap.top, right: scaled(36, dpi), bottom: ap.bottom },
            LINE,
        );
        label(
            out,
            Font::Text,
            COL_TEXT,
            text,
            Rect {
                left: scaled(46, dpi),
                top: ap.top,
                right: lx - scaled(8, dpi),
                bottom: ap.bottom,
            },
            LINE,
        );
        fill(
            out,
            Rect {
                left: lx,
                top: scaled(OVERHANG, dpi) + scaled(10, dpi),
                right: lx + 1,
                bottom: self.footer_top(dpi) - scaled(6, dpi),
            },
            COL_SEP,
        );
        assert(shown(out@) =~= before + self.left_draws(dpi as int));
    }

    fn draw_right_pane(&self, out: &mut Vec<Draw>, dpi: i32)
        requires
            self.wf(dpi),
        ensures
            shown(final(out)@) == shown(old(out)@) + self.links_upto(
                self.rights@.len() as int,
                dpi as int,
            ),
    {
        let ghost before = shown(out@);
        let ghost d = dpi as int;
        proof {
            self.lemma_metrics(dpi);
        }
        let left: i32 = self.left_pane_right(dpi) + scaled(8, dpi);
        let row: i32 = scaled(RIGHT_ROW, dpi);
        let rt: i32 = Self::right_rows_top(dpi);
        let mut i: usize = 0;
        assert(before + self.links_upto(0, d) =~= before);
        while i < self.rights.len()
            invariant
                i <= self.rights.len(),
                self.wf(dpi),
                d == dpi,
                row == px(RIGHT_ROW as int, d),
                1 <= row <= 12996,
                rt == Self::links_y(d),
                0 <= rt <= 0x8000,
                left == self.pane_x(d) + px(8, d),
                -0x1010_0000 <= left <= 0x1001_0000,
                shown(out@) == before + self.links_upto(i as int, d),
            decreases self.rights.len() - i,
        {
            proof {
                lemma_rows_fit(i as int, self.rights@.len() as int, RIGHT_ROW as int, d);
            }
            let top: i32 = rt + i as i32 * row;
            let it = &self.rights[i];
            let ghost so_far = shown(out@);
            let hovered = self.hover == Hit::Right(i);
            if hovered {
                fill(
                    out,
                    Rect { left, top, right: self.width - scaled(8, dpi), bottom: top + row },
                    COL_HOVER,
                );
            }
            label(
                out,
                Font::Glyph,
                COL_TEXT,
                it.glyph.as_str(),
                Rect {
                    left: left + scaled(8, dpi),
                    top,
                    right: left + scaled(30, dpi),
                    bottom: top + row,
                },
                LINE,
            );
            label(
                out,
                Font::Text,
                COL_TEXT,
                it.label.as_str(),
                Rect {
                    left: left + scaled(38, dpi),
                    top,
                    right: self.width - scaled(10, dpi),
                    bottom: top + row,
                },
                LINE_ELLIPSIS,
            );
            assert(shown(out@) =~= so_far + link_draws(
                it@,
                top as int,
                row as int,
                left as int,
                self.width as int,
                hovered,
                d,
            ));
            i = i + 1;
            assert(shown(out@) =~= before + self.links_upto(i as int, d));
        }
    }

    fn draw_footer(&self, out: &mut Vec<Draw>, dpi: i32)
        requires
            self.wf(dpi),
        ensures
            shown(final(out)@) == shown(old(out)@) + self.footer_draws(dpi as int),
    {
        let ghost before = shown(out@);
        proof {
            self.lemma_metrics(dpi);
        }
        let sb = self.search_box_rect(dpi);
        let focused = self.hover == Hit::Search;
        let one: i32 = scaled(1, dpi);
        emit(
            out,
            Draw::Round {
                rect: sb,
                fill: COL_SEARCH_BG,
                edge: if focused {
                    COL_ACCENT
                } else {
                    COL_SEP
                },
                width: if focused && one >= 1 {
                    one
                } else {
                    1
                },
                radius: sb.bottom - sb.top,
            },
        );
        label(
            out,
            Font::Glyph,
            COL_TEXT_DIM,
            GLYPH_SEARCH,
            Rect {
                left: sb.left + scaled(10, dpi),
                top: sb.top,
                right: sb.left + scaled(28, dpi),
                bottom: sb.bottom,
            },
            LINE,
        );
        let blank = chars_of(self.query.as_str()).len() == 0;
        label(
            out,
            Font::Small,
            if blank {
                COL_TEXT_DIM
            } else {
                COL_TEXT
            },
            if blank {
                "Search programs and files"
            } else {
                self.query.as_str()
            },
            Rect {
                left: sb.left + scaled(34, dpi),
                top: sb.top,
                right: sb.right - scaled(10, dpi),
                bottom: sb.bottom,
            },
            LINE_CUT,
        );
        let sd = self.shutdown_rect(dpi);
        if self.hover == Hit::Shutdown {
            fill(out, sd, COL_HOVER);
        }
        label(
            out,
            Font::Glyph,
            COL_TEXT,
            GLYPH_POWER,
            Rect {
                left: sd.left + scaled(6, dpi),
                top: sd.top,
                right: sd.left + scaled(26, dpi),
                bottom: sd.bottom,
            },
            LINE,
        );
        label(
            out,
            Font::Text,
            COL_TEXT,
            "Shut down",
            Rect {
                left: sd.left + scaled(32, dpi),
                top: sd.top,
                right: sd.right,
                bottom: sd.bottom,
            },
            LINE,
        );
        let cv = self.shutdown_chevron_rect(dpi);
        if self.hover == Hit::ShutdownMenu {
            fill(out, cv, COL_HOVER);
        }
        label(out, Font::Glyph, COL_TEXT_DIM, GLYPH_CHEVRON, cv, LINE_CENTER);
        assert(shown(out@) =~= before + self.footer_draws(dpi as int));
    }

    fn draw_avatar(&self, out: &mut Vec<Draw>, dpi: i32)
        requires
            self.wf(dpi),
        ensures
            shown(final(out)@) == shown(old(out)@) + self.avatar_draws(dpi as int),
    {
        let ghost before = shown(out@);
        let d: i32 = scaled(AVATAR, dpi);
        let cx: i32 = self.width - scaled(RIGHT_W, dpi) / 2 - scaled(10, dpi);
        let x: i32 = cx - d / 2;
        let r = Rect { left: x, top: 0, right: x + d, bottom: d };
        emit(
            out,
            Draw::ClipEllipse { rect: Rect { left: x, top: 0, right: x + d + 1, bottom: d + 1 } },
        );
        match self.avatar {
            Some(bitmap) => {
                emit(out, Draw::Image { bitmap, x, y: 0, width: d, height: d });
            },
            None => {
                fill(out, r, COL_AVATAR_BG);
                label(out, Font::GlyphBig, COL_TEXT_DIM, GLYPH_PERSON, r, LINE_CENTER);
            },
        }
        emit(out, Draw::Unclip);
        emit(out, Draw::Ring { rect: r, edge: COL_RING, width: scaled(3, dpi) });
        assert(shown(out@) =~= before + self.avatar_draws(dpi as int));
    }

    /// Draw the menu.
    pub fn paint(&self, dpi: i32) -> (r: Vec<Draw>)
        requires
            self.wf(dpi),
        ensures
            shown(r@) == self.painted(dpi as int),
    {
        let mut out: Vec<Draw> = Vec::new();
        assert(shown(out@) =~= seq![]);
        fill(
            &mut out,
            Rect { left: 0, top: 0, right: self.width, bottom: self.height },
            COL_BG,
        );
        fill(
            &mut out,
            Rect { left: 0, top: self.footer_top(dpi), right: self.width, bottom: self.height },
            COL_FOOTER,
        );
        self.draw_left_pane(&mut out, dpi);
        self.draw_right_pane(&mut out, dpi);
        self.draw_footer(&mut out, dpi);
        self.draw_avatar(&mut out, dpi);
        assert(shown(out@) =~= self.painted(dpi as int));
        out
    }
}

} // verus!
