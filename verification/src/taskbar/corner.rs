//! The bar's right corner: the network status glyph next to the clock, and the
//! show-desktop button at the very edge. Both stand in the clock's own strip, where
//! no button and no tray icon reaches.

use vstd::prelude::*;
use vstd::string::*;
use crate::geometry::{near, px, rect, scaled, lemma_px, valid_dpi, Rect};
use crate::network::{poll, status_of, Adapter, NetStatus};
use crate::paint::{fill, label, shown, Draw, DrawView, Font, GLYPH_CENTER};
use crate::taskbar::{clock_left, clock_rect, tray_left, Hit, COL_HOVER, COL_TEXT, COL_TEXT_DIM, TRAY_SLOT};

verus! {

/// Width of the network glyph (unscaled).
pub const NETWORK_W: i32 = 18;

/// Width of the show-desktop button (unscaled).
pub const DESKTOP_W: i32 = 6;

/// A part of the corner.
#[derive(Clone, Copy, PartialEq, Eq, Structural, Debug)]
pub enum Part {
    Nothing,
    Network,
    ShowDesktop,
}

/// What a click on the corner comes to.
#[derive(Clone, Copy, PartialEq, Eq, Structural, Debug)]
pub enum CornerClick {
    /// It is not the corner's.
    Nothing,
    /// The wifi flyout opens or closes.
    Flyout,
    /// The full Network Settings window opens.
    NetworkSettings,
    /// All windows are minimized, or come back.
    ShowDesktop,
}

/// The corner's state.
pub struct Corner {
    /// `ShowNetworkIcon`.
    pub show_network: bool,
    pub status: NetStatus,
    pub hover: Part,
    pub pressed: Part,
}

pub open spec fn network_place(width: int, height: int, dpi: int) -> Rect {
    let left = clock_left(width, dpi);
    rect(left, 0, left + px(NETWORK_W as int, dpi), height)
}

pub open spec fn desktop_place(width: int, height: int, dpi: int) -> Rect {
    rect(width - px(DESKTOP_W as int, dpi), 0, width, height)
}

/// The part of the corner at `x`, where the rest of the bar has `hit` there: what
/// the bar has comes first.
pub open spec fn part_at(show_network: bool, hit: Hit, x: int, width: int, dpi: int) -> Part {
    if hit != Hit::Nothing {
        Part::Nothing
    } else if width - px(DESKTOP_W as int, dpi) <= x < width {
        Part::ShowDesktop
    } else if show_network && clock_left(width, dpi) <= x < clock_left(width, dpi) + px(
        NETWORK_W as int,
        dpi,
    ) {
        Part::Network
    } else {
        Part::Nothing
    }
}

/// A left click counts where the button went down and came up on the same part.
pub open spec fn left_click(pressed: Part, part: Part) -> CornerClick {
    if part != pressed {
        CornerClick::Nothing
    } else {
        match part {
            Part::Nothing => CornerClick::Nothing,
            Part::Network => CornerClick::Flyout,
            Part::ShowDesktop => CornerClick::ShowDesktop,
        }
    }
}

/// The glyph that stands for a status.
pub open spec fn status_glyph(status: NetStatus) -> Seq<char> {
    match status {
        NetStatus::Disconnected => seq!['\u{E774}'],
        NetStatus::Wifi => seq!['\u{E701}'],
        NetStatus::Ethernet => seq!['\u{E839}'],
    }
}

fn glyph_text(status: NetStatus) -> (r: String)
    ensures
        r@ == status_glyph(status),
{
    let mut s = String::new();
    s.push(status.glyph());
    assert(s@ =~= status_glyph(status));
    s
}

/// The glyph where it is shown, and the edge of the show-desktop button; what the
/// mouse is over is filled.
pub open spec fn corner_draws(c: Corner, width: int, height: int, dpi: int) -> Seq<DrawView> {
    let net = network_place(width, height, dpi);
    let desk = desktop_place(width, height, dpi);
    (if c.show_network {
        (if c.hover == Part::Network {
            seq![DrawView::Fill { rect: net, color: COL_HOVER }]
        } else {
            seq![]
        }).push(
            DrawView::Text {
                font: Font::Glyph,
                color: COL_TEXT,
                text: status_glyph(c.status),
                rect: net,
                flags: GLYPH_CENTER,
            },
        )
    } else {
        seq![]
    }) + (if c.hover == Part::ShowDesktop {
        seq![DrawView::Fill { rect: desk, color: COL_HOVER }]
    } else {
        seq![]
    }).push(
        DrawView::Fill {
            rect: rect(
                desk.left as int,
                px(8, dpi),
                desk.left + px(1, dpi),
                height - px(8, dpi),
            ),
            color: COL_TEXT_DIM,
        },
    )
}

impl Corner {
    pub fn new(show_network: bool) -> (r: Corner)
        ensures
            r == (Corner {
                show_network,
                status: NetStatus::Disconnected,
                hover: Part::Nothing,
                pressed: Part::Nothing,
            }),
    {
        Corner {
            show_network,
            status: NetStatus::Disconnected,
            hover: Part::Nothing,
            pressed: Part::Nothing,
        }
    }

    /// Take over what the adapters say; true where the glyph has to be drawn anew.
    pub fn on_poll(&mut self, adapters: &Vec<Adapter>) -> (r: bool)
        ensures
            *final(self) == (Corner { status: status_of(adapters@), ..*old(self) }),
            r == (old(self).show_network && status_of(adapters@) != old(self).status),
    {
        let status = poll(adapters);
        let changed = self.show_network && status != self.status;
        self.status = status;
        changed
    }

    pub fn part(&self, hit: Hit, x: i32, width: i32, dpi: i32) -> (r: Part)
        requires
            valid_dpi(dpi),
            near(width as int),
        ensures
            r == part_at(self.show_network, hit, x as int, width as int, dpi as int),
    {
        let clock = clock_rect(width, 0, dpi);
        if hit != Hit::Nothing {
            Part::Nothing
        } else if x >= width - scaled(DESKTOP_W, dpi) && x < width {
            Part::ShowDesktop
        } else if self.show_network && x >= clock.left && x < clock.left + scaled(NETWORK_W, dpi) {
            Part::Network
        } else {
            Part::Nothing
        }
    }

    /// The mouse is at `x`; true where the bar has to be drawn anew.
    pub fn on_mouse_move(&mut self, hit: Hit, x: i32, width: i32, dpi: i32) -> (r: bool)
        requires
            valid_dpi(dpi),
            near(width as int),
        ensures
            *final(self) == (Corner {
                hover: part_at(old(self).show_network, hit, x as int, width as int, dpi as int),
                ..*old(self)
            }),
            r == (final(self).hover != old(self).hover),
    {
        let part = self.part(hit, x, width, dpi);
        let changed = part != self.hover;
        self.hover = part;
        changed
    }

    pub fn on_mouse_leave(&mut self)
        ensures
            *final(self) == (Corner { hover: Part::Nothing, ..*old(self) }),
    {
        self.hover = Part::Nothing;
    }

    pub fn on_button_down(&mut self, hit: Hit, x: i32, width: i32, dpi: i32)
        requires
            valid_dpi(dpi),
            near(width as int),
        ensures
            *final(self) == (Corner {
                pressed: part_at(old(self).show_network, hit, x as int, width as int, dpi as int),
                ..*old(self)
            }),
    {
        self.pressed = self.part(hit, x, width, dpi);
    }

    pub fn on_button_up(&mut self, hit: Hit, x: i32, width: i32, dpi: i32) -> (r: CornerClick)
        requires
            valid_dpi(dpi),
            near(width as int),
        ensures
            *final(self) == (Corner { pressed: Part::Nothing, ..*old(self) }),
            r == left_click(
                old(self).pressed,
                part_at(old(self).show_network, hit, x as int, width as int, dpi as int),
            ),
    {
        let part = self.part(hit, x, width, dpi);
        let pressed = self.pressed;
        self.pressed = Part::Nothing;
        if part != pressed {
            CornerClick::Nothing
        } else {
            match part {
                Part::Nothing => CornerClick::Nothing,
                Part::Network => CornerClick::Flyout,
                Part::ShowDesktop => CornerClick::ShowDesktop,
            }
        }
    }

    /// A right click on the glyph opens the network settings; elsewhere the bar has
    /// its own answer.
    pub fn on_right_up(&self, hit: Hit, x: i32, width: i32, dpi: i32) -> (r: CornerClick)
        requires
            valid_dpi(dpi),
            near(width as int),
        ensures
            r == if part_at(self.show_network, hit, x as int, width as int, dpi as int)
                == Part::Network {
                CornerClick::NetworkSettings
            } else {
                CornerClick::Nothing
            },
    {
        match self.part(hit, x, width, dpi) {
            Part::Network => CornerClick::NetworkSettings,
            _ => CornerClick::Nothing,
        }
    }

    /// Draw the corner, over the bar.
    pub fn paint(&self, out: &mut Vec<Draw>, width: i32, height: i32, dpi: i32)
        requires
            valid_dpi(dpi),
            near(width as int),
            near(height as int),
        ensures
            shown(final(out)@) == shown(old(out)@) + corner_draws(
                *self,
                width as int,
                height as int,
                dpi as int,
            ),
    {
        let ghost before = shown(out@);
        let left: i32 = clock_rect(width, height, dpi).left;
        let net = Rect { left, top: 0, right: left + scaled(NETWORK_W, dpi), bottom: height };
        let desk = Rect {
            left: width - scaled(DESKTOP_W, dpi),
            top: 0,
            right: width,
            bottom: height,
        };
        if self.show_network {
            if self.hover == Part::Network {
                fill(out, net, COL_HOVER);
            }
            let glyph = glyph_text(self.status);
            label(out, Font::Glyph, COL_TEXT, glyph.as_str(), net, GLYPH_CENTER);
        }
        if self.hover == Part::ShowDesktop {
            fill(out, desk, COL_HOVER);
        }
        fill(
            out,
            Rect {
                left: desk.left,
                top: scaled(8, dpi),
                right: desk.left + scaled(1, dpi),
                bottom: height - scaled(8, dpi),
            },
            COL_TEXT_DIM,
        );
        assert(shown(out@) =~= before + corner_draws(
            *self,
            width as int,
            height as int,
            dpi as int,
        ));
    }
}

/// Neither part of the corner lies over the other, or over a tray icon: the icons
/// end left of the clock.
pub proof fn the_corner_is_its_own(n: int, i: int, x: int, width: int, dpi: int)
    requires
        0 <= dpi <= 32767,
        0 <= i < n,
        tray_left(n - i, width, dpi) <= x < tray_left(n - i, width, dpi) + px(TRAY_SLOT as int, dpi),
    ensures
        part_at(true, Hit::Nothing, x, width, dpi) == Part::Nothing,
        clock_left(width, dpi) + px(NETWORK_W as int, dpi) <= width - px(DESKTOP_W as int, dpi),
{
    lemma_px(86, dpi);
    lemma_px(4, dpi);
    lemma_px(NETWORK_W as int, dpi);
    lemma_px(DESKTOP_W as int, dpi);
    lemma_px(TRAY_SLOT as int, dpi);
    let slot = px(TRAY_SLOT as int, dpi);
    assert((n - i) * slot >= slot) by (nonlinear_arith)
        requires
            slot >= 0,
            n - i >= 1,
    ;
    reveal(px);
}

/// The glyph is hit inside its place while it is wanted, and the show-desktop button
/// inside its own; nothing of the corner is hit where the bar has a part.
pub proof fn each_corner_part_is_hit_inside_it(
    show: bool,
    hit: Hit,
    x: int,
    width: int,
    dpi: int,
)
    requires
        0 <= dpi <= 32767,
    ensures
        (width - px(6, dpi) <= x < width) ==> part_at(show, Hit::Nothing, x, width, dpi)
            == Part::ShowDesktop,
        (clock_left(width, dpi) <= x < clock_left(width, dpi) + px(18, dpi)) ==> part_at(
            show,
            Hit::Nothing,
            x,
            width,
            dpi,
        ) == if show {
            Part::Network
        } else {
            Part::Nothing
        },
        hit != Hit::Nothing ==> part_at(show, hit, x, width, dpi) == Part::Nothing,
        (x < clock_left(width, dpi) || x >= width) ==> part_at(show, hit, x, width, dpi)
            == Part::Nothing,
{
    lemma_px(86, dpi);
    lemma_px(18, dpi);
    lemma_px(6, dpi);
    reveal(px);
}

/// A click on the glyph opens the flyout and one at the edge shows the desktop, where
/// the button went down and came up on the same part.
pub proof fn corner_clicks_do_their_own(a: Part, b: Part)
    ensures
        a != b ==> left_click(a, b) == CornerClick::Nothing,
        left_click(Part::Network, Part::Network) == CornerClick::Flyout,
        left_click(Part::ShowDesktop, Part::ShowDesktop) == CornerClick::ShowDesktop,
        left_click(Part::Nothing, Part::Nothing) == CornerClick::Nothing,
{
}

} // verus!
