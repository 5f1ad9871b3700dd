//! A small dark settings window for the on/off options, grouped by the surface they
//! affect, with a checkbox each, plus the Start button glyph color (preset swatches
//! and a Custom… picker).
//!
//! Changing a row writes the value to the user's key immediately; the few that need
//! the windows recreated (marked with †) take effect on the next launch.

use vstd::prelude::*;
use vstd::string::*;
use crate::config::{configured, flag, user_value_wins, Config, ConfigView, Values, ValueView};
use crate::geometry::{lemma_px, near, px, rect, scaled, toward_zero, valid_dpi, Rect};
use crate::paint::{
    emit, fill, label, shown, Draw, DrawView, Font, DT_BOTTOM, DT_NOPREFIX, DT_SINGLELINE,
    GLYPH_CENTER, LINE_PLAIN,
};
use crate::search::{first, first_from};
use crate::taskbar::{COL_ACCENT, COL_ACTIVE, COL_BG, COL_HOVER, COL_TEXT, COL_TEXT_DIM};
use crate::text::{join2, same_str};

verus! {

/// How many boolean settings there are.
pub const TOGGLES: usize = 5;

/// Section heading a setting sits under.
pub open spec fn group_of(i: int) -> Seq<char> {
    if i <= 2 {
        "Taskbar"@
    } else if i == 3 {
        "Windows"@
    } else {
        "Menus"@
    }
}

pub open spec fn label_of(i: int) -> Seq<char> {
    if i == 0 {
        "Show window labels"@
    } else if i == 1 {
        "Combine taskbar buttons"@
    } else if i == 2 {
        "Center taskbar"@
    } else if i == 3 {
        "Accent border on active window"@
    } else {
        "Dark context menus"@
    }
}

/// Registry value name of a setting.
pub open spec fn reg_of(i: int) -> Seq<char> {
    if i == 0 {
        "TaskbarLabels"@
    } else if i == 1 {
        "TaskbarCombine"@
    } else if i == 2 {
        "CenterTaskbar"@
    } else if i == 3 {
        "WindowBorders"@
    } else {
        "DarkMenus"@
    }
}

/// The setting's value in a configuration.
pub open spec fn value_in(c: ConfigView, i: int) -> bool {
    if i == 0 {
        c.show_labels
    } else if i == 1 {
        c.combine
    } else if i == 2 {
        c.center_taskbar
    } else if i == 3 {
        c.window_borders
    } else {
        c.dark_menus
    }
}

/// A relaunch is needed before the change fully takes effect.
pub open spec fn needs_restart(i: int) -> bool {
    i == 4
}

pub fn group(i: usize) -> (r: &'static str)
    ensures
        r@ == group_of(i as int),
{
    if i <= 2 {
        "Taskbar"
    } else if i == 3 {
        "Windows"
    } else {
        "Menus"
    }
}

pub fn toggle_label(i: usize) -> (r: &'static str)
    ensures
        r@ == label_of(i as int),
{
    if i == 0 {
        "Show window labels"
    } else if i == 1 {
        "Combine taskbar buttons"
    } else if i == 2 {
        "Center taskbar"
    } else if i == 3 {
        "Accent border on active window"
    } else {
        "Dark context menus"
    }
}

pub fn reg_name(i: usize) -> (r: &'static str)
    ensures
        r@ == reg_of(i as int),
{
    if i == 0 {
        "TaskbarLabels"
    } else if i == 1 {
        "TaskbarCombine"
    } else if i == 2 {
        "CenterTaskbar"
    } else if i == 3 {
        "WindowBorders"
    } else {
        "DarkMenus"
    }
}

pub fn value_of(c: &Config, i: usize) -> (r: bool)
    ensures
        r == value_in(c@, i as int),
{
    if i == 0 {
        c.show_labels
    } else if i == 1 {
        c.combine
    } else if i == 2 {
        c.center_taskbar
    } else if i == 3 {
        c.window_borders
    } else {
        c.dark_menus
    }
}

/// A color (0x00BBGGRR) from its components.
pub open spec fn rgb_of(r: int, g: int, b: int) -> int {
    r + 0x100 * g + 0x1_0000 * b
}

/// A color out of three components; one over 255 spills into its neighbours.
pub fn rgb(r: u32, g: u32, b: u32) -> (c: u32)
    ensures
        c == r | (g << 8) | (b << 16),
        r < 256 && g < 256 && b < 256 ==> c == rgb_of(r as int, g as int, b as int),
{
    assert(r < 256 && g < 256 && b < 256 ==> r | (g << 8) | (b << 16) == r + 0x100 * g + 0x1_0000
        * b) by (bit_vector);
    r | (g << 8) | (b << 16)
}

pub const N_SWATCH: usize = 7;

/// Preset Start button glyph colors offered as swatches: near-white, blue, teal,
/// green, orange, red, purple.
pub open spec fn swatch_of(i: int) -> int {
    if i == 0 {
        rgb_of(240, 240, 240)
    } else if i == 1 {
        rgb_of(0, 120, 212)
    } else if i == 2 {
        rgb_of(0, 178, 148)
    } else if i == 3 {
        rgb_of(16, 185, 110)
    } else if i == 4 {
        rgb_of(255, 140, 0)
    } else if i == 5 {
        rgb_of(232, 17, 35)
    } else {
        rgb_of(180, 90, 230)
    }
}

pub fn swatch(i: usize) -> (r: u32)
    ensures
        r == swatch_of(i as int),
{
    if i == 0 {
        rgb(240, 240, 240)
    } else if i == 1 {
        rgb(0, 120, 212)
    } else if i == 2 {
        rgb(0, 178, 148)
    } else if i == 3 {
        rgb(16, 185, 110)
    } else if i == 4 {
        rgb(255, 140, 0)
    } else if i == 5 {
        rgb(232, 17, 35)
    } else {
        rgb(180, 90, 230)
    }
}

/// A laid-out line in the pane: a section heading, a toggle row, or the Start button
/// color row (swatches + Custom… button).
pub enum Row {
    Header(String),
    Toggle(usize),
    Color,
}

pub enum RowView {
    Header(Seq<char>),
    Toggle(usize),
    Color,
}

impl View for Row {
    type V = RowView;

    open spec fn view(&self) -> RowView {
        match *self {
            Row::Header(t) => RowView::Header(t@),
            Row::Toggle(i) => RowView::Toggle(i),
            Row::Color => RowView::Color,
        }
    }
}

pub open spec fn row_views(v: Seq<Row>) -> Seq<RowView> {
    Seq::new(v.len(), |i: int| v[i]@)
}

/// The rows of the first `n` settings, each group below its heading.
pub open spec fn toggle_rows(n: int) -> Seq<RowView>
    decreases n,
{
    if n <= 0 {
        seq![]
    } else {
        toggle_rows(n - 1) + (if n == 1 || group_of(n - 1) != group_of(n - 2) {
            seq![RowView::Header(group_of(n - 1))]
        } else {
            seq![]
        }) + seq![RowView::Toggle((n - 1) as usize)]
    }
}

/// All rows: the settings, then the color picker in its own section.
pub open spec fn pane_rows() -> Seq<RowView> {
    toggle_rows(TOGGLES as int) + seq![RowView::Header("Start button"@), RowView::Color]
}

fn push_row(v: &mut Vec<Row>, r: Row)
    ensures
        row_views(final(v)@) == row_views(old(v)@).push(r@),
        final(v)@.len() == old(v)@.len() + 1,
{
    v.push(r);
    assert(row_views(v@) =~= row_views(old(v)@).push(r@));
}

fn build_rows() -> (r: Vec<Row>)
    ensures
        row_views(r@) == pane_rows(),
        r@.len() <= 12,
        forall|i: int| 0 <= i < r@.len() ==> (#[trigger] r@[i] matches Row::Toggle(t) ==> t < TOGGLES),
{
    let mut rows: Vec<Row> = Vec::new();
    let mut i: usize = 0;
    assert(row_views(rows@) =~= seq![]);
    while i < TOGGLES
        invariant
            i <= TOGGLES,
            row_views(rows@) == toggle_rows(i as int),
            rows@.len() <= 2 * i,
            forall|k: int|
                0 <= k < rows@.len() ==> (#[trigger] rows@[k] matches Row::Toggle(t) ==> t
                    < TOGGLES),
        decreases TOGGLES - i,
    {
        let ghost before = row_views(rows@);
        if i == 0 || !same_str(group(i), group(i - 1)) {
            push_row(&mut rows, Row::Header(group(i).to_owned()));
        }
        push_row(&mut rows, Row::Toggle(i));
        i = i + 1;
        assert(row_views(rows@) =~= toggle_rows(i as int));
        assert forall|k: int| 0 <= k < rows@.len() implies (#[trigger] rows@[k] matches Row::Toggle(
            t,
        ) ==> t < TOGGLES) by {
            assert(rows@[k]@ == row_views(rows@)[k]);
            if k < before.len() {
                assert(row_views(rows@)[k] == before[k]);
            }
        }
    }
    let ghost before = row_views(rows@);
    push_row(&mut rows, Row::Header("Start button".to_owned()));
    push_row(&mut rows, Row::Color);
    assert(row_views(rows@) =~= pane_rows());
    assert forall|k: int| 0 <= k < rows@.len() implies (#[trigger] rows@[k] matches Row::Toggle(t)
        ==> t < TOGGLES) by {
        assert(rows@[k]@ == row_views(rows@)[k]);
        if k < before.len() {
            assert(row_views(rows@)[k] == before[k]);
        }
    }
    rows
}

/// What the cursor is over.
#[derive(Clone, Copy, PartialEq, Eq, Structural, Debug)]
pub enum Hover {
    Nothing,
    /// A toggle row.
    Toggle(usize),
    /// A color swatch.
    Swatch(usize),
    /// The Custom… color button.
    Custom,
}

/// The window's state.
pub struct State {
    pub rows: Vec<Row>,
    /// Current on/off value per setting.
    pub values: Vec<bool>,
    /// Current Start button glyph color (0x00BBGGRR).
    pub start_color: u32,
    /// What the cursor is currently over.
    pub hover: Hover,
    pub tracking_mouse: bool,
}

// Layout metrics, in 96-DPI px.
pub const PAD: i32 = 18;

pub const WIDTH: i32 = 340;

pub const TITLE_H: i32 = 46;

pub const HEADER_H: i32 = 30;

pub const ROW_H: i32 = 36;

pub const FOOTER_H: i32 = 30;

/// Checkbox side length.
pub const BOX: i32 = 18;

/// Close-button hit square in the title bar.
pub const CLOSE: i32 = 34;

/// Height of the Start button color row.
pub const COLOR_H: i32 = 48;

/// Swatch side length.
pub const SW: i32 = 22;

/// Gap between swatches.
pub const SW_GAP: i32 = 9;

pub const CUSTOM_W: i32 = 72;

pub const CUSTOM_H: i32 = 28;

pub const GLYPH_CHECK: &'static str = "\u{E73E}";

pub const GLYPH_CLOSE: &'static str = "\u{E8BB}";

/// Laid-out height of a single row.
pub open spec fn row_h(r: RowView, dpi: int) -> int {
    match r {
        RowView::Header(_) => px(HEADER_H as int, dpi),
        RowView::Toggle(_) => px(ROW_H as int, dpi),
        RowView::Color => px(COLOR_H as int, dpi),
    }
}

/// Top edge of row `n`.
pub open spec fn top_of(v: Seq<RowView>, n: int, dpi: int) -> int
    decreases n,
{
    if n <= 0 {
        px(TITLE_H as int, dpi)
    } else {
        top_of(v, n - 1, dpi) + row_h(v[n - 1], dpi)
    }
}

fn row_height(r: &Row, dpi: i32) -> (h: i32)
    requires
        valid_dpi(dpi),
    ensures
        h == row_h(r@, dpi as int),
        0 <= h <= 16416,
{
    match r {
        Row::Header(_) => scaled(HEADER_H, dpi),
        Row::Toggle(_) => scaled(ROW_H, dpi),
        Row::Color => scaled(COLOR_H, dpi),
    }
}

/// Top edge (client-relative) of the row at `index` in `rows`.
pub fn row_top(rows: &Vec<Row>, index: usize, dpi: i32) -> (r: i32)
    requires
        valid_dpi(dpi),
        index <= rows.len() <= 0x1000,
    ensures
        r == top_of(row_views(rows@), index as int, dpi as int),
        0 <= r <= 0x0500_0000,
{
    let ghost v = row_views(rows@);
    let mut y: i32 = scaled(TITLE_H, dpi);
    let mut i: usize = 0;
    while i < index
        invariant
            i <= index <= rows.len() <= 0x1000,
            valid_dpi(dpi),
            v == row_views(rows@),
            y == top_of(v, i as int, dpi as int),
            0 <= y <= 15732 + i * 16416,
        decreases index - i,
    {
        assert(v[i as int] == rows@[i as int]@);
        y = y + row_height(&rows[i], dpi);
        i = i + 1;
    }
    y
}

/// Total window height for a given row layout.
pub fn content_height(rows: &Vec<Row>, dpi: i32) -> (r: i32)
    requires
        valid_dpi(dpi),
        rows.len() <= 0x1000,
    ensures
        r == top_of(row_views(rows@), rows@.len() as int, dpi as int) + px(
            FOOTER_H as int,
            dpi as int,
        ),
        0 <= r <= 0x0600_0000,
{
    row_top(rows, rows.len(), dpi) + scaled(FOOTER_H, dpi)
}

/// Swatch `i` of a color row at `top`.
pub open spec fn swatch_rect(i: int, top: int, dpi: int) -> Rect {
    let sw = px(SW as int, dpi);
    let x = px(PAD as int, dpi) + i * (sw + px(SW_GAP as int, dpi));
    let y = top + toward_zero(px(COLOR_H as int, dpi) - sw, 2);
    rect(x, y, x + sw, y + sw)
}

/// The Custom… button of a color row at `top`: right-aligned, vertically centered.
pub open spec fn custom_rect(top: int, dpi: int) -> Rect {
    let h = px(CUSTOM_H as int, dpi);
    let right = px(WIDTH as int, dpi) - px(PAD as int, dpi);
    let y = top + toward_zero(px(COLOR_H as int, dpi) - h, 2);
    rect(right - px(CUSTOM_W as int, dpi), y, right, y + h)
}

fn swatch_at(i: usize, top: i32, dpi: i32) -> (r: Rect)
    requires
        valid_dpi(dpi),
        i < N_SWATCH,
        0 <= top <= 0x0600_0000,
    ensures
        r == swatch_rect(i as int, top as int, dpi as int),
        r.near(),
{
    let sw: i32 = scaled(SW, dpi);
    let gap: i32 = scaled(SW_GAP, dpi);
    assert(0 <= i * (sw + gap) <= 6 * (7524 + 3078)) by (nonlinear_arith)
        requires
            0 <= i <= 6,
            0 <= sw <= 7524,
            0 <= gap <= 3078,
    ;
    let x: i32 = scaled(PAD, dpi) + i as i32 * (sw + gap);
    let y: i32 = top + (scaled(COLOR_H, dpi) - sw) / 2;
    Rect { left: x, top: y, right: x + sw, bottom: y + sw }
}

fn custom_at(top: i32, dpi: i32) -> (r: Rect)
    requires
        valid_dpi(dpi),
        0 <= top <= 0x0600_0000,
    ensures
        r == custom_rect(top as int, dpi as int),
        r.near(),
{
    let h: i32 = scaled(CUSTOM_H, dpi);
    let right: i32 = scaled(WIDTH, dpi) - scaled(PAD, dpi);
    let y: i32 = top + (scaled(COLOR_H, dpi) - h) / 2;
    Rect { left: right - scaled(CUSTOM_W, dpi), top: y, right, bottom: y + h }
}

/// What a row at `top` has at a point.
pub open spec fn row_hit(r: RowView, top: int, x: int, y: int, dpi: int) -> Hover {
    match r {
        RowView::Header(_) => Hover::Nothing,
        RowView::Toggle(t) => if top <= y < top + px(ROW_H as int, dpi) {
            Hover::Toggle(t)
        } else {
            Hover::Nothing
        },
        RowView::Color => if top <= y < top + px(COLOR_H as int, dpi) {
            if custom_rect(top, dpi).has(x, y) {
                Hover::Custom
            } else {
                match first(N_SWATCH as int, |i: int| swatch_rect(i, top, dpi).has(x, y)) {
                    Some(i) => Hover::Swatch(i as usize),
                    None => Hover::Nothing,
                }
            }
        } else {
            Hover::Nothing
        },
    }
}

/// What the first row from `i` on that has anything at a point has there.
pub open spec fn hit_from(v: Seq<RowView>, i: int, x: int, y: int, dpi: int) -> Hover
    decreases v.len() - i,
{
    if i >= v.len() {
        Hover::Nothing
    } else {
        let h = row_hit(v[i], top_of(v, i, dpi), x, y, dpi);
        if h is Nothing {
            hit_from(v, i + 1, x, y, dpi)
        } else {
            h
        }
    }
}

pub open spec fn close_hit(x: int, y: int, dpi: int) -> bool {
    x >= px(WIDTH as int, dpi) - px(CLOSE as int, dpi) && y < px(CLOSE as int, dpi)
}

/// Whether client point `(x, y)` is on the title-bar close button.
pub fn hit_close(x: i32, y: i32, dpi: i32) -> (r: bool)
    requires
        valid_dpi(dpi),
    ensures
        r == close_hit(x as int, y as int, dpi as int),
{
    x >= scaled(WIDTH, dpi) - scaled(CLOSE, dpi) && y < scaled(CLOSE, dpi)
}

/// What a click does.
#[derive(Clone, Copy, PartialEq, Eq, Structural, Debug)]
pub enum Act {
    Nothing,
    Close,
    /// Save this setting's new value.
    Toggle(usize, bool),
    /// Save this color.
    SetColor(u32),
    /// Open the Custom… picker seeded with this color.
    PickColor(u32),
}

/// What follows a mouse move.
#[derive(Clone, Copy, PartialEq, Eq, Structural, Debug)]
pub struct MoveOutcome {
    pub track: bool,
    pub repaint: bool,
}

/// How a click on what is hit changes the pane, and what is to be saved.
pub open spec fn answers_click(was: State, now: State, close: bool, hit: Hover, r: Act) -> bool {
    if close {
        r == Act::Close && now.values@ == was.values@ && now.start_color == was.start_color
    } else {
        match hit {
            Hover::Toggle(t) => {
                &&& t < TOGGLES
                &&& r == Act::Toggle(t, now.values@[t as int])
                &&& now.values@.len() == was.values@.len()
                &&& forall|i: int|
                    0 <= i < was.values@.len() ==> #[trigger] now.values@[i] == if i == t {
                        !was.values@[i]
                    } else {
                        was.values@[i]
                    }
                &&& now.start_color == was.start_color
            },
            Hover::Swatch(i) => r == Act::SetColor(now.start_color) && now.start_color == swatch_of(
                i as int,
            ) && now.values@ == was.values@,
            Hover::Custom => r == Act::PickColor(was.start_color) && now.values@ == was.values@
                && now.start_color == was.start_color,
            Hover::Nothing => r == Act::Nothing && now.values@ == was.values@ && now.start_color
                == was.start_color,
        }
    }
}

fn row_hit_at(r: &Row, top: i32, x: i32, y: i32, dpi: i32) -> (h: Hover)
    requires
        valid_dpi(dpi),
        0 <= top <= 0x0600_0000,
    ensures
        h == row_hit(r@, top as int, x as int, y as int, dpi as int),
{
    match r {
        Row::Header(_) => Hover::Nothing,
        Row::Toggle(t) => {
            if y >= top && y < top + scaled(ROW_H, dpi) {
                Hover::Toggle(*t)
            } else {
                Hover::Nothing
            }
        },
        Row::Color => {
            if y >= top && y < top + scaled(COLOR_H, dpi) {
                if custom_at(top, dpi).contains(x, y) {
                    return Hover::Custom;
                }
                let ghost p = |i: int| swatch_rect(i, top as int, dpi as int).has(x as int, y as int);
                let mut i: usize = 0;
                while i < N_SWATCH
                    invariant
                        i <= N_SWATCH,
                        valid_dpi(dpi),
                        0 <= top <= 0x0600_0000,
                        p == (|i: int|
                            swatch_rect(i, top as int, dpi as int).has(x as int, y as int)),
                        first(N_SWATCH as int, p) == first_from(i as int, N_SWATCH as int, p),
                        r@ is Color,
                        top <= y < top + px(COLOR_H as int, dpi as int),
                        !custom_rect(top as int, dpi as int).has(x as int, y as int),
                    decreases N_SWATCH - i,
                {
                    if swatch_at(i, top, dpi).contains(x, y) {
                        assert(p(i as int));
                        return Hover::Swatch(i);
                    }
                    assert(!p(i as int));
                    i = i + 1;
                }
                Hover::Nothing
            } else {
                Hover::Nothing
            }
        },
    }
}

impl State {
    pub open spec fn wf(&self) -> bool {
        &&& self.rows@.len() <= 0x1000
        &&& self.values@.len() == TOGGLES
        &&& forall|i: int|
            0 <= i < self.rows@.len() ==> (#[trigger] self.rows@[i] matches Row::Toggle(t) ==> t
                < TOGGLES)
    }

    /// The pane for a configuration.
    pub fn open(cfg: &Config) -> (r: State)
        ensures
            r.wf(),
            row_views(r.rows@) == pane_rows(),
            forall|i: int| 0 <= i < TOGGLES ==> #[trigger] r.values@[i] == value_in(cfg@, i),
            r.start_color == cfg.start_button_color,
            r.hover == Hover::Nothing,
            !r.tracking_mouse,
    {
        let rows = build_rows();
        let mut values: Vec<bool> = Vec::new();
        let mut i: usize = 0;
        while i < TOGGLES
            invariant
                i <= TOGGLES,
                values@.len() == i,
                forall|k: int| 0 <= k < i ==> #[trigger] values@[k] == value_in(cfg@, k),
            decreases TOGGLES - i,
        {
            values.push(value_of(cfg, i));
            i = i + 1;
        }
        State {
            rows,
            values,
            start_color: cfg.start_button_color,
            hover: Hover::Nothing,
            tracking_mouse: false,
        }
    }

    /// Where the window opens, and its size.
    pub fn placement(&self, screen_w: i32, screen_h: i32, dpi: i32) -> (r: (i32, i32, i32, i32))
        requires
            self.wf(),
            valid_dpi(dpi),
            0 <= screen_w <= 0x1000_0000,
            0 <= screen_h <= 0x1000_0000,
        ensures
            r.2 == px(WIDTH as int, dpi as int),
            r.3 == top_of(row_views(self.rows@), self.rows@.len() as int, dpi as int) + px(
                FOOTER_H as int,
                dpi as int,
            ),
            r.0 == toward_zero(screen_w - r.2, 2),
            r.1 == toward_zero(screen_h - r.3, 2),
    {
        let w: i32 = scaled(WIDTH, dpi);
        let h: i32 = content_height(&self.rows, dpi);
        ((screen_w - w) / 2, (screen_h - h) / 2, w, h)
    }

    /// What the pane has at a point.
    pub open spec fn hit_spec(&self, x: int, y: int, dpi: int) -> Hover {
        if x < 0 || x > px(WIDTH as int, dpi) {
            Hover::Nothing
        } else {
            hit_from(row_views(self.rows@), 0, x, y, dpi)
        }
    }

    pub fn hit(&self, x: i32, y: i32, dpi: i32) -> (r: Hover)
        requires
            self.wf(),
            valid_dpi(dpi),
        ensures
            r == self.hit_spec(x as int, y as int, dpi as int),
            r matches Hover::Toggle(t) ==> t < TOGGLES,
    {
        if x < 0 || x > scaled(WIDTH, dpi) {
            return Hover::Nothing;
        }
        let ghost v = row_views(self.rows@);
        let mut i: usize = 0;
        while i < self.rows.len()
            invariant
                i <= self.rows.len(),
                self.wf(),
                valid_dpi(dpi),
                v == row_views(self.rows@),
                0 <= x <= px(WIDTH as int, dpi as int),
                hit_from(v, 0, x as int, y as int, dpi as int) == hit_from(
                    v,
                    i as int,
                    x as int,
                    y as int,
                    dpi as int,
                ),
            decreases self.rows.len() - i,
        {
            let top: i32 = row_top(&self.rows, i, dpi);
            assert(v[i as int] == self.rows@[i as int]@);
            let h = row_hit_at(&self.rows[i], top, x, y, dpi);
            if h != Hover::Nothing {
                return h;
            }
            i = i + 1;
        }
        Hover::Nothing
    }

    pub fn on_mouse_move(&mut self, x: i32, y: i32, dpi: i32) -> (r: MoveOutcome)
        requires
            old(self).wf(),
            valid_dpi(dpi),
        ensures
            final(self).wf(),
            final(self).hover == old(self).hit_spec(x as int, y as int, dpi as int),
            final(self).tracking_mouse,
            r.track == !old(self).tracking_mouse,
            r.repaint == (final(self).hover != old(self).hover),
            final(self).rows == old(self).rows,
            final(self).values == old(self).values,
            final(self).start_color == old(self).start_color,
    {
        let h = self.hit(x, y, dpi);
        let track = !self.tracking_mouse;
        let repaint = h != self.hover;
        self.tracking_mouse = true;
        self.hover = h;
        MoveOutcome { track, repaint }
    }

    /// The mouse left. Whether anything is to be repainted.
    pub fn on_mouse_leave(&mut self) -> (r: bool)
        requires
            old(self).wf(),
        ensures
            final(self).wf(),
            final(self).hover == Hover::Nothing,
            !final(self).tracking_mouse,
            r == (old(self).hover != Hover::Nothing),
            final(self).rows == old(self).rows,
            final(self).values == old(self).values,
            final(self).start_color == old(self).start_color,
    {
        let had = self.hover != Hover::Nothing;
        self.tracking_mouse = false;
        self.hover = Hover::Nothing;
        had
    }

    /// Whether a press drags the window: on the title bar, off the close button.
    pub fn on_button_down(x: i32, y: i32, dpi: i32) -> (r: bool)
        requires
            valid_dpi(dpi),
        ensures
            r == (y < px(TITLE_H as int, dpi as int) && !close_hit(
                x as int,
                y as int,
                dpi as int,
            )),
    {
        y < scaled(TITLE_H, dpi) && !hit_close(x, y, dpi)
    }

    /// A click: a setting flips, a swatch is taken, the picker opens.
    pub fn on_button_up(&mut self, x: i32, y: i32, dpi: i32) -> (r: Act)
        requires
            old(self).wf(),
            valid_dpi(dpi),
        ensures
            final(self).wf(),
            final(self).rows == old(self).rows,
            final(self).hover == old(self).hover,
            final(self).tracking_mouse == old(self).tracking_mouse,
            close_hit(x as int, y as int, dpi as int) ==> r == Act::Close && *final(self) == *old(
                self,
            ),
            !close_hit(x as int, y as int, dpi as int) ==> match old(self).hit_spec(
                x as int,
                y as int,
                dpi as int,
            ) {
                Hover::Toggle(t) => {
                    &&& t < TOGGLES
                    &&& r == Act::Toggle(t, !old(self).values@[t as int])
                    &&& final(self).values@ == old(self).values@.update(
                        t as int,
                        !old(self).values@[t as int],
                    )
                    &&& final(self).start_color == old(self).start_color
                },
                Hover::Swatch(i) => {
                    &&& r == Act::SetColor(swatch_of(i as int) as u32)
                    &&& final(self).start_color == swatch_of(i as int)
                    &&& final(self).values == old(self).values
                },
                Hover::Custom => r == Act::PickColor(old(self).start_color) && *final(self) == *old(
                    self,
                ),
                Hover::Nothing => r == Act::Nothing && *final(self) == *old(self),
            },
            answers_click(
                *old(self),
                *final(self),
                close_hit(x as int, y as int, dpi as int),
                old(self).hit_spec(x as int, y as int, dpi as int),
                r,
            ),
    {
        if hit_close(x, y, dpi) {
            return Act::Close;
        }
        match self.hit(x, y, dpi) {
            Hover::Toggle(t) => {
                let now = !self.values[t];
                self.values.set(t, now);
                Act::Toggle(t, now)
            },
            Hover::Swatch(i) => {
                let c: u32 = swatch(i);
                self.start_color = c;
                Act::SetColor(c)
            },
            Hover::Custom => Act::PickColor(self.start_color),
            Hover::Nothing => Act::Nothing,
        }
    }

    /// Take a color that was picked.
    pub fn picked(&mut self, color: u32)
        requires
            old(self).wf(),
        ensures
            final(self).wf(),
            *final(self) == (State { start_color: color, ..*old(self) }),
    {
        self.start_color = color;
    }
}

// ---- Laws ----

/// A saved setting is what the next load reads, whatever the machine's key holds:
/// `user` holds under the setting's name what `save_bool` writes.
pub proof fn saved_setting_reads_back(machine: Option<Values>, user: Values, t: int, value: bool)
    requires
        0 <= t < TOGGLES,
        user.get(reg_of(t)) == Some(ValueView::Dword(flag(value))),
    ensures
        value_in(configured(machine, Some(user)), t) == value,
{
    user_value_wins(machine, user);
}

/// A saved Start button color is what the next load reads.
pub proof fn saved_color_reads_back(machine: Option<Values>, user: Values, color: u32)
    requires
        user.get("StartButtonColor"@) == Some(ValueView::Dword(color)),
    ensures
        configured(machine, Some(user)).start_button_color == color,
{
    user_value_wins(machine, user);
}

// ---- Painting ----

/// The title bar.
pub open spec fn title_draws(width: int, dpi: int) -> Seq<DrawView> {
    let h = px(TITLE_H as int, dpi);
    let c = px(CLOSE as int, dpi);
    seq![
        DrawView::Fill { rect: rect(0, 0, width, h), color: COL_HOVER },
        DrawView::Text {
            font: Font::Title,
            color: COL_TEXT,
            text: "StartPE Settings"@,
            rect: rect(px(PAD as int, dpi), 0, width - c, h),
            flags: LINE_PLAIN,
        },
        DrawView::Text {
            font: Font::Glyph,
            color: COL_TEXT_DIM,
            text: GLYPH_CLOSE@,
            rect: rect(width - c, 0, width, c),
            flags: GLYPH_CENTER,
        },
    ]
}

/// A toggle row: its highlight, its box with a mark where it is on, its label. A
/// dagger marks settings that need a relaunch.
pub open spec fn toggle_draws(t: int, on: bool, hovered: bool, top: int, width: int, dpi: int) -> Seq<
    DrawView,
> {
    let h = px(ROW_H as int, dpi);
    let side = px(BOX as int, dpi);
    let pad = px(PAD as int, dpi);
    let y = top + toward_zero(h - side, 2);
    let b = rect(pad, y, pad + side, y + side);
    (if hovered {
        seq![DrawView::Fill { rect: rect(0, top, width, top + h), color: COL_HOVER }]
    } else {
        seq![]
    }) + seq![
        DrawView::Box {
            rect: b,
            fill: if on {
                COL_ACCENT
            } else {
                COL_BG
            },
            edge: if on {
                COL_ACCENT
            } else {
                COL_TEXT_DIM
            },
        },
    ] + (if on {
        seq![
            DrawView::Text {
                font: Font::Glyph,
                color: COL_TEXT,
                text: GLYPH_CHECK@,
                rect: b,
                flags: GLYPH_CENTER,
            },
        ]
    } else {
        seq![]
    }) + seq![
        DrawView::Text {
            font: Font::Text,
            color: COL_TEXT,
            text: if needs_restart(t) {
                label_of(t) + " \u{2020}"@
            } else {
                label_of(t)
            },
            rect: rect(pad + side + px(12, dpi), top, width - pad, top + h),
            flags: LINE_PLAIN,
        },
    ]
}

/// One swatch: a ring behind it where it is selected or hovered.
pub open spec fn swatch_draws(i: int, color: u32, hover: Hover, top: int, dpi: int) -> Seq<DrawView> {
    let r = swatch_rect(i, top, dpi);
    let m = px(3, dpi);
    let selected = color == swatch_of(i);
    (if selected || hover == Hover::Swatch(i as usize) {
        let ring = if selected {
            COL_ACCENT
        } else {
            COL_TEXT_DIM
        };
        seq![
            DrawView::Round {
                rect: rect(r.left - m, r.top - m, r.right + m, r.bottom + m),
                fill: ring,
                edge: ring,
                width: 1,
                radius: px(6, dpi) as i32,
            },
        ]
    } else {
        seq![]
    }) + seq![
        DrawView::Round {
            rect: r,
            fill: swatch_of(i) as u32,
            edge: swatch_of(i) as u32,
            width: 1,
            radius: px(5, dpi) as i32,
        },
    ]
}

pub open spec fn swatches_upto(n: int, color: u32, hover: Hover, top: int, dpi: int) -> Seq<DrawView>
    decreases n,
{
    if n <= 0 {
        seq![]
    } else {
        swatches_upto(n - 1, color, hover, top, dpi) + swatch_draws(n - 1, color, hover, top, dpi)
    }
}

/// The color row: its swatches and the Custom… button.
pub open spec fn color_draws(color: u32, hover: Hover, top: int, dpi: int) -> Seq<DrawView> {
    let bg = if hover == Hover::Custom {
        COL_ACTIVE
    } else {
        COL_HOVER
    };
    swatches_upto(N_SWATCH as int, color, hover, top, dpi) + seq![
        DrawView::Round {
            rect: custom_rect(top, dpi),
            fill: bg,
            edge: bg,
            width: 1,
            radius: px(8, dpi) as i32,
        },
        DrawView::Text {
            font: Font::Text,
            color: COL_TEXT,
            text: "Custom\u{2026}"@,
            rect: custom_rect(top, dpi),
            flags: GLYPH_CENTER,
        },
    ]
}

impl State {
    pub open spec fn row_draws(&self, i: int, width: int, dpi: int) -> Seq<DrawView> {
        let v = row_views(self.rows@);
        let top = top_of(v, i, dpi);
        match v[i] {
            RowView::Header(g) => seq![
                DrawView::Text {
                    font: Font::Head,
                    color: COL_ACCENT,
                    text: g,
                    rect: rect(
                        px(PAD as int, dpi),
                        top,
                        width - px(PAD as int, dpi),
                        top + px(HEADER_H as int, dpi),
                    ),
                    flags: DT_SINGLELINE | DT_BOTTOM | DT_NOPREFIX,
                },
            ],
            RowView::Toggle(t) => toggle_draws(
                t as int,
                self.values@[t as int],
                self.hover == Hover::Toggle(t),
                top,
                width,
                dpi,
            ),
            RowView::Color => color_draws(self.start_color, self.hover, top, dpi),
        }
    }

    pub open spec fn rows_upto(&self, n: int, width: int, dpi: int) -> Seq<DrawView>
        decreases n,
    {
        if n <= 0 {
            seq![]
        } else {
            self.rows_upto(n - 1, width, dpi) + self.row_draws(n - 1, width, dpi)
        }
    }

    /// Any of the rows is of a setting that needs a relaunch.
    pub open spec fn any_restart(&self, n: int) -> bool {
        exists|i: int|
            0 <= i < n && (#[trigger] self.rows@[i] matches Row::Toggle(t) && needs_restart(t as int))
    }

    /// Everything the pane draws: its ground, the title bar, the rows, and a note
    /// where a setting needs a relaunch.
    pub open spec fn painted(&self, width: int, height: int, dpi: int) -> Seq<DrawView> {
        seq![DrawView::Fill { rect: rect(0, 0, width, height), color: COL_BG }] + title_draws(
            width,
            dpi,
        ) + self.rows_upto(self.rows@.len() as int, width, dpi) + (if self.any_restart(
            self.rows@.len() as int,
        ) {
            seq![
                DrawView::Text {
                    font: Font::Head,
                    color: COL_TEXT_DIM,
                    text: "\u{2020} applies after StartPE restarts"@,
                    rect: rect(
                        px(PAD as int, dpi),
                        height - px(FOOTER_H as int, dpi),
                        width - px(PAD as int, dpi),
                        height,
                    ),
                    flags: LINE_PLAIN,
                },
            ]
        } else {
            seq![]
        })
    }

    fn draw_colors(&self, out: &mut Vec<Draw>, top: i32, dpi: i32)
        requires
            valid_dpi(dpi),
            0 <= top <= 0x0600_0000,
        ensures
            shown(final(out)@) == shown(old(out)@) + color_draws(
                self.start_color,
                self.hover,
                top as int,
                dpi as int,
            ),
    {
        let ghost before = shown(out@);
        let ghost c = self.start_color;
        let ghost h = self.hover;
        let ghost t = top as int;
        let ghost d = dpi as int;
        let mut i: usize = 0;
        assert(before + swatches_upto(0, c, h, t, d) =~= before);
        while i < N_SWATCH
            invariant
                i <= N_SWATCH,
                valid_dpi(dpi),
                0 <= top <= 0x0600_0000,
                c == self.start_color,
                h == self.hover,
                t == top,
                d == dpi,
                shown(out@) == before + swatches_upto(i as int, c, h, t, d),
            decreases N_SWATCH - i,
        {
            let r = swatch_at(i, top, dpi);
            let color: u32 = swatch(i);
            let selected = self.start_color == color;
            let hovered = self.hover == Hover::Swatch(i);
            let ghost so_far = shown(out@);
            if selected || hovered {
                let m: i32 = scaled(3, dpi);
                let ring: u32 = if selected {
                    COL_ACCENT
                } else {
                    COL_TEXT_DIM
                };
                emit(
                    out,
                    Draw::Round {
                        rect: Rect {
                            left: r.left - m,
                            top: r.top - m,
                            right: r.right + m,
                            bottom: r.bottom + m,
                        },
                        fill: ring,
                        edge: ring,
                        width: 1,
                        radius: scaled(6, dpi),
                    },
                );
            }
            emit(
                out,
                Draw::Round {
                    rect: r,
                    fill: color,
                    edge: color,
                    width: 1,
                    radius: scaled(5, dpi),
                },
            );
            assert(shown(out@) =~= so_far + swatch_draws(i as int, c, h, t, d));
            i = i + 1;
            assert(shown(out@) =~= before + swatches_upto(i as int, c, h, t, d));
        }
        let custom = custom_at(top, dpi);
        let bg: u32 = if self.hover == Hover::Custom {
            COL_ACTIVE
        } else {
            COL_HOVER
        };
        emit(
            out,
            Draw::Round { rect: custom, fill: bg, edge: bg, width: 1, radius: scaled(8, dpi) },
        );
        label(out, Font::Text, COL_TEXT, "Custom\u{2026}", custom, GLYPH_CENTER);
        assert(shown(out@) =~= before + color_draws(c, h, t, d));
    }

    fn draw_toggle(&self, out: &mut Vec<Draw>, t: usize, top: i32, width: i32, dpi: i32)
        requires
            self.wf(),
            t < TOGGLES,
            valid_dpi(dpi),
            0 <= top <= 0x0600_0000,
            0 <= width <= 0x1000_0000,
        ensures
            shown(final(out)@) == shown(old(out)@) + toggle_draws(
                t as int,
                self.values@[t as int],
                self.hover == Hover::Toggle(t),
                top as int,
                width as int,
                dpi as int,
            ),
    {
        let ghost before = shown(out@);
        let on = self.values[t];
        let h: i32 = scaled(ROW_H, dpi);
        let side: i32 = scaled(BOX, dpi);
        let pad: i32 = scaled(PAD, dpi);
        if self.hover == Hover::Toggle(t) {
            fill(out, Rect { left: 0, top, right: width, bottom: top + h }, COL_HOVER);
        }
        let y: i32 = top + (h - side) / 2;
        let b = Rect { left: pad, top: y, right: pad + side, bottom: y + side };
        emit(
            out,
            Draw::Box {
                rect: b,
                fill: if on {
                    COL_ACCENT
                } else {
                    COL_BG
                },
                edge: if on {
                    COL_ACCENT
                } else {
                    COL_TEXT_DIM
                },
            },
        );
        if on {
            label(out, Font::Glyph, COL_TEXT, GLYPH_CHECK, b, GLYPH_CENTER);
        }
        let text = if t == 4 {
            join2(toggle_label(t), " \u{2020}")
        } else {
            toggle_label(t).to_owned()
        };
        label(
            out,
            Font::Text,
            COL_TEXT,
            text.as_str(),
            Rect {
                left: pad + side + scaled(12, dpi),
                top,
                right: width - pad,
                bottom: top + h,
            },
            LINE_PLAIN,
        );
        assert(shown(out@) =~= before + toggle_draws(
            t as int,
            self.values@[t as int],
            self.hover == Hover::Toggle(t),
            top as int,
            width as int,
            dpi as int,
        ));
    }

    /// Draw the pane.
    pub fn paint(&self, width: i32, height: i32, dpi: i32) -> (r: Vec<Draw>)
        requires
            self.wf(),
            valid_dpi(dpi),
            0 <= width <= 0x1000_0000,
            0 <= height <= 0x1000_0000,
        ensures
            shown(r@) == self.painted(width as int, height as int, dpi as int),
    {
        let mut out: Vec<Draw> = Vec::new();
        assert(shown(out@) =~= seq![]);
        fill(&mut out, Rect { left: 0, top: 0, right: width, bottom: height }, COL_BG);
        let title_h: i32 = scaled(TITLE_H, dpi);
        let close: i32 = scaled(CLOSE, dpi);
        fill(&mut out, Rect { left: 0, top: 0, right: width, bottom: title_h }, COL_HOVER);
        label(
            &mut out,
            Font::Title,
            COL_TEXT,
            "StartPE Settings",
            Rect { left: scaled(PAD, dpi), top: 0, right: width - close, bottom: title_h },
            LINE_PLAIN,
        );
        label(
            &mut out,
            Font::Glyph,
            COL_TEXT_DIM,
            GLYPH_CLOSE,
            Rect { left: width - close, top: 0, right: width, bottom: close },
            GLYPH_CENTER,
        );
        let ghost head = shown(out@);
        let ghost v = row_views(self.rows@);
        let ghost w = width as int;
        let ghost d = dpi as int;
        let mut restart = false;
        let mut i: usize = 0;
        assert(head + self.rows_upto(0, w, d) =~= head);
        while i < self.rows.len()
            invariant
                i <= self.rows.len(),
                self.wf(),
                valid_dpi(dpi),
                0 <= width <= 0x1000_0000,
                v == row_views(self.rows@),
                w == width,
                d == dpi,
                restart == self.any_restart(i as int),
                shown(out@) == head + self.rows_upto(i as int, w, d),
            decreases self.rows.len() - i,
        {
            let top: i32 = row_top(&self.rows, i, dpi);
            let ghost so_far = shown(out@);
            assert(v[i as int] == self.rows@[i as int]@);
            match &self.rows[i] {
                Row::Header(g) => {
                    label(
                        &mut out,
                        Font::Head,
                        COL_ACCENT,
                        g.as_str(),
                        Rect {
                            left: scaled(PAD, dpi),
                            top,
                            right: width - scaled(PAD, dpi),
                            bottom: top + scaled(HEADER_H, dpi),
                        },
                        DT_SINGLELINE | DT_BOTTOM | DT_NOPREFIX,
                    );
                },
                Row::Toggle(t) => {
                    let t: usize = *t;
                    if t == 4 {
                        restart = true;
                        assert(self.rows@[i as int] matches Row::Toggle(t) && needs_restart(
                            t as int,
                        ));
                    }
                    self.draw_toggle(&mut out, t, top, width, dpi);
                },
                Row::Color => {
                    self.draw_colors(&mut out, top, dpi);
                },
            }
            assert(shown(out@) =~= so_far + self.row_draws(i as int, w, d));
            i = i + 1;
            assert(shown(out@) =~= head + self.rows_upto(i as int, w, d));
        }
        if restart {
            label(
                &mut out,
                Font::Head,
                COL_TEXT_DIM,
                "\u{2020} applies after StartPE restarts",
                Rect {
                    left: scaled(PAD, dpi),
                    top: height - scaled(FOOTER_H, dpi),
                    right: width - scaled(PAD, dpi),
                    bottom: height,
                },
                LINE_PLAIN,
            );
        }
        assert(shown(out@) =~= self.painted(width as int, height as int, dpi as int));
        out
    }
}

// ---- What the pane is for ----

/// Each label stands by the setting that it names, in the group it belongs to; only
/// dark menus need a relaunch.
pub proof fn labels_name_their_settings(c: ConfigView)
    ensures
        label_of(0) == "Show window labels"@ && reg_of(0) == "TaskbarLabels"@ && value_in(c, 0)
            == c.show_labels,
        label_of(1) == "Combine taskbar buttons"@ && reg_of(1) == "TaskbarCombine"@ && value_in(c, 1)
            == c.combine,
        label_of(2) == "Center taskbar"@ && reg_of(2) == "CenterTaskbar"@ && value_in(c, 2)
            == c.center_taskbar,
        label_of(3) == "Accent border on active window"@ && reg_of(3) == "WindowBorders"@
            && value_in(c, 3) == c.window_borders,
        label_of(4) == "Dark context menus"@ && reg_of(4) == "DarkMenus"@ && value_in(c, 4)
            == c.dark_menus,
        group_of(0) == group_of(1) && group_of(1) == group_of(2),
        group_of(3) == "Windows"@ && group_of(4) == "Menus"@,
        forall|i: int| 0 <= i < 5 ==> (#[trigger] needs_restart(i)) == (i == 4),
{
}

/// A setting changes nothing but itself: the other settings keep their values when it
/// is saved.
pub proof fn saving_a_setting_changes_it_alone(
    machine: Option<Values>,
    before: Values,
    after: Values,
    t: int,
    u: int,
)
    requires
        0 <= t < TOGGLES,
        0 <= u < TOGGLES,
        t != u,
        forall|name: Seq<char>|
            !crate::text::alike(reg_of(t), name) ==> #[trigger] after.get(name) == before.get(name),
        !crate::text::alike(reg_of(t), reg_of(u)),
    ensures
        value_in(configured(machine, Some(after)), u) == value_in(
            configured(machine, Some(before)),
            u,
        ),
{
    assert(after.get(reg_of(u)) == before.get(reg_of(u)));
}

/// Every setting has a row of its own, in order, below the heading of its group, and
/// the color picker comes last.
pub proof fn every_setting_has_a_row()
    ensures
        pane_rows() == seq![
            RowView::Header(group_of(0)),
            RowView::Toggle(0),
            RowView::Toggle(1),
            RowView::Toggle(2),
            RowView::Header(group_of(3)),
            RowView::Toggle(3),
            RowView::Header(group_of(4)),
            RowView::Toggle(4),
            RowView::Header("Start button"@),
            RowView::Color,
        ],
{
    reveal_strlit("Taskbar");
    reveal_strlit("Windows");
    reveal_strlit("Menus");
    reveal_with_fuel(toggle_rows, 6);
    assert("Taskbar"@[0] == 'T' && "Windows"@[0] == 'W' && "Menus"@[0] == 'M');
    assert(group_of(0)[0] == 'T' && group_of(2)[0] == 'T');
    assert(group_of(3)[0] == 'W' && group_of(4)[0] == 'M');
    assert(pane_rows() =~= seq![
        RowView::Header(group_of(0)),
        RowView::Toggle(0),
        RowView::Toggle(1),
        RowView::Toggle(2),
        RowView::Header(group_of(3)),
        RowView::Toggle(3),
        RowView::Header(group_of(4)),
        RowView::Toggle(4),
        RowView::Header("Start button"@),
        RowView::Color,
    ]);
}

proof fn lemma_tops(v: Seq<RowView>, n: int, m: int, dpi: int)
    requires
        0 <= n <= m,
        0 <= dpi <= 32767,
    ensures
        0 <= top_of(v, n, dpi) <= top_of(v, m, dpi),
    decreases m,
{
    lemma_px(46, dpi);
    lemma_px(30, dpi);
    lemma_px(36, dpi);
    lemma_px(48, dpi);
    if m > n {
        lemma_tops(v, n, m - 1, dpi);
    } else if n > 0 {
        lemma_tops(v, n - 1, n - 1, dpi);
    }
}

proof fn lemma_hit_below(v: Seq<RowView>, k: int, i: int, x: int, y: int, dpi: int)
    requires
        0 <= k <= i < v.len(),
        0 <= dpi <= 32767,
        top_of(v, i, dpi) <= y,
    ensures
        hit_from(v, k, x, y, dpi) == hit_from(v, i, x, y, dpi),
    decreases i - k,
{
    if k < i {
        lemma_tops(v, k + 1, i, dpi);
        lemma_hit_below(v, k + 1, i, x, y, dpi);
    }
}

/// A row is hit where it lies: below the title bar and the rows above it. A setting's
/// row is hit over the whole width; in the color row the swatches and the Custom…
/// button are.
pub proof fn a_settings_row_is_hit_where_it_lies(s: State, i: int, k: int, x: int, y: int, dpi: int)
    requires
        0 <= dpi <= 32767,
        0 <= i < s.rows@.len(),
        0 <= x <= px(340, dpi),
        top_of(row_views(s.rows@), i, dpi) <= y < top_of(row_views(s.rows@), i + 1, dpi),
    ensures
        s.rows@[i] matches Row::Toggle(t) ==> s.hit_spec(x, y, dpi) == Hover::Toggle(t),
        (s.rows@[i] is Color && custom_rect(top_of(row_views(s.rows@), i, dpi), dpi).has(x, y))
            ==> s.hit_spec(x, y, dpi) == Hover::Custom,
        (s.rows@[i] is Color && 0 <= k < 7 && swatch_rect(
            k,
            top_of(row_views(s.rows@), i, dpi),
            dpi,
        ).has(x, y) && !custom_rect(top_of(row_views(s.rows@), i, dpi), dpi).has(x, y) && (forall|
            j: int,
        |
            0 <= j < k ==> !(#[trigger] swatch_rect(
                j,
                top_of(row_views(s.rows@), i, dpi),
                dpi,
            ).has(x, y)))) ==> s.hit_spec(x, y, dpi) == Hover::Swatch(k as usize),
{
    let v = row_views(s.rows@);
    lemma_hit_below(v, 0, i, x, y, dpi);
    assert(v[i] == s.rows@[i]@);
    let top = top_of(v, i, dpi);
    if s.rows@[i] is Color && 0 <= k < 7 && swatch_rect(k, top, dpi).has(x, y) && !custom_rect(
        top,
        dpi,
    ).has(x, y) && (forall|j: int| 0 <= j < k ==> !(#[trigger] swatch_rect(j, top, dpi).has(x, y))) {
        let p = |i: int| swatch_rect(i, top, dpi).has(x, y);
        assert(p(k));
        assert forall|j: int| 0 <= j < k implies !(#[trigger] p(j)) by {
            assert(!swatch_rect(j, top, dpi).has(x, y));
        }
        crate::search::lemma_first_is(0, N_SWATCH as int, p, k);
    }
}

/// The swatches stand side by side with a gap between them, left of the Custom…
/// button.
pub proof fn swatches_stand_side_by_side(i: int, top: int, dpi: int)
    requires
        0 <= i < 6,
        3 <= dpi <= 32767,
        0 <= top <= 0x0600_0000,
    ensures
        swatch_rect(i, top, dpi).right + px(9, dpi) == swatch_rect(i + 1, top, dpi).left,
        swatch_rect(i, top, dpi).right - swatch_rect(i, top, dpi).left == px(22, dpi),
        swatch_rect(0, top, dpi).left == px(18, dpi),
        swatch_rect(6, top, dpi).right <= custom_rect(top, dpi).left,
        custom_rect(top, dpi).right == px(340, dpi) - px(18, dpi),
{
    lemma_px(22, dpi);
    lemma_px(9, dpi);
    lemma_px(18, dpi);
    lemma_px(48, dpi);
    lemma_px(28, dpi);
    lemma_px(72, dpi);
    lemma_px(340, dpi);
    let step = px(22, dpi) + px(9, dpi);
    assert((i + 1) * step == i * step + step && 0 * step == 0 && 0 <= i * step <= 6 * step)
        by (nonlinear_arith)
        requires
            0 <= i < 6,
            step >= 0,
    ;
    reveal(px);
}

/// The close button is the corner at the upper right of the title bar.
pub proof fn the_close_button_is_in_the_corner(x: int, y: int, dpi: int)
    ensures
        close_hit(x, y, dpi) == (px(340, dpi) - px(34, dpi) <= x && y < px(34, dpi)),
{
}

/// The swatches offer seven colors: near-white, blue, teal, green, orange, red and
/// purple, each by its red, green and blue.
pub proof fn swatches_offer_seven_colors(i: int, j: int)
    requires
        0 <= i < j < 7,
    ensures
        swatch_of(i) != swatch_of(j),
        0 <= swatch_of(i) <= 0xFF_FFFF && 0 <= swatch_of(j) <= 0xFF_FFFF,
        swatch_of(5) % 256 == 232 && swatch_of(5) / 256 % 256 == 17 && swatch_of(5) / 65536 == 35,
        swatch_of(1) % 256 == 0 && swatch_of(1) / 256 % 256 == 120 && swatch_of(1) / 65536 == 212,
{
}

/// A click on a setting saves the opposite of what it was, changes no other, and a
/// second one brings it back; a click on a swatch saves that swatch's color.
pub proof fn clicking_a_setting_twice_brings_it_back(
    s: [State; 3],
    t: usize,
    a: Act,
    b: Act,
    i: int,
)
    requires
        s[0].values@.len() == TOGGLES,
        answers_click(s[0], s[1], false, Hover::Toggle(t), a),
        answers_click(s[1], s[2], false, Hover::Toggle(t), b),
        0 <= i < TOGGLES,
    ensures
        t < TOGGLES,
        a == Act::Toggle(t, !s[0].values@[t as int]),
        b == Act::Toggle(t, s[0].values@[t as int]),
        i != t ==> s[1].values@[i] == s[0].values@[i],
        s[2].values@ =~= s[0].values@,
        s[2].start_color == s[0].start_color,
{
    assert forall|k: int| 0 <= k < TOGGLES implies s[2].values@[k] == s[0].values@[k] by {
        assert(s[1].values@[k] == if k == t {
            !s[0].values@[k]
        } else {
            s[0].values@[k]
        });
        assert(s[2].values@[k] == if k == t {
            !s[1].values@[k]
        } else {
            s[1].values@[k]
        });
    }
}

/// A click on a swatch saves the color that it shows, and changes no setting.
pub proof fn clicking_a_swatch_takes_its_color(was: State, now: State, i: usize, r: Act)
    requires
        answers_click(was, now, false, Hover::Swatch(i), r),
    ensures
        r == Act::SetColor(now.start_color),
        now.start_color == swatch_of(i as int),
        now.values@ == was.values@,
{
}

} // verus!
