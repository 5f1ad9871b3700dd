//! The start menu: a two-pane popup.
//!
//! Left pane: app list from the Start Menu folders with folder drill-down, an "All
//! Programs" row, and a live search box. Right pane: user picture (circular,
//! protruding above the menu) and a column of system links. Footer: search + Shut
//! down.
//!
//! Keyboard: the search box is focused on open, and typing always feeds the search.
//! Arrow keys move a shared focus highlight (`hover`, reused by mouse and keyboard)
//! across the program list, the right-pane links, the search box, and the power
//! controls; Enter activates the focused item, and Right on a ">" folder row expands
//! it. Spatially: from the search box Right → Shut down → its flyout chevron.

pub mod items;
pub mod laws;
pub mod painting;

use vstd::prelude::*;
use vstd::string::*;
use crate::config::Config;
use crate::geometry::{
    clamp_i32, clamped, fits_i32, lemma_px, max2, max_i32, near, px, rect, scaled, toward_zero, Rect,
};
use crate::paths::{base_name, join, joined, last_name, same, same_path};
use crate::power::{FLYOUT_RESTART, FLYOUT_SHUT_DOWN};
use crate::search::{first, first_from};
use crate::start_menu::items::{
    back_row, collect_dir, collect_dirs, collected_dir, collected_dirs, item_views, launcher,
    search_roots, sort_items, sorted, total, walked_roots, DirEntry, Item, ItemKind, ItemView,
    KindView,
};
use crate::taskbar::input::{file_manager_of, open_file_manager, Command};
use crate::text::{chars_of, join2, lowercase, same_str, slice_of, string_of, to_lowercase, views};
use crate::util::opt_view;

verus! {

// Geometry (unscaled px).
/// Left pane row height.
pub const ROW: i32 = 34;

/// Right pane row height.
pub const RIGHT_ROW: i32 = 38;

/// User picture diameter.
pub const AVATAR: i32 = 64;

/// How far the avatar pokes above the body.
pub const OVERHANG: i32 = 32;

/// Corner radius.
pub const RADIUS: i32 = 12;

/// Gap between menu and taskbar.
pub const GAP: i32 = 8;

pub const FOOTER_H: i32 = 48;

pub const ALLPROG_H: i32 = 34;

/// Right pane width.
pub const RIGHT_W: i32 = 170;

// Glyphs.
pub const GLYPH_PERSON: &'static str = "\u{E77B}";

pub const GLYPH_DOWNLOAD: &'static str = "\u{E896}";

pub const GLYPH_PC: &'static str = "\u{E977}";

pub const GLYPH_CONTROL: &'static str = "\u{E713}";

pub const GLYPH_CMD: &'static str = "\u{E756}";

pub const GLYPH_RUN: &'static str = "\u{E7AC}";

/// The command of a right-pane link that opens the Run window instead of being
/// executed.
pub const RUN_DIALOG_CMD: &'static str = "@startpe:run-dialog";

/// Right-pane link. A bare folder path as `cmd` opens in Explorer.
pub struct RightItem {
    pub glyph: String,
    pub label: String,
    pub cmd: String,
    pub args: String,
}

pub struct RightView {
    pub glyph: Seq<char>,
    pub label: Seq<char>,
    pub cmd: Seq<char>,
    pub args: Seq<char>,
}

impl View for RightItem {
    type V = RightView;

    open spec fn view(&self) -> RightView {
        RightView {
            glyph: self.glyph@,
            label: self.label@,
            cmd: self.cmd@,
            args: self.args@,
        }
    }
}

pub open spec fn right_views(v: Seq<RightItem>) -> Seq<RightView> {
    Seq::new(v.len(), |i: int| v[i]@)
}

pub open spec fn or_else(s: Option<String>, other: Seq<char>) -> Seq<char> {
    match s {
        Some(t) => t@,
        None => other,
    }
}

/// The links of the right pane: the user's folder and downloads, the file manager,
/// the control panel, a terminal, and the Run window.
pub open spec fn right_links(
    user: Seq<char>,
    profile: Seq<char>,
    files: (Seq<char>, Seq<char>),
    terminal: Seq<char>,
) -> Seq<RightView> {
    seq![
        RightView { glyph: GLYPH_PERSON@, label: user, cmd: profile, args: seq![] },
        RightView {
            glyph: GLYPH_DOWNLOAD@,
            label: "Downloads"@,
            cmd: profile + "\\Downloads"@,
            args: seq![],
        },
        RightView { glyph: GLYPH_PC@, label: "This PC"@, cmd: files.0, args: files.1 },
        RightView {
            glyph: GLYPH_CONTROL@,
            label: "Control Panel"@,
            cmd: "control.exe"@,
            args: seq![],
        },
        RightView { glyph: GLYPH_CMD@, label: "Terminal"@, cmd: terminal, args: seq![] },
        RightView { glyph: GLYPH_RUN@, label: "Run…"@, cmd: RUN_DIALOG_CMD@, args: seq![] },
    ]
}

/// One link.
fn link(glyph: &str, label: &str, cmd: String, args: String) -> (r: RightItem)
    ensures
        r@ == (RightView { glyph: glyph@, label: label@, cmd: cmd@, args: args@ }),
{
    RightItem { glyph: glyph.to_owned(), label: label.to_owned(), cmd, args }
}

/// The right pane for a user (`User` without a name) and a profile folder.
pub fn build_right_items(
    user: &Option<String>,
    profile: &Option<String>,
    cfg: &Config,
    terminal: &str,
) -> (r: Vec<RightItem>)
    ensures
        right_views(r@) == right_links(
            or_else(*user, "User"@),
            or_else(*profile, "X:\\Users\\Default"@),
            file_manager_of(cfg@),
            terminal@,
        ),
{
    let user = match user {
        Some(s) => s.clone(),
        None => "User".to_owned(),
    };
    let profile = match profile {
        Some(s) => s.clone(),
        None => "X:\\Users\\Default".to_owned(),
    };
    let files = open_file_manager(cfg);
    let downloads = join2(profile.as_str(), "\\Downloads");
    let mut v: Vec<RightItem> = Vec::new();
    let ghost p = profile@;
    v.push(link(GLYPH_PERSON, user.as_str(), profile, String::new()));
    v.push(link(GLYPH_DOWNLOAD, "Downloads", downloads, String::new()));
    v.push(link(GLYPH_PC, "This PC", files.program, files.args));
    v.push(link(GLYPH_CONTROL, "Control Panel", "control.exe".to_owned(), String::new()));
    v.push(link(GLYPH_CMD, "Terminal", terminal.to_owned(), String::new()));
    v.push(link(GLYPH_RUN, "Run…", RUN_DIALOG_CMD.to_owned(), String::new()));
    assert(right_views(v@) =~= right_links(user@, p, file_manager_of(cfg@), terminal@));
    v
}

/// The part of the menu at a point, or in focus.
#[derive(Clone, Copy, PartialEq, Eq, Structural, Debug)]
pub enum Hit {
    Nothing,
    Row(usize),
    Right(usize),
    AllPrograms,
    Shutdown,
    ShutdownMenu,
    /// The search box (focused on open; typing always feeds it).
    Search,
}

/// The menu's state.
pub struct MenuState {
    pub width: i32,
    /// Total, including avatar overhang.
    pub height: i32,
    pub items: Vec<Item>,
    pub rights: Vec<RightItem>,
    /// Start-menu pinned program paths, in pin order. When non-empty the menu opens
    /// to these instead of the full app list.
    pub pinned: Vec<String>,
    /// True once the user switched from the pinned view to the full app list.
    pub showing_all: bool,
    /// Folder navigation stack; empty means the merged top level.
    pub stack: Vec<String>,
    /// Live search query; non-empty switches the left pane to results.
    pub query: String,
    pub scroll: i32,
    pub hover: Hit,
    pub avatar: Option<u64>,
}

/// What the file system holds for the list that is to be shown.
pub struct Listing {
    /// The Start Menu folders, deep enough for a search.
    pub roots: Vec<Vec<DirEntry>>,
    /// The folder on top of the stack.
    pub current: Vec<DirEntry>,
    /// The folders of the same name in the other roots.
    pub twins: Vec<Vec<DirEntry>>,
    /// Display names of the pinned programs.
    pub pin_names: Vec<String>,
}

impl Listing {
    /// The most rows that an opened folder takes, with its way back.
    pub open spec fn folder_rows(&self) -> int {
        (1 + self.current@.len() + total(self.twins@, self.twins@.len() as int)) as int
    }

    /// The most rows that the top level takes.
    pub open spec fn root_rows(&self) -> int {
        total(self.roots@, self.roots@.len() as int) as int
    }

    /// Few enough entries that their rows' heights can be added up.
    pub open spec fn fits(&self, pins: nat, dpi: int) -> bool {
        &&& rows_fit(self.root_rows(), ROW as int, dpi)
        &&& rows_fit(self.folder_rows(), ROW as int, dpi)
        &&& self.pin_names@.len() == pins
    }

    proof fn lemma_counts(&self, pins: nat, dpi: i32)
        requires
            usable_dpi(dpi),
            self.fits(pins, dpi as int),
        ensures
            self.folder_rows() <= usize::MAX,
            self.root_rows() <= usize::MAX,
    {
        let d = dpi as int;
        lemma_px(34, d);
        lemma_rows_fit(self.folder_rows(), self.folder_rows(), ROW as int, d);
        lemma_rows_fit(self.root_rows(), self.root_rows(), ROW as int, d);
    }
}

/// The heights of `n` rows add up.
pub open spec fn rows_fit(n: int, row: int, dpi: int) -> bool {
    n * px(row, dpi) <= 0x1000_0000
}

/// Where more rows fit, so do fewer; and no more fit than can be counted.
pub(crate) proof fn lemma_rows_fit(n: int, m: int, row: int, dpi: int)
    requires
        0 <= n <= m,
        px(row, dpi) >= 1,
        rows_fit(m, row, dpi),
    ensures
        rows_fit(n, row, dpi),
        0 <= n * px(row, dpi),
        n <= 0x1000_0000,
{
    let h = px(row, dpi);
    assert(0 <= n * h <= m * h && n <= n * h) by (nonlinear_arith)
        requires
            0 <= n <= m,
            h >= 1,
    ;
}

/// The rows of pinned programs.
pub open spec fn pin_rows(pinned: Seq<String>, names: Seq<String>) -> Seq<ItemView> {
    Seq::new(pinned.len(), |i: int| launcher(pinned[i]@, names[i]@))
}

/// What the left pane lists: results while there is a query; an opened folder,
/// merged at the first level with its twins, below a way back; the pins; or
/// everything.
pub open spec fn listed(m: MenuState, l: Listing) -> Seq<ItemView> {
    if m.query@.len() > 0 {
        sorted(walked_roots(l.roots@, l.roots@.len() as int, lowercase(m.query@)))
    } else if m.stack@.len() > 0 {
        let own = collected_dir(seq![back_row()], l.current@, l.current@.len() as int);
        sorted(
            if m.stack@.len() == 1 {
                collected_dirs(own, l.twins@, l.twins@.len() as int)
            } else {
                own
            },
        )
    } else if m.shows_pins() {
        pin_rows(m.pinned@, l.pin_names@)
    } else {
        sorted(collected_dirs(seq![], l.roots@, l.roots@.len() as int))
    }
}

/// The icons of the rows, in order.
pub open spec fn icons(v: Seq<Item>) -> Seq<u64>
    decreases v.len(),
{
    if v.len() == 0 {
        seq![]
    } else {
        match v.last().icon {
            Some(h) => icons(v.drop_last()).push(h),
            None => icons(v.drop_last()),
        }
    }
}

/// A DPI at which rows have a height.
pub open spec fn usable_dpi(dpi: i32) -> bool {
    3 <= dpi <= 32767
}

/// What activating a part does, once the state has followed it.
pub enum Action {
    Nothing,
    /// The list changes: `navigated` is owed a fresh listing.
    Navigate,
    Launch(String),
    Exec(String, String),
    RunWindow,
    Shutdown,
    /// Open the power flyout above the Shut down button.
    ShutdownMenu,
}

pub enum ActionView {
    Nothing,
    Navigate,
    Launch(Seq<char>),
    Exec(Seq<char>, Seq<char>),
    RunWindow,
    Shutdown,
    ShutdownMenu,
}

impl View for Action {
    type V = ActionView;

    open spec fn view(&self) -> ActionView {
        match *self {
            Action::Nothing => ActionView::Nothing,
            Action::Navigate => ActionView::Navigate,
            Action::Launch(p) => ActionView::Launch(p@),
            Action::Exec(c, a) => ActionView::Exec(c@, a@),
            Action::RunWindow => ActionView::RunWindow,
            Action::Shutdown => ActionView::Shutdown,
            Action::ShutdownMenu => ActionView::ShutdownMenu,
        }
    }
}

impl Action {
    /// The menu hides before the action is carried out.
    pub fn hides(&self) -> (r: bool)
        ensures
            r == (self@ is Launch || self@ is Exec || self@ is RunWindow || self@ is Shutdown),
    {
        match self {
            Action::Launch(_) => true,
            Action::Exec(_, _) => true,
            Action::RunWindow => true,
            Action::Shutdown => true,
            _ => false,
        }
    }
}

/// What follows a key.
pub enum KeyOutcome {
    Nothing,
    Hide,
    Repaint,
    /// The query changed: `edited` is owed a fresh listing.
    Edited,
    Act(Action),
}

#[derive(Clone, Copy, PartialEq, Eq, Structural, Debug)]
pub enum Dir {
    Up,
    Down,
    Left,
    Right,
}

/// The first focusable part of a list with `n` rows.
pub open spec fn first_of(n: int) -> Hit {
    if n == 0 {
        Hit::AllPrograms
    } else {
        Hit::Row(0)
    }
}

/// Where focus goes from a list to the right, past `r` links.
pub open spec fn right_of(r: int) -> Hit {
    if r > 0 {
        Hit::Right(0)
    } else {
        Hit::ShutdownMenu
    }
}

/// Where an arrow key moves the focus, with `n` rows and `r` links. Regions left to
/// right are the program list (with All apps), the right-pane links, and the power
/// controls (Shut down, then its flyout chevron); the search box lies below the
/// list. Up/Down move within a region; Left/Right move between them.
pub open spec fn moved(cur: Hit, dir: Dir, n: int, r: int) -> Hit {
    match (cur, dir) {
        (Hit::Search, Dir::Right) => Hit::Shutdown,
        (Hit::Search, Dir::Up) => Hit::AllPrograms,
        (Hit::Search, _) => Hit::Search,
        (Hit::Nothing, Dir::Right) => right_of(r),
        (Hit::Nothing, _) => first_of(n),
        (Hit::Row(i), Dir::Down) => if i + 1 < n {
            Hit::Row((i + 1) as usize)
        } else {
            Hit::AllPrograms
        },
        (Hit::Row(i), Dir::Up) => if i > 0 {
            Hit::Row((i - 1) as usize)
        } else {
            Hit::Row(0)
        },
        (Hit::Row(_), Dir::Right) => right_of(r),
        (Hit::Row(_), Dir::Left) => cur,
        (Hit::AllPrograms, Dir::Up) => if n > 0 {
            Hit::Row((n - 1) as usize)
        } else {
            Hit::AllPrograms
        },
        (Hit::AllPrograms, Dir::Down) => Hit::Search,
        (Hit::AllPrograms, Dir::Right) => right_of(r),
        (Hit::AllPrograms, Dir::Left) => cur,
        (Hit::Right(i), Dir::Down) => if i + 1 < r {
            Hit::Right((i + 1) as usize)
        } else {
            Hit::Shutdown
        },
        (Hit::Right(i), Dir::Up) => if i > 0 {
            Hit::Right((i - 1) as usize)
        } else {
            Hit::Right(0)
        },
        (Hit::Right(_), Dir::Left) => first_of(n),
        (Hit::Right(_), Dir::Right) => Hit::ShutdownMenu,
        (Hit::Shutdown, Dir::Right) => Hit::ShutdownMenu,
        (Hit::Shutdown, Dir::Left) => Hit::Search,
        (Hit::ShutdownMenu, Dir::Left) => Hit::Shutdown,
        (Hit::Shutdown, Dir::Up) => if r > 0 {
            Hit::Right((r - 1) as usize)
        } else {
            first_of(n)
        },
        (Hit::ShutdownMenu, Dir::Up) => if r > 0 {
            Hit::Right((r - 1) as usize)
        } else {
            first_of(n)
        },
        (Hit::Shutdown, Dir::Down) => cur,
        (Hit::ShutdownMenu, Dir::Down) => cur,
        (Hit::ShutdownMenu, Dir::Right) => cur,
    }
}

/// A focus that exists among `n` rows and `r` links.
pub open spec fn valid_hit(h: Hit, n: int, r: int) -> bool {
    match h {
        Hit::Row(i) => i < n,
        Hit::Right(i) => i < r,
        _ => true,
    }
}

/// The first program among the rows.
pub open spec fn first_launch(v: Seq<ItemView>) -> Option<int> {
    first(v.len() as int, |i: int| v[i].kind is Launch)
}

/// A control character.
pub open spec fn control(c: char) -> bool {
    c as u32 <= 0x1F || 0x7F <= c as u32 <= 0x9F
}

impl MenuState {
    pub open spec fn shows_pins(&self) -> bool {
        self.pinned@.len() > 0 && !self.showing_all
    }

    // ---- Layout ----

    pub open spec fn footer_y(&self, dpi: int) -> int {
        self.height - px(FOOTER_H as int, dpi)
    }

    pub open spec fn allprog_y(&self, dpi: int) -> int {
        self.footer_y(dpi) - px(ALLPROG_H as int, dpi)
    }

    /// Right edge of the left pane.
    pub open spec fn pane_x(&self, dpi: int) -> int {
        self.width - px(RIGHT_W as int, dpi) - px(4, dpi)
    }

    pub open spec fn list_y(dpi: int) -> int {
        px(OVERHANG as int, dpi) + px(8, dpi)
    }

    pub open spec fn list_h(&self, dpi: int) -> int {
        self.allprog_y(dpi) - Self::list_y(dpi)
    }

    pub open spec fn links_y(dpi: int) -> int {
        px(AVATAR as int, dpi) + px(12, dpi)
    }

    pub open spec fn search_rect(&self, dpi: int) -> Rect {
        let ft = self.footer_y(dpi);
        let h = px(FOOTER_H as int, dpi);
        rect(
            px(12, dpi),
            ft + toward_zero(h - px(30, dpi), 2),
            self.pane_x(dpi) - px(4, dpi),
            ft + (h + px(30, dpi)) / 2,
        )
    }

    pub open spec fn power_rect(&self, dpi: int) -> Rect {
        rect(
            self.width - px(140, dpi),
            self.footer_y(dpi),
            self.width - px(28, dpi),
            self.height as int,
        )
    }

    pub open spec fn chevron_rect(&self, dpi: int) -> Rect {
        rect(
            self.width - px(28, dpi),
            self.footer_y(dpi),
            self.width - px(6, dpi),
            self.height as int,
        )
    }

    /// The furthest the list scrolls.
    pub open spec fn scroll_limit(&self, dpi: int) -> int {
        max2(self.items@.len() * px(ROW as int, dpi) - self.list_h(dpi), 0)
    }

    /// What every operation keeps.
    pub open spec fn wf(&self, dpi: i32) -> bool {
        &&& usable_dpi(dpi)
        &&& -0x1000_0000 <= self.width <= 0x1000_0000
        &&& -0x1000_0000 <= self.height <= 0x1000_0000
        &&& rows_fit(self.items@.len() as int, ROW as int, dpi as int)
        &&& rows_fit(self.rights@.len() as int, RIGHT_ROW as int, dpi as int)
        &&& rows_fit(self.pinned@.len() as int, ROW as int, dpi as int)
        &&& 0 <= self.scroll <= self.scroll_limit(dpi as int)
        &&& valid_hit(self.hover, self.items@.len() as int, self.rights@.len() as int)
    }

    proof fn lemma_metrics(&self, dpi: i32)
        requires
            usable_dpi(dpi),
            -0x1000_0000 <= self.width <= 0x1000_0000,
            -0x1000_0000 <= self.height <= 0x1000_0000,
            rows_fit(self.items@.len() as int, ROW as int, dpi as int),
        ensures
            1 <= px(ROW as int, dpi as int) <= 11628,
            1 <= px(RIGHT_ROW as int, dpi as int) <= 12996,
            0 <= self.items@.len() * px(ROW as int, dpi as int) <= 0x1000_0000,
            self.items@.len() <= 0x1000_0000,
            -0x1010_0000 <= self.footer_y(dpi as int) <= self.height,
            -0x1010_0000 <= self.allprog_y(dpi as int) <= self.footer_y(dpi as int),
            -0x1010_0000 <= self.pane_x(dpi as int) <= self.width,
            0 <= Self::list_y(dpi as int) <= 0x4000,
            0 <= Self::links_y(dpi as int) <= 0x8000,
            -0x1020_0000 <= self.list_h(dpi as int) <= self.height,
            0 <= self.scroll_limit(dpi as int) <= 0x2100_0000,
    {
        let d = dpi as int;
        lemma_px(34, d);
        lemma_px(38, d);
        lemma_px(48, d);
        lemma_px(170, d);
        lemma_px(4, d);
        lemma_px(8, d);
        lemma_px(32, d);
        lemma_px(64, d);
        lemma_px(12, d);
        let n = self.items@.len() as int;
        lemma_rows_fit(n, n, ROW as int, d);
    }

    /// A menu before its first opening.
    pub fn create(
        cfg: &Config,
        rights: Vec<RightItem>,
        pinned: Vec<String>,
        avatar: Option<u64>,
        dpi: i32,
    ) -> (r: MenuState)
        requires
            usable_dpi(dpi),
            fits_i32(cfg.menu_width * dpi),
            fits_i32(cfg.menu_height * dpi),
            rows_fit(rights@.len() as int, RIGHT_ROW as int, dpi as int),
            rows_fit(pinned@.len() as int, ROW as int, dpi as int),
        ensures
            r.wf(dpi),
            r.width == px(cfg.menu_width as int, dpi as int),
            r.height == px(cfg.menu_height as int, dpi as int) + px(OVERHANG as int, dpi as int),
            r.items@.len() == 0,
            r.rights@ == rights@,
            r.pinned@ == pinned@,
            !r.showing_all,
            r.stack@.len() == 0,
            r.query@.len() == 0,
            r.scroll == 0,
            r.hover == Hit::Nothing,
            r.avatar == avatar,
    {
        let width: i32 = scaled(cfg.menu_width, dpi);
        let body: i32 = scaled(cfg.menu_height, dpi);
        proof {
            reveal(px);
        }
        let height: i32 = body + scaled(OVERHANG, dpi);
        assert(-0x1000_0000 <= width <= 0x1000_0000);
        assert(-0x1000_0000 <= height <= 0x1000_0000);
        assert(rows_fit(0, ROW as int, dpi as int));
        MenuState {
            width,
            height,
            items: Vec::new(),
            rights,
            pinned,
            showing_all: false,
            stack: Vec::new(),
            query: String::new(),
            scroll: 0,
            hover: Hit::Nothing,
            avatar,
        }
    }

    // ---- The list ----

    /// Read the list again; the icons of the old rows come back, to be destroyed.
    fn rebuild(&mut self, l: &Listing, hover: Hit) -> (r: Vec<u64>)
        requires
            l.pin_names@.len() == old(self).pinned@.len(),
            l.folder_rows() <= usize::MAX,
            l.root_rows() <= usize::MAX,
            hover == Hit::Search || hover == Hit::Nothing,
        ensures
            item_views(final(self).items@) == listed(*old(self), *l),
            ({
                let n = final(self).items@.len();
                n <= 60 || n <= l.folder_rows() || n <= l.root_rows() || n <= old(
                    self,
                ).pinned@.len()
            }),
            final(self).scroll == 0,
            final(self).hover == hover,
            final(self).width == old(self).width,
            final(self).height == old(self).height,
            final(self).rights == old(self).rights,
            final(self).pinned == old(self).pinned,
            final(self).showing_all == old(self).showing_all,
            final(self).stack == old(self).stack,
            final(self).query == old(self).query,
            final(self).avatar == old(self).avatar,
            r@ == icons(old(self).items@),
    {
        let mut freed: Vec<u64> = Vec::new();
        let mut i: usize = 0;
        assert(self.items@.take(0) =~= seq![]);
        while i < self.items.len()
            invariant
                i <= self.items.len(),
                *self == *old(self),
                freed@ == icons(self.items@.take(i as int)),
            decreases self.items.len() - i,
        {
            match self.items[i].icon {
                Some(h) => freed.push(h),
                None => {},
            }
            i = i + 1;
            assert(self.items@.take(i as int).drop_last() =~= self.items@.take(i - 1));
        }
        assert(self.items@.take(i as int) =~= self.items@);
        let fresh = if chars_of(self.query.as_str()).len() > 0 {
            let q = chars_of(to_lowercase(self.query.as_str()).as_str());
            let found = search_roots(&l.roots, &q);
            sort_items(found)
        } else if self.stack.len() > 0 {
            let mut v: Vec<Item> = Vec::new();
            v.push(Item { kind: ItemKind::Back, name: "‹ Back".to_owned(), icon: None });
            assert(item_views(v@) =~= seq![back_row()]);
            collect_dir(&l.current, &mut v);
            if self.stack.len() == 1 {
                collect_dirs(&l.twins, &mut v);
            }
            sort_items(v)
        } else if self.pinned_view() {
            self.list_pins(&l.pin_names)
        } else {
            let mut v: Vec<Item> = Vec::new();
            assert(item_views(v@) =~= seq![]);
            collect_dirs(&l.roots, &mut v);
            sort_items(v)
        };
        self.items = fresh;
        self.scroll = 0;
        self.hover = hover;
        freed
    }

    /// Whether the menu should currently show the pinned view (pins exist and the
    /// user hasn't switched to All apps).
    pub fn pinned_view(&self) -> (r: bool)
        ensures
            r == self.shows_pins(),
    {
        self.pinned.len() > 0 && !self.showing_all
    }

    fn list_pins(&self, names: &Vec<String>) -> (r: Vec<Item>)
        requires
            names@.len() == self.pinned@.len(),
        ensures
            item_views(r@) == pin_rows(self.pinned@, names@),
            r@.len() == self.pinned@.len(),
    {
        let mut v: Vec<Item> = Vec::new();
        let mut i: usize = 0;
        while i < self.pinned.len()
            invariant
                i <= self.pinned.len() == names@.len(),
                v.len() == i,
                forall|k: int| 0 <= k < i ==> (#[trigger] v@[k])@ == launcher(self.pinned@[k]@, names@[k]@),
            decreases self.pinned.len() - i,
        {
            v.push(
                Item {
                    kind: ItemKind::Launch(self.pinned[i].clone()),
                    name: names[i].clone(),
                    icon: None,
                },
            );
            i = i + 1;
        }
        assert(item_views(v@) =~= pin_rows(self.pinned@, names@));
        v
    }

    /// Back to the start, before the menu is shown: nothing searched, no folder
    /// open, the pins in view. `edited` then lists what there is.
    pub fn reset(&mut self)
        ensures
            final(self).stack@.len() == 0,
            final(self).query@.len() == 0,
            !final(self).showing_all,
            final(self).scroll == 0,
            final(self).items == old(self).items,
            final(self).hover == old(self).hover,
            final(self).width == old(self).width,
            final(self).height == old(self).height,
            final(self).rights == old(self).rights,
            final(self).pinned == old(self).pinned,
            final(self).avatar == old(self).avatar,
            forall|dpi: i32| #[trigger] old(self).wf(dpi) ==> final(self).wf(dpi),
    {
        self.stack = Vec::new();
        self.query = String::new();
        self.scroll = 0;
        self.showing_all = false;
    }

    /// A list of no more rows than one of its sources has fits.
    proof fn lemma_rebuilt(&self, l: &Listing, dpi: i32)
        requires
            usable_dpi(dpi),
            l.fits(self.pinned@.len(), dpi as int),
            rows_fit(self.pinned@.len() as int, ROW as int, dpi as int),
            ({
                let n = self.items@.len();
                n <= 60 || n <= l.folder_rows() || n <= l.root_rows() || n <= self.pinned@.len()
            }),
        ensures
            rows_fit(self.items@.len() as int, ROW as int, dpi as int),
    {
        let d = dpi as int;
        let n = self.items@.len() as int;
        lemma_px(34, d);
        if n <= l.folder_rows() {
            lemma_rows_fit(n, l.folder_rows(), ROW as int, d);
        } else if n <= l.root_rows() {
            lemma_rows_fit(n, l.root_rows(), ROW as int, d);
        } else if n <= self.pinned@.len() {
            lemma_rows_fit(n, self.pinned@.len() as int, ROW as int, d);
        } else {
            assert(n * px(34, d) <= 60 * 11628) by (nonlinear_arith)
                requires
                    n <= 60,
                    0 <= px(34, d) <= 11628,
            ;
        }
    }

    /// List again after the query changed or the menu opened: focus is in the search
    /// box.
    pub fn edited(&mut self, l: &Listing, dpi: i32) -> (r: Vec<u64>)
        requires
            old(self).wf(dpi),
            l.fits(old(self).pinned@.len(), dpi as int),
        ensures
            final(self).wf(dpi),
            item_views(final(self).items@) == listed(*old(self), *l),
            final(self).scroll == 0,
            final(self).hover == Hit::Search,
            final(self).same_place(*old(self)),
            r@ == icons(old(self).items@),
    {
        proof {
            l.lemma_counts(self.pinned@.len(), dpi);
        }
        let freed = self.rebuild(l, Hit::Search);
        proof {
            self.lemma_rebuilt(l, dpi);
        }
        freed
    }

    /// List again after a folder was entered or left: focus is on the first row.
    pub fn navigated(&mut self, l: &Listing, dpi: i32) -> (r: Vec<u64>)
        requires
            old(self).wf(dpi),
            l.fits(old(self).pinned@.len(), dpi as int),
        ensures
            final(self).wf(dpi),
            item_views(final(self).items@) == listed(*old(self), *l),
            final(self).scroll == 0,
            final(self).hover == first_of(final(self).items@.len() as int),
            final(self).same_place(*old(self)),
            r@ == icons(old(self).items@),
    {
        proof {
            l.lemma_counts(self.pinned@.len(), dpi);
        }
        let freed = self.rebuild(l, Hit::Nothing);
        proof {
            self.lemma_rebuilt(l, dpi);
        }
        self.hover = self.first_focus();
        freed
    }

    /// Nothing but the list, its scroll and the focus differs.
    pub open spec fn same_place(&self, other: MenuState) -> bool {
        &&& self.width == other.width
        &&& self.height == other.height
        &&& self.rights == other.rights
        &&& self.pinned == other.pinned
        &&& self.showing_all == other.showing_all
        &&& self.stack == other.stack
        &&& self.query == other.query
        &&& self.avatar == other.avatar
    }

    /// The path whose icon a row shows.
    pub fn icon_path(&self, i: usize) -> (r: Option<String>)
        ensures
            opt_view(r) == if i < self.items@.len() {
                match self.items@[i as int].kind@ {
                    KindView::Folder(p) => Some(p),
                    KindView::Launch(p) => Some(p),
                    KindView::Back => None,
                }
            } else {
                None
            },
    {
        if i >= self.items.len() {
            return None;
        }
        match &self.items[i].kind {
            ItemKind::Folder(p) => Some(p.clone()),
            ItemKind::Launch(p) => Some(p.clone()),
            ItemKind::Back => None,
        }
    }

    /// Give a row its icon.
    pub fn set_icon(&mut self, i: usize, icon: u64)
        requires
            i < old(self).items@.len(),
        ensures
            item_views(final(self).items@) == item_views(old(self).items@).update(
                i as int,
                (ItemView { icon: Some(icon), ..old(self).items@[i as int]@ }),
            ),
            final(self).scroll == old(self).scroll,
            final(self).hover == old(self).hover,
            final(self).same_place(*old(self)),
    {
        let ghost before = item_views(self.items@);
        let mut it = self.items.remove(i);
        it.icon = Some(icon);
        self.items.insert(i, it);
        assert(item_views(self.items@) =~= before.update(
            i as int,
            ItemView { icon: Some(icon), ..before[i as int] },
        ));
    }

    // ---- Layout and hit testing ----

    fn footer_top(&self, dpi: i32) -> (r: i32)
        requires
            self.wf(dpi),
        ensures
            r == self.footer_y(dpi as int),
    {
        self.height - scaled(FOOTER_H, dpi)
    }

    fn allprog_top(&self, dpi: i32) -> (r: i32)
        requires
            self.wf(dpi),
        ensures
            r == self.allprog_y(dpi as int),
    {
        proof {
            self.lemma_metrics(dpi);
        }
        self.footer_top(dpi) - scaled(ALLPROG_H, dpi)
    }

    fn left_pane_right(&self, dpi: i32) -> (r: i32)
        requires
            self.wf(dpi),
        ensures
            r == self.pane_x(dpi as int),
    {
        self.width - scaled(RIGHT_W, dpi) - scaled(4, dpi)
    }

    fn list_top(dpi: i32) -> (r: i32)
        requires
            usable_dpi(dpi),
        ensures
            r == Self::list_y(dpi as int),
    {
        scaled(OVERHANG, dpi) + scaled(8, dpi)
    }

    fn list_height(&self, dpi: i32) -> (r: i32)
        requires
            self.wf(dpi),
        ensures
            r == self.list_h(dpi as int),
    {
        proof {
            self.lemma_metrics(dpi);
        }
        self.allprog_top(dpi) - Self::list_top(dpi)
    }

    fn right_rows_top(dpi: i32) -> (r: i32)
        requires
            usable_dpi(dpi),
        ensures
            r == Self::links_y(dpi as int),
    {
        scaled(AVATAR, dpi) + scaled(12, dpi)
    }

    pub fn search_box_rect(&self, dpi: i32) -> (r: Rect)
        requires
            self.wf(dpi),
        ensures
            r == self.search_rect(dpi as int),
            r.near(),
    {
        proof {
            self.lemma_metrics(dpi);
        }
        let ft: i32 = self.footer_top(dpi);
        let h: i32 = scaled(FOOTER_H, dpi);
        Rect {
            left: scaled(12, dpi),
            top: ft + (h - scaled(30, dpi)) / 2,
            right: self.left_pane_right(dpi) - scaled(4, dpi),
            bottom: ft + (h + scaled(30, dpi)) / 2,
        }
    }

    pub fn shutdown_rect(&self, dpi: i32) -> (r: Rect)
        requires
            self.wf(dpi),
        ensures
            r == self.power_rect(dpi as int),
            r.near(),
    {
        proof {
            self.lemma_metrics(dpi);
        }
        Rect {
            left: self.width - scaled(140, dpi),
            top: self.footer_top(dpi),
            right: self.width - scaled(28, dpi),
            bottom: self.height,
        }
    }

    pub fn shutdown_chevron_rect(&self, dpi: i32) -> (r: Rect)
        requires
            self.wf(dpi),
        ensures
            r == self.chevron_rect(dpi as int),
            r.near(),
    {
        proof {
            self.lemma_metrics(dpi);
        }
        Rect {
            left: self.width - scaled(28, dpi),
            top: self.footer_top(dpi),
            right: self.width - scaled(6, dpi),
            bottom: self.height,
        }
    }

    /// The part of the menu at a point.
    pub open spec fn hit(&self, x: int, y: int, dpi: int) -> Hit {
        if y >= self.footer_y(dpi) {
            if self.power_rect(dpi).has(x, y) {
                Hit::Shutdown
            } else if self.chevron_rect(dpi).has(x, y) {
                Hit::ShutdownMenu
            } else if self.search_rect(dpi).has(x, y) {
                Hit::Search
            } else {
                Hit::Nothing
            }
        } else if x < self.pane_x(dpi) {
            if y >= self.allprog_y(dpi) {
                Hit::AllPrograms
            } else if y >= Self::list_y(dpi) {
                let i = (y - Self::list_y(dpi) + self.scroll) / px(ROW as int, dpi);
                if i < self.items@.len() {
                    Hit::Row(i as usize)
                } else {
                    Hit::Nothing
                }
            } else {
                Hit::Nothing
            }
        } else if y >= Self::links_y(dpi) {
            let i = (y - Self::links_y(dpi)) / px(RIGHT_ROW as int, dpi);
            if i < self.rights@.len() {
                Hit::Right(i as usize)
            } else {
                Hit::Nothing
            }
        } else {
            Hit::Nothing
        }
    }

    pub fn hit_test(&self, x: i32, y: i32, dpi: i32) -> (r: Hit)
        requires
            self.wf(dpi),
        ensures
            r == self.hit(x as int, y as int, dpi as int),
            valid_hit(r, self.items@.len() as int, self.rights@.len() as int),
    {
        proof {
            self.lemma_metrics(dpi);
        }
        if y >= self.footer_top(dpi) {
            if self.shutdown_rect(dpi).contains(x, y) {
                return Hit::Shutdown;
            }
            if self.shutdown_chevron_rect(dpi).contains(x, y) {
                return Hit::ShutdownMenu;
            }
            if self.search_box_rect(dpi).contains(x, y) {
                return Hit::Search;
            }
            return Hit::Nothing;
        }
        if x < self.left_pane_right(dpi) {
            if y >= self.allprog_top(dpi) {
                return Hit::AllPrograms;
            }
            let lt: i32 = Self::list_top(dpi);
            if y >= lt {
                let row: i32 = scaled(ROW, dpi);
                let at: i32 = y - lt + self.scroll;
                let idx: i32 = at / row;
                assert(0 <= at as int / row as int) by (nonlinear_arith)
                    requires
                        at >= 0,
                        row > 0,
                ;
                if (idx as usize) < self.items.len() {
                    return Hit::Row(idx as usize);
                }
            }
            return Hit::Nothing;
        }
        let rt: i32 = Self::right_rows_top(dpi);
        if y >= rt {
            let row: i32 = scaled(RIGHT_ROW, dpi);
            let at: i32 = y - rt;
            let idx: i32 = at / row;
            assert(0 <= at as int / row as int) by (nonlinear_arith)
                requires
                    at >= 0,
                    row > 0,
            ;
            if (idx as usize) < self.rights.len() {
                return Hit::Right(idx as usize);
            }
        }
        Hit::Nothing
    }

    pub fn max_scroll(&self, dpi: i32) -> (r: i32)
        requires
            self.wf(dpi),
        ensures
            r == self.scroll_limit(dpi as int),
            0 <= r <= 0x2100_0000,
    {
        proof {
            self.lemma_metrics(dpi);
        }
        max_i32(self.items.len() as i32 * scaled(ROW, dpi) - self.list_height(dpi), 0)
    }

    // ---- Focus ----

    pub fn first_focus(&self) -> (r: Hit)
        ensures
            r == first_of(self.items@.len() as int),
    {
        if self.items.len() == 0 {
            Hit::AllPrograms
        } else {
            Hit::Row(0)
        }
    }

    /// The scroll that shows row `i` in full, moving the list no further than need
    /// be.
    pub open spec fn scrolled_to(&self, i: int, dpi: int) -> int {
        let row = px(ROW as int, dpi);
        let lh = self.list_h(dpi);
        let top = i * row;
        clamped(
            if top < self.scroll {
                top
            } else if top + row > self.scroll + lh {
                top + row - lh
            } else {
                self.scroll as int
            },
            0,
            self.scroll_limit(dpi),
        )
    }

    /// Scroll the left-pane list so row `i` is fully visible.
    pub fn scroll_into_view(&mut self, i: usize, dpi: i32)
        requires
            old(self).wf(dpi),
            i < old(self).items@.len(),
        ensures
            final(self).wf(dpi),
            final(self).scroll == old(self).scrolled_to(i as int, dpi as int),
            final(self).items == old(self).items,
            final(self).hover == old(self).hover,
            final(self).same_place(*old(self)),
    {
        proof {
            self.lemma_metrics(dpi);
            let n = self.items@.len() as int;
            let row = px(ROW as int, dpi as int);
            assert(0 <= i * row <= n * row) by (nonlinear_arith)
                requires
                    0 <= i <= n,
                    row >= 0,
            ;
        }
        let row: i32 = scaled(ROW, dpi);
        let lh: i32 = self.list_height(dpi);
        let top: i32 = i as i32 * row;
        let bottom: i32 = top + row;
        let wanted: i32 = if top < self.scroll {
            top
        } else if bottom > self.scroll + lh {
            bottom - lh
        } else {
            self.scroll
        };
        self.scroll = clamp_i32(wanted, 0, self.max_scroll(dpi));
    }

    /// Move keyboard focus (the shared `hover` highlight).
    pub fn navigate(&mut self, dir: Dir, dpi: i32)
        requires
            old(self).wf(dpi),
        ensures
            final(self).wf(dpi),
            final(self).hover == moved(
                old(self).hover,
                dir,
                old(self).items@.len() as int,
                old(self).rights@.len() as int,
            ),
            final(self).scroll == match final(self).hover {
                Hit::Row(i) => old(self).scrolled_to(i as int, dpi as int),
                _ => old(self).scroll as int,
            },
            final(self).items == old(self).items,
            final(self).same_place(*old(self)),
    {
        let n: usize = self.items.len();
        let r: usize = self.rights.len();
        let cur = self.hover;
        let past_list = if r > 0 {
            Hit::Right(0)
        } else {
            Hit::ShutdownMenu
        };
        let above_power = if r > 0 {
            Hit::Right(r - 1)
        } else {
            self.first_focus()
        };
        let new = match cur {
            Hit::Search => match dir {
                Dir::Right => Hit::Shutdown,
                Dir::Up => Hit::AllPrograms,
                _ => Hit::Search,
            },
            Hit::Nothing => match dir {
                Dir::Right => past_list,
                _ => self.first_focus(),
            },
            Hit::Row(i) => match dir {
                Dir::Down => if i + 1 < n {
                    Hit::Row(i + 1)
                } else {
                    Hit::AllPrograms
                },
                Dir::Up => if i > 0 {
                    Hit::Row(i - 1)
                } else {
                    Hit::Row(0)
                },
                Dir::Right => past_list,
                Dir::Left => cur,
            },
            Hit::AllPrograms => match dir {
                Dir::Up => if n > 0 {
                    Hit::Row(n - 1)
                } else {
                    Hit::AllPrograms
                },
                Dir::Down => Hit::Search,
                Dir::Right => past_list,
                Dir::Left => cur,
            },
            Hit::Right(i) => match dir {
                Dir::Down => if i + 1 < r {
                    Hit::Right(i + 1)
                } else {
                    Hit::Shutdown
                },
                Dir::Up => if i > 0 {
                    Hit::Right(i - 1)
                } else {
                    Hit::Right(0)
                },
                Dir::Left => self.first_focus(),
                Dir::Right => Hit::ShutdownMenu,
            },
            Hit::Shutdown => match dir {
                Dir::Right => Hit::ShutdownMenu,
                Dir::Left => Hit::Search,
                Dir::Up => above_power,
                Dir::Down => cur,
            },
            Hit::ShutdownMenu => match dir {
                Dir::Left => Hit::Shutdown,
                Dir::Up => above_power,
                _ => cur,
            },
        };
        self.hover = new;
        match new {
            Hit::Row(i) => self.scroll_into_view(i, dpi),
            _ => {},
        }
    }

    // ---- Actions ----

    /// What activating a part comes to.
    pub open spec fn action_of(&self, hit: Hit) -> ActionView {
        match hit {
            Hit::Row(i) => if i >= self.items@.len() {
                ActionView::Nothing
            } else {
                match self.items@[i as int].kind@ {
                    KindView::Launch(p) => ActionView::Launch(p),
                    _ => ActionView::Navigate,
                }
            },
            Hit::AllPrograms => ActionView::Navigate,
            Hit::Right(i) => if i >= self.rights@.len() {
                ActionView::Nothing
            } else if self.rights@[i as int].cmd@ == RUN_DIALOG_CMD@ {
                ActionView::RunWindow
            } else {
                ActionView::Exec(self.rights@[i as int].cmd@, self.rights@[i as int].args@)
            },
            Hit::Shutdown => ActionView::Shutdown,
            Hit::ShutdownMenu => ActionView::ShutdownMenu,
            Hit::Search => ActionView::Nothing,
            Hit::Nothing => ActionView::Nothing,
        }
    }

    /// The folders open after activating a part: Back leaves one, a folder enters
    /// one, All apps leaves all.
    pub open spec fn stack_after(&self, hit: Hit) -> Seq<Seq<char>> {
        let s = views(self.stack@);
        match hit {
            Hit::Row(i) if i < self.items@.len() => match self.items@[i as int].kind@ {
                KindView::Back => if s.len() > 0 {
                    s.drop_last()
                } else {
                    s
                },
                KindView::Folder(p) => s.push(p),
                KindView::Launch(_) => s,
            },
            Hit::AllPrograms => seq![],
            _ => s,
        }
    }

    /// The state after `hit` was activated: the open folders changed, and All apps
    /// also clears the query and switches between the pins and everything. The list
    /// is still the old one.
    pub open spec fn follows(&self, was: MenuState, hit: Hit) -> bool {
        &&& views(self.stack@) == was.stack_after(hit)
        &&& self.query@ == if hit is AllPrograms {
            seq![]
        } else {
            was.query@
        }
        &&& self.showing_all == if hit is AllPrograms && was.pinned@.len() > 0 {
            !was.showing_all
        } else {
            was.showing_all
        }
        &&& self.items == was.items
        &&& self.scroll == was.scroll
        &&& self.hover == was.hover
        &&& self.width == was.width
        &&& self.height == was.height
        &&& self.rights == was.rights
        &&& self.pinned == was.pinned
        &&& self.avatar == was.avatar
    }

    /// Resolve the action for activating `hit`, mutating navigation state in place.
    pub fn resolve(&mut self, hit: Hit, dpi: i32) -> (r: Action)
        requires
            old(self).wf(dpi),
        ensures
            final(self).wf(dpi),
            r@ == old(self).action_of(hit),
            final(self).follows(*old(self), hit),
    {
        match hit {
            Hit::Row(i) => {
                if i >= self.items.len() {
                    return Action::Nothing;
                }
                match &self.items[i].kind {
                    ItemKind::Back => {
                        let _ = self.stack.pop();
                        assert(views(self.stack@) =~= old(self).stack_after(hit));
                        Action::Navigate
                    },
                    ItemKind::Folder(p) => {
                        self.stack.push(p.clone());
                        assert(views(self.stack@) =~= old(self).stack_after(hit));
                        Action::Navigate
                    },
                    ItemKind::Launch(p) => Action::Launch(p.clone()),
                }
            },
            Hit::AllPrograms => {
                self.stack = Vec::new();
                self.query = String::new();
                if self.pinned.len() > 0 {
                    self.showing_all = !self.showing_all;
                }
                assert(views(self.stack@) =~= old(self).stack_after(hit));
                Action::Navigate
            },
            Hit::Right(i) => {
                if i >= self.rights.len() {
                    return Action::Nothing;
                }
                let it = &self.rights[i];
                if same_str(it.cmd.as_str(), RUN_DIALOG_CMD) {
                    Action::RunWindow
                } else {
                    Action::Exec(it.cmd.clone(), it.args.clone())
                }
            },
            Hit::Shutdown => Action::Shutdown,
            Hit::ShutdownMenu => Action::ShutdownMenu,
            Hit::Search => Action::Nothing,
            Hit::Nothing => Action::Nothing,
        }
    }

    /// What Enter activates: the focused part; with the search box (or nothing)
    /// focused, the first program listed.
    pub open spec fn entered(&self) -> Hit {
        match self.hover {
            Hit::Search | Hit::Nothing => match first_launch(item_views(self.items@)) {
                Some(i) => Hit::Row(i as usize),
                None => Hit::Nothing,
            },
            h => h,
        }
    }

    fn enter_target(&self) -> (r: Hit)
        ensures
            r == self.entered(),
    {
        match self.hover {
            Hit::Search | Hit::Nothing => {
                let ghost v = item_views(self.items@);
                let ghost n = v.len() as int;
                let ghost p = |i: int| v[i].kind is Launch;
                let mut i: usize = 0;
                while i < self.items.len()
                    invariant
                        i <= self.items.len() == n,
                        v == item_views(self.items@),
                        p == (|i: int| v[i].kind is Launch),
                        first(n, p) == first_from(i as int, n, p),
                        first(n, p) == first_launch(v),
                        self.hover is Search || self.hover is Nothing,
                    decreases self.items.len() - i,
                {
                    let launch = match &self.items[i].kind {
                        ItemKind::Launch(_) => true,
                        _ => false,
                    };
                    assert(p(i as int) == launch);
                    if launch {
                        return Hit::Row(i);
                    }
                    i = i + 1;
                }
                Hit::Nothing
            },
            h => h,
        }
    }

    /// Right on a folder row, which expands it.
    pub open spec fn expands(&self, dir: Dir) -> Option<Hit> {
        match self.hover {
            Hit::Row(i) if dir == Dir::Right && i < self.items@.len() && self.items@[i as int].kind
                is Folder => Some(Hit::Row(i)),
            _ => None,
        }
    }

    /// Act on a key.
    pub fn on_key(&mut self, vk: u32, dpi: i32) -> (r: KeyOutcome)
        requires
            old(self).wf(dpi),
        ensures
            final(self).wf(dpi),
            vk == VK_ESCAPE ==> {
                &&& final(self).query@.len() == 0
                &&& *final(self) == (MenuState { query: final(self).query, ..*old(self) })
                &&& r is Hide <==> old(self).query@.len() == 0
                &&& r is Edited <==> old(self).query@.len() > 0
            },
            vk == VK_RETURN ==> {
                &&& (r matches KeyOutcome::Act(a) && a@ == old(self).action_of(old(self).entered()))
                &&& final(self).follows(*old(self), old(self).entered())
            },
            arrow(vk) matches Some(dir) ==> match old(self).expands(dir) {
                Some(hit) => {
                    &&& (r matches KeyOutcome::Act(a) && a@ == old(self).action_of(hit))
                    &&& final(self).follows(*old(self), hit)
                },
                None => {
                    &&& r is Repaint
                    &&& final(self).items == old(self).items
                    &&& final(self).same_place(*old(self))
                    &&& final(self).hover == moved(
                        old(self).hover,
                        dir,
                        old(self).items@.len() as int,
                        old(self).rights@.len() as int,
                    )
                    &&& final(self).scroll == match final(self).hover {
                        Hit::Row(i) => old(self).scrolled_to(i as int, dpi as int),
                        _ => old(self).scroll as int,
                    }
                },
            },
            vk != VK_ESCAPE && vk != VK_RETURN && arrow(vk) is None ==> r is Nothing
                && *final(self) == *old(self),
    {
        if vk == VK_ESCAPE {
            // First Esc clears an active search, second closes.
            if chars_of(self.query.as_str()).len() == 0 {
                KeyOutcome::Hide
            } else {
                self.query = String::new();
                KeyOutcome::Edited
            }
        } else if vk == VK_RETURN {
            let hit = self.enter_target();
            KeyOutcome::Act(self.resolve(hit, dpi))
        } else {
            match arrow_dir(vk) {
                Some(dir) => {
                    if dir == Dir::Right {
                        match self.hover {
                            Hit::Row(i) => {
                                if i < self.items.len() {
                                    let is_folder = match &self.items[i].kind {
                                        ItemKind::Folder(_) => true,
                                        _ => false,
                                    };
                                    if is_folder {
                                        return KeyOutcome::Act(self.resolve(Hit::Row(i), dpi));
                                    }
                                }
                            },
                            _ => {},
                        }
                    }
                    self.navigate(dir, dpi);
                    KeyOutcome::Repaint
                },
                None => KeyOutcome::Nothing,
            }
        }
    }

    /// The query after a typed character: Backspace takes the last one off, any
    /// other that is no control character is added.
    pub open spec fn typed(&self, c: u32) -> Seq<char> {
        if c == 8 {
            if self.query@.len() > 0 {
                self.query@.drop_last()
            } else {
                self.query@
            }
        } else if (c < 0xD800 || 0xE000 <= c <= 0x10FFFF) && !control(c as char) {
            self.query@.push(c as char)
        } else {
            self.query@
        }
    }

    /// Take a typed character. Whether the query changed; `edited` is then owed a
    /// fresh listing.
    pub fn on_char(&mut self, c: u32, dpi: i32) -> (r: bool)
        requires
            old(self).wf(dpi),
        ensures
            final(self).wf(dpi),
            final(self).query@ == old(self).typed(c),
            r == (old(self).typed(c).len() != old(self).query@.len()),
            final(self).items == old(self).items,
            final(self).stack == old(self).stack,
            final(self).showing_all == old(self).showing_all,
            final(self).hover == old(self).hover,
            final(self).scroll == old(self).scroll,
            final(self).rights == old(self).rights,
            final(self).pinned == old(self).pinned,
            final(self).width == old(self).width,
            final(self).height == old(self).height,
            final(self).avatar == old(self).avatar,
    {
        if c == 8 {
            let q = chars_of(self.query.as_str());
            if q.len() == 0 {
                return false;
            }
            let n: usize = q.len() - 1;
            let shorter = slice_of(&q, 0, n);
            assert(shorter@ =~= q@.drop_last());
            self.query = string_of(&shorter);
            true
        } else {
            match char::from_u32(c) {
                Some(ch) => {
                    proof {
                        vstd::utf8::char_u32_cast(ch, c);
                    }
                    let v: u32 = ch as u32;
                    if v <= 0x1F || (v >= 0x7F && v <= 0x9F) {
                        return false;
                    }
                    self.query.push(ch);
                    true
                },
                None => false,
            }
        }
    }

    /// Scroll the list by a turn of the wheel.
    pub fn on_wheel(&mut self, delta: i32, dpi: i32)
        requires
            old(self).wf(dpi),
            -32768 <= delta <= 32767,
        ensures
            final(self).wf(dpi),
            final(self).scroll == clamped(
                old(self).scroll - toward_zero(delta * px(ROW as int, dpi as int), 120),
                0,
                old(self).scroll_limit(dpi as int),
            ),
            final(self).scroll == crate::geometry::wheeled(
                old(self).scroll as int,
                delta as int,
                px(ROW as int, dpi as int),
                old(self).scroll_limit(dpi as int),
            ),
            final(self).items == old(self).items,
            final(self).hover == old(self).hover,
            final(self).same_place(*old(self)),
    {
        proof {
            self.lemma_metrics(dpi);
            let row = px(ROW as int, dpi as int);
            assert(delta * row == row * delta) by (nonlinear_arith);
            assert(-32768 * 11628 <= delta * row <= 32767 * 11628) by (nonlinear_arith)
                requires
                    -32768 <= delta <= 32767,
                    0 <= row <= 11628,
            ;
        }
        let by: i32 = delta * scaled(ROW, dpi) / 120;
        self.scroll = clamp_i32(self.scroll - by, 0, self.max_scroll(dpi));
    }

    /// Focus follows the mouse. Whether anything is to be repainted.
    pub fn on_mouse_move(&mut self, x: i32, y: i32, dpi: i32) -> (r: bool)
        requires
            old(self).wf(dpi),
        ensures
            final(self).wf(dpi),
            final(self).hover == old(self).hit(x as int, y as int, dpi as int),
            r == (final(self).hover != old(self).hover),
            final(self).items == old(self).items,
            final(self).scroll == old(self).scroll,
            final(self).same_place(*old(self)),
    {
        let hit = self.hit_test(x, y, dpi);
        let changed = hit != self.hover;
        self.hover = hit;
        changed
    }

    // ---- Placement ----

    /// Where the menu opens: above the taskbar with a gap, centred over a centred
    /// taskbar, else at the left.
    pub fn open_at(&self, taskbar_top: i32, screen_w: i32, centered: bool, dpi: i32) -> (r: (
        i32,
        i32,
    ))
        requires
            self.wf(dpi),
            near(taskbar_top as int),
            0 <= screen_w <= 0x1000_0000,
        ensures
            r.0 == if centered {
                clamped(
                    toward_zero(screen_w - self.width, 2),
                    px(8, dpi as int),
                    max2(screen_w - self.width - px(8, dpi as int), px(8, dpi as int)),
                )
            } else {
                px(8, dpi as int)
            },
            r.1 == taskbar_top - px(GAP as int, dpi as int) - self.height,
            r.0 == open_x(self.width as int, screen_w as int, centered, dpi as int),
    {
        let y: i32 = taskbar_top - scaled(GAP, dpi) - self.height;
        let m: i32 = scaled(8, dpi);
        let x: i32 = if centered {
            clamp_i32((screen_w - self.width) / 2, m, max_i32(screen_w - self.width - m, m))
        } else {
            m
        };
        (x, y)
    }

    /// Screen anchor (top-left of the Shut down button) for the power flyout of a
    /// menu whose window is at `(left, top)`.
    pub fn shutdown_anchor(&self, left: i32, top: i32, dpi: i32) -> (r: (i32, i32))
        requires
            self.wf(dpi),
            near(left as int),
            near(top as int),
        ensures
            r.0 == left + self.power_rect(dpi as int).left,
            r.1 == top + self.power_rect(dpi as int).top,
    {
        let sd = self.shutdown_rect(dpi);
        (left + sd.left, top + sd.top)
    }

    /// Where the blinking caret stands behind a query `text_w` pixels wide.
    pub fn position_caret(&self, text_w: i32, dpi: i32) -> (r: (i32, i32))
        requires
            self.wf(dpi),
            0 <= text_w <= 0x1000_0000,
        ensures
            ({
                let sb = self.search_rect(dpi as int);
                &&& r.0 == sb.left + px(34, dpi as int) + text_w
                &&& r.1 == toward_zero(sb.top + sb.bottom, 2) - px(16, dpi as int) / 2
            }),
    {
        let sb = self.search_box_rect(dpi);
        let y: i32 = (sb.top + sb.bottom) / 2 - scaled(16, dpi) / 2;
        (sb.left + scaled(34, dpi) + text_w, y)
    }
}

pub const VK_RETURN: u32 = 0x0D;

pub const VK_ESCAPE: u32 = 0x1B;

/// The direction of an arrow key.
pub open spec fn arrow(vk: u32) -> Option<Dir> {
    if vk == 0x26 {
        Some(Dir::Up)
    } else if vk == 0x28 {
        Some(Dir::Down)
    } else if vk == 0x25 {
        Some(Dir::Left)
    } else if vk == 0x27 {
        Some(Dir::Right)
    } else {
        None
    }
}

/// Map an arrow virtual-key to a navigation direction.
pub fn arrow_dir(vk: u32) -> (r: Option<Dir>)
    ensures
        r == arrow(vk),
{
    match vk {
        0x26 => Some(Dir::Up),
        0x28 => Some(Dir::Down),
        0x25 => Some(Dir::Left),
        0x27 => Some(Dir::Right),
        _ => None,
    }
}

/// What the Restart / Shut down flyout's command runs; other commands run nothing.
pub fn power_command(cmd: u32) -> (r: Option<Command>)
    ensures
        cmd == FLYOUT_RESTART ==> (r matches Some(c) && c.program@ == "wpeutil.exe"@ && c.args@
            == "reboot"@),
        cmd == FLYOUT_SHUT_DOWN ==> (r matches Some(c) && c.program@ == "wpeutil.exe"@ && c.args@
            == "shutdown"@),
        r is Some <==> cmd == FLYOUT_RESTART || cmd == FLYOUT_SHUT_DOWN,
{
    if cmd == FLYOUT_RESTART {
        Some(Command { program: "wpeutil.exe".to_owned(), args: "reboot".to_owned() })
    } else if cmd == FLYOUT_SHUT_DOWN {
        Some(Command { program: "wpeutil.exe".to_owned(), args: "shutdown".to_owned() })
    } else {
        None
    }
}

/// Where the Start Menu folder lies below a base folder.
pub fn programs_path(base: &str) -> (r: String)
    ensures
        r@ == joined(base@, "Microsoft\\Windows\\Start Menu\\Programs"@),
{
    join(base, "Microsoft\\Windows\\Start Menu\\Programs")
}

/// The folder of the same name as `current` below another root, unless it is the
/// same folder; `None` where `current` has no name.
pub open spec fn twin_of(root: Seq<char>, current: Seq<char>) -> Option<Seq<char>> {
    match last_name(current) {
        Some(name) => if same_path(joined(root, name), current) {
            None
        } else {
            Some(joined(root, name))
        },
        None => None,
    }
}

pub fn twin_path(root: &str, current: &str) -> (r: Option<String>)
    ensures
        opt_view(r) == twin_of(root@, current@),
{
    match base_name(current) {
        Some(name) => {
            let twin = join(root, name.as_str());
            if same(twin.as_str(), current) {
                None
            } else {
                Some(twin)
            }
        },
        None => None,
    }
}

/// Left edge of an open menu `width` pixels wide.
pub open spec fn open_x(width: int, screen_w: int, centered: bool, dpi: int) -> int {
    let edge = px(8, dpi);
    if centered {
        clamped(toward_zero(screen_w - width, 2), edge, max2(screen_w - width - edge, edge))
    } else {
        edge
    }
}

/// The centre of the user picture: over the right pane.
pub open spec fn avatar_x(width: int, dpi: int) -> int {
    width - px(RIGHT_W as int, dpi) / 2 - px(10, dpi)
}

/// The window's outline: a rounded body, and the circle of the protruding avatar.
pub struct Outline {
    pub body: Rect,
    pub corner: i32,
    pub circle: Rect,
}

pub fn window_region(width: i32, height: i32, dpi: i32) -> (r: Outline)
    requires
        usable_dpi(dpi),
        -0x1000_0000 <= width <= 0x1000_0000,
        -0x1000_0000 <= height <= 0x1000_0000,
    ensures
        ({
            let d = px(AVATAR as int, dpi as int);
            let cx = avatar_x(width as int, dpi as int);
            &&& r.body == rect(0, px(OVERHANG as int, dpi as int), width + 1, height + 1)
            &&& r.corner == px(RADIUS as int, dpi as int) * 2
            &&& r.circle == rect(cx - d / 2, 0, cx + d / 2 + 1, d + 1)
        }),
{
    let d: i32 = scaled(AVATAR, dpi);
    let cx: i32 = width - scaled(RIGHT_W, dpi) / 2 - scaled(10, dpi);
    Outline {
        body: Rect { left: 0, top: scaled(OVERHANG, dpi), right: width + 1, bottom: height + 1 },
        corner: scaled(RADIUS, dpi) * 2,
        circle: Rect { left: cx - d / 2, top: 0, right: cx + d / 2 + 1, bottom: d + 1 },
    }
}

// ---- Laws ----

/// An arrow key leaves the focus on something that exists.
pub proof fn focus_stays_valid(cur: Hit, dir: Dir, n: int, r: int)
    requires
        0 <= n <= usize::MAX,
        0 <= r <= usize::MAX,
        valid_hit(cur, n, r),
    ensures
        valid_hit(moved(cur, dir, n, r), n, r),
{
}

/// From the search box, Right reaches Shut down and then its flyout chevron.
pub proof fn search_right_reaches_power(n: int, r: int)
    ensures
        moved(Hit::Search, Dir::Right, n, r) == Hit::Shutdown,
        moved(moved(Hit::Search, Dir::Right, n, r), Dir::Right, n, r) == Hit::ShutdownMenu,
{
}

/// From a program row, Right twice reaches the power flyout.
pub proof fn list_right_right_reaches_power(i: usize, n: int, r: int)
    requires
        0 <= r,
    ensures
        moved(moved(Hit::Row(i), Dir::Right, n, r), Dir::Right, n, r) == Hit::ShutdownMenu,
{
}

/// Inside the list, Up undoes Down.
pub proof fn up_undoes_down(i: usize, n: int, r: int)
    requires
        i < n <= usize::MAX,
    ensures
        moved(moved(Hit::Row(i), Dir::Down, n, r), Dir::Up, n, r) == Hit::Row(i),
{
}

/// After scrolling it into view a row lies inside the list, where the list is high
/// enough for a row.
pub proof fn scrolled_row_is_visible(m: MenuState, i: int, dpi: i32)
    requires
        m.wf(dpi),
        0 <= i < m.items@.len(),
        m.list_h(dpi as int) >= px(ROW as int, dpi as int),
    ensures
        ({
            let row = px(ROW as int, dpi as int);
            let s = m.scrolled_to(i, dpi as int);
            &&& s <= i * row
            &&& (i + 1) * row <= s + m.list_h(dpi as int)
        }),
{
    m.lemma_metrics(dpi);
    let n = m.items@.len() as int;
    let row = px(ROW as int, dpi as int);
    assert((i + 1) * row == i * row + row && 0 <= i * row && (i + 1) * row <= n * row)
        by (nonlinear_arith)
        requires
            0 <= i < n,
            row >= 0,
    ;
}

} // verus!
