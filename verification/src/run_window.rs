//! A dark Run window: an input field with history recall, and OK / Cancel / Browse…
//! buttons.

use vstd::prelude::*;
use vstd::string::*;
use crate::geometry::{clamped, lemma_px, max2, max_i32, near, px, rect, scaled, valid_dpi, Rect};
use crate::paint::{
    emit, fill, label, shown, Draw, DrawView, Font, DT_BOTTOM, DT_NOPREFIX, DT_SINGLELINE,
    DT_WORDBREAK, GLYPH_CENTER, LINE_PLAIN,
};
use crate::run_dialog::seat;
use crate::sysinfo::{blue, green, red};
use crate::taskbar::{COL_ACCENT, COL_ACTIVE, COL_BG, COL_HOVER, COL_TEXT, COL_TEXT_DIM};
use crate::text::{
    chars_of, find_char, is_white, same_str, slice_of, string_of, trim, trim_front, trim_start,
    trimmed, views, white,
};

verus! {

pub const RUN_PROMPT: &'static str =
    "Type the name of a program, folder, document, or Internet resource, and StartPE will open it for you.";

// Layout metrics in 96-DPI px.
pub const WIDTH: i32 = 390;

pub const TITLE_H: i32 = 34;

pub const PAD: i32 = 16;

pub const ICON: i32 = 32;

pub const PROMPT_H: i32 = 48;

pub const LABEL_H: i32 = 20;

pub const EDIT_H: i32 = 26;

pub const BTN_W: i32 = 84;

pub const BTN_H: i32 = 30;

pub const GAP: i32 = 10;

pub const CLOSE: i32 = 34;

pub const GLYPH_CLOSE: &'static str = "\u{E8BB}";

// ---- Layout ----

/// Top of the icon and the prompt.
pub open spec fn block_top(dpi: int) -> int {
    px(TITLE_H as int, dpi) + px(PAD as int, dpi)
}

/// Bottom of the icon and the prompt, whichever is lower.
pub open spec fn block_bottom(dpi: int) -> int {
    block_top(dpi) + max2(px(PROMPT_H as int, dpi), px(ICON as int, dpi))
}

pub open spec fn icon_rect(dpi: int) -> Rect {
    let pad = px(PAD as int, dpi);
    let s = px(ICON as int, dpi);
    rect(pad, block_top(dpi), pad + s, block_top(dpi) + s)
}

pub open spec fn prompt_rect(dpi: int) -> Rect {
    rect(
        px(PAD as int, dpi) + px(ICON as int, dpi) + px(12, dpi),
        block_top(dpi),
        px(WIDTH as int, dpi) - px(PAD as int, dpi),
        block_top(dpi) + px(PROMPT_H as int, dpi),
    )
}

pub open spec fn label_rect(dpi: int) -> Rect {
    let top = block_bottom(dpi) + px(GAP as int, dpi);
    rect(
        px(PAD as int, dpi),
        top,
        px(WIDTH as int, dpi) - px(PAD as int, dpi),
        top + px(LABEL_H as int, dpi),
    )
}

pub open spec fn edit_top(dpi: int) -> int {
    block_bottom(dpi) + px(GAP as int, dpi) + px(LABEL_H as int, dpi) + px(2, dpi)
}

pub open spec fn edit_rect(dpi: int) -> Rect {
    rect(
        px(PAD as int, dpi),
        edit_top(dpi),
        px(WIDTH as int, dpi) - px(PAD as int, dpi),
        edit_top(dpi) + px(EDIT_H as int, dpi),
    )
}

pub open spec fn buttons_top(dpi: int) -> int {
    edit_top(dpi) + px(EDIT_H as int, dpi) + px(GAP as int, dpi) * 2
}

/// Button `k` from the right, in a right-aligned block: 0 is Browse…, 1 is Cancel, 2
/// is OK.
pub open spec fn button_rect(k: int, dpi: int) -> Rect {
    let bw = px(BTN_W as int, dpi);
    let right = px(WIDTH as int, dpi) - px(PAD as int, dpi) - k * (bw + px(GAP as int, dpi));
    rect(right - bw, buttons_top(dpi), right, buttons_top(dpi) + px(BTN_H as int, dpi))
}

pub open spec fn close_rect(dpi: int) -> Rect {
    let w = px(WIDTH as int, dpi);
    rect(w - px(CLOSE as int, dpi), 0, w, px(CLOSE as int, dpi))
}

pub open spec fn window_h(dpi: int) -> int {
    buttons_top(dpi) + px(BTN_H as int, dpi) + px(PAD as int, dpi)
}

/// One laid-out window: every rect is client-relative and already DPI-scaled.
pub struct Layout {
    pub icon: Rect,
    pub prompt: Rect,
    pub label: Rect,
    pub edit: Rect,
    pub ok: Rect,
    pub cancel: Rect,
    pub browse: Rect,
    pub close: Rect,
    pub height: i32,
}

pub fn layout(dpi: i32) -> (r: Layout)
    requires
        valid_dpi(dpi),
    ensures
        ({
            let d = dpi as int;
            &&& r.icon == icon_rect(d)
            &&& r.prompt == prompt_rect(d)
            &&& r.label == label_rect(d)
            &&& r.edit == edit_rect(d)
            &&& r.ok == button_rect(2, d)
            &&& r.cancel == button_rect(1, d)
            &&& r.browse == button_rect(0, d)
            &&& r.close == close_rect(d)
            &&& r.height == window_h(d)
        }),
        r.edit.near(),
        r.icon.near(),
        0 <= r.height <= 0x0020_0000,
{
    let w: i32 = scaled(WIDTH, dpi);
    let pad: i32 = scaled(PAD, dpi);
    let title: i32 = scaled(TITLE_H, dpi);
    let g: i32 = scaled(GAP, dpi);
    let bw: i32 = scaled(BTN_W, dpi);
    let icon = Rect {
        left: pad,
        top: title + pad,
        right: pad + scaled(ICON, dpi),
        bottom: title + pad + scaled(ICON, dpi),
    };
    let prompt = Rect {
        left: icon.right + scaled(12, dpi),
        top: title + pad,
        right: w - pad,
        bottom: title + pad + scaled(PROMPT_H, dpi),
    };
    let bottom: i32 = max_i32(prompt.bottom, icon.bottom);
    let label = Rect {
        left: pad,
        top: bottom + g,
        right: w - pad,
        bottom: bottom + g + scaled(LABEL_H, dpi),
    };
    let edit = Rect {
        left: pad,
        top: label.bottom + scaled(2, dpi),
        right: w - pad,
        bottom: label.bottom + scaled(2, dpi) + scaled(EDIT_H, dpi),
    };
    let btn_top: i32 = edit.bottom + g * 2;
    let btn_bottom: i32 = btn_top + scaled(BTN_H, dpi);
    let browse = Rect { left: w - pad - bw, top: btn_top, right: w - pad, bottom: btn_bottom };
    let cancel = Rect {
        left: browse.left - g - bw,
        top: btn_top,
        right: browse.left - g,
        bottom: btn_bottom,
    };
    let ok = Rect {
        left: cancel.left - g - bw,
        top: btn_top,
        right: cancel.left - g,
        bottom: btn_bottom,
    };
    let close = Rect { left: w - scaled(CLOSE, dpi), top: 0, right: w, bottom: scaled(CLOSE, dpi) };
    assert(0 * (bw + g) == 0 && 1 * (bw + g) == bw + g && 2 * (bw + g) == bw + g + bw + g)
        by (nonlinear_arith);
    Layout { icon, prompt, label, edit, ok, cancel, browse, close, height: btn_bottom + pad }
}

/// Where the window opens: at the left, just above the taskbar.
pub fn show_at(taskbar_top: i32, dpi: i32) -> (r: (i32, i32))
    requires
        valid_dpi(dpi),
        near(taskbar_top as int),
    ensures
        (r.0 as int, r.1 as int) == seat(taskbar_top as int, window_h(dpi as int), dpi as int),
{
    let h: i32 = layout(dpi).height;
    let m: i32 = scaled(12, dpi);
    (m, max_i32(taskbar_top - h - m, m))
}

#[derive(Clone, Copy, PartialEq, Eq, Structural, Debug)]
pub enum Hover {
    Nothing,
    Close,
    Accept,
    Cancel,
    Browse,
}

/// The part of the window at a point.
pub open spec fn hit_at(x: int, y: int, dpi: int) -> Hover {
    if close_rect(dpi).has(x, y) {
        Hover::Close
    } else if button_rect(2, dpi).has(x, y) {
        Hover::Accept
    } else if button_rect(1, dpi).has(x, y) {
        Hover::Cancel
    } else if button_rect(0, dpi).has(x, y) {
        Hover::Browse
    } else {
        Hover::Nothing
    }
}

pub fn hit(x: i32, y: i32, dpi: i32) -> (r: Hover)
    requires
        valid_dpi(dpi),
    ensures
        r == hit_at(x as int, y as int, dpi as int),
{
    let lay = layout(dpi);
    if lay.close.contains(x, y) {
        Hover::Close
    } else if lay.ok.contains(x, y) {
        Hover::Accept
    } else if lay.cancel.contains(x, y) {
        Hover::Cancel
    } else if lay.browse.contains(x, y) {
        Hover::Browse
    } else {
        Hover::Nothing
    }
}

// ---- State ----

pub struct State {
    /// The window's icon, or 0.
    pub icon: u64,
    pub hover: Hover,
    pub tracking_mouse: bool,
    /// Cursor into the history for Up/Down recall (`== len` means "past the end",
    /// i.e. a fresh empty entry).
    pub hist_pos: usize,
    /// Commands run so far, oldest first.
    pub history: Vec<String>,
}

/// What follows a mouse move.
#[derive(Clone, Copy, PartialEq, Eq, Structural, Debug)]
pub struct MoveOutcome {
    pub track: bool,
    pub repaint: bool,
}

/// What a click or a key in the input field does.
#[derive(Clone, Copy, PartialEq, Eq, Structural, Debug)]
pub enum Act {
    /// The field handles the key itself.
    Pass,
    Nothing,
    Close,
    Run,
    Browse,
    /// Recall the entry before.
    Older,
    /// Recall the entry behind.
    Newer,
}

/// The history with a command put at its end, and nowhere else.
pub open spec fn recorded(h: Seq<Seq<char>>, cmd: Seq<char>) -> Seq<Seq<char>> {
    without(h, cmd).push(cmd)
}

/// The entries that are not this command, in order.
pub open spec fn without(h: Seq<Seq<char>>, cmd: Seq<char>) -> Seq<Seq<char>>
    decreases h.len(),
{
    if h.len() == 0 {
        seq![]
    } else if h.last() == cmd {
        without(h.drop_last(), cmd)
    } else {
        without(h.drop_last(), cmd).push(h.last())
    }
}

/// The place in a history of `len` entries one step older or newer; behind the
/// newest stands a fresh entry.
pub open spec fn recalled(pos: int, len: int, newer: bool) -> int {
    clamped(
        if newer {
            pos + 1
        } else {
            pos - 1
        },
        0,
        len,
    )
}

/// The entry at a place of the history; past its end an empty one.
pub open spec fn entry_at(h: Seq<Seq<char>>, pos: int) -> Seq<char> {
    if 0 <= pos < h.len() {
        h[pos]
    } else {
        seq![]
    }
}

impl State {
    pub open spec fn wf(&self) -> bool {
        self.hist_pos <= self.history@.len()
    }

    pub fn show(icon: u64, history: Vec<String>) -> (r: State)
        ensures
            r.wf(),
            r.icon == icon,
            r.hover == Hover::Nothing,
            !r.tracking_mouse,
            r.hist_pos == history@.len(),
            r.history == history,
    {
        State { icon, hover: Hover::Nothing, tracking_mouse: false, hist_pos: history.len(), history }
    }

    pub fn on_mouse_move(&mut self, x: i32, y: i32, dpi: i32) -> (r: MoveOutcome)
        requires
            old(self).wf(),
            valid_dpi(dpi),
        ensures
            final(self).wf(),
            final(self).hover == hit_at(x as int, y as int, dpi as int),
            final(self).tracking_mouse,
            r.track == !old(self).tracking_mouse,
            r.repaint == (final(self).hover != old(self).hover),
            final(self).icon == old(self).icon,
            final(self).hist_pos == old(self).hist_pos,
            final(self).history == old(self).history,
    {
        let now = hit(x, y, dpi);
        let track = !self.tracking_mouse;
        let repaint = self.hover != now;
        self.tracking_mouse = true;
        self.hover = now;
        MoveOutcome { track, repaint }
    }

    /// The mouse left. Whether anything is to be repainted.
    pub fn on_mouse_leave(&mut self) -> (r: bool)
        requires
            old(self).wf(),
        ensures
            final(self).wf(),
            final(self).hover == Hover::Nothing,
            !final(self).tracking_mouse,
            r == (old(self).hover != Hover::Nothing),
            final(self).icon == old(self).icon,
            final(self).hist_pos == old(self).hist_pos,
            final(self).history == old(self).history,
    {
        let changed = self.hover != Hover::Nothing;
        self.tracking_mouse = false;
        self.hover = Hover::Nothing;
        changed
    }

    /// Whether a press drags the window: on the title bar, off the close button.
    pub fn on_button_down(x: i32, y: i32, dpi: i32) -> (r: bool)
        requires
            valid_dpi(dpi),
        ensures
            r == (y < px(TITLE_H as int, dpi as int) && !close_rect(dpi as int).has(
                x as int,
                y as int,
            )),
    {
        y < scaled(TITLE_H, dpi) && !layout(dpi).close.contains(x, y)
    }

    /// A click goes to what the mouse is over.
    pub fn on_button_up(&self) -> (r: Act)
        ensures
            r == match self.hover {
                Hover::Close => Act::Close,
                Hover::Cancel => Act::Close,
                Hover::Accept => Act::Run,
                Hover::Browse => Act::Browse,
                Hover::Nothing => Act::Nothing,
            },
    {
        match self.hover {
            Hover::Close => Act::Close,
            Hover::Cancel => Act::Close,
            Hover::Accept => Act::Run,
            Hover::Browse => Act::Browse,
            Hover::Nothing => Act::Nothing,
        }
    }

    /// Recall the previous or next history entry. `None` without a history.
    pub fn history_move(&mut self, newer: bool) -> (r: Option<String>)
        requires
            old(self).wf(),
        ensures
            final(self).wf(),
            final(self).history == old(self).history,
            final(self).icon == old(self).icon,
            final(self).hover == old(self).hover,
            final(self).tracking_mouse == old(self).tracking_mouse,
            old(self).history@.len() == 0 <==> r is None,
            r is None ==> *final(self) == *old(self),
            r matches Some(t) ==> {
                &&& final(self).hist_pos == recalled(
                    old(self).hist_pos as int,
                    old(self).history@.len() as int,
                    newer,
                )
                &&& t@ == entry_at(views(old(self).history@), final(self).hist_pos as int)
            },
    {
        let n: usize = self.history.len();
        if n == 0 {
            return None;
        }
        if newer {
            if self.hist_pos < n {
                self.hist_pos = self.hist_pos + 1;
            }
        } else {
            if self.hist_pos > 0 {
                self.hist_pos = self.hist_pos - 1;
            }
        }
        if self.hist_pos >= n {
            Some(String::new())
        } else {
            Some(self.history[self.hist_pos].clone())
        }
    }

    /// Take a command to run: it is recorded as the latest. `None` for a blank one.
    pub fn do_run(&mut self, text: &str) -> (r: Option<String>)
        requires
            old(self).wf(),
        ensures
            final(self).wf(),
            trimmed(text@).len() == 0 <==> r is None,
            r is None ==> *final(self) == *old(self),
            r matches Some(cmd) ==> {
                &&& cmd@ == trimmed(text@)
                &&& views(final(self).history@) == recorded(
                    views(old(self).history@),
                    trimmed(text@),
                )
                &&& final(self).hist_pos == final(self).history@.len()
                &&& final(self).icon == old(self).icon
                &&& final(self).hover == old(self).hover
                &&& final(self).tracking_mouse == old(self).tracking_mouse
            },
    {
        let t = trim(&chars_of(text));
        if t.len() == 0 {
            return None;
        }
        let cmd = string_of(&t);
        let mut kept: Vec<String> = Vec::new();
        let ghost all = views(self.history@);
        let mut i: usize = 0;
        assert(all.take(0) =~= seq![]);
        assert(views(kept@) =~= without(all.take(0), cmd@));
        while i < self.history.len()
            invariant
                i <= self.history.len(),
                *self == *old(self),
                all == views(self.history@),
                views(kept@) == without(all.take(i as int), cmd@),
            decreases self.history.len() - i,
        {
            let ghost before = kept@;
            assert(all[i as int] == self.history@[i as int]@);
            assert(all.take(i as int + 1).drop_last() =~= all.take(i as int));
            if !same_str(self.history[i].as_str(), cmd.as_str()) {
                kept.push(self.history[i].clone());
                assert(views(kept@) =~= views(before).push(all[i as int]));
            }
            i = i + 1;
        }
        assert(all.take(i as int) =~= all);
        let ghost before = kept@;
        kept.push(cmd.clone());
        assert(views(kept@) =~= views(before).push(cmd@));
        self.hist_pos = kept.len();
        self.history = kept;
        Some(cmd)
    }
}

pub const VK_RETURN: u64 = 0x0D;

pub const VK_ESCAPE: u64 = 0x1B;

pub const VK_UP: u64 = 0x26;

pub const VK_DOWN: u64 = 0x28;

/// Keys in the input field: Enter runs, Esc cancels, Up/Down recall history.
pub fn edit_key(key: u64) -> (r: Act)
    ensures
        r == if key == VK_RETURN {
            Act::Run
        } else if key == VK_ESCAPE {
            Act::Close
        } else if key == VK_UP {
            Act::Older
        } else if key == VK_DOWN {
            Act::Newer
        } else {
            Act::Pass
        },
{
    if key == VK_RETURN {
        Act::Run
    } else if key == VK_ESCAPE {
        Act::Close
    } else if key == VK_UP {
        Act::Older
    } else if key == VK_DOWN {
        Act::Newer
    } else {
        Act::Pass
    }
}

/// Whether a typed character is kept from the field, which would beep.
pub fn swallows_char(c: u64) -> (r: bool)
    ensures
        r == (c == 0x0D || c == 0x1B),
{
    c == 0x0D || c == 0x1B
}

// ---- Commands ----

/// What is asked of the file system before a command is split: itself, without white
/// space around it.
pub fn command_path(s: &str) -> (r: String)
    ensures
        r@ == trimmed(s@),
{
    string_of(&trim(&chars_of(s)))
}

/// The first white space in a text.
pub open spec fn first_white(s: Seq<char>) -> Option<int> {
    crate::search::first(s.len() as int, |i: int| white(s[i]))
}

/// The program of a command that starts with a quote and has another one.
pub open spec fn quoted_end(s: Seq<char>) -> Option<int> {
    if s.len() > 0 && s[0] == '"' {
        s.skip(1).index_of_first('"')
    } else {
        None
    }
}

/// Program and arguments of a command without white space around it: an existing
/// path as it is, a quoted program, or up to the first white space.
pub open spec fn split_of(s: Seq<char>, is_path: bool) -> (Seq<char>, Seq<char>) {
    if is_path {
        (s, seq![])
    } else {
        match quoted_end(s) {
            Some(end) => (s.skip(1).take(end), trim_front(s.skip(end + 2))),
            None => match first_white(s) {
                Some(i) => (s.take(i), trim_front(s.skip(i + 1))),
                None => (s, seq![]),
            },
        }
    }
}

fn find_quote(s: &Vec<char>) -> (r: Option<usize>)
    ensures
        match quoted_end(s@) {
            Some(end) => r matches Some(e) && e == end && end + 1 < s.len(),
            None => r is None,
        },
{
    if s.len() == 0 || s[0] != '"' {
        return None;
    }
    let rest = slice_of(s, 1, s.len());
    assert(rest@ =~= s@.skip(1));
    find_char(&rest, '"')
}

fn find_white(s: &Vec<char>) -> (r: Option<usize>)
    ensures
        match first_white(s@) {
            Some(i) => r matches Some(j) && j == i && i < s.len(),
            None => r is None,
        },
{
    let ghost v = s@;
    let ghost n = v.len() as int;
    let ghost p = |i: int| white(v[i]);
    let mut i: usize = 0;
    while i < s.len()
        invariant
            i <= s.len() == n,
            v == s@,
            p == (|i: int| white(v[i])),
            crate::search::first(n, p) == crate::search::first_from(i as int, n, p),
        decreases s.len() - i,
    {
        if is_white(s[i]) {
            assert(p(i as int));
            return Some(i);
        }
        assert(!p(i as int));
        i = i + 1;
    }
    None
}

/// Split an entered command into (program, args). If the whole string is an existing
/// path it runs as-is (handles paths with spaces and no args); a quoted program is
/// honored; otherwise it splits on the first whitespace character, of whatever kind.
pub fn split_command(s: &str, is_path: bool) -> (r: (String, String))
    ensures
        (r.0@, r.1@) == split_of(trimmed(s@), is_path),
{
    let t = trim(&chars_of(s));
    if is_path {
        return (string_of(&t), String::new());
    }
    match find_quote(&t) {
        Some(end) => {
            let program = slice_of(&t, 1, end + 1);
            let rest = slice_of(&t, end + 2, t.len());
            assert(program@ =~= t@.skip(1).take(end as int));
            assert(rest@ =~= t@.skip(end + 2));
            (string_of(&program), string_of(&trim_start(&rest)))
        },
        None => match find_white(&t) {
            Some(i) => {
                let program = slice_of(&t, 0, i);
                let rest = slice_of(&t, i + 1, t.len());
                assert(program@ =~= t@.take(i as int));
                assert(rest@ =~= t@.skip(i + 1));
                (string_of(&program), string_of(&trim_start(&rest)))
            },
            None => (string_of(&t), String::new()),
        },
    }
}

/// A path as it is put into the field.
pub fn quoted(path: &str) -> (r: String)
    ensures
        r@ == seq!['"'] + path@ + seq!['"'],
{
    let mut s = String::new();
    s.push('"');
    s.append(path);
    s.push('"');
    assert(s@ =~= seq!['"'] + path@ + seq!['"']);
    s
}

/// What is said of a command that could not be run.
pub fn not_found(cmd: &str) -> (r: String)
    ensures
        r@ == "StartPE cannot find '"@ + cmd@
            + "'. Make sure you typed the name correctly, and then try again."@,
{
    let mut s = "StartPE cannot find '".to_owned();
    s.append(cmd);
    s.append("'. Make sure you typed the name correctly, and then try again.");
    s
}

/// Whether the system's answer to a launch means that it succeeded.
pub fn launched(answer: u64) -> (r: bool)
    ensures
        r == (answer > 32),
{
    answer > 32
}

// ---- Laws ----

/// A path without quotes that Browse… puts into the field comes out as the program,
/// without arguments.
pub proof fn browsed_path_runs(path: Seq<char>, is_path: bool)
    requires
        !path.contains('"'),
        !is_path,
    ensures
        split_of(seq!['"'] + path + seq!['"'], is_path) == (path, Seq::<char>::empty()),
{
    let s = seq!['"'] + path + seq!['"'];
    let rest = s.skip(1);
    let n = path.len() as int;
    rest.index_of_first_ensures('"');
    assert(rest[n] == '"');
    assert(rest.contains('"'));
    let k = rest.index_of_first('"')->0;
    if k < n {
        assert(rest[k] == path[k]);
        assert(path.contains(path[k]));
    }
    assert(k == n);
    assert(rest.take(n) =~= path);
    assert(s.skip(n + 2) =~= seq![]);
}

proof fn lemma_without(h: Seq<Seq<char>>, cmd: Seq<char>)
    ensures
        !without(h, cmd).contains(cmd),
        h.no_duplicates() ==> without(h, cmd).no_duplicates(),
        forall|e: Seq<char>| #[trigger] without(h, cmd).contains(e) ==> h.contains(e),
        forall|e: Seq<char>| e != cmd && #[trigger] h.contains(e) ==> without(h, cmd).contains(e),
    decreases h.len(),
{
    if h.len() > 0 {
        let d = h.drop_last();
        lemma_without(d, cmd);
        let w = without(d, cmd);
        let r = without(h, cmd);
        assert forall|e: Seq<char>| #[trigger] r.contains(e) implies h.contains(e) by {
            let i = choose|i: int| 0 <= i < r.len() && r[i] == e;
            if i < w.len() {
                assert(w[i] == e);
                assert(w.contains(e));
                assert(d.contains(e));
                let j = choose|j: int| 0 <= j < d.len() && d[j] == e;
                assert(h[j] == e);
            } else {
                assert(h[h.len() - 1] == e);
            }
        }
        assert forall|e: Seq<char>| e != cmd && #[trigger] h.contains(e) implies r.contains(e) by {
            let i = choose|i: int| 0 <= i < h.len() && h[i] == e;
            if i < d.len() {
                assert(d[i] == e);
                assert(d.contains(e));
                assert(w.contains(e));
                let j = choose|j: int| 0 <= j < w.len() && w[j] == e;
                assert(r[j] == e);
            } else {
                assert(r[r.len() - 1] == e);
            }
        }
        if h.no_duplicates() {
            assert forall|i: int, j: int| 0 <= i < d.len() && 0 <= j < d.len() && i != j implies d[i]
                != d[j] by {
                assert(h[i] != h[j]);
            }
            if h.last() != cmd {
                assert forall|i: int| 0 <= i < w.len() implies w[i] != h.last() by {
                    assert(w.contains(w[i]));
                    assert(d.contains(w[i]));
                    let j = choose|j: int| 0 <= j < d.len() && d[j] == w[i];
                    assert(h[j] != h[h.len() - 1]);
                }
            }
        }
        if r.contains(cmd) {
            let i = choose|i: int| 0 <= i < r.len() && r[i] == cmd;
            if i < w.len() {
                assert(w.contains(cmd));
            }
        }
    }
}

/// Running a command makes it the latest entry, once; every other entry stays.
pub proof fn history_keeps_each_command_once(h: Seq<Seq<char>>, cmd: Seq<char>)
    requires
        h.no_duplicates(),
    ensures
        recorded(h, cmd).last() == cmd,
        recorded(h, cmd).no_duplicates(),
        forall|e: Seq<char>| #[trigger] h.contains(e) ==> recorded(h, cmd).contains(e),
{
    lemma_without(h, cmd);
    let w = without(h, cmd);
    let r = recorded(h, cmd);
    assert forall|i: int, j: int| 0 <= i < r.len() && 0 <= j < r.len() && i != j implies r[i]
        != r[j] by {
        if i < w.len() {
            assert(w.contains(w[i]));
        }
        if j < w.len() {
            assert(w.contains(w[j]));
        }
    }
    assert forall|e: Seq<char>| #[trigger] h.contains(e) implies r.contains(e) by {
        if e == cmd {
            assert(r[r.len() - 1] == e);
        } else {
            assert(w.contains(e));
            let i = choose|i: int| 0 <= i < w.len() && w[i] == e;
            assert(r[i] == e);
        }
    }
}

/// A step newer undoes a step older, and the other way round, away from the ends.
pub proof fn recall_steps_undo_each_other(pos: int, len: int)
    requires
        0 <= pos <= len,
    ensures
        pos > 0 ==> recalled(recalled(pos, len, false), len, true) == pos,
        pos < len ==> recalled(recalled(pos, len, true), len, false) == pos,
{
}

/// The buttons stand side by side inside the window, below the field.
pub proof fn buttons_do_not_overlap(dpi: int)
    requires
        0 <= dpi <= 32767,
    ensures
        0 <= button_rect(2, dpi).left,
        button_rect(2, dpi).right <= button_rect(1, dpi).left,
        button_rect(1, dpi).right <= button_rect(0, dpi).left,
        button_rect(0, dpi).right <= px(WIDTH as int, dpi),
        edit_rect(dpi).bottom <= button_rect(0, dpi).top,
        button_rect(0, dpi).bottom <= window_h(dpi),
{
    lemma_px(390, dpi);
    lemma_px(84, dpi);
    lemma_px(10, dpi);
    lemma_px(16, dpi);
    lemma_px(34, dpi);
    lemma_px(48, dpi);
    lemma_px(32, dpi);
    lemma_px(20, dpi);
    lemma_px(2, dpi);
    lemma_px(26, dpi);
    lemma_px(30, dpi);
    let bw = px(BTN_W as int, dpi);
    let g = px(GAP as int, dpi);
    assert(0 * (bw + g) == 0 && 1 * (bw + g) == bw + g && 2 * (bw + g) == bw + g + bw + g)
        by (nonlinear_arith);
}

// ---- Painting ----

/// A color nudged lighter: each channel by 24, to 255 at most.
pub open spec fn lightened(c: u32) -> int {
    let r = crate::geometry::min2(red(c) + 24, 255);
    let g = crate::geometry::min2(green(c) + 24, 255);
    let b = crate::geometry::min2(blue(c) + 24, 255);
    r + 0x100 * g + 0x1_0000 * b
}

/// Nudge a color lighter for a hovered accent button.
pub fn lighten(c: u32) -> (r: u32)
    ensures
        r == lightened(c),
{
    let r: u32 = c % 256 + 24;
    let g: u32 = c / 256 % 256 + 24;
    let b: u32 = c / 65536 % 256 + 24;
    let r: u32 = if r > 255 {
        255
    } else {
        r
    };
    let g: u32 = if g > 255 {
        255
    } else {
        g
    };
    let b: u32 = if b > 255 {
        255
    } else {
        b
    };
    r + 0x100 * g + 0x1_0000 * b
}

/// One button: the default one in the accent color.
pub open spec fn button_draws(r: Rect, text: Seq<char>, default: bool, hovered: bool, dpi: int) -> Seq<
    DrawView,
> {
    let bg = if default {
        if hovered {
            lightened(COL_ACCENT) as u32
        } else {
            COL_ACCENT
        }
    } else if hovered {
        COL_ACTIVE
    } else {
        COL_HOVER
    };
    seq![
        DrawView::Round { rect: r, fill: bg, edge: bg, width: 1, radius: px(5, dpi) as i32 },
        DrawView::Text { font: Font::Text, color: COL_TEXT, text, rect: r, flags: GLYPH_CENTER },
    ]
}

fn draw_button(out: &mut Vec<Draw>, r: Rect, text: &str, default: bool, hovered: bool, dpi: i32)
    requires
        valid_dpi(dpi),
    ensures
        shown(final(out)@) == shown(old(out)@) + button_draws(
            r,
            text@,
            default,
            hovered,
            dpi as int,
        ),
{
    let ghost before = shown(out@);
    let bg: u32 = if default {
        if hovered {
            lighten(COL_ACCENT)
        } else {
            COL_ACCENT
        }
    } else if hovered {
        COL_ACTIVE
    } else {
        COL_HOVER
    };
    emit(out, Draw::Round { rect: r, fill: bg, edge: bg, width: 1, radius: scaled(5, dpi) });
    label(out, Font::Text, COL_TEXT, text, r, GLYPH_CENTER);
    assert(shown(out@) =~= before + button_draws(r, text@, default, hovered, dpi as int));
}

impl State {
    /// Everything the window draws, back to front.
    pub open spec fn painted(&self, width: int, height: int, dpi: int) -> Seq<DrawView> {
        let h = px(TITLE_H as int, dpi);
        let e = edit_rect(dpi);
        let icon = icon_rect(dpi);
        seq![
            DrawView::Fill { rect: rect(0, 0, width, height), color: COL_BG },
            DrawView::Fill { rect: rect(0, 0, width, h), color: COL_HOVER },
            DrawView::Text {
                font: Font::Title,
                color: COL_TEXT,
                text: "Run"@,
                rect: rect(px(PAD as int, dpi), 0, width - px(CLOSE as int, dpi), h),
                flags: LINE_PLAIN,
            },
            DrawView::Text {
                font: Font::Glyph,
                color: if self.hover == Hover::Close {
                    COL_TEXT
                } else {
                    COL_TEXT_DIM
                },
                text: GLYPH_CLOSE@,
                rect: close_rect(dpi),
                flags: GLYPH_CENTER,
            },
        ] + (if self.icon != 0 {
            seq![
                DrawView::Icon {
                    icon: self.icon,
                    x: icon.left,
                    y: icon.top,
                    size: px(ICON as int, dpi) as i32,
                },
            ]
        } else {
            seq![]
        }) + seq![
            DrawView::Text {
                font: Font::Text,
                color: COL_TEXT_DIM,
                text: RUN_PROMPT@,
                rect: prompt_rect(dpi),
                flags: DT_WORDBREAK | DT_NOPREFIX,
            },
            DrawView::Text {
                font: Font::Text,
                color: COL_TEXT,
                text: "Open:"@,
                rect: label_rect(dpi),
                flags: DT_SINGLELINE | DT_BOTTOM | DT_NOPREFIX,
            },
            DrawView::Frame {
                rect: rect(e.left - 1, e.top - 1, e.right + 1, e.bottom + 1),
                color: COL_TEXT_DIM,
            },
        ] + button_draws(button_rect(2, dpi), "OK"@, true, self.hover == Hover::Accept, dpi)
            + button_draws(
            button_rect(1, dpi),
            "Cancel"@,
            false,
            self.hover == Hover::Cancel,
            dpi,
        ) + button_draws(
            button_rect(0, dpi),
            "Browse\u{2026}"@,
            false,
            self.hover == Hover::Browse,
            dpi,
        )
    }

    pub fn paint(&self, width: i32, height: i32, dpi: i32) -> (r: Vec<Draw>)
        requires
            valid_dpi(dpi),
            0 <= width <= 0x1000_0000,
            0 <= height <= 0x1000_0000,
        ensures
            shown(r@) == self.painted(width as int, height as int, dpi as int),
    {
        let mut out: Vec<Draw> = Vec::new();
        assert(shown(out@) =~= seq![]);
        let lay = layout(dpi);
        let h: i32 = scaled(TITLE_H, dpi);
        fill(&mut out, Rect { left: 0, top: 0, right: width, bottom: height }, COL_BG);
        fill(&mut out, Rect { left: 0, top: 0, right: width, bottom: h }, COL_HOVER);
        label(
            &mut out,
            Font::Title,
            COL_TEXT,
            "Run",
            Rect { left: scaled(PAD, dpi), top: 0, right: width - scaled(CLOSE, dpi), bottom: h },
            LINE_PLAIN,
        );
        label(
            &mut out,
            Font::Glyph,
            if self.hover == Hover::Close {
                COL_TEXT
            } else {
                COL_TEXT_DIM
            },
            GLYPH_CLOSE,
            lay.close,
            GLYPH_CENTER,
        );
        if self.icon != 0 {
            emit(
                &mut out,
                Draw::Icon {
                    icon: self.icon,
                    x: lay.icon.left,
                    y: lay.icon.top,
                    size: scaled(ICON, dpi),
                },
            );
        }
        label(
            &mut out,
            Font::Text,
            COL_TEXT_DIM,
            RUN_PROMPT,
            lay.prompt,
            DT_WORDBREAK | DT_NOPREFIX,
        );
        label(
            &mut out,
            Font::Text,
            COL_TEXT,
            "Open:",
            lay.label,
            DT_SINGLELINE | DT_BOTTOM | DT_NOPREFIX,
        );
        let e = lay.edit;
        emit(
            &mut out,
            Draw::Frame {
                rect: Rect {
                    left: e.left - 1,
                    top: e.top - 1,
                    right: e.right + 1,
                    bottom: e.bottom + 1,
                },
                color: COL_TEXT_DIM,
            },
        );
        draw_button(&mut out, lay.ok, "OK", true, self.hover == Hover::Accept, dpi);
        draw_button(&mut out, lay.cancel, "Cancel", false, self.hover == Hover::Cancel, dpi);
        draw_button(
            &mut out,
            lay.browse,
            "Browse\u{2026}",
            false,
            self.hover == Hover::Browse,
            dpi,
        );
        assert(shown(out@) =~= self.painted(width as int, height as int, dpi as int));
        out
    }
}

// ---- What the Run window is for ----

/// A command that was not run before is added behind the others; one that was run
/// before moves behind them, and they keep their order.
pub proof fn a_run_command_moves_to_the_end(a: Seq<Seq<char>>, cmd: Seq<char>, b: Seq<Seq<char>>)
    requires
        !a.contains(cmd),
        !b.contains(cmd),
    ensures
        recorded(a, cmd) == a.push(cmd),
        recorded(a.push(cmd) + b, cmd) == (a + b).push(cmd),
{
    lemma_without_none(a, cmd);
    lemma_without_one(a, cmd, b);
}

proof fn lemma_without_none(h: Seq<Seq<char>>, cmd: Seq<char>)
    requires
        !h.contains(cmd),
    ensures
        without(h, cmd) == h,
    decreases h.len(),
{
    if h.len() > 0 {
        let d = h.drop_last();
        assert forall|i: int| 0 <= i < d.len() implies d[i] != cmd by {
            assert(h.contains(h[i]));
        }
        lemma_without_none(d, cmd);
        assert(h.contains(h[h.len() - 1]));
        assert(d.push(h.last()) =~= h);
    } else {
        assert(h =~= seq![]);
    }
}

proof fn lemma_without_one(a: Seq<Seq<char>>, cmd: Seq<char>, b: Seq<Seq<char>>)
    requires
        !a.contains(cmd),
        !b.contains(cmd),
    ensures
        without(a.push(cmd) + b, cmd) == a + b,
    decreases b.len(),
{
    let h = a.push(cmd) + b;
    if b.len() > 0 {
        let d = b.drop_last();
        assert forall|i: int| 0 <= i < d.len() implies d[i] != cmd by {
            assert(b.contains(b[i]));
        }
        lemma_without_one(a, cmd, d);
        assert(h.drop_last() =~= a.push(cmd) + d);
        assert(h.last() == b.last());
        assert(b.contains(b[b.len() - 1]));
        assert((a + d).push(b.last()) =~= a + b);
    } else {
        assert(h.drop_last() =~= a);
        lemma_without_none(a, cmd);
        assert(a + b =~= a);
    }
}

/// The place in the history after `k` steps one way.
pub open spec fn recalled_often(pos: int, len: int, newer: bool, k: int) -> int
    decreases k,
{
    if k <= 0 {
        pos
    } else {
        recalled(recalled_often(pos, len, newer, k - 1), len, newer)
    }
}

/// From a fresh entry, `k` steps back recall the command that was run `k`-th last,
/// and no further than the oldest; the way forward ends at an empty entry.
pub proof fn steps_back_recall_the_latest(h: Seq<Seq<char>>, k: int)
    requires
        0 <= k,
    ensures
        k <= h.len() ==> recalled_often(h.len() as int, h.len() as int, false, k) == h.len() - k,
        k >= h.len() ==> recalled_often(h.len() as int, h.len() as int, false, k) == 0,
        1 <= k <= h.len() ==> entry_at(
            h,
            recalled_often(h.len() as int, h.len() as int, false, k),
        ) == h[h.len() - k],
        recalled(h.len() as int, h.len() as int, true) == h.len(),
        entry_at(h, h.len() as int).len() == 0,
    decreases k,
{
    if k > 0 {
        steps_back_recall_the_latest(h, k - 1);
    }
}

/// A command is split into its program and its arguments at the first white space, or
/// behind the quotes around the program; an existing path is not split.
pub proof fn a_command_is_split_behind_its_program(
    program: Seq<char>,
    gap: char,
    args: Seq<char>,
)
    requires
        program.len() > 0,
        white(gap),
        args.len() > 0,
        !white(args[0]),
        !program.contains('"'),
    ensures
        (forall|i: int| 0 <= i < program.len() ==> !white(#[trigger] program[i])) ==> {
            &&& split_of(program.push(gap) + args, false) == (program, args)
            &&& split_of(program, false) == (program, Seq::<char>::empty())
        },
        split_of(seq!['"'] + program + seq!['"', gap] + args, false) == (program, args),
        split_of(program.push(gap) + args, true) == (program.push(gap) + args, Seq::<char>::empty()),
{
    let s = program.push(gap) + args;
    let n = program.len() as int;
    if forall|i: int| 0 <= i < program.len() ==> !white(#[trigger] program[i]) {
        assert(program.contains(program[0]));
        let p = |i: int| white(s[i]);
        assert(s[n] == gap);
        assert(p(n));
        assert forall|i: int| 0 <= i < n implies !(#[trigger] p(i)) by {
            assert(s[i] == program[i]);
        }
        crate::search::lemma_first_is(0, s.len() as int, p, n);
        assert(s[0] == program[0]);
        assert(s.take(n) =~= program);
        assert(s.skip(n + 1) =~= args);
        let q = |i: int| white(program[i]);
        assert forall|i: int| 0 <= i < n implies !(#[trigger] q(i)) by {
            assert(!white(program[i]));
        }
        crate::search::lemma_first_none(0, n, q);
    }
    let t = seq!['"'] + program + seq!['"', gap] + args;
    assert(t[0] == '"');
    let rest = t.skip(1);
    rest.index_of_first_ensures('"');
    assert(rest[n] == '"');
    assert(rest.contains('"'));
    let at = rest.index_of_first('"')->0;
    if at < n {
        assert(rest[at] == program[at]);
        assert(program.contains(program[at]));
    }
    assert(at == n);
    assert(rest.take(n) =~= program);
    let behind = t.skip(n + 2);
    assert(behind =~= seq![gap] + args);
    assert(behind[0] == gap);
    assert(behind.skip(1) =~= args);
    assert(trim_front(args) == args);
    assert(trim_front(behind) == trim_front(behind.skip(1)));
}

/// Each button is hit inside it, and so is the close button.
pub proof fn each_button_is_hit_inside_it(x: int, y: int, dpi: int)
    requires
        0 <= dpi <= 32767,
    ensures
        close_rect(dpi).has(x, y) ==> hit_at(x, y, dpi) == Hover::Close,
        button_rect(2, dpi).has(x, y) ==> hit_at(x, y, dpi) == Hover::Accept,
        button_rect(1, dpi).has(x, y) ==> hit_at(x, y, dpi) == Hover::Cancel,
        button_rect(0, dpi).has(x, y) ==> hit_at(x, y, dpi) == Hover::Browse,
{
    buttons_do_not_overlap(dpi);
    lemma_px(WIDTH as int, dpi);
    lemma_px(16, dpi);
    lemma_px(20, dpi);
    lemma_px(26, dpi);
    lemma_px(34, dpi);
    lemma_px(48, dpi);
    lemma_px(32, dpi);
    lemma_px(10, dpi);
    lemma_px(2, dpi);
    lemma_px(30, dpi);
    lemma_px(84, dpi);
    assert(0 * (px(84, dpi) + px(10, dpi)) == 0) by (nonlinear_arith);
    assert(1 * (px(84, dpi) + px(10, dpi)) == px(84, dpi) + px(10, dpi)) by (nonlinear_arith);
    assert(2 * (px(84, dpi) + px(10, dpi)) == px(84, dpi) + px(10, dpi) + px(84, dpi) + px(10, dpi))
        by (nonlinear_arith);
}

} // verus!
