//! System tray (notification area) host.
//!
//! Applications register tray icons by sending a copy of their notify-icon data to
//! the tray window. Those registrations are parsed here, and the icon list is kept;
//! the taskbar renders it next to the clock and forwards clicks to each icon's
//! callback window.
//!
//! The data uses the 32-bit layout (handles as u32) regardless of architecture: it
//! is a cross-bitness wire format, behind an 8-byte header whose second word is the
//! message.

use vstd::prelude::*;
use vstd::string::*;
use crate::search::{first, first_from, lemma_first_from, lemma_first_is};
use crate::util::{decoded, text_until_nul, until_nul};

verus! {

// Message codes.
pub const NIM_ADD: u32 = 0;

pub const NIM_MODIFY: u32 = 1;

pub const NIM_DELETE: u32 = 2;

pub const NIM_SETVERSION: u32 = 4;

// Which parts of the data are valid.
pub const NIF_MESSAGE: u32 = 0x1;

pub const NIF_ICON: u32 = 0x2;

pub const NIF_TIP: u32 = 0x4;

pub const NIF_STATE: u32 = 0x8;

pub const NIS_HIDDEN: u32 = 0x1;

/// Bytes of header before the data.
pub const HEADER: usize = 8;

/// Bytes of the data at most.
pub const DATA: usize = 956;

/// Bytes of a message at least.
pub const SHORTEST: usize = 32;

// Where the data's parts stand.
pub const AT_OWNER: usize = 4;

pub const AT_UID: usize = 8;

pub const AT_FLAGS: usize = 12;

pub const AT_CALLBACK: usize = 16;

pub const AT_ICON: usize = 20;

pub const AT_TIP: usize = 24;

pub const AT_STATE: usize = 280;

pub const AT_STATE_MASK: usize = 284;

pub const AT_VERSION: usize = 800;

/// Units of the tip's text.
pub const TIP_UNITS: usize = 128;

/// Byte `k` of the data: what was not sent is 0.
pub open spec fn data_byte(m: Seq<u8>, k: int) -> int {
    if 0 <= k < DATA && HEADER + k < m.len() {
        m[HEADER + k] as int
    } else {
        0
    }
}

/// The 16-bit word of the data at `k`, low byte first.
pub open spec fn data_u16(m: Seq<u8>, k: int) -> u16 {
    (data_byte(m, k) + 256 * data_byte(m, k + 1)) as u16
}

/// The 32-bit word of the data at `k`, low byte first.
pub open spec fn data_u32(m: Seq<u8>, k: int) -> u32 {
    (data_byte(m, k) + 256 * data_byte(m, k + 1) + 0x1_0000 * data_byte(m, k + 2) + 0x100_0000
        * data_byte(m, k + 3)) as u32
}

/// The message's code: the second word of its header.
pub open spec fn message_code(m: Seq<u8>) -> u32 {
    (m[4] + 256 * m[5] + 0x1_0000 * m[6] + 0x100_0000 * m[7]) as u32
}

/// A parsed registration.
pub struct Notify {
    pub message: u32,
    pub owner: u32,
    pub uid: u32,
    pub flags: u32,
    pub callback: u32,
    pub icon: u32,
    pub tip: String,
    pub state: u32,
    pub state_mask: u32,
    pub version: u32,
}

pub struct NotifyView {
    pub message: u32,
    pub owner: u32,
    pub uid: u32,
    pub flags: u32,
    pub callback: u32,
    pub icon: u32,
    pub tip: Seq<char>,
    pub state: u32,
    pub state_mask: u32,
    pub version: u32,
}

impl View for Notify {
    type V = NotifyView;

    open spec fn view(&self) -> NotifyView {
        NotifyView {
            message: self.message,
            owner: self.owner,
            uid: self.uid,
            flags: self.flags,
            callback: self.callback,
            icon: self.icon,
            tip: self.tip@,
            state: self.state,
            state_mask: self.state_mask,
            version: self.version,
        }
    }
}

/// The tip's units.
pub open spec fn tip_units(m: Seq<u8>) -> Seq<u16> {
    Seq::new(TIP_UNITS as nat, |i: int| data_u16(m, AT_TIP + 2 * i))
}

/// What a message says; a message too short for its first fields says nothing.
pub open spec fn parsed(m: Seq<u8>) -> Option<NotifyView> {
    if m.len() < SHORTEST {
        None
    } else {
        Some(
            NotifyView {
                message: message_code(m),
                owner: data_u32(m, AT_OWNER as int),
                uid: data_u32(m, AT_UID as int),
                flags: data_u32(m, AT_FLAGS as int),
                callback: data_u32(m, AT_CALLBACK as int),
                icon: data_u32(m, AT_ICON as int),
                tip: decoded(until_nul(tip_units(m))),
                state: data_u32(m, AT_STATE as int),
                state_mask: data_u32(m, AT_STATE_MASK as int),
                version: data_u32(m, AT_VERSION as int),
            },
        )
    }
}

fn get_byte(m: &Vec<u8>, k: usize) -> (r: u32)
    requires
        k <= DATA,
    ensures
        r == data_byte(m@, k as int),
        r < 256,
{
    if k < DATA && HEADER + k < m.len() {
        m[HEADER + k] as u32
    } else {
        0
    }
}

fn get_u16(m: &Vec<u8>, k: usize) -> (r: u16)
    requires
        k < DATA,
    ensures
        r == data_u16(m@, k as int),
{
    (get_byte(m, k) + 256 * get_byte(m, k + 1)) as u16
}

fn get_u32(m: &Vec<u8>, k: usize) -> (r: u32)
    requires
        k + 3 <= DATA,
    ensures
        r == data_u32(m@, k as int),
{
    get_byte(m, k) + 256 * get_byte(m, k + 1) + 0x1_0000 * get_byte(m, k + 2) + 0x100_0000
        * get_byte(m, k + 3)
}

fn get_tip(m: &Vec<u8>) -> (r: String)
    ensures
        r@ == decoded(until_nul(tip_units(m@))),
{
    let mut v: Vec<u16> = Vec::new();
    let mut i: usize = 0;
    while i < TIP_UNITS
        invariant
            i <= TIP_UNITS,
            v@.len() == i,
            forall|k: int| 0 <= k < i ==> #[trigger] v@[k] == data_u16(m@, AT_TIP + 2 * k),
        decreases TIP_UNITS - i,
    {
        v.push(get_u16(m, AT_TIP + 2 * i));
        i = i + 1;
    }
    assert(v@ =~= tip_units(m@));
    text_until_nul(&v)
}

/// Read a registration message. What it leaves out at its end counts as 0.
pub fn parse(m: &Vec<u8>) -> (r: Option<Notify>)
    ensures
        r is Some == parsed(m@) is Some,
        r matches Some(n) ==> n@ == parsed(m@)->0,
{
    if m.len() < SHORTEST {
        return None;
    }
    let message: u32 = m[4] as u32 + 256 * m[5] as u32 + 0x1_0000 * m[6] as u32 + 0x100_0000
        * m[7] as u32;
    Some(
        Notify {
            message,
            owner: get_u32(m, AT_OWNER),
            uid: get_u32(m, AT_UID),
            flags: get_u32(m, AT_FLAGS),
            callback: get_u32(m, AT_CALLBACK),
            icon: get_u32(m, AT_ICON),
            tip: get_tip(m),
            state: get_u32(m, AT_STATE),
            state_mask: get_u32(m, AT_STATE_MASK),
            version: get_u32(m, AT_VERSION),
        },
    )
}

// ---- The icons ----

pub struct TrayIcon {
    pub owner: u32,
    pub uid: u32,
    pub callback: u32,
    pub icon: Option<u64>,
    pub tip: String,
    pub hidden: bool,
    pub version: u32,
}

pub struct IconView {
    pub owner: u32,
    pub uid: u32,
    pub callback: u32,
    pub icon: Option<u64>,
    pub tip: Seq<char>,
    pub hidden: bool,
    pub version: u32,
}

impl View for TrayIcon {
    type V = IconView;

    open spec fn view(&self) -> IconView {
        IconView {
            owner: self.owner,
            uid: self.uid,
            callback: self.callback,
            icon: self.icon,
            tip: self.tip@,
            hidden: self.hidden,
            version: self.version,
        }
    }
}

pub open spec fn icon_views(v: Seq<TrayIcon>) -> Seq<IconView> {
    Seq::new(v.len(), |i: int| v[i]@)
}

/// Which icon is registered under an owner's id.
pub open spec fn registered(v: Seq<IconView>, owner: u32, uid: u32) -> Option<int> {
    first(v.len() as int, |i: int| v[i].owner == owner && v[i].uid == uid)
}

/// An icon nothing is known of yet.
pub open spec fn blank(owner: u32, uid: u32) -> IconView {
    IconView { owner, uid, callback: 0, icon: None, tip: seq![], hidden: false, version: 0 }
}

/// An icon with the valid parts of a registration put over it; `copied` is the
/// shell's own copy of the icon that was sent.
pub open spec fn updated(i: IconView, n: NotifyView, copied: Option<u64>) -> IconView {
    IconView {
        callback: if n.flags & NIF_MESSAGE != 0 {
            n.callback
        } else {
            i.callback
        },
        icon: if n.flags & NIF_ICON != 0 {
            copied
        } else {
            i.icon
        },
        tip: if n.flags & NIF_TIP != 0 {
            n.tip
        } else {
            i.tip
        },
        hidden: if n.flags & NIF_STATE != 0 && n.state_mask & NIS_HIDDEN != 0 {
            n.state & NIS_HIDDEN != 0
        } else {
            i.hidden
        },
        ..i
    }
}

/// The icons after a registration message: adding and modifying are one, in
/// registration order; deleting takes an icon off; a version is noted.
pub open spec fn icons_after(v: Seq<IconView>, n: NotifyView, copied: Option<u64>) -> Seq<IconView> {
    let at = registered(v, n.owner, n.uid);
    if n.message == NIM_ADD || n.message == NIM_MODIFY {
        match at {
            Some(i) => v.update(i, updated(v[i], n, copied)),
            None => v.push(updated(blank(n.owner, n.uid), n, copied)),
        }
    } else if n.message == NIM_DELETE {
        match at {
            Some(i) => v.remove(i),
            None => v,
        }
    } else if n.message == NIM_SETVERSION {
        match at {
            Some(i) => v.update(i, IconView { version: n.version, ..v[i] }),
            None => v,
        }
    } else {
        v
    }
}

/// The icon that is no longer used after a message.
pub open spec fn dropped(v: Seq<IconView>, n: NotifyView) -> Option<u64> {
    match registered(v, n.owner, n.uid) {
        Some(i) => if n.message == NIM_DELETE || ((n.message == NIM_ADD || n.message == NIM_MODIFY)
            && n.flags & NIF_ICON != 0) {
            v[i].icon
        } else {
            None
        },
        None => None,
    }
}

/// Whether the taskbar has to draw the tray again after a message.
pub open spec fn redraws(v: Seq<IconView>, n: NotifyView) -> bool {
    n.message == NIM_ADD || n.message == NIM_MODIFY || (n.message == NIM_DELETE && registered(
        v,
        n.owner,
        n.uid,
    ) is Some)
}

/// No two icons are registered under the same owner and id.
pub open spec fn distinct(v: Seq<IconView>) -> bool {
    forall|i: int, j: int|
        0 <= i < j < v.len() ==> (#[trigger] v[i]).owner != (#[trigger] v[j]).owner || v[i].uid
            != v[j].uid
}

/// What follows a registration message.
#[derive(Clone, Copy, PartialEq, Eq, Structural, Debug)]
pub struct NotifyOutcome {
    /// It was one.
    pub handled: bool,
    pub redraw: bool,
    /// An icon to destroy.
    pub dropped: Option<u64>,
}

/// The tray's icons, in registration order.
pub struct TrayState {
    pub icons: Vec<TrayIcon>,
}

impl TrayState {
    pub open spec fn wf(&self) -> bool {
        distinct(icon_views(self.icons@))
    }

    pub fn create() -> (r: TrayState)
        ensures
            r.wf(),
            r.icons@.len() == 0,
    {
        TrayState { icons: Vec::new() }
    }

    fn position(&self, owner: u32, uid: u32) -> (r: Option<usize>)
        ensures
            match registered(icon_views(self.icons@), owner, uid) {
                Some(i) => r matches Some(j) && j == i && i < self.icons@.len(),
                None => r is None,
            },
    {
        let ghost v = icon_views(self.icons@);
        let ghost n = v.len() as int;
        let ghost p = |i: int| v[i].owner == owner && v[i].uid == uid;
        let mut i: usize = 0;
        while i < self.icons.len()
            invariant
                i <= self.icons.len() == n,
                v == icon_views(self.icons@),
                p == (|i: int| v[i].owner == owner && v[i].uid == uid),
                first(n, p) == first_from(i as int, n, p),
            decreases self.icons.len() - i,
        {
            assert(v[i as int] == self.icons@[i as int]@);
            if self.icons[i].owner == owner && self.icons[i].uid == uid {
                assert(p(i as int));
                return Some(i);
            }
            assert(!p(i as int));
            i = i + 1;
        }
        None
    }

    /// The icon of a message that is to be copied before the message is handled: it
    /// belongs to the sender, who may destroy it.
    pub fn icon_to_copy(n: &Notify) -> (r: Option<u32>)
        ensures
            r == if (n.message == NIM_ADD || n.message == NIM_MODIFY) && n.flags & NIF_ICON != 0 {
                Some(n.icon)
            } else {
                None
            },
    {
        if (n.message == NIM_ADD || n.message == NIM_MODIFY) && n.flags & NIF_ICON != 0 {
            Some(n.icon)
        } else {
            None
        }
    }

    /// Handle a registration message. `copied` is the copy of the icon that
    /// `icon_to_copy` names, where it could be made.
    pub fn handle_notify_data(&mut self, m: &Vec<u8>, copied: Option<u64>) -> (r: NotifyOutcome)
        requires
            old(self).wf(),
        ensures
            final(self).wf(),
            match parsed(m@) {
                None => {
                    &&& *final(self) == *old(self)
                    &&& r == (NotifyOutcome { handled: false, redraw: false, dropped: None })
                },
                Some(n) => {
                    let v = icon_views(old(self).icons@);
                    &&& icon_views(final(self).icons@) == icons_after(v, n, copied)
                    &&& r == (NotifyOutcome {
                        handled: true,
                        redraw: redraws(v, n),
                        dropped: dropped(v, n),
                    })
                },
            },
    {
        match parse(m) {
            Some(n) => self.apply(n, copied),
            None => NotifyOutcome { handled: false, redraw: false, dropped: None },
        }
    }

    /// Handle a parsed registration.
    pub fn apply(&mut self, n: Notify, copied: Option<u64>) -> (r: NotifyOutcome)
        requires
            old(self).wf(),
        ensures
            final(self).wf(),
            ({
                let v = icon_views(old(self).icons@);
                &&& icon_views(final(self).icons@) == icons_after(v, n@, copied)
                &&& r == (NotifyOutcome {
                    handled: true,
                    redraw: redraws(v, n@),
                    dropped: dropped(v, n@),
                })
            }),
    {
        let ghost v = icon_views(self.icons@);
        let ghost view = n@;
        let pos = self.position(n.owner, n.uid);
        proof {
            keys_stay_distinct(v, view, copied);
        }
        let mut gone: Option<u64> = None;
        let mut redraw = false;
        if n.message == NIM_ADD || n.message == NIM_MODIFY {
            redraw = true;
            let (idx, mut icon) = match pos {
                Some(i) => (i, self.icons.remove(i)),
                None => (
                    self.icons.len(),
                    TrayIcon {
                        owner: n.owner,
                        uid: n.uid,
                        callback: 0,
                        icon: None,
                        tip: String::new(),
                        hidden: false,
                        version: 0,
                    },
                ),
            };
            let ghost was = icon@;
            assert(pos is None ==> was.tip =~= seq![]);
            if n.flags & NIF_MESSAGE != 0 {
                icon.callback = n.callback;
            }
            if n.flags & NIF_ICON != 0 {
                gone = icon.icon;
                icon.icon = copied;
            }
            if n.flags & NIF_TIP != 0 {
                icon.tip = n.tip;
            }
            if n.flags & NIF_STATE != 0 && n.state_mask & NIS_HIDDEN != 0 {
                icon.hidden = n.state & NIS_HIDDEN != 0;
            }
            assert(icon@ == updated(was, view, copied));
            self.icons.insert(idx, icon);
            assert(icon_views(self.icons@) =~= icons_after(v, view, copied));
        } else if n.message == NIM_DELETE {
            match pos {
                Some(i) => {
                    let icon = self.icons.remove(i);
                    gone = icon.icon;
                    redraw = true;
                },
                None => {},
            }
            assert(icon_views(self.icons@) =~= icons_after(v, view, copied));
        } else if n.message == NIM_SETVERSION {
            match pos {
                Some(i) => {
                    let mut icon = self.icons.remove(i);
                    icon.version = n.version;
                    self.icons.insert(i, icon);
                },
                None => {},
            }
            assert(icon_views(self.icons@) =~= icons_after(v, view, copied));
        }
        NotifyOutcome { handled: true, redraw, dropped: gone }
    }

    /// Drop icons whose owner window died without taking them off. `alive` tells of
    /// each icon whether its owner is still there. Whether any was dropped.
    pub fn prune(&mut self, alive: &Vec<bool>) -> (r: bool)
        requires
            old(self).wf(),
            alive.len() == old(self).icons.len(),
        ensures
            final(self).wf(),
            icon_views(final(self).icons@) == still_owned(
                icon_views(old(self).icons@),
                alive@,
                alive@.len() as int,
            ),
            r == (final(self).icons@.len() != old(self).icons@.len()),
    {
        let ghost v = icon_views(self.icons@);
        let before: usize = self.icons.len();
        let mut i: usize = before;
        assert(v.skip(i as int) =~= seq![]);
        assert(v.take(i as int) =~= v);
        proof {
            lemma_owned_distinct(v, alive@, alive@.len() as int);
        }
        while i > 0
            invariant
                i <= before == alive.len() == v.len(),
                i <= self.icons@.len() <= before,
                icon_views(self.icons@).take(i as int) == v.take(i as int),
                still_owned(v, alive@, i as int) + icon_views(self.icons@).skip(i as int)
                    == still_owned(v, alive@, v.len() as int),
            decreases i,
        {
            let ghost w = icon_views(self.icons@);
            assert(w[i - 1] == v[i - 1]) by {
                assert(w.take(i as int)[i - 1] == v.take(i as int)[i - 1]);
            }
            i = i - 1;
            if !alive[i] {
                let _ = self.icons.remove(i);
                assert(icon_views(self.icons@) =~= w.remove(i as int));
                assert(icon_views(self.icons@).skip(i as int) =~= w.skip(i + 1));
            } else {
                assert(still_owned(v, alive@, i + 1) + w.skip(i + 1) =~= still_owned(
                    v,
                    alive@,
                    i as int,
                ) + w.skip(i as int));
            }
            assert(icon_views(self.icons@).take(i as int) =~= v.take(i as int)) by {
                assert(w.take(i + 1) == v.take(i + 1));
                assert(w.take(i + 1).take(i as int) =~= w.take(i as int));
                assert(v.take(i + 1).take(i as int) =~= v.take(i as int));
            }
        }
        assert(icon_views(self.icons@) =~= still_owned(v, alive@, v.len() as int));
        before != self.icons.len()
    }

    /// Visible icons, in registration order, for the taskbar to draw. 0 stands for
    /// an icon that could not be copied.
    pub fn snapshot(&self) -> (r: Vec<u64>)
        ensures
            r@ == visible_icons(icon_views(self.icons@), self.icons@.len() as int),
    {
        let ghost v = icon_views(self.icons@);
        let mut out: Vec<u64> = Vec::new();
        let mut i: usize = 0;
        while i < self.icons.len()
            invariant
                i <= self.icons.len(),
                v == icon_views(self.icons@),
                out@ == visible_icons(v, i as int),
            decreases self.icons.len() - i,
        {
            assert(v[i as int] == self.icons@[i as int]@);
            if !self.icons[i].hidden {
                let h: u64 = match self.icons[i].icon {
                    Some(h) => h,
                    None => 0,
                };
                out.push(h);
            }
            i = i + 1;
        }
        out
    }

    /// Which icon is the visible one number `index`.
    pub fn visible(&self, index: usize) -> (r: Option<usize>)
        ensures
            match nth_visible(icon_views(self.icons@), index as int, 0) {
                Some(i) => r matches Some(j) && j == i && i < self.icons@.len()
                    && !self.icons@[i].hidden,
                None => r is None,
            },
    {
        let ghost v = icon_views(self.icons@);
        let mut left: usize = index;
        let mut i: usize = 0;
        while i < self.icons.len()
            invariant
                i <= self.icons.len(),
                v == icon_views(self.icons@),
                nth_visible(v, index as int, 0) == nth_visible(v, left as int, i as int),
            decreases self.icons.len() - i,
        {
            assert(v[i as int] == self.icons@[i as int]@);
            if !self.icons[i].hidden {
                if left == 0 {
                    return Some(i);
                }
                left = left - 1;
            }
            i = i + 1;
        }
        None
    }

    /// Who gets a click on visible icon `index`.
    pub fn click(&self, index: usize) -> (r: Option<Target>)
        ensures
            match nth_visible(icon_views(self.icons@), index as int, 0) {
                Some(i) => {
                    let icon = self.icons@[i];
                    r == Some(
                        Target {
                            owner: icon.owner,
                            uid: icon.uid,
                            callback: icon.callback,
                            version: icon.version,
                        },
                    )
                },
                None => r is None,
            },
    {
        match self.visible(index) {
            Some(i) => {
                let icon = &self.icons[i];
                Some(
                    Target {
                        owner: icon.owner,
                        uid: icon.uid,
                        callback: icon.callback,
                        version: icon.version,
                    },
                )
            },
            None => None,
        }
    }
}

/// Where a click goes.
#[derive(Clone, Copy, PartialEq, Eq, Structural, Debug)]
pub struct Target {
    pub owner: u32,
    pub uid: u32,
    pub callback: u32,
    pub version: u32,
}

/// The first `n` icons without those whose owner is gone.
pub open spec fn still_owned(v: Seq<IconView>, alive: Seq<bool>, n: int) -> Seq<IconView>
    decreases n,
{
    if n <= 0 {
        seq![]
    } else if alive[n - 1] {
        still_owned(v, alive, n - 1).push(v[n - 1])
    } else {
        still_owned(v, alive, n - 1)
    }
}

/// The visible ones of the first `n` icons.
pub open spec fn visible_icons(v: Seq<IconView>, n: int) -> Seq<u64>
    decreases n,
{
    if n <= 0 {
        seq![]
    } else if v[n - 1].hidden {
        visible_icons(v, n - 1)
    } else {
        visible_icons(v, n - 1).push(
            match v[n - 1].icon {
                Some(h) => h,
                None => 0,
            },
        )
    }
}

/// The visible icon number `k` from icon `i` on.
pub open spec fn nth_visible(v: Seq<IconView>, k: int, i: int) -> Option<int>
    decreases v.len() - i,
{
    if i >= v.len() {
        None
    } else if v[i].hidden {
        nth_visible(v, k, i + 1)
    } else if k == 0 {
        Some(i)
    } else {
        nth_visible(v, k - 1, i + 1)
    }
}

/// A message to an icon's owner.
#[derive(Clone, Copy, PartialEq, Eq, Structural, Debug)]
pub struct Posted {
    pub wparam: u64,
    pub lparam: i64,
}

/// The mouse messages of a click.
pub open spec fn click_events(right: bool) -> Seq<u32> {
    if right {
        seq![0x204u32, 0x205u32, 0x7Bu32]
    } else {
        seq![0x201u32, 0x202u32]
    }
}

/// The message an owner gets for one mouse message. From version 4 on it holds the
/// cursor's place and the icon's id beside the event.
pub open spec fn posted(t: Target, event: u32, x: int, y: int) -> Posted {
    if t.version >= 4 {
        Posted {
            wparam: (x % 0x1_0000 + (y % 0x1_0000) * 0x1_0000) as u64,
            lparam: (event as int % 0x1_0000 + (t.uid as int % 0x1_0000) * 0x1_0000) as i64,
        }
    } else {
        Posted { wparam: t.uid as u64, lparam: event as i64 }
    }
}

/// The low 16 bits of a coordinate.
fn word(v: i32) -> (r: u64)
    ensures
        r == v as int % 0x1_0000,
{
    ((v as i64 + 0x1_0000_0000) as u64) % 0x1_0000
}

/// The messages of a click with the cursor at `(x, y)`, in order.
pub fn click_messages(t: Target, right: bool, x: i32, y: i32) -> (r: Vec<Posted>)
    ensures
        r@.len() == click_events(right).len(),
        forall|i: int|
            0 <= i < r@.len() ==> #[trigger] r@[i] == posted(
                t,
                click_events(right)[i],
                x as int,
                y as int,
            ),
{
    let mut out: Vec<Posted> = Vec::new();
    if right {
        out.push(one_message(t, 0x204, x, y));
        out.push(one_message(t, 0x205, x, y));
        out.push(one_message(t, 0x7B, x, y));
    } else {
        out.push(one_message(t, 0x201, x, y));
        out.push(one_message(t, 0x202, x, y));
    }
    out
}

fn one_message(t: Target, event: u32, x: i32, y: i32) -> (r: Posted)
    ensures
        r == posted(t, event, x as int, y as int),
{
    if t.version >= 4 {
        Posted {
            wparam: word(x) + word(y) * 0x1_0000,
            lparam: event as i64 % 0x1_0000 + (t.uid as i64 % 0x1_0000) * 0x1_0000,
        }
    } else {
        Posted { wparam: t.uid as u64, lparam: event as i64 }
    }
}

/// How often running programs are asked to register their icons: at startup, and
/// again over the first seconds, for those that are started alongside.
pub const ANNOUNCEMENTS: u32 = 4;

/// Whether to ask once more, having asked this often.
pub fn announces_again(made: u32) -> (r: bool)
    ensures
        r == (made < ANNOUNCEMENTS),
{
    made < ANNOUNCEMENTS
}

/// Where a copied message goes: registrations are handled here, and mirrored to
/// Explorer's tray; everything else is proxied to it.
#[derive(Clone, Copy, PartialEq, Eq, Structural, Debug)]
pub struct Route {
    pub ours: bool,
    pub forward: bool,
}

pub fn route(kind: u64, explorer_alive: bool) -> (r: Route)
    ensures
        r.ours == (kind == 1),
        r.forward == explorer_alive,
{
    Route { ours: kind == 1, forward: explorer_alive }
}

// ---- Laws ----

/// Whatever is registered, an owner's id stands for one icon.
pub proof fn keys_stay_distinct(v: Seq<IconView>, n: NotifyView, copied: Option<u64>)
    requires
        distinct(v),
    ensures
        distinct(icons_after(v, n, copied)),
{
    let p = |i: int| v[i].owner == n.owner && v[i].uid == n.uid;
    lemma_first_from(0, v.len() as int, p);
    let r = icons_after(v, n, copied);
    assert forall|i: int, j: int| 0 <= i < j < r.len() implies (#[trigger] r[i]).owner != (
    #[trigger] r[j]).owner || r[i].uid != r[j].uid by {
        match registered(v, n.owner, n.uid) {
            Some(k) => {
                if n.message == NIM_DELETE {
                    let a = if i < k {
                        i
                    } else {
                        i + 1
                    };
                    let b = if j < k {
                        j
                    } else {
                        j + 1
                    };
                    assert(r[i] == v[a] && r[j] == v[b]);
                } else {
                    assert(r[i].owner == v[i].owner && r[i].uid == v[i].uid);
                    assert(r[j].owner == v[j].owner && r[j].uid == v[j].uid);
                }
            },
            None => {
                if j == v.len() {
                    assert(r[i] == v[i]);
                    assert(!p(i));
                } else {
                    assert(r[i] == v[i] && r[j] == v[j]);
                }
            },
        }
    }
}

/// One of the first `n` icons.
spec fn among(v: Seq<IconView>, n: int, x: IconView) -> bool {
    exists|i: int| 0 <= i < n && #[trigger] v[i] == x
}

proof fn lemma_owned_distinct(v: Seq<IconView>, alive: Seq<bool>, n: int)
    requires
        distinct(v),
        0 <= n <= v.len(),
    ensures
        distinct(still_owned(v, alive, n)),
        forall|k: int|
            0 <= k < still_owned(v, alive, n).len() ==> among(
                v,
                n,
                #[trigger] still_owned(v, alive, n)[k],
            ),
    decreases n,
{
    if n > 0 {
        lemma_owned_distinct(v, alive, n - 1);
        let before = still_owned(v, alive, n - 1);
        let r = still_owned(v, alive, n);
        assert forall|k: int| 0 <= k < r.len() implies among(v, n, #[trigger] r[k]) by {
            if k < before.len() {
                assert(r[k] == before[k]);
                assert(among(v, n - 1, before[k]));
                let i = choose|i: int| 0 <= i < n - 1 && #[trigger] v[i] == before[k];
                assert(v[i] == r[k]);
            } else {
                assert(v[n - 1] == r[k]);
            }
        }
        assert forall|i: int, j: int| 0 <= i < j < r.len() implies (#[trigger] r[i]).owner != (
        #[trigger] r[j]).owner || r[i].uid != r[j].uid by {
            assert(r[i] == before[i]);
            if j < before.len() {
                assert(r[j] == before[j]);
            } else {
                assert(among(v, n - 1, before[i]));
                let k = choose|k: int| 0 <= k < n - 1 && #[trigger] v[k] == before[i];
                assert(v[k] == r[i]);
                assert(r[j] == v[n - 1]);
            }
        }
    }
}

/// Deleting an icon right after it was first added leaves the tray as it was.
pub proof fn delete_undoes_add(
    v: Seq<IconView>,
    add: NotifyView,
    copied: Option<u64>,
    delete: NotifyView,
)
    requires
        add.message == NIM_ADD,
        delete.message == NIM_DELETE,
        delete.owner == add.owner,
        delete.uid == add.uid,
        registered(v, add.owner, add.uid) is None,
    ensures
        icons_after(icons_after(v, add, copied), delete, None) == v,
{
    let p = |i: int| v[i].owner == add.owner && v[i].uid == add.uid;
    lemma_first_from(0, v.len() as int, p);
    let w = icons_after(v, add, copied);
    let q = |i: int| w[i].owner == delete.owner && w[i].uid == delete.uid;
    assert forall|i: int| 0 <= i < v.len() implies !(#[trigger] q(i)) by {
        assert(w[i] == v[i]);
        assert(!p(i));
    }
    assert(q(v.len() as int));
    lemma_first_is(0, w.len() as int, q, v.len() as int);
    assert(icons_after(w, delete, None) =~= v);
}

/// Modifying an icon moves none: the icons stay in registration order.
pub proof fn modifying_keeps_the_order(v: Seq<IconView>, n: NotifyView, copied: Option<u64>, i: int)
    requires
        n.message == NIM_ADD || n.message == NIM_MODIFY,
        0 <= i < v.len(),
    ensures
        icons_after(v, n, copied).len() >= v.len(),
        icons_after(v, n, copied)[i].owner == v[i].owner,
        icons_after(v, n, copied)[i].uid == v[i].uid,
        v[i].owner != n.owner || v[i].uid != n.uid ==> icons_after(v, n, copied)[i] == v[i],
{
    let p = |i: int| v[i].owner == n.owner && v[i].uid == n.uid;
    lemma_first_from(0, v.len() as int, p);
}

/// What is drawn at a place of the tray is what a click there reaches.
pub proof fn clicks_reach_what_is_drawn(v: Seq<IconView>, k: int)
    requires
        0 <= k,
    ensures
        (nth_visible(v, k, 0) is Some) == (k < visible_icons(v, v.len() as int).len()),
        nth_visible(v, k, 0) matches Some(i) ==> 0 <= i < v.len() && visible_icons(
            v,
            v.len() as int,
        )[k] == (match v[i].icon {
            Some(h) => h,
            None => 0,
        }),
{
    lemma_visible(v, k, 0);
}

proof fn lemma_visible(v: Seq<IconView>, k: int, i: int)
    requires
        0 <= k,
        0 <= i <= v.len(),
    ensures
        (nth_visible(v, k, i) is Some) == (visible_icons(v, i).len() + k < visible_icons(
            v,
            v.len() as int,
        ).len()),
        visible_icons(v, i).len() <= visible_icons(v, v.len() as int).len(),
        nth_visible(v, k, i) matches Some(j) ==> i <= j < v.len() && visible_icons(
            v,
            v.len() as int,
        )[visible_icons(v, i).len() + k] == (match v[j].icon {
            Some(h) => h,
            None => 0,
        }),
    decreases v.len() - i,
{
    if i < v.len() {
        if v[i].hidden {
            lemma_visible(v, k, i + 1);
        } else {
            if k > 0 {
                lemma_visible(v, k - 1, i + 1);
            } else {
                lemma_visible(v, 0, i + 1);
                lemma_visible_prefix(v, i + 1, v.len() as int);
            }
        }
    }
}

proof fn lemma_visible_prefix(v: Seq<IconView>, i: int, n: int)
    requires
        0 <= i <= n <= v.len(),
    ensures
        visible_icons(v, i).len() <= visible_icons(v, n).len(),
        forall|k: int|
            0 <= k < visible_icons(v, i).len() ==> #[trigger] visible_icons(v, n)[k]
                == visible_icons(v, i)[k],
    decreases n,
{
    if i < n {
        lemma_visible_prefix(v, i, n - 1);
    }
}

// ---- What the tray is for ----

/// `x` is the icon registered under an owner's id.
pub open spec fn keyed(x: IconView, owner: u32, uid: u32) -> bool {
    x.owner == owner && x.uid == uid
}

/// No two icons hold the same picture.
pub open spec fn pictures_differ(v: Seq<IconView>) -> bool {
    forall|i: int, j: int|
        0 <= i < j < v.len() && (#[trigger] v[i]).icon is Some ==> v[i].icon != (
        #[trigger] v[j]).icon
}

/// Some icon holds the picture `h`.
pub open spec fn held(v: Seq<IconView>, h: u64) -> bool {
    exists|i: int| 0 <= i < v.len() && (#[trigger] v[i]).icon == Some(h)
}

/// After an icon was added or modified there is one icon under its key. It has the
/// parts of the message that its flags call valid, whether it was there before or
/// not, and else what it had.
pub proof fn a_registration_is_taken_over(v: Seq<IconView>, n: NotifyView, copied: Option<u64>)
    requires
        distinct(v),
        n.message == 0 || n.message == 1,
    ensures
        exists|i: int|
            0 <= i < icons_after(v, n, copied).len() && keyed(
                #[trigger] icons_after(v, n, copied)[i],
                n.owner,
                n.uid,
            ),
        forall|i: int|
            0 <= i < icons_after(v, n, copied).len() && keyed(
                #[trigger] icons_after(v, n, copied)[i],
                n.owner,
                n.uid,
            ) ==> {
                let x = icons_after(v, n, copied)[i];
                &&& n.flags & 0x1 != 0 ==> x.callback == n.callback
                &&& n.flags & 0x2 != 0 ==> x.icon == copied
                &&& n.flags & 0x4 != 0 ==> x.tip == n.tip
                &&& (n.flags & 0x8 != 0 && n.state_mask & 0x1 != 0) ==> x.hidden == (n.state & 0x1
                    != 0)
            },
        forall|i: int, j: int|
            0 <= i < icons_after(v, n, copied).len() && 0 <= j < v.len() && keyed(
                #[trigger] icons_after(v, n, copied)[i],
                n.owner,
                n.uid,
            ) && keyed(#[trigger] v[j], n.owner, n.uid) ==> {
                let x = icons_after(v, n, copied)[i];
                &&& n.flags & 0x1 == 0 ==> x.callback == v[j].callback
                &&& n.flags & 0x2 == 0 ==> x.icon == v[j].icon
                &&& n.flags & 0x4 == 0 ==> x.tip == v[j].tip
                &&& (n.flags & 0x8 == 0 || n.state_mask & 0x1 == 0) ==> x.hidden == v[j].hidden
                &&& x.version == v[j].version
            },
{
    let p = |i: int| v[i].owner == n.owner && v[i].uid == n.uid;
    lemma_first_from(0, v.len() as int, p);
    keys_stay_distinct(v, n, copied);
    let r = icons_after(v, n, copied);
    let at = match registered(v, n.owner, n.uid) {
        Some(k) => {
            assert(p(k));
            k
        },
        None => v.len() as int,
    };
    assert(keyed(r[at], n.owner, n.uid));
    assert forall|i: int| 0 <= i < r.len() && keyed(#[trigger] r[i], n.owner, n.uid) implies i
        == at by {
        if i < at {
            assert(r[i].owner != r[at].owner || r[i].uid != r[at].uid);
        } else if at < i {
            assert(r[at].owner != r[i].owner || r[at].uid != r[i].uid);
        }
    }
    assert forall|j: int| 0 <= j < v.len() && keyed(#[trigger] v[j], n.owner, n.uid) implies j
        == at by {
        assert(p(j));
        if registered(v, n.owner, n.uid) is Some {
            if j < at {
                assert(v[j].owner != v[at].owner || v[j].uid != v[at].uid);
            } else if at < j {
                assert(v[at].owner != v[j].owner || v[at].uid != v[j].uid);
            }
        }
    }
}

/// An icon registered for the first time starts visible, without a picture, tip or
/// version of its own, behind all others.
pub proof fn a_new_icon_stands_last(v: Seq<IconView>, n: NotifyView, copied: Option<u64>)
    requires
        n.message == 0 || n.message == 1,
        forall|i: int| 0 <= i < v.len() ==> !keyed(#[trigger] v[i], n.owner, n.uid),
    ensures
        icons_after(v, n, copied).len() == v.len() + 1,
        icons_after(v, n, copied).drop_last() == v,
        ({
            let x = icons_after(v, n, copied).last();
            &&& keyed(x, n.owner, n.uid)
            &&& x.version == 0
            &&& n.flags & 0x1 == 0 ==> x.callback == 0
            &&& n.flags & 0x2 == 0 ==> x.icon is None
            &&& n.flags & 0x4 == 0 ==> x.tip.len() == 0
            &&& n.flags & 0x8 == 0 ==> !x.hidden
        }),
{
    let p = |i: int| v[i].owner == n.owner && v[i].uid == n.uid;
    lemma_first_from(0, v.len() as int, p);
    match registered(v, n.owner, n.uid) {
        Some(k) => {
            assert(p(k));
            assert(keyed(v[k], n.owner, n.uid));
        },
        None => {},
    }
    assert(icons_after(v, n, copied).drop_last() =~= v);
}

/// A picture is handed out to be destroyed when no icon holds it any more, and not
/// before: every other picture is still held.
pub proof fn dropped_pictures_are_no_longer_held(
    v: Seq<IconView>,
    n: NotifyView,
    copied: Option<u64>,
    h: u64,
)
    requires
        distinct(v),
        pictures_differ(v),
        copied matches Some(c) ==> !held(v, c),
    ensures
        dropped(v, n) == Some(h) ==> held(v, h) && !held(icons_after(v, n, copied), h),
        (held(v, h) && dropped(v, n) != Some(h)) ==> held(icons_after(v, n, copied), h),
{
    let p = |i: int| v[i].owner == n.owner && v[i].uid == n.uid;
    lemma_first_from(0, v.len() as int, p);
    let r = icons_after(v, n, copied);
    let at = registered(v, n.owner, n.uid);
    if dropped(v, n) == Some(h) {
        let k = at->0;
        assert(v[k].icon == Some(h));
        assert forall|i: int| 0 <= i < r.len() implies (#[trigger] r[i]).icon != Some(h) by {
            if n.message == NIM_DELETE {
                let j = if i < k {
                    i
                } else {
                    i + 1
                };
                assert(r[i] == v[j]);
                if j < k {
                    assert(v[j].icon is Some ==> v[j].icon != v[k].icon);
                } else {
                    assert(v[k].icon != v[j].icon);
                }
            } else if i == k {
                assert(r[i].icon == copied);
            } else {
                assert(r[i] == v[i]);
                if i < k {
                    assert(v[i].icon is Some ==> v[i].icon != v[k].icon);
                } else {
                    assert(v[k].icon != v[i].icon);
                }
            }
        }
    } else if held(v, h) {
        let i = choose|i: int| 0 <= i < v.len() && (#[trigger] v[i]).icon == Some(h);
        match at {
            Some(k) => {
                if n.message == NIM_DELETE {
                    assert(i != k);
                    let j = if i < k {
                        i
                    } else {
                        i - 1
                    };
                    assert(r[j] == v[i]);
                } else {
                    assert(r[i].icon == Some(h));
                }
            },
            None => {
                assert(r[i] == v[i]);
            },
        }
    }
}

/// After a delete nothing is registered under the key, and every other icon is still
/// there.
pub proof fn a_deleted_icon_is_gone(v: Seq<IconView>, n: NotifyView, copied: Option<u64>)
    requires
        distinct(v),
        n.message == 2,
    ensures
        forall|i: int|
            0 <= i < icons_after(v, n, copied).len() ==> !keyed(
                #[trigger] icons_after(v, n, copied)[i],
                n.owner,
                n.uid,
            ) && v.contains(icons_after(v, n, copied)[i]),
        forall|i: int|
            0 <= i < v.len() && !keyed(#[trigger] v[i], n.owner, n.uid) ==> icons_after(
                v,
                n,
                copied,
            ).contains(v[i]),
{
    let p = |i: int| v[i].owner == n.owner && v[i].uid == n.uid;
    lemma_first_from(0, v.len() as int, p);
    let r = icons_after(v, n, copied);
    match registered(v, n.owner, n.uid) {
        Some(k) => {
            assert(p(k));
            assert forall|i: int| 0 <= i < r.len() implies !keyed(#[trigger] r[i], n.owner, n.uid)
                && v.contains(r[i]) by {
                let j = if i < k {
                    i
                } else {
                    i + 1
                };
                assert(r[i] == v[j]);
                if j < k {
                    assert(v[j].owner != v[k].owner || v[j].uid != v[k].uid);
                } else {
                    assert(v[k].owner != v[j].owner || v[k].uid != v[j].uid);
                }
            }
            assert forall|i: int| 0 <= i < v.len() && !keyed(#[trigger] v[i], n.owner, n.uid) implies
                r.contains(v[i]) by {
                let j = if i < k {
                    i
                } else {
                    i - 1
                };
                assert(i != k);
                assert(r[j] == v[i]);
            }
        },
        None => {
            assert forall|i: int| 0 <= i < r.len() implies !keyed(#[trigger] r[i], n.owner, n.uid)
                && v.contains(r[i]) by {
                assert(!p(i));
            }
        },
    }
}

/// A version is noted for the icon it is sent for; nothing else changes, and no icon
/// comes or goes.
pub proof fn a_version_is_noted(v: Seq<IconView>, n: NotifyView, copied: Option<u64>, i: int)
    requires
        distinct(v),
        n.message == 4,
        0 <= i < v.len(),
    ensures
        icons_after(v, n, copied).len() == v.len(),
        keyed(v[i], n.owner, n.uid) ==> icons_after(v, n, copied)[i].version == n.version,
        !keyed(v[i], n.owner, n.uid) ==> icons_after(v, n, copied)[i] == v[i],
        icons_after(v, n, copied)[i].icon == v[i].icon,
        icons_after(v, n, copied)[i].callback == v[i].callback,
        icons_after(v, n, copied)[i].tip == v[i].tip,
        icons_after(v, n, copied)[i].hidden == v[i].hidden,
{
    let p = |i: int| v[i].owner == n.owner && v[i].uid == n.uid;
    lemma_first_from(0, v.len() as int, p);
    match registered(v, n.owner, n.uid) {
        Some(k) => {
            assert(p(k));
            if i < k {
                assert(v[i].owner != v[k].owner || v[i].uid != v[k].uid);
            } else if k < i {
                assert(v[k].owner != v[i].owner || v[k].uid != v[i].uid);
            }
        },
        None => {
            assert(!p(i));
        },
    }
}

/// Messages with any other code leave the tray alone.
pub proof fn other_messages_change_nothing(v: Seq<IconView>, n: NotifyView, copied: Option<u64>)
    requires
        n.message != 0 && n.message != 1 && n.message != 2 && n.message != 4,
    ensures
        icons_after(v, n, copied) == v,
        dropped(v, n) is None,
        !redraws(v, n),
{
}

proof fn lemma_same_visible(a: Seq<IconView>, b: Seq<IconView>, n: int)
    requires
        n <= a.len() == b.len(),
        forall|i: int|
            0 <= i < n ==> (#[trigger] a[i]).hidden == b[i].hidden && a[i].icon == b[i].icon,
    ensures
        visible_icons(a, n) == visible_icons(b, n),
    decreases n,
{
    if n > 0 {
        lemma_same_visible(a, b, n - 1);
        assert(a[n - 1].hidden == b[n - 1].hidden);
    }
}

/// Whenever a message changes what the tray shows, the tray is drawn again.
pub proof fn changes_are_drawn(v: Seq<IconView>, n: NotifyView, copied: Option<u64>)
    requires
        distinct(v),
    ensures
        !redraws(v, n) ==> visible_icons(
            icons_after(v, n, copied),
            icons_after(v, n, copied).len() as int,
        ) == visible_icons(v, v.len() as int),
{
    let p = |i: int| v[i].owner == n.owner && v[i].uid == n.uid;
    lemma_first_from(0, v.len() as int, p);
    let r = icons_after(v, n, copied);
    if !redraws(v, n) {
        assert(r.len() == v.len());
        lemma_same_visible(r, v, v.len() as int);
    }
}

/// What is drawn are the icons that are not hidden, all of them, in registration
/// order.
pub proof fn visible_icons_are_counted_in_order(v: Seq<IconView>, k: int)
    requires
        0 <= k,
    ensures
        nth_visible(v, k, 0) matches Some(i) ==> {
            &&& 0 <= i < v.len()
            &&& !v[i].hidden
            &&& nth_visible(v, k + 1, 0) matches Some(j) ==> i < j && (forall|m: int|
                i < m < j ==> (#[trigger] v[m]).hidden)
            &&& nth_visible(v, k + 1, 0) is None ==> forall|m: int|
                i < m < v.len() ==> (#[trigger] v[m]).hidden
        },
        nth_visible(v, 0, 0) matches Some(i) ==> forall|m: int|
            0 <= m < i ==> (#[trigger] v[m]).hidden,
        nth_visible(v, 0, 0) is None ==> forall|m: int|
            0 <= m < v.len() ==> (#[trigger] v[m]).hidden,
{
    lemma_nth_visible(v, k, 0);
    lemma_first_visible(v, 0);
}

proof fn lemma_first_visible(v: Seq<IconView>, i: int)
    requires
        0 <= i <= v.len(),
    ensures
        nth_visible(v, 0, i) matches Some(j) ==> i <= j < v.len() && !v[j].hidden && (forall|m: int|
            i <= m < j ==> (#[trigger] v[m]).hidden),
        nth_visible(v, 0, i) is None ==> forall|m: int|
            i <= m < v.len() ==> (#[trigger] v[m]).hidden,
    decreases v.len() - i,
{
    if i < v.len() && v[i].hidden {
        lemma_first_visible(v, i + 1);
    }
}

proof fn lemma_nth_visible(v: Seq<IconView>, k: int, i: int)
    requires
        0 <= k,
        0 <= i <= v.len(),
    ensures
        nth_visible(v, k, i) matches Some(j) ==> {
            &&& i <= j < v.len()
            &&& !v[j].hidden
            &&& nth_visible(v, k + 1, i) == nth_visible(v, 0, j + 1)
            &&& nth_visible(v, k + 1, i) matches Some(l) ==> j < l && (forall|m: int|
                j < m < l ==> (#[trigger] v[m]).hidden)
            &&& nth_visible(v, k + 1, i) is None ==> forall|m: int|
                j < m < v.len() ==> (#[trigger] v[m]).hidden
        },
    decreases v.len() - i,
{
    if i < v.len() {
        if v[i].hidden {
            lemma_nth_visible(v, k, i + 1);
        } else if k == 0 {
            lemma_first_visible(v, i + 1);
        } else {
            lemma_nth_visible(v, k - 1, i + 1);
        }
    }
}

/// One of the first `n` icons, whose owner is there.
pub open spec fn one_alive(v: Seq<IconView>, alive: Seq<bool>, n: int, x: IconView) -> bool {
    exists|i: int| 0 <= i < n && alive[i] && #[trigger] v[i] == x
}

/// Pruning takes off exactly the icons whose owner is gone.
pub proof fn pruning_keeps_the_living(v: Seq<IconView>, alive: Seq<bool>, n: int)
    requires
        0 <= n <= v.len(),
        alive.len() == v.len(),
    ensures
        forall|i: int|
            0 <= i < n && alive[i] ==> still_owned(v, alive, n).contains(#[trigger] v[i]),
        forall|k: int|
            0 <= k < still_owned(v, alive, n).len() ==> one_alive(
                v,
                alive,
                n,
                #[trigger] still_owned(v, alive, n)[k],
            ),
        (forall|i: int| 0 <= i < n ==> #[trigger] alive[i]) ==> still_owned(v, alive, n) == v.take(
            n,
        ),
        (forall|i: int| 0 <= i < n ==> !(#[trigger] alive[i])) ==> still_owned(v, alive, n).len()
            == 0,
    decreases n,
{
    if n > 0 {
        pruning_keeps_the_living(v, alive, n - 1);
        let before = still_owned(v, alive, n - 1);
        let r = still_owned(v, alive, n);
        assert forall|i: int| 0 <= i < n && alive[i] implies r.contains(#[trigger] v[i]) by {
            if i < n - 1 {
                let k = choose|k: int| 0 <= k < before.len() && before[k] == v[i];
                assert(r[k] == v[i]);
            } else {
                assert(r[before.len() as int] == v[i]);
            }
        }
        assert forall|k: int| 0 <= k < r.len() implies one_alive(v, alive, n, #[trigger] r[k]) by {
            if k < before.len() {
                assert(r[k] == before[k]);
                assert(one_alive(v, alive, n - 1, before[k]));
                let i = choose|i: int|
                    0 <= i < n - 1 && alive[i] && #[trigger] v[i] == before[k];
                assert(v[i] == r[k]);
            } else {
                assert(v[n - 1] == r[k]);
            }
        }
        if forall|i: int| 0 <= i < n ==> #[trigger] alive[i] {
            assert(alive[n - 1]);
            assert(r =~= v.take(n));
        }
        if forall|i: int| 0 <= i < n ==> !(#[trigger] alive[i]) {
            assert(!alive[n - 1]);
        }
    } else {
        assert(v.take(n) =~= still_owned(v, alive, n));
    }
}

/// An owner below version 4 gets its id and the event; from version 4 on it gets the
/// cursor's place, and the event and the id in one word each.
pub proof fn owners_get_what_they_asked_for(t: Target, event: u32, x: int, y: int)
    requires
        event < 0x1_0000,
    ensures
        t.version < 4 ==> {
            &&& posted(t, event, x, y).wparam == t.uid
            &&& posted(t, event, x, y).lparam == event
        },
        t.version >= 4 ==> {
            &&& posted(t, event, x, y).lparam as int % 0x1_0000 == event
            &&& posted(t, event, x, y).lparam as int / 0x1_0000 == t.uid as int % 0x1_0000
            &&& posted(t, event, x, y).wparam as int % 0x1_0000 == x % 0x1_0000
            &&& posted(t, event, x, y).wparam as int / 0x1_0000 == y % 0x1_0000
        },
{
}

/// A click is a press and a release of its button; a right click asks for the
/// context menu after that.
pub proof fn a_click_is_a_press_and_a_release(right: bool)
    ensures
        click_events(right).len() == if right {
            3int
        } else {
            2
        },
        click_events(right)[1] == click_events(right)[0] + 1,
        click_events(false)[0] == 0x201,
        click_events(true)[0] == 0x204,
        click_events(true)[2] == 0x7B,
{
}

/// Byte `k` of a word that is written low byte first.
pub open spec fn byte_of(v: int, k: int) -> int {
    if k == 0 {
        v % 0x100
    } else if k == 1 {
        v / 0x100 % 0x100
    } else if k == 2 {
        v / 0x1_0000 % 0x100
    } else {
        v / 0x100_0000 % 0x100
    }
}

/// The bytes of `m` from `at` on write `v`.
pub open spec fn writes(m: Seq<u8>, at: int, v: u32) -> bool {
    forall|k: int| 0 <= k < 4 ==> #[trigger] m[at + k] as int == byte_of(v as int, k)
}

proof fn lemma_word(m: Seq<u8>, k: int, v: u32)
    requires
        0 <= k,
        k + 4 <= DATA,
        HEADER + k + 4 <= m.len(),
        writes(m, HEADER + k, v),
    ensures
        data_u32(m, k) == v,
{
    let at = HEADER + k;
    assert(m[at + 0] as int == byte_of(v as int, 0));
    assert(m[at + 1] as int == byte_of(v as int, 1));
    assert(m[at + 2] as int == byte_of(v as int, 2));
    assert(m[at + 3] as int == byte_of(v as int, 3));
    let w = v as int;
    assert(w == w % 0x100 + 0x100 * (w / 0x100 % 0x100) + 0x1_0000 * (w / 0x1_0000 % 0x100)
        + 0x100_0000 * (w / 0x100_0000 % 0x100));
}

proof fn lemma_code(m: Seq<u8>, v: u32)
    requires
        m.len() >= 8,
        writes(m, 4, v),
    ensures
        message_code(m) == v,
{
    assert(m[4int + 0] as int == byte_of(v as int, 0));
    assert(m[4int + 1] as int == byte_of(v as int, 1));
    assert(m[4int + 2] as int == byte_of(v as int, 2));
    assert(m[4int + 3] as int == byte_of(v as int, 3));
    let w = v as int;
    assert(w == w % 0x100 + 0x100 * (w / 0x100 % 0x100) + 0x1_0000 * (w / 0x1_0000 % 0x100)
        + 0x100_0000 * (w / 0x100_0000 % 0x100));
}

/// The bytes of `m` write the tip's units.
pub open spec fn writes_tip(m: Seq<u8>, tip: Seq<u16>) -> bool {
    forall|i: int|
        0 <= i < 128 ==> {
            &&& m[32 + 2 * i] as int == (#[trigger] tip[i]) as int % 0x100
            &&& m[33 + 2 * i] as int == tip[i] as int / 0x100
        }
}

proof fn lemma_tip(m: Seq<u8>, tip: Seq<u16>)
    requires
        m.len() >= 812,
        tip.len() == 128,
        writes_tip(m, tip),
    ensures
        tip_units(m) == tip,
{
    assert forall|i: int| 0 <= i < 128 implies tip_units(m)[i] == #[trigger] tip[i] by {
        let w = tip[i] as int;
        assert(m[32 + 2 * i] as int == w % 0x100);
        assert(m[33 + 2 * i] as int == w / 0x100);
        assert(data_byte(m, 24 + 2 * i) == w % 0x100);
        assert(data_byte(m, 24 + 2 * i + 1) == w / 0x100);
        assert(w == w % 0x100 + 0x100 * (w / 0x100));
    }
    assert(tip_units(m) =~= tip);
}

/// A message is read as it is written: after the header's two words, each field at
/// its place, low byte first, and the tip's units up to the first zero.
pub proof fn a_message_reads_back(m: Seq<u8>, n: NotifyView, tip: Seq<u16>)
    requires
        m.len() >= 812,
        tip.len() == 128,
        writes(m, 4, n.message),
        writes(m, 12, n.owner),
        writes(m, 16, n.uid),
        writes(m, 20, n.flags),
        writes(m, 24, n.callback),
        writes(m, 28, n.icon),
        writes_tip(m, tip),
        writes(m, 288, n.state),
        writes(m, 292, n.state_mask),
        writes(m, 808, n.version),
        n.tip == decoded(until_nul(tip)),
    ensures
        parsed(m) == Some(n),
{
    lemma_word(m, 4, n.owner);
    lemma_word(m, 8, n.uid);
    lemma_word(m, 12, n.flags);
    lemma_word(m, 16, n.callback);
    lemma_word(m, 20, n.icon);
    lemma_word(m, 280, n.state);
    lemma_word(m, 284, n.state_mask);
    lemma_word(m, 800, n.version);
    lemma_code(m, n.message);
    lemma_tip(m, tip);
}

} // verus!
