//! Network status for the taskbar glyph, and the commands to the network helper.
//!
//! An operational wired adapter wins over wifi, neither → disconnected globe. The
//! wifi picker flyout and the Network Settings window live in a helper program that
//! is started hidden and told what to show by a message.

use vstd::prelude::*;
use vstd::string::*;
use crate::util::opt_view;

verus! {

// Interface types.
pub const IF_TYPE_ETHERNET_CSMACD: u32 = 6;

pub const IF_TYPE_IEEE80211: u32 = 71;

#[derive(Clone, Copy, PartialEq, Eq, Structural, Debug)]
pub enum NetStatus {
    Disconnected,
    Wifi,
    Ethernet,
}

impl NetStatus {
    /// Glyph for the taskbar icon: wireframe globe when nothing is connected, wifi,
    /// or ethernet.
    pub fn glyph(self) -> (r: char)
        ensures
            r == match self {
                NetStatus::Disconnected => '\u{E774}',
                NetStatus::Wifi => '\u{E701}',
                NetStatus::Ethernet => '\u{E839}',
            },
    {
        match self {
            NetStatus::Disconnected => '\u{E774}',
            NetStatus::Wifi => '\u{E701}',
            NetStatus::Ethernet => '\u{E839}',
        }
    }
}

/// An adapter: whether it is operational, and its interface type.
#[derive(Clone, Copy, PartialEq, Eq, Structural, Debug)]
pub struct Adapter {
    pub up: bool,
    pub kind: u32,
}

/// Some adapter of this type is up.
pub open spec fn any_up(v: Seq<Adapter>, kind: u32) -> bool {
    exists|i: int| 0 <= i < v.len() && (#[trigger] v[i]).up && v[i].kind == kind
}

/// The status that the adapters give.
pub open spec fn status_of(v: Seq<Adapter>) -> NetStatus {
    if any_up(v, IF_TYPE_ETHERNET_CSMACD) {
        NetStatus::Ethernet
    } else if any_up(v, IF_TYPE_IEEE80211) {
        NetStatus::Wifi
    } else {
        NetStatus::Disconnected
    }
}

/// One pass over the adapters.
pub fn poll(adapters: &Vec<Adapter>) -> (r: NetStatus)
    ensures
        r == status_of(adapters@),
{
    let mut status = NetStatus::Disconnected;
    let mut i: usize = 0;
    while i < adapters.len()
        invariant
            i <= adapters.len(),
            forall|k: int|
                0 <= k < i ==> !((#[trigger] adapters@[k]).up && adapters@[k].kind
                    == IF_TYPE_ETHERNET_CSMACD),
            status == NetStatus::Wifi || status == NetStatus::Disconnected,
            status == NetStatus::Wifi <==> (exists|k: int|
                0 <= k < i && (#[trigger] adapters@[k]).up && adapters@[k].kind
                    == IF_TYPE_IEEE80211),
        decreases adapters.len() - i,
    {
        let a = adapters[i];
        if a.up {
            if a.kind == IF_TYPE_ETHERNET_CSMACD {
                assert(adapters@[i as int].up);
                return NetStatus::Ethernet;
            }
            if a.kind == IF_TYPE_IEEE80211 {
                assert(adapters@[i as int].up);
                status = NetStatus::Wifi;
            }
        }
        i = i + 1;
    }
    status
}

/// What follows one call for the list of adapters.
#[derive(Clone, Copy, PartialEq, Eq, Structural, Debug)]
pub enum Probe {
    /// The buffer is filled.
    Filled,
    /// Call again with a buffer of the size that was asked for.
    Resize,
    /// There is no list.
    Failed,
}

/// Judge a call's answer: 0 is success, 111 a buffer too small. The first call has no
/// buffer and only asks for the size.
pub fn probe(error: u32, has_buffer: bool, size: u32) -> (r: Probe)
    ensures
        r == if error == 0 && has_buffer {
            Probe::Filled
        } else if (error == 0 || error == 111) && size > 0 {
            Probe::Resize
        } else {
            Probe::Failed
        },
{
    if error == 0 && has_buffer {
        Probe::Filled
    } else if (error == 0 || error == 111) && size > 0 {
        Probe::Resize
    } else {
        Probe::Failed
    }
}

// ---- The helper ----

/// The helper: a configured one, else the one next to the program where there is
/// one.
pub fn helper_exe(configured: &Option<String>, sibling: &Option<String>) -> (r: Option<String>)
    ensures
        opt_view(r) == if configured is Some {
            opt_view(*configured)
        } else {
            opt_view(*sibling)
        },
{
    match configured {
        Some(s) => Some(s.clone()),
        None => match sibling {
            Some(s) => Some(s.clone()),
            None => None,
        },
    }
}

/// The argument the helper is first started with, where a profile lies next to the
/// program: it is then applied once per session.
pub fn launch_helper(profile_exists: bool) -> (r: Option<&'static str>)
    ensures
        r is Some == profile_exists,
        r matches Some(a) ==> a@ == "--apply-profile"@,
{
    if profile_exists {
        Some("--apply-profile")
    } else {
        None
    }
}

/// Commands to the helper.
pub const CMD_FLYOUT: u64 = 0;

pub const CMD_SETTINGS: u64 = 1;

/// How a command reaches the helper. Before either, the process `pid`, where it is
/// given, is let come to the front.
pub enum Delivery {
    /// Post it to the helper's window.
    Post { cmd: u64, pid: Option<u32> },
    /// The helper is absent or crashed, or cannot be told: start it, opening the
    /// surface directly.
    Relaunch { arg: &'static str, pid: Option<u32> },
}

/// The process that may come to the front: the helper's, where its window is there
/// and its process known.
pub open spec fn granted(window: bool, pid: u32) -> Option<u32> {
    if window && pid != 0 {
        Some(pid)
    } else {
        None
    }
}

pub open spec fn relaunch_arg(cmd: u64) -> Seq<char> {
    if cmd == CMD_SETTINGS {
        "--settings"@
    } else {
        "--flyout"@
    }
}

/// `d` is how a command is delivered to a helper whose window is there or not, with
/// the message registered or not (0).
pub open spec fn delivers(d: Delivery, cmd: u64, window: bool, pid: u32, message: u32) -> bool {
    if window && message != 0 {
        d matches Delivery::Post { cmd: c, pid: p } && c == cmd && p == granted(window, pid)
    } else {
        d matches Delivery::Relaunch { arg, pid: p } && arg@ == relaunch_arg(cmd) && p == granted(
            window,
            pid,
        )
    }
}

fn post(cmd: u64, window: bool, pid: u32, message: u32) -> (r: Delivery)
    ensures
        delivers(r, cmd, window, pid, message),
{
    let granted: Option<u32> = if window && pid != 0 {
        Some(pid)
    } else {
        None
    };
    if window && message != 0 {
        Delivery::Post { cmd, pid: granted }
    } else {
        Delivery::Relaunch {
            pid: granted,
            arg: if cmd == CMD_SETTINGS {
                "--settings"
            } else {
                "--flyout"
            },
        }
    }
}

/// Left-click on the taskbar network glyph: toggle the wifi flyout.
pub fn toggle_flyout(window: bool, pid: u32, message: u32) -> (r: Delivery)
    ensures
        delivers(r, CMD_FLYOUT, window, pid, message),
{
    post(CMD_FLYOUT, window, pid, message)
}

/// Right-click: open the full Network Settings window.
pub fn open_settings(window: bool, pid: u32, message: u32) -> (r: Delivery)
    ensures
        delivers(r, CMD_SETTINGS, window, pid, message),
{
    post(CMD_SETTINGS, window, pid, message)
}

/// A wired adapter that is up decides, whatever else is up.
pub proof fn ethernet_wins(v: Seq<Adapter>, i: int)
    requires
        0 <= i < v.len(),
        v[i].up,
        v[i].kind == IF_TYPE_ETHERNET_CSMACD,
    ensures
        status_of(v) == NetStatus::Ethernet,
{
}

/// A command goes to the helper's window where it has one and can be told, and else
/// starts the helper with what it is to open. Clicks on the glyph open the flyout,
/// right clicks the settings.
pub proof fn the_helper_is_told_or_started(d: Delivery, cmd: u64, window: bool, pid: u32, message: u32)
    requires
        delivers(d, cmd, window, pid, message),
    ensures
        window && message != 0 <==> d is Post,
        d matches Delivery::Post { cmd: c, .. } ==> c == cmd,
        d matches Delivery::Relaunch { arg, .. } ==> {
            &&& cmd == 1 ==> arg@ == "--settings"@
            &&& cmd == 0 ==> arg@ == "--flyout"@
        },
        (d matches Delivery::Post { pid: p, .. } ==> p == if pid != 0 {
            Some(pid)
        } else {
            None
        }),
        (d matches Delivery::Relaunch { pid: p, .. } ==> p == if window && pid != 0 {
            Some(pid)
        } else {
            None
        }),
{
}

/// Without a wired adapter that is up a wireless one decides, and without either there
/// is no connection. Other adapters, and those that are down, do not matter.
pub proof fn wireless_counts_without_a_wire(v: Seq<Adapter>)
    ensures
        (forall|i: int| 0 <= i < v.len() && (#[trigger] v[i]).up ==> v[i].kind != 6) && (exists|i: int|
            0 <= i < v.len() && (#[trigger] v[i]).up && v[i].kind == 71) ==> status_of(v)
            == NetStatus::Wifi,
        (forall|i: int|
            0 <= i < v.len() && (#[trigger] v[i]).up ==> v[i].kind != 6 && v[i].kind != 71)
            ==> status_of(v) == NetStatus::Disconnected,
{
}

} // verus!
