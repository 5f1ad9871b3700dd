//! Dark mode for shell-rendered menus: which of the system's entry points to use,
//! and what is logged of it.

use vstd::prelude::*;
use vstd::string::*;
use crate::num::{decimal, parse_u32, parsed_nat, u64_text};
use crate::text::{chars_of, join2, same_str, trim, trimmed};
use crate::util::opt_view;

verus! {

/// First build with the dark-mode entry points.
pub const BUILD_DARK_MODE: u32 = 17763;

/// First build in which an app's preferred mode can be set; before it, the same
/// entry point only allows dark mode.
pub const BUILD_SET_PREFERRED: u32 = 18334;

/// The mode that forces dark regardless of the system theme.
pub const APPMODE_FORCE_DARK: i32 = 2;

/// The build number a text holds; 0 for none.
pub open spec fn build_in(text: Option<Seq<char>>) -> int {
    match text {
        Some(s) => match parsed_nat(trimmed(s), u32::MAX as nat) {
            Some(n) => n as int,
            None => 0,
        },
        None => 0,
    }
}

/// OS build number from the registry's text.
pub fn os_build(text: &Option<String>) -> (r: u32)
    ensures
        r == build_in(opt_view(*text)),
{
    match text {
        Some(s) => match parse_u32(&trim(&chars_of(s.as_str()))) {
            Some(n) => n,
            None => 0,
        },
        None => 0,
    }
}

/// How dark mode comes about.
#[derive(Clone, Copy, PartialEq, Eq, Structural, Debug)]
pub enum Plan {
    Disabled,
    /// The build is too old.
    Unsupported,
    /// The entry points could not be resolved.
    Unavailable,
    /// Set the app's preferred mode.
    SetPreferred,
    /// Allow dark mode for the app.
    AllowForApp,
}

/// Decide on dark mode. `resolved` tells whether the entry points are there.
pub fn init(enabled: bool, build: u32, resolved: bool) -> (r: Plan)
    ensures
        r == if !enabled {
            Plan::Disabled
        } else if build < BUILD_DARK_MODE {
            Plan::Unsupported
        } else if !resolved {
            Plan::Unavailable
        } else if build >= BUILD_SET_PREFERRED {
            Plan::SetPreferred
        } else {
            Plan::AllowForApp
        },
{
    if !enabled {
        Plan::Disabled
    } else if build < BUILD_DARK_MODE {
        Plan::Unsupported
    } else if !resolved {
        Plan::Unavailable
    } else if build >= BUILD_SET_PREFERRED {
        Plan::SetPreferred
    } else {
        Plan::AllowForApp
    }
}

/// Dark mode is on.
pub open spec fn engaged(p: Plan) -> bool {
    p == Plan::SetPreferred || p == Plan::AllowForApp
}

/// Whether windows and dialogs are themed dark: only once dark mode is on.
pub fn allow_window(plan: Plan) -> (r: bool)
    ensures
        r == engaged(plan),
{
    plan == Plan::SetPreferred || plan == Plan::AllowForApp
}

pub open spec fn state_text(p: Plan) -> Seq<char> {
    match p {
        Plan::Disabled => "disabled by config"@,
        Plan::Unsupported => "unsupported build"@,
        Plan::Unavailable => "ordinals unavailable"@,
        Plan::SetPreferred => "forced-dark engaged"@,
        Plan::AllowForApp => "forced-dark engaged"@,
    }
}

/// What is logged of dark mode. The build counts as 0 where it was not looked at.
pub fn log_status(plan: Plan, build: u32) -> (r: String)
    ensures
        r@ == "dark menus: "@ + state_text(plan) + " (build "@ + decimal(
            if plan == Plan::Disabled {
                0
            } else {
                build as nat
            },
        ) + ")"@,
{
    let state = match plan {
        Plan::Disabled => "disabled by config",
        Plan::Unsupported => "unsupported build",
        Plan::Unavailable => "ordinals unavailable",
        Plan::SetPreferred => "forced-dark engaged",
        Plan::AllowForApp => "forced-dark engaged",
    };
    let mut s = join2("dark menus: ", state);
    s.append(" (build ");
    let n: u64 = if plan == Plan::Disabled {
        0
    } else {
        build as u64
    };
    s.append(u64_text(n).as_str());
    s.append(")");
    s
}

/// The system's "use light theme" value: 0 = dark, 1 = light.
pub fn light_value(dark: bool) -> (r: u32)
    ensures
        r == if dark {
            0u32
        } else {
            1u32
        },
{
    if dark {
        0
    } else {
        1
    }
}

/// What is logged of the app theme.
pub fn apply_app_theme(dark: bool, written: bool) -> (r: String)
    ensures
        r@ == "app theme: "@ + (if dark {
            "dark"@
        } else {
            "light"@
        }) + " (registry write "@ + (if written {
            "ok"@
        } else {
            "failed"@
        }) + ")"@,
{
    let mut s = join2(
        "app theme: ",
        if dark {
            "dark"
        } else {
            "light"
        },
    );
    s.append(" (registry write ");
    s.append(
        if written {
            "ok"
        } else {
            "failed"
        },
    );
    s.append(")");
    s
}

/// The dark visual style for a child control of a dialog, by its class.
pub fn dark_dialog(class: &str) -> (r: &'static str)
    ensures
        r@ == if class@ == "ComboBox"@ || class@ == "Edit"@ {
            "DarkMode_CFD"@
        } else {
            "DarkMode_Explorer"@
        },
{
    if same_str(class, "ComboBox") || same_str(class, "Edit") {
        "DarkMode_CFD"
    } else {
        "DarkMode_Explorer"
    }
}

/// A build number is read whatever white space is around it; what is none counts as 0.
pub proof fn a_build_number_is_read(n: u32)
    ensures
        build_in(Some(decimal(n as nat))) == n,
        build_in(None) == 0,
        build_in(Some(seq![])) == 0,
{
    crate::num::lemma_decimal(n as nat);
    crate::num::lemma_decimal_reads_back(n as nat, u32::MAX as nat);
    let d = decimal(n as nat);
    assert(crate::num::is_digit(d[0]));
    assert(crate::num::is_digit(d[d.len() - 1]));
    assert(trimmed(d) == d);
    assert(trimmed(seq![]).len() == 0);
}

/// Windows are themed dark exactly where dark mode was engaged one way or the other.
pub proof fn windows_are_dark_where_it_is_engaged(p: Plan)
    ensures
        engaged(p) == !(p is Disabled || p is Unsupported || p is Unavailable),
{
}

/// What is logged tells the reasons apart why menus are not dark.
pub proof fn the_log_tells_the_reasons_apart()
    ensures
        state_text(Plan::Disabled) == "disabled by config"@,
        state_text(Plan::Unsupported) == "unsupported build"@,
        state_text(Plan::Unavailable) == "ordinals unavailable"@,
        state_text(Plan::SetPreferred) == "forced-dark engaged"@ && state_text(Plan::AllowForApp)
            == "forced-dark engaged"@,
{
}

} // verus!
