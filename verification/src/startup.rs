//! What the program does when it is started.

use vstd::prelude::*;
use vstd::string::*;
use crate::num::{decimal, u64_text};
use crate::paths::{join, joined, parent, parent_of};
use crate::text::{alike, chars_of, eq_ignore_case, join2, lowered, views};
use crate::util::opt_view;

verus! {

/// One of the arguments is this one, whatever the case.
pub open spec fn given(args: Seq<Seq<char>>, name: Seq<char>) -> bool {
    exists|i: int| 0 <= i < args.len() && alike(#[trigger] args[i], name)
}

pub fn has_arg(args: &Vec<String>, name: &str) -> (r: bool)
    ensures
        r == given(views(args@), name@),
{
    let ghost v = views(args@);
    let wanted = chars_of(name);
    let mut i: usize = 0;
    while i < args.len()
        invariant
            i <= args.len(),
            v == views(args@),
            wanted@ == name@,
            forall|k: int| 0 <= k < i ==> !alike(#[trigger] v[k], name@),
        decreases args.len() - i,
    {
        assert(v[i as int] == args@[i as int]@);
        let a = chars_of(args[i].as_str());
        if eq_ignore_case(&a, &wanted) {
            assert(alike(v[i as int], name@));
            return true;
        }
        i = i + 1;
    }
    false
}

/// What an instance is for.
#[derive(Clone, Copy, PartialEq, Eq, Structural, Debug)]
pub enum Mode {
    /// The Run window alone.
    Run,
    /// The System Information window alone.
    SysInfo,
    /// The shell.
    Shell,
}

/// The mode that the arguments (without the program's own name) ask for.
pub fn mode(args: &Vec<String>) -> (r: Mode)
    ensures
        r == if given(views(args@), "--run"@) {
            Mode::Run
        } else if given(views(args@), "--sysinfo"@) {
            Mode::SysInfo
        } else {
            Mode::Shell
        },
{
    if has_arg(args, "--run") {
        Mode::Run
    } else if has_arg(args, "--sysinfo") {
        Mode::SysInfo
    } else {
        Mode::Shell
    }
}

pub open spec fn handed_off(launch_as_system: bool, args: Seq<Seq<char>>, is_system: bool) -> bool {
    launch_as_system && !given(args, FROM_SYSLAUNCH@) && !is_system
}

/// Whether to hand off to an instance that runs as SYSTEM: where that is wanted, not
/// the case already, and not tried before.
pub fn hands_off(launch_as_system: bool, args: &Vec<String>, is_system: bool) -> (r: bool)
    ensures
        r == handed_off(launch_as_system, views(args@), is_system),
{
    launch_as_system && !has_arg(args, FROM_SYSLAUNCH) && !is_system
}

/// The launcher next to the program; `None` for a path that lies in no folder.
pub fn syslaunch_path(exe: &str) -> (r: Option<String>)
    ensures
        opt_view(r) == match parent_of(exe@) {
            Some(dir) => Some(joined(dir, "syslaunch.exe"@)),
            None => None,
        },
{
    match parent(exe) {
        Some(dir) => Some(join(dir.as_str(), "syslaunch.exe")),
        None => None,
    }
}

/// The mark of an instance that the launcher started.
pub const FROM_SYSLAUNCH: &'static str = "--from-syslaunch";

/// What the launcher is told to start: this program, marked.
pub fn relaunch_args(exe: &str) -> (r: Vec<String>)
    ensures
        views(r@) == seq![exe@, FROM_SYSLAUNCH@],
{
    let mut v: Vec<String> = Vec::new();
    v.push(exe.to_owned());
    v.push(FROM_SYSLAUNCH.to_owned());
    assert(views(v@) =~= seq![exe@, FROM_SYSLAUNCH@]);
    v
}

/// A line of the log: stamped with the version.
pub fn log_line(version: &str, message: &str) -> (r: String)
    ensures
        r@ == "StartPE v"@ + version@ + " "@ + message@,
{
    let mut s = join2("StartPE v", version);
    s.append(" ");
    s.append(message);
    s
}

/// What is logged at startup.
pub fn startup_message(pid: u32) -> (r: String)
    ensures
        r@ == "starting (pid "@ + decimal(pid as nat) + ")"@,
{
    let mut s = "starting (pid ".to_owned();
    s.append(u64_text(pid as u64).as_str());
    s.append(")");
    s
}

// ---- Laws ----

/// A shell that was handed off does not hand off again, even where it did not come
/// to run as SYSTEM, and it is a shell: `exe` is the program's own path, and what
/// follows it in `relaunch_args` are the arguments of the new instance.
pub proof fn a_relaunched_shell_stays(exe: Seq<char>, launch_as_system: bool, is_system: bool)
    ensures
        ({
            let args = seq![exe, FROM_SYSLAUNCH@].skip(1);
            &&& !handed_off(launch_as_system, args, is_system)
            &&& !given(args, "--run"@)
            &&& !given(args, "--sysinfo"@)
        }),
{
    let args = seq![exe, FROM_SYSLAUNCH@].skip(1);
    assert(args =~= seq![FROM_SYSLAUNCH@]);
    reveal_strlit("--from-syslaunch");
    reveal_strlit("--run");
    reveal_strlit("--sysinfo");
    assert(alike(args[0], FROM_SYSLAUNCH@));
    assert(lowered(FROM_SYSLAUNCH@).len() == 16);
    assert(lowered("--run"@).len() == 5);
    assert(lowered("--sysinfo"@).len() == 9);
    assert(!alike(FROM_SYSLAUNCH@, "--run"@));
    assert(!alike(FROM_SYSLAUNCH@, "--sysinfo"@));
}

/// An argument counts whatever the case of its letters and wherever it stands.
pub proof fn arguments_count_whatever_the_case(args: Seq<Seq<char>>, i: int, name: Seq<char>)
    requires
        0 <= i < args.len(),
    ensures
        crate::text::lowered(args[i]) == crate::text::lowered(name) ==> given(args, name),
        (forall|k: int|
            0 <= k < args.len() ==> crate::text::lowered(#[trigger] args[k]) != crate::text::lowered(
                name,
            )) ==> !given(args, name),
{
    if crate::text::lowered(args[i]) == crate::text::lowered(name) {
        assert(alike(args[i], name));
    }
}

/// The shell is handed off exactly where it is wanted as SYSTEM, is not, and was not
/// started by the launcher already: so it is handed off once at most.
pub proof fn the_shell_is_handed_off_once(wanted: bool, args: Seq<Seq<char>>, is_system: bool)
    ensures
        !wanted ==> !handed_off(wanted, args, is_system),
        is_system ==> !handed_off(wanted, args, is_system),
        handed_off(wanted, args, is_system) ==> !handed_off(wanted, args.push(FROM_SYSLAUNCH@), false),
        (wanted && !is_system && !given(args, FROM_SYSLAUNCH@)) ==> handed_off(
            wanted,
            args,
            is_system,
        ),
{
    let more = args.push(FROM_SYSLAUNCH@);
    assert(alike(more[args.len() as int], FROM_SYSLAUNCH@));
    assert(given(more, FROM_SYSLAUNCH@));
}

} // verus!
