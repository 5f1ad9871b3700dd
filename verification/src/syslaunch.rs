//! Running a program as SYSTEM on an interactive session's desktop: the arguments,
//! the command line, and the job that is handed to the service.
//!
//! Usage:
//!   syslaunch [--session N | --console] [program [args...]]

use vstd::prelude::*;
use vstd::string::*;
use crate::num::{
    decimal, is_digit, lemma_decimal, lemma_decimal_reads_back, parse_u32, parsed_nat, u64_text,
};
use crate::text::{
    alike, char_views, chars_of, eq_ignore_case, find_char, join2, lines, lowered, same_str,
    split_lines, string_of, trim, trimmed, views, without_return,
};
use crate::util::{decoded, text_until_nul, until_nul, utf16, wide};

verus! {

// ---- Arguments ----

/// The session that a program is launched on.
#[derive(Clone, Copy, PartialEq, Eq, Structural, Debug)]
pub enum Session {
    /// The one this program runs in.
    Current,
    /// The active console's.
    Console,
    Id(u32),
}

/// A 32-bit number that a text holds.
pub open spec fn number(s: Seq<char>) -> Option<u32> {
    match parsed_nat(s, u32::MAX as nat) {
        Some(n) => Some(n as u32),
        None => None,
    }
}

/// The session that the argument behind `--session` names: a number, or else the
/// current session.
pub open spec fn session_arg(next: Seq<char>) -> Session {
    match number(next) {
        Some(n) => Session::Id(n),
        None => Session::Current,
    }
}

/// What the arguments from `i` on ask for: options first, then the program with its
/// own arguments.
pub open spec fn asked(args: Seq<Seq<char>>, i: int, session: Session) -> (Session, Seq<Seq<char>>)
    decreases args.len() - i,
{
    if i >= args.len() {
        (session, seq![])
    } else if args[i] == "--console"@ {
        asked(args, i + 1, Session::Console)
    } else if args[i] == "--session"@ {
        if i + 1 < args.len() {
            asked(args, i + 2, session_arg(args[i + 1]))
        } else {
            (Session::Current, seq![])
        }
    } else {
        (session, args.skip(i))
    }
}

/// The arguments (without the program's own name) are those of the service.
pub fn is_service(args: &Vec<String>) -> (r: bool)
    ensures
        r == crate::startup::given(views(args@), "--service-run"@),
{
    crate::startup::has_arg(args, "--service-run")
}

fn strings_from(v: &Vec<String>, from: usize) -> (r: Vec<String>)
    requires
        from <= v.len(),
    ensures
        views(r@) == views(v@).skip(from as int),
{
    let mut out: Vec<String> = Vec::new();
    let mut i: usize = from;
    while i < v.len()
        invariant
            from <= i <= v.len(),
            out.len() == i - from,
            forall|k: int| 0 <= k < out.len() ==> out@[k]@ == v@[from + k]@,
        decreases v.len() - i,
    {
        out.push(v[i].clone());
        i = i + 1;
    }
    assert(views(out@) =~= views(v@).skip(from as int));
    out
}

/// What the arguments (without the program's own name) ask for.
pub fn parse_args(args: &Vec<String>) -> (r: (Session, Vec<String>))
    ensures
        (r.0, views(r.1@)) == asked(views(args@), 0, Session::Current),
{
    let ghost v = views(args@);
    let mut session = Session::Current;
    let mut i: usize = 0;
    while i < args.len()
        invariant
            i <= args.len(),
            v == views(args@),
            asked(v, 0, Session::Current) == asked(v, i as int, session),
        decreases args.len() - i,
    {
        assert(v[i as int] == args@[i as int]@);
        let a = args[i].as_str();
        if same_str(a, "--console") {
            session = Session::Console;
            i = i + 1;
        } else if same_str(a, "--session") {
            if i + 1 < args.len() {
                assert(v[i + 1] == args@[i + 1]@);
                session = match parse_u32(&chars_of(args[i + 1].as_str())) {
                    Some(n) => Session::Id(n),
                    None => Session::Current,
                };
                i = i + 2;
            } else {
                session = Session::Current;
                i = i + 1;
            }
        } else {
            let parts = strings_from(args, i);
            return (session, parts);
        }
    }
    let none: Vec<String> = Vec::new();
    assert(views(none@) =~= seq![]);
    (session, none)
}

/// The number behind the first `--job` argument.
pub open spec fn job_in(args: Seq<Seq<char>>, i: int) -> Option<u32>
    decreases args.len() - i,
{
    if i >= args.len() {
        None
    } else if alike(args[i], "--job"@) {
        if i + 1 < args.len() {
            number(args[i + 1])
        } else {
            None
        }
    } else {
        job_in(args, i + 1)
    }
}

/// Pull the `--job N` id out of a command line's arguments.
pub fn job_id_arg(args: &Vec<String>) -> (r: Option<u32>)
    ensures
        r == job_in(views(args@), 0),
{
    let ghost v = views(args@);
    let wanted = chars_of("--job");
    let mut i: usize = 0;
    while i < args.len()
        invariant
            i <= args.len(),
            v == views(args@),
            wanted@ == "--job"@,
            job_in(v, 0) == job_in(v, i as int),
        decreases args.len() - i,
    {
        assert(v[i as int] == args@[i as int]@);
        let a = chars_of(args[i].as_str());
        if eq_ignore_case(&a, &wanted) {
            if i + 1 < args.len() {
                assert(v[i + 1] == args@[i + 1]@);
                return parse_u32(&chars_of(args[i + 1].as_str()));
            }
            return None;
        }
        i = i + 1;
    }
    None
}

// ---- Command lines ----

/// UTF-16, NUL-terminated buffer.
pub fn wbuf(s: &str) -> (r: Vec<u16>)
    ensures
        r@ == utf16(s@).push(0),
{
    wide(s)
}

/// A token as a command line holds it: in quotes where it has a space in it and none
/// around it.
pub open spec fn token(p: Seq<char>) -> Seq<char> {
    if p.contains(' ') && !(p.len() > 0 && p[0] == '"') {
        seq!['"'] + p + seq!['"']
    } else {
        p
    }
}

/// The tokens from `i` on, with spaces between them.
pub open spec fn tokens_from(parts: Seq<Seq<char>>, i: int) -> Seq<char>
    decreases parts.len() - i,
{
    if i >= parts.len() {
        seq![]
    } else if i == parts.len() - 1 {
        token(parts[i])
    } else {
        token(parts[i]) + seq![' '] + tokens_from(parts, i + 1)
    }
}

fn quote(p: &str) -> (r: String)
    ensures
        r@ == token(p@),
{
    let v = chars_of(p);
    if find_char(&v, ' ').is_some() && !(v.len() > 0 && v[0] == '"') {
        crate::run_window::quoted(p)
    } else {
        p.to_owned()
    }
}

/// Re-quote a split command line so a program path containing spaces survives the
/// system's own tokenizing.
pub fn quote_cmdline(parts: &Vec<String>) -> (r: String)
    ensures
        r@ == tokens_from(views(parts@), 0),
{
    let ghost v = views(parts@);
    let mut s = String::new();
    let mut i: usize = 0;
    assert(s@ + tokens_from(v, 0) =~= tokens_from(v, 0));
    while i < parts.len()
        invariant
            i <= parts.len(),
            v == views(parts@),
            s@ + tokens_from(v, i as int) == tokens_from(v, 0),
        decreases parts.len() - i,
    {
        let ghost before = s@;
        assert(v[i as int] == parts@[i as int]@);
        let t = quote(parts[i].as_str());
        s.append(t.as_str());
        if i + 1 < parts.len() {
            s.push(' ');
            assert(before + (token(v[i as int]) + seq![' '] + tokens_from(v, i + 1)) =~= s@
                + tokens_from(v, i + 1));
        } else {
            assert(s@ + tokens_from(v, i + 1) =~= s@);
        }
        i = i + 1;
    }
    assert(s@ =~= tokens_from(v, 0));
    s
}

/// The command line for a program: a command prompt where none is given.
pub fn command_line(parts: &Vec<String>) -> (r: String)
    ensures
        r@ == if parts@.len() == 0 {
            "cmd.exe"@
        } else {
            tokens_from(views(parts@), 0)
        },
{
    if parts.len() == 0 {
        "cmd.exe".to_owned()
    } else {
        quote_cmdline(parts)
    }
}

/// A command line cut at the spaces outside quotes, without its quotes, where the
/// first part has begun with `part` and `quoted` tells whether a quote is open.
pub open spec fn cut_line(line: Seq<char>, quoted: bool, part: Seq<char>) -> Seq<Seq<char>>
    decreases line.len(),
{
    if line.len() == 0 {
        seq![part]
    } else if line[0] == '"' {
        cut_line(line.skip(1), !quoted, part)
    } else if line[0] == ' ' && !quoted {
        seq![part] + cut_line(line.skip(1), false, seq![])
    } else {
        cut_line(line.skip(1), quoted, part.push(line[0]))
    }
}

/// A text without quotes goes into a part as it is, in quotes or without a space.
proof fn lemma_cut_text(text: Seq<char>, rest: Seq<char>, quoted: bool, part: Seq<char>)
    requires
        !text.contains('"'),
        quoted || !text.contains(' '),
    ensures
        cut_line(text + rest, quoted, part) == cut_line(rest, quoted, part + text),
    decreases text.len(),
{
    if text.len() == 0 {
        assert(text + rest =~= rest);
        assert(part + text =~= part);
    } else {
        let t = text.skip(1);
        assert(text[0] != '"' && (quoted || text[0] != ' ')) by {
            assert(text.contains(text[0]));
        }
        assert forall|c: char| t.contains(c) implies text.contains(c) by {
            let k = choose|k: int| 0 <= k < t.len() && t[k] == c;
            assert(text[k + 1] == c);
        }
        assert((text + rest).skip(1) =~= t + rest);
        lemma_cut_text(t, rest, quoted, part.push(text[0]));
        assert(part.push(text[0]) + t =~= part + text);
    }
}

proof fn lemma_cut_token(p: Seq<char>, rest: Seq<char>)
    requires
        !p.contains('"'),
    ensures
        cut_line(token(p) + rest, false, seq![]) == cut_line(rest, false, p),
{
    assert(p.len() > 0 ==> p.contains(p[0]));
    assert(Seq::<char>::empty() + p =~= p);
    if p.contains(' ') {
        let line = token(p) + rest;
        let close = seq!['"'] + rest;
        assert(line.skip(1) =~= p + close);
        lemma_cut_text(p, close, true, seq![]);
        assert(close.skip(1) =~= rest);
    } else {
        lemma_cut_text(p, rest, false, seq![]);
    }
}

proof fn lemma_cut_from(parts: Seq<Seq<char>>, i: int)
    requires
        0 <= i < parts.len(),
        forall|k: int| 0 <= k < parts.len() ==> !(#[trigger] parts[k]).contains('"'),
    ensures
        cut_line(tokens_from(parts, i), false, seq![]) == parts.skip(i),
    decreases parts.len() - i,
{
    let t = token(parts[i]);
    if i == parts.len() - 1 {
        lemma_cut_token(parts[i], seq![]);
        assert(t + Seq::<char>::empty() =~= t);
        assert(parts.skip(i) =~= seq![parts[i]]);
    } else {
        let rest = seq![' '] + tokens_from(parts, i + 1);
        assert(tokens_from(parts, i) =~= t + rest);
        lemma_cut_token(parts[i], rest);
        assert(rest.skip(1) =~= tokens_from(parts, i + 1));
        lemma_cut_from(parts, i + 1);
        assert(parts.skip(i) =~= seq![parts[i]] + parts.skip(i + 1));
    }
}

/// Cutting a command line at the spaces outside quotes gives back the parts that it
/// was put together from, where none of them has a quote of its own.
pub proof fn a_quoted_line_cuts_back(parts: Seq<Seq<char>>)
    requires
        parts.len() > 0,
        forall|k: int| 0 <= k < parts.len() ==> !(#[trigger] parts[k]).contains('"'),
    ensures
        cut_line(tokens_from(parts, 0), false, seq![]) == parts,
{
    lemma_cut_from(parts, 0);
    assert(parts.skip(0) =~= parts);
}

// ---- The job ----

pub open spec fn job_file(id: u32) -> Seq<char> {
    "syslaunch-"@ + decimal(id as nat) + ".job"@
}

pub open spec fn service_of(id: u32) -> Seq<char> {
    "syslaunch_svc_"@ + decimal(id as nat)
}

/// Name of the job file of an installer with this process id.
pub fn job_name(id: u32) -> (r: String)
    ensures
        r@ == job_file(id),
{
    let mut s = "syslaunch-".to_owned();
    s.append(u64_text(id as u64).as_str());
    s.append(".job");
    s
}

/// Name of the service of an installer with this process id.
pub fn service_name(id: u32) -> (r: String)
    ensures
        r@ == service_of(id),
{
    let mut s = "syslaunch_svc_".to_owned();
    s.append(u64_text(id as u64).as_str());
    s
}

/// The command line that the service is started with.
pub fn service_command(exe: &str, id: u32) -> (r: String)
    ensures
        r@ == seq!['"'] + exe@ + seq!['"'] + " --service-run --job "@ + decimal(id as nat),
{
    let mut s = crate::run_window::quoted(exe);
    s.append(" --service-run --job ");
    s.append(u64_text(id as u64).as_str());
    s
}

/// A job's text: the session, then the command line.
pub open spec fn job_of(session: u32, cmdline: Seq<char>) -> Seq<char> {
    decimal(session as nat) + "\n"@ + cmdline + "\n"@
}

/// The job that a text holds.
pub open spec fn job_read(text: Seq<char>) -> Option<(u32, Seq<char>)> {
    let l = lines(text);
    if l.len() < 2 {
        None
    } else {
        match number(trimmed(l[0])) {
            Some(session) => Some((session, l[1])),
            None => None,
        }
    }
}

pub fn write_job(session: u32, cmdline: &str) -> (r: String)
    ensures
        r@ == job_of(session, cmdline@),
{
    let mut s = u64_text(session as u64);
    s.append("\n");
    s.append(cmdline);
    s.append("\n");
    s
}

pub fn read_job(text: &str) -> (r: Option<(u32, String)>)
    ensures
        r is Some == job_read(text@) is Some,
        r matches Some(j) ==> (j.0, j.1@) == job_read(text@)->0,
{
    let l = split_lines(&chars_of(text));
    let ghost all = char_views(l@);
    assert(all.len() == l@.len());
    if l.len() < 2 {
        return None;
    }
    assert(all[0] == l@[0]@);
    assert(all[1] == l@[1]@);
    match parse_u32(&trim(&l[0])) {
        Some(session) => Some((session, string_of(&l[1]))),
        None => None,
    }
}

/// A written job reads back as it was: the session and the command line, which is on
/// one line and does not end in a carriage return.
pub proof fn job_reads_back(session: u32, cmdline: Seq<char>)
    requires
        !cmdline.contains('\n'),
        cmdline.len() > 0 ==> cmdline.last() != '\r',
    ensures
        job_read(job_of(session, cmdline)) == Some((session, cmdline)),
{
    reveal_strlit("\n");
    let d = decimal(session as nat);
    lemma_decimal(session as nat);
    lemma_decimal_reads_back(session as nat, u32::MAX as nat);
    let text = job_of(session, cmdline);
    let rest = cmdline + "\n"@;
    assert(text =~= d + "\n"@ + rest);
    let n = d.len() as int;
    assert(is_digit(d[0]) && is_digit(d[n - 1]));
    // The first line.
    text.index_of_first_ensures('\n');
    assert(text[n] == '\n');
    assert(text.contains('\n'));
    let k = text.index_of_first('\n')->0;
    if k < n {
        assert(text[k] == d[k]);
        assert(is_digit(d[k]));
    }
    assert(k == n);
    assert(text.take(n) =~= d);
    assert(without_return(d) == d);
    assert(text.skip(n + 1) =~= rest);
    // The second one.
    let m = cmdline.len() as int;
    rest.index_of_first_ensures('\n');
    assert(rest[m] == '\n');
    assert(rest.contains('\n'));
    let j = rest.index_of_first('\n')->0;
    if j < m {
        assert(rest[j] == cmdline[j]);
        assert(cmdline.contains(cmdline[j]));
    }
    assert(j == m);
    assert(rest.take(m) =~= cmdline);
    assert(without_return(cmdline) == cmdline);
    assert(rest.skip(m + 1) =~= seq![]);
    assert(lines(rest.skip(m + 1)) =~= seq![]);
    assert(lines(rest) =~= seq![cmdline]);
    assert(lines(text) =~= seq![d] + lines(rest));
    assert(lines(text)[0] == d);
    assert(lines(text)[1] == cmdline);
    assert(trimmed(d) == d);
}

// ---- Processes ----

/// Launches at the same time stay apart: installers with different process ids have
/// different job files and different services.
pub proof fn launches_stay_apart(a: u32, b: u32)
    requires
        a != b,
    ensures
        job_file(a) != job_file(b),
        service_of(a) != service_of(b),
{
    let (da, db) = (decimal(a as nat), decimal(b as nat));
    lemma_decimal(a as nat);
    lemma_decimal(b as nat);
    let n = "syslaunch-"@.len() as int;
    let m = ".job"@.len() as int;
    let k = "syslaunch_svc_"@.len() as int;
    assert(job_file(a).subrange(n, job_file(a).len() - m) =~= da);
    assert(job_file(b).subrange(n, job_file(b).len() - m) =~= db);
    assert(service_of(a).skip(k) =~= da);
    assert(service_of(b).skip(k) =~= db);
}

/// The service finds the job that it was installed for: `exe` and the three tokens
/// behind it in `service_command` are the arguments it is started with.
pub proof fn the_service_finds_its_job(exe: Seq<char>, id: u32)
    requires
        !alike(exe, "--job"@),
    ensures
        ({
            let args = seq![exe, "--service-run"@, "--job"@, decimal(id as nat)];
            &&& crate::startup::given(args, "--service-run"@)
            &&& job_in(args, 0) == Some(id)
        }),
{
    let args = seq![exe, "--service-run"@, "--job"@, decimal(id as nat)];
    assert(alike(args[1], "--service-run"@));
    lemma_decimal_reads_back(id as nat, u32::MAX as nat);
    reveal_strlit("--service-run");
    reveal_strlit("--job");
    assert(lowered("--service-run"@).len() == 13);
    assert(lowered("--job"@).len() == 5);
    assert(job_in(args, 2) == Some(id));
    assert(job_in(args, 1) == Some(id));
}

/// A process that may hold the token: the session's logon process.
pub fn is_logon(name: &str) -> (r: bool)
    ensures
        r == alike(name@, "winlogon.exe"@),
{
    eq_ignore_case(&chars_of(name), &chars_of("winlogon.exe"))
}

/// A process of the system's list, with the session it runs in, where that could be
/// read.
pub struct Process {
    pub pid: u32,
    pub session: Option<u32>,
    pub name: String,
}

/// A process's name out of the list's buffer, which a NUL closes; without one there
/// is no name.
pub fn exe_name(units: &Vec<u16>) -> (r: String)
    ensures
        r@ == if units@.contains(0) {
            decoded(until_nul(units@))
        } else {
            seq![]
        },
{
    let mut i: usize = 0;
    while i < units.len()
        invariant
            i <= units.len(),
            forall|k: int| 0 <= k < i ==> units@[k] != 0,
        decreases units.len() - i,
    {
        if units[i] == 0 {
            return text_until_nul(units.as_slice());
        }
        i = i + 1;
    }
    String::new()
}

/// The logon processes of a session among the first `n` processes, in order.
pub open spec fn logons(v: Seq<Process>, session: u32, n: int) -> Seq<u32>
    decreases n,
{
    if n <= 0 {
        seq![]
    } else if v[n - 1].session == Some(session) && alike(v[n - 1].name@, "winlogon.exe"@) {
        logons(v, session, n - 1).push(v[n - 1].pid)
    } else {
        logons(v, session, n - 1)
    }
}

/// The processes whose token is tried: the logon processes of the session.
pub fn logon_processes(v: &Vec<Process>, session: u32) -> (r: Vec<u32>)
    ensures
        r@ == logons(v@, session, v@.len() as int),
{
    let mut out: Vec<u32> = Vec::new();
    let mut i: usize = 0;
    while i < v.len()
        invariant
            i <= v.len(),
            out@ == logons(v@, session, i as int),
        decreases v.len() - i,
    {
        let here = match v[i].session {
            Some(s) => s == session,
            None => false,
        };
        if here && is_logon(v[i].name.as_str()) {
            out.push(v[i].pid);
        }
        i = i + 1;
    }
    out
}

/// What the answer to a privilege request means.
#[derive(Clone, Copy, PartialEq, Eq, Structural, Debug)]
pub enum Privilege {
    Enabled,
    /// This token does not hold it.
    NotHeld,
    Failed(u32),
}

pub fn privilege_answer(error: u32) -> (r: Privilege)
    ensures
        r == if error == 0 {
            Privilege::Enabled
        } else if error == 1300 {
            Privilege::NotHeld
        } else {
            Privilege::Failed(error)
        },
{
    if error == 0 {
        Privilege::Enabled
    } else if error == 1300 {
        Privilege::NotHeld
    } else {
        Privilege::Failed(error)
    }
}

/// How often the service is asked whether it is done.
pub const SERVICE_POLLS: u32 = 100;

/// Whether to go on waiting for the service: it is asked so many times at most, until
/// it has stopped or cannot be asked.
pub fn keep_polling(polls: u32, answered: bool, stopped: bool) -> (r: bool)
    ensures
        r == (polls < SERVICE_POLLS && answered && !stopped),
{
    polls < SERVICE_POLLS && answered && !stopped
}

/// A line of the log: stamped with the version.
pub fn log_line(version: &str, message: &str) -> (r: String)
    ensures
        r@ == "syslaunch v"@ + version@ + ": "@ + message@,
{
    let mut s = join2("syslaunch v", version);
    s.append(": ");
    s.append(message);
    s
}

// ---- What the launcher is for ----

/// A program is launched with the arguments that it was given, in this session unless
/// another is asked for.
pub proof fn a_program_keeps_its_arguments(args: Seq<Seq<char>>)
    requires
        args.len() > 0,
        args[0] != "--console"@,
        args[0] != "--session"@,
    ensures
        asked(args, 0, Session::Current) == (Session::Current, args),
        asked(seq!["--console"@] + args, 0, Session::Current) == (Session::Console, args),
        asked(seq![], 0, Session::Current).1.len() == 0,
{
    assert(args.skip(0) =~= args);
    let c = seq!["--console"@] + args;
    assert(c[1] == args[0]);
    assert(c.skip(1) =~= args);
    assert(asked(c, 1, Session::Console) == (Session::Console, args));
}

/// The number behind `--session` is the session; what is no number means this one.
pub proof fn the_session_is_the_one_named(args: Seq<Seq<char>>, n: u32, word: Seq<char>)
    requires
        args.len() > 0,
        args[0] != "--console"@,
        args[0] != "--session"@,
        word.len() > 0,
        !('0' <= word[0] <= '9') && word[0] != '+',
    ensures
        asked(seq!["--session"@, decimal(n as nat)] + args, 0, Session::Current) == (
            Session::Id(n),
            args,
        ),
        asked(seq!["--session"@, word] + args, 0, Session::Current) == (Session::Current, args),
{
    reveal_strlit("--session");
    reveal_strlit("--console");
    crate::num::lemma_decimal_reads_back(n as nat, u32::MAX as nat);
    assert("--session"@[2] == 's' && "--console"@[2] == 'c');
    let a = seq!["--session"@, decimal(n as nat)] + args;
    assert(a[0] == "--session"@ && a[1] == decimal(n as nat) && a[2] == args[0]);
    assert(a.skip(2) =~= args);
    assert(asked(a, 2, Session::Id(n)) == (Session::Id(n), args));
    let b = seq!["--session"@, word] + args;
    assert(b[0] == "--session"@ && b[1] == word && b[2] == args[0]);
    assert(b.skip(2) =~= args);
    assert(!crate::num::is_digit(word[0]));
    assert(number(word) is None) by {
        assert(crate::num::unsigned_part(word) == word);
        if crate::num::all_digits(word) {
            assert(crate::num::is_digit(word[0]));
        }
    }
    assert(asked(b, 2, Session::Current) == (Session::Current, args));
}

/// The processes whose token is tried are the logon processes of that session, all of
/// them and no others.
pub proof fn only_logons_of_the_session_are_tried(v: Seq<Process>, session: u32, n: int, pid: u32)
    requires
        0 <= n <= v.len(),
    ensures
        logons(v, session, n).contains(pid) <==> exists|i: int|
            0 <= i < n && (#[trigger] v[i]).pid == pid && v[i].session == Some(session) && lowered(
                v[i].name@,
            ) == lowered("winlogon.exe"@),
    decreases n,
{
    if n > 0 {
        only_logons_of_the_session_are_tried(v, session, n - 1, pid);
        let before = logons(v, session, n - 1);
        let r = logons(v, session, n);
        if r.contains(pid) {
            let k = choose|k: int| 0 <= k < r.len() && r[k] == pid;
            if k < before.len() {
                assert(before[k] == pid);
            } else {
                assert(v[n - 1].pid == pid);
            }
        }
        if exists|i: int|
            0 <= i < n && (#[trigger] v[i]).pid == pid && v[i].session == Some(session) && lowered(
                v[i].name@,
            ) == lowered("winlogon.exe"@) {
            let i = choose|i: int|
                0 <= i < n && (#[trigger] v[i]).pid == pid && v[i].session == Some(session)
                    && lowered(v[i].name@) == lowered("winlogon.exe"@);
            if i < n - 1 {
                assert(v[i].pid == pid);
                let k = choose|k: int| 0 <= k < before.len() && before[k] == pid;
                assert(r[k] == pid);
            } else {
                assert(r[before.len() as int] == pid);
            }
        }
    }
}

} // verus!
