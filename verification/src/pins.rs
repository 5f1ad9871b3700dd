//! Reader for the `PinUtil.ini` pin staging file.
//!
//! An image build records pins in `%Windir%\System32\PinUtil.ini` under
//! `[PinUtil]` as `Taskbar<n>=<exe>` / `StartMenu<n>=<exe>` (position = order).

use vstd::prelude::*;
use vstd::string::*;
use vstd::utf8::{decode_utf8, valid_utf8};
use crate::num::{
    decimal, is_digit, lemma_decimal, lemma_decimal_reads_back, parse_u32, parsed_nat,
};
use crate::text::{
    alike, begins, char_views, chars_of, cut, eq_ignore_case, lines, lossy_text, lowered, slice_of,
    split_lines, split_once, starts_with, string_of, to_ascii_lower, trim, trimmed, utf8_text, views, white,
};
use crate::util::{decoded, from_utf16_lossy, opt_view};

verus! {

/// Pinned program paths, in pin-position order (lowest index first).
pub struct Pins {
    pub taskbar: Vec<String>,
    pub start_menu: Vec<String>,
}

/// Which list a pin is on.
#[derive(Clone, Copy, PartialEq, Eq, Structural, Debug)]
pub enum Place {
    Taskbar,
    StartMenu,
}

/// A pin as a line records it.
pub struct PinView {
    pub place: Place,
    pub index: u32,
    pub path: Seq<char>,
}

pub open spec fn is_header(line: Seq<char>) -> bool {
    begins(line, "["@)
}

pub open spec fn is_comment(line: Seq<char>) -> bool {
    begins(line, ";"@) || begins(line, "//"@)
}

/// The position behind a name in a key such as `taskbar3`.
pub open spec fn position_in(key: Seq<char>, name: Seq<char>) -> Option<u32> {
    if begins(key, name) {
        match parsed_nat(key.skip(name.len() as int), u32::MAX as nat) {
            Some(n) => Some(n as u32),
            None => None,
        }
    } else {
        None
    }
}

/// The pin that a trimmed line of the section records.
pub open spec fn pin_on(line: Seq<char>) -> Option<PinView> {
    if line.len() == 0 || is_header(line) || is_comment(line) {
        None
    } else {
        match cut(line, '=') {
            None => None,
            Some((k, v)) => {
                let key = lowered(trimmed(k));
                let path = trimmed(v);
                if path.len() == 0 {
                    None
                } else {
                    match position_in(key, "taskbar"@) {
                        Some(index) => Some(PinView { place: Place::Taskbar, index, path }),
                        None => match position_in(key, "startmenu"@) {
                            Some(index) => Some(PinView { place: Place::StartMenu, index, path }),
                            None => None,
                        },
                    }
                }
            },
        }
    }
}

/// The last header among the lines is the pins' own, whatever its case.
pub open spec fn in_section(all: Seq<Seq<char>>) -> bool
    decreases all.len(),
{
    if all.len() == 0 {
        false
    } else {
        let line = trimmed(all.last());
        if is_header(line) {
            alike(line, "[PinUtil]"@)
        } else {
            in_section(all.drop_last())
        }
    }
}

/// The pins of one list that the lines record, in file order.
pub open spec fn recorded(all: Seq<Seq<char>>, place: Place) -> Seq<(u32, Seq<char>)>
    decreases all.len(),
{
    if all.len() == 0 {
        seq![]
    } else {
        let before = recorded(all.drop_last(), place);
        match pin_on(trimmed(all.last())) {
            Some(p) if in_section(all.drop_last()) && p.place == place => before.push(
                (p.index, p.path),
            ),
            _ => before,
        }
    }
}

/// A pin put behind every pin of no higher position.
pub open spec fn inserted(v: Seq<(u32, Seq<char>)>, p: (u32, Seq<char>)) -> Seq<(u32, Seq<char>)>
    decreases v.len(),
{
    if v.len() == 0 || v.last().0 <= p.0 {
        v.push(p)
    } else {
        inserted(v.drop_last(), p).push(v.last())
    }
}

/// Pins by position; pins of one position stay in file order.
pub open spec fn ordered(v: Seq<(u32, Seq<char>)>) -> Seq<(u32, Seq<char>)>
    decreases v.len(),
{
    if v.len() == 0 {
        seq![]
    } else {
        inserted(ordered(v.drop_last()), v.last())
    }
}

/// The paths of a list of pins.
pub open spec fn paths(v: Seq<(u32, Seq<char>)>) -> Seq<Seq<char>> {
    Seq::new(v.len(), |i: int| v[i].1)
}

/// The paths that a file of pins gives one list, by position.
pub open spec fn pinned(text: Seq<char>, place: Place) -> Seq<Seq<char>> {
    paths(ordered(recorded(lines(text), place)))
}

struct Pin {
    place: Place,
    index: u32,
    path: String,
}

fn read_position(key: &Vec<char>, name: &str) -> (r: Option<u32>)
    ensures
        r == position_in(key@, name@),
{
    let name = chars_of(name);
    if starts_with(key, &name) {
        let rest = slice_of(key, name.len(), key.len());
        assert(rest@ =~= key@.skip(name@.len() as int));
        parse_u32(&rest)
    } else {
        None
    }
}

fn begins_with(line: &Vec<char>, p: &str) -> (r: bool)
    ensures
        r == begins(line@, p@),
{
    let p = chars_of(p);
    starts_with(line, &p)
}

fn read_pin(line: &Vec<char>) -> (r: Option<Pin>)
    ensures
        r is Some == pin_on(line@) is Some,
        r matches Some(p) ==> p.place == pin_on(line@)->0.place && p.index == pin_on(line@)->0.index
            && p.path@ == pin_on(line@)->0.path,
{
    if line.len() == 0 || begins_with(line, "[") || begins_with(line, ";") || begins_with(
        line,
        "//",
    ) {
        return None;
    }
    match split_once(line, '=') {
        None => None,
        Some((k, v)) => {
            let path = trim(&v);
            if path.len() == 0 {
                return None;
            }
            let key = to_ascii_lower(&trim(&k));
            match read_position(&key, "taskbar") {
                Some(index) => Some(Pin { place: Place::Taskbar, index, path: string_of(&path) }),
                None => match read_position(&key, "startmenu") {
                    Some(index) => Some(
                        Pin { place: Place::StartMenu, index, path: string_of(&path) },
                    ),
                    None => None,
                },
            }
        },
    }
}

spec fn entries(v: Seq<(u32, String)>) -> Seq<(u32, Seq<char>)> {
    Seq::new(v.len(), |i: int| (v[i].0, v[i].1@))
}

proof fn lemma_inserted(v: Seq<(u32, Seq<char>)>, p: (u32, Seq<char>), i: int)
    requires
        0 <= i <= v.len(),
        i == 0 || v[i - 1].0 <= p.0,
        forall|k: int| i <= k < v.len() ==> (#[trigger] v[k]).0 > p.0,
    ensures
        inserted(v, p) == v.insert(i, p),
    decreases v.len(),
{
    if i == v.len() {
        assert(v.insert(i, p) =~= v.push(p));
    } else {
        assert(v[v.len() - 1].0 > p.0);
        assert forall|k: int| i <= k < v.drop_last().len() implies (#[trigger] v.drop_last()[k]).0
            > p.0 by {
            assert(v[k].0 > p.0);
        }
        lemma_inserted(v.drop_last(), p, i);
        assert(v.drop_last().insert(i, p).push(v.last()) =~= v.insert(i, p));
    }
}

/// Put a pin into a list that is in order.
fn insert_pin(v: &mut Vec<(u32, String)>, index: u32, path: String)
    ensures
        entries(final(v)@) == inserted(entries(old(v)@), (index, path@)),
{
    let mut i: usize = v.len();
    while i > 0 && v[i - 1].0 > index
        invariant
            i <= v.len(),
            forall|k: int| i <= k < v.len() ==> (#[trigger] v@[k]).0 > index,
        decreases i,
    {
        i = i - 1;
    }
    proof {
        let e = entries(v@);
        assert forall|k: int| i <= k < e.len() implies (#[trigger] e[k]).0 > index by {
            assert(v@[k].0 > index);
        }
        lemma_inserted(e, (index, path@), i as int);
    }
    v.insert(i, (index, path));
    assert(entries(v@) =~= entries(old(v)@).insert(i as int, (index, path@)));
}

fn take_paths(v: &Vec<(u32, String)>) -> (r: Vec<String>)
    ensures
        views(r@) == paths(entries(v@)),
{
    let mut out: Vec<String> = Vec::new();
    let mut i: usize = 0;
    while i < v.len()
        invariant
            i <= v.len(),
            out.len() == i,
            forall|k: int| 0 <= k < i ==> out@[k]@ == v@[k].1@,
        decreases v.len() - i,
    {
        out.push(v[i].1.clone());
        i = i + 1;
    }
    assert(views(out@) =~= paths(entries(v@)));
    out
}

impl Pins {
    /// The pins that the staging file's bytes record. Without a file there are
    /// none. The paths may still name environment variables.
    pub fn load(file: &Option<Vec<u8>>) -> (r: Pins)
        ensures
            ({
                let text = match *file {
                    Some(bytes) => lossy_text(bytes@),
                    None => seq![],
                };
                &&& views(r.taskbar@) == pinned(text, Place::Taskbar)
                &&& views(r.start_menu@) == pinned(text, Place::StartMenu)
            }),
            *file matches Some(bytes) ==> valid_utf8(bytes@) ==> {
                &&& views(r.taskbar@) == pinned(decode_utf8(bytes@), Place::Taskbar)
                &&& views(r.start_menu@) == pinned(decode_utf8(bytes@), Place::StartMenu)
            },
    {
        match file {
            Some(bytes) => {
                let text = utf8_text(bytes.as_slice());
                Pins::parse(text.as_str())
            },
            None => {
                proof {
                    reveal_strlit("");
                    assert(""@ =~= seq![]);
                }
                Pins::parse("")
            },
        }
    }

    /// The pins that the staging file's text records.
    pub fn parse(text: &str) -> (r: Pins)
        ensures
            views(r.taskbar@) == pinned(text@, Place::Taskbar),
            views(r.start_menu@) == pinned(text@, Place::StartMenu),
    {
        let mut taskbar: Vec<(u32, String)> = Vec::new();
        let mut start_menu: Vec<(u32, String)> = Vec::new();
        let file = split_lines(&chars_of(text));
        let header = chars_of("[PinUtil]");
        let ghost all = char_views(file@);
        let mut inside = false;
        let mut i: usize = 0;
        assert(all.take(0) =~= seq![]);
        assert(entries(taskbar@) =~= seq![]);
        assert(entries(start_menu@) =~= seq![]);
        while i < file.len()
            invariant
                i <= file.len(),
                all == char_views(file@),
                header@ == "[PinUtil]"@,
                inside == in_section(all.take(i as int)),
                entries(taskbar@) == ordered(recorded(all.take(i as int), Place::Taskbar)),
                entries(start_menu@) == ordered(recorded(all.take(i as int), Place::StartMenu)),
            decreases file.len() - i,
        {
            let line = trim(&file[i]);
            let ghost now = all.take(i as int + 1);
            assert(now.drop_last() =~= all.take(i as int));
            assert(now.last() == file@[i as int]@);
            i = i + 1;
            if begins_with(&line, "[") {
                inside = eq_ignore_case(&line, &header);
            } else if inside {
                match read_pin(&line) {
                    Some(pin) => {
                        let ghost p = (pin.index, pin.path@);
                        proof {
                            let before = recorded(all.take(i - 1), pin.place);
                            assert(before.push(p).drop_last() =~= before);
                        }
                        match pin.place {
                            Place::Taskbar => insert_pin(&mut taskbar, pin.index, pin.path),
                            Place::StartMenu => insert_pin(&mut start_menu, pin.index, pin.path),
                        }
                    },
                    None => {},
                }
            }
        }
        assert(all.take(i as int) =~= all);
        Pins { taskbar: take_paths(&taskbar), start_menu: take_paths(&start_menu) }
    }
}

/// A pin path with its environment variables expanded: what the system wrote
/// (`written` units with the closing NUL, out of `needed`), or the path itself
/// where it reports a failure by 0.
pub fn expand_env(path: &str, needed: u32, written: u32, units: &Vec<u16>) -> (r: String)
    requires
        written <= units.len() + 1,
    ensures
        r@ == if needed == 0 || written == 0 {
            path@
        } else {
            decoded(units@.take(written - 1))
        },
{
    if needed == 0 || written == 0 {
        path.to_owned()
    } else {
        let n: usize = written as usize - 1;
        let mut v: Vec<u16> = Vec::new();
        let mut i: usize = 0;
        while i < n
            invariant
                i <= n <= units.len(),
                v@ == units@.take(i as int),
            decreases n - i,
        {
            v.push(units[i]);
            i = i + 1;
            assert(v@ =~= units@.take(i as int));
        }
        from_utf16_lossy(&v)
    }
}

/// Where the staging file lies: below `windir`, else `SystemRoot`, else
/// `X:\Windows`.
pub fn ini_path(windir: &Option<String>, system_root: &Option<String>) -> (r: String)
    ensures
        r@ == (match opt_view(*windir) {
            Some(w) => w,
            None => match opt_view(*system_root) {
                Some(s) => s,
                None => "X:\\Windows"@,
            },
        }) + "\\System32\\PinUtil.ini"@,
{
    let mut path = match windir {
        Some(w) => w.clone(),
        None => match system_root {
            Some(s) => s.clone(),
            None => "X:\\Windows".to_owned(),
        },
    };
    path.append("\\System32\\PinUtil.ini");
    path
}

// ---- Laws ----

pub open spec fn in_order(v: Seq<(u32, Seq<char>)>) -> bool {
    forall|i: int, j: int| 0 <= i < j < v.len() ==> (#[trigger] v[i]).0 <= (#[trigger] v[j]).0
}

proof fn lemma_inserted_in_order(v: Seq<(u32, Seq<char>)>, p: (u32, Seq<char>))
    requires
        in_order(v),
    ensures
        in_order(inserted(v, p)),
        inserted(v, p).to_multiset() == v.to_multiset().insert(p),
        inserted(v, p).len() == v.len() + 1,
        forall|k: int|
            0 <= k < inserted(v, p).len() ==> (#[trigger] inserted(v, p)[k]).0 <= p.0 || v.len() > 0
                && inserted(v, p)[k].0 <= v.last().0,
    decreases v.len(),
{
    broadcast use vstd::seq_lib::group_to_multiset_ensures;

    if v.len() > 0 && v.last().0 > p.0 {
        lemma_inserted_in_order(v.drop_last(), p);
        let w = inserted(v.drop_last(), p);
        assert(v =~= v.drop_last().push(v.last()));
        assert forall|i: int, j: int| 0 <= i < j < w.push(v.last()).len() implies (
        #[trigger] w.push(v.last())[i]).0 <= (#[trigger] w.push(v.last())[j]).0 by {
            if j == w.len() {
                assert(w[i].0 <= p.0 || v.drop_last().len() > 0 && w[i].0 <= v.drop_last().last().0);
                if v.drop_last().len() > 0 {
                    assert(v[v.len() - 2].0 <= v[v.len() - 1].0);
                }
            }
        }
        assert(w.push(v.last()).to_multiset() =~= v.to_multiset().insert(p));
    } else if v.len() > 0 {
        assert forall|i: int, j: int| 0 <= i < j < v.push(p).len() implies (#[trigger] v.push(
            p,
        )[i]).0 <= (#[trigger] v.push(p)[j]).0 by {
            if j == v.len() && i < v.len() - 1 {
                assert(v[i].0 <= v[v.len() - 1].0);
            }
        }
        assert forall|k: int| 0 <= k < v.push(p).len() implies (#[trigger] v.push(p)[k]).0
            <= p.0 by {
            if k < v.len() - 1 {
                assert(v[k].0 <= v[v.len() - 1].0);
            }
        }
    }
}

/// Pins come out lowest position first, and none is lost or made up.
pub proof fn pins_are_ordered(v: Seq<(u32, Seq<char>)>)
    ensures
        in_order(ordered(v)),
        ordered(v).to_multiset() == v.to_multiset(),
    decreases v.len(),
{
    broadcast use vstd::seq_lib::group_to_multiset_ensures;

    if v.len() > 0 {
        pins_are_ordered(v.drop_last());
        lemma_inserted_in_order(ordered(v.drop_last()), v.last());
        assert(v =~= v.drop_last().push(v.last()));
    } else {
        assert(v =~= seq![]);
    }
}

pub open spec fn at_position(v: Seq<(u32, Seq<char>)>, index: u32) -> Seq<(u32, Seq<char>)>
    decreases v.len(),
{
    if v.len() == 0 {
        seq![]
    } else if v.last().0 == index {
        at_position(v.drop_last(), index).push(v.last())
    } else {
        at_position(v.drop_last(), index)
    }
}

proof fn lemma_inserted_at_position(v: Seq<(u32, Seq<char>)>, p: (u32, Seq<char>), index: u32)
    requires
        in_order(v),
    ensures
        at_position(inserted(v, p), index) == if p.0 == index {
            at_position(v, index).push(p)
        } else {
            at_position(v, index)
        },
    decreases v.len(),
{
    if v.len() > 0 && v.last().0 > p.0 {
        lemma_inserted_at_position(v.drop_last(), p, index);
        let w = inserted(v.drop_last(), p);
        assert(w.push(v.last()).drop_last() =~= w);
        if v.last().0 == index {
            assert(p.0 != index);
        } else {
        }
    } else {
        assert(v.push(p).drop_last() =~= v);
    }
}

/// Pins of one position keep the order of the file.
pub proof fn equal_positions_keep_file_order(v: Seq<(u32, Seq<char>)>, index: u32)
    ensures
        at_position(ordered(v), index) == at_position(v, index),
    decreases v.len(),
{
    if v.len() > 0 {
        equal_positions_keep_file_order(v.drop_last(), index);
        pins_are_ordered(v.drop_last());
        lemma_inserted_at_position(ordered(v.drop_last()), v.last(), index);
    }
}

// ---- What the staging file says ----

proof fn lemma_untrimmed(s: Seq<char>)
    requires
        s.len() > 0,
        !white(s[0]),
        !white(s.last()),
    ensures
        trimmed(s) == s,
{
}

proof fn lemma_pin_line(name: Seq<char>, n: u32, path: Seq<char>)
    requires
        name.len() > 0,
        forall|i: int| 0 <= i < name.len() ==> 'A' <= #[trigger] name[i] <= 'Z' || 'a' <= name[i] <= 'z',
        path.len() > 0,
        !white(path[0]),
        !white(path.last()),
    ensures
        ({
            let line = name + decimal(n as nat) + "="@ + path;
            &&& !is_header(line) && !is_comment(line) && line.len() > 0
            &&& cut(line, '=') == Some((name + decimal(n as nat), path))
            &&& trimmed(name + decimal(n as nat)) == name + decimal(n as nat)
            &&& lowered(name + decimal(n as nat)) == lowered(name) + decimal(n as nat)
            &&& trimmed(path) == path
            &&& trimmed(line) == line
            &&& position_in(lowered(name) + decimal(n as nat), lowered(name)) == Some(n)
        }),
{
    reveal_strlit("=");
    reveal_strlit("[");
    reveal_strlit(";");
    reveal_strlit("//");
    let d = decimal(n as nat);
    lemma_decimal(n as nat);
    lemma_decimal_reads_back(n as nat, u32::MAX as nat);
    let key = name + d;
    let line = key + "="@ + path;
    assert(line[0] == name[0]);
    assert(is_digit(d[d.len() - 1]));
    assert(key.last() == d[d.len() - 1]);
    assert(line.take(1)[0] == line[0]);
    assert("["@[0] == '[' && ";"@[0] == ';' && "//"@[0] == '/');
    if line.len() >= 2 {
        assert(line.take(2)[0] == line[0]);
    }
    line.index_of_first_ensures('=');
    let at = key.len() as int;
    assert(line[at] == '=');
    assert(line.contains('='));
    assert forall|i: int| 0 <= i < at implies line[i] != '=' by {
        if i < name.len() {
            assert(line[i] == name[i]);
        } else {
            assert(line[i] == d[i - name.len()]);
            assert(is_digit(d[i - name.len()]));
        }
    }
    assert(line.take(at) =~= key);
    assert(line.skip(at + 1) =~= path);
    lemma_untrimmed(key);
    lemma_untrimmed(path);
    assert(line.last() == path.last());
    lemma_untrimmed(line);
    assert(lowered(key) =~= lowered(name) + d) by {
        assert forall|i: int| 0 <= i < key.len() implies lowered(key)[i] == (lowered(name) + d)[i] by {
            if i >= name.len() {
                assert(key[i] == d[i - name.len()]);
                assert(is_digit(d[i - name.len()]));
            }
        }
    }
    assert((lowered(name) + d).take(name.len() as int) =~= lowered(name));
    assert((lowered(name) + d).skip(name.len() as int) =~= d);
}

/// A line `Taskbar<n>=<path>` pins the path to the taskbar at position `n`, and
/// `StartMenu<n>=<path>` to the start menu.
pub proof fn a_pin_line_pins_its_path(n: u32, path: Seq<char>)
    requires
        path.len() > 0,
        !white(path[0]),
        !white(path.last()),
    ensures
        pin_on("Taskbar"@ + decimal(n as nat) + "="@ + path) == Some(
            PinView { place: Place::Taskbar, index: n, path },
        ),
        pin_on("StartMenu"@ + decimal(n as nat) + "="@ + path) == Some(
            PinView { place: Place::StartMenu, index: n, path },
        ),
{
    reveal_strlit("Taskbar");
    reveal_strlit("StartMenu");
    reveal_strlit("taskbar");
    reveal_strlit("startmenu");
    lemma_pin_line("Taskbar"@, n, path);
    lemma_pin_line("StartMenu"@, n, path);
    assert(lowered("Taskbar"@) =~= "taskbar"@);
    assert(lowered("StartMenu"@) =~= "startmenu"@);
    let key = "startmenu"@ + decimal(n as nat);
    assert(key[0] == 's');
    assert("taskbar"@[0] == 't');
    assert(key.take(7)[0] == key[0]);
    assert(position_in(key, "taskbar"@) is None);
}

/// Every pin of the section is recorded, and nothing that stands outside it, or is no
/// pin of that list.
pub proof fn the_sections_pins_are_recorded(all: Seq<Seq<char>>, place: Place, i: int)
    requires
        0 <= i < all.len(),
    ensures
        ({
            let r = recorded(all, place);
            (in_section(all.take(i)) && pin_on(trimmed(all[i])) is Some && pin_on(
                trimmed(all[i]),
            )->0.place == place) ==> r.contains(
                (pin_on(trimmed(all[i]))->0.index, pin_on(trimmed(all[i]))->0.path),
            )
        }),
        forall|x: (u32, Seq<char>)| #[trigger]
            recorded(all, place).contains(x) ==> exists|k: int|
                0 <= k < all.len() && in_section(#[trigger] all.take(k)) && pin_on(
                    trimmed(all[k]),
                ) == Some(PinView { place, index: x.0, path: x.1 }),
    decreases all.len(),
{
    let d = all.drop_last();
    let last = all.len() - 1;
    let before = recorded(d, place);
    let r = recorded(all, place);
    assert(all.take(last) =~= d);
    if i < last {
        the_sections_pins_are_recorded(d, place, i);
        assert(d.take(i) =~= all.take(i));
        if in_section(all.take(i)) && pin_on(trimmed(all[i])) is Some && pin_on(
            trimmed(all[i]),
        )->0.place == place {
            let x = (pin_on(trimmed(all[i]))->0.index, pin_on(trimmed(all[i]))->0.path);
            let k = choose|k: int| 0 <= k < before.len() && before[k] == x;
            assert(r[k] == x);
        }
    } else if in_section(all.take(i)) && pin_on(trimmed(all[i])) is Some && pin_on(
        trimmed(all[i]),
    )->0.place == place {
        assert(r[before.len() as int] == (
            pin_on(trimmed(all[i]))->0.index,
            pin_on(trimmed(all[i]))->0.path,
        ));
    }
    assert forall|x: (u32, Seq<char>)| #[trigger] r.contains(x) implies exists|k: int|
        0 <= k < all.len() && in_section(#[trigger] all.take(k)) && pin_on(trimmed(all[k])) == Some(
            PinView { place, index: x.0, path: x.1 },
        ) by {
        let m = choose|m: int| 0 <= m < r.len() && r[m] == x;
        if m < before.len() {
            assert(before[m] == x);
            assert(before.contains(x));
            if d.len() > 0 {
                the_sections_pins_are_recorded(d, place, 0);
                let k = choose|k: int|
                    0 <= k < d.len() && in_section(#[trigger] d.take(k)) && pin_on(trimmed(d[k]))
                        == Some(PinView { place, index: x.0, path: x.1 });
                assert(all.take(k) =~= d.take(k));
            }
        } else {
            assert(in_section(all.take(last)));
        }
    }
}

/// The section starts behind its header, whatever the case of that, and ends at the
/// next header.
pub proof fn the_section_lies_between_headers(all: Seq<Seq<char>>, line: Seq<char>)
    ensures
        (trimmed(line).len() > 0 && trimmed(line)[0] == '[') ==> in_section(all.push(line)) == (
        lowered(trimmed(line)) == lowered("[PinUtil]"@)),
        (trimmed(line).len() == 0 || trimmed(line)[0] != '[') ==> in_section(all.push(line))
            == in_section(all),
        !in_section(seq![]),
{
    reveal_strlit("[");
    assert(all.push(line).drop_last() =~= all);
    let t = trimmed(line);
    if t.len() > 0 {
        assert(t.take(1)[0] == t[0]);
        if t[0] == '[' {
            assert(t.take(1) =~= "["@);
        } else {
            assert("["@[0] == '[');
        }
    }
}

/// The paths come out in position order, each where its pin came out.
pub proof fn paths_are_those_of_the_pins(v: Seq<(u32, Seq<char>)>, i: int)
    requires
        0 <= i < v.len(),
    ensures
        paths(v).len() == v.len(),
        paths(v)[i] == v[i].1,
{
}

/// Comments, headers, lines without a path or without a position, and keys of other
/// names pin nothing.
pub proof fn other_lines_pin_nothing(line: Seq<char>)
    ensures
        line.len() == 0 ==> pin_on(line) is None,
        (line.len() > 0 && (line[0] == ';' || line[0] == '[')) ==> pin_on(line) is None,
        (line.len() > 1 && line[0] == '/' && line[1] == '/') ==> pin_on(line) is None,
        !line.contains('=') ==> pin_on(line) is None,
        (line.len() > 0 && line.last() == '=' && !line.drop_last().contains('=')) ==> pin_on(line)
            is None,
{
    reveal_strlit("[");
    reveal_strlit(";");
    reveal_strlit("//");
    if line.len() > 0 {
        if line[0] == ';' {
            assert(line.take(1) =~= ";"@);
        }
        if line[0] == '[' {
            assert(line.take(1) =~= "["@);
        }
        if line.len() > 1 && line[0] == '/' && line[1] == '/' {
            assert(line.take(2) =~= "//"@);
        }
    }
    line.index_of_first_ensures('=');
    if line.len() > 0 && line.last() == '=' && !line.drop_last().contains('=') {
        let at = line.len() - 1;
        assert(line[at] == '=');
        assert(line.contains('='));
        let i = line.index_of_first('=')->0;
        if i < at {
            assert(line.drop_last()[i] == '=');
        }
        assert(line.skip(at + 1) =~= seq![]);
        assert(trimmed(line.skip(at + 1)).len() == 0);
    }
}

/// The file's paths for a list are those of the pins that its section records for it,
/// all of them, by position.
pub proof fn the_files_paths_are_its_pins(text: Seq<char>, place: Place, i: int)
    requires
        0 <= i < lines(text).len(),
        in_section(lines(text).take(i)),
        pin_on(trimmed(lines(text)[i])) is Some,
        pin_on(trimmed(lines(text)[i]))->0.place == place,
    ensures
        pinned(text, place).contains(pin_on(trimmed(lines(text)[i]))->0.path),
        pinned(text, place).len() == recorded(lines(text), place).len(),
        exists|v: Seq<(u32, Seq<char>)>|
            #![trigger in_order(v)]
            in_order(v) && v.to_multiset() == recorded(lines(text), place).to_multiset()
                && pinned(text, place).len() == v.len() && (forall|k: int|
                0 <= k < v.len() ==> pinned(text, place)[k] == (#[trigger] v[k]).1),
{
    broadcast use vstd::seq_lib::group_to_multiset_ensures;

    let r = recorded(lines(text), place);
    let v = ordered(r);
    pins_are_ordered(r);
    the_sections_pins_are_recorded(lines(text), place, i);
    let p = pin_on(trimmed(lines(text)[i]))->0;
    let x = (p.index, p.path);
    assert(r.contains(x));
    assert(r.to_multiset().contains(x));
    assert(v.to_multiset().contains(x));
    assert(v.contains(x));
    let k = choose|k: int| 0 <= k < v.len() && v[k] == x;
    assert(pinned(text, place)[k] == p.path);
    assert(v.to_multiset().len() == r.to_multiset().len());
    assert(in_order(v));
}

} // verus!
