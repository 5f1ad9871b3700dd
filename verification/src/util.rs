//! Small helpers shared by the taskbar and start menu: UTF-16 text, file names
//! and message words.

use vstd::prelude::*;
use vstd::string::*;
use vstd::utf8::char_u32_cast;
use crate::num::{hex4, hex4_text};
use crate::text::{chars_of, slice_of, string_of, trim, trimmed};

verus! {

/// `char::from_u32`: the character with that code point, where there is one.
pub assume_specification[ char::from_u32 ](i: u32) -> (r: Option<char>)
    ensures
        r is Some <==> (i < 0xD800 || 0xE000 <= i <= 0x10FFFF),
        r matches Some(c) ==> c as u32 == i,
;

/// The UTF-16 code units of one character.
pub open spec fn units(c: char) -> Seq<u16> {
    let v = c as u32;
    if v < 0x10000 {
        seq![v as u16]
    } else {
        seq![
            (0xD800 + (v - 0x10000) / 0x400) as u16,
            (0xDC00 + (v - 0x10000) % 0x400) as u16,
        ]
    }
}

/// The UTF-16 code units of a text.
pub open spec fn utf16(s: Seq<char>) -> Seq<u16>
    decreases s.len(),
{
    if s.len() == 0 {
        seq![]
    } else {
        utf16(s.drop_last()) + units(s.last())
    }
}

/// UTF-16 code units of `s`.
pub fn encode(s: &str) -> (r: Vec<u16>)
    ensures
        r@ == utf16(s@),
{
    let v = chars_of(s);
    let mut out: Vec<u16> = Vec::new();
    let mut i: usize = 0;
    assert(v@.take(0) =~= seq![]);
    while i < v.len()
        invariant
            i <= v.len(),
            v@ == s@,
            out@ == utf16(v@.take(i as int)),
        decreases v.len() - i,
    {
        let c: u32 = v[i] as u32;
        let ghost before = out@;
        if c < 0x10000 {
            out.push(c as u16);
        } else {
            out.push((0xD800 + (c - 0x10000) / 0x400) as u16);
            out.push((0xDC00 + (c - 0x10000) % 0x400) as u16);
        }
        assert(out@ =~= before + units(v@[i as int]));
        i = i + 1;
        assert(v@.take(i as int).drop_last() =~= v@.take(i - 1));
    }
    assert(v@.take(i as int) =~= v@);
    out
}

/// UTF-16, NUL-terminated copy of `s`.
pub fn wide(s: &str) -> (r: Vec<u16>)
    ensures
        r@ == utf16(s@).push(0),
{
    let mut out = encode(s);
    out.push(0);
    out
}

pub open spec fn is_surrogate(u: u16) -> bool {
    0xD800 <= u <= 0xDFFF
}

pub open spec fn is_pair(a: u16, b: u16) -> bool {
    0xD800 <= a <= 0xDBFF && 0xDC00 <= b <= 0xDFFF
}

/// The code point a surrogate pair stands for.
pub open spec fn pair_value(a: u16, b: u16) -> u32 {
    (0x10000 + (a - 0xD800) * 0x400 + (b - 0xDC00)) as u32
}

/// The text that UTF-16 units write. A surrogate without its partner is read as
/// U+FFFD.
pub open spec fn decoded(s: Seq<u16>) -> Seq<char>
    decreases s.len(),
{
    if s.len() == 0 {
        seq![]
    } else if !is_surrogate(s[0]) {
        seq![s[0] as u32 as char] + decoded(s.skip(1))
    } else if s.len() > 1 && is_pair(s[0], s[1]) {
        seq![pair_value(s[0], s[1]) as char] + decoded(s.skip(2))
    } else {
        seq!['\u{FFFD}'] + decoded(s.skip(1))
    }
}

/// The code point `v`, which must be one.
fn char_at(v: u32) -> (r: char)
    requires
        v < 0xD800 || 0xE000 <= v <= 0x10FFFF,
    ensures
        r as u32 == v,
        r == v as char,
{
    match char::from_u32(v) {
        Some(c) => {
            proof {
                char_u32_cast(c, v);
            }
            c
        },
        None => '\u{FFFD}',
    }
}

/// Read UTF-16 units as text.
pub fn from_utf16_lossy(s: &[u16]) -> (r: String)
    ensures
        r@ == decoded(s@),
{
    let mut out = String::new();
    let mut i: usize = 0;
    assert(s@.skip(0) =~= s@);
    assert(out@ + decoded(s@) =~= decoded(s@));
    while i < s.len()
        invariant
            i <= s.len(),
            out@ + decoded(s@.skip(i as int)) == decoded(s@),
        decreases s.len() - i,
    {
        let a: u16 = s[i];
        let ghost before = out@;
        let ghost rest = s@.skip(i as int);
        if a < 0xD800 || a > 0xDFFF {
            let c = char_at(a as u32);
            out.push(c);
            i = i + 1;
            assert(rest.skip(1) =~= s@.skip(i as int));
            assert(before + (seq![c] + decoded(rest.skip(1))) =~= out@ + decoded(rest.skip(1)));
        } else if i + 1 < s.len() && a <= 0xDBFF && s[i + 1] >= 0xDC00 && s[i + 1] <= 0xDFFF {
            let b: u16 = s[i + 1];
            let v: u32 = 0x10000 + (a as u32 - 0xD800) * 0x400 + (b as u32 - 0xDC00);
            assert(is_pair(rest[0], rest[1]));
            let c = char_at(v);
            out.push(c);
            i = i + 2;
            assert(rest.skip(2) =~= s@.skip(i as int));
            assert(before + (seq![c] + decoded(rest.skip(2))) =~= out@ + decoded(rest.skip(2)));
        } else {
            out.push('\u{FFFD}');
            i = i + 1;
            assert(rest.skip(1) =~= s@.skip(i as int));
            assert(before + (seq!['\u{FFFD}'] + decoded(rest.skip(1))) =~= out@ + decoded(
                rest.skip(1),
            ));
        }
    }
    assert(out@ =~= decoded(s@));
    out
}

/// The units before the first NUL.
pub open spec fn until_nul(s: Seq<u16>) -> Seq<u16>
    decreases s.len(),
{
    if s.len() == 0 || s[0] == 0 {
        seq![]
    } else {
        seq![s[0]] + until_nul(s.skip(1))
    }
}

/// Read UTF-16 units up to the first NUL as text.
pub fn text_until_nul(s: &[u16]) -> (r: String)
    ensures
        r@ == decoded(until_nul(s@)),
{
    let mut v: Vec<u16> = Vec::new();
    let mut i: usize = 0;
    assert(s@.skip(0) =~= s@);
    assert(v@ + until_nul(s@) =~= until_nul(s@));
    while i < s.len() && s[i] != 0
        invariant
            i <= s.len(),
            v@ + until_nul(s@.skip(i as int)) == until_nul(s@),
        decreases s.len() - i,
    {
        let ghost before = v@;
        let ghost rest = s@.skip(i as int);
        v.push(s[i]);
        i = i + 1;
        assert(rest.skip(1) =~= s@.skip(i as int));
        assert(before + (seq![rest[0]] + until_nul(rest.skip(1))) =~= v@ + until_nul(rest.skip(1)));
    }
    assert(v@ =~= until_nul(s@));
    from_utf16_lossy(&v)
}

/// Owns a NUL-terminated UTF-16 buffer so a pointer to it stays valid for a call.
pub struct WideStr(Vec<u16>);

impl View for WideStr {
    type V = Seq<u16>;

    closed spec fn view(&self) -> Seq<u16> {
        self.0@
    }
}

impl WideStr {
    pub fn new(s: &str) -> (r: Self)
        ensures
            r@ == utf16(s@).push(0),
    {
        Self(wide(s))
    }

    /// The units, with the closing NUL.
    pub fn as_units(&self) -> (r: &Vec<u16>)
        ensures
            r@ == self@,
    {
        &self.0
    }
}

/// Decoding the units of a text gives the text back, whatever follows.
proof fn lemma_decode_units(c: char, tail: Seq<u16>)
    ensures
        decoded(units(c) + tail) == seq![c] + decoded(tail),
{
    let s = units(c) + tail;
    let v = c as u32;
    assert(v < 0xD800 || 0xE000 <= v <= 0x10FFFF);
    if v < 0x10000 {
        assert(s.skip(1) =~= tail);
        assert(s[0] as u32 as char == c);
    } else {
        assert(s.skip(2) =~= tail);
        assert(is_pair(s[0], s[1]));
        assert(pair_value(s[0], s[1]) == v);
    }
}

proof fn lemma_decode_text(s: Seq<char>, tail: Seq<u16>)
    ensures
        decoded(utf16(s) + tail) == s + decoded(tail),
    decreases s.len(),
{
    if s.len() == 0 {
        assert(utf16(s) + tail =~= tail);
        assert(s + decoded(tail) =~= decoded(tail));
    } else {
        let c = s.last();
        assert(utf16(s) + tail =~= utf16(s.drop_last()) + (units(c) + tail));
        lemma_decode_text(s.drop_last(), units(c) + tail);
        lemma_decode_units(c, tail);
        assert(s.drop_last() + (seq![c] + decoded(tail)) =~= s + decoded(tail));
    }
}

/// Text written as UTF-16 reads back as the same text.
pub proof fn utf16_reads_back(s: Seq<char>)
    ensures
        decoded(utf16(s)) == s,
{
    lemma_decode_text(s, seq![]);
    assert(utf16(s) + Seq::<u16>::empty() =~= utf16(s));
    assert(s + decoded(seq![]) =~= s);
}

proof fn lemma_units_nonzero(c: char)
    requires
        c != '\0',
    ensures
        forall|i: int| 0 <= i < units(c).len() ==> units(c)[i] != 0,
{
}

proof fn lemma_units_no_nul(s: Seq<char>)
    requires
        !s.contains('\0'),
    ensures
        !utf16(s).contains(0),
    decreases s.len(),
{
    if s.len() > 0 {
        let c = s.last();
        assert(s[s.len() - 1] == c);
        assert(c != '\0');
        lemma_units_nonzero(c);
        assert forall|i: int| 0 <= i < s.drop_last().len() implies s.drop_last()[i] != '\0' by {
            assert(s[i] != '\0');
        }
        lemma_units_no_nul(s.drop_last());
        let a = utf16(s.drop_last());
        let b = units(c);
        assert forall|i: int| 0 <= i < utf16(s).len() implies utf16(s)[i] != 0 by {
            if i < a.len() {
                assert(utf16(s)[i] == a[i]);
                assert(a.contains(a[i]));
            } else {
                assert(utf16(s)[i] == b[i - a.len()]);
            }
        }
    }
}

proof fn lemma_until_nul(s: Seq<u16>)
    requires
        !s.contains(0),
    ensures
        until_nul(s.push(0)) == s,
    decreases s.len(),
{
    if s.len() > 0 {
        assert(s.contains(s[0]));
        assert(s.push(0).skip(1) =~= s.skip(1).push(0));
        assert forall|i: int| 0 <= i < s.skip(1).len() implies s.skip(1)[i] != 0 by {
            assert(s.contains(s[i + 1]));
        }
        lemma_until_nul(s.skip(1));
        assert(seq![s[0]] + s.skip(1) =~= s);
    }
}

/// A text without NULs survives the trip through a NUL-terminated buffer.
pub proof fn wide_reads_back(s: Seq<char>)
    requires
        !s.contains('\0'),
    ensures
        decoded(until_nul(utf16(s).push(0))) == s,
{
    lemma_units_no_nul(s);
    lemma_until_nul(utf16(s));
    utf16_reads_back(s);
}

// ---- File names ----

/// The part of a path behind its last separator (`\` or `/`).
pub open spec fn file_name(path: Seq<char>) -> Seq<char>
    decreases path.len(),
{
    if path.len() == 0 || path.last() == '\\' || path.last() == '/' {
        seq![]
    } else {
        file_name(path.drop_last()).push(path.last())
    }
}

/// A file name without what follows its last dot, the dot included.
pub open spec fn without_extension(name: Seq<char>) -> Seq<char> {
    match name.index_of_last('.') {
        Some(i) => name.take(i),
        None => name,
    }
}

/// File name of `path` with its extension, without the directory.
pub fn name_chars(path: &[char]) -> (r: Vec<char>)
    ensures
        r@ == file_name(path@),
{
    let mut i: usize = path.len();
    assert(path@.take(i as int) =~= path@);
    assert(path@.skip(i as int) =~= seq![]);
    assert(file_name(path@.take(i as int)) + path@.skip(i as int) =~= file_name(path@));
    while i > 0 && path[i - 1] != '\\' && path[i - 1] != '/'
        invariant
            i <= path.len(),
            file_name(path@.take(i as int)) + path@.skip(i as int) == file_name(path@),
        decreases i,
    {
        let ghost head = path@.take(i as int);
        i = i - 1;
        assert(head.drop_last() =~= path@.take(i as int));
        assert(file_name(head) + path@.skip(i + 1) =~= file_name(path@.take(i as int))
            + path@.skip(i as int));
    }
    assert(file_name(path@.take(i as int)) + path@.skip(i as int) =~= path@.skip(i as int));
    assert(path@.subrange(i as int, path@.len() as int) =~= path@.skip(i as int));
    slice_of(path, i, path.len())
}

/// File name of `path` without directory or extension
/// (`B:\Programs\7-Zip\7zFM.exe` -> `7zFM`).
pub fn file_stem(path: &str) -> (r: String)
    ensures
        r@ == without_extension(file_name(path@)),
{
    let path = chars_of(path);
    let name = name_chars(&path);
    match crate::text::rfind_char(&name, '.') {
        Some(dot) => {
            let stem = slice_of(&name, 0, dot);
            assert(stem@ =~= name@.take(dot as int));
            string_of(&stem)
        },
        None => string_of(&name),
    }
}

/// The name shown for an application whose version resource holds these texts.
pub open spec fn display_name(
    description: Option<Seq<char>>,
    product: Option<Seq<char>>,
    path: Seq<char>,
) -> Seq<char> {
    let shown = match description {
        Some(d) => Some(d),
        None => product,
    };
    match shown {
        Some(d) if trimmed(d).len() > 0 => trimmed(d),
        _ => without_extension(file_name(path)),
    }
}

/// The text of an optional string.
pub open spec fn opt_view(s: Option<String>) -> Option<Seq<char>> {
    match s {
        Some(t) => Some(t@),
        None => None,
    }
}

/// The friendly application name: the version resource's `FileDescription` (what
/// Explorer shows for a shortcut), then `ProductName`, falling back to the file
/// stem. So `hwinfo64.exe` -> "HWiNFO64", `Explorer.exe` -> "Windows Explorer".
pub fn app_display_name(
    description: &Option<String>,
    product: &Option<String>,
    path: &str,
) -> (r: String)
    ensures
        r@ == display_name(opt_view(*description), opt_view(*product), path@),
{
    let shown = match description {
        Some(d) => Some(d),
        None => match product {
            Some(p) => Some(p),
            None => None,
        },
    };
    match shown {
        Some(d) => {
            let t = trim(&chars_of(d.as_str()));
            if t.len() > 0 {
                string_of(&t)
            } else {
                file_stem(path)
            }
        },
        None => file_stem(path),
    }
}

/// Where a version resource keeps one text for a language and code page.
pub fn version_block(lang: u16, codepage: u16, field: &str) -> (r: String)
    ensures
        r@ == "\\StringFileInfo\\"@ + hex4(lang) + hex4(codepage) + "\\"@ + field@,
{
    let mut s = "\\StringFileInfo\\".to_owned();
    s.append(hex4_text(lang).as_str());
    s.append(hex4_text(codepage).as_str());
    s.append("\\");
    s.append(field);
    s
}

/// `s` without the NULs it ends with.
pub open spec fn without_nuls(s: Seq<char>) -> Seq<char>
    decreases s.len(),
{
    if s.len() > 0 && s.last() == '\0' {
        without_nuls(s.drop_last())
    } else {
        s
    }
}

/// The text of a version resource's value: its units, without closing NULs.
pub fn version_text(value: &[u16]) -> (r: String)
    ensures
        r@ == without_nuls(decoded(value@)),
{
    let s = from_utf16_lossy(value);
    let v = chars_of(s.as_str());
    let mut i: usize = v.len();
    assert(v@.take(i as int) =~= v@);
    while i > 0 && v[i - 1] == '\0'
        invariant
            i <= v.len(),
            without_nuls(v@) == without_nuls(v@.take(i as int)),
        decreases i,
    {
        assert(v@.take(i as int).drop_last() =~= v@.take(i - 1));
        i = i - 1;
    }
    let t = slice_of(&v, 0, i);
    assert(t@ =~= v@.take(i as int));
    string_of(&t)
}

// ---- Message words ----

/// The low 16 bits of a number, read as a signed 16-bit number.
pub open spec fn signed_word(v: int) -> int {
    let m = v % 0x10000;
    if m < 0x8000 {
        m
    } else {
        m - 0x10000
    }
}

pub fn loword(v: isize) -> (r: i32)
    ensures
        r == signed_word(v as int),
{
    let w: i64 = v as i64;
    assert((w & 0xffff) as i16 as i32 == if w & 0xffff < 0x8000 {
        (w & 0xffff) as int
    } else {
        (w & 0xffff) - 0x10000
    }) by (bit_vector);
    assert(w & 0xffff == w % 0x10000) by (bit_vector);
    (w & 0xffff) as i16 as i32
}

pub fn hiword(v: isize) -> (r: i32)
    ensures
        r == signed_word(v as int / 0x10000),
{
    let w: i64 = (v as i64) >> 16;
    assert((v as i64) >> 16 == (v as i64) as int / 0x10000) by (bit_vector);
    loword(w as isize)
}

// ---- Laws ----

/// A file's name is what stands behind the last separator of its path, and its stem
/// is that without what stands behind the last dot.
pub proof fn a_file_is_named_by_the_end_of_its_path(
    dir: Seq<char>,
    sep: char,
    stem: Seq<char>,
    ext: Seq<char>,
)
    requires
        sep == '\\' || sep == '/',
        forall|i: int| 0 <= i < stem.len() ==> #[trigger] stem[i] != '\\' && stem[i] != '/',
        forall|i: int|
            0 <= i < ext.len() ==> #[trigger] ext[i] != '\\' && ext[i] != '/' && ext[i] != '.',
    ensures
        file_name(dir.push(sep) + (stem.push('.') + ext)) == stem.push('.') + ext,
        without_extension(stem.push('.') + ext) == stem,
        file_name(stem.push('.') + ext) == stem.push('.') + ext,
{
    let name = stem.push('.') + ext;
    assert forall|i: int| 0 <= i < name.len() implies #[trigger] name[i] != '\\' && name[i] != '/' by {
        if i < stem.len() {
            assert(name[i] == stem[i]);
        } else if i > stem.len() {
            assert(name[i] == ext[i - stem.len() - 1]);
        }
    }
    lemma_file_name(dir.push(sep), name);
    lemma_file_name(seq![], name);
    assert(Seq::<char>::empty() + name =~= name);
    assert(file_name(dir.push(sep)) =~= seq![]);
    assert(Seq::<char>::empty() + name =~= name);
    let at = stem.len() as int;
    name.index_of_last_ensures('.');
    assert(name[at] == '.');
    assert(name.contains('.'));
    let i = name.index_of_last('.')->0;
    if i > at {
        assert(name[i] == ext[i - at - 1]);
    }
    assert(name.take(at) =~= stem);
}

proof fn lemma_file_name(front: Seq<char>, name: Seq<char>)
    requires
        forall|i: int| 0 <= i < name.len() ==> #[trigger] name[i] != '\\' && name[i] != '/',
    ensures
        file_name(front + name) == file_name(front) + name,
    decreases name.len(),
{
    let p = front + name;
    if name.len() == 0 {
        assert(p =~= front);
        assert(file_name(front) + name =~= file_name(front));
    } else {
        let d = name.drop_last();
        assert forall|i: int| 0 <= i < d.len() implies #[trigger] d[i] != '\\' && d[i] != '/' by {
            assert(d[i] == name[i]);
        }
        lemma_file_name(front, d);
        assert(p.drop_last() =~= front + d);
        assert(p.last() == name[name.len() - 1]);
        assert((file_name(front) + d).push(p.last()) =~= file_name(front) + name);
    }
}

/// A program is called by its description, else by its product's name, else by its
/// file's; a blank name does not count.
pub proof fn a_program_is_called_by_its_description(
    description: Option<Seq<char>>,
    product: Option<Seq<char>>,
    path: Seq<char>,
)
    ensures
        (description is Some && trimmed(description->0).len() > 0) ==> display_name(
            description,
            product,
            path,
        ) == trimmed(description->0),
        (description is None && product is Some && trimmed(product->0).len() > 0) ==> display_name(
            description,
            product,
            path,
        ) == trimmed(product->0),
        (description is None && product is None) ==> display_name(description, product, path)
            == without_extension(file_name(path)),
        (description is Some && trimmed(description->0).len() == 0) ==> display_name(
            description,
            product,
            path,
        ) == without_extension(file_name(path)),
{
}

/// A point that a mouse message packs comes out as it went in, with its signs.
pub proof fn a_packed_point_comes_out(x: int, y: int)
    requires
        -0x8000 <= x <= 0x7fff,
        -0x8000 <= y <= 0x7fff,
    ensures
        ({
            let v = x % 0x1_0000 + (y % 0x1_0000) * 0x1_0000;
            signed_word(v) == x && signed_word(v / 0x1_0000) == y
        }),
{
}

/// Closing NULs are taken off a text, and nothing else is.
pub proof fn closing_nuls_are_taken_off(s: Seq<char>, n: nat)
    requires
        s.len() > 0 ==> s.last() != '\0',
    ensures
        without_nuls(s + Seq::new(n, |i: int| '\0')) == s,
    decreases n,
{
    let t = s + Seq::new(n, |i: int| '\0');
    if n == 0 {
        assert(t =~= s);
    } else {
        closing_nuls_are_taken_off(s, (n - 1) as nat);
        assert(t.drop_last() =~= s + Seq::new((n - 1) as nat, |i: int| '\0'));
    }
}

/// A text ends at the first NUL, whatever follows it.
pub proof fn a_text_ends_at_the_first_nul(s: Seq<u16>, rest: Seq<u16>)
    requires
        !s.contains(0),
    ensures
        until_nul(s) == s,
        until_nul(s.push(0) + rest) == s,
    decreases s.len(),
{
    let t = s.push(0) + rest;
    if s.len() > 0 {
        assert(s.contains(s[0]));
        let u = s.skip(1);
        assert forall|i: int| 0 <= i < u.len() implies u[i] != 0 by {
            assert(s.contains(s[i + 1]));
        }
        a_text_ends_at_the_first_nul(u, rest);
        assert(t.skip(1) =~= u.push(0) + rest);
        assert(seq![s[0]] + u =~= s);
    } else {
        assert(s =~= seq![]);
    }
}

/// Half of a surrogate pair stands for no character and is read as the replacement
/// character; what follows is read as usual.
pub proof fn a_lone_surrogate_is_replaced(u: u16, rest: Seq<u16>)
    requires
        0xD800 <= u <= 0xDFFF,
        u >= 0xDC00 || rest.len() == 0 || !(0xDC00 <= rest[0] <= 0xDFFF),
    ensures
        decoded(seq![u] + rest) == seq!['\u{FFFD}'] + decoded(rest),
{
    let s = seq![u] + rest;
    assert(s[0] == u);
    if rest.len() > 0 {
        assert(s[1] == rest[0]);
    }
    assert(s.skip(1) =~= rest);
}

/// A character of the basic plane is one unit, its own number; any other is a pair.
pub proof fn characters_are_one_unit_or_two(c: char)
    ensures
        (c as u32) < 0x10000 ==> units(c) == seq![c as u32 as u16],
        (c as u32) >= 0x10000 ==> units(c).len() == 2 && 0xD800 <= units(c)[0] <= 0xDBFF && 0xDC00
            <= units(c)[1] <= 0xDFFF,
{
}

} // verus!
