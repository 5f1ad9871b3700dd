//! Text as sequences of characters: comparing, cutting, splitting and numbers.

use vstd::prelude::*;
use vstd::string::*;
use vstd::utf8::{decode_utf8, valid_utf8};

verus! {

/// `String::push` appends one character.
pub assume_specification[ String::push ](s: &mut String, c: char)
    ensures
        final(s)@ == old(s)@.push(c),
;

/// The characters of `s`.
pub fn chars_of(s: &str) -> (r: Vec<char>)
    ensures
        r@ == s@,
{
    let mut v: Vec<char> = Vec::new();
    for c in it: s.chars()
        invariant
            it.seq() == s@,
            v@ == s@.take(it.index() as int),
    {
        v.push(c);
        assert(v@ =~= s@.take(it.index() as int + 1));
    }
    assert(v@ =~= s@);
    v
}

/// The string with these characters.
pub fn string_of(v: &[char]) -> (r: String)
    ensures
        r@ == v@,
{
    let mut s = String::new();
    let mut i: usize = 0;
    assert(s@ =~= v@.take(0));
    while i < v.len()
        invariant
            i <= v.len(),
            s@ == v@.take(i as int),
        decreases v.len() - i,
    {
        s.push(v[i]);
        i = i + 1;
        assert(v@.take(i as int) =~= v@.take(i - 1).push(v@[i - 1]));
    }
    assert(v@.take(i as int) =~= v@);
    s
}

/// The characters `from..to` of `v`.
pub fn slice_of(v: &[char], from: usize, to: usize) -> (r: Vec<char>)
    requires
        from <= to <= v.len(),
    ensures
        r@ == v@.subrange(from as int, to as int),
{
    let mut out: Vec<char> = Vec::new();
    let mut i: usize = from;
    while i < to
        invariant
            from <= i <= to <= v.len(),
            out@ == v@.subrange(from as int, i as int),
        decreases to - i,
    {
        out.push(v[i]);
        i = i + 1;
        assert(out@ =~= v@.subrange(from as int, i as int));
    }
    out
}

/// Two character lists hold the same text.
pub fn same_chars(a: &[char], b: &[char]) -> (r: bool)
    ensures
        r == (a@ == b@),
{
    if a.len() != b.len() {
        return false;
    }
    let mut i: usize = 0;
    while i < a.len()
        invariant
            i <= a.len() == b.len(),
            forall|k: int| 0 <= k < i ==> a@[k] == b@[k],
        decreases a.len() - i,
    {
        if a[i] != b[i] {
            return false;
        }
        i = i + 1;
    }
    assert(a@ =~= b@);
    true
}

/// Two strings hold the same text.
pub fn same_str(a: &str, b: &str) -> (r: bool)
    ensures
        r == (a@ == b@),
{
    let a = chars_of(a);
    let b = chars_of(b);
    same_chars(&a, &b)
}

/// `a` followed by `b`.
pub fn join2(a: &str, b: &str) -> (r: String)
    ensures
        r@ == a@ + b@,
{
    let mut s = a.to_owned();
    s.append(b);
    s
}

/// An independent copy of a list of strings.
pub fn clone_strings(v: &Vec<String>) -> (r: Vec<String>)
    ensures
        views(r@) == views(v@),
{
    let mut out: Vec<String> = Vec::new();
    let mut i: usize = 0;
    while i < v.len()
        invariant
            i <= v.len(),
            out.len() == i,
            forall|k: int| 0 <= k < i ==> out@[k]@ == v@[k]@,
        decreases v.len() - i,
    {
        out.push(v[i].clone());
        i = i + 1;
    }
    assert(views(out@) =~= views(v@));
    out
}

/// The texts of a list of strings.
pub open spec fn views(v: Seq<String>) -> Seq<Seq<char>> {
    Seq::new(v.len(), |i: int| v[i]@)
}

// ---- Letter case ----

/// The ASCII capital letters, as their small letters. Everything else is kept.
pub open spec fn ascii_lower(c: char) -> char {
    if 'A' <= c <= 'Z' {
        ((c as u8) + 32) as u8 as char
    } else {
        c
    }
}

pub fn lower_char(c: char) -> (r: char)
    ensures
        r == ascii_lower(c),
{
    if c >= 'A' && c <= 'Z' {
        ((c as u8) + 32u8) as char
    } else {
        c
    }
}

/// Every character lowered.
pub open spec fn lowered(s: Seq<char>) -> Seq<char> {
    Seq::new(s.len(), |i: int| ascii_lower(s[i]))
}

/// `s` with its ASCII capitals lowered.
pub fn to_ascii_lower(s: &[char]) -> (r: Vec<char>)
    ensures
        r@ == lowered(s@),
{
    let mut out: Vec<char> = Vec::new();
    let mut i: usize = 0;
    while i < s.len()
        invariant
            i <= s.len(),
            out.len() == i,
            forall|k: int| 0 <= k < i ==> out@[k] == ascii_lower(s@[k]),
        decreases s.len() - i,
    {
        out.push(lower_char(s[i]));
        i = i + 1;
    }
    assert(out@ =~= lowered(s@));
    out
}

/// The ASCII small letters, as their capitals. Everything else is kept.
pub open spec fn ascii_upper(c: char) -> char {
    if 'a' <= c <= 'z' {
        ((c as u8) - 32) as u8 as char
    } else {
        c
    }
}

/// Every character raised.
pub open spec fn raised(s: Seq<char>) -> Seq<char> {
    Seq::new(s.len(), |i: int| ascii_upper(s[i]))
}

/// `s` with its ASCII letters as capitals.
pub fn to_ascii_upper(s: &[char]) -> (r: Vec<char>)
    ensures
        r@ == raised(s@),
{
    let mut out: Vec<char> = Vec::new();
    let mut i: usize = 0;
    while i < s.len()
        invariant
            i <= s.len(),
            out.len() == i,
            forall|k: int| 0 <= k < i ==> out@[k] == ascii_upper(s@[k]),
        decreases s.len() - i,
    {
        let c = s[i];
        let u = if c >= 'a' && c <= 'z' {
            ((c as u8) - 32u8) as char
        } else {
            c
        };
        out.push(u);
        i = i + 1;
    }
    assert(out@ =~= raised(s@));
    out
}

/// Two texts are the same but for the case of ASCII letters.
pub open spec fn alike(a: Seq<char>, b: Seq<char>) -> bool {
    lowered(a) == lowered(b)
}

pub fn eq_ignore_case(a: &[char], b: &[char]) -> (r: bool)
    ensures
        r == alike(a@, b@),
{
    let a = to_ascii_lower(a);
    let b = to_ascii_lower(b);
    same_chars(&a, &b)
}

/// What `str::to_lowercase` makes of a text. It follows Unicode's case tables.
pub uninterp spec fn lowercase(s: Seq<char>) -> Seq<char>;

/// `str::to_lowercase`: the Unicode lower-case form of `s`, which depends on
/// `s` alone.
#[verifier::external_body]
pub(crate) fn to_lowercase(s: &str) -> (r: String)
    ensures
        r@ == lowercase(s@),
{
    s.to_lowercase()
}

/// What `String::from_utf8_lossy` reads from bytes.
pub uninterp spec fn lossy_text(bytes: Seq<u8>) -> Seq<char>;

/// `String::from_utf8_lossy`: the text that UTF-8 bytes write. Bytes that are no
/// UTF-8 are read as U+FFFD; how many of those stand for them is left unsaid.
#[verifier::external_body]
pub(crate) fn utf8_text(bytes: &[u8]) -> (r: String)
    ensures
        r@ == lossy_text(bytes@),
        valid_utf8(bytes@) ==> r@ == decode_utf8(bytes@),
{
    String::from_utf8_lossy(bytes).into_owned()
}

// ---- Finding and cutting ----

/// Unicode's white space.
pub open spec fn white(c: char) -> bool {
    let v = c as u32;
    ||| 0x9 <= v <= 0xD
    ||| v == 0x20
    ||| v == 0x85
    ||| v == 0xA0
    ||| v == 0x1680
    ||| 0x2000 <= v <= 0x200A
    ||| v == 0x2028
    ||| v == 0x2029
    ||| v == 0x202F
    ||| v == 0x205F
    ||| v == 0x3000
}

pub fn is_white(c: char) -> (r: bool)
    ensures
        r == white(c),
{
    let v: u32 = c as u32;
    (v >= 0x9 && v <= 0xD) || v == 0x20 || v == 0x85 || v == 0xA0 || v == 0x1680 || (v >= 0x2000
        && v <= 0x200A) || v == 0x2028 || v == 0x2029 || v == 0x202F || v == 0x205F || v == 0x3000
}

/// `s` without the white space it starts with.
pub open spec fn trim_front(s: Seq<char>) -> Seq<char>
    decreases s.len(),
{
    if s.len() > 0 && white(s[0]) {
        trim_front(s.skip(1))
    } else {
        s
    }
}

/// `s` without the white space it ends with.
pub open spec fn trim_back(s: Seq<char>) -> Seq<char>
    decreases s.len(),
{
    if s.len() > 0 && white(s.last()) {
        trim_back(s.drop_last())
    } else {
        s
    }
}

/// `s` without white space at either end.
pub open spec fn trimmed(s: Seq<char>) -> Seq<char> {
    trim_back(trim_front(s))
}

pub fn trim_start(s: &[char]) -> (r: Vec<char>)
    ensures
        r@ == trim_front(s@),
{
    let mut i: usize = 0;
    assert(s@.skip(0) =~= s@);
    while i < s.len() && is_white(s[i])
        invariant
            i <= s.len(),
            trim_front(s@) == trim_front(s@.skip(i as int)),
        decreases s.len() - i,
    {
        assert(s@.skip(i as int).skip(1) =~= s@.skip(i + 1));
        i = i + 1;
    }
    assert(s@.subrange(i as int, s@.len() as int) =~= s@.skip(i as int));
    slice_of(s, i, s.len())
}

pub fn trim_end(s: &[char]) -> (r: Vec<char>)
    ensures
        r@ == trim_back(s@),
{
    let mut i: usize = s.len();
    assert(s@.take(i as int) =~= s@);
    while i > 0 && is_white(s[i - 1])
        invariant
            i <= s.len(),
            trim_back(s@) == trim_back(s@.take(i as int)),
        decreases i,
    {
        assert(s@.take(i as int).drop_last() =~= s@.take(i - 1));
        i = i - 1;
    }
    assert(s@.subrange(0, i as int) =~= s@.take(i as int));
    slice_of(s, 0, i)
}

pub fn trim(s: &[char]) -> (r: Vec<char>)
    ensures
        r@ == trimmed(s@),
{
    let a = trim_start(s);
    trim_end(&a)
}

/// Where `c` first occurs in `s`.
pub fn find_char(s: &[char], c: char) -> (r: Option<usize>)
    ensures
        r is Some == s@.contains(c),
        r matches Some(i) ==> i < s.len() && s@.index_of_first(c) == Some(i as int),
        r is None ==> s@.index_of_first(c) == None::<int>,
{
    let mut i: usize = 0;
    while i < s.len()
        invariant
            i <= s.len(),
            forall|k: int| 0 <= k < i ==> s@[k] != c,
        decreases s.len() - i,
    {
        if s[i] == c {
            proof {
                s@.index_of_first_ensures(c);
            }
            return Some(i);
        }
        i = i + 1;
    }
    proof {
        s@.index_of_first_ensures(c);
    }
    None
}

/// Where `c` last occurs in `s`.
pub fn rfind_char(s: &[char], c: char) -> (r: Option<usize>)
    ensures
        r is Some == s@.contains(c),
        r matches Some(i) ==> i < s.len() && s@.index_of_last(c) == Some(i as int),
        r is None ==> s@.index_of_last(c) == None::<int>,
{
    let mut i: usize = s.len();
    while i > 0
        invariant
            i <= s.len(),
            forall|k: int| i <= k < s.len() ==> s@[k] != c,
        decreases i,
    {
        i = i - 1;
        if s[i] == c {
            proof {
                s@.index_of_last_ensures(c);
            }
            return Some(i);
        }
    }
    proof {
        s@.index_of_last_ensures(c);
    }
    None
}

/// `s` starts with `p`.
pub open spec fn begins(s: Seq<char>, p: Seq<char>) -> bool {
    p.len() <= s.len() && s.take(p.len() as int) == p
}

pub fn starts_with(s: &[char], p: &[char]) -> (r: bool)
    ensures
        r == begins(s@, p@),
{
    if s.len() < p.len() {
        return false;
    }
    let head = slice_of(s, 0, p.len());
    assert(s@.subrange(0, p@.len() as int) =~= s@.take(p@.len() as int));
    same_chars(&head, p)
}

/// `p` occurs in `s` at `i`.
pub open spec fn occurs_at(s: Seq<char>, p: Seq<char>, i: int) -> bool {
    0 <= i && i + p.len() <= s.len() && s.subrange(i, i + p.len()) == p
}

/// `p` occurs somewhere in `s`.
pub open spec fn occurs(s: Seq<char>, p: Seq<char>) -> bool {
    exists|i: int| occurs_at(s, p, i)
}

pub fn contains_str(s: &[char], p: &[char]) -> (r: bool)
    ensures
        r == occurs(s@, p@),
{
    if s.len() < p.len() {
        return false;
    }
    let mut i: usize = 0;
    while i <= s.len() - p.len()
        invariant
            p.len() <= s.len(),
            i <= s.len() - p.len() + 1,
            forall|k: int| 0 <= k < i ==> !occurs_at(s@, p@, k),
        decreases s.len() - i,
    {
        let part = slice_of(s, i, i + p.len());
        if same_chars(&part, p) {
            assert(occurs_at(s@, p@, i as int));
            return true;
        }
        if i == s.len() - p.len() {
            assert forall|k: int| !occurs_at(s@, p@, k) by {
                if k >= 0 && k < i {
                    assert(!occurs_at(s@, p@, k));
                }
            }
            return false;
        }
        i = i + 1;
    }
    false
}

/// The pieces of `s` between occurrences of `sep`.
pub open spec fn split(s: Seq<char>, sep: char) -> Seq<Seq<char>>
    decreases s.len(),
    via split_decreases
{
    match s.index_of_first(sep) {
        None => seq![s],
        Some(i) => seq![s.take(i)] + split(s.skip(i + 1), sep),
    }
}

#[via_fn]
proof fn split_decreases(s: Seq<char>, sep: char) {
    s.index_of_first_ensures(sep);
}

/// `s` cut at the first `sep`: what stands before it and what stands behind it.
pub open spec fn cut(s: Seq<char>, sep: char) -> Option<(Seq<char>, Seq<char>)> {
    match s.index_of_first(sep) {
        None => None,
        Some(i) => Some((s.take(i), s.skip(i + 1))),
    }
}

pub fn split_once(s: &[char], sep: char) -> (r: Option<(Vec<char>, Vec<char>)>)
    ensures
        r is Some == cut(s@, sep) is Some,
        r matches Some(p) ==> p.0@ == (cut(s@, sep)->0).0 && p.1@ == (cut(s@, sep)->0).1,
{
    match find_char(s, sep) {
        None => None,
        Some(i) => {
            let a = slice_of(s, 0, i);
            let b = slice_of(s, i + 1, s.len());
            assert(a@ =~= s@.take(i as int));
            assert(b@ =~= s@.skip(i + 1));
            Some((a, b))
        },
    }
}

/// The texts of a list of character lists.
pub open spec fn char_views(v: Seq<Vec<char>>) -> Seq<Seq<char>> {
    Seq::new(v.len(), |i: int| v[i]@)
}

pub fn split_char(s: &[char], sep: char) -> (r: Vec<Vec<char>>)
    ensures
        char_views(r@) == split(s@, sep),
{
    let mut out: Vec<Vec<char>> = Vec::new();
    let mut from: usize = 0;
    assert(s@.skip(0) =~= s@);
    assert(char_views(out@) + split(s@.skip(0), sep) =~= split(s@, sep));
    loop
        invariant
            from <= s.len(),
            char_views(out@) + split(s@.skip(from as int), sep) == split(s@, sep),
        decreases s.len() - from,
    {
        let rest = slice_of(s, from, s.len());
        assert(rest@ =~= s@.skip(from as int));
        let ghost before = out@;
        match split_once(&rest, sep) {
            None => {
                out.push(rest);
                assert(char_views(out@) =~= char_views(before) + seq![s@.skip(from as int)]);
                return out;
            },
            Some((a, b)) => {
                proof {
                    rest@.index_of_first_ensures(sep);
                }
                let next: usize = from + a.len() + 1;
                assert(rest@.skip(a@.len() as int + 1) =~= s@.skip(next as int));
                out.push(a);
                assert(char_views(out@) =~= char_views(before) + seq![a@]);
                assert(char_views(out@) + split(s@.skip(next as int), sep) =~= char_views(before)
                    + (seq![a@] + split(s@.skip(next as int), sep)));
                from = next;
            },
        }
    }
}

/// `s` without one carriage return at its end.
pub open spec fn without_return(s: Seq<char>) -> Seq<char> {
    if s.len() > 0 && s.last() == '\r' {
        s.drop_last()
    } else {
        s
    }
}

/// The lines of a text, without their ends (`\n` or `\r\n`). A last line need
/// not be ended, and nothing follows an ended one.
pub open spec fn lines(s: Seq<char>) -> Seq<Seq<char>>
    decreases s.len(),
    via lines_decreases
{
    if s.len() == 0 {
        seq![]
    } else {
        match s.index_of_first('\n') {
            None => seq![s],
            Some(i) => seq![without_return(s.take(i))] + lines(s.skip(i + 1)),
        }
    }
}

#[via_fn]
proof fn lines_decreases(s: Seq<char>) {
    s.index_of_first_ensures('\n');
}

pub fn split_lines(s: &[char]) -> (r: Vec<Vec<char>>)
    ensures
        char_views(r@) == lines(s@),
{
    let mut out: Vec<Vec<char>> = Vec::new();
    let mut from: usize = 0;
    assert(s@.skip(0) =~= s@);
    assert(char_views(out@) + lines(s@.skip(0)) =~= lines(s@));
    while from < s.len()
        invariant
            from <= s.len(),
            char_views(out@) + lines(s@.skip(from as int)) == lines(s@),
        decreases s.len() - from,
    {
        let rest = slice_of(s, from, s.len());
        assert(rest@ =~= s@.skip(from as int));
        let ghost before = out@;
        match split_once(&rest, '\n') {
            None => {
                out.push(rest);
                assert(char_views(out@) =~= char_views(before) + seq![s@.skip(from as int)]);
                return out;
            },
            Some((a, b)) => {
                proof {
                    rest@.index_of_first_ensures('\n');
                }
                let next: usize = from + a.len() + 1;
                assert(rest@.skip(a@.len() as int + 1) =~= s@.skip(next as int));
                let mut line = a;
                if line.len() > 0 && line[line.len() - 1] == '\r' {
                    let n: usize = line.len() - 1;
                    let short = slice_of(&line, 0, n);
                    assert(short@ =~= line@.drop_last());
                    line = short;
                }
                assert(line@ == without_return(rest@.take(a@.len() as int)));
                let ghost added = line@;
                out.push(line);
                assert(char_views(out@) =~= char_views(before) + seq![added]);
                assert(char_views(out@) + lines(s@.skip(next as int)) =~= char_views(before) + (
                seq![added] + lines(s@.skip(next as int))));
                from = next;
            },
        }
    }
    assert(lines(s@.skip(from as int)) =~= seq![]);
    assert(char_views(out@) =~= lines(s@));
    out
}

// ---- Order ----

/// `a` does not come after `b` when texts are ordered by code points.
pub open spec fn not_after(a: Seq<char>, b: Seq<char>) -> bool
    decreases a.len(),
{
    if a.len() == 0 {
        true
    } else if b.len() == 0 {
        false
    } else if a[0] != b[0] {
        a[0] < b[0]
    } else {
        not_after(a.skip(1), b.skip(1))
    }
}

pub fn is_not_after(a: &[char], b: &[char]) -> (r: bool)
    ensures
        r == not_after(a@, b@),
{
    let mut i: usize = 0;
    assert(a@.skip(0) =~= a@);
    assert(b@.skip(0) =~= b@);
    while i < a.len()
        invariant
            i <= a.len(),
            i <= b.len(),
            not_after(a@, b@) == not_after(a@.skip(i as int), b@.skip(i as int)),
        decreases a.len() - i,
    {
        if i == b.len() {
            return false;
        }
        if a[i] != b[i] {
            return a[i] < b[i];
        }
        assert(a@.skip(i as int).skip(1) =~= a@.skip(i + 1));
        assert(b@.skip(i as int).skip(1) =~= b@.skip(i + 1));
        i = i + 1;
    }
    true
}

/// Texts can be ordered: of two, one does not come after the other.
pub proof fn lemma_order_total(a: Seq<char>, b: Seq<char>)
    ensures
        not_after(a, b) || not_after(b, a),
    decreases a.len(),
{
    if a.len() > 0 && b.len() > 0 && a[0] == b[0] {
        lemma_order_total(a.skip(1), b.skip(1));
    }
}

pub proof fn lemma_order_transitive(a: Seq<char>, b: Seq<char>, c: Seq<char>)
    requires
        not_after(a, b),
        not_after(b, c),
    ensures
        not_after(a, c),
    decreases a.len(),
{
    if a.len() > 0 && b.len() > 0 && c.len() > 0 && a[0] == b[0] && b[0] == c[0] {
        lemma_order_transitive(a.skip(1), b.skip(1), c.skip(1));
    }
}

// ---- Laws ----

/// Texts are ordered as in a dictionary: by the first character in which they
/// differ, and a text comes before its continuations.
pub proof fn the_first_difference_orders(common: Seq<char>, a: Seq<char>, b: Seq<char>)
    ensures
        a.len() == 0 ==> not_after(common + a, common + b),
        (a.len() > 0 && b.len() > 0 && a[0] < b[0]) ==> {
            &&& not_after(common + a, common + b)
            &&& !not_after(common + b, common + a)
        },
        (a.len() == 0 && b.len() > 0) ==> !not_after(common + b, common + a),
    decreases common.len(),
{
    if common.len() > 0 {
        the_first_difference_orders(common.skip(1), a, b);
        assert((common + a).skip(1) =~= common.skip(1) + a);
        assert((common + b).skip(1) =~= common.skip(1) + b);
    } else {
        assert(common + a =~= a);
        assert(common + b =~= b);
    }
}

/// Trimming takes white space off both ends, and nothing else.
pub proof fn trimming_takes_white_space_off(s: Seq<char>)
    ensures
        ({
            let t = trimmed(s);
            &&& t.len() > 0 ==> !white(t[0]) && !white(t.last())
            &&& exists|a: int, b: int|
                #![trigger s.subrange(a, b)]
                0 <= a <= b <= s.len() && t == s.subrange(a, b) && (forall|i: int|
                    0 <= i < a || b <= i < s.len() ==> white(#[trigger] s[i]))
        }),
{
    lemma_trim_front(s);
    let a = choose|a: int|
        #![trigger s.skip(a)]
        0 <= a <= s.len() && trim_front(s) == s.skip(a) && (forall|i: int|
            0 <= i < a ==> white(#[trigger] s[i]));
    let f = trim_front(s);
    lemma_trim_back(f);
    let c = choose|c: int|
        #![trigger f.take(c)]
        0 <= c <= f.len() && trim_back(f) == f.take(c) && (forall|i: int|
            c <= i < f.len() ==> white(#[trigger] f[i]));
    let b = a + c;
    assert(f.take(c) =~= s.subrange(a, b));
    assert forall|i: int| 0 <= i < a || b <= i < s.len() implies white(#[trigger] s[i]) by {
        if i >= b {
            assert(f[i - a] == s[i]);
        }
    }
    if trimmed(s).len() > 0 {
        assert(f.len() > 0);
        assert(trimmed(s)[0] == f[0]);
    }
}

proof fn lemma_trim_front(s: Seq<char>)
    ensures
        trim_front(s).len() > 0 ==> !white(trim_front(s)[0]),
        exists|a: int|
            #![trigger s.skip(a)]
            0 <= a <= s.len() && trim_front(s) == s.skip(a) && (forall|i: int|
                0 <= i < a ==> white(#[trigger] s[i])),
    decreases s.len(),
{
    if s.len() > 0 && white(s[0]) {
        let t = s.skip(1);
        lemma_trim_front(t);
        let b = choose|b: int|
            #![trigger t.skip(b)]
            0 <= b <= t.len() && trim_front(t) == t.skip(b) && (forall|i: int|
                0 <= i < b ==> white(#[trigger] t[i]));
        assert(t.skip(b) =~= s.skip(b + 1));
        assert forall|i: int| 0 <= i < b + 1 implies white(#[trigger] s[i]) by {
            if i > 0 {
                assert(t[i - 1] == s[i]);
            }
        }
    } else {
        assert(s.skip(0) =~= s);
    }
}

proof fn lemma_trim_back(s: Seq<char>)
    ensures
        trim_back(s).len() > 0 ==> !white(trim_back(s).last()),
        exists|c: int|
            #![trigger s.take(c)]
            0 <= c <= s.len() && trim_back(s) == s.take(c) && (forall|i: int|
                c <= i < s.len() ==> white(#[trigger] s[i])),
    decreases s.len(),
{
    if s.len() > 0 && white(s.last()) {
        let t = s.drop_last();
        lemma_trim_back(t);
        let b = choose|b: int|
            #![trigger t.take(b)]
            0 <= b <= t.len() && trim_back(t) == t.take(b) && (forall|i: int|
                b <= i < t.len() ==> white(#[trigger] t[i]));
        assert(t.take(b) =~= s.take(b));
        assert forall|i: int| b <= i < s.len() implies white(#[trigger] s[i]) by {
            if i < t.len() {
                assert(t[i] == s[i]);
            }
        }
    } else {
        assert(s.take(s.len() as int) =~= s);
    }
}

/// The pieces of a split text, put together with the separator again.
pub open spec fn rejoined(v: Seq<Seq<char>>, sep: char) -> Seq<char>
    decreases v.len(),
{
    if v.len() == 0 {
        seq![]
    } else if v.len() == 1 {
        v[0]
    } else {
        v[0].push(sep) + rejoined(v.skip(1), sep)
    }
}

/// A split text's pieces have no separator in them, and put together again they are
/// the text.
pub proof fn a_split_text_joins_again(s: Seq<char>, sep: char)
    ensures
        split(s, sep).len() >= 1,
        rejoined(split(s, sep), sep) == s,
        forall|i: int| 0 <= i < split(s, sep).len() ==> !(#[trigger] split(s, sep)[i]).contains(sep),
    decreases s.len(),
{
    s.index_of_first_ensures(sep);
    match s.index_of_first(sep) {
        None => {
            assert(split(s, sep) == seq![s]);
        },
        Some(i) => {
            let rest = s.skip(i + 1);
            a_split_text_joins_again(rest, sep);
            let v = split(s, sep);
            assert(v.skip(1) =~= split(rest, sep));
            assert(v[0] == s.take(i));
            assert(s.take(i).push(sep) + rest =~= s);
            assert forall|k: int| 0 <= k < v.len() implies !(#[trigger] v[k]).contains(sep) by {
                if k > 0 {
                    assert(v[k] == split(rest, sep)[k - 1]);
                } else {
                    assert forall|j: int| 0 <= j < i implies s.take(i)[j] != sep by {
                        assert(s[j] != sep);
                    }
                }
            }
        },
    }
}

/// A text is read line by line: a line ends at a line feed, with or without a return
/// before it, and the rest of the text follows.
pub proof fn lines_end_at_line_feeds(line: Seq<char>, rest: Seq<char>)
    requires
        !line.contains('\n'),
    ensures
        lines(seq![]) == Seq::<Seq<char>>::empty(),
        line.len() > 0 ==> lines(line) == seq![line],
        (line.len() == 0 || line.last() != '\r') ==> lines(line.push('\n') + rest) == seq![line] + lines(
            rest,
        ),
        lines(line.push('\r').push('\n') + rest) == seq![line] + lines(rest),
{
    line.index_of_first_ensures('\n');
    let a = line.push('\n') + rest;
    let at = line.len() as int;
    a.index_of_first_ensures('\n');
    assert(a[at] == '\n');
    assert(a.contains('\n'));
    let i = a.index_of_first('\n')->0;
    if i < at {
        assert(line[i] == '\n');
    }
    assert(i == at);
    assert(a.take(at) =~= line);
    assert(a.skip(at + 1) =~= rest);
    let b = line.push('\r').push('\n') + rest;
    b.index_of_first_ensures('\n');
    assert(b[at + 1] == '\n');
    assert(b.contains('\n'));
    let j = b.index_of_first('\n')->0;
    if j < at {
        assert(line[j] == '\n');
    }
    assert(j == at + 1);
    assert(b.take(at + 1) =~= line.push('\r'));
    assert(line.push('\r').drop_last() =~= line);
    assert(b.skip(at + 2) =~= rest);
}

/// Lower case changes the 26 capitals and nothing else, and texts that differ in case
/// alone are alike.
pub proof fn only_capitals_are_lowered(c: char, s: Seq<char>)
    ensures
        ('A' <= c <= 'Z') ==> ascii_lower(c) as u32 == c as u32 + 32,
        !('A' <= c <= 'Z') ==> ascii_lower(c) == c,
        ('a' <= c <= 'z') ==> ascii_upper(c) as u32 == c as u32 - 32,
        !('a' <= c <= 'z') ==> ascii_upper(c) == c,
        ascii_lower(ascii_upper(c)) == ascii_lower(c),
        lowered(s).len() == s.len() && raised(s).len() == s.len(),
        alike(s, lowered(s)) && alike(s, raised(s)) && alike(s, s),
{
    assert forall|i: int| 0 <= i < s.len() implies lowered(raised(s))[i] == lowered(s)[i] && lowered(
        lowered(s),
    )[i] == lowered(s)[i] by {
    }
    assert(lowered(raised(s)) =~= lowered(s));
    assert(lowered(lowered(s)) =~= lowered(s));
}

/// Texts are alike only where they have the same characters but for case.
pub proof fn alike_texts_have_the_same_characters(a: Seq<char>, b: Seq<char>, i: int)
    requires
        alike(a, b),
        0 <= i < a.len(),
    ensures
        a.len() == b.len(),
        ascii_lower(a[i]) == ascii_lower(b[i]),
        alike(b, a),
{
    assert(lowered(a).len() == lowered(b).len());
    assert(lowered(a)[i] == lowered(b)[i]);
}

/// Spaces, tabs, line ends and the other blank characters are white space; letters,
/// digits and signs are not.
pub proof fn blanks_are_white_space(c: char)
    ensures
        white(' ') && white('\t') && white('\n') && white('\r'),
        white('\u{85}') && white('\u{A0}') && white('\u{1680}') && white('\u{2003}') && white('\u{2028}')
            && white('\u{2029}') && white('\u{202F}') && white('\u{205F}') && white('\u{3000}'),
        (0x21 <= c as u32 <= 0x7E) ==> !white(c),
        (c as u32) < 9 ==> !white(c),
{
}

/// A text is cut at the first separator: what stands before it has none.
pub proof fn a_text_is_cut_at_the_first_separator(a: Seq<char>, sep: char, b: Seq<char>)
    requires
        !a.contains(sep),
    ensures
        cut(a.push(sep) + b, sep) == Some((a, b)),
        cut(a, sep) is None,
        begins(a + b, a),
        occurs(a.push(sep) + b, b),
{
    let s = a.push(sep) + b;
    let at = a.len() as int;
    s.index_of_first_ensures(sep);
    a.index_of_first_ensures(sep);
    assert(s[at] == sep);
    assert(s.contains(sep));
    let i = s.index_of_first(sep)->0;
    if i < at {
        assert(a[i] == sep);
    }
    assert(s.take(at) =~= a);
    assert(s.skip(at + 1) =~= b);
    assert((a + b).take(at) =~= a);
    assert(s.subrange(at + 1, at + 1 + b.len()) =~= b);
    assert(occurs_at(s, b, at + 1));
}

} // verus!
