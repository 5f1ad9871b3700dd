//! Paths as Windows reads them: both slashes separate, and a path may start with a
//! drive or with a network share. A device at its start is read like a share.

use vstd::prelude::*;
use vstd::string::*;
use crate::text::{
    ascii_lower, char_views, chars_of, join2, lower_char, same_chars, slice_of, string_of,
};
use crate::util::opt_view;

verus! {

pub open spec fn separates(c: char) -> bool {
    c == '\\' || c == '/'
}

/// How many characters a drive takes at the start of a path.
pub open spec fn drive_len(p: Seq<char>) -> int {
    if p.len() >= 2 && p[1] == ':' && ('a' <= p[0] <= 'z' || 'A' <= p[0] <= 'Z') {
        2
    } else {
        0
    }
}

/// The first separator from `i` on, or the path's end.
pub open spec fn next_separator(p: Seq<char>, i: int) -> int
    decreases p.len() - i,
{
    if i >= p.len() {
        p.len() as int
    } else if separates(p[i]) {
        i
    } else {
        next_separator(p, i + 1)
    }
}

/// Where the server's name ends in a path that starts with two separators.
pub open spec fn server_end(p: Seq<char>) -> int {
    next_separator(p, 2)
}

/// How many characters a share takes at the start of a path: two separators, the
/// server, a separator, and the share's name.
pub open spec fn share_len(p: Seq<char>) -> int {
    let server = server_end(p);
    let share = next_separator(p, server + 1);
    if p.len() >= 2 && separates(p[0]) && separates(p[1]) && 2 < server && server + 1 < share {
        share
    } else {
        0
    }
}

/// How many characters a drive or a share takes at the start of a path.
pub open spec fn prefix_len(p: Seq<char>) -> int {
    if share_len(p) > 0 {
        share_len(p)
    } else {
        drive_len(p)
    }
}

/// A separator stands behind the drive or the share.
pub open spec fn slashed(p: Seq<char>) -> bool {
    prefix_len(p) < p.len() && separates(p[prefix_len(p)])
}

/// The path starts at a root. A share always does.
pub open spec fn rooted(p: Seq<char>) -> bool {
    share_len(p) > 0 || slashed(p)
}

/// How many characters come before the first folder: a drive or a share, and a
/// separator.
pub open spec fn root_len(p: Seq<char>) -> int {
    if slashed(p) {
        prefix_len(p) + 1
    } else {
        prefix_len(p)
    }
}

/// The last character of a path adds nothing to it: it is a separator, or a dot that
/// stands for the folder it is in.
pub open spec fn idle_end(p: Seq<char>) -> bool {
    p.len() > root_len(p) && (separates(p.last()) || (p.last() == '.' && p.len() >= 2 && separates(
        p[p.len() - 2],
    )))
}

/// A path without what adds nothing at its end.
pub open spec fn trimmed_path(p: Seq<char>) -> Seq<char>
    decreases p.len(),
{
    if idle_end(p) {
        trimmed_path(p.drop_last())
    } else {
        p
    }
}

/// Where the last name of a trimmed path starts.
pub open spec fn name_start(p: Seq<char>) -> int
    decreases p.len(),
{
    if p.len() <= root_len(p) || separates(p.last()) {
        p.len() as int
    } else {
        name_start(p.drop_last())
    }
}

/// The folder that a path lies in; a drive, a share, a root and an empty path lie in
/// none.
pub open spec fn parent_of(p: Seq<char>) -> Option<Seq<char>> {
    let t = trimmed_path(p);
    if t.len() <= root_len(t) {
        None
    } else {
        Some(trimmed_path(t.take(name_start(t))))
    }
}

/// The last name of a path, unless it stands for another folder.
pub open spec fn last_name(p: Seq<char>) -> Option<Seq<char>> {
    let t = trimmed_path(p);
    let name = t.skip(name_start(t));
    if t.len() <= root_len(t) || name == seq!['.'] || name == seq!['.', '.'] {
        None
    } else {
        Some(name)
    }
}

/// A path below another: a separator comes between them, unless there is one already,
/// or nothing, or a drive alone.
pub open spec fn joined(base: Seq<char>, below: Seq<char>) -> Seq<char> {
    if base.len() == 0 || separates(base.last()) || base.len() == drive_len(base) {
        base + below
    } else {
        base + "\\"@ + below
    }
}

/// A name that counts: an empty one and a dot do not.
pub open spec fn counted(name: Seq<char>) -> Seq<Seq<char>> {
    if name.len() == 0 || name == seq!['.'] {
        seq![]
    } else {
        seq![name]
    }
}

/// The names of a path from `i` on, the first of which has started with `name`.
pub open spec fn names_from(p: Seq<char>, i: int, name: Seq<char>) -> Seq<Seq<char>>
    decreases p.len() - i,
{
    if i >= p.len() {
        counted(name)
    } else if separates(p[i]) {
        counted(name) + names_from(p, i + 1, seq![])
    } else {
        names_from(p, i + 1, name.push(p[i]))
    }
}

pub open spec fn names_in(p: Seq<char>) -> Seq<Seq<char>> {
    names_from(p, prefix_len(p), seq![])
}

/// The path starts with a dot for the folder that it counts from.
pub open spec fn from_here(p: Seq<char>) -> bool {
    let n = prefix_len(p);
    !rooted(p) && n < p.len() && p[n] == '.' && (n + 1 == p.len() || separates(p[n + 1]))
}

/// The drive's letter in lower case.
pub open spec fn drive_of(p: Seq<char>) -> Option<char> {
    if drive_len(p) > 0 {
        Some(ascii_lower(p[0]))
    } else {
        None
    }
}

/// The server's and the share's name.
pub open spec fn share_of(p: Seq<char>) -> Option<(Seq<char>, Seq<char>)> {
    let server = server_end(p);
    if share_len(p) > 0 {
        Some((p.subrange(2, server), p.subrange(server + 1, share_len(p))))
    } else {
        None
    }
}

/// Both paths have the same drive or share, root and names.
pub open spec fn same_path(a: Seq<char>, b: Seq<char>) -> bool {
    &&& drive_of(a) == drive_of(b)
    &&& share_of(a) == share_of(b)
    &&& rooted(a) == rooted(b)
    &&& from_here(a) == from_here(b)
    &&& names_in(a) == names_in(b)
}

// ---- Parts ----

fn is_separator(c: char) -> (r: bool)
    ensures
        r == separates(c),
{
    c == '\\' || c == '/'
}

fn drive_end(p: &Vec<char>) -> (r: usize)
    ensures
        r == drive_len(p@),
        r <= p.len(),
{
    if p.len() >= 2 && p[1] == ':' && ('a' <= p[0] && p[0] <= 'z' || 'A' <= p[0] && p[0] <= 'Z') {
        2
    } else {
        0
    }
}

proof fn lemma_next_separator(p: Seq<char>, i: int)
    requires
        0 <= i <= p.len(),
    ensures
        i <= next_separator(p, i) <= p.len(),
        next_separator(p, i) < p.len() ==> separates(p[next_separator(p, i)]),
    decreases p.len() - i,
{
    if i < p.len() && !separates(p[i]) {
        lemma_next_separator(p, i + 1);
    }
}

fn find_separator(p: &Vec<char>, from: usize) -> (r: usize)
    requires
        from <= p.len(),
    ensures
        r == next_separator(p@, from as int),
        from <= r <= p.len(),
        r < p.len() ==> separates(p@[r as int]),
{
    let mut i: usize = from;
    while i < p.len() && !is_separator(p[i])
        invariant
            from <= i <= p.len(),
            next_separator(p@, i as int) == next_separator(p@, from as int),
        decreases p.len() - i,
    {
        i = i + 1;
    }
    i
}

fn share_end(p: &Vec<char>) -> (r: usize)
    ensures
        r == share_len(p@),
        r <= p.len(),
        r > 0 ==> 2 < server_end(p@) && server_end(p@) + 1 < r,
{
    if p.len() < 2 || !is_separator(p[0]) || !is_separator(p[1]) {
        return 0;
    }
    let server: usize = find_separator(p, 2);
    if server <= 2 || server >= p.len() {
        assert(next_separator(p@, p.len() + 1) == p.len());
        return 0;
    }
    let share: usize = find_separator(p, server + 1);
    if share > server + 1 {
        share
    } else {
        0
    }
}

fn prefix_end(p: &Vec<char>) -> (r: usize)
    ensures
        r == prefix_len(p@),
        r <= p.len(),
{
    let share: usize = share_end(p);
    if share > 0 {
        share
    } else {
        drive_end(p)
    }
}

fn root_end(p: &Vec<char>) -> (r: usize)
    ensures
        r == root_len(p@),
        r <= p.len(),
{
    let d: usize = prefix_end(p);
    if d < p.len() && is_separator(p[d]) {
        d + 1
    } else {
        d
    }
}

/// A cut behind the next separator, or at it, leaves it the next; one before it
/// makes the end the next.
proof fn lemma_next_in_front(p: Seq<char>, n: int, i: int)
    requires
        0 <= i <= n <= p.len(),
    ensures
        next_separator(p.take(n), i) == if next_separator(p, i) <= n {
            next_separator(p, i)
        } else {
            n
        },
    decreases n - i,
{
    lemma_next_separator(p, i);
    if i < n {
        assert(p.take(n)[i] == p[i]);
        if !separates(p[i]) {
            lemma_next_in_front(p, n, i + 1);
        }
    }
}

/// A path cut behind its root keeps it.
proof fn lemma_root_stays(p: Seq<char>, n: int)
    requires
        root_len(p) <= n <= p.len(),
    ensures
        root_len(p.take(n)) == root_len(p),
{
    let t = p.take(n);
    if n >= 2 {
        lemma_next_separator(p, 2);
        lemma_next_in_front(p, n, 2);
        let server = server_end(p);
        if server < n {
            lemma_next_separator(p, server + 1);
            lemma_next_in_front(p, n, server + 1);
        }
        assert(t[0] == p[0] && t[1] == p[1]);
    }
    assert(share_len(t) == share_len(p));
    assert(prefix_len(t) == prefix_len(p));
}

/// The length of a path without what adds nothing at its end.
fn trim_end(p: &Vec<char>, len: usize) -> (r: usize)
    requires
        root_len(p@) <= len <= p.len(),
    ensures
        root_len(p@) <= r <= len,
        p@.take(r as int) == trimmed_path(p@.take(len as int)),
{
    let root: usize = root_end(p);
    let mut n: usize = len;
    while n > root && (is_separator(p[n - 1]) || (p[n - 1] == '.' && n >= 2 && is_separator(
        p[n - 2],
    )))
        invariant
            root == root_len(p@),
            root <= n <= len <= p.len(),
            trimmed_path(p@.take(n as int)) == trimmed_path(p@.take(len as int)),
        decreases n,
    {
        let ghost t = p@.take(n as int);
        proof {
            lemma_root_stays(p@, n as int);
            assert(t.last() == p@[n - 1]);
            assert(n >= 2 ==> t[n - 2] == p@[n - 2]);
            assert(idle_end(t));
            assert(t.drop_last() =~= p@.take(n - 1));
        }
        n = n - 1;
    }
    proof {
        let t = p@.take(n as int);
        lemma_root_stays(p@, n as int);
        if n > root {
            assert(t.last() == p@[n - 1]);
            assert(n >= 2 ==> t[n - 2] == p@[n - 2]);
        }
        assert(!idle_end(t));
    }
    n
}

fn find_name(p: &Vec<char>, len: usize) -> (r: usize)
    requires
        root_len(p@) <= len <= p.len(),
    ensures
        root_len(p@) <= r <= len,
        r == name_start(p@.take(len as int)),
{
    let root: usize = root_end(p);
    let mut n: usize = len;
    while n > root && !is_separator(p[n - 1])
        invariant
            root == root_len(p@),
            root <= n <= len <= p.len(),
            name_start(p@.take(n as int)) == name_start(p@.take(len as int)),
        decreases n,
    {
        let ghost t = p@.take(n as int);
        proof {
            lemma_root_stays(p@, n as int);
            assert(t.last() == p@[n - 1]);
            assert(t.drop_last() =~= p@.take(n - 1));
        }
        n = n - 1;
    }
    proof {
        let t = p@.take(n as int);
        lemma_root_stays(p@, n as int);
        if n > root {
            assert(t.last() == p@[n - 1]);
        }
    }
    n
}

// ---- Paths ----

/// The folder that a path lies in.
pub fn parent(path: &str) -> (r: Option<String>)
    ensures
        opt_view(r) == parent_of(path@),
{
    let p = chars_of(path);
    let root: usize = root_end(&p);
    let end: usize = trim_end(&p, p.len());
    let ghost t = p@.take(end as int);
    proof {
        assert(p@.take(p.len() as int) =~= p@);
        lemma_root_stays(p@, end as int);
    }
    if end <= root {
        return None;
    }
    let start: usize = find_name(&p, end);
    let dir: usize = trim_end(&p, start);
    assert(t.take(start as int) =~= p@.take(start as int));
    let text = slice_of(&p, 0, dir);
    assert(text@ =~= p@.take(dir as int));
    Some(string_of(&text))
}

/// The last name of a path.
pub fn base_name(path: &str) -> (r: Option<String>)
    ensures
        opt_view(r) == last_name(path@),
{
    let p = chars_of(path);
    let root: usize = root_end(&p);
    let end: usize = trim_end(&p, p.len());
    let ghost t = p@.take(end as int);
    proof {
        assert(p@.take(p.len() as int) =~= p@);
        lemma_root_stays(p@, end as int);
    }
    if end <= root {
        return None;
    }
    let start: usize = find_name(&p, end);
    let name = slice_of(&p, start, end);
    assert(name@ =~= t.skip(start as int));
    if name.len() == 1 && name[0] == '.' {
        assert(name@ =~= seq!['.']);
        return None;
    }
    if name.len() == 2 && name[0] == '.' && name[1] == '.' {
        assert(name@ =~= seq!['.', '.']);
        return None;
    }
    assert(name@ != seq!['.'] && name@ != seq!['.', '.']);
    Some(string_of(&name))
}

/// A path below another, which does not start with a separator or a drive.
pub fn join(base: &str, below: &str) -> (r: String)
    ensures
        r@ == joined(base@, below@),
{
    let b = chars_of(base);
    let n: usize = b.len();
    if n == 0 || is_separator(b[n - 1]) || n == drive_end(&b) {
        join2(base, below)
    } else {
        let mut s = join2(base, "\\");
        s.append(below);
        s
    }
}

fn count_name(out: &mut Vec<Vec<char>>, name: Vec<char>)
    ensures
        char_views(final(out)@) == char_views(old(out)@) + counted(name@),
{
    if name.len() == 0 || (name.len() == 1 && name[0] == '.') {
        assert(name.len() == 1 ==> name@ =~= seq!['.']);
        assert(char_views(out@) =~= char_views(out@) + counted(name@));
    } else {
        assert(name@ != seq!['.']);
        let ghost before = char_views(out@);
        out.push(name);
        assert(char_views(out@) =~= before + counted(name@));
    }
}

fn split_names(p: &Vec<char>) -> (r: Vec<Vec<char>>)
    ensures
        char_views(r@) == names_in(p@),
{
    let mut out: Vec<Vec<char>> = Vec::new();
    let mut name: Vec<char> = Vec::new();
    let mut i: usize = prefix_end(p);
    assert(name@ =~= seq![]);
    assert(char_views(out@) + names_from(p@, i as int, name@) =~= names_in(p@));
    while i < p.len()
        invariant
            i <= p.len(),
            char_views(out@) + names_from(p@, i as int, name@) == names_in(p@),
        decreases p.len() - i,
    {
        let ghost before = char_views(out@);
        if is_separator(p[i]) {
            let ghost done = name@;
            count_name(&mut out, name);
            name = Vec::new();
            assert(name@ =~= seq![]);
            assert(char_views(out@) + names_from(p@, i + 1, name@) =~= before + (counted(done)
                + names_from(p@, i + 1, seq![])));
        } else {
            name.push(p[i]);
        }
        i = i + 1;
    }
    count_name(&mut out, name);
    out
}

fn same_names(a: &Vec<Vec<char>>, b: &Vec<Vec<char>>) -> (r: bool)
    ensures
        r == (char_views(a@) == char_views(b@)),
{
    if a.len() != b.len() {
        assert(char_views(a@).len() != char_views(b@).len());
        return false;
    }
    let mut i: usize = 0;
    while i < a.len()
        invariant
            i <= a.len() == b.len(),
            forall|k: int| 0 <= k < i ==> (#[trigger] a@[k])@ == b@[k]@,
        decreases a.len() - i,
    {
        if !same_chars(&a[i], &b[i]) {
            assert(char_views(a@)[i as int] != char_views(b@)[i as int]);
            return false;
        }
        i = i + 1;
    }
    assert(char_views(a@) =~= char_views(b@));
    true
}

fn starts_here(p: &Vec<char>) -> (r: bool)
    ensures
        r == from_here(p@),
{
    let n: usize = prefix_end(p);
    let is_rooted = share_end(p) > 0 || root_end(p) > n;
    !is_rooted && n < p.len() && p[n] == '.' && (n + 1 == p.len() || is_separator(p[n + 1]))
}

fn same_share(a: &Vec<char>, b: &Vec<char>) -> (r: bool)
    ensures
        r == (share_of(a@) == share_of(b@)),
{
    let sa: usize = share_end(a);
    let sb: usize = share_end(b);
    if sa == 0 || sb == 0 {
        return sa == sb;
    }
    let ea: usize = find_separator(a, 2);
    let eb: usize = find_separator(b, 2);
    let server_a = slice_of(a, 2, ea);
    let server_b = slice_of(b, 2, eb);
    let share_a = slice_of(a, ea + 1, sa);
    let share_b = slice_of(b, eb + 1, sb);
    same_chars(&server_a, &server_b) && same_chars(&share_a, &share_b)
}

/// Whether two paths lead the same way, name by name.
pub fn same(a: &str, b: &str) -> (r: bool)
    ensures
        r == same_path(a@, b@),
{
    let a = chars_of(a);
    let b = chars_of(b);
    let da: usize = drive_end(&a);
    let db: usize = drive_end(&b);
    let same_drive = if da > 0 && db > 0 {
        lower_char(a[0]) == lower_char(b[0])
    } else {
        da == db
    };
    let root_a = share_end(&a) > 0 || root_end(&a) > prefix_end(&a);
    let root_b = share_end(&b) > 0 || root_end(&b) > prefix_end(&b);
    same_drive && same_share(&a, &b) && root_a == root_b && starts_here(&a) == starts_here(&b)
        && same_names(&split_names(&a), &split_names(&b))
}

// ---- Laws ----

/// A name put below a folder is the last name of the path that comes of it, unless
/// the folder is a server's, where the name completes a share.
pub proof fn a_joined_name_is_the_last(base: Seq<char>, name: Seq<char>)
    requires
        name.len() > 0,
        drive_len(name) == 0,
        forall|i: int| 0 <= i < name.len() ==> !separates(#[trigger] name[i]),
        name != seq!['.'] && name != seq!['.', '.'],
        share_len(joined(base, name)) <= base.len(),
    ensures
        last_name(joined(base, name)) == Some(name),
{
    reveal_strlit("\\");
    let p = joined(base, name);
    let n = p.len() - name.len();
    assert(forall|i: int| 0 <= i < name.len() ==> p[n + i] == #[trigger] name[i]);
    assert(forall|i: int| 0 <= i < base.len() ==> p[i] == #[trigger] base[i]);
    if base.len() == 0 {
        assert(p =~= name);
        assert(!separates(name[0]));
    } else if base.len() == drive_len(base) {
        assert(p[2] == name[0]);
        assert(!separates(name[0]));
    } else {
        assert(separates(p[n - 1]));
        assert(p[0] == base[0]);
        if n >= 2 && base.len() >= 2 {
            assert(p[1] == base[1]);
        }
    }
    assert(!separates(p[n])) by {
        assert(p[n] == name[0]);
    }
    assert(root_len(p) <= n);
    assert(!idle_end(p)) by {
        assert(p.last() == name.last());
        assert(!separates(name[name.len() - 1]));
        if p.last() == '.' && p.len() >= 2 && separates(p[p.len() - 2]) {
            if name.len() == 1 {
                assert(name =~= seq!['.']);
            } else {
                assert(p[p.len() - 2] == name[name.len() - 2]);
            }
        }
    }
    assert forall|i: int| n <= i < p.len() implies !separates(#[trigger] p[i]) by {
        assert(!separates(name[i - n]));
    }
    lemma_name_start(p, n, p.len() as int);
    assert(p.take(p.len() as int) =~= p);
    assert(p.skip(n) =~= name);
}

proof fn lemma_name_start(p: Seq<char>, n: int, k: int)
    requires
        root_len(p) <= n <= k <= p.len(),
        n == root_len(p) || separates(p[n - 1]),
        forall|i: int| n <= i < k ==> !separates(#[trigger] p[i]),
    ensures
        name_start(p.take(k)) == n,
    decreases k,
{
    let t = p.take(k);
    lemma_root_stays(p, k);
    if k > n {
        assert(t.last() == p[k - 1]);
        assert(t.drop_last() =~= p.take(k - 1));
        lemma_name_start(p, n, k - 1);
    } else if n > root_len(p) {
        assert(t.last() == p[n - 1]);
    }
}

/// The folder that a joined path lies in is the one it was joined to.
pub proof fn a_joined_name_lies_in_its_folder(base: Seq<char>, name: Seq<char>)
    requires
        base.len() > root_len(base),
        !idle_end(base),
        name.len() > 0,
        drive_len(name) == 0,
        forall|i: int| 0 <= i < name.len() ==> !separates(#[trigger] name[i]),
        name != seq!['.'] && name != seq!['.', '.'],
        share_len(joined(base, name)) <= base.len(),
        share_len(base.push('\\')) == share_len(base),
    ensures
        parent_of(joined(base, name)) == Some(base),
{
    reveal_strlit("\\");
    let p = joined(base, name);
    assert(!separates(base.last()));
    assert(base.len() != drive_len(base));
    let n: int = base.len() + 1int;
    assert(p =~= base.push('\\') + name);
    assert(forall|i: int| 0 <= i < name.len() ==> p[n + i] == #[trigger] name[i]);
    assert(forall|i: int| 0 <= i < base.len() ==> p[i] == #[trigger] base[i]);
    assert(separates(p[n - 1]));
    assert(!separates(p[n])) by {
        assert(p[n] == name[0]);
    }
    assert(p[0] == base[0]);
    if base.len() >= 2 {
        assert(p[1] == base[1]);
    }
    assert(root_len(p) <= n);
    assert(!idle_end(p)) by {
        assert(p.last() == name.last());
        assert(!separates(name[name.len() - 1]));
        if p.last() == '.' && p.len() >= 2 && separates(p[p.len() - 2]) {
            if name.len() == 1 {
                assert(name =~= seq!['.']);
            } else {
                assert(p[p.len() - 2] == name[name.len() - 2]);
            }
        }
    }
    assert forall|i: int| n <= i < p.len() implies !separates(#[trigger] p[i]) by {
        assert(!separates(name[i - n]));
    }
    lemma_name_start(p, n, p.len() as int);
    assert(p.take(p.len() as int) =~= p);
    let dir = p.take(n);
    assert(dir =~= base.push('\\'));
    assert(dir.drop_last() =~= base);
    assert(dir[0] == base[0]);
    if base.len() >= 2 {
        assert(dir[1] == base[1]);
    }
    assert(prefix_len(dir) == prefix_len(base));
    assert(idle_end(dir));
    assert(trimmed_path(base) == base);
    assert(trimmed_path(dir) == trimmed_path(dir.drop_last()));
    assert(trimmed_path(p) == p);
    assert(name_start(p) == n);
}

/// Every path is the same as itself; a letter's case matters in a name but not in a
/// drive.
pub proof fn paths_are_the_same_name_by_name(a: Seq<char>, b: Seq<char>)
    ensures
        same_path(a, a),
        same_path(a, b) == same_path(b, a),
        (same_path(a, b) && prefix_len(a) == 0) ==> names_from(a, 0, seq![]) == names_in(b),
{
}

/// A drive is the same in both cases of its letter, and both slashes separate names.
pub proof fn drives_and_slashes_are_read_either_way(d: char, name: Seq<char>)
    requires
        'a' <= d <= 'z',
        name.len() > 0,
        name != seq!['.'],
        forall|i: int| 0 <= i < name.len() ==> !separates(#[trigger] name[i]),
    ensures
        ({
            let up = crate::text::ascii_upper(d);
            let a = seq![d, ':', '\\'] + name;
            let b = seq![up, ':', '/'] + name;
            same_path(a, b) && names_in(a) == seq![name]
        }),
        ({
            let p = seq!['\\'] + name;
            names_in(p) == seq![name] && rooted(p) && !rooted(name)
        }),
{
    let up = crate::text::ascii_upper(d);
    let a = seq![d, ':', '\\'] + name;
    let b = seq![up, ':', '/'] + name;
    assert(a[0] == d && a[1] == ':' && a[2] == '\\');
    assert(b[0] == up && b[1] == ':' && b[2] == '/');
    assert('A' <= up <= 'Z');
    assert(ascii_lower(up) == d);
    assert(a.skip(3) =~= name && b.skip(3) =~= name);
    lemma_one_name(a, 3, seq![], name);
    lemma_one_name(b, 3, seq![], name);
    assert(names_from(a, 2, seq![]) =~= counted(seq![]) + names_from(a, 3, seq![]));
    assert(names_from(b, 2, seq![]) =~= counted(seq![]) + names_from(b, 3, seq![]));
    assert(counted(seq![]) + seq![name] =~= seq![name]);
    let p = seq!['\\'] + name;
    assert(p[0] == '\\' && p[1] == name[0]);
    assert(p.skip(1) =~= name);
    assert(!separates(name[0]));
    lemma_one_name(p, 1, seq![], name);
    assert(drive_len(p) == 0);
    assert(share_len(p) == 0);
    assert(names_from(p, 0, seq![]) =~= counted(seq![]) + names_from(p, 1, seq![]));
    if name.len() > 1 {
        assert(!separates(name[1]));
    }
    assert(share_len(name) == 0);
    if drive_len(name) < name.len() {
        assert(!separates(name[drive_len(name)]));
    }
}

proof fn lemma_one_name(p: Seq<char>, i: int, front: Seq<char>, rest: Seq<char>)
    requires
        0 <= i <= p.len(),
        p.skip(i) == rest,
        forall|k: int| 0 <= k < rest.len() ==> !separates(#[trigger] rest[k]),
    ensures
        names_from(p, i, front) == counted(front + rest),
    decreases rest.len(),
{
    if rest.len() == 0 {
        assert(front + rest =~= front);
    } else {
        assert(p[i] == rest[0]);
        let t = rest.skip(1);
        assert(p.skip(i + 1) =~= t);
        assert forall|k: int| 0 <= k < t.len() implies !separates(#[trigger] t[k]) by {
            assert(t[k] == rest[k + 1]);
        }
        lemma_one_name(p, i + 1, front.push(p[i]), t);
        assert(front.push(p[i]) + t =~= front + rest);
    }
}

} // verus!
