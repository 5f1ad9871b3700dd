//! The list of programs: folders, searches, pins, and their order.

use vstd::prelude::*;
use vstd::string::*;
use crate::text::{
    alike, chars_of, contains_str, eq_ignore_case, is_not_after, lemma_order_total,
    lemma_order_transitive, lowercase, lowered, not_after, occurs, occurs_at, rfind_char, same_chars, slice_of,
    string_of, to_ascii_lower, to_lowercase,
};

verus! {

/// A file or directory, in the order its directory lists it.
pub struct DirEntry {
    pub path: String,
    /// The last part of the path, where it is Unicode.
    pub name: Option<String>,
    pub is_dir: bool,
    /// What a directory holds; nothing where it cannot be read.
    pub children: Vec<DirEntry>,
}

/// What activating a row does.
pub enum ItemKind {
    Back,
    Folder(String),
    Launch(String),
}

pub enum KindView {
    Back,
    Folder(Seq<char>),
    Launch(Seq<char>),
}

impl View for ItemKind {
    type V = KindView;

    open spec fn view(&self) -> KindView {
        match *self {
            ItemKind::Back => KindView::Back,
            ItemKind::Folder(p) => KindView::Folder(p@),
            ItemKind::Launch(p) => KindView::Launch(p@),
        }
    }
}

/// A row of the left pane.
pub struct Item {
    pub kind: ItemKind,
    pub name: String,
    pub icon: Option<u64>,
}

pub struct ItemView {
    pub kind: KindView,
    pub name: Seq<char>,
    pub icon: Option<u64>,
}

impl View for Item {
    type V = ItemView;

    open spec fn view(&self) -> ItemView {
        ItemView { kind: self.kind@, name: self.name@, icon: self.icon }
    }
}

pub open spec fn item_views(v: Seq<Item>) -> Seq<ItemView> {
    Seq::new(v.len(), |i: int| v[i]@)
}

pub open spec fn folder(path: Seq<char>, name: Seq<char>) -> ItemView {
    ItemView { kind: KindView::Folder(path), name, icon: None }
}

pub open spec fn launcher(path: Seq<char>, name: Seq<char>) -> ItemView {
    ItemView { kind: KindView::Launch(path), name, icon: None }
}

pub open spec fn back_row() -> ItemView {
    ItemView { kind: KindView::Back, name: "‹ Back"@, icon: None }
}

// ---- File names ----

/// Where a file name's extension starts: at its last dot, unless that is its first
/// character.
pub open spec fn dot_of(name: Seq<char>) -> Option<int> {
    match name.index_of_last('.') {
        Some(i) if i > 0 && name != ".."@ => Some(i),
        _ => None,
    }
}

/// A file name without its extension.
pub open spec fn stem_of(name: Seq<char>) -> Seq<char> {
    match dot_of(name) {
        Some(i) => name.take(i),
        None => name,
    }
}

/// A file name's extension, without the dot.
pub open spec fn extension_of(name: Seq<char>) -> Option<Seq<char>> {
    match dot_of(name) {
        Some(i) => Some(name.skip(i + 1)),
        None => None,
    }
}

fn find_dot(name: &[char]) -> (r: Option<usize>)
    ensures
        match r {
            Some(i) => i < name.len() && dot_of(name@) == Some(i as int),
            None => dot_of(name@) is None,
        },
{
    let up = chars_of("..");
    if same_chars(name, &up) {
        return None;
    }
    match rfind_char(name, '.') {
        Some(i) => if i > 0 {
            Some(i)
        } else {
            None
        },
        None => None,
    }
}

fn stem_chars(name: &[char]) -> (r: Vec<char>)
    ensures
        r@ == stem_of(name@),
{
    match find_dot(name) {
        Some(i) => {
            let v = slice_of(name, 0, i);
            assert(v@ =~= name@.take(i as int));
            v
        },
        None => {
            let v = slice_of(name, 0, name.len());
            assert(v@ =~= name@);
            v
        },
    }
}

/// The extensions of files that can be launched.
pub open spec fn launch_extension(e: Seq<char>) -> bool {
    ||| e == "lnk"@
    ||| e == "exe"@
    ||| e == "bat"@
    ||| e == "cmd"@
    ||| e == "url"@
}

/// A file name that can be launched, whatever the case of its extension.
pub open spec fn launchable(name: Seq<char>) -> bool {
    extension_of(name) matches Some(e) && launch_extension(lowered(e))
}

pub fn is_launchable(name: &[char]) -> (r: bool)
    ensures
        r == launchable(name@),
{
    match find_dot(name) {
        Some(i) => {
            let e = slice_of(name, i + 1, name.len());
            assert(e@ =~= name@.skip(i + 1));
            let e = to_ascii_lower(&e);
            same_chars(&e, &chars_of("lnk")) || same_chars(&e, &chars_of("exe")) || same_chars(
                &e,
                &chars_of("bat"),
            ) || same_chars(&e, &chars_of("cmd")) || same_chars(&e, &chars_of("url"))
        },
        None => false,
    }
}

/// The name a file is shown by, unless it is a directory's own `desktop` file.
pub open spec fn shown_program(name: Seq<char>) -> bool {
    launchable(name) && !alike(stem_of(name), "desktop"@)
}

// ---- Folders ----

/// A folder of this name is among the items, whatever the case.
pub open spec fn has_folder(items: Seq<ItemView>, name: Seq<char>) -> bool {
    exists|i: int|
        0 <= i < items.len() && (#[trigger] items[i]).kind is Folder && alike(items[i].name, name)
}

/// The items with a directory entry added: a folder unless one of its name is
/// there already (the common and the user's start menu are merged), or a program.
pub open spec fn collected(items: Seq<ItemView>, e: DirEntry) -> Seq<ItemView> {
    match e.name {
        None => items,
        Some(name) => if e.is_dir {
            if has_folder(items, stem_of(name@)) {
                items
            } else {
                items.push(folder(e.path@, stem_of(name@)))
            }
        } else if shown_program(name@) {
            items.push(launcher(e.path@, stem_of(name@)))
        } else {
            items
        },
    }
}

/// The items with the first `n` entries of a directory added.
pub open spec fn collected_dir(items: Seq<ItemView>, dir: Seq<DirEntry>, n: int) -> Seq<ItemView>
    decreases n,
{
    if n <= 0 {
        items
    } else {
        collected(collected_dir(items, dir, n - 1), dir[n - 1])
    }
}

fn find_folder(items: &Vec<Item>, name: &[char]) -> (r: bool)
    ensures
        r == has_folder(item_views(items@), name@),
{
    let ghost v = item_views(items@);
    let mut i: usize = 0;
    while i < items.len()
        invariant
            i <= items.len(),
            v == item_views(items@),
            forall|k: int|
                0 <= k < i ==> !((#[trigger] v[k]).kind is Folder && alike(v[k].name, name@)),
        decreases items.len() - i,
    {
        let is_folder = match &items[i].kind {
            ItemKind::Folder(_) => true,
            _ => false,
        };
        assert(v[i as int] == items@[i as int]@);
        if is_folder {
            let other = chars_of(items[i].name.as_str());
            if eq_ignore_case(&other, name) {
                return true;
            }
        }
        i = i + 1;
    }
    false
}

/// Add what a directory holds.
pub fn collect_dir(dir: &Vec<DirEntry>, items: &mut Vec<Item>)
    ensures
        item_views(final(items)@) == collected_dir(
            item_views(old(items)@),
            dir@,
            dir@.len() as int,
        ),
        final(items)@.len() <= old(items)@.len() + dir@.len(),
{
    let ghost before = item_views(items@);
    let mut i: usize = 0;
    while i < dir.len()
        invariant
            i <= dir.len(),
            item_views(items@) == collected_dir(before, dir@, i as int),
            items@.len() <= old(items)@.len() + i,
        decreases dir.len() - i,
    {
        let e = &dir[i];
        let ghost so_far = item_views(items@);
        match &e.name {
            None => {},
            Some(name) => {
                let name = chars_of(name.as_str());
                let stem = stem_chars(&name);
                if e.is_dir {
                    if !find_folder(items, &stem) {
                        items.push(
                            Item {
                                kind: ItemKind::Folder(e.path.clone()),
                                name: string_of(&stem),
                                icon: None,
                            },
                        );
                        assert(item_views(items@) =~= so_far.push(folder(e.path@, stem@)));
                    }
                } else if is_launchable(&name) && !eq_ignore_case(&stem, &chars_of("desktop")) {
                    items.push(
                        Item {
                            kind: ItemKind::Launch(e.path.clone()),
                            name: string_of(&stem),
                            icon: None,
                        },
                    );
                    assert(item_views(items@) =~= so_far.push(launcher(e.path@, stem@)));
                }
            },
        }
        i = i + 1;
    }
}

/// How many entries some directories hold together.
pub open spec fn total(dirs: Seq<Vec<DirEntry>>, n: int) -> nat
    decreases n,
{
    if n <= 0 {
        0
    } else {
        total(dirs, n - 1) + dirs[n - 1]@.len()
    }
}

/// The items with the first `n` directories added.
pub open spec fn collected_dirs(items: Seq<ItemView>, dirs: Seq<Vec<DirEntry>>, n: int) -> Seq<
    ItemView,
>
    decreases n,
{
    if n <= 0 {
        items
    } else {
        collected_dir(
            collected_dirs(items, dirs, n - 1),
            dirs[n - 1]@,
            dirs[n - 1]@.len() as int,
        )
    }
}

/// Add what several directories hold, in order.
pub fn collect_dirs(dirs: &Vec<Vec<DirEntry>>, items: &mut Vec<Item>)
    requires
        old(items)@.len() + total(dirs@, dirs@.len() as int) <= usize::MAX,
    ensures
        item_views(final(items)@) == collected_dirs(
            item_views(old(items)@),
            dirs@,
            dirs@.len() as int,
        ),
        final(items)@.len() <= old(items)@.len() + total(dirs@, dirs@.len() as int),
{
    let ghost before = item_views(items@);
    let mut i: usize = 0;
    while i < dirs.len()
        invariant
            i <= dirs.len(),
            item_views(items@) == collected_dirs(before, dirs@, i as int),
            items@.len() <= old(items)@.len() + total(dirs@, i as int),
        decreases dirs.len() - i,
    {
        collect_dir(&dirs[i], items);
        i = i + 1;
    }
}

// ---- Search ----

/// The most results a search gives.
pub const MAX_RESULTS: usize = 60;

/// How many levels of folders a search goes down.
pub const MAX_DEPTH: u32 = 4;

/// A file that a search for `query` (in lower case) finds.
pub open spec fn found(name: Seq<char>, query: Seq<char>) -> bool {
    shown_program(name) && occurs(lowercase(stem_of(name)), query)
}

/// The results so far, with the first `n` entries of a directory `depth` levels
/// below a root searched: directories with all they hold, until there are enough
/// results or they lie too deep.
pub open spec fn walked(
    dir: Vec<DirEntry>,
    n: int,
    query: Seq<char>,
    depth: int,
    results: Seq<ItemView>,
) -> Seq<ItemView>
    decreases dir, n,
{
    if n <= 0 || n > dir@.len() || depth > MAX_DEPTH {
        results
    } else {
        let before = walked(dir, n - 1, query, depth, results);
        let e = dir@[n - 1];
        if before.len() >= MAX_RESULTS {
            before
        } else if e.is_dir {
            walked(e.children, e.children@.len() as int, query, depth + 1, before)
        } else {
            match e.name {
                Some(name) if found(name@, query) => before.push(
                    launcher(e.path@, stem_of(name@)),
                ),
                _ => before,
            }
        }
    }
}

/// What a search adds never takes the results over their limit.
pub proof fn search_is_limited(
    dir: Vec<DirEntry>,
    n: int,
    query: Seq<char>,
    depth: int,
    results: Seq<ItemView>,
)
    requires
        results.len() <= MAX_RESULTS,
    ensures
        walked(dir, n, query, depth, results).len() <= MAX_RESULTS,
        walked(dir, n, query, depth, results).len() >= results.len(),
    decreases dir, n,
{
    if n <= 0 || n > dir@.len() || depth > MAX_DEPTH {
    } else {
        search_is_limited(dir, n - 1, query, depth, results);
        let before = walked(dir, n - 1, query, depth, results);
        let e = dir@[n - 1];
        if before.len() < MAX_RESULTS && e.is_dir {
            assert(decreases_to!(dir => dir@[n - 1]));
            search_is_limited(e.children, e.children@.len() as int, query, depth + 1, before);
        }
    }
}

/// Full results stay as they are.
proof fn lemma_walked_full(
    dir: Vec<DirEntry>,
    n: int,
    query: Seq<char>,
    depth: int,
    results: Seq<ItemView>,
)
    requires
        results.len() >= MAX_RESULTS,
    ensures
        walked(dir, n, query, depth, results) == results,
    decreases n,
{
    if n > 0 {
        lemma_walked_full(dir, n - 1, query, depth, results);
    }
}

/// Once there are enough results, the rest of a directory adds nothing.
proof fn lemma_walked_rest(
    dir: Vec<DirEntry>,
    n: int,
    m: int,
    query: Seq<char>,
    depth: int,
    results: Seq<ItemView>,
)
    requires
        0 <= n <= m <= dir@.len(),
        walked(dir, n, query, depth, results).len() >= MAX_RESULTS,
    ensures
        walked(dir, m, query, depth, results) == walked(dir, n, query, depth, results),
    decreases m,
{
    if n < m {
        lemma_walked_rest(dir, n, m - 1, query, depth, results);
    }
}

/// Search a directory that lies `depth` levels below a root for programs whose name
/// holds `query`, which is in lower case.
pub fn search_walk(dir: &Vec<DirEntry>, query: &Vec<char>, depth: u32, out: &mut Vec<Item>)
    ensures
        item_views(final(out)@) == walked(
            *dir,
            dir@.len() as int,
            query@,
            depth as int,
            item_views(old(out)@),
        ),
        old(out)@.len() <= MAX_RESULTS ==> final(out)@.len() <= MAX_RESULTS,
    decreases dir,
{
    let ghost before = item_views(out@);
    if depth > MAX_DEPTH {
        return;
    }
    if out.len() >= MAX_RESULTS {
        proof {
            lemma_walked_full(*dir, dir@.len() as int, query@, depth as int, before);
        }
        return;
    }
    let mut i: usize = 0;
    while i < dir.len()
        invariant
            i <= dir.len(),
            depth <= MAX_DEPTH,
            before == item_views(old(out)@),
            item_views(out@) == walked(*dir, i as int, query@, depth as int, before),
            out@.len() <= MAX_RESULTS,
        decreases dir.len() - i,
    {
        if out.len() >= MAX_RESULTS {
            proof {
                lemma_walked_rest(
                    *dir,
                    i as int,
                    dir@.len() as int,
                    query@,
                    depth as int,
                    before,
                );
            }
            return;
        }
        let e = &dir[i];
        let ghost so_far = item_views(out@);
        assert(decreases_to!(dir => dir@[i as int]));
        if e.is_dir {
            search_walk(&e.children, query, depth + 1, out);
        } else {
            match &e.name {
                Some(name) => {
                    let name = chars_of(name.as_str());
                    if is_launchable(&name) {
                        let stem = stem_chars(&name);
                        let low = chars_of(to_lowercase(string_of(&stem).as_str()).as_str());
                        if contains_str(&low, query) && !eq_ignore_case(
                            &stem,
                            &chars_of("desktop"),
                        ) {
                            out.push(
                                Item {
                                    kind: ItemKind::Launch(e.path.clone()),
                                    name: string_of(&stem),
                                    icon: None,
                                },
                            );
                            assert(item_views(out@) =~= so_far.push(launcher(e.path@, stem@)));
                        }
                    }
                },
                None => {},
            }
        }
        i = i + 1;
    }
}

/// The results of the first `n` roots.
pub open spec fn walked_roots(roots: Seq<Vec<DirEntry>>, n: int, query: Seq<char>) -> Seq<ItemView>
    decreases n,
{
    if n <= 0 {
        seq![]
    } else {
        walked(
            roots[n - 1],
            roots[n - 1]@.len() as int,
            query,
            0,
            walked_roots(roots, n - 1, query),
        )
    }
}

/// Search all roots for a query in lower case.
pub fn search_roots(roots: &Vec<Vec<DirEntry>>, query: &Vec<char>) -> (r: Vec<Item>)
    ensures
        item_views(r@) == walked_roots(roots@, roots@.len() as int, query@),
        r@.len() <= MAX_RESULTS,
{
    let mut out: Vec<Item> = Vec::new();
    assert(item_views(out@) =~= seq![]);
    let mut i: usize = 0;
    while i < roots.len()
        invariant
            i <= roots.len(),
            item_views(out@) == walked_roots(roots@, i as int, query@),
            out@.len() <= MAX_RESULTS,
        decreases roots.len() - i,
    {
        search_walk(&roots[i], query, 0, &mut out);
        i = i + 1;
    }
    out
}

// ---- Order ----

/// The way back comes first, then folders, then programs.
pub open spec fn rank(k: KindView) -> int {
    match k {
        KindView::Back => 0,
        KindView::Folder(_) => 1,
        KindView::Launch(_) => 2,
    }
}

/// `a` may stand before `b`: by rank, then by name without regard to case.
pub open spec fn may_precede(a: ItemView, b: ItemView) -> bool {
    if rank(a.kind) != rank(b.kind) {
        rank(a.kind) < rank(b.kind)
    } else {
        not_after(lowercase(a.name), lowercase(b.name))
    }
}

/// An item put behind every item that may precede it.
pub open spec fn placed(v: Seq<ItemView>, x: ItemView) -> Seq<ItemView>
    decreases v.len(),
{
    if v.len() == 0 || may_precede(v.last(), x) {
        v.push(x)
    } else {
        placed(v.drop_last(), x).push(v.last())
    }
}

/// The items in order; items of equal rank and name stay as they were.
pub open spec fn sorted(v: Seq<ItemView>) -> Seq<ItemView>
    decreases v.len(),
{
    if v.len() == 0 {
        seq![]
    } else {
        placed(sorted(v.drop_last()), v.last())
    }
}

fn rank_of(k: &ItemKind) -> (r: u8)
    ensures
        r == rank(k@),
{
    match k {
        ItemKind::Back => 0,
        ItemKind::Folder(_) => 1,
        ItemKind::Launch(_) => 2,
    }
}

fn precedes(a: &Item, b: &Item) -> (r: bool)
    ensures
        r == may_precede(a@, b@),
{
    let ra: u8 = rank_of(&a.kind);
    let rb: u8 = rank_of(&b.kind);
    if ra != rb {
        ra < rb
    } else {
        let la = chars_of(to_lowercase(a.name.as_str()).as_str());
        let lb = chars_of(to_lowercase(b.name.as_str()).as_str());
        is_not_after(&la, &lb)
    }
}

proof fn lemma_placed(v: Seq<ItemView>, x: ItemView, i: int)
    requires
        0 <= i <= v.len(),
        i == 0 || may_precede(v[i - 1], x),
        forall|k: int| i <= k < v.len() ==> !may_precede(#[trigger] v[k], x),
    ensures
        placed(v, x) == v.insert(i, x),
    decreases v.len(),
{
    if i == v.len() {
        assert(v.insert(i, x) =~= v.push(x));
    } else {
        assert(!may_precede(v[v.len() - 1], x));
        assert forall|k: int| i <= k < v.drop_last().len() implies !may_precede(
            #[trigger] v.drop_last()[k],
            x,
        ) by {
            assert(!may_precede(v[k], x));
        }
        lemma_placed(v.drop_last(), x, i);
        assert(v.drop_last().insert(i, x).push(v.last()) =~= v.insert(i, x));
    }
}

fn insert_item(v: &mut Vec<Item>, x: Item)
    ensures
        item_views(final(v)@) == placed(item_views(old(v)@), x@),
        final(v)@.len() == old(v)@.len() + 1,
{
    let mut i: usize = v.len();
    let ghost e = item_views(v@);
    while i > 0 && !precedes(&v[i - 1], &x)
        invariant
            i <= v.len(),
            e == item_views(v@),
            v@ == old(v)@,
            forall|k: int| i <= k < v.len() ==> !may_precede(#[trigger] e[k], x@),
        decreases i,
    {
        assert(e[i - 1] == v@[i - 1]@);
        i = i - 1;
    }
    proof {
        if i > 0 {
            assert(e[i - 1] == v@[i - 1]@);
        }
        lemma_placed(e, x@, i as int);
    }
    v.insert(i, x);
    assert(item_views(v@) =~= e.insert(i as int, x@));
}

/// Folders first, then alphabetical; Back pinned to the top.
pub fn sort_items(items: Vec<Item>) -> (r: Vec<Item>)
    ensures
        item_views(r@) == sorted(item_views(items@)),
        r@.len() == items@.len(),
{
    let mut items = items;
    let ghost all = item_views(items@);
    let ghost count = items@.len();
    let mut out: Vec<Item> = Vec::new();
    assert(item_views(out@) =~= sorted(all.take(0)));
    assert(all.skip(0) =~= all);
    while items.len() > 0
        invariant
            items@.len() <= count == all.len(),
            out@.len() == count - items@.len(),
            item_views(items@) == all.skip(out@.len() as int),
            item_views(out@) == sorted(all.take(out@.len() as int)),
        decreases items.len(),
    {
        let ghost k = out@.len() as int;
        let ghost left = item_views(items@);
        let x = items.remove(0);
        assert(x@ == left[0]);
        assert(all.take(k + 1).drop_last() =~= all.take(k));
        assert(all.take(k + 1).last() == x@);
        assert(item_views(items@) =~= all.skip(k + 1)) by {
            assert(left.skip(1) =~= all.skip(k + 1));
            assert(item_views(items@) =~= left.skip(1));
        }
        insert_item(&mut out, x);
    }
    assert(all.take(out@.len() as int) =~= all);
    out
}

// ---- Laws of the order ----

pub open spec fn in_order(v: Seq<ItemView>) -> bool {
    forall|i: int, j: int|
        0 <= i < j < v.len() ==> may_precede(#[trigger] v[i], #[trigger] v[j])
}

proof fn lemma_precede_total(a: ItemView, b: ItemView)
    ensures
        may_precede(a, b) || may_precede(b, a),
{
    lemma_order_total(lowercase(a.name), lowercase(b.name));
}

proof fn lemma_precede_transitive(a: ItemView, b: ItemView, c: ItemView)
    requires
        may_precede(a, b),
        may_precede(b, c),
    ensures
        may_precede(a, c),
{
    if rank(a.kind) == rank(b.kind) && rank(b.kind) == rank(c.kind) {
        lemma_order_transitive(lowercase(a.name), lowercase(b.name), lowercase(c.name));
    }
}

proof fn lemma_placed_in_order(v: Seq<ItemView>, x: ItemView)
    requires
        in_order(v),
    ensures
        in_order(placed(v, x)),
        placed(v, x).to_multiset() == v.to_multiset().insert(x),
        placed(v, x).len() == v.len() + 1,
        forall|k: int|
            0 <= k < placed(v, x).len() ==> #[trigger] placed(v, x)[k] == x || v.contains(
                placed(v, x)[k],
            ),
    decreases v.len(),
{
    broadcast use vstd::seq_lib::group_to_multiset_ensures;

    if v.len() > 0 && !may_precede(v.last(), x) {
        let d = v.drop_last();
        let w = placed(d, x);
        lemma_placed_in_order(d, x);
        lemma_precede_total(v.last(), x);
        assert(v =~= d.push(v.last()));
        let r = w.push(v.last());
        assert forall|i: int, j: int| 0 <= i < j < r.len() implies may_precede(
            #[trigger] r[i],
            #[trigger] r[j],
        ) by {
            if j == w.len() {
                assert(w[i] == x || d.contains(w[i]));
                if w[i] != x {
                    let k = choose|k: int| 0 <= k < d.len() && d[k] == w[i];
                    assert(may_precede(v[k], v[v.len() - 1]));
                }
            } else {
                assert(may_precede(w[i], w[j]));
            }
        }
        assert forall|k: int| 0 <= k < r.len() implies #[trigger] r[k] == x || v.contains(r[k]) by {
            if k < w.len() {
                assert(w[k] == x || d.contains(w[k]));
                if w[k] != x {
                    let t = choose|t: int| 0 <= t < d.len() && d[t] == w[k];
                    assert(v[t] == r[k]);
                }
            } else {
                assert(v[v.len() - 1] == r[k]);
            }
        }
        assert(r.to_multiset() =~= v.to_multiset().insert(x));
    } else {
        let r = v.push(x);
        assert forall|i: int, j: int| 0 <= i < j < r.len() implies may_precede(
            #[trigger] r[i],
            #[trigger] r[j],
        ) by {
            if j == v.len() {
                if i < v.len() - 1 {
                    assert(may_precede(v[i], v[v.len() - 1]));
                    lemma_precede_transitive(v[i], v.last(), x);
                }
            } else {
                assert(may_precede(v[i], v[j]));
            }
        }
        assert forall|k: int| 0 <= k < r.len() implies #[trigger] r[k] == x || v.contains(r[k]) by {
            if k < v.len() {
                assert(v[k] == r[k]);
            }
        }
    }
}

/// The list comes out in order, and no item is lost or made up.
pub proof fn list_is_sorted(v: Seq<ItemView>)
    ensures
        in_order(sorted(v)),
        sorted(v).to_multiset() == v.to_multiset(),
    decreases v.len(),
{
    broadcast use vstd::seq_lib::group_to_multiset_ensures;

    if v.len() > 0 {
        list_is_sorted(v.drop_last());
        lemma_placed_in_order(sorted(v.drop_last()), v.last());
        assert(v =~= v.drop_last().push(v.last()));
    } else {
        assert(v =~= seq![]);
    }
}

/// A list that is in order already stays as it is.
pub proof fn sorting_settles(v: Seq<ItemView>)
    requires
        in_order(v),
    ensures
        sorted(v) == v,
    decreases v.len(),
{
    if v.len() > 0 {
        let d = v.drop_last();
        assert forall|i: int, j: int| 0 <= i < j < d.len() implies may_precede(
            #[trigger] d[i],
            #[trigger] d[j],
        ) by {
            assert(may_precede(v[i], v[j]));
        }
        sorting_settles(d);
        if d.len() > 0 {
            assert(may_precede(v[v.len() - 2], v[v.len() - 1]));
        }
        assert(d.push(v.last()) =~= v);
    } else {
        assert(v =~= seq![]);
    }
}

/// Neither of two items has to stand before the other.
pub open spec fn level_with(a: ItemView, b: ItemView) -> bool {
    rank(a.kind) == rank(b.kind) && lowercase(a.name) == lowercase(b.name)
}

/// The items of a list that are level with `like`, in its order.
pub open spec fn like_items(v: Seq<ItemView>, like: ItemView) -> Seq<ItemView>
    decreases v.len(),
{
    if v.len() == 0 {
        seq![]
    } else if level_with(v.last(), like) {
        like_items(v.drop_last(), like).push(v.last())
    } else {
        like_items(v.drop_last(), like)
    }
}

proof fn lemma_placed_like(v: Seq<ItemView>, x: ItemView, like: ItemView)
    ensures
        like_items(placed(v, x), like) == if level_with(x, like) {
            like_items(v, like).push(x)
        } else {
            like_items(v, like)
        },
    decreases v.len(),
{
    if v.len() == 0 || may_precede(v.last(), x) {
        assert(v.push(x).drop_last() =~= v);
    } else {
        lemma_placed_like(v.drop_last(), x, like);
        lemma_order_total(lowercase(x.name), lowercase(x.name));
        let w = placed(v.drop_last(), x);
        assert(w.push(v.last()).drop_last() =~= w);
    }
}

/// Items of one rank and name keep the order they were found in.
pub proof fn equal_items_keep_their_order(v: Seq<ItemView>, like: ItemView)
    ensures
        like_items(sorted(v), like) == like_items(v, like),
    decreases v.len(),
{
    if v.len() > 0 {
        equal_items_keep_their_order(v.drop_last(), like);
        lemma_placed_like(sorted(v.drop_last()), v.last(), like);
    }
}

/// No two folders of a list share a name.
pub open spec fn folders_differ(v: Seq<ItemView>) -> bool {
    forall|i: int, j: int|
        0 <= i < j < v.len() && (#[trigger] v[i]).kind is Folder && (#[trigger] v[j]).kind is Folder
            ==> !alike(v[i].name, v[j].name)
}

/// Folders of one name are merged: no two folders in a collected list share a
/// name, if none did before.
pub proof fn folders_are_merged(items: Seq<ItemView>, dir: Seq<DirEntry>, n: int)
    requires
        folders_differ(items),
        n <= dir.len(),
    ensures
        folders_differ(collected_dir(items, dir, n)),
    decreases n,
{
    if n > 0 {
        folders_are_merged(items, dir, n - 1);
        let before = collected_dir(items, dir, n - 1);
        let e = dir[n - 1];
        match e.name {
            Some(name) => {
                if e.is_dir && !has_folder(before, stem_of(name@)) {
                    let r = before.push(folder(e.path@, stem_of(name@)));
                    assert forall|i: int, j: int|
                        0 <= i < j < r.len() && (#[trigger] r[i]).kind is Folder && (
                        #[trigger] r[j]).kind is Folder implies !alike(r[i].name, r[j].name) by {
                        if j == before.len() {
                            assert(before[i].kind is Folder);
                        } else {
                            assert(!alike(before[i].name, before[j].name));
                        }
                    }
                }
            },
            None => {},
        }
    }
}

// ---- What a search is for ----

/// `e` is `depth` folders below what `dir` holds.
pub open spec fn lies_below(dir: Vec<DirEntry>, e: DirEntry, depth: int) -> bool
    decreases depth,
{
    if depth <= 0 {
        depth == 0 && exists|i: int| 0 <= i < dir@.len() && #[trigger] dir@[i] == e
    } else {
        exists|i: int|
            0 <= i < dir@.len() && (#[trigger] dir@[i]).is_dir && lies_below(
                dir@[i].children,
                e,
                depth - 1,
            )
    }
}

/// `dir@[i]` is `e`, or leads to it through `depth` folders.
spec fn leads_to(dir: Vec<DirEntry>, i: int, e: DirEntry, depth: int) -> bool {
    if depth <= 0 {
        depth == 0 && dir@[i] == e
    } else {
        dir@[i].is_dir && lies_below(dir@[i].children, e, depth - 1)
    }
}

/// A program that a search for `query` is to find: a shortcut, program, script or
/// link that is not a folder's own `desktop` file, whose name without its extension
/// has the query in it, whatever the case.
pub open spec fn answers(e: DirEntry, query: Seq<char>) -> bool {
    !e.is_dir && (e.name matches Some(name) && {
        let stem = stem_of(name@);
        &&& extension_of(name@) matches Some(x) && ({
            let x = lowered(x);
            x == "lnk"@ || x == "exe"@ || x == "bat"@ || x == "cmd"@ || x == "url"@
        })
        &&& lowered(stem) != lowered("desktop"@)
        &&& exists|at: int|
            0 <= at && at + query.len() <= lowercase(stem).len() && #[trigger] lowercase(
                stem,
            ).subrange(at, at + query.len()) == query
    })
}

proof fn lemma_answers(e: DirEntry, query: Seq<char>)
    ensures
        answers(e, query) == (!e.is_dir && (e.name matches Some(name) && found(name@, query))),
{
    match e.name {
        Some(name) => {
            let low = lowercase(stem_of(name@));
            if occurs(low, query) {
                let at = choose|at: int| occurs_at(low, query, at);
                assert(low.subrange(at, at + query.len()) == query);
            }
            if exists|at: int|
                0 <= at && at + query.len() <= low.len() && #[trigger] low.subrange(
                    at,
                    at + query.len(),
                ) == query {
                let at = choose|at: int|
                    0 <= at && at + query.len() <= low.len() && #[trigger] low.subrange(
                        at,
                        at + query.len(),
                    ) == query;
                assert(occurs_at(low, query, at));
            }
        },
        None => {},
    }
}

/// A search keeps what was found before, in its place.
proof fn lemma_walked_extends(
    dir: Vec<DirEntry>,
    n: int,
    query: Seq<char>,
    depth: int,
    results: Seq<ItemView>,
)
    ensures
        walked(dir, n, query, depth, results).len() >= results.len(),
        walked(dir, n, query, depth, results).take(results.len() as int) == results,
    decreases dir, n,
{
    if n <= 0 || n > dir@.len() || depth > MAX_DEPTH {
        assert(results.take(results.len() as int) =~= results);
    } else {
        lemma_walked_extends(dir, n - 1, query, depth, results);
        let before = walked(dir, n - 1, query, depth, results);
        let after = walked(dir, n, query, depth, results);
        let e = dir@[n - 1];
        if before.len() < MAX_RESULTS && e.is_dir {
            assert(decreases_to!(dir => dir@[n - 1]));
            lemma_walked_extends(e.children, e.children@.len() as int, query, depth + 1, before);
        }
        assert(after.take(before.len() as int) =~= before);
        assert(after.take(results.len() as int) =~= before.take(results.len() as int)) by {
            assert forall|k: int| 0 <= k < results.len() implies after[k] == before[k] by {
                assert(after.take(before.len() as int)[k] == after[k]);
            }
        }
    }
}

proof fn lemma_kept(a: Seq<ItemView>, b: Seq<ItemView>, x: ItemView)
    requires
        a.len() <= b.len(),
        b.take(a.len() as int) == a,
        a.contains(x),
    ensures
        b.contains(x),
{
    let k = choose|k: int| 0 <= k < a.len() && a[k] == x;
    assert(b.take(a.len() as int)[k] == b[k]);
}

proof fn lemma_walked_finds(
    dir: Vec<DirEntry>,
    n: int,
    query: Seq<char>,
    depth: int,
    results: Seq<ItemView>,
    i: int,
    e: DirEntry,
    d: int,
)
    requires
        0 <= i < n <= dir@.len(),
        0 <= d,
        depth + d <= MAX_DEPTH,
        leads_to(dir, i, e, d),
        answers(e, query),
        walked(dir, n, query, depth, results).len() < MAX_RESULTS,
    ensures
        walked(dir, n, query, depth, results).contains(
            launcher(e.path@, stem_of(e.name->0@)),
        ),
    decreases dir, n,
{
    let x = launcher(e.path@, stem_of(e.name->0@));
    let before = walked(dir, n - 1, query, depth, results);
    let after = walked(dir, n, query, depth, results);
    let last = dir@[n - 1];
    lemma_answers(e, query);
    if before.len() < MAX_RESULTS && last.is_dir {
        assert(decreases_to!(dir => dir@[n - 1]));
        lemma_walked_extends(last.children, last.children@.len() as int, query, depth + 1, before);
    }
    assert(after.len() >= before.len());
    assert(after.take(before.len() as int) =~= before);
    if i < n - 1 {
        lemma_walked_finds(dir, n - 1, query, depth, results, i, e, d);
        lemma_kept(before, after, x);
    } else if d == 0 {
        assert(after == before.push(x));
        assert(after[before.len() as int] == x);
    } else {
        let c = last.children;
        let j = if d == 1 {
            choose|j: int| 0 <= j < c@.len() && #[trigger] c@[j] == e
        } else {
            choose|j: int|
                0 <= j < c@.len() && (#[trigger] c@[j]).is_dir && lies_below(
                    c@[j].children,
                    e,
                    d - 2,
                )
        };
        assert(lies_below(c, e, d - 1));
        assert(leads_to(c, j, e, d - 1));
        assert(decreases_to!(dir => dir@[n - 1]));
        lemma_walked_finds(c, c@.len() as int, query, depth + 1, before, j, e, d - 1);
    }
}

proof fn lemma_walked_sound(
    dir: Vec<DirEntry>,
    n: int,
    query: Seq<char>,
    depth: int,
    results: Seq<ItemView>,
    x: ItemView,
)
    requires
        n <= dir@.len(),
        walked(dir, n, query, depth, results).contains(x),
        !results.contains(x),
    ensures
        exists|e: DirEntry, d: int|
            #![trigger lies_below(dir, e, d)]
            0 <= d && depth + d <= MAX_DEPTH && lies_below(dir, e, d) && answers(e, query) && x
                == launcher(e.path@, stem_of(e.name->0@)),
    decreases dir, n,
{
    if n <= 0 || n > dir@.len() || depth > MAX_DEPTH {
    } else {
        let before = walked(dir, n - 1, query, depth, results);
        let after = walked(dir, n, query, depth, results);
        let last = dir@[n - 1];
        if before.contains(x) {
            lemma_walked_sound(dir, n - 1, query, depth, results, x);
        } else if before.len() < MAX_RESULTS && last.is_dir {
            assert(decreases_to!(dir => dir@[n - 1]));
            let c = last.children;
            lemma_walked_sound(c, c@.len() as int, query, depth + 1, before, x);
            let (e, d) = choose|e: DirEntry, d: int|
                #![trigger lies_below(c, e, d)]
                0 <= d && depth + 1 + d <= MAX_DEPTH && lies_below(c, e, d) && answers(e, query)
                    && x == launcher(e.path@, stem_of(e.name->0@));
            assert(dir@[n - 1].is_dir && lies_below(dir@[n - 1].children, e, d));
            assert(lies_below(dir, e, d + 1));
        } else {
            lemma_answers(last, query);
            let k = choose|k: int| 0 <= k < after.len() && after[k] == x;
            if k < before.len() {
                assert(before[k] == x);
            }
            assert(dir@[n - 1] == last);
            assert(lies_below(dir, last, 0));
        }
    }
}

proof fn lemma_roots_extend(roots: Seq<Vec<DirEntry>>, n: int, m: int, query: Seq<char>)
    requires
        0 <= n <= m <= roots.len(),
    ensures
        walked_roots(roots, n, query).len() <= walked_roots(roots, m, query).len(),
        walked_roots(roots, m, query).take(walked_roots(roots, n, query).len() as int)
            == walked_roots(roots, n, query),
    decreases m,
{
    let a = walked_roots(roots, n, query);
    if n == m {
        assert(a.take(a.len() as int) =~= a);
    } else {
        lemma_roots_extend(roots, n, m - 1, query);
        let b = walked_roots(roots, m - 1, query);
        let c = walked_roots(roots, m, query);
        lemma_walked_extends(roots[m - 1], roots[m - 1]@.len() as int, query, 0, b);
        assert(c.take(a.len() as int) =~= b.take(a.len() as int)) by {
            assert forall|k: int| 0 <= k < a.len() implies c[k] == b[k] by {
                assert(c.take(b.len() as int)[k] == c[k]);
            }
        }
    }
}

/// While there is room for more results, a search has found every program of every
/// start menu folder, down to four folders deep, that answers the query.
pub proof fn a_search_finds_every_program(
    roots: Seq<Vec<DirEntry>>,
    query: Seq<char>,
    r: int,
    e: DirEntry,
    depth: int,
)
    requires
        0 <= r < roots.len(),
        0 <= depth <= 4,
        lies_below(roots[r], e, depth),
        answers(e, query),
        walked_roots(roots, roots.len() as int, query).len() < 60,
    ensures
        walked_roots(roots, roots.len() as int, query).contains(
            ItemView {
                kind: KindView::Launch(e.path@),
                name: stem_of(e.name->0@),
                icon: None,
            },
        ),
{
    let x = launcher(e.path@, stem_of(e.name->0@));
    let dir = roots[r];
    lemma_roots_extend(roots, r + 1, roots.len() as int, query);
    let before = walked_roots(roots, r, query);
    let i = if depth == 0 {
        choose|i: int| 0 <= i < dir@.len() && #[trigger] dir@[i] == e
    } else {
        choose|i: int|
            0 <= i < dir@.len() && (#[trigger] dir@[i]).is_dir && lies_below(
                dir@[i].children,
                e,
                depth - 1,
            )
    };
    assert(leads_to(dir, i, e, depth));
    assert(walked_roots(roots, r + 1, query) == walked(dir, dir@.len() as int, query, 0, before));
    lemma_walked_finds(dir, dir@.len() as int, query, 0, before, i, e, depth);
    lemma_kept(
        walked_roots(roots, r + 1, query),
        walked_roots(roots, roots.len() as int, query),
        x,
    );
}

/// A search gives nothing but programs of the start menu folders that answer the
/// query, and never more than sixty.
pub proof fn a_search_makes_nothing_up(roots: Seq<Vec<DirEntry>>, n: int, query: Seq<char>, x: ItemView)
    requires
        0 <= n <= roots.len(),
        walked_roots(roots, n, query).contains(x),
    ensures
        walked_roots(roots, n, query).len() <= 60,
        exists|r: int, e: DirEntry, d: int|
            #![trigger lies_below(roots[r], e, d)]
            0 <= r < n && 0 <= d <= 4 && lies_below(roots[r], e, d) && answers(e, query) && x == (
            ItemView {
                kind: KindView::Launch(e.path@),
                name: stem_of(e.name->0@),
                icon: None,
            }),
    decreases n,
{
    lemma_roots_limited(roots, n, query);
    if n > 0 {
        let before = walked_roots(roots, n - 1, query);
        if before.contains(x) {
            a_search_makes_nothing_up(roots, n - 1, query, x);
        } else {
            let dir = roots[n - 1];
            lemma_walked_sound(dir, dir@.len() as int, query, 0, before, x);
            let (e, d) = choose|e: DirEntry, d: int|
                #![trigger lies_below(dir, e, d)]
                0 <= d && 0 + d <= MAX_DEPTH && lies_below(dir, e, d) && answers(e, query) && x
                    == launcher(e.path@, stem_of(e.name->0@));
            assert(lies_below(roots[n - 1], e, d));
        }
    }
}

proof fn lemma_roots_limited(roots: Seq<Vec<DirEntry>>, n: int, query: Seq<char>)
    ensures
        walked_roots(roots, n, query).len() <= MAX_RESULTS,
    decreases n,
{
    if n > 0 {
        lemma_roots_limited(roots, n - 1, query);
        search_is_limited(
            roots[n - 1],
            roots[n - 1]@.len() as int,
            query,
            0,
            walked_roots(roots, n - 1, query),
        );
    }
}

// ---- What the list of a folder is for ----

/// A name is cut at its last dot: what stands before it is shown, and what stands
/// behind it says whether the file can be launched.
pub proof fn a_name_is_cut_at_its_last_dot(stem: Seq<char>, ext: Seq<char>)
    requires
        stem.len() > 0,
        !ext.contains('.'),
        stem.push('.') + ext != ".."@,
    ensures
        stem_of(stem.push('.') + ext) == stem,
        extension_of(stem.push('.') + ext) == Some(ext),
        launchable(stem.push('.') + ext) == (lowered(ext) == "lnk"@ || lowered(ext) == "exe"@
            || lowered(ext) == "bat"@ || lowered(ext) == "cmd"@ || lowered(ext) == "url"@),
{
    let name = stem.push('.') + ext;
    let at = stem.len() as int;
    name.index_of_last_ensures('.');
    assert(name[at] == '.');
    assert(name.contains('.'));
    let i = name.index_of_last('.')->0;
    if i > at {
        assert(ext[i - at - 1] == '.');
    }
    assert(i == at);
    assert(name.take(i) =~= stem);
    assert(name.skip(i + 1) =~= ext);
}

/// A name without a dot, or with one in front alone, is shown whole and is no
/// program.
pub proof fn a_name_without_an_extension_is_no_program(name: Seq<char>)
    requires
        forall|i: int| 1 <= i < name.len() ==> name[i] != '.',
    ensures
        stem_of(name) == name,
        !launchable(name),
        !shown_program(name),
{
    name.index_of_last_ensures('.');
}

/// A collected list keeps the items it had, in their place.
proof fn lemma_collected_extends(items: Seq<ItemView>, dir: Seq<DirEntry>, n: int)
    requires
        n <= dir.len(),
    ensures
        collected_dir(items, dir, n).len() >= items.len(),
        collected_dir(items, dir, n).take(items.len() as int) == items,
    decreases n,
{
    if n > 0 {
        lemma_collected_extends(items, dir, n - 1);
        let before = collected_dir(items, dir, n - 1);
        let after = collected_dir(items, dir, n);
        assert(after.take(before.len() as int) =~= before);
        assert(after.take(items.len() as int) =~= before.take(items.len() as int));
    } else {
        assert(items.take(items.len() as int) =~= items);
    }
}

/// Every program of a folder is listed by its path and name, and so is a folder,
/// unless one of its name is listed already.
pub proof fn a_folder_is_listed_whole(items: Seq<ItemView>, dir: Seq<DirEntry>, n: int, i: int)
    requires
        0 <= i < n <= dir.len(),
        dir[i].name is Some,
    ensures
        ({
            let list = collected_dir(items, dir, n);
            let stem = stem_of(dir[i].name->0@);
            &&& dir[i].is_dir ==> exists|k: int|
                0 <= k < list.len() && (#[trigger] list[k]).kind is Folder && lowered(list[k].name)
                    == lowered(stem)
            &&& (!dir[i].is_dir && launchable(dir[i].name->0@) && lowered(stem) != lowered(
                "desktop"@,
            )) ==> list.contains(
                ItemView { kind: KindView::Launch(dir[i].path@), name: stem, icon: None },
            )
        }),
    decreases n,
{
    let list = collected_dir(items, dir, n);
    let before = collected_dir(items, dir, n - 1);
    let stem = stem_of(dir[i].name->0@);
    assert(list.len() >= before.len());
    assert(list.take(before.len() as int) =~= before);
    if i < n - 1 {
        a_folder_is_listed_whole(items, dir, n - 1, i);
        if dir[i].is_dir {
            let k = choose|k: int|
                0 <= k < before.len() && (#[trigger] before[k]).kind is Folder && lowered(
                    before[k].name,
                ) == lowered(stem);
            assert(list.take(before.len() as int)[k] == list[k]);
        } else if launchable(dir[i].name->0@) && lowered(stem) != lowered("desktop"@) {
            lemma_kept(before, list, launcher(dir[i].path@, stem));
        }
    } else if dir[i].is_dir {
        if has_folder(before, stem) {
            let k = choose|k: int|
                0 <= k < before.len() && (#[trigger] before[k]).kind is Folder && alike(
                    before[k].name,
                    stem,
                );
            assert(list[k] == before[k]);
        } else {
            assert(list[before.len() as int] == folder(dir[i].path@, stem));
        }
    } else if launchable(dir[i].name->0@) && lowered(stem) != lowered("desktop"@) {
        assert(list[before.len() as int] == launcher(dir[i].path@, stem));
    }
}

/// A list holds nothing but what was there before and what the folder holds: folders
/// by their path, and programs that can be launched.
pub proof fn a_list_makes_nothing_up(items: Seq<ItemView>, dir: Seq<DirEntry>, n: int, x: ItemView)
    requires
        n <= dir.len(),
        collected_dir(items, dir, n).contains(x),
        !items.contains(x),
    ensures
        exists|i: int|
            #![trigger dir[i]]
            0 <= i < n && (dir[i].name matches Some(name) && {
                &&& x.name == stem_of(name@)
                &&& x.icon is None
                &&& if dir[i].is_dir {
                    x.kind == KindView::Folder(dir[i].path@)
                } else {
                    &&& x.kind == KindView::Launch(dir[i].path@)
                    &&& launchable(name@)
                    &&& lowered(x.name) != lowered("desktop"@)
                }
            }),
    decreases n,
{
    if n > 0 {
        let before = collected_dir(items, dir, n - 1);
        let list = collected_dir(items, dir, n);
        if before.contains(x) {
            a_list_makes_nothing_up(items, dir, n - 1, x);
        } else {
            let k = choose|k: int| 0 <= k < list.len() && list[k] == x;
            if k < before.len() {
                assert(before[k] == x);
            }
            assert(dir[n - 1].name is Some);
        }
    }
}

/// Merging folders lists what each of them holds.
pub proof fn merged_folders_are_listed_whole(
    items: Seq<ItemView>,
    dirs: Seq<Vec<DirEntry>>,
    n: int,
    d: int,
    i: int,
)
    requires
        0 <= d < n <= dirs.len(),
        0 <= i < dirs[d]@.len(),
        dirs[d]@[i].name is Some,
    ensures
        ({
            let list = collected_dirs(items, dirs, n);
            let e = dirs[d]@[i];
            let stem = stem_of(e.name->0@);
            &&& e.is_dir ==> exists|k: int|
                0 <= k < list.len() && (#[trigger] list[k]).kind is Folder && lowered(list[k].name)
                    == lowered(stem)
            &&& (!e.is_dir && launchable(e.name->0@) && lowered(stem) != lowered("desktop"@))
                ==> list.contains(
                ItemView { kind: KindView::Launch(e.path@), name: stem, icon: None },
            )
        }),
    decreases n,
{
    let before = collected_dirs(items, dirs, n - 1);
    let list = collected_dirs(items, dirs, n);
    let e = dirs[d]@[i];
    let stem = stem_of(e.name->0@);
    lemma_collected_extends(before, dirs[n - 1]@, dirs[n - 1]@.len() as int);
    if d < n - 1 {
        merged_folders_are_listed_whole(items, dirs, n - 1, d, i);
        if e.is_dir {
            let k = choose|k: int|
                0 <= k < before.len() && (#[trigger] before[k]).kind is Folder && lowered(
                    before[k].name,
                ) == lowered(stem);
            assert(list.take(before.len() as int)[k] == list[k]);
        } else if launchable(e.name->0@) && lowered(stem) != lowered("desktop"@) {
            lemma_kept(before, list, launcher(e.path@, stem));
        }
    } else {
        a_folder_is_listed_whole(before, dirs[d]@, dirs[d]@.len() as int, i);
    }
}

/// Merging keeps what came first: a folder that several places have leads to the
/// first of them.
pub proof fn the_first_folder_of_a_name_stays(
    items: Seq<ItemView>,
    dir: Seq<DirEntry>,
    n: int,
    k: int,
)
    requires
        n <= dir.len(),
        0 <= k < items.len(),
    ensures
        collected_dir(items, dir, n).len() >= items.len(),
        collected_dir(items, dir, n)[k] == items[k],
        folders_differ(items) ==> forall|j: int|
            items.len() <= j < collected_dir(items, dir, n).len() && items[k].kind is Folder && (
            #[trigger] collected_dir(items, dir, n)[j]).kind is Folder ==> !alike(
                items[k].name,
                collected_dir(items, dir, n)[j].name,
            ),
{
    let list = collected_dir(items, dir, n);
    lemma_collected_extends(items, dir, n);
    assert(list.take(items.len() as int)[k] == list[k]);
    if folders_differ(items) {
        folders_are_merged(items, dir, n);
    }
}

/// In a sorted list the way back stands first, all folders before all programs, and
/// within either the names are in alphabetical order, whatever their case.
pub proof fn folders_come_before_programs(v: Seq<ItemView>, i: int, j: int)
    requires
        0 <= i < j < sorted(v).len(),
    ensures
        ({
            let a = sorted(v)[i];
            let b = sorted(v)[j];
            &&& b.kind is Back ==> a.kind is Back
            &&& b.kind is Folder ==> !(a.kind is Launch)
            &&& (a.kind is Folder && b.kind is Folder || a.kind is Launch && b.kind is Launch)
                ==> not_after(lowercase(a.name), lowercase(b.name))
        }),
{
    list_is_sorted(v);
    assert(may_precede(sorted(v)[i], sorted(v)[j]));
}

} // verus!
