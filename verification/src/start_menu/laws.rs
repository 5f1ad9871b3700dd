//! What the start menu is for: what it lists, how the focus moves, what is hit, and
//! what activating a part comes to.

use vstd::prelude::*;
use vstd::string::*;
use crate::geometry::{lemma_px, px};
use crate::paths::{a_joined_name_is_the_last, drive_len, joined, same_path, separates, share_len};
use crate::search::{lemma_first_from, lemma_first_is};
use crate::start_menu::items::{
    a_folder_is_listed_whole, a_search_finds_every_program, a_search_makes_nothing_up, answers,
    back_row, collected_dir, collected_dirs, item_views, launchable, launcher, lies_below,
    list_is_sorted, merged_folders_are_listed_whole, sorted, stem_of, walked_roots, DirEntry,
    ItemView, KindView,
};
use crate::start_menu::{
    first_launch, icons, listed, moved, right_links, twin_of, ActionView, Dir, Hit, Listing,
    MenuState, ROW,
};
use crate::text::{lowercase, lowered, not_after, views};

verus! {

// ---- The list ----

proof fn lemma_sorted_contains(v: Seq<ItemView>, x: ItemView)
    ensures
        sorted(v).contains(x) == v.contains(x),
        sorted(v).len() == v.len(),
{
    broadcast use vstd::seq_lib::group_to_multiset_ensures;

    list_is_sorted(v);
    assert(sorted(v).to_multiset().count(x) == v.to_multiset().count(x));
    assert(sorted(v).to_multiset().len() == v.to_multiset().len());
}

/// While something is typed, the list has every program of the start menu folders
/// that answers it, as long as there are fewer than sixty, whatever folder is open.
pub proof fn a_query_lists_every_answer(m: MenuState, l: Listing, r: int, e: DirEntry, depth: int)
    requires
        m.query@.len() > 0,
        0 <= r < l.roots@.len(),
        0 <= depth <= 4,
        lies_below(l.roots@[r], e, depth),
        answers(e, lowercase(m.query@)),
        listed(m, l).len() < 60,
    ensures
        listed(m, l).contains(
            ItemView {
                kind: KindView::Launch(e.path@),
                name: stem_of(e.name->0@),
                icon: None,
            },
        ),
{
    let q = lowercase(m.query@);
    let found = walked_roots(l.roots@, l.roots@.len() as int, q);
    lemma_sorted_contains(found, launcher(e.path@, stem_of(e.name->0@)));
    a_search_finds_every_program(l.roots@, q, r, e, depth);
}

/// While something is typed, the list has nothing but answers to it.
pub proof fn a_query_lists_answers_alone(m: MenuState, l: Listing, x: ItemView)
    requires
        m.query@.len() > 0,
        listed(m, l).contains(x),
    ensures
        exists|r: int, e: DirEntry, d: int|
            #![trigger lies_below(l.roots@[r], e, d)]
            0 <= r < l.roots@.len() && 0 <= d <= 4 && lies_below(l.roots@[r], e, d) && answers(
                e,
                lowercase(m.query@),
            ) && x == (ItemView {
                kind: KindView::Launch(e.path@),
                name: stem_of(e.name->0@),
                icon: None,
            }),
{
    let q = lowercase(m.query@);
    lemma_sorted_contains(walked_roots(l.roots@, l.roots@.len() as int, q), x);
    a_search_makes_nothing_up(l.roots@, l.roots@.len() as int, q, x);
}

/// An opened folder's list starts with the way back, and has all that the folder
/// holds; a folder of the top level also has what the folders of its name in the
/// other start menus hold.
pub proof fn an_open_folder_is_listed(m: MenuState, l: Listing, i: int)
    requires
        m.query@.len() == 0,
        m.stack@.len() > 0,
    ensures
        listed(m, l).contains(back_row()),
        (0 <= i < l.current@.len() && l.current@[i].name is Some && !l.current@[i].is_dir && launchable(
            l.current@[i].name->0@,
        ) && lowered(stem_of(l.current@[i].name->0@)) != lowered("desktop"@)) ==> listed(
            m,
            l,
        ).contains(
            ItemView {
                kind: KindView::Launch(l.current@[i].path@),
                name: stem_of(l.current@[i].name->0@),
                icon: None,
            },
        ),
        forall|d: int, k: int|
            #![trigger l.twins@[d]@[k]]
            m.stack@.len() == 1 && 0 <= d < l.twins@.len() && 0 <= k < l.twins@[d]@.len()
                && l.twins@[d]@[k].name is Some && !l.twins@[d]@[k].is_dir && launchable(
                l.twins@[d]@[k].name->0@,
            ) && lowered(stem_of(l.twins@[d]@[k].name->0@)) != lowered("desktop"@) ==> listed(
                m,
                l,
            ).contains(
                ItemView {
                    kind: KindView::Launch(l.twins@[d]@[k].path@),
                    name: stem_of(l.twins@[d]@[k].name->0@),
                    icon: None,
                },
            ),
        m.stack@.len() > 1 ==> listed(m, l) == sorted(
            collected_dir(seq![back_row()], l.current@, l.current@.len() as int),
        ),
{
    let start = seq![back_row()];
    let n = l.current@.len() as int;
    let own = collected_dir(start, l.current@, n);
    let t = l.twins@.len() as int;
    let all = if m.stack@.len() == 1 {
        collected_dirs(own, l.twins@, t)
    } else {
        own
    };
    assert(start[0] == back_row());
    lemma_collected_keeps(start, l.current@, n, back_row());
    if m.stack@.len() == 1 {
        lemma_dirs_keep(own, l.twins@, t, back_row());
    }
    lemma_sorted_contains(all, back_row());
    if 0 <= i < n && l.current@[i].name is Some && !l.current@[i].is_dir && launchable(
        l.current@[i].name->0@,
    ) && lowered(stem_of(l.current@[i].name->0@)) != lowered("desktop"@) {
        let x = launcher(l.current@[i].path@, stem_of(l.current@[i].name->0@));
        a_folder_is_listed_whole(start, l.current@, n, i);
        if m.stack@.len() == 1 {
            lemma_dirs_keep(own, l.twins@, t, x);
        }
        lemma_sorted_contains(all, x);
    }
    assert forall|d: int, k: int|
        #![trigger l.twins@[d]@[k]]
        m.stack@.len() == 1 && 0 <= d < l.twins@.len() && 0 <= k < l.twins@[d]@.len()
            && l.twins@[d]@[k].name is Some && !l.twins@[d]@[k].is_dir && launchable(
            l.twins@[d]@[k].name->0@,
        ) && lowered(stem_of(l.twins@[d]@[k].name->0@)) != lowered("desktop"@) implies listed(
        m,
        l,
    ).contains(
        ItemView {
            kind: KindView::Launch(l.twins@[d]@[k].path@),
            name: stem_of(l.twins@[d]@[k].name->0@),
            icon: None,
        },
    ) by {
        merged_folders_are_listed_whole(own, l.twins@, t, d, k);
        lemma_sorted_contains(
            all,
            launcher(l.twins@[d]@[k].path@, stem_of(l.twins@[d]@[k].name->0@)),
        );
    }
}

proof fn lemma_collected_keeps(items: Seq<ItemView>, dir: Seq<DirEntry>, n: int, x: ItemView)
    requires
        n <= dir.len(),
        items.contains(x),
    ensures
        collected_dir(items, dir, n).contains(x),
    decreases n,
{
    if n > 0 {
        lemma_collected_keeps(items, dir, n - 1, x);
        let before = collected_dir(items, dir, n - 1);
        let k = choose|k: int| 0 <= k < before.len() && before[k] == x;
        assert(collected_dir(items, dir, n)[k] == x);
    }
}

proof fn lemma_dirs_keep(items: Seq<ItemView>, dirs: Seq<Vec<DirEntry>>, n: int, x: ItemView)
    requires
        n <= dirs.len(),
        items.contains(x),
    ensures
        collected_dirs(items, dirs, n).contains(x),
    decreases n,
{
    if n > 0 {
        lemma_dirs_keep(items, dirs, n - 1, x);
        lemma_collected_keeps(
            collected_dirs(items, dirs, n - 1),
            dirs[n - 1]@,
            dirs[n - 1]@.len() as int,
            x,
        );
    }
}

/// With nothing typed and no folder open, the menu shows the pins, each by its name
/// and in pin order, until all apps are asked for.
pub proof fn pins_are_listed_in_pin_order(m: MenuState, l: Listing, i: int)
    requires
        m.query@.len() == 0,
        m.stack@.len() == 0,
        m.pinned@.len() > 0,
        !m.showing_all,
        l.pin_names@.len() == m.pinned@.len(),
    ensures
        listed(m, l).len() == m.pinned@.len(),
        0 <= i < m.pinned@.len() ==> listed(m, l)[i].kind == KindView::Launch(m.pinned@[i]@)
            && listed(m, l)[i].name == l.pin_names@[i]@,
{
}

/// Without pins, or once all apps are asked for, the top level lists every program of
/// every start menu folder, and a folder for each name of one.
pub proof fn all_apps_lists_every_root(m: MenuState, l: Listing, d: int, i: int)
    requires
        m.query@.len() == 0,
        m.stack@.len() == 0,
        m.pinned@.len() == 0 || m.showing_all,
        0 <= d < l.roots@.len(),
        0 <= i < l.roots@[d]@.len(),
        l.roots@[d]@[i].name is Some,
    ensures
        ({
            let e = l.roots@[d]@[i];
            let list = listed(m, l);
            let stem = stem_of(e.name->0@);
            &&& (!e.is_dir && launchable(e.name->0@) && lowered(stem) != lowered("desktop"@))
                ==> list.contains(
                ItemView { kind: KindView::Launch(e.path@), name: stem, icon: None },
            )
            &&& e.is_dir ==> exists|x: ItemView| #[trigger]
                list.contains(x) && x.kind is Folder && lowered(x.name) == lowered(stem)
        }),
{
    let n = l.roots@.len() as int;
    let none = Seq::<ItemView>::empty();
    let all = collected_dirs(none, l.roots@, n);
    let e = l.roots@[d]@[i];
    let stem = stem_of(e.name->0@);
    assert(none =~= seq![]);
    assert(listed(m, l) == sorted(all));
    merged_folders_are_listed_whole(none, l.roots@, n, d, i);
    if e.is_dir {
        let k = choose|k: int|
            0 <= k < all.len() && (#[trigger] all[k]).kind is Folder && lowered(all[k].name)
                == lowered(stem);
        assert(all.contains(all[k]));
        lemma_sorted_contains(all, all[k]);
        assert(listed(m, l).contains(all[k]));
    } else {
        lemma_sorted_contains(all, launcher(e.path@, stem));
    }
}

/// Every list but that of the pins is in order: the way back, folders, programs, each
/// by name.
pub proof fn lists_are_in_order(m: MenuState, l: Listing, i: int, j: int)
    requires
        m.query@.len() > 0 || m.stack@.len() > 0 || m.pinned@.len() == 0 || m.showing_all,
        0 <= i < j < listed(m, l).len(),
    ensures
        ({
            let a = listed(m, l)[i];
            let b = listed(m, l)[j];
            &&& b.kind is Back ==> a.kind is Back
            &&& b.kind is Folder ==> !(a.kind is Launch)
            &&& (a.kind is Folder && b.kind is Folder || a.kind is Launch && b.kind is Launch)
                ==> not_after(lowercase(a.name), lowercase(b.name))
        }),
{
    let v = if m.query@.len() > 0 {
        walked_roots(l.roots@, l.roots@.len() as int, lowercase(m.query@))
    } else if m.stack@.len() > 0 {
        let own = collected_dir(seq![back_row()], l.current@, l.current@.len() as int);
        if m.stack@.len() == 1 {
            collected_dirs(own, l.twins@, l.twins@.len() as int)
        } else {
            own
        }
    } else {
        collected_dirs(seq![], l.roots@, l.roots@.len() as int)
    };
    assert(listed(m, l) == sorted(v));
    crate::start_menu::items::folders_come_before_programs(v, i, j);
}

/// A folder of one root has its twin in another: the folder of the same name there.
pub proof fn a_twin_has_the_same_name(root: Seq<char>, other: Seq<char>, name: Seq<char>)
    requires
        name.len() > 0,
        drive_len(name) == 0,
        forall|i: int| 0 <= i < name.len() ==> !separates(#[trigger] name[i]),
        name != seq!['.'] && name != seq!['.', '.'],
        share_len(joined(other, name)) <= other.len(),
    ensures
        twin_of(root, joined(other, name)) == if same_path(joined(root, name), joined(other, name)) {
            None::<Seq<char>>
        } else {
            Some(joined(root, name))
        },
        twin_of(other, joined(other, name)) is None,
{
    a_joined_name_is_the_last(other, name);
}

/// Every icon of the old rows is handed out, and nothing else is.
pub proof fn every_icon_is_handed_out(v: Seq<crate::start_menu::items::Item>, h: u64)
    ensures
        icons(v).contains(h) <==> exists|i: int|
            0 <= i < v.len() && (#[trigger] v[i]).icon == Some(h),
    decreases v.len(),
{
    if v.len() > 0 {
        let d = v.drop_last();
        every_icon_is_handed_out(d, h);
        let r = icons(v);
        let before = icons(d);
        if r.contains(h) {
            let k = choose|k: int| 0 <= k < r.len() && r[k] == h;
            if k < before.len() {
                assert(before[k] == h);
                let i = choose|i: int| 0 <= i < d.len() && (#[trigger] d[i]).icon == Some(h);
                assert(v[i].icon == Some(h));
            } else {
                assert(v[v.len() - 1].icon == Some(h));
            }
        }
        if exists|i: int| 0 <= i < v.len() && (#[trigger] v[i]).icon == Some(h) {
            let i = choose|i: int| 0 <= i < v.len() && (#[trigger] v[i]).icon == Some(h);
            if i < d.len() {
                assert(d[i].icon == Some(h));
                let k = choose|k: int| 0 <= k < before.len() && before[k] == h;
                assert(r[k] == h);
            } else {
                assert(r[before.len() as int] == h);
            }
        }
    }
}

// ---- The focus ----

/// The focus after the same arrow key pressed `k` times.
pub open spec fn moved_often(cur: Hit, dir: Dir, n: int, r: int, k: int) -> Hit
    decreases k,
{
    if k <= 0 {
        cur
    } else {
        moved(moved_often(cur, dir, n, r, k - 1), dir, n, r)
    }
}

/// Down walks through every row of the list, one at a time, then to All apps and to
/// the search box, and Up walks the same way back.
pub proof fn down_walks_through_the_list(n: int, r: int, k: int)
    requires
        0 <= k < n <= usize::MAX,
    ensures
        moved_often(Hit::Row(0), Dir::Down, n, r, k) == Hit::Row(k as usize),
        moved_often(Hit::Row((n - 1) as usize), Dir::Up, n, r, k) == Hit::Row((n - 1 - k) as usize),
        moved(Hit::Row((n - 1) as usize), Dir::Down, n, r) == Hit::AllPrograms,
        moved(Hit::AllPrograms, Dir::Down, n, r) == Hit::Search,
        moved(Hit::Search, Dir::Up, n, r) == Hit::AllPrograms,
        moved(Hit::AllPrograms, Dir::Up, n, r) == Hit::Row((n - 1) as usize),
        moved(Hit::Row(0), Dir::Up, n, r) == Hit::Row(0),
    decreases k,
{
    if k > 0 {
        down_walks_through_the_list(n, r, k - 1);
    }
}

/// Down walks through every link of the right pane and then to Shut down, and Up walks
/// the same way back.
pub proof fn down_walks_through_the_links(n: int, r: int, k: int)
    requires
        0 <= k < r <= usize::MAX,
    ensures
        moved_often(Hit::Right(0), Dir::Down, n, r, k) == Hit::Right(k as usize),
        moved_often(Hit::Right((r - 1) as usize), Dir::Up, n, r, k) == Hit::Right(
            (r - 1 - k) as usize,
        ),
        moved(Hit::Right((r - 1) as usize), Dir::Down, n, r) == Hit::Shutdown,
        moved(Hit::Shutdown, Dir::Up, n, r) == Hit::Right((r - 1) as usize),
        moved(Hit::Right(0), Dir::Up, n, r) == Hit::Right(0),
    decreases k,
{
    if k > 0 {
        down_walks_through_the_links(n, r, k - 1);
    }
}

/// Right goes from the list to the links and on to the power flyout, Left back to the
/// list; along the bottom, Left undoes Right.
pub proof fn left_and_right_cross_the_panes(i: usize, n: int, r: int)
    requires
        0 <= n <= usize::MAX,
        0 < r <= usize::MAX,
    ensures
        moved(Hit::Row(i), Dir::Right, n, r) == Hit::Right(0),
        moved(Hit::AllPrograms, Dir::Right, n, r) == Hit::Right(0),
        moved(Hit::Right(i), Dir::Right, n, r) == Hit::ShutdownMenu,
        n > 0 ==> moved(Hit::Right(i), Dir::Left, n, r) == Hit::Row(0),
        n == 0 ==> moved(Hit::Right(i), Dir::Left, n, r) == Hit::AllPrograms,
        moved(Hit::Row(i), Dir::Left, n, r) == Hit::Row(i),
        moved(moved(Hit::Search, Dir::Right, n, r), Dir::Left, n, r) == Hit::Search,
        moved(moved(Hit::Shutdown, Dir::Right, n, r), Dir::Left, n, r) == Hit::Shutdown,
        moved(Hit::ShutdownMenu, Dir::Right, n, r) == Hit::ShutdownMenu,
        moved(Hit::Search, Dir::Left, n, r) == Hit::Search,
{
}

// ---- Hits ----

/// Each row of the list is hit where it lies: `i` rows below the list's top, less
/// what is scrolled away.
pub proof fn a_row_is_hit_where_it_lies(m: MenuState, i: int, x: int, y: int, dpi: i32)
    requires
        m.wf(dpi),
        0 <= i < m.items@.len(),
        x < m.width - px(170, dpi as int) - px(4, dpi as int),
        ({
            let top = px(32, dpi as int) + px(8, dpi as int);
            &&& top <= y < m.height - px(48, dpi as int) - px(34, dpi as int)
            &&& top + i * px(34, dpi as int) - m.scroll <= y < top + (i + 1) * px(34, dpi as int)
                - m.scroll
        }),
    ensures
        m.hit(x, y, dpi as int) == Hit::Row(i as usize),
{
    let d = dpi as int;
    lemma_px(34, d);
    let row = px(34, d);
    let at = y - MenuState::list_y(d) + m.scroll;
    let q = at / row;
    assert(q == i) by (nonlinear_arith)
        requires
            i * row <= at < (i + 1) * row,
            q == at / row,
            row > 0,
    ;
}

/// Each link of the right pane is hit where it lies.
pub proof fn a_link_is_hit_where_it_lies(m: MenuState, i: int, x: int, y: int, dpi: i32)
    requires
        m.wf(dpi),
        0 <= i < m.rights@.len(),
        x >= m.width - px(170, dpi as int) - px(4, dpi as int),
        y < m.height - px(48, dpi as int),
        ({
            let top = px(64, dpi as int) + px(12, dpi as int);
            top + i * px(38, dpi as int) <= y < top + (i + 1) * px(38, dpi as int)
        }),
    ensures
        m.hit(x, y, dpi as int) == Hit::Right(i as usize),
{
    let d = dpi as int;
    lemma_px(38, d);
    lemma_px(64, d);
    lemma_px(12, d);
    let row = px(38, d);
    let at = y - MenuState::links_y(d);
    let q = at / row;
    assert(q == i && at >= 0) by (nonlinear_arith)
        requires
            i * row <= at < (i + 1) * row,
            q == at / row,
            row > 0,
            i >= 0,
    ;
}

/// The footer has the search box at the left, Shut down and its chevron at the right;
/// All apps lies right above it, below the list.
pub proof fn the_footer_is_hit_where_it_lies(m: MenuState, x: int, y: int, dpi: i32)
    requires
        m.wf(dpi),
    ensures
        ({
            let d = dpi as int;
            let foot = m.height - px(48, d);
            &&& (foot <= y < m.height && m.width - px(140, d) <= x < m.width - px(28, d)) ==> m.hit(
                x,
                y,
                d,
            ) == Hit::Shutdown
            &&& (foot <= y < m.height && m.width - px(28, d) <= x < m.width - px(6, d)) ==> m.hit(
                x,
                y,
                d,
            ) == Hit::ShutdownMenu
            &&& (foot - px(34, d) <= y < foot && x < m.width - px(170, d) - px(4, d)) ==> m.hit(
                x,
                y,
                d,
            ) == Hit::AllPrograms
            &&& m.hit(x, y, d) is Search ==> foot <= y < m.height && px(12, d) <= x < m.width - px(
                170,
                d,
            )
        }),
{
    let d = dpi as int;
    m.lemma_metrics(dpi);
    lemma_px(140, d);
    lemma_px(28, d);
    lemma_px(6, d);
    lemma_px(48, d);
    lemma_px(30, d);
    lemma_px(12, d);
    lemma_px(4, d);
    lemma_px(170, d);
    reveal(px);
}

// ---- Activation ----

/// A program row launches its program and leaves the open folders as they are; a link
/// runs its command, or opens the Run window; the search box does nothing.
pub proof fn activating_a_part_does_its_own(m: MenuState, i: usize)
    ensures
        (i < m.items@.len() && m.items@[i as int].kind is Launch) ==> {
            &&& m.action_of(Hit::Row(i)) == ActionView::Launch(m.items@[i as int].kind->Launch_0@)
            &&& m.stack_after(Hit::Row(i)) == views(m.stack@)
        },
        (i < m.items@.len() && !(m.items@[i as int].kind is Launch)) ==> m.action_of(Hit::Row(i))
            == ActionView::Navigate,
        (i < m.rights@.len() && m.rights@[i as int].cmd@ != "@startpe:run-dialog"@) ==> m.action_of(
            Hit::Right(i),
        ) == ActionView::Exec(m.rights@[i as int].cmd@, m.rights@[i as int].args@),
        (i < m.rights@.len() && m.rights@[i as int].cmd@ == "@startpe:run-dialog"@) ==> m.action_of(
            Hit::Right(i),
        ) == ActionView::RunWindow,
        m.action_of(Hit::Shutdown) == ActionView::Shutdown,
        m.action_of(Hit::ShutdownMenu) == ActionView::ShutdownMenu,
        m.action_of(Hit::AllPrograms) == ActionView::Navigate,
        m.action_of(Hit::Search) == ActionView::Nothing,
        m.action_of(Hit::Nothing) == ActionView::Nothing,
{
}

/// Back leaves the folder that was entered last, and All apps leaves them all.
pub proof fn back_undoes_entering(before: MenuState, i: usize, inside: MenuState, k: usize)
    requires
        i < before.items@.len(),
        before.items@[i as int].kind is Folder,
        inside.follows(before, Hit::Row(i)) || views(inside.stack@) == before.stack_after(
            Hit::Row(i),
        ),
        k < inside.items@.len(),
        inside.items@[k as int].kind is Back,
    ensures
        views(inside.stack@).len() == before.stack@.len() + 1,
        views(inside.stack@).last() == before.items@[i as int].kind->Folder_0@,
        inside.stack_after(Hit::Row(k)) == views(before.stack@),
        inside.stack_after(Hit::AllPrograms).len() == 0,
{
    assert(views(inside.stack@).drop_last() =~= views(before.stack@));
}

/// Enter launches the first program of the list while the search box has the focus,
/// and else what has the focus.
pub proof fn enter_launches_the_first_program(m: MenuState, i: int)
    requires
        m.items@.len() <= usize::MAX,
    ensures
        (m.hover is Search || m.hover is Nothing) && 0 <= i < m.items@.len()
            && m.items@[i].kind is Launch && (forall|k: int|
            0 <= k < i ==> !((#[trigger] m.items@[k]).kind is Launch)) ==> m.entered() == Hit::Row(
            i as usize,
        ),
        (m.hover is Search || m.hover is Nothing) && (forall|k: int|
            0 <= k < m.items@.len() ==> !((#[trigger] m.items@[k]).kind is Launch)) ==> m.entered()
            == Hit::Nothing,
        !(m.hover is Search) && !(m.hover is Nothing) ==> m.entered() == m.hover,
{
    let v = item_views(m.items@);
    let p = |i: int| v[i].kind is Launch;
    lemma_first_from(0, v.len() as int, p);
    if 0 <= i < m.items@.len() && m.items@[i].kind is Launch && (forall|k: int|
        0 <= k < i ==> !((#[trigger] m.items@[k]).kind is Launch)) {
        assert(p(i));
        assert forall|k: int| 0 <= k < i implies !(#[trigger] p(k)) by {
            assert(!(m.items@[k].kind is Launch));
        }
        lemma_first_is(0, v.len() as int, p, i);
    }
    if forall|k: int| 0 <= k < m.items@.len() ==> !((#[trigger] m.items@[k]).kind is Launch) {
        match first_launch(v) {
            Some(k) => {
                assert(p(k));
                assert(!(m.items@[k].kind is Launch));
            },
            None => {},
        }
    }
}

/// A printable character is added to the query, Backspace takes the last one off
/// again, and control characters do nothing.
pub proof fn backspace_undoes_typing(m: MenuState, c: u32, after: MenuState)
    requires
        after.query@ == m.typed(c),
    ensures
        (0x20 <= c < 0x7F || 0xA0 <= c < 0xD800 || 0xE000 <= c <= 0x10FFFF) ==> {
            &&& m.typed(c) == m.query@.push(c as char)
            &&& after.typed(8) == m.query@
        },
        (c < 0x20 && c != 8 || 0x7F <= c < 0xA0 || 0xD800 <= c < 0xE000 || c > 0x10FFFF) ==> m.typed(
            c,
        ) == m.query@,
        m.query@.len() == 0 ==> m.typed(8).len() == 0,
{
    if 0x20 <= c < 0x7F || 0xA0 <= c < 0xD800 || 0xE000 <= c <= 0x10FFFF {
        assert(m.query@.push(c as char).drop_last() =~= m.query@);
    }
}

/// The right pane has the user's folder first, then the downloads inside it, the file
/// manager, the control panel, the terminal and the Run window.
pub proof fn the_links_lead_where_they_say(
    user: Seq<char>,
    profile: Seq<char>,
    files: (Seq<char>, Seq<char>),
    terminal: Seq<char>,
)
    ensures
        ({
            let v = right_links(user, profile, files, terminal);
            &&& v.len() == 6
            &&& v[0].label == user && v[0].cmd == profile
            &&& v[1].label == "Downloads"@ && v[1].cmd == v[0].cmd + "\\Downloads"@
            &&& v[2].label == "This PC"@ && (v[2].cmd, v[2].args) == files
            &&& v[3].label == "Control Panel"@ && v[3].cmd == "control.exe"@
            &&& v[4].label == "Terminal"@ && v[4].cmd == terminal
            &&& v[5].cmd == "@startpe:run-dialog"@
            &&& forall|i: int| 0 <= i < 6 && i != 2 ==> (#[trigger] v[i]).args.len() == 0
        }),
{
}

/// The arrow keys are the arrows, and no other key is.
pub proof fn arrow_keys_are_the_arrows(vk: u32)
    ensures
        crate::start_menu::arrow(0x25) == Some(Dir::Left),
        crate::start_menu::arrow(0x26) == Some(Dir::Up),
        crate::start_menu::arrow(0x27) == Some(Dir::Right),
        crate::start_menu::arrow(0x28) == Some(Dir::Down),
        !(0x25 <= vk <= 0x28) ==> crate::start_menu::arrow(vk) is None,
{
}

/// Right on a folder's row opens it; on any other row it does not.
pub proof fn right_opens_a_folder(m: MenuState, i: usize)
    requires
        m.hover == Hit::Row(i),
        i < m.items@.len(),
    ensures
        m.items@[i as int].kind is Folder ==> m.expands(Dir::Right) == Some(Hit::Row(i)),
        !(m.items@[i as int].kind is Folder) ==> m.expands(Dir::Right) is None,
        m.expands(Dir::Left) is None && m.expands(Dir::Up) is None && m.expands(Dir::Down) is None,
{
}

/// Scrolling a row into view moves the list no further than that takes, and not at all
/// where it is in view already.
pub proof fn a_row_in_view_does_not_scroll(m: MenuState, i: int, dpi: i32)
    requires
        m.wf(dpi),
        0 <= i < m.items@.len(),
    ensures
        ({
            let row = px(34, dpi as int);
            let lh = m.list_h(dpi as int);
            &&& (m.scroll <= i * row && (i + 1) * row <= m.scroll + lh) ==> m.scrolled_to(
                i,
                dpi as int,
            ) == m.scroll
            &&& i * row < m.scroll ==> m.scrolled_to(i, dpi as int) == i * row
        }),
{
    m.lemma_metrics(dpi);
    let n = m.items@.len() as int;
    let row = px(ROW as int, dpi as int);
    assert((i + 1) * row == i * row + row && 0 <= i * row && (i + 1) * row <= n * row)
        by (nonlinear_arith)
        requires
            0 <= i < n,
            row >= 0,
    ;
}

/// The list scrolls until its last row is at the bottom, and no further; a list that
/// fits does not scroll.
pub proof fn the_list_scrolls_to_its_end(m: MenuState, dpi: int)
    ensures
        m.items@.len() * px(34, dpi) > m.list_h(dpi) ==> m.scroll_limit(dpi) == m.items@.len() * px(
            34,
            dpi,
        ) - m.list_h(dpi),
        m.items@.len() * px(34, dpi) <= m.list_h(dpi) ==> m.scroll_limit(dpi) == 0,
{
}

/// All apps leaves every folder, clears what is typed, and switches between the pins
/// and everything where there are pins; nothing else that is activated does.
pub proof fn all_apps_switches_the_view(was: MenuState, now: MenuState, hit: Hit)
    requires
        now.follows(was, hit),
    ensures
        hit is AllPrograms ==> {
            &&& now.stack@.len() == 0
            &&& now.query@.len() == 0
            &&& was.pinned@.len() > 0 ==> now.showing_all == !was.showing_all
            &&& was.pinned@.len() == 0 ==> now.showing_all == was.showing_all
        },
        !(hit is AllPrograms) ==> now.query@ == was.query@ && now.showing_all == was.showing_all,
        !(hit is AllPrograms) && !(hit is Row) ==> views(now.stack@) == views(was.stack@),
        now.items == was.items && now.pinned == was.pinned && now.rights == was.rights,
{
    assert(views(now.stack@).len() == now.stack@.len());
}

/// A name that the system does not give is filled in.
pub proof fn missing_names_are_filled_in(s: Option<String>, other: Seq<char>)
    ensures
        s matches Some(t) ==> crate::start_menu::or_else(s, other) == t@,
        s is None ==> crate::start_menu::or_else(s, other) == other,
{
}

/// The menu follows the taskbar: in the middle of the screen over a centered one, and
/// else at the left edge; it is on the screen whenever that can hold it.
pub proof fn the_menu_follows_the_taskbar(width: int, screen_w: int, centered: bool, dpi: int)
    requires
        0 <= width,
        0 <= dpi <= 32767,
    ensures
        ({
            let x = crate::start_menu::open_x(width, screen_w, centered, dpi);
            &&& !centered ==> x == px(8, dpi)
            &&& x >= px(8, dpi)
            &&& width + 2 * px(8, dpi) <= screen_w ==> x + width <= screen_w - px(8, dpi)
            &&& (centered && width + 2 * px(8, dpi) <= screen_w) ==> 0 <= (screen_w - width - x) - x
                <= 1
        }),
{
    lemma_px(8, dpi);
}

} // verus!
