//! What the taskbar is for: which windows share a button, in what order the buttons
//! stand, where everything lies, and what keys and clicks come to.

use vstd::prelude::*;
use vstd::string::*;
use crate::config::ConfigView;
use crate::geometry::{lemma_px, px};
use crate::num::{hex, hex_tells_numbers_apart};
use crate::search::{first, lemma_first_from, lemma_first_is};
use crate::taskbar::input::{
    click_on, hook_answer, on_screen, peek_step, pending_after, right_click_on, show_desktop,
    ClickView, HookAnswer, HookKey, PeekStep, RightClick, WindowStep,
};
use crate::taskbar::{
    bar_fits, button_rect, clock_left, grouped, key_of, keys, lemma_button_windows,
    lemma_key_has_button, lemma_layout, lemma_removed, lemma_reordered_len, lemma_tray_edges,
    lemma_with_key, of_pin, reordered, room, slot_w, start_left, start_w, task_window, tray_left,
    tray_rect, widest, window_key, windows_with, with_key, with_pins, Bar, ButtonView, Hit, PinView,
    SeenView, Taskbar, WindowFacts, TRAY_SLOT,
};
use crate::text::alike;

verus! {

// ---- Windows ----

/// A window without any of what keeps it off the taskbar has a button, and one with
/// any of it has none.
pub proof fn only_real_windows_have_buttons(w: WindowFacts, own: u64)
    ensures
        !w.visible ==> !task_window(w, own),
        w.title_length == 0 ==> !task_window(w, own),
        w.exstyle & 0x80 != 0 ==> !task_window(w, own),
        w.cloaked != 0 ==> !task_window(w, own),
        w.owner != 0 ==> !task_window(w, own),
        w.hwnd == own ==> !task_window(w, own),
        w.class@ == "Progman"@ || w.class@ == "WorkerW"@ || w.class@ == "Shell_TrayWnd"@
            || w.class@ == "StartPE_Taskbar"@ || w.class@ == "StartPE_Menu"@ ==> !task_window(
            w,
            own,
        ),
        (w.rect matches Some(r) && (r.left >= r.right || r.top >= r.bottom)) ==> !task_window(
            w,
            own,
        ),
        (w.visible && w.title_length != 0 && w.exstyle & 0x80 == 0 && w.cloaked == 0 && w.owner == 0
            && w.hwnd != own && (w.rect matches Some(r) ==> r.left < r.right && r.top < r.bottom)
            && w.class@ != "Progman"@ && w.class@ != "WorkerW"@ && w.class@ != "Shell_TrayWnd"@
            && w.class@ != "StartPE_Taskbar"@ && w.class@ != "StartPE_Menu"@) ==> task_window(
            w,
            own,
        ),
{
}

/// The windows of a program, in the order they were listed.
pub open spec fn windows_of_exe(seen: Seq<SeenView>, exe: Seq<char>) -> Seq<u64>
    decreases seen.len(),
{
    if seen.len() == 0 {
        seq![]
    } else if seen.last().exe == Some(exe) {
        windows_of_exe(seen.drop_last(), exe).push(seen.last().hwnd)
    } else {
        windows_of_exe(seen.drop_last(), exe)
    }
}

/// Windows of different programs have different keys: no program's path is written
/// like the key of a window that has none.
pub open spec fn exes_are_paths(seen: Seq<SeenView>) -> bool {
    forall|i: int, hwnd: u64|
        0 <= i < seen.len() && (#[trigger] seen[i]).exe is Some ==> seen[i].exe->0
            != #[trigger] window_key(hwnd)
}

proof fn lemma_windows_of_exe(seen: Seq<SeenView>, exe: Seq<char>)
    requires
        forall|hwnd: u64| exe != #[trigger] window_key(hwnd),
    ensures
        windows_with(seen, true, exe) == windows_of_exe(seen, exe),
    decreases seen.len(),
{
    if seen.len() > 0 {
        lemma_windows_of_exe(seen.drop_last(), exe);
        assert(exe != window_key(seen.last().hwnd));
    }
}

/// With combining, all windows of a program are on one button, in the order they were
/// listed, and no other button has one of them.
pub proof fn windows_of_a_program_share_a_button(seen: Seq<SeenView>, j: int)
    requires
        0 <= j < seen.len(),
        seen[j].exe is Some,
        exes_are_paths(seen),
    ensures
        exists|i: int|
            0 <= i < grouped(seen, true).len() && (#[trigger] grouped(seen, true)[i]).key
                == seen[j].exe->0 && grouped(seen, true)[i].windows == windows_of_exe(
                seen,
                seen[j].exe->0,
            ),
{
    let exe = seen[j].exe->0;
    let i = lemma_key_has_button(seen, true, j);
    lemma_button_windows(seen, true, i);
    assert forall|hwnd: u64| exe != #[trigger] window_key(hwnd) by {
        assert(seen[j].exe is Some);
    }
    lemma_windows_of_exe(seen, exe);
}

proof fn lemma_window_keys(a: u64, b: u64)
    requires
        window_key(a) == window_key(b),
    ensures
        a == b,
{
    let head = "hwnd:0x"@;
    assert(window_key(a).skip(head.len() as int) =~= hex(a as nat));
    assert(window_key(b).skip(head.len() as int) =~= hex(b as nat));
    hex_tells_numbers_apart(a as nat, b as nat);
}

/// Without combining, every window has a button of its own, with its title and icon,
/// in the order the windows are listed.
pub proof fn uncombined_windows_stand_alone(seen: Seq<SeenView>)
    requires
        forall|i: int, j: int|
            0 <= i < j < seen.len() ==> (#[trigger] seen[i]).hwnd != (#[trigger] seen[j]).hwnd,
    ensures
        grouped(seen, false).len() == seen.len(),
        forall|i: int|
            0 <= i < seen.len() ==> {
                let b = #[trigger] grouped(seen, false)[i];
                &&& b.windows == seq![seen[i].hwnd]
                &&& b.title == seen[i].title
                &&& b.icon == seen[i].icon
                &&& b.pinned_exe is None
                &&& b.key == window_key(seen[i].hwnd)
            },
    decreases seen.len(),
{
    if seen.len() > 0 {
        let d = seen.drop_last();
        assert forall|i: int, j: int| 0 <= i < j < d.len() implies (#[trigger] d[i]).hwnd != (
        #[trigger] d[j]).hwnd by {
            assert(seen[i].hwnd != seen[j].hwnd);
        }
        uncombined_windows_stand_alone(d);
        let v = grouped(d, false);
        let w = seen.last();
        lemma_with_key(v, window_key(w.hwnd));
        match with_key(v, window_key(w.hwnd)) {
            Some(k) => {
                assert(v[k].key == window_key(d[k].hwnd));
                lemma_window_keys(d[k].hwnd, w.hwnd);
                assert(seen[k].hwnd != seen[seen.len() - 1].hwnd);
            },
            None => {},
        }
        assert forall|i: int| 0 <= i < seen.len() implies {
            let b = #[trigger] grouped(seen, false)[i];
            &&& b.windows == seq![seen[i].hwnd]
            &&& b.title == seen[i].title
            &&& b.icon == seen[i].icon
            &&& b.pinned_exe is None
            &&& b.key == window_key(seen[i].hwnd)
        } by {
            if i < d.len() {
                assert(grouped(seen, false)[i] == v[i]);
                assert(d[i] == seen[i]);
            }
        }
    }
}

/// A group's button has the title and icon of the window that was listed first.
pub proof fn a_group_is_named_by_its_first_window(seen: Seq<SeenView>, combine: bool, j: int)
    requires
        0 <= j < seen.len(),
        forall|k: int|
            0 <= k < j ==> key_of(#[trigger] seen[k], combine) != key_of(seen[j], combine),
    ensures
        exists|i: int|
            0 <= i < grouped(seen, combine).len() && (#[trigger] grouped(seen, combine)[i]).key
                == key_of(seen[j], combine) && grouped(seen, combine)[i].title == seen[j].title
                && grouped(seen, combine)[i].icon == seen[j].icon && grouped(
                seen,
                combine,
            )[i].windows.len() > 0 && grouped(seen, combine)[i].windows[0] == seen[j].hwnd,
    decreases seen.len(),
{
    let d = seen.drop_last();
    let before = grouped(d, combine);
    let after = grouped(seen, combine);
    let w = seen.last();
    let key = key_of(w, combine);
    lemma_with_key(before, key);
    if j < d.len() {
        assert forall|k: int| 0 <= k < j implies key_of(#[trigger] d[k], combine) != key_of(
            d[j],
            combine,
        ) by {
            assert(key_of(seen[k], combine) != key_of(seen[j], combine));
        }
        a_group_is_named_by_its_first_window(d, combine, j);
        let i = choose|i: int|
            0 <= i < before.len() && (#[trigger] before[i]).key == key_of(d[j], combine)
                && before[i].title == d[j].title && before[i].icon == d[j].icon
                && before[i].windows.len() > 0 && before[i].windows[0] == d[j].hwnd;
        assert(after[i].key == before[i].key);
        assert(after[i].windows[0] == before[i].windows[0]);
    } else {
        match with_key(before, key) {
            Some(i) => {
                let k = crate::taskbar::lemma_button_has_key(d, combine, i);
                assert(key_of(seen[k], combine) != key_of(seen[j], combine));
            },
            None => {
                assert(after[before.len() as int].key == key);
            },
        }
    }
}

// ---- The buttons' order ----

/// Buttons that were there keep their order and come first; those that are new follow
/// in the order they come up. None is lost or made up.
pub proof fn new_buttons_come_last(old_keys: Seq<Seq<char>>, fresh: Seq<ButtonView>)
    requires
        old_keys.no_duplicates(),
        keys(fresh).no_duplicates(),
    ensures
        reordered(old_keys, fresh).len() == fresh.len(),
        keys(reordered(old_keys, fresh)).no_duplicates(),
        forall|b: ButtonView| reordered(old_keys, fresh).contains(b) <==> #[trigger] fresh.contains(b),
        forall|i: int, j: int|
            0 <= i < j < fresh.len() ==> in_new_order(
                old_keys,
                fresh,
                #[trigger] reordered(old_keys, fresh)[i],
                #[trigger] reordered(old_keys, fresh)[j],
            ),
    decreases old_keys.len(),
{
    let r = reordered(old_keys, fresh);
    lemma_reordered_len(old_keys, fresh);
    if old_keys.len() == 0 {
        assert forall|i: int, j: int| 0 <= i < j < fresh.len() implies in_new_order(
            old_keys,
            fresh,
            #[trigger] r[i],
            #[trigger] r[j],
        ) by {
            assert forall|x: int, y: int|
                0 <= x < fresh.len() && 0 <= y < fresh.len() && #[trigger] fresh[x] == r[i]
                    && #[trigger] fresh[y] == r[j] implies x < y by {
                assert(keys(fresh)[x] == keys(fresh)[i]);
                assert(keys(fresh)[y] == keys(fresh)[j]);
            }
        }
    } else {
        let rest = old_keys.skip(1);
        lemma_with_key(fresh, old_keys[0]);
        assert(rest.no_duplicates());
        match with_key(fresh, old_keys[0]) {
            Some(p) => {
                let less = fresh.remove(p);
                assert(keys(less) =~= keys(fresh).remove(p));
                lemma_removed(keys(fresh), p, old_keys[0]);
                new_buttons_come_last(rest, less);
                let t = reordered(rest, less);
                lemma_reordered_len(rest, less);
                assert(r =~= seq![fresh[p]] + t);
                assert forall|i: int| 0 <= i < t.len() implies (#[trigger] t[i]).key != old_keys[0] by {
                    assert(t.contains(t[i]));
                    assert(less.contains(t[i]));
                    let k = choose|k: int| 0 <= k < less.len() && less[k] == t[i];
                    assert(keys(less)[k] == t[i].key);
                    assert(keys(less).contains(t[i].key));
                    lemma_removed(keys(fresh), p, t[i].key);
                    assert(keys(fresh)[p] == old_keys[0]);
                }
                assert forall|i: int, j: int| 0 <= i < j < r.len() implies #[trigger] keys(r)[i]
                    != #[trigger] keys(r)[j] by {
                    if i == 0 {
                        assert(t[j - 1].key != old_keys[0]);
                    } else {
                        assert(keys(t)[i - 1] != keys(t)[j - 1]);
                    }
                }
                assert forall|b: ButtonView| r.contains(b) <==> #[trigger] fresh.contains(b) by {
                    if r.contains(b) {
                        let i = choose|i: int| 0 <= i < r.len() && r[i] == b;
                        if i == 0 {
                            assert(fresh[p] == b);
                        } else {
                            assert(t[i - 1] == b);
                            assert(t.contains(b));
                            assert(less.contains(b));
                            let k = choose|k: int| 0 <= k < less.len() && less[k] == b;
                            let m = if k < p {
                                k
                            } else {
                                k + 1
                            };
                            assert(fresh[m] == b);
                        }
                    }
                    if fresh.contains(b) {
                        let k = choose|k: int| 0 <= k < fresh.len() && fresh[k] == b;
                        if k == p {
                            assert(r[0] == b);
                        } else {
                            let m = if k < p {
                                k
                            } else {
                                k - 1
                            };
                            assert(less[m] == b);
                            assert(less.contains(b));
                            assert(t.contains(b));
                            let i = choose|i: int| 0 <= i < t.len() && t[i] == b;
                            assert(r[i + 1] == b);
                        }
                    }
                }
                assert forall|i: int, j: int| 0 <= i < j < fresh.len() implies in_new_order(
                    old_keys,
                    fresh,
                    #[trigger] r[i],
                    #[trigger] r[j],
                ) by {
                    if i == 0 {
                        assert(t[j - 1].key != old_keys[0]);
                        assert(old_keys[0] == r[0].key);
                        assert(old_keys.contains(r[0].key));
                        assert forall|a: int, b: int|
                            0 <= a < old_keys.len() && 0 <= b < old_keys.len()
                                && #[trigger] old_keys[a] == r[i].key
                                && #[trigger] old_keys[b] == r[j].key implies a < b by {
                        }
                    } else {
                        assert(in_new_order(rest, less, t[i - 1], t[j - 1]));
                        lemma_later_order(old_keys, fresh, p, t[i - 1], t[j - 1]);
                    }
                }
            },
            None => {
                new_buttons_come_last(rest, fresh);
                assert forall|i: int, j: int| 0 <= i < j < fresh.len() implies in_new_order(
                    old_keys,
                    fresh,
                    #[trigger] r[i],
                    #[trigger] r[j],
                ) by {
                    assert(in_new_order(rest, fresh, r[i], r[j]));
                    assert(r.contains(r[i]) && r.contains(r[j]));
                    assert(fresh.contains(r[i]) && fresh.contains(r[j]));
                    assert(r[i].key != old_keys[0] && r[j].key != old_keys[0]);
                    lemma_skip_contains(old_keys, r[i].key);
                    lemma_skip_contains(old_keys, r[j].key);
                    assert forall|a: int, b: int|
                        0 <= a < old_keys.len() && 0 <= b < old_keys.len() && #[trigger] old_keys[a]
                            == r[i].key && #[trigger] old_keys[b] == r[j].key implies a < b by {
                        assert(rest[a - 1] == old_keys[a] && rest[b - 1] == old_keys[b]);
                    }
                }
            },
        }
    }
}

/// `a` may stand before `b`: two old ones as before, an old one before a new one, and
/// two new ones as they come up.
pub open spec fn in_new_order(
    old_keys: Seq<Seq<char>>,
    fresh: Seq<ButtonView>,
    a: ButtonView,
    b: ButtonView,
) -> bool {
    &&& old_keys.contains(b.key) ==> old_keys.contains(a.key)
    &&& forall|i: int, j: int|
        0 <= i < old_keys.len() && 0 <= j < old_keys.len() && #[trigger] old_keys[i] == a.key
            && #[trigger] old_keys[j] == b.key ==> i < j
    &&& (!old_keys.contains(a.key) && !old_keys.contains(b.key)) ==> forall|i: int, j: int|
        0 <= i < fresh.len() && 0 <= j < fresh.len() && #[trigger] fresh[i] == a
            && #[trigger] fresh[j] == b ==> i < j
}

proof fn lemma_skip_contains(s: Seq<Seq<char>>, k: Seq<char>)
    requires
        s.len() > 0,
        k != s[0],
    ensures
        s.skip(1).contains(k) == s.contains(k),
{
    if s.contains(k) {
        let i = choose|i: int| 0 <= i < s.len() && s[i] == k;
        assert(s.skip(1)[i - 1] == k);
    }
    if s.skip(1).contains(k) {
        let i = choose|i: int| 0 <= i < s.skip(1).len() && s.skip(1)[i] == k;
        assert(s[i + 1] == k);
    }
}

proof fn lemma_later_order(
    old_keys: Seq<Seq<char>>,
    fresh: Seq<ButtonView>,
    p: int,
    a: ButtonView,
    b: ButtonView,
)
    requires
        old_keys.len() > 0,
        0 <= p < fresh.len(),
        fresh[p].key == old_keys[0],
        a.key != old_keys[0],
        b.key != old_keys[0],
        in_new_order(old_keys.skip(1), fresh.remove(p), a, b),
    ensures
        in_new_order(old_keys, fresh, a, b),
{
    let rest = old_keys.skip(1);
    let less = fresh.remove(p);
    lemma_skip_contains(old_keys, a.key);
    lemma_skip_contains(old_keys, b.key);
    assert forall|i: int, j: int|
        0 <= i < old_keys.len() && 0 <= j < old_keys.len() && #[trigger] old_keys[i] == a.key
            && #[trigger] old_keys[j] == b.key implies i < j by {
        assert(rest[i - 1] == old_keys[i] && rest[j - 1] == old_keys[j]);
    }
    if !old_keys.contains(a.key) && !old_keys.contains(b.key) {
        assert forall|i: int, j: int|
            0 <= i < fresh.len() && 0 <= j < fresh.len() && #[trigger] fresh[i] == a
                && #[trigger] fresh[j] == b implies i < j by {
            assert(i != p && j != p);
            let x = if i < p {
                i
            } else {
                i - 1
            };
            let y = if j < p {
                j
            } else {
                j - 1
            };
            assert(less[x] == a && less[y] == b);
        }
    }
}

/// A pin whose program has no window is a launch button: without windows, with the
/// pin's own title and icon, and with its program to launch.
pub proof fn an_idle_pin_launches(pins: Seq<PinView>, v: Seq<ButtonView>, k: int)
    requires
        0 <= k < pins.len(),
        forall|i: int| 0 <= i < v.len() ==> !alike((#[trigger] v[i]).key, pins[k].exe),
    ensures
        k < with_pins(pins, v).len(),
        ({
            let b = with_pins(pins, v)[k];
            &&& b.windows.len() == 0
            &&& b.title == pins[k].title
            &&& b.icon == pins[k].icon
            &&& b.pinned_exe == Some(pins[k].exe)
            &&& b.key == pins[k].exe
        }),
    decreases k,
{
    let p = |i: int| alike(v[i].key, pins[0].exe);
    lemma_first_from(0, v.len() as int, p);
    if k == 0 {
        match of_pin(v, pins[0].exe) {
            Some(i) => {
                assert(p(i));
                assert(!alike(v[i].key, pins[k].exe));
            },
            None => {},
        }
    } else {
        match of_pin(v, pins[0].exe) {
            Some(i) => {
                let less = v.remove(i);
                assert forall|j: int| 0 <= j < less.len() implies !alike(
                    (#[trigger] less[j]).key,
                    pins.skip(1)[k - 1].exe,
                ) by {
                    let m = if j < i {
                        j
                    } else {
                        j + 1
                    };
                    assert(!alike(v[m].key, pins[k].exe));
                }
                an_idle_pin_launches(pins.skip(1), less, k - 1);
            },
            None => {
                an_idle_pin_launches(pins.skip(1), v, k - 1);
            },
        }
    }
}

/// The buttons that no pin takes stand behind the pins, in the order they had.
pub proof fn other_buttons_follow_the_pins(pins: Seq<PinView>, v: Seq<ButtonView>)
    requires
        forall|i: int, k: int|
            0 <= i < v.len() && 0 <= k < pins.len() ==> !alike(
                (#[trigger] v[i]).key,
                (#[trigger] pins[k]).exe,
            ),
    ensures
        with_pins(pins, v).len() == pins.len() + v.len(),
        with_pins(pins, v).skip(pins.len() as int) == v,
    decreases pins.len(),
{
    if pins.len() == 0 {
        assert(v.skip(0) =~= v);
    } else {
        let p = |i: int| alike(v[i].key, pins[0].exe);
        lemma_first_from(0, v.len() as int, p);
        match of_pin(v, pins[0].exe) {
            Some(i) => {
                assert(p(i));
                assert(!alike(v[i].key, pins[0].exe));
            },
            None => {},
        }
        let rest = pins.skip(1);
        assert forall|i: int, k: int| 0 <= i < v.len() && 0 <= k < rest.len() implies !alike(
            (#[trigger] v[i]).key,
            (#[trigger] rest[k]).exe,
        ) by {
            assert(!alike(v[i].key, pins[k + 1].exe));
        }
        other_buttons_follow_the_pins(rest, v);
        let r = with_pins(pins, v);
        assert(r.skip(pins.len() as int) =~= with_pins(rest, v).skip(rest.len() as int));
    }
}

// ---- The layout ----

/// Buttons are as wide as is asked for while they all fit, and else share the room
/// there is.
pub proof fn buttons_shrink_only_for_want_of_room(c: ConfigView, b: Bar)
    requires
        bar_fits(c, b),
        b.n > 0,
    ensures
        c.show_labels ==> widest(c, b) == px(c.button_max_width, b.dpi),
        !c.show_labels ==> widest(c, b) == b.height + px(8, b.dpi),
        slot_w(c, b) <= widest(c, b),
        b.n * widest(c, b) <= room(b) ==> slot_w(c, b) == widest(c, b),
        b.n * widest(c, b) > room(b) ==> room(b) - b.n < b.n * slot_w(c, b) <= room(b),
{
    let n = b.n;
    let w = widest(c, b);
    let r = room(b);
    let q = r / n;
    lemma_layout(c, b);
    assert(q * n <= r < q * n + n) by (nonlinear_arith)
        requires
            n > 0,
            q == r / n,
    ;
    if n * w <= r {
        assert(w <= q) by (nonlinear_arith)
            requires
                n * w <= r,
                r < q * n + n,
                n > 0,
        ;
    } else {
        assert(q < w || n * q > r - n) by (nonlinear_arith)
            requires
                n * w > r,
                r < q * n + n,
                n > 0,
        ;
        assert(n * q == q * n) by (nonlinear_arith);
        if slot_w(c, b) == w && w < q {
            assert(n * w <= n * q) by (nonlinear_arith)
                requires
                    w <= q,
                    n > 0,
            ;
        }
    }
}

/// The start button stands at the left edge, or in a centered bar so that what is
/// left of the buttons is within a pixel of what is right of them, as far as the
/// edge and the tray leave room for that.
pub proof fn the_buttons_are_centered_or_left(c: ConfigView, b: Bar)
    requires
        bar_fits(c, b),
    ensures
        !c.center_taskbar ==> start_left(c, b) == 0,
        c.center_taskbar ==> {
            let x = start_left(c, b);
            let all = start_w(b.dpi) + px(4, b.dpi) + b.n * slot_w(c, b);
            let right = tray_left(b.trays, b.width, b.dpi);
            &&& x >= px(4, b.dpi)
            &&& (x + all <= right - px(4, b.dpi) || x == px(4, b.dpi))
            &&& (px(4, b.dpi) < x && x + all < right - px(4, b.dpi)) ==> -1 <= b.width - (x + all) - x
                <= 1
        },
{
}

/// Buttons stand side by side with one gap between them, all of one size, from just
/// behind the start button.
pub proof fn buttons_stand_side_by_side(c: ConfigView, b: Bar, i: int)
    requires
        bar_fits(c, b),
        0 <= i,
        i + 1 < b.n,
    ensures
        button_rect(c, b, 0).left == start_left(c, b) + px(64, b.dpi) + px(4, b.dpi),
        button_rect(c, b, i + 1).left - button_rect(c, b, i).left == slot_w(c, b),
        button_rect(c, b, i).right - button_rect(c, b, i).left == slot_w(c, b) - px(2, b.dpi),
        button_rect(c, b, i + 1).right - button_rect(c, b, i + 1).left == slot_w(c, b) - px(
            2,
            b.dpi,
        ),
        button_rect(c, b, i).top == px(3, b.dpi),
        button_rect(c, b, i).bottom == b.height - px(3, b.dpi),
{
    lemma_layout(c, b);
    lemma_px(64, b.dpi);
    lemma_px(86, b.dpi);
    lemma_px(2, b.dpi);
    lemma_px(3, b.dpi);
    lemma_px(4, b.dpi);
    lemma_px(8, b.dpi);
    lemma_px(24, b.dpi);
    let w = slot_w(c, b);
    assert(w * (i + 1) == w * i + w) by (nonlinear_arith);
    assert(w * 0 == 0) by (nonlinear_arith);
    assert(-0x0800_0000 <= w * i <= 0x1000_0000);
    assert(-0x0800_0000 <= w * (i + 1) <= 0x1000_0000);
}

/// The tray's icons stand side by side, the last of them just left of the clock,
/// which ends at the bar's right edge.
pub proof fn tray_icons_stand_before_the_clock(i: int, n: int, width: int, height: int, dpi: int)
    requires
        0 <= i < n,
        0 <= width <= 0x1000_0000,
        0 <= dpi <= 32767,
        n * px(24, dpi) <= 0x1000_0000,
    ensures
        clock_left(width, dpi) + px(86, dpi) == width,
        tray_rect(n - 1, n, width, height, dpi).right == clock_left(width, dpi) - px(4, dpi),
        i + 1 < n ==> tray_rect(i, n, width, height, dpi).right == tray_rect(
            i + 1,
            n,
            width,
            height,
            dpi,
        ).left,
        tray_rect(i, n, width, height, dpi).right - tray_rect(i, n, width, height, dpi).left == px(
            24,
            dpi,
        ),
{
    lemma_tray_edges(i, n, width, dpi);
    lemma_tray_edges(n - 1, n, width, dpi);
    if i + 1 < n {
        lemma_tray_edges(i + 1, n, width, dpi);
    }
    let s = px(24, dpi);
    assert((n - i) * s == (n - (i + 1)) * s + s) by (nonlinear_arith);
    assert((n - (n - 1)) * s == s) by (nonlinear_arith);
}

/// On the start button it is the start button that is hit, at any height; and a tray
/// icon where neither it nor a task button is.
pub proof fn each_part_is_hit_inside_it(
    t: Taskbar,
    x: int,
    y: int,
    width: int,
    height: int,
    dpi: int,
    i: int,
)
    requires
        0 <= dpi <= 32767,
        t.tray_icons@.len() <= usize::MAX,
    ensures
        t.start_x <= x < t.start_x + px(64, dpi) ==> t.hit(x, y, width, height, dpi) == Hit::Start,
        ({
            let n = t.tray_icons@.len() as int;
            let left = tray_left(n - i, width, dpi);
            (0 <= i < n && left <= x < left + px(24, dpi) && !(t.start_x <= x < t.start_x + px(
                64,
                dpi,
            )) && (forall|k: int|
                0 <= k < t.buttons@.len() ==> !(#[trigger] t.buttons@[k]).rect.has(x, y))) ==> t.hit(
                x,
                y,
                width,
                height,
                dpi,
            ) == Hit::TrayIcon(i as usize)
        }),
{
    let n = t.tray_icons@.len() as int;
    let left = tray_left(n - i, width, dpi);
    if 0 <= i < n && left <= x < left + px(24, dpi) && !(t.start_x <= x < t.start_x + px(64, dpi))
        && (forall|k: int| 0 <= k < t.buttons@.len() ==> !(#[trigger] t.buttons@[k]).rect.has(x, y)) {
        let q = |k: int| t.buttons@[k].rect.has(x, y);
        lemma_first_from(0, t.buttons@.len() as int, q);
        match first(t.buttons@.len() as int, q) {
            Some(k) => {
                assert(q(k));
                assert(!t.buttons@[k].rect.has(x, y));
            },
            None => {},
        }
        let s = px(TRAY_SLOT as int, dpi);
        lemma_px(24, dpi);
        let p = |i: int|
            tray_left(n - i, width, dpi) <= x < tray_left(n - i, width, dpi) + px(
                TRAY_SLOT as int,
                dpi,
            );
        assert(p(i));
        assert forall|j: int| 0 <= j < i implies !(#[trigger] p(j)) by {
            assert((n - j) * s >= (n - i) * s + s) by (nonlinear_arith)
                requires
                    j + 1 <= i,
                    s >= 0,
            ;
        }
        lemma_first_is(0, n, p, i);
    }
}

// ---- Clicks ----

/// A click counts on the part it went down on alone. On a button with windows it goes
/// to them, all of them; on an idle pin it launches the pinned program.
pub proof fn clicks_go_to_what_was_pressed(v: Seq<ButtonView>, pressed: Hit, hit: Hit, i: usize)
    ensures
        pressed != hit ==> click_on(v, pressed, hit) == ClickView::Nothing,
        click_on(v, Hit::Start, Hit::Start) == ClickView::Start,
        click_on(v, Hit::TrayIcon(i), Hit::TrayIcon(i)) == ClickView::Tray(i),
        click_on(v, Hit::Nothing, Hit::Nothing) == ClickView::Nothing,
        (i < v.len() && v[i as int].windows.len() > 0) ==> click_on(v, Hit::Task(i), Hit::Task(i))
            == ClickView::Group(v[i as int].windows),
        (i < v.len() && v[i as int].windows.len() == 0) ==> match v[i as int].pinned_exe {
            Some(exe) => click_on(v, Hit::Task(i), Hit::Task(i)) == ClickView::Launch(exe),
            None => click_on(v, Hit::Task(i), Hit::Task(i)) == ClickView::Nothing,
        },
        right_click_on(Hit::TrayIcon(i)) == RightClick::Tray(i),
        right_click_on(Hit::Start) == RightClick::PowerMenu,
        right_click_on(Hit::Task(i)) == RightClick::TaskbarMenu,
        right_click_on(Hit::Nothing) == RightClick::TaskbarMenu,
{
}

/// Hovering a button opens its previews: at once while previews are up, else after a
/// while; hovering anything else stops the wait.
pub proof fn hovering_a_button_previews_it(i: usize, hit: Hit)
    ensures
        peek_step(Hit::Task(i), true) == PeekStep::Show(i),
        peek_step(Hit::Task(i), false) == PeekStep::StartTimer,
        !(hit is Task) ==> peek_step(hit, true) == PeekStep::StopTimer && peek_step(hit, false)
            == PeekStep::StopTimer,
{
}

// ---- Keys ----

/// Win with R, E, D, X or Pause is kept from everyone else and runs its own action;
/// with any other key it passes on. Letters alone pass on too.
pub proof fn win_combinations_are_handled(pending: bool, k: HookKey)
    requires
        k.code >= 0,
        k.flags & 0x10 == 0,
        k.vk != 0x5B && k.vk != 0x5C,
    ensures
        !k.win_held ==> hook_answer(pending, k) == HookAnswer::Pass,
        (k.message != 0x100 && k.message != 0x104) ==> hook_answer(pending, k) == HookAnswer::Pass,
        (k.win_held && (k.message == 0x100 || k.message == 0x104)) ==> {
            &&& k.vk == 0x52 ==> hook_answer(pending, k) == HookAnswer::Hotkey(1)
            &&& k.vk == 0x45 ==> hook_answer(pending, k) == HookAnswer::Hotkey(2)
            &&& k.vk == 0x44 ==> hook_answer(pending, k) == HookAnswer::Hotkey(3)
            &&& k.vk == 0x58 ==> hook_answer(pending, k) == HookAnswer::Hotkey(4)
            &&& k.vk == 0x13 ==> hook_answer(pending, k) == HookAnswer::Hotkey(5)
            &&& (k.vk != 0x52 && k.vk != 0x45 && k.vk != 0x44 && k.vk != 0x58 && k.vk != 0x13)
                ==> hook_answer(pending, k) == HookAnswer::Pass
        },
{
}

/// Whether a Win key is down with nothing pressed since, after some key events.
pub open spec fn pending_after_all(pending: bool, keys: Seq<HookKey>) -> bool
    decreases keys.len(),
{
    if keys.len() == 0 {
        pending
    } else {
        pending_after(pending_after_all(pending, keys.drop_last()), keys.last())
    }
}

/// The menu opens when a Win key comes up exactly where it went down before and no
/// other key has gone down since. Keys coming up in between, and keys that a program
/// injected, do not matter.
pub proof fn a_win_tap_opens_the_menu(press: HookKey, keys: Seq<HookKey>, release: HookKey)
    requires
        press.code >= 0 && press.flags & 0x10 == 0 && (press.vk == 0x5B || press.vk == 0x5C) && (
        press.message == 0x100 || press.message == 0x104),
        release.code >= 0 && release.flags & 0x10 == 0 && (release.vk == 0x5B || release.vk
            == 0x5C) && release.message != 0x100 && release.message != 0x104,
        forall|i: int| 0 <= i < keys.len() ==> (#[trigger] keys[i]).vk != 0x5B && keys[i].vk != 0x5C,
    ensures
        ({
            let pending = pending_after_all(pending_after(false, press), keys);
            let bare = forall|i: int|
                0 <= i < keys.len() ==> !((#[trigger] keys[i]).code >= 0 && keys[i].flags & 0x10 == 0
                    && (keys[i].message == 0x100 || keys[i].message == 0x104));
            &&& pending == bare
            &&& hook_answer(pending, release) == if bare {
                HookAnswer::Tap(release.vk as u16)
            } else {
                HookAnswer::Pass
            }
        }),
    decreases keys.len(),
{
    if keys.len() > 0 {
        let d = keys.drop_last();
        assert forall|i: int| 0 <= i < d.len() implies (#[trigger] d[i]).vk != 0x5B && d[i].vk != 0x5C by {
            assert(d[i] == keys[i]);
        }
        a_win_tap_opens_the_menu(press, d, release);
        let last = keys[keys.len() - 1];
        let pressed = |k: HookKey|
            k.code >= 0 && k.flags & 0x10 == 0 && (k.message == 0x100 || k.message == 0x104);
        if pending_after_all(pending_after(false, press), keys) {
            assert forall|i: int| 0 <= i < keys.len() implies !((#[trigger] keys[i]).code >= 0
                && keys[i].flags & 0x10 == 0 && (keys[i].message == 0x100 || keys[i].message
                == 0x104)) by {
                if i < d.len() {
                    assert(d[i] == keys[i]);
                }
            }
        } else if !pressed(last) {
            let i = choose|i: int|
                0 <= i < d.len() && ((#[trigger] d[i]).code >= 0 && d[i].flags & 0x10 == 0 && (
                d[i].message == 0x100 || d[i].message == 0x104));
            assert(keys[i] == d[i]);
        } else {
            assert(keys[keys.len() - 1] == last);
        }
    }
}

// ---- Show desktop ----

/// The first press minimizes exactly the windows that are on screen, each once, and
/// remembers them; what was not on screen is left alone.
pub proof fn show_desktop_minimizes_what_is_on_screen(windows: Seq<u64>, shown: Seq<bool>)
    requires
        shown.len() == windows.len(),
    ensures
        ({
            let (kept, steps) = show_desktop(seq![], windows, shown);
            &&& steps.len() == kept.len()
            &&& forall|i: int|
                0 <= i < steps.len() ==> #[trigger] steps[i] == WindowStep::Minimize(kept[i])
            &&& forall|h: u64|
                #[trigger] kept.contains(h) <==> exists|i: int|
                    0 <= i < windows.len() && shown[i] && #[trigger] windows[i] == h
        }),
{
    lemma_on_screen(windows, shown);
}

proof fn lemma_on_screen(windows: Seq<u64>, shown: Seq<bool>)
    requires
        windows.len() <= shown.len(),
    ensures
        forall|h: u64|
            #[trigger] on_screen(windows, shown).contains(h) <==> exists|i: int|
                0 <= i < windows.len() && shown[i] && #[trigger] windows[i] == h,
    decreases windows.len(),
{
    if windows.len() > 0 {
        let d = windows.drop_last();
        lemma_on_screen(d, shown);
        let before = on_screen(d, shown);
        let r = on_screen(windows, shown);
        let n = windows.len() - 1;
        assert forall|h: u64|
            #[trigger] r.contains(h) <==> exists|i: int|
                0 <= i < windows.len() && shown[i] && #[trigger] windows[i] == h by {
            if r.contains(h) {
                let k = choose|k: int| 0 <= k < r.len() && r[k] == h;
                if k < before.len() {
                    assert(before[k] == h);
                    assert(before.contains(h));
                    let i = choose|i: int| 0 <= i < d.len() && shown[i] && #[trigger] d[i] == h;
                    assert(windows[i] == h);
                } else {
                    assert(windows[n] == h);
                }
            }
            if exists|i: int| 0 <= i < windows.len() && shown[i] && #[trigger] windows[i] == h {
                let i = choose|i: int|
                    0 <= i < windows.len() && shown[i] && #[trigger] windows[i] == h;
                if i < n {
                    assert(d[i] == h);
                    assert(before.contains(h));
                    let k = choose|k: int| 0 <= k < before.len() && before[k] == h;
                    assert(r[k] == h);
                } else {
                    assert(r[before.len() as int] == h);
                }
            }
        }
    }
}

// ---- Icons and files ----

/// A window's button has the icon that the window publishes, and else that of its
/// program's file.
pub proof fn a_windows_own_icon_wins(w: crate::taskbar::Seen)
    ensures
        w.icon is Some ==> w@.icon == w.icon,
        (w.icon is None && w.exe is Some) ==> w@.icon == w.exe_icon,
        w@.hwnd == w.hwnd && w@.title == w.title@,
        w@.exe is Some == w.exe is Some,
{
}

/// The configured file manager is opened as it is, and without one Explorer is, on
/// This PC.
pub proof fn the_configured_file_manager_wins(c: ConfigView)
    ensures
        c.file_manager matches Some(f) ==> crate::taskbar::input::file_manager_of(c).0 == f
            && crate::taskbar::input::file_manager_of(c).1.len() == 0,
        c.file_manager is None ==> crate::taskbar::input::file_manager_of(c) == (
            "explorer.exe"@,
            "shell:MyComputerFolder"@,
        ),
{
}

/// A window belongs to Explorer exactly where its program is one called explorer.exe,
/// in whatever folder.
pub proof fn explorer_is_known_by_its_name(dir: Seq<char>, other: Seq<char>)
    ensures
        crate::taskbar::input::explorer_exe(Some(dir + "\\explorer.exe"@)),
        !crate::taskbar::input::explorer_exe(None),
        (other.len() > 0 && other.last() != 'e') ==> !crate::taskbar::input::explorer_exe(
            Some(other),
        ),
{
    reveal_strlit("\\explorer.exe");
    let tail = "\\explorer.exe"@;
    let p = dir + tail;
    assert(p.skip(p.len() - tail.len()) =~= tail);
    if other.len() > 0 && other.last() != 'e' && tail.len() <= other.len() {
        let end = other.skip(other.len() - tail.len());
        assert(end[tail.len() - 1] == other.last());
        assert(tail[tail.len() - 1] == 'e');
    }
}

/// All windows of the buttons are the taskbar's windows, button by button.
pub proof fn the_bars_windows_are_those_of_its_buttons(t: Taskbar, n: int, i: int, h: u64)
    requires
        0 <= i < n <= t.buttons@.len(),
        t.buttons@[i].windows@.contains(h),
    ensures
        t.windows_upto(n).contains(h),
    decreases n,
{
    let before = t.windows_upto(n - 1);
    let last = t.buttons@[n - 1].windows@;
    if i < n - 1 {
        the_bars_windows_are_those_of_its_buttons(t, n - 1, i, h);
        let k = choose|k: int| 0 <= k < before.len() && before[k] == h;
        assert((before + last)[k] == h);
    } else {
        let k = choose|k: int| 0 <= k < last.len() && last[k] == h;
        assert((before + last)[before.len() + k] == h);
    }
}

/// An icon that was kept for a program is found again, the first of them, and none for
/// another program.
pub proof fn kept_icons_are_found_again(c: crate::taskbar::input::IconCache, exe: String, i: int)
    requires
        0 <= i < c.entries@.len(),
        c.entries@[i].0@ == exe@,
        forall|k: int| 0 <= k < i ==> (#[trigger] c.entries@[k]).0@ != exe@,
    ensures
        c.icon_of(exe@) == Some(c.entries@[i].1),
{
    let p = |i: int| c.entries@[i].0@ == exe@;
    assert(p(i));
    assert forall|k: int| 0 <= k < i implies !(#[trigger] p(k)) by {
        assert(c.entries@[k].0@ != exe@);
    }
    lemma_first_is(0, c.entries@.len() as int, p, i);
}

/// A window in an application frame belongs to the program inside the frame, where
/// that is known; every other window to its own.
pub proof fn framed_windows_belong_to_their_program(
    class: Seq<char>,
    core: Option<Seq<char>>,
    own: Option<Seq<char>>,
)
    ensures
        (class == "ApplicationFrameWindow"@ && core is Some) ==> crate::taskbar::real_exe(
            class,
            core,
            own,
        ) == core,
        (class != "ApplicationFrameWindow"@ || core is None) ==> crate::taskbar::real_exe(
            class,
            core,
            own,
        ) == own,
{
}

} // verus!
