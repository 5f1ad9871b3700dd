use startpe::taskbar::input::WindowStep::{Foreground, Minimize, Restore};
use startpe::config::Config;
use startpe::geometry::Rect;
use startpe::paint::{Draw, Font};
use startpe::taskbar::input::{
    activate_group, activate_window, dock_rect, docked, explorer_shell_ready, find_explorer_window,
    hide_explorer_taskbar, is_explorer_window, needs_dock, open_file_manager, run_hotkey,
    show_explorer_taskbar, tap_strokes, toggle_show_desktop, wait_for_explorer_shell_ready, win_hotkey,
    win_key_hook, work_area, Click, HookAnswer, HookKey, HotkeyAction, IconCache, KeyStroke, PeekStep,
    RightClick,
    TrayStep,
};
use startpe::taskbar::painting::{clock_date, clock_time};
use startpe::taskbar::{
    clock_rect, effective_exe, is_task_window, start_rect_at, tray_icon_rect, window_icon, Hit, Pin,
    Seen, Taskbar, WindowFacts, COL_ACCENT, COL_ACTIVE, COL_BG, COL_HOVER, COL_TEXT_DIM,
};

fn facts() -> WindowFacts {
    WindowFacts {
        hwnd: 5,
        visible: true,
        title_length: 3,
        exstyle: 0,
        cloaked: 0,
        rect: Some(Rect { left: 0, top: 0, right: 10, bottom: 10 }),
        owner: 0,
        class: "Notepad".to_string(),
    }
}

fn seen(hwnd: u64, exe: &str, title: &str) -> Seen {
    Seen {
        hwnd,
        exe: if exe.is_empty() { None } else { Some(exe.to_string()) },
        title: title.to_string(),
        icon: None,
        exe_icon: Some(hwnd + 1000),
    }
}

fn pin(exe: &str) -> Pin {
    Pin { exe: exe.to_string(), title: format!("T {exe}"), icon: Some(7) }
}

fn bar(combine: bool, center: bool) -> Taskbar {
    let mut c = Config::default();
    c.combine = combine;
    c.center_taskbar = center;
    Taskbar::create(c, 99)
}

fn keys(t: &Taskbar) -> Vec<String> {
    t.buttons.iter().map(|b| b.key.clone()).collect()
}

#[test]
fn task_windows_are_the_real_ones() {
    assert!(is_task_window(&facts(), 1));
    assert!(!is_task_window(&facts(), 5));
    for f in [
        |w: &mut WindowFacts| w.visible = false,
        |w: &mut WindowFacts| w.title_length = 0,
        |w: &mut WindowFacts| w.exstyle = 0x80,
        |w: &mut WindowFacts| w.cloaked = 2,
        |w: &mut WindowFacts| w.rect = Some(Rect { left: 3, top: 0, right: 3, bottom: 9 }),
        |w: &mut WindowFacts| w.owner = 8,
        |w: &mut WindowFacts| w.class = "StartPE_Menu".to_string(),
        |w: &mut WindowFacts| w.class = "WorkerW".to_string(),
    ] {
        let mut w = facts();
        f(&mut w);
        assert!(!is_task_window(&w, 1));
    }
    let mut w = facts();
    w.rect = None;
    assert!(is_task_window(&w, 1));
}

#[test]
fn frames_belong_to_their_core_window() {
    let own = Some("host.exe".to_string());
    let core = Some("settings.exe".to_string());
    assert_eq!(effective_exe("ApplicationFrameWindow", &core, &own).as_deref(), Some("settings.exe"));
    assert_eq!(effective_exe("ApplicationFrameWindow", &None, &own).as_deref(), Some("host.exe"));
    assert_eq!(effective_exe("Other", &core, &own).as_deref(), Some("host.exe"));
    assert_eq!(window_icon(&vec![0, 0, 4, 5]), Some(4));
    assert_eq!(window_icon(&vec![0, 0]), None);
}

#[test]
fn windows_of_one_exe_share_a_button() {
    let mut t = bar(true, false);
    let v = vec![seen(1, "a", "A1"), seen(2, "b", "B"), seen(3, "a", "A2"), seen(4, "", "N")];
    t.refresh_buttons(&v, &vec![], vec![], 1000, 40, 96);
    assert_eq!(keys(&t), vec!["a", "b", "hwnd:0x4"]);
    assert_eq!(t.buttons[0].windows, vec![1, 3]);
    assert_eq!(t.buttons[0].title, "A1");
    assert_eq!(t.buttons[0].icon, Some(1001));
    assert_eq!(t.buttons[2].icon, None);
    let mut s = bar(false, false);
    s.refresh_buttons(&v, &vec![], vec![], 1000, 40, 96);
    assert_eq!(keys(&s), vec!["hwnd:0x1", "hwnd:0x2", "hwnd:0x3", "hwnd:0x4"]);
}

#[test]
fn buttons_keep_their_order() {
    let mut t = bar(true, false);
    t.refresh_buttons(&vec![seen(1, "a", ""), seen(2, "b", ""), seen(3, "c", "")], &vec![], vec![], 1000, 40, 96);
    t.refresh_buttons(&vec![seen(3, "c", ""), seen(1, "a", ""), seen(2, "b", "")], &vec![], vec![], 1000, 40, 96);
    assert_eq!(keys(&t), vec!["a", "b", "c"]);
    t.refresh_buttons(&vec![seen(9, "z", ""), seen(3, "c", ""), seen(1, "a", "")], &vec![], vec![], 1000, 40, 96);
    assert_eq!(keys(&t), vec!["a", "c", "z"]);
}

#[test]
fn pinned_programs_stand_first() {
    let mut t = bar(true, false);
    let v = vec![seen(1, "x:\\a.exe", "A"), seen(2, "x:\\b.exe", "B")];
    let pins = vec![pin("X:\\Idle.exe"), pin("X:\\B.exe")];
    t.refresh_buttons(&v, &pins, vec![], 1000, 40, 96);
    assert_eq!(keys(&t), vec!["X:\\Idle.exe", "x:\\b.exe", "x:\\a.exe"]);
    assert_eq!(t.buttons[0].windows.len(), 0);
    assert_eq!(t.buttons[0].title, "T X:\\Idle.exe");
    assert_eq!(t.buttons[0].pinned_exe.as_deref(), Some("X:\\Idle.exe"));
    assert_eq!(t.buttons[1].pinned_exe.as_deref(), Some("X:\\B.exe"));
    assert_eq!(t.buttons[2].pinned_exe, None);
    let mut all: Vec<u64> = t.task_windows();
    all.sort();
    assert_eq!(all, vec![1, 2]);
}

#[test]
fn layout_has_exact_places() {
    let mut t = bar(true, false);
    t.refresh_buttons(&vec![seen(1, "a", ""), seen(2, "b", "")], &vec![], vec![7, 0], 1000, 40, 96);
    assert_eq!(t.start_x, 0);
    assert_eq!(t.buttons[0].rect, Rect { left: 68, top: 3, right: 114, bottom: 37 });
    assert_eq!(t.buttons[1].rect, Rect { left: 116, top: 3, right: 162, bottom: 37 });
    assert_eq!(clock_rect(1000, 40, 96), Rect { left: 914, top: 0, right: 1000, bottom: 40 });
    assert_eq!(tray_icon_rect(0, 2, 1000, 40, 96), Rect { left: 862, top: 0, right: 886, bottom: 40 });
    assert_eq!(tray_icon_rect(1, 2, 1000, 40, 96), Rect { left: 886, top: 0, right: 910, bottom: 40 });
    assert_eq!(start_rect_at(10, 40, 96), Rect { left: 10, top: 0, right: 74, bottom: 40 });
    let mut c = bar(true, true);
    c.refresh_buttons(&vec![seen(1, "a", ""), seen(2, "b", "")], &vec![], vec![], 1000, 40, 96);
    // 64 + 4 + 2 * 48 pixels in the middle of 1000.
    assert_eq!(c.start_x, 418);
}

#[test]
fn many_buttons_shrink_and_stay_left_of_the_tray() {
    let mut t = bar(false, true);
    let v: Vec<Seen> = (0..200).map(|i| seen(i, "", "")).collect();
    t.refresh_buttons(&v, &vec![], vec![1; 10], 1000, 40, 96);
    let tray = tray_icon_rect(0, 10, 1000, 40, 96).left;
    assert!(t.buttons.iter().all(|b| b.rect.right <= tray && b.rect.left >= t.start_x + 64));
    for w in t.buttons.windows(2) {
        assert!(w[0].rect.right <= w[1].rect.left);
    }
}

#[test]
fn hits_find_the_part_under_the_mouse() {
    let mut t = bar(true, false);
    t.refresh_buttons(&vec![seen(1, "a", ""), seen(2, "b", "")], &vec![], vec![7, 8], 1000, 40, 96);
    assert_eq!(t.hit_test(5, 1000, 1000, 40, 96), Hit::Start);
    assert_eq!(t.hit_test(70, 10, 1000, 40, 96), Hit::Task(0));
    assert_eq!(t.hit_test(120, 36, 1000, 40, 96), Hit::Task(1));
    assert_eq!(t.hit_test(120, 37, 1000, 40, 96), Hit::Nothing);
    assert_eq!(t.hit_test(115, 10, 1000, 40, 96), Hit::Nothing);
    assert_eq!(t.hit_test(863, 99, 1000, 40, 96), Hit::TrayIcon(0));
    assert_eq!(t.hit_test(909, 0, 1000, 40, 96), Hit::TrayIcon(1));
    assert_eq!(t.hit_test(912, 0, 1000, 40, 96), Hit::Nothing);
    assert_eq!(t.on_right_up(863, 5, 1000, 40, 96), RightClick::Tray(0));
    assert_eq!(t.on_right_up(5, 5, 1000, 40, 96), RightClick::PowerMenu);
    assert_eq!(t.on_right_up(70, 10, 1000, 40, 96), RightClick::TaskbarMenu);
    assert_eq!(t.on_right_up(115, 10, 1000, 40, 96), RightClick::TaskbarMenu);
}

#[test]
fn clicks_count_on_the_pressed_part() {
    let mut t = bar(true, false);
    t.refresh_buttons(&vec![seen(1, "a", ""), seen(2, "a", "")], &vec![pin("idle.exe")], vec![7], 1000, 40, 96);
    t.on_button_down(5, 5, 1000, 40, 96);
    assert!(matches!(t.on_button_up(70, 10, 1000, 40, 96), Click::Nothing));
    assert_eq!(t.pressed, Hit::Nothing);
    t.on_button_down(5, 5, 1000, 40, 96);
    assert!(matches!(t.on_button_up(6, 6, 1000, 40, 96), Click::Start));
    t.on_button_down(70, 10, 1000, 40, 96);
    assert!(matches!(t.on_button_up(70, 10, 1000, 40, 96), Click::Launch(s) if s == "idle.exe"));
    t.on_button_down(120, 10, 1000, 40, 96);
    assert!(matches!(t.on_button_up(120, 10, 1000, 40, 96), Click::Group(v) if v == vec![1, 2]));
    t.on_button_down(890, 10, 1000, 40, 96);
    assert!(matches!(t.on_button_up(890, 10, 1000, 40, 96), Click::Tray(0)));
}

#[test]
fn hovering_opens_a_peek_later_or_at_once() {
    let mut t = bar(true, false);
    t.refresh_buttons(&vec![seen(1, "a", "")], &vec![], vec![], 1000, 40, 96);
    let a = t.on_mouse_move(70, 10, 1000, 40, 96, false);
    assert!(a.track && a.repaint && a.peek == PeekStep::StartTimer);
    let b = t.on_mouse_move(71, 10, 1000, 40, 96, false);
    assert!(!b.track && !b.repaint && b.peek == PeekStep::Keep);
    assert_eq!(t.on_peek_timer(), Some(0));
    let c = t.on_mouse_move(500, 10, 1000, 40, 96, true);
    assert_eq!(c.peek, PeekStep::StopTimer);
    assert_eq!(t.on_peek_timer(), None);
    let d = t.on_mouse_move(70, 10, 1000, 40, 96, true);
    assert_eq!(d.peek, PeekStep::Show(0));
    t.on_mouse_leave();
    assert_eq!(t.hover, Hit::Nothing);
    assert!(!t.tracking_mouse);
    let p = t.peek_request(0, Rect { left: 100, top: 900, right: 1100, bottom: 940 }).unwrap();
    assert_eq!(p.windows, vec![1]);
    assert_eq!(p.anchor, Rect { left: 168, top: 900, right: 214, bottom: 940 });
    assert_eq!(p.taskbar_top, 900);
    assert!(t.peek_request(1, p.anchor).is_none());
}

#[test]
fn a_single_window_toggles_and_a_group_cycles() {
    assert_eq!(activate_window(4, true, 4), vec![Restore(4), Foreground(4)]);
    assert_eq!(activate_window(4, false, 4), vec![Minimize(4)]);
    assert_eq!(activate_window(4, false, 5), vec![Foreground(4)]);
    assert_eq!(activate_group(&vec![], &vec![], 1), vec![]);
    assert_eq!(activate_group(&vec![4], &vec![false], 4), vec![Minimize(4)]);
    let g = vec![4, 5, 6];
    assert_eq!(activate_group(&g, &vec![false, true, false], 4), vec![Restore(5), Foreground(5)]);
    assert_eq!(activate_group(&g, &vec![false, false, false], 6), vec![Foreground(4)]);
    assert_eq!(activate_group(&g, &vec![true, false, false], 9), vec![Restore(4), Foreground(4)]);
}

#[test]
fn show_desktop_restores_what_it_minimized() {
    let mut m = vec![];
    let first = toggle_show_desktop(&mut m, &vec![1, 2, 3], &vec![true, false, true]);
    assert_eq!(first, vec![Minimize(1), Minimize(3)]);
    let second = toggle_show_desktop(&mut m, &vec![1, 2, 3, 9], &vec![true; 4]);
    assert_eq!(second, vec![Restore(1), Restore(3)]);
    assert!(m.is_empty());
}

fn press(vk: u32, down: bool, held: bool) -> HookKey {
    HookKey { code: 0, message: if down { 0x100 } else { 0x101 }, vk, flags: 0, win_held: held }
}

#[test]
fn a_bare_win_tap_opens_the_menu() {
    let mut p = false;
    assert_eq!(win_key_hook(&mut p, press(0x5B, true, false)), HookAnswer::Pass);
    assert_eq!(win_key_hook(&mut p, press(0x5B, false, true)), HookAnswer::Tap(0x5B));
    assert!(!p);
    win_key_hook(&mut p, press(0x5C, true, false));
    assert_eq!(win_key_hook(&mut p, press(0x41, true, true)), HookAnswer::Pass);
    assert_eq!(win_key_hook(&mut p, press(0x5C, false, true)), HookAnswer::Pass);
    let mut injected = press(0x5B, true, false);
    injected.flags = 0x10;
    assert_eq!(win_key_hook(&mut p, injected), HookAnswer::Pass);
    assert!(!p);
    assert_eq!(
        tap_strokes(0x5B),
        vec![
            KeyStroke { vk: 0xFF, up: false },
            KeyStroke { vk: 0xFF, up: true },
            KeyStroke { vk: 0x5B, up: true }
        ]
    );
}

#[test]
fn win_hotkeys() {
    let mut p = true;
    assert_eq!(win_key_hook(&mut p, press(0x52, true, true)), HookAnswer::Hotkey(1));
    assert_eq!(win_key_hook(&mut p, press(0x52, true, false)), HookAnswer::Pass);
    assert_eq!(win_hotkey(0x45), Some(2));
    assert_eq!(win_hotkey(0x44), Some(3));
    assert_eq!(win_hotkey(0x58), Some(4));
    assert_eq!(win_hotkey(0x13), Some(5));
    assert_eq!(win_hotkey(0x46), None);
    let mut c = Config::default();
    assert!(matches!(run_hotkey(1, &c), HotkeyAction::RunWindow));
    assert!(matches!(run_hotkey(2, &c), HotkeyAction::Run(r) if r.program == "explorer.exe" && r.args == "shell:MyComputerFolder"));
    assert!(matches!(run_hotkey(3, &c), HotkeyAction::ShowDesktop));
    assert!(matches!(run_hotkey(4, &c), HotkeyAction::PowerMenu));
    assert!(matches!(run_hotkey(5, &c), HotkeyAction::SystemInfo));
    assert!(matches!(run_hotkey(6, &c), HotkeyAction::Ignore));
    c.file_manager = Some("eden.exe".to_string());
    let f = open_file_manager(&c);
    assert_eq!((f.program.as_str(), f.args.as_str()), ("eden.exe", ""));
}

#[test]
fn docking_owns_the_bottom_edge() {
    assert_eq!(dock_rect(1920, 1080, 40), Rect { left: 0, top: 1040, right: 1920, bottom: 1080 });
    let offered = Rect { left: 0, top: 1000, right: 1920, bottom: 1040 };
    assert!(needs_dock(offered, 1080, 40));
    let d = docked(offered, 1080, 40);
    assert_eq!(d, Rect { left: 0, top: 1040, right: 1920, bottom: 1080 });
    assert!(!needs_dock(d, 1080, 40));
    assert_eq!(work_area(1920, 1080, 40), Rect { left: 0, top: 0, right: 1920, bottom: 1040 });
}

#[test]
fn explorers_windows_are_told_apart() {
    let ex = Some("c:\\windows\\explorer.exe".to_string());
    assert!(is_explorer_window(&ex));
    assert!(!is_explorer_window(&Some("explorer.exe".to_string())));
    assert!(!is_explorer_window(&None));
    assert_eq!(find_explorer_window(&vec![None, ex.clone(), ex.clone()]), Some(1));
    assert_eq!(find_explorer_window(&vec![None]), None);
    assert!(explorer_shell_ready(4, &ex, 5));
    assert!(!explorer_shell_ready(4, &ex, 0));
    assert!(!explorer_shell_ready(0, &ex, 5));
    assert!(wait_for_explorer_shell_ready(59_999, 60_000, false));
    assert!(!wait_for_explorer_shell_ready(60_000, 60_000, false));
    assert!(!wait_for_explorer_shell_ready(0, 60_000, true));
    assert_eq!(hide_explorer_taskbar(true, false), None);
    assert_eq!(hide_explorer_taskbar(true, true), Some(TrayStep { autohide: Some(true), show: false }));
    assert_eq!(hide_explorer_taskbar(false, true), Some(TrayStep { autohide: None, show: false }));
    assert_eq!(show_explorer_taskbar(true), TrayStep { autohide: Some(false), show: true });
}

#[test]
fn extracted_icons_are_kept() {
    let mut c = IconCache::new();
    assert_eq!(c.get("a"), None);
    c.put("a", 5);
    c.put("b", 6);
    c.put("a", 7);
    assert_eq!((c.get("a"), c.get("b"), c.get("A")), (Some(5), Some(6), None));
}

#[test]
fn the_clock_is_padded() {
    assert_eq!(clock_time(7, 5), "07:05");
    assert_eq!(clock_date(2024, 3, 9), "2024-03-09");
}

#[test]
fn the_bar_is_drawn_back_to_front() {
    let mut t = bar(true, false);
    t.refresh_buttons(&vec![seen(1, "a", ""), seen(2, "a", ""), seen(3, "b", "")], &vec![], vec![0, 9], 1000, 40, 96);
    t.hover = Hit::Start;
    let v = t.paint(3, "07:05", "2024-03-09", 1000, 40, 96);
    assert!(matches!(v[0], Draw::Fill { color: COL_BG, rect } if rect == Rect { left: 0, top: 0, right: 1000, bottom: 40 }));
    assert!(matches!(v[1], Draw::Fill { color: COL_HOVER, .. }));
    assert!(matches!(v[2], Draw::Fill { color: 0xE65AB4, rect } if rect == Rect { left: 24, top: 12, right: 31, bottom: 19 }));
    assert!(matches!(v[5], Draw::Fill { rect, .. } if rect == Rect { left: 33, top: 21, right: 40, bottom: 28 }));
    // Two segments, then the icon; the second button is active.
    assert!(matches!(v[6], Draw::Fill { color: COL_TEXT_DIM, rect } if rect == Rect { left: 68, top: 35, right: 90, bottom: 37 }));
    assert!(matches!(v[7], Draw::Fill { rect, .. } if rect == Rect { left: 92, top: 35, right: 114, bottom: 37 }));
    assert!(matches!(v[8], Draw::Icon { icon: 1001, x: 79, y: 7, size: 24 }));
    assert!(matches!(v[9], Draw::Fill { color: COL_ACTIVE, .. }));
    assert!(matches!(v[10], Draw::Fill { color: COL_ACCENT, .. }));
    assert!(matches!(v[11], Draw::Icon { icon: 1003, .. }));
    assert!(matches!(v[12], Draw::Icon { icon: 9, x: 890, y: 12, size: 16 }));
    assert!(matches!(&v[13], Draw::Text { font: Font::Text, text, rect, .. } if text == "07:05" && *rect == Rect { left: 914, top: 3, right: 992, bottom: 20 }));
    assert!(matches!(&v[14], Draw::Text { font: Font::Small, text, .. } if text == "2024-03-09"));
    assert_eq!(v.len(), 15);
}

#[test]
fn labels_stand_beside_the_icon() {
    let mut t = bar(true, false);
    t.cfg.show_labels = true;
    t.refresh_buttons(&vec![seen(1, "a", "Notes")], &vec![], vec![], 1000, 40, 96);
    assert_eq!(t.buttons[0].rect.right - t.buttons[0].rect.left, 218);
    let v = t.paint(0, "", "", 1000, 40, 96);
    assert!(matches!(v[6], Draw::Icon { x: 74, y: 12, size: 16, .. }));
    assert!(matches!(&v[7], Draw::Text { text, rect, .. } if text == "Notes" && rect.left == 96 && rect.right == 282));
}

#[test]
fn a_pinned_program_keeps_its_windows_together() {
    let mut t = bar(true, false);
    let windows = vec![seen(4, "x:\\b.exe", ""), seen(1, "x:\\a.exe", ""), seen(5, "x:\\b.exe", ""), seen(2, "x:\\a.exe", "")];
    let pins = vec![pin("X:\\idle.exe"), pin("X:\\A.EXE")];
    t.refresh_buttons(&windows, &pins, vec![], 1000, 40, 96);
    let got: Vec<(Vec<u64>, bool)> = t.buttons.iter().map(|b| (b.windows.clone(), b.pinned_exe.is_some())).collect();
    assert_eq!(got, vec![(vec![], true), (vec![1, 2], true), (vec![4, 5], false)]);
}
