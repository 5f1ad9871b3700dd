use startpe::border::{position, visible_rect, Act, Border};
use startpe::config::Config;
use startpe::darkmode::{
    allow_window, apply_app_theme, dark_dialog, init, light_value, log_status, os_build, Plan as DarkPlan,
};
use startpe::desktop::{
    apply_layout, capture_layout, cover_crop, create_if_needed, desktop_plan, dragged_group, is_bitmap, keep_waiting,
    layout_path, pack_position, resolve_wallpaper_path, snap_to_grid, view_choices, Down, DragState, Icon,
    LayoutState, Move, Placed, Plan, Point, Tick, Up, ViewKind,
};
use startpe::desktop_filter::{is_junction, Batch, NETWORK};
use startpe::dwm_border::{borderable, ring_color, set_enabled, FrameFacts, State as DwmState, Switch, Tint, GRAY};
use startpe::geometry::Rect;
use startpe::network::{
    helper_exe, launch_helper, open_settings, poll, probe, toggle_flyout, Adapter, Delivery, NetStatus, Probe,
};
use startpe::paint::Draw;
use startpe::peek::{thumb_rect, Action, Hit as PeekHit, PeekEntry, PeekState};
use startpe::settings::{hit_close, rgb, swatch, Act as SettingsAct, Hover as SettingsHover, Row, State as Pane};
use startpe::taskman::Taskman;
use startpe::tray::{announces_again, click_messages, parse, route, Target, TrayState};

fn r(left: i32, top: i32, right: i32, bottom: i32) -> Rect {
    Rect { left, top, right, bottom }
}

// ---- Tray ----

fn message(code: u32, owner: u32, uid: u32, flags: u32) -> Vec<u8> {
    let mut m = vec![0u8; 8 + 956];
    m[4..8].copy_from_slice(&code.to_le_bytes());
    m[12..16].copy_from_slice(&owner.to_le_bytes());
    m[16..20].copy_from_slice(&uid.to_le_bytes());
    m[20..24].copy_from_slice(&flags.to_le_bytes());
    m[24..28].copy_from_slice(&0x8001u32.to_le_bytes());
    m[28..32].copy_from_slice(&0x77u32.to_le_bytes());
    for (i, u) in "tip".encode_utf16().enumerate() {
        m[32 + 2 * i..34 + 2 * i].copy_from_slice(&u.to_le_bytes());
    }
    m
}

#[test]
fn registrations_are_parsed() {
    let mut m = message(0, 5, 6, 7);
    m[288..292].copy_from_slice(&1u32.to_le_bytes());
    m[292..296].copy_from_slice(&3u32.to_le_bytes());
    m[808..812].copy_from_slice(&4u32.to_le_bytes());
    let n = parse(&m).unwrap();
    assert_eq!((n.message, n.owner, n.uid, n.flags), (0, 5, 6, 7));
    assert_eq!((n.callback, n.icon, n.tip.as_str()), (0x8001, 0x77, "tip"));
    assert_eq!((n.state, n.state_mask, n.version), (1, 3, 4));
    assert!(parse(&m[..31].to_vec()).is_none());
    let short = parse(&m[..34].to_vec()).unwrap();
    assert_eq!((short.tip.as_str(), short.version), ("t", 0));
}

#[test]
fn icons_are_added_changed_and_taken_off() {
    let mut t = TrayState::create();
    let add = message(0, 5, 6, 7);
    assert_eq!(TrayState::icon_to_copy(&parse(&add).unwrap()), Some(0x77));
    let o = t.handle_notify_data(&add, Some(900));
    assert!(o.handled && o.redraw && o.dropped.is_none());
    t.handle_notify_data(&message(1, 5, 7, 2), None);
    assert_eq!(t.snapshot(), vec![900, 0]);
    let again = t.handle_notify_data(&message(0, 5, 6, 2), Some(901));
    assert_eq!(again.dropped, Some(900));
    assert_eq!(t.icons.len(), 2);
    assert_eq!((t.icons[0].callback, t.icons[0].tip.as_str()), (0x8001, "tip"));
    let mut hide = message(1, 5, 6, 8);
    hide[288..292].copy_from_slice(&1u32.to_le_bytes());
    hide[292..296].copy_from_slice(&1u32.to_le_bytes());
    t.handle_notify_data(&hide, None);
    assert_eq!(t.snapshot(), vec![0]);
    assert_eq!(t.click(0).map(|c| c.uid), Some(7));
    assert_eq!(t.click(1), None);
    let mut version = message(4, 5, 6, 0);
    version[808..812].copy_from_slice(&4u32.to_le_bytes());
    assert!(!t.handle_notify_data(&version, None).redraw);
    assert_eq!(t.icons[0].version, 4);
    let gone = t.handle_notify_data(&message(2, 5, 6, 0), None);
    assert_eq!((gone.redraw, gone.dropped), (true, Some(901)));
    assert!(!t.handle_notify_data(&message(2, 5, 6, 0), None).redraw);
    assert!(!t.handle_notify_data(&vec![0; 10], None).handled);
    assert!(t.handle_notify_data(&message(9, 1, 1, 7), None).handled);
    assert_eq!(t.icons.len(), 1);
}

#[test]
fn deleting_undoes_adding() {
    let mut t = TrayState::create();
    t.handle_notify_data(&message(0, 1, 1, 7), Some(1));
    t.handle_notify_data(&message(0, 2, 2, 7), Some(2));
    let before = t.snapshot();
    t.handle_notify_data(&message(0, 3, 3, 7), Some(3));
    t.handle_notify_data(&message(2, 3, 3, 7), None);
    assert_eq!(t.snapshot(), before);
}

#[test]
fn dead_owners_are_pruned() {
    let mut t = TrayState::create();
    for i in 1..6 {
        t.handle_notify_data(&message(0, i, 1, 7), Some(i as u64));
    }
    assert!(t.prune(&vec![true, false, true, false, true]));
    assert_eq!(t.snapshot(), vec![1, 3, 5]);
    assert!(!t.prune(&vec![true; 3]));
}

#[test]
fn clicks_are_forwarded() {
    let old = Target { owner: 1, uid: 9, callback: 3, version: 0 };
    let v: Vec<(u64, i64)> = click_messages(old, false, 10, 20).iter().map(|p| (p.wparam, p.lparam)).collect();
    assert_eq!(v, vec![(9, 0x201), (9, 0x202)]);
    let new = Target { version: 4, ..old };
    let w: Vec<(u64, i64)> = click_messages(new, true, -1, 20).iter().map(|p| (p.wparam, p.lparam)).collect();
    assert_eq!(w, vec![(0x14_FFFF, 0x9_0204), (0x14_FFFF, 0x9_0205), (0x14_FFFF, 0x9_007B)]);
    assert!(announces_again(0) && announces_again(3) && !announces_again(4));
    assert!(route(1, false).ours && !route(0, true).ours && route(0, true).forward);
}

// ---- Settings ----

#[test]
fn the_pane_lists_the_settings() {
    let p = Pane::open(&Config::default());
    let rows: Vec<String> = p
        .rows
        .iter()
        .map(|x| match x {
            Row::Header(t) => t.clone(),
            Row::Toggle(i) => i.to_string(),
            Row::Color => "color".to_string(),
        })
        .collect();
    assert_eq!(rows, vec!["Taskbar", "0", "1", "2", "Windows", "3", "Menus", "4", "Start button", "color"]);
    assert_eq!(p.values, vec![false, true, true, true, true]);
    assert_eq!(p.start_color, swatch(6));
    assert_eq!(rgb(0, 120, 212), 0x00D47800);
    assert_eq!(rgb(0x1FF, 0x100, 0x1_0000), 0x0001_01FF);
    assert_eq!(swatch(5), 0x002311E8);
    assert_eq!(p.placement(1920, 1080, 96), (790, 328, 340, 46 + 4 * 30 + 5 * 36 + 48 + 30));
}

#[test]
fn the_pane_answers_the_mouse() {
    let mut p = Pane::open(&Config::default());
    assert_eq!(p.hit(10, 80, 96), SettingsHover::Toggle(0));
    assert_eq!(p.hit(10, 50, 96), SettingsHover::Nothing);
    assert_eq!(p.hit(-1, 80, 96), SettingsHover::Nothing);
    let top = 46 + 4 * 30 + 5 * 36;
    assert_eq!(p.hit(20, top + 20, 96), SettingsHover::Swatch(0));
    assert_eq!(p.hit(18 + 31 * 6, top + 20, 96), SettingsHover::Swatch(6));
    assert_eq!(p.hit(41, top + 20, 96), SettingsHover::Nothing);
    assert_eq!(p.hit(300, top + 20, 96), SettingsHover::Custom);
    assert_eq!(p.on_button_up(10, 80, 96), SettingsAct::Toggle(0, true));
    assert!(p.values[0]);
    assert_eq!(p.on_button_up(51, top + 20, 96), SettingsAct::SetColor(0x00D47800));
    assert_eq!(p.on_button_up(300, top + 20, 96), SettingsAct::PickColor(0x00D47800));
    p.picked(7);
    assert_eq!(p.start_color, 7);
    assert_eq!(p.on_button_up(330, 5, 96), SettingsAct::Close);
    assert!(hit_close(306, 33, 96) && !hit_close(305, 33, 96));
    assert!(Pane::on_button_down(10, 10, 96) && !Pane::on_button_down(330, 5, 96) && !Pane::on_button_down(10, 46, 96));
    let m = p.on_mouse_move(10, 80, 96);
    assert!(m.track && m.repaint);
    assert!(p.on_mouse_leave());
}

#[test]
fn the_pane_is_drawn() {
    let p = Pane::open(&Config::default());
    let v = p.paint(340, 424, 96);
    assert!(v.iter().any(|d| matches!(d, Draw::Text { text, .. } if text == "Dark context menus \u{2020}")));
    assert!(v.iter().any(|d| matches!(d, Draw::Text { text, rect, .. } if text == "\u{2020} applies after StartPE restarts" && rect.top == 394)));
    assert_eq!(v.iter().filter(|d| matches!(d, Draw::Box { .. })).count(), 5);
    assert_eq!(v.iter().filter(|d| matches!(d, Draw::Text { text, .. } if text == "\u{E73E}")).count(), 4);
    // Seven swatches, the ring of the selected one, and the button.
    assert_eq!(v.iter().filter(|d| matches!(d, Draw::Round { .. })).count(), 9);
}

// ---- Desktop ----

#[test]
fn the_desktop_is_provided_when_it_has_to_be() {
    assert_eq!(desktop_plan(0), Plan::IfExplorerFails);
    assert_eq!(desktop_plan(2), Plan::Never);
    assert_eq!(desktop_plan(1), Plan::Always);
    assert!(create_if_needed(0, false) && !create_if_needed(0, true));
    assert!(create_if_needed(1, true) && !create_if_needed(2, false));
    assert!(keep_waiting(14_999, false) && !keep_waiting(15_000, false) && !keep_waiting(1, true));
    assert_eq!(view_choices(true), vec![ViewKind::Full]);
    assert_eq!(view_choices(false), vec![ViewKind::Public, ViewKind::Full]);
}

#[test]
fn the_wallpaper_is_found_and_cropped() {
    let mut c = Config::default();
    assert_eq!(resolve_wallpaper_path(&c, &None), None);
    assert_eq!(resolve_wallpaper_path(&c, &Some(String::new())), None);
    assert_eq!(resolve_wallpaper_path(&c, &Some("p.jpg".to_string())).as_deref(), Some("p.jpg"));
    c.wallpaper = Some("w.bmp".to_string());
    assert_eq!(resolve_wallpaper_path(&c, &Some("p.jpg".to_string())).as_deref(), Some("w.bmp"));
    assert!(is_bitmap("X:\\A.BMP") && !is_bitmap("a.bmp.jpg") && !is_bitmap("bmp"));
    assert_eq!(cover_crop(2000, 1000, 1000, 1000), (500, 0, 1000, 1000));
    assert_eq!(cover_crop(1000, 2000, 1000, 1000), (0, 500, 1000, 1000));
    assert_eq!(cover_crop(1920, 1080, 960, 540), (0, 0, 1920, 1080));
    assert_eq!(cover_crop(10, 10, 0, 5), (0, 0, 10, 10));
    assert_eq!(cover_crop(i32::MAX, i32::MAX, 2, 1), (0, 536870912, i32::MAX, 1073741823));
}

#[test]
fn dragging_moves_an_icon() {
    let grid = (80isize << 16) | 75;
    let mut d = DragState::new();
    assert_eq!(d.on_button_down(pt(5, 5), -1, vec![]), Down::Pass);
    assert_eq!(d.on_mouse_move(true, 50, 50, 4), Move::Pass);
    assert_eq!(d.on_button_down(pt(10, 10), 3, vec![(3, pt(100, 200))]), Down::Capture);
    assert_eq!(d.on_mouse_move(true, 13, 10, 4), Move::Swallow);
    assert_eq!(d.on_mouse_move(false, 90, 10, 4), Move::Pass);
    assert_eq!(d.on_mouse_move(true, 6, 10, 4), Move::Reposition(vec![(3, 96, 200)]));
    assert_eq!(d.on_mouse_move(true, 11, 12, 4), Move::Reposition(vec![(3, 101, 202)]));
    assert_eq!(d.on_button_up(20, 30, grid), Up::Drop(vec![(3, 75, 240)]));
    assert_eq!(d.on_button_up(20, 30, grid), Up::Pass);
    d.on_button_down(pt(10, 10), 4, vec![(4, pt(0, 0))]);
    assert_eq!(d.on_mouse_move(true, 11, 10, 0), Move::Swallow);
    assert_eq!(d.on_button_up(11, 10, grid), Up::Click(4));
    d.on_button_down(pt(10, 10), 4, vec![(4, pt(0, 0))]);
    d.on_capture_changed();
    assert!(!d.tracking);
}

fn pt(x: i32, y: i32) -> Point {
    Point { x, y }
}

#[test]
fn a_selection_drags_as_a_group() {
    let grid = (80isize << 16) | 75;
    let selected = vec![(7, pt(0, 0)), (2, pt(75, 80)), (5, pt(-75, 160))];
    let group = dragged_group(2, pt(75, 80), selected.clone());
    assert_eq!(group, selected);
    assert_eq!(dragged_group(9, pt(300, 0), selected.clone()), vec![(9, pt(300, 0))]);
    assert_eq!(dragged_group(9, pt(300, 0), vec![]), vec![(9, pt(300, 0))]);
    let mut d = DragState::new();
    assert_eq!(d.on_button_down(pt(80, 90), 2, group), Down::Capture);
    assert_eq!(
        d.on_mouse_move(true, 20, 140, 4),
        Move::Reposition(vec![(7, -60, 50), (2, 15, 130), (5, -135, 210)])
    );
    assert_eq!(d.on_button_up(20, 140, grid), Up::Drop(vec![(7, -75, 80), (2, 0, 160), (5, -150, 240)]));
    d.on_button_down(pt(0, 0), 2, vec![(7, pt(1, 2)), (2, pt(3, 4))]);
    d.on_mouse_move(true, 9, 9, 4);
    assert_eq!(d.on_button_up(10, 10, 0), Up::Drop(vec![(7, 11, 12), (2, 13, 14)]));
}

#[test]
fn double_clicks_are_two_quick_ones() {
    let mut d = DragState::new();
    assert!(!d.on_click(4, 1000));
    assert!(d.on_click(4, 1500));
    assert!(!d.on_click(4, 1600));
    assert!(!d.on_click(5, 1700));
    assert!(!d.on_click(5, 2201));
    assert!(!d.on_click(6, u32::MAX - 10));
    assert!(d.on_click(6, 100));
}

#[test]
fn dropped_icons_snap() {
    let s = (80isize << 16) | 75;
    assert_eq!(snap_to_grid(s, 100, 100), (75, 80));
    assert_eq!(snap_to_grid(s, 113, 120), (150, 160));
    assert_eq!(snap_to_grid(s, 0, 0), (0, 0));
    assert_eq!(snap_to_grid(s, -100, 39), (-75, 0));
    assert_eq!(snap_to_grid(s, -75, -80), (-75, -80));
    assert_eq!(snap_to_grid(s, -38, -41), (-75, -80));
    assert_eq!(snap_to_grid(s, -37, -40), (0, 0));
    assert_eq!(snap_to_grid(75, 33, 44), (33, 44));
    for v in -500i32..500 {
        let (x, y) = snap_to_grid(s, v, v);
        assert_eq!((x, y), ((v + 37).div_euclid(75) * 75, (v + 40).div_euclid(80) * 80));
    }
    for (x, y) in [(5, 7), (-1, 3), (3, -1), (70000, 0x8000)] {
        assert_eq!(pack_position(x, y), (((x & 0xFFFF) | ((y & 0xFFFF) << 16)) as i32) as i64);
    }
}

fn icon(name: &str, x: i32, y: i32) -> Icon {
    Icon { name: name.to_string(), x, y }
}

#[test]
fn layouts_survive_saving() {
    let v = vec![icon("This, that", -5, 7), icon("b", 0, i32::MIN), icon("ü", 75, 80), icon("", 1, 2)];
    let text = capture_layout(&v);
    assert_eq!(text, "-5,7,This, that\n0,-2147483648,b\n75,80,ü\n1,2,\n");
    let names: Vec<String> = v.iter().map(|i| i.name.clone()).collect();
    let moves = apply_layout(&text, &names);
    let want: Vec<Placed> = v.iter().enumerate().map(|(i, k)| Placed { item: i, x: k.x, y: k.y }).collect();
    assert_eq!(moves, want);
}

#[test]
fn layouts_are_read_leniently() {
    let names = vec!["App".to_string(), "APP".to_string(), "x".to_string()];
    let m = apply_layout(" 3 , 4 ,app\r\nbad\n1,2\nq,1,App\n5,6,X\r\r\n7,8,none\n", &names);
    assert_eq!(m, vec![Placed { item: 0, x: 3, y: 4 }, Placed { item: 2, x: 5, y: 6 }]);
    assert_eq!(layout_path("X:\\P\\startpe.exe").as_deref(), Some("X:\\P\\desktop-layout.txt"));
    assert_eq!(layout_path("startpe.exe"), None);
}

#[test]
fn the_layout_timer_applies_and_captures() {
    let mut l = LayoutState::new();
    assert_eq!(l.on_tick(0), Tick::Wait);
    assert_eq!(l.on_tick(9), Tick::Apply);
    assert_eq!(l.on_tick(8), Tick::Apply);
    assert_eq!(l.listview, 9);
    assert_eq!(l.on_tick(0), Tick::Apply);
    assert_eq!(l.on_tick(0), Tick::Capture);
    assert!(l.captured("a") && !l.captured("a") && l.captured("b"));
}

#[test]
fn junctions_are_hidden() {
    let units = |s: &str| {
        let mut v: Vec<u16> = s.encode_utf16().collect();
        v.resize(260, 0);
        Some(v)
    };
    assert!(is_junction(&units(&format!("::{}", NETWORK.to_lowercase()))));
    assert!(!is_junction(&units("C:\\Users\\Public\\Desktop\\a.lnk")));
    assert!(!is_junction(&None));
    let mut b = Batch::new(2);
    assert_eq!(b.take(true), None);
    assert_eq!(b.take(false), Some(0));
    assert_eq!(b.answer(), 1);
    assert!(b.open());
    assert_eq!(b.take(false), Some(1));
    assert!(!b.open() && b.answer() == 0);
}

// ---- Borders ----

fn frame(hwnd: u64) -> FrameFacts {
    FrameFacts {
        hwnd,
        visible: true,
        iconic: false,
        zoomed: false,
        exstyle: 0,
        own: false,
        class: "Notepad".to_string(),
    }
}

#[test]
fn one_window_has_the_accent() {
    let mut s = DwmState::install();
    assert_eq!(s.on_foreground(4, true, 0xA), vec![Tint { hwnd: 4, color: 0xA }]);
    assert_eq!(s.on_foreground(5, true, 0xA), vec![Tint { hwnd: 5, color: 0xA }, Tint { hwnd: 4, color: GRAY }]);
    assert_eq!(s.on_foreground(9, false, 0xA), vec![Tint { hwnd: 5, color: GRAY }]);
    assert_eq!(s.on_foreground(9, false, 0xA), vec![]);
    assert_eq!(s.winevent_hook(0x8002, &frame(6), 0, 0, 7, 0xA), vec![Tint { hwnd: 6, color: GRAY }]);
    assert_eq!(s.winevent_hook(0x8002, &frame(7), 0, 0, 7, 0xA), vec![]);
    assert_eq!(s.winevent_hook(3, &frame(7), -8, 0, 7, 0xA), vec![]);
    assert_eq!(s.winevent_hook(3, &frame(7), 0, 0, 7, 0xA), vec![Tint { hwnd: 7, color: 0xA }]);
    let mut own = frame(8);
    own.class = "StartPE_Run".to_string();
    assert!(!borderable(&own) && borderable(&frame(8)));
    assert_eq!((ring_color(true, 5), ring_color(false, 5)), (5, GRAY));
    assert_eq!(set_enabled(true, false), Switch::Install);
    assert_eq!(set_enabled(false, true), Switch::TearDown);
    assert_eq!(set_enabled(true, true), Switch::Refresh);
    assert_eq!(set_enabled(false, false), Switch::Nothing);
}

#[test]
fn the_overlay_follows_its_window() {
    let mut b = Border::install(100, false);
    assert_eq!(b.winevent_hook(3, &frame(4), 0, 0, 4), Act::Position(4));
    assert_eq!(b.winevent_hook(0x800B, &frame(4), 0, 0, 4), Act::Position(4));
    let mut zoomed = frame(4);
    zoomed.zoomed = true;
    assert_eq!(b.winevent_hook(0x800B, &zoomed, 0, 0, 4), Act::Hide);
    assert_eq!(b.target, 0);
    assert_eq!(b.winevent_hook(0x800B, &frame(5), 0, 0, 6), Act::Nothing);
    assert_eq!(b.winevent_hook(0x800B, &frame(5), 0, 0, 5), Act::Position(5));
    assert_eq!(b.winevent_hook(0x16, &frame(6), 0, 0, 5), Act::Nothing);
    assert_eq!(b.winevent_hook(0x8001, &frame(5), 0, 0, 5), Act::Hide);
    assert_eq!(b.update_target(&frame(100)), Act::Hide);
    assert_eq!(visible_rect(Some(r(0, 0, 0, 5)), Some(r(1, 1, 2, 2))), Some(r(1, 1, 2, 2)));
    assert_eq!(visible_rect(Some(r(0, 0, 3, 5)), None), Some(r(0, 0, 3, 5)));
    let f = position(Some(r(10, 20, 110, 70)), false, 96).unwrap();
    assert_eq!((f.x, f.y, f.outer, f.inner), (10, 20, r(0, 0, 100, 50), r(4, 4, 96, 46)));
    let g = position(Some(r(10, 20, 110, 70)), true, 96).unwrap();
    assert_eq!((g.outer, g.inner, g.outer_corner, g.inner_corner), (r(0, 0, 101, 51), r(4, 4, 97, 47), 16, 8));
    assert!(position(Some(r(1, 1, 1, 9)), false, 96).is_none());
    assert!(position(None, false, 96).is_none());
}

#[test]
fn dark_mode_is_gated() {
    let b = |s: &str| os_build(&Some(s.to_string()));
    assert_eq!((b(" 26100 "), b("x"), os_build(&None)), (26100, 0, 0));
    assert_eq!(init(false, 26100, true), DarkPlan::Disabled);
    assert_eq!(init(true, 17762, true), DarkPlan::Unsupported);
    assert_eq!(init(true, 17763, false), DarkPlan::Unavailable);
    assert_eq!(init(true, 18333, true), DarkPlan::AllowForApp);
    assert_eq!(init(true, 18334, true), DarkPlan::SetPreferred);
    assert!(allow_window(DarkPlan::AllowForApp) && !allow_window(DarkPlan::Unavailable));
    assert_eq!(log_status(DarkPlan::Disabled, 5), "dark menus: disabled by config (build 0)");
    assert_eq!(log_status(DarkPlan::SetPreferred, 26100), "dark menus: forced-dark engaged (build 26100)");
    assert_eq!(apply_app_theme(true, false), "app theme: dark (registry write failed)");
    assert_eq!((light_value(true), light_value(false)), (0, 1));
    assert_eq!((dark_dialog("Edit"), dark_dialog("Button")), ("DarkMode_CFD", "DarkMode_Explorer"));
}

// ---- Network ----

#[test]
fn ethernet_wins_over_wifi() {
    let a = |up, kind| Adapter { up, kind };
    assert_eq!(poll(&vec![]), NetStatus::Disconnected);
    assert_eq!(poll(&vec![a(true, 71), a(true, 6)]), NetStatus::Ethernet);
    assert_eq!(poll(&vec![a(true, 71), a(false, 6)]), NetStatus::Wifi);
    assert_eq!(poll(&vec![a(false, 71), a(true, 24)]), NetStatus::Disconnected);
    assert_eq!(NetStatus::Disconnected.glyph(), '\u{E774}');
    assert_eq!(NetStatus::Wifi.glyph(), '\u{E701}');
    assert_eq!(NetStatus::Ethernet.glyph(), '\u{E839}');
    assert_eq!(probe(111, false, 100), Probe::Resize);
    assert_eq!(probe(0, false, 0), Probe::Failed);
    assert_eq!(probe(0, true, 100), Probe::Filled);
    assert_eq!(probe(5, true, 100), Probe::Failed);
}

#[test]
fn the_network_helper_is_told() {
    assert!(matches!(toggle_flyout(true, 7, 50), Delivery::Post { cmd: 0, pid: Some(7) }));
    assert!(matches!(open_settings(true, 0, 50), Delivery::Post { cmd: 1, pid: None }));
    assert!(matches!(open_settings(true, 7, 0), Delivery::Relaunch { arg: "--settings", pid: Some(7) }));
    assert!(matches!(toggle_flyout(false, 7, 50), Delivery::Relaunch { arg: "--flyout", pid: None }));
    let some = |s: &str| Some(s.to_string());
    assert_eq!(helper_exe(&some("a"), &some("b")).as_deref(), Some("a"));
    assert_eq!(helper_exe(&None, &some("b")).as_deref(), Some("b"));
    assert_eq!((launch_helper(true), launch_helper(false)), (Some("--apply-profile"), None));
}

// ---- Peek and the task-manager slot ----

fn peeks(n: u64) -> Vec<PeekEntry> {
    (0..n).map(|i| PeekEntry { hwnd: 10 + i, title: format!("t{i}"), icon: None }).collect()
}

#[test]
fn a_peek_has_room_for_many_windows() {
    let mut p = PeekState::new();
    let v: Vec<PeekEntry> =
        (0..0x2000).map(|i| PeekEntry { hwnd: i, title: String::new(), icon: None }).collect();
    let anchor = Rect { left: 0, top: 0, right: 10, bottom: 10 };
    let (panel, _) = p.show(v, anchor, 1000, false, 1920, 96);
    assert_eq!(panel.unwrap().height, 0x2000 * 38 + 16);
    assert_eq!(p.hit_test(20, 8 + 38 * 0x1fff, 96), Some(PeekHit { entry: 0x1fff, close: false }));
}

#[test]
fn peeks_are_laid_out() {
    let mut p = PeekState::new();
    let (panel, freed) = p.show(peeks(2), r(100, 1040, 146, 1080), 1040, true, 1920, 96);
    let panel = panel.unwrap();
    assert!(freed.is_empty());
    assert_eq!((panel.x, panel.y, panel.width, panel.height), (4, 866, 416, 166));
    assert_eq!(thumb_rect(1, 96), r(218, 36, 402, 152));
    p.set_thumbs(vec![5, 6]);
    assert_eq!(p.hit_test(213, 100, 96), Some(PeekHit { entry: 1, close: false }));
    assert_eq!(p.hit_test(395, 20, 96), Some(PeekHit { entry: 1, close: true }));
    assert_eq!(p.hit_test(206, 20, 96), None);
    let (rows, freed) = p.show(peeks(3), r(900, 1040, 946, 1080), 1040, false, 1920, 96);
    assert_eq!(freed, vec![5, 6]);
    let rows = rows.unwrap();
    assert_eq!((rows.x, rows.y, rows.width, rows.height), (773, 902, 300, 130));
    assert_eq!(p.hit_test(20, 50, 96), Some(PeekHit { entry: 1, close: false }));
    assert!(p.is_visible());
    assert!(p.keep(r(773, 902, 1073, 1032), 800, 1041, 96));
    assert!(!p.keep(r(773, 902, 1073, 1032), 700, 1041, 96));
    assert!(p.keep(r(773, 902, 1073, 1032), 910, 1079, 96));
    let (none, _) = p.show(vec![], r(0, 0, 1, 1), 1040, false, 1920, 96);
    assert!(none.is_none() && !p.is_visible());
}

#[test]
fn peeks_answer_clicks() {
    let mut p = PeekState::new();
    p.show(peeks(3), r(900, 1040, 946, 1080), 1040, false, 1920, 96);
    assert!(p.on_mouse_move(20, 50, 96) && !p.on_mouse_move(21, 50, 96));
    assert!(matches!(p.on_button_up(1, 1, 96), Action::Nothing));
    assert!(matches!(p.on_button_up(20, 50, 96), Action::Activate(11)));
    match p.on_button_up(280, 65, 96) {
        Action::Close(11, rest) => assert_eq!(rest.iter().map(|e| e.hwnd).collect::<Vec<_>>(), vec![10, 12]),
        _ => panic!(),
    }
    let mut q = PeekState::new();
    q.show(peeks(1), r(900, 1040, 946, 1080), 1040, false, 1920, 96);
    q.on_mouse_move(280, 27, 96);
    let v = q.paint(96);
    assert!(v.iter().any(|d| matches!(d, Draw::Fill { color: 0x2311E8, .. })));
    assert!(v.iter().any(|d| matches!(d, Draw::Text { text, rect, .. } if text == "t0" && rect.left == 38)));
    assert!(q.dismiss().is_empty());
}

#[test]
fn the_slot_goes_back_once() {
    let mut t = Taskman::new();
    t.claim(5);
    assert_eq!(t.release(true), Some(5));
    assert_eq!(t.release(true), None);
    t.claim(6);
    assert_eq!(t.release(false), None);
}
