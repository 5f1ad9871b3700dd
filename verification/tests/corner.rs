use startpe::config::Config;
use startpe::geometry::Rect;
use startpe::menu::Item;
use startpe::network::{Adapter, NetStatus, IF_TYPE_ETHERNET_CSMACD, IF_TYPE_IEEE80211};
use startpe::paint::{Draw, Font, GLYPH_CENTER};
use startpe::power::{
    opens_settings, power_flyout, taskbar_menu, BAR_SETTINGS, FLYOUT_RESTART, FLYOUT_SHUT_DOWN,
};
use startpe::start_menu::power_command;
use startpe::taskbar::corner::{Corner, CornerClick, Part};
use startpe::taskbar::{Hit, Seen, Taskbar, COL_HOVER, COL_TEXT, COL_TEXT_DIM};

fn seen(hwnd: u64, exe: &str) -> Seen {
    Seen { hwnd, exe: Some(exe.to_string()), title: String::new(), icon: None, exe_icon: None }
}

#[test]
fn the_corner_has_a_glyph_and_an_edge() {
    let c = Corner::new(true);
    assert_eq!(c.part(Hit::Nothing, 913, 1000, 96), Part::Nothing);
    assert_eq!(c.part(Hit::Nothing, 914, 1000, 96), Part::Network);
    assert_eq!(c.part(Hit::Nothing, 931, 1000, 96), Part::Network);
    assert_eq!(c.part(Hit::Nothing, 932, 1000, 96), Part::Nothing);
    assert_eq!(c.part(Hit::Nothing, 993, 1000, 96), Part::Nothing);
    assert_eq!(c.part(Hit::Nothing, 994, 1000, 96), Part::ShowDesktop);
    assert_eq!(c.part(Hit::Nothing, 1000, 1000, 96), Part::Nothing);
    assert_eq!(c.part(Hit::Task(0), 994, 1000, 96), Part::Nothing);
    assert_eq!(c.part(Hit::Nothing, 1994, 2000, 192), Part::ShowDesktop);
    let off = Corner::new(false);
    assert_eq!(off.part(Hit::Nothing, 914, 1000, 96), Part::Nothing);
    assert_eq!(off.part(Hit::Nothing, 994, 1000, 96), Part::ShowDesktop);
}

#[test]
fn tray_icons_keep_off_the_corner() {
    let mut t = Taskbar::create(Config::default(), 9);
    t.refresh_buttons(&vec![], &vec![], vec![1, 2, 3], 1000, 40, 96);
    let c = Corner::new(true);
    for x in 838..910 {
        assert!(matches!(t.hit_test(x, 20, 1000, 40, 96), Hit::TrayIcon(_)));
        assert_eq!(c.part(Hit::Nothing, x, 1000, 96), Part::Nothing);
    }
    assert_eq!(t.hit_test(914, 20, 1000, 40, 96), Hit::Nothing);
    assert_eq!(t.hit_test(999, 20, 1000, 40, 96), Hit::Nothing);
}

#[test]
fn corner_clicks_count_on_the_pressed_part() {
    let mut c = Corner::new(true);
    c.on_button_down(Hit::Nothing, 920, 1000, 96);
    assert_eq!(c.pressed, Part::Network);
    assert_eq!(c.on_button_up(Hit::Nothing, 925, 1000, 96), CornerClick::Flyout);
    assert_eq!(c.pressed, Part::Nothing);
    c.on_button_down(Hit::Nothing, 998, 1000, 96);
    assert_eq!(c.on_button_up(Hit::Nothing, 920, 1000, 96), CornerClick::Nothing);
    c.on_button_down(Hit::Nothing, 998, 1000, 96);
    assert_eq!(c.on_button_up(Hit::Nothing, 997, 1000, 96), CornerClick::ShowDesktop);
    assert_eq!(c.on_button_up(Hit::Nothing, 950, 1000, 96), CornerClick::Nothing);
    assert_eq!(c.on_right_up(Hit::Nothing, 920, 1000, 96), CornerClick::NetworkSettings);
    assert_eq!(c.on_right_up(Hit::Nothing, 998, 1000, 96), CornerClick::Nothing);
    assert_eq!(c.on_right_up(Hit::TrayIcon(0), 920, 1000, 96), CornerClick::Nothing);
}

#[test]
fn the_corner_follows_mouse_and_network() {
    let mut c = Corner::new(true);
    assert!(c.on_mouse_move(Hit::Nothing, 920, 1000, 96));
    assert!(!c.on_mouse_move(Hit::Nothing, 921, 1000, 96));
    c.on_mouse_leave();
    assert_eq!(c.hover, Part::Nothing);
    let wifi = Adapter { up: true, kind: IF_TYPE_IEEE80211 };
    let wired = Adapter { up: true, kind: IF_TYPE_ETHERNET_CSMACD };
    assert!(!c.on_poll(&vec![]));
    assert!(c.on_poll(&vec![wifi]));
    assert_eq!(c.status, NetStatus::Wifi);
    assert!(c.on_poll(&vec![wifi, wired]));
    assert!(!c.on_poll(&vec![wired]));
    assert_eq!(c.status, NetStatus::Ethernet);
    let mut off = Corner::new(false);
    assert!(!off.on_poll(&vec![wired]));
    assert_eq!(off.status, NetStatus::Ethernet);
}

#[test]
fn the_corner_is_drawn_over_the_bar() {
    let mut c = Corner::new(true);
    c.status = NetStatus::Wifi;
    c.hover = Part::Network;
    let mut out: Vec<Draw> = Vec::new();
    c.paint(&mut out, 1000, 40, 96);
    let net = Rect { left: 914, top: 0, right: 932, bottom: 40 };
    assert_eq!(out.len(), 3);
    assert!(matches!(&out[0], Draw::Fill { rect, color } if *rect == net && *color == COL_HOVER));
    assert!(matches!(&out[1], Draw::Text { font: Font::Glyph, color, text, rect, flags }
        if *color == COL_TEXT && text == "\u{E701}" && *rect == net && *flags == GLYPH_CENTER));
    let edge = Rect { left: 994, top: 8, right: 995, bottom: 32 };
    assert!(matches!(&out[2], Draw::Fill { rect, color } if *rect == edge && *color == COL_TEXT_DIM));
    let mut off = Corner::new(false);
    off.hover = Part::ShowDesktop;
    off.paint(&mut out, 1000, 40, 96);
    assert_eq!(out.len(), 5);
    let desk = Rect { left: 994, top: 0, right: 1000, bottom: 40 };
    assert!(matches!(&out[3], Draw::Fill { rect, color } if *rect == desk && *color == COL_HOVER));
}

#[test]
fn windows_minimize_to_their_button() {
    let mut c = Config::default();
    c.combine = true;
    let mut t = Taskbar::create(c, 9);
    t.refresh_buttons(&vec![seen(1, "a"), seen(2, "b"), seen(3, "b")], &vec![], vec![], 1000, 40, 96);
    let bar = Rect { left: 10, top: 700, right: 1010, bottom: 740 };
    let b = t.buttons[1].rect;
    assert_eq!((b.top, b.bottom), (3, 37));
    let at = Rect { left: 10 + b.left, top: 703, right: 10 + b.right, bottom: 737 };
    assert_eq!(t.minimize_rect(2, bar), Some(at));
    assert_eq!(t.minimize_rect(3, bar), Some(at));
    assert_ne!(t.minimize_rect(1, bar), Some(at));
    assert_eq!(t.minimize_rect(4, bar), None);
}

fn entry(item: &Item) -> (u32, String) {
    match item {
        Item::Entry(id, label) => (*id, label.clone()),
        _ => panic!("no entry"),
    }
}

#[test]
fn the_small_menus_do_what_they_say() {
    let bar: Vec<(u32, String)> = taskbar_menu().iter().map(entry).collect();
    assert_eq!(bar, vec![(BAR_SETTINGS, "Settings".to_string())]);
    assert!(opens_settings(BAR_SETTINGS) && !opens_settings(0));
    let power: Vec<(u32, String)> = power_flyout().iter().map(entry).collect();
    assert_eq!(power, vec![(FLYOUT_RESTART, "Restart".to_string()), (FLYOUT_SHUT_DOWN, "Shut down".to_string())]);
    assert_eq!(power_command(power[0].0).unwrap().args, "reboot");
    assert_eq!(power_command(power[1].0).unwrap().args, "shutdown");
    assert!(power_command(0).is_none());
}
