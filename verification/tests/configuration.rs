use startpe::config::{
    load_run_history, network_app, save_bool, save_run_history, save_u32, show_network_icon,
    sysinfo_app, terminal_app, Config, Entry, Value, Values,
};
use startpe::pins::{expand_env, ini_path, Pins};
use startpe::settings::{reg_name, value_of, TOGGLES};

fn key(v: &[(&str, Value)]) -> Option<Values> {
    let mut k = Values::empty();
    for (n, x) in v {
        k.entries.push(Entry {
            name: n.to_string(),
            value: match x {
                Value::Dword(d) => Value::Dword(*d),
                Value::Text(t) => Value::Text(t.clone()),
            },
        });
    }
    Some(k)
}

fn d(v: u32) -> Value {
    Value::Dword(v)
}

fn t(v: &str) -> Value {
    Value::Text(v.to_string())
}

#[test]
fn defaults_hold_without_keys() {
    let c = Config::load(&None, &None);
    assert_eq!(c.taskbar_height, 40);
    assert_eq!(c.button_max_width, 220);
    assert_eq!(c.menu_width, 420);
    assert_eq!(c.menu_height, 480);
    assert!(!c.show_labels && c.combine && c.center_taskbar);
    assert_eq!(c.own_desktop, 0);
    assert_eq!(c.desktop_color, 0x302820);
    assert_eq!(c.start_button_color, 180 | (90 << 8) | (230 << 16));
    assert!(c.dark_menus && c.window_borders && !c.launch_as_system && !c.show_system_desktop_icons);
    assert!(c.user_picture.is_none() && c.wallpaper.is_none() && c.file_manager.is_none());
}

#[test]
fn users_value_overlays_the_machines() {
    let m = key(&[("TaskbarHeight", d(60)), ("MenuWidth", d(500)), ("Wallpaper", t("m.bmp")), ("DarkMenus", d(0))]);
    let u = key(&[("TaskbarHeight", d(30)), ("Wallpaper", t("")), ("CenterTaskbar", d(0)), ("taskbarlabels", d(7))]);
    let c = Config::load(&m, &u);
    assert_eq!(c.taskbar_height, 30);
    assert_eq!(c.menu_width, 500);
    assert_eq!(c.wallpaper.as_deref(), Some("m.bmp"));
    assert!(!c.dark_menus && !c.center_taskbar && c.show_labels);
}

#[test]
fn heights_are_limited_and_numbers_wrap() {
    assert_eq!(Config::load(&key(&[("TaskbarHeight", d(5))]), &None).taskbar_height, 24);
    assert_eq!(Config::load(&key(&[("TaskbarHeight", d(500))]), &None).taskbar_height, 120);
    assert_eq!(Config::load(&key(&[("TaskbarHeight", d(u32::MAX))]), &None).taskbar_height, 24);
    assert_eq!(Config::load(&key(&[("MenuHeight", d(u32::MAX))]), &None).menu_height, -1);
}

#[test]
fn values_of_another_type_are_ignored() {
    let c = Config::load(&key(&[("TaskbarCombine", t("0")), ("UserPicture", d(1)), ("OwnDesktop", d(2))]), &None);
    assert!(c.combine && c.user_picture.is_none());
    assert_eq!(c.own_desktop, 2);
}

#[test]
fn saved_settings_read_back() {
    for i in 0..TOGGLES {
        for v in [false, true] {
            let mut u = Values::empty();
            u.set(reg_name(i), Value::Text("old".to_string()));
            save_bool(&mut u, reg_name(i), v);
            let m = key(&[(reg_name(i), d(!v as u32))]);
            assert_eq!(value_of(&Config::load(&m, &Some(u)), i), v);
        }
    }
    let mut u = Values::empty();
    save_u32(&mut u, "StartButtonColor", 0x123456);
    save_u32(&mut u, "startbuttoncolor", 0x654321);
    assert_eq!(u.entries.len(), 1);
    assert_eq!(u.dword("STARTBUTTONCOLOR"), Some(0x654321));
    assert_eq!(Config::load(&None, &Some(u)).start_button_color, 0x654321);
}

#[test]
fn external_apps_are_configured() {
    let m = key(&[("SysInfoApp", t("m.exe")), ("NetworkApp", t("net.exe"))]);
    let u = key(&[("SysInfoApp", t("  "))]);
    assert_eq!(sysinfo_app(&m, &u).as_deref(), Some("m.exe"));
    assert_eq!(sysinfo_app(&m, &key(&[("SysInfoApp", t("u.exe"))])).as_deref(), Some("u.exe"));
    assert_eq!(sysinfo_app(&None, &u), None);
    assert_eq!(network_app(&m, &u).as_deref(), Some("net.exe"));
    assert_eq!(terminal_app(&None, &None, &None), "cmd.exe");
    assert_eq!(terminal_app(&None, &None, &Some("c.exe".to_string())), "c.exe");
    assert_eq!(terminal_app(&key(&[("TerminalApp", t("wt.exe"))]), &u, &Some("c.exe".to_string())), "wt.exe");
}

#[test]
fn the_network_glyph_is_opt_out() {
    let off = key(&[("ShowNetworkIcon", d(0))]);
    let on = key(&[("shownetworkicon", d(7))]);
    assert!(show_network_icon(&None, &None));
    assert!(!show_network_icon(&off, &None));
    assert!(!show_network_icon(&None, &off));
    assert!(show_network_icon(&off, &on));
    assert!(!show_network_icon(&on, &off));
    assert!(show_network_icon(&key(&[("ShowNetworkIcon", t("0"))]), &key(&[])));
}

#[test]
fn run_history_survives_saving() {
    let items: Vec<String> = ["notepad", "cmd /k dir", "a b"].iter().map(|s| s.to_string()).collect();
    let mut u = Values::empty();
    save_run_history(&mut u, &items);
    assert_eq!(u.text("RunHistory").as_deref(), Some("notepad\ncmd /k dir\na b"));
    assert_eq!(load_run_history(&Some(u)), items);
    assert!(load_run_history(&None).is_empty());
    assert_eq!(load_run_history(&key(&[("RunHistory", t("\na\n\nb\n"))])), vec!["a", "b"]);
    let mut e = Values::empty();
    save_run_history(&mut e, &Vec::new());
    assert!(load_run_history(&Some(e)).is_empty());
}

#[test]
fn pins_are_read_in_position_order() {
    let text = "Taskbar9=outside.exe\r\n[PINUTIL]\r\n; Taskbar8=no.exe\r\n//Taskbar7=no.exe\r\n Taskbar2 = %windir%\\b.exe \r\nTaskbar0=a.exe\r\nStartMenu5=s5.exe\r\nTASKBAR+1=mid.exe\r\nTaskbar=none\r\nTaskbarx=none\r\nTaskbar3=\r\nStartMenu5=s5b.exe\r\nStartMenu1=s1=x.exe\r\n[Other]\r\nTaskbar1=late.exe\r\n";
    let p = Pins::load(&Some(text.as_bytes().to_vec()));
    assert_eq!(p.taskbar, vec!["a.exe", "mid.exe", "%windir%\\b.exe"]);
    assert_eq!(p.start_menu, vec!["s1=x.exe", "s5.exe", "s5b.exe"]);
    let wide = Pins::load(&Some("[PinUtil]\nTaskbar1=\u{fc}\u{20ac}\u{1f600}.exe\n".as_bytes().to_vec()));
    assert_eq!(wide.taskbar, vec!["\u{fc}\u{20ac}\u{1f600}.exe"]);
    let none = Pins::load(&None);
    assert!(none.taskbar.is_empty() && none.start_menu.is_empty());
}

#[test]
fn pins_survive_bytes_that_are_no_text() {
    let mut bytes = b"[PinUtil]\nTaskbar1=a".to_vec();
    bytes.push(0xff);
    bytes.extend_from_slice(b"b.exe\n");
    let p = Pins::load(&Some(bytes));
    assert_eq!(p.taskbar, vec!["a\u{FFFD}b.exe"]);
}

#[test]
fn pin_paths_are_expanded() {
    let units: Vec<u16> = "X:\\Windows\\e.exe".encode_utf16().chain(std::iter::once(0)).collect();
    let n = units.len() as u32;
    assert_eq!(expand_env("%windir%\\e.exe", n, n, &units), "X:\\Windows\\e.exe");
    assert_eq!(expand_env("%windir%\\e.exe", 0, n, &units), "%windir%\\e.exe");
    assert_eq!(expand_env("raw", n, 0, &units), "raw");
    assert_eq!(ini_path(&None, &None), "X:\\Windows\\System32\\PinUtil.ini");
    assert_eq!(ini_path(&None, &Some("D:\\W".to_string())), "D:\\W\\System32\\PinUtil.ini");
    assert_eq!(ini_path(&Some("C:\\W".to_string()), &None), "C:\\W\\System32\\PinUtil.ini");
}
