use startpe::menu::{
    access_key, first_selectable, is_menu_key, is_press, kb_hook, measure_label, measure_panel, next_sel,
    resolve, root_pos, track, Act, Item, Kind, Menu, RItem,
};
use startpe::paint::Draw;
use startpe::config::Config;
use startpe::power::{power_action, power_menu, PowerAction};
use startpe::taskbar::{COL_BG, COL_HOVER, COL_TEXT_DIM};

fn e(id: u32, t: &str) -> Item {
    Item::Entry(id, t.to_string())
}

fn sample() -> Vec<RItem> {
    resolve(&vec![
        e(1, "&One"),
        Item::Separator,
        Item::Submenu("&More".to_string(), vec![Item::Separator, e(21, "A&lpha"), e(22, "Beta")]),
        e(4, "Four"),
    ])
}

fn open(select_first: bool) -> Menu {
    Menu::track_items(sample(), &vec![50, 0, 60, 40], 77, 100, 500, 0x20, 1000, 800, 96, select_first)
        .unwrap()
        .0
}

#[test]
fn access_keys_are_marked() {
    assert_eq!(access_key("&Run"), Some('r'));
    assert_eq!(access_key("Sh&ut down"), Some('u'));
    assert_eq!(access_key("A && B"), None);
    assert_eq!(access_key("R&&D"), None);
    assert_eq!(access_key("&&x"), None);
    assert_eq!(access_key("&&&x"), Some('x'));
    assert_eq!(access_key("A && &B"), Some('b'));
    assert_eq!(access_key("end&"), None);
    assert_eq!(access_key("none"), None);
    assert_eq!(access_key("&é"), Some('é'));
    assert_eq!(measure_label("Sh&ut down"), "Shut down");
    assert_eq!(measure_label("a&&b&c&d"), "a&&bc&d");
    assert_eq!(measure_label("R&&D"), "R&&D");
    assert_eq!(measure_label("&&&x"), "&&x");
    assert_eq!(measure_label("end&"), "end");
    assert_eq!(measure_label("&a&b"), "a&b");
}

#[test]
fn pairs_become_items() {
    let v = track(&vec![(1, "Restart".to_string()), (0, String::new()), (2, "Shut down".to_string())]);
    assert!(matches!(&v[0], Item::Entry(1, t) if t == "Restart"));
    assert!(matches!(v[1], Item::Separator));
    assert!(matches!(&v[2], Item::Entry(2, _)));
}

#[test]
fn items_resolve_with_their_children() {
    let v = sample();
    assert_eq!((v[0].cmd, v[0].access, v[0].label.as_str()), (1, Some('o'), "&One"));
    assert!(matches!(v[1].kind, Kind::Separator));
    assert!(matches!(&v[2].kind, Kind::Submenu(c) if c.len() == 3 && c[1].cmd == 21 && c[1].access == Some('l')));
}

#[test]
fn panels_are_measured() {
    // 60 + 16 + 16 + 22 is below the least width; three rows, one separator, two margins.
    assert_eq!(measure_panel(&sample(), &vec![50, 0, 60, 40], 96), (170, 111));
    assert_eq!(measure_panel(&sample(), &vec![50, 900, 300, 40], 96), (354, 111));
    assert_eq!(root_pos(100, 500, 0x20, 170, 111, 1000, 800, 96), (100, 389));
    assert_eq!(root_pos(5000, -9, 0x8, 170, 111, 1000, 800, 96), (828, 2));
    assert_eq!(root_pos(0, 0, 0, 2000, 2000, 1000, 800, 96), (2, 2));
}

#[test]
fn selection_skips_separators_and_wraps() {
    let v = sample();
    assert_eq!(first_selectable(&v), Some(0));
    assert_eq!(next_sel(&v, Some(0), true), Some(2));
    assert_eq!(next_sel(&v, Some(2), false), Some(0));
    assert_eq!(next_sel(&v, Some(3), true), Some(0));
    assert_eq!(next_sel(&v, Some(0), false), Some(3));
    assert_eq!(next_sel(&v, None, true), Some(0));
    assert_eq!(next_sel(&v, None, false), Some(3));
    let only = resolve(&vec![Item::Separator, Item::Separator]);
    assert_eq!(next_sel(&only, None, true), None);
    assert_eq!(first_selectable(&only), None);
    assert_eq!(next_sel(&Vec::new(), None, true), None);
}

#[test]
fn a_menu_needs_items_and_a_window() {
    assert!(Menu::track_items(vec![], &vec![], 1, 0, 0, 0, 1000, 800, 96, false).is_none());
    assert!(Menu::track_items(sample(), &vec![1, 1, 1, 1], 0, 0, 0, 0, 1000, 800, 96, false).is_none());
    let m = open(true);
    assert_eq!(m.panels[0].hover, Some(0));
    assert!(!m.finished());
    assert_eq!(m.chosen(), 0);
    assert!(m.owns(77) && !m.owns(78));
}

#[test]
fn keys_walk_and_pick() {
    let mut m = open(true);
    assert!(matches!(m.on_key(0x28), Act::Repaint));
    assert_eq!(m.panels[0].hover, Some(2));
    assert!(matches!(m.on_key(0x27), Act::OpenSub(0, 2)));
    assert_eq!(m.submenu(0, 2).unwrap().len(), 3);
    let (closed, place) = m.open_submenu(0, 2, true, &vec![0, 30, 30], 88, 1000, 800, 96);
    assert!(closed.is_empty());
    let place = place.unwrap();
    assert_eq!((place.x, place.y, place.width, place.height), (266, 428, 170, 81));
    assert_eq!(m.panels[1].hover, Some(1));
    assert!(m.submenu(0, 2).is_none());
    assert!(matches!(m.on_key(0x25), Act::Closed(c) if c == vec![88]));
    assert!(matches!(m.on_key(0x25), Act::Nothing));
    m.open_submenu(0, 2, true, &vec![0, 30, 30], 89, 1000, 800, 96);
    assert!(matches!(m.on_key(b'L'), Act::Finished));
    assert_eq!(m.chosen(), 21);
}

#[test]
fn escape_closes_one_level_at_a_time() {
    let mut m = open(false);
    m.open_submenu(0, 2, false, &vec![0, 30, 30], 88, 1000, 800, 96);
    assert_eq!(m.panels[1].hover, None);
    assert!(matches!(m.on_key(0x0D), Act::Nothing));
    assert!(matches!(m.on_key(0x1B), Act::Closed(_)));
    assert!(matches!(m.on_key(0x1B), Act::Finished));
    assert!(m.finished() && m.chosen() == 0);
    let mut k = open(false);
    assert!(matches!(k.on_key(b'M'), Act::OpenSub(0, 2)));
    assert!(matches!(k.on_key(b'Z'), Act::Nothing));
    assert!(matches!(k.on_key(b'O'), Act::Finished));
    assert_eq!(k.chosen(), 1);
}

#[test]
fn the_mouse_highlights_opens_and_closes() {
    let mut m = open(false);
    // Rows start at 389 + 6.
    let a = m.on_mouse_move(150, 400, 96);
    assert!(a.repaint && a.open.is_none() && m.panels[0].hover == Some(0));
    let b = m.on_mouse_move(150, 400, 96);
    assert!(!b.repaint);
    let c = m.on_mouse_move(150, 440, 96);
    assert_eq!(c.open, Some((0, 2)));
    m.open_submenu(0, 2, false, &vec![0, 30, 30], 88, 1000, 800, 96);
    let same = m.on_mouse_move(151, 440, 96);
    assert!(same.closed.is_empty() && same.open.is_none());
    let sep = m.on_mouse_move(150, 428, 96);
    assert_eq!(sep.closed, vec![88]);
    assert_eq!(m.panels[0].hover, None);
    assert!(matches!(m.on_button_up(150, 428, 96), Act::Nothing));
    assert!(matches!(m.on_button_up(150, 440, 96), Act::OpenSub(0, 2)));
    assert!(matches!(m.on_button_up(150, 400, 96), Act::Finished));
    assert_eq!(m.chosen(), 1);
    assert!(m.mouse_hook(0, 0x201, 1, 1, 96));
    assert!(!m.mouse_hook(0, 0x201, 150, 400, 96));
    assert!(!m.mouse_hook(0, 0x200, 1, 1, 96));
    assert!(m.winevent_hook(3, 5) && !m.winevent_hook(3, 77) && !m.winevent_hook(4, 5));
}

#[test]
fn submenus_flip_at_the_edge() {
    let (mut m, _) = Menu::track_items(sample(), &vec![50, 0, 60, 40], 77, 700, 100, 0, 900, 800, 96, false).unwrap();
    let (_, p) = m.open_submenu(0, 2, false, &vec![0, 30, 30], 88, 900, 800, 96);
    assert_eq!(p.unwrap().x, 534);
    let mut n = open(false);
    let (_, none) = n.open_submenu(0, 2, false, &vec![0, 30, 30], 0, 900, 800, 96);
    assert!(none.is_none() && n.panels.len() == 1);
    let (_, none) = n.open_submenu(0, 0, false, &vec![], 5, 900, 800, 96);
    assert!(none.is_none());
    n.dismiss();
    assert!(n.finished());
}

#[test]
fn menu_keys_are_consumed() {
    assert!(is_menu_key(0x26) && is_menu_key(0x5A) && is_menu_key(0x30) && is_menu_key(0x1B));
    assert!(!is_menu_key(0x10) && !is_menu_key(0x5B));
    assert!(kb_hook(0, 0x100, 0x41) && !kb_hook(-1, 0x100, 0x41) && !kb_hook(0, 0x101, 0x41));
    assert!(is_press(0xA4) && !is_press(0x202));
}

#[test]
fn a_panel_is_drawn() {
    let mut m = open(true);
    m.on_key(0x28);
    let v = m.paint(0, 0xABCDEF, 96);
    assert!(matches!(v[0], Draw::Fill { color: COL_BG, .. }));
    assert!(matches!(&v[1], Draw::Text { text, rect, .. } if text == "&One" && rect.left == 16 && rect.top == 6));
    assert!(matches!(v[2], Draw::Fill { color: COL_TEXT_DIM, rect } if rect.top == 40 && rect.bottom == 41));
    assert!(matches!(v[3], Draw::Pill { fill: COL_HOVER, radius: 7, .. }));
    assert!(matches!(&v[5], Draw::Text { text, .. } if text == "\u{E76C}"));
    assert!(matches!(v[7], Draw::Outline { edge: 0xABCDEF, radius: 12, .. }));
}

#[test]
fn a_long_menu_adds_up() {
    let items: Vec<Item> = (0..0x9000).map(|i| Item::Entry(i, String::new())).collect();
    let widths = vec![10; 0x9000];
    let (m, p) = Menu::track_items(resolve(&items), &widths, 7, 0, 0, 0, 1000, 800, 96, false).unwrap();
    assert_eq!(p.height, 0x9000 * 30 + 12);
    assert_eq!(m.hit_panel_item(p.x + 5, p.y + 6 + 30 * 100, 96).unwrap().item, 100);
}

#[test]
fn the_power_menu_has_its_entries() {
    let r = resolve(&power_menu());
    let labels: Vec<String> = r.iter().map(|i| measure_label(&i.label)).collect();
    assert_eq!(
        labels,
        vec![
            "Event Viewer", "System", "Device Manager", "Disk Management", "Computer Management", "Terminal", "",
            "Task Manager", "File Explorer", "Run", "", "Shut down or restart", "Desktop"
        ]
    );
    let mut keys: Vec<char> = r.iter().filter_map(|i| i.access).collect();
    let n = keys.len();
    keys.sort();
    keys.dedup();
    assert_eq!(keys.len(), n);
    assert!(matches!(&r[11].kind, Kind::Submenu(c) if c.len() == 2));
}

#[test]
fn the_power_menu_does_what_it_says() {
    let mut c = Config::default();
    let run = |id: u32, c: &Config| match power_action(id, c, "wt.exe") {
        PowerAction::Run(k) => format!("{} {}", k.program, k.args),
        PowerAction::RunWindow => "run window".to_string(),
        PowerAction::SystemInfo => "system information".to_string(),
        PowerAction::ShowDesktop => "show desktop".to_string(),
        PowerAction::Nothing => "nothing".to_string(),
    };
    let all: Vec<String> = (0..14).map(|id| run(id, &c)).collect();
    assert_eq!(
        all,
        vec![
            "nothing", "eventvwr.msc ", "system information", "devmgmt.msc ", "diskmgmt.msc ", "compmgmt.msc ",
            "wt.exe ", "taskmgr.exe ", "explorer.exe shell:MyComputerFolder", "run window",
            "wpeutil.exe shutdown", "wpeutil.exe reboot", "show desktop", "nothing"
        ]
    );
    c.file_manager = Some("eden.exe".to_string());
    assert_eq!(run(8, &c), "eden.exe ");
}
