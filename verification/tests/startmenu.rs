use startpe::config::Config;
use startpe::geometry::Rect;
use startpe::paint::{Draw, Font};
use startpe::paths::{base_name, join, parent, same};
use startpe::start_menu::items::{
    collect_dir, is_launchable, search_roots, sort_items, DirEntry, Item, ItemKind,
};
use startpe::start_menu::{
    arrow_dir, build_right_items, power_command, programs_path, twin_path, window_region, Action, Dir, Hit,
    KeyOutcome, Listing, MenuState,
};
use startpe::taskbar::COL_HOVER;

fn file(name: &str) -> DirEntry {
    DirEntry { path: format!("P\\{name}"), name: Some(name.to_string()), is_dir: false, children: vec![] }
}

fn dir(name: &str, children: Vec<DirEntry>) -> DirEntry {
    DirEntry { path: format!("P\\{name}"), name: Some(name.to_string()), is_dir: true, children }
}

fn listing(roots: Vec<Vec<DirEntry>>) -> Listing {
    Listing { roots, current: vec![], twins: vec![], pin_names: vec![] }
}

fn names(v: &[Item]) -> Vec<String> {
    v.iter().map(|i| i.name.clone()).collect()
}

fn menu(pins: &[&str]) -> MenuState {
    let r = build_right_items(&Some("U".to_string()), &Some("X:\\U".to_string()), &Config::default(), "wt.exe");
    MenuState::create(&Config::default(), r, pins.iter().map(|s| s.to_string()).collect(), None, 96)
}

fn chars(s: &str) -> Vec<char> {
    s.chars().collect()
}

#[test]
fn stems_and_extensions_follow_paths() {
    for n in ["a.lnk", "a.b.EXE", "noext", ".lnk", "..", "x.", "a..url", "b.cmd", "b.txt", "ü.Bat", "c.cmdx"] {
        let p = std::path::Path::new(n);
        let want = matches!(
            p.extension().and_then(|e| e.to_str()).map(|e| e.to_ascii_lowercase()),
            Some(ref e) if ["lnk", "exe", "bat", "cmd", "url"].contains(&e.as_str())
        );
        assert_eq!(is_launchable(&chars(n)), want, "{n}");
        let mut v = Vec::new();
        collect_dir(&vec![dir(n, vec![])], &mut v);
        let stem = p.file_stem().and_then(|s| s.to_str()).unwrap_or("..");
        assert_eq!(v[0].name, stem, "{n}");
    }
}

#[test]
fn folders_merge_and_programs_are_kept() {
    let mut v = Vec::new();
    let mut broken = file("x.exe");
    broken.name = None;
    collect_dir(
        &vec![dir("Tools", vec![]), file("b.lnk"), file("desktop.ini"), file("Desktop.lnk"), file("readme.txt"), broken],
        &mut v,
    );
    collect_dir(&vec![dir("TOOLS", vec![]), file("b.lnk"), dir("Other", vec![])], &mut v);
    assert_eq!(names(&v), vec!["Tools", "b", "b", "Other"]);
    assert!(matches!(&v[1].kind, ItemKind::Launch(p) if p == "P\\b.lnk"));
    assert!(matches!(&v[3].kind, ItemKind::Folder(p) if p == "P\\Other"));
}

#[test]
fn sorting_puts_folders_first() {
    let item = |k: u8, n: &str, i: u64| Item {
        kind: match k {
            0 => ItemKind::Back,
            1 => ItemKind::Folder(n.to_string()),
            _ => ItemKind::Launch(n.to_string()),
        },
        name: n.to_string(),
        icon: Some(i),
    };
    let v = sort_items(vec![
        item(2, "beta", 0), item(1, "Zoo", 1), item(2, "Alpha", 2), item(0, "zz", 3), item(1, "apple", 4),
        item(2, "ALPHA", 5), item(2, "Äpfel", 6),
    ]);
    assert_eq!(names(&v), vec!["zz", "apple", "Zoo", "Alpha", "ALPHA", "beta", "Äpfel"]);
    assert_eq!((v[3].icon, v[4].icon), (Some(2), Some(5)));
}

#[test]
fn searching_walks_the_tree() {
    let deep = |n: usize| {
        let mut d = vec![file("match.exe")];
        for i in 0..n {
            d = vec![dir(&format!("d{i}"), d)];
        }
        d
    };
    assert_eq!(search_roots(&vec![deep(4)], &chars("match")).len(), 1);
    assert_eq!(search_roots(&vec![deep(5)], &chars("match")).len(), 0);
    let many: Vec<DirEntry> = (0..80).map(|i| file(&format!("app{i}.lnk"))).collect();
    assert_eq!(search_roots(&vec![many, vec![file("app.lnk")]], &chars("app")).len(), 60);
    let mixed = vec![file("Note Pad.LNK"), file("desktop.lnk"), file("pad.txt"), dir("pad", vec![file("iPAD.url")])];
    assert_eq!(names(&search_roots(&vec![mixed], &chars("pad"))), vec!["Note Pad", "iPAD"]);
}

#[test]
fn a_query_is_lowered_before_it_is_searched() {
    let mut m = menu(&[]);
    for c in "ÄPF".chars() {
        assert!(m.on_char(c as u32, 96));
    }
    let l = listing(vec![vec![file("Äpfel.lnk"), file("apfel.lnk")]]);
    m.edited(&l, 96);
    assert_eq!(names(&m.items), vec!["Äpfel"]);
    assert_eq!(m.hover, Hit::Search);
}

#[test]
fn the_list_follows_pins_folders_and_all_apps() {
    let mut m = menu(&["X:\\a.exe", "X:\\b.exe"]);
    let mut l = listing(vec![vec![dir("F", vec![]), file("z.exe")], vec![file("Y.exe")]]);
    l.pin_names = vec!["Bee".to_string(), "Aye".to_string()];
    m.edited(&l, 96);
    assert_eq!(names(&m.items), vec!["Bee", "Aye"]);
    assert!(matches!(m.resolve(Hit::AllPrograms, 96), Action::Navigate));
    m.navigated(&l, 96);
    assert_eq!(names(&m.items), vec!["F", "Y", "z"]);
    assert_eq!(m.hover, Hit::Row(0));
    assert!(matches!(m.resolve(Hit::Row(0), 96), Action::Navigate));
    assert_eq!(m.stack, vec!["P\\F"]);
    l.current = vec![file("in.exe")];
    l.twins = vec![vec![file("twin.exe")]];
    m.set_icon(0, 9);
    let freed = m.navigated(&l, 96);
    assert_eq!(freed, vec![9]);
    assert_eq!(names(&m.items), vec!["‹ Back", "in", "twin"]);
    m.stack.push("deeper".to_string());
    m.navigated(&l, 96);
    assert_eq!(names(&m.items), vec!["‹ Back", "in"]);
    assert!(matches!(m.resolve(Hit::Row(0), 96), Action::Navigate));
    assert_eq!(m.stack, vec!["P\\F"]);
    assert_eq!(m.icon_path(1).as_deref(), Some("P\\in.exe"));
    assert_eq!(m.icon_path(0), None);
    m.reset();
    assert!(m.stack.is_empty() && !m.showing_all);
}

#[test]
fn right_links() {
    let m = menu(&[]);
    let l: Vec<(&str, &str, &str)> =
        m.rights.iter().map(|r| (r.label.as_str(), r.cmd.as_str(), r.args.as_str())).collect();
    assert_eq!(
        l,
        vec![
            ("U", "X:\\U", ""),
            ("Downloads", "X:\\U\\Downloads", ""),
            ("This PC", "explorer.exe", "shell:MyComputerFolder"),
            ("Control Panel", "control.exe", ""),
            ("Terminal", "wt.exe", ""),
            ("Run…", "@startpe:run-dialog", ""),
        ]
    );
    let d = build_right_items(&None, &None, &Config::default(), "cmd.exe");
    assert_eq!((d[0].label.as_str(), d[0].cmd.as_str()), ("User", "X:\\Users\\Default"));
}

#[test]
fn actions_of_the_parts() {
    let mut m = menu(&[]);
    m.edited(&listing(vec![vec![file("a.exe")]]), 96);
    assert!(matches!(m.resolve(Hit::Row(0), 96), Action::Launch(p) if p == "P\\a.exe"));
    assert!(matches!(m.resolve(Hit::Row(5), 96), Action::Nothing));
    assert!(matches!(m.resolve(Hit::Right(3), 96), Action::Exec(c, _) if c == "control.exe"));
    assert!(matches!(m.resolve(Hit::Right(5), 96), Action::RunWindow));
    assert!(matches!(m.resolve(Hit::Right(9), 96), Action::Nothing));
    assert!(matches!(m.resolve(Hit::Shutdown, 96), Action::Shutdown));
    assert!(matches!(m.resolve(Hit::ShutdownMenu, 96), Action::ShutdownMenu));
    assert!(Action::RunWindow.hides() && !Action::Navigate.hides() && !Action::ShutdownMenu.hides());
    assert_eq!(power_command(1).map(|c| c.args), Some("reboot".to_string()));
    assert_eq!(power_command(2).map(|c| (c.program, c.args)), Some(("wpeutil.exe".to_string(), "shutdown".to_string())));
    assert!(power_command(0).is_none());
}

#[test]
fn hit_testing_has_exact_edges() {
    let mut m = menu(&[]);
    m.edited(&listing(vec![vec![file("a.exe"), file("b.exe")]]), 96);
    assert_eq!((m.width, m.height), (420, 512));
    assert_eq!(m.search_box_rect(96), Rect { left: 12, top: 473, right: 242, bottom: 503 });
    assert_eq!(m.shutdown_rect(96), Rect { left: 280, top: 464, right: 392, bottom: 512 });
    assert_eq!(m.shutdown_chevron_rect(96), Rect { left: 392, top: 464, right: 414, bottom: 512 });
    assert_eq!(m.hit_test(20, 39, 96), Hit::Nothing);
    assert_eq!(m.hit_test(20, 40, 96), Hit::Row(0));
    assert_eq!(m.hit_test(20, 74, 96), Hit::Row(1));
    assert_eq!(m.hit_test(20, 108, 96), Hit::Nothing);
    assert_eq!(m.hit_test(20, 430, 96), Hit::AllPrograms);
    assert_eq!(m.hit_test(246, 76, 96), Hit::Right(0));
    assert_eq!(m.hit_test(300, 75, 96), Hit::Nothing);
    assert_eq!(m.hit_test(300, 303, 96), Hit::Right(5));
    assert_eq!(m.hit_test(300, 304, 96), Hit::Nothing);
    assert_eq!(m.hit_test(20, 480, 96), Hit::Search);
    assert_eq!(m.hit_test(300, 480, 96), Hit::Shutdown);
    assert_eq!(m.hit_test(400, 480, 96), Hit::ShutdownMenu);
    assert!(m.on_mouse_move(20, 480, 96) == false);
    assert!(m.on_mouse_move(20, 50, 96));
    assert_eq!(m.hover, Hit::Row(0));
}

#[test]
fn arrows_move_the_focus() {
    let mut m = menu(&[]);
    m.edited(&listing(vec![vec![file("a.exe"), file("b.exe")]]), 96);
    let mut go = |from: Hit, d: Dir| {
        m.hover = from;
        m.navigate(d, 96);
        m.hover
    };
    assert_eq!(go(Hit::Search, Dir::Right), Hit::Shutdown);
    assert_eq!(go(Hit::Shutdown, Dir::Right), Hit::ShutdownMenu);
    assert_eq!(go(Hit::Search, Dir::Up), Hit::AllPrograms);
    assert_eq!(go(Hit::AllPrograms, Dir::Up), Hit::Row(1));
    assert_eq!(go(Hit::Row(1), Dir::Up), Hit::Row(0));
    assert_eq!(go(Hit::Row(0), Dir::Up), Hit::Row(0));
    assert_eq!(go(Hit::Row(1), Dir::Down), Hit::AllPrograms);
    assert_eq!(go(Hit::AllPrograms, Dir::Down), Hit::Search);
    assert_eq!(go(Hit::Row(0), Dir::Right), Hit::Right(0));
    assert_eq!(go(Hit::Right(0), Dir::Right), Hit::ShutdownMenu);
    assert_eq!(go(Hit::Right(5), Dir::Down), Hit::Shutdown);
    assert_eq!(go(Hit::Right(2), Dir::Left), Hit::Row(0));
    assert_eq!(go(Hit::ShutdownMenu, Dir::Up), Hit::Right(5));
    assert_eq!(go(Hit::ShutdownMenu, Dir::Left), Hit::Shutdown);
    assert_eq!(go(Hit::Shutdown, Dir::Left), Hit::Search);
    assert_eq!(go(Hit::Nothing, Dir::Down), Hit::Row(0));
    assert_eq!(go(Hit::Row(1), Dir::Left), Hit::Row(1));
    assert_eq!(arrow_dir(0x28), Some(Dir::Down));
    assert_eq!(arrow_dir(0x41), None);
}

#[test]
fn keys_of_the_menu() {
    let mut m = menu(&[]);
    m.edited(&listing(vec![vec![dir("F", vec![]), file("a.exe")]]), 96);
    assert!(matches!(m.on_key(0x0D, 96), KeyOutcome::Act(Action::Launch(p)) if p == "P\\a.exe"));
    m.hover = Hit::Row(0);
    assert!(matches!(m.on_key(0x27, 96), KeyOutcome::Act(Action::Navigate)));
    assert_eq!(m.stack, vec!["P\\F"]);
    assert!(matches!(m.on_key(0x28, 96), KeyOutcome::Repaint));
    assert_eq!(m.hover, Hit::Row(1));
    assert!(matches!(m.on_key(0x1B, 96), KeyOutcome::Hide));
    m.on_char('q' as u32, 96);
    assert!(matches!(m.on_key(0x1B, 96), KeyOutcome::Edited));
    assert_eq!(m.query, "");
    assert!(matches!(m.on_key(0x70, 96), KeyOutcome::Nothing));
}

#[test]
fn typing_edits_the_query() {
    let mut m = menu(&[]);
    assert!(!m.on_char(8, 96));
    assert!(m.on_char('é' as u32, 96));
    assert!(m.on_char('x' as u32, 96));
    assert!(!m.on_char(0x1B, 96));
    assert!(!m.on_char(0x7F, 96));
    assert!(!m.on_char(0xD800, 96));
    assert_eq!(m.query, "éx");
    assert!(m.on_char(8, 96));
    assert_eq!(m.query, "é");
    let mut v: u32 = 0;
    while v < 0x300 {
        if let Some(ch) = char::from_u32(v) {
            let mut k = menu(&[]);
            assert_eq!(k.on_char(v, 96), !ch.is_control(), "{v:x}");
        }
        v += 1;
    }
}

#[test]
fn the_list_scrolls() {
    let mut m = menu(&[]);
    let many: Vec<DirEntry> = (0..50).map(|i| file(&format!("app{i:02}.lnk"))).collect();
    m.edited(&listing(vec![many]), 96);
    // 50 rows of 34 in 390 pixels.
    assert_eq!(m.max_scroll(96), 1310);
    m.on_wheel(-120, 96);
    assert_eq!(m.scroll, 34);
    m.on_wheel(1200, 96);
    assert_eq!(m.scroll, 0);
    m.on_wheel(-32768, 96);
    assert_eq!(m.scroll, 1310);
    m.scroll_into_view(0, 96);
    assert_eq!(m.scroll, 0);
    m.scroll_into_view(12, 96);
    assert_eq!(m.scroll, 52);
    m.scroll_into_view(5, 96);
    assert_eq!(m.scroll, 52);
}

#[test]
fn the_menu_opens_above_the_taskbar() {
    let m = menu(&[]);
    assert_eq!(m.open_at(1040, 1920, true, 96), (750, 520));
    assert_eq!(m.open_at(1040, 1920, false, 96), (8, 520));
    assert_eq!(m.open_at(1040, 300, true, 96), (8, 520));
    assert_eq!(m.shutdown_anchor(8, 520, 96), (288, 984));
    assert_eq!(m.position_caret(20, 96), (66, 480));
    let o = window_region(420, 512, 96);
    assert_eq!(o.body, Rect { left: 0, top: 32, right: 421, bottom: 513 });
    assert_eq!(o.circle, Rect { left: 293, top: 0, right: 358, bottom: 65 });
    assert_eq!(o.corner, 24);
    assert_eq!(programs_path("C:\\ProgramData"), "C:\\ProgramData\\Microsoft\\Windows\\Start Menu\\Programs");
    assert_eq!(twin_path("B", "A\\Tools").as_deref(), Some("B\\Tools"));
    assert_eq!(twin_path("A", "A\\Tools"), None);
    assert_eq!(programs_path(""), "Microsoft\\Windows\\Start Menu\\Programs");
    assert_eq!(programs_path("C:\\"), "C:\\Microsoft\\Windows\\Start Menu\\Programs");
    assert_eq!(programs_path("C:"), "C:Microsoft\\Windows\\Start Menu\\Programs");
    assert_eq!(twin_path("c:\\A/", "C:\\A\\\\Tools\\"), None);
    assert_eq!(twin_path("C:\\A", "\\A\\Tools").as_deref(), Some("C:\\A\\Tools"));
    assert_eq!(twin_path("B\\", "A/Tools/.").as_deref(), Some("B\\Tools"));
    assert_eq!(twin_path("B", "A\\.."), None);
    assert_eq!(twin_path("B", "C:\\"), None);
}

#[test]
fn a_share_is_no_folder() {
    assert_eq!(twin_path("\\\\srv\\share", "\\srv\\share\\X").as_deref(), Some("\\\\srv\\share\\X"));
    assert_eq!(twin_path("\\srv\\share", "\\\\srv\\share\\X").as_deref(), Some("\\srv\\share\\X"));
    assert_eq!(twin_path("//srv/share/", "\\\\srv\\share\\X"), None);
    assert_eq!(twin_path("\\\\srv\\other", "\\\\srv\\share\\X").as_deref(), Some("\\\\srv\\other\\X"));
    assert_eq!(twin_path("B", "\\\\srv\\share"), None);
    assert_eq!(twin_path("B", "\\\\srv").as_deref(), Some("B\\srv"));
    assert_eq!(parent("\\\\srv\\share\\X").as_deref(), Some("\\\\srv\\share\\"));
    assert_eq!(parent("\\\\srv\\share\\"), None);
    assert_eq!(parent("\\srv\\share").as_deref(), Some("\\srv"));
    assert_eq!(base_name("\\\\srv\\share\\X\\").as_deref(), Some("X"));
    assert_eq!(join("\\\\srv\\share", "X"), "\\\\srv\\share\\X");
    assert!(same("\\\\srv\\share", "\\\\srv\\share\\"));
    assert!(!same("\\\\srv\\share", "\\\\srv\\SHARE"));
    assert!(!same(".\\a", "a") && same("a\\.\\b", "a\\b"));
}

#[test]
fn a_menu_may_have_negative_sides() {
    let mut c = Config::default();
    c.menu_width = -100;
    c.menu_height = -50;
    let mut m = MenuState::create(&c, vec![], vec![], None, 96);
    assert_eq!((m.width, m.height), (-100, -18));
    m.edited(&listing(vec![vec![file("a.lnk")]]), 96);
    assert_eq!(m.open_at(1040, 1920, true, 96), (1010, 1050));
    assert_eq!(window_region(m.width, m.height, 96).body, Rect { left: 0, top: 32, right: -99, bottom: -17 });
    assert!(!m.paint(96).is_empty());
}

#[test]
fn many_pins_are_all_listed() {
    let pins: Vec<String> = (0..0x9000).map(|i| format!("X:\\{i}.exe")).collect();
    let mut m = MenuState::create(&Config::default(), vec![], pins.clone(), None, 96);
    let mut l = listing(vec![]);
    l.pin_names = pins;
    m.edited(&l, 96);
    assert_eq!(m.items.len(), 0x9000);
}

#[test]
fn the_menu_is_drawn() {
    let mut m = menu(&["X:\\p.exe"]);
    let mut l = listing(vec![vec![dir("F", vec![])]]);
    l.pin_names = vec!["P".to_string()];
    m.edited(&l, 96);
    let v = m.paint(96);
    assert!(matches!(v[2], Draw::Clip { rect } if rect == Rect { left: 6, top: 40, right: 246, bottom: 430 }));
    assert!(matches!(&v[3], Draw::Text { text, rect, .. } if text == "P" && rect.left == 46 && rect.bottom == 74));
    assert!(matches!(v[4], Draw::Unclip));
    assert!(matches!(&v[7], Draw::Text { text, .. } if text == "All apps"));
    m.resolve(Hit::AllPrograms, 96);
    m.navigated(&l, 96);
    let w = m.paint(96);
    assert!(matches!(w[3], Draw::Fill { color: COL_HOVER, .. }));
    assert!(matches!(&w[5], Draw::Text { font: Font::Glyph, text, .. } if text == "\u{E76C}"));
    assert!(w.iter().any(|d| matches!(d, Draw::Text { text, .. } if text == "Pinned")));
    assert!(w.iter().any(|d| matches!(d, Draw::Text { text, .. } if text == "Search programs and files")));
    assert!(matches!(w[w.len() - 1], Draw::Ring { width: 3, .. }));
    assert!(w.iter().any(|d| matches!(d, Draw::ClipEllipse { rect } if *rect == Rect { left: 293, top: 0, right: 358, bottom: 65 })));
    m.on_char('q' as u32, 96);
    m.edited(&listing_with_pins(), 96);
    assert!(m.paint(96).iter().any(|d| matches!(d, Draw::Text { text, .. } if text == "No results")));
    m.avatar = Some(5);
    assert!(m.paint(96).iter().any(|d| matches!(d, Draw::Image { bitmap: 5, x: 293, width: 64, .. })));
}

fn listing_with_pins() -> Listing {
    Listing { roots: vec![], current: vec![], twins: vec![], pin_names: vec!["P".to_string()] }
}
