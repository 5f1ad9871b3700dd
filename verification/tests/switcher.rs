use startpe::alttab::{
    dummy_strokes, eligible, kb_hook, switch_to, thumb_size, tile_rect, AltTab, Entry, Held, Post,
};
use startpe::geometry::Rect;
use startpe::paint::Draw;
use startpe::taskbar::input::{HookKey, WindowStep};
use startpe::taskbar::{WindowFacts, COL_ACCENT, COL_ACTIVE, COL_BG};

fn key(vk: u32, down: bool) -> HookKey {
    HookKey { code: 0, message: if down { 0x104 } else { 0x105 }, vk, flags: 0, win_held: false }
}

fn held(alt: bool, shift: bool) -> Held {
    Held { overlay: true, alt, shift }
}

fn entries(n: u64) -> Vec<Entry> {
    (0..n)
        .map(|i| Entry {
            hwnd: 100 + i,
            title: format!("w{i}"),
            icon: Some(i),
            shot: if i % 2 == 0 { Some(500 + i) } else { None },
            shot_w: 100,
            shot_h: 50,
        })
        .collect()
}

#[test]
fn alt_tab_opens_and_release_commits() {
    let mut e = false;
    let a = kb_hook(&mut e, key(0x09, true), held(true, false));
    assert!(e && a.dummy && a.swallow && a.post == Some(Post::Step(true)));
    let b = kb_hook(&mut e, key(0x09, true), held(true, true));
    assert!(!b.dummy && b.post == Some(Post::Step(false)));
    let c = kb_hook(&mut e, key(0xA4, false), held(false, false));
    assert!(!e && !c.swallow && c.post == Some(Post::Commit));
    let d = kb_hook(&mut e, key(0xA4, false), held(false, false));
    assert_eq!(d.post, None);
}

#[test]
fn navigation_keys_work_while_engaged() {
    for (vk, post, stays) in [
        (0x1Bu32, Post::Cancel, false),
        (0x0D, Post::Commit, false),
        (0x27, Post::Step(true), true),
        (0x25, Post::Step(false), true),
        (0x28, Post::NavRow(true), true),
        (0x26, Post::NavRow(false), true),
    ] {
        let mut e = true;
        let a = kb_hook(&mut e, key(vk, true), held(true, false));
        assert_eq!((a.post, a.swallow, e), (Some(post), true, stays));
        let mut off = false;
        let b = kb_hook(&mut off, key(vk, true), held(true, false));
        assert_eq!((b.post, b.swallow, off), (None, false, false));
    }
    let mut e = true;
    let r = kb_hook(&mut e, key(0xA5, true), held(true, false));
    assert!(r.swallow && r.post.is_none());
    let mut x = true;
    let none = Held { overlay: false, alt: true, shift: false };
    assert!(!kb_hook(&mut x, key(0x09, true), none).swallow);
    assert_eq!(dummy_strokes().len(), 2);
}

#[test]
fn eligible_windows() {
    let mut w = WindowFacts {
        hwnd: 1,
        visible: true,
        title_length: 1,
        exstyle: 0,
        cloaked: 0,
        rect: None,
        owner: 0,
        class: "X".to_string(),
    };
    assert!(eligible(&w));
    for c in ["StartPE_Peek", "StartPE_AltTab", "StartPE_Desktop", "Shell_SecondaryTrayWnd", "Progman"] {
        w.class = c.to_string();
        assert!(!eligible(&w));
    }
    w.class = "Y".to_string();
    w.cloaked = 1;
    assert!(!eligible(&w));
}

#[test]
fn thumbnails_fit_their_box() {
    // The box is 188 by 108 pixels.
    assert_eq!(thumb_size(1920, 1080, 96), Some((188, 105)));
    assert_eq!(thumb_size(100, 1000, 96), Some((10, 108)));
    assert_eq!(thumb_size(188, 108, 96), Some((188, 108)));
    assert_eq!(thumb_size(100_000, 1, 96), Some((188, 1)));
    assert_eq!(thumb_size(0, 5, 96), None);
    assert_eq!(thumb_size(5, -1, 96), None);
}

#[test]
fn the_grid_wraps_and_centres() {
    let mut a = AltTab::new();
    // 85% of 1000 is 850: three tiles of 200 with gaps of 10 fit in 826, a fourth does not.
    let (p, freed) = a.open(entries(6), 1000, 800, 96);
    let p = p.unwrap();
    assert!(freed.is_empty());
    assert_eq!((a.cols, a.width, a.height), (3, 644, 334));
    assert_eq!((p.x, p.y, p.corner), (178, 233, 16));
    assert_eq!(tile_rect(3, 6, 644, 0, 96), Rect { left: 12, top: 12, right: 212, bottom: 162 });
    assert_eq!(tile_rect(3, 6, 644, 4, 96), Rect { left: 222, top: 172, right: 422, bottom: 322 });
    assert_eq!(tile_rect(3, 4, 644, 3, 96), Rect { left: 222, top: 172, right: 422, bottom: 322 });
    assert_eq!(tile_rect(0, 4, 644, 3, 96), tile_rect(1, 4, 644, 3, 96));
    assert_eq!(tile_rect(usize::MAX, 4, 900, 3, 96), tile_rect(4, 4, 900, 3, 96));
    assert_eq!(a.tile_at(12, 12, 96), Some(0));
    assert_eq!(a.tile_at(215, 12, 96), None);
    assert_eq!(a.tile_at(300, 200, 96), Some(4));
}

#[test]
fn a_large_grid_finds_its_last_tile() {
    let mut a = AltTab::new();
    let (panel, _) = a.open(entries(0x5000), 2000, 800, 96);
    assert!(panel.is_some());
    let r = tile_rect(a.cols, 0x5000, a.width, 0x4fff, 96);
    assert_eq!(a.tile_at(r.left, r.top, 96), Some(0x4fff));
}

#[test]
fn steps_wrap_around() {
    let mut a = AltTab::new();
    assert!(!a.step(true));
    a.open(entries(5), 2000, 800, 96);
    assert!(a.step(false));
    assert_eq!(a.selected, 4);
    a.step(true);
    a.step(true);
    assert_eq!(a.selected, 1);
    a.cols = 2;
    a.nav_row(true);
    assert_eq!(a.selected, 3);
    a.nav_row(true);
    assert_eq!(a.selected, 0);
    a.nav_row(false);
    assert_eq!(a.selected, 3);
}

#[test]
fn committing_frees_the_screenshots() {
    let mut a = AltTab::new();
    a.open(entries(4), 2000, 800, 96);
    let (again, freed) = a.open(entries(3), 2000, 800, 96);
    assert!(again.is_some());
    assert_eq!(freed, vec![500, 502]);
    a.step(true);
    let (target, freed) = a.commit();
    assert_eq!(target, Some(101));
    assert_eq!(freed, vec![500, 502]);
    assert!(!a.shown && a.entries.is_empty());
    assert_eq!(a.commit().0, None);
    let (none, _) = a.open(vec![], 2000, 800, 96);
    assert!(none.is_none());
    assert_eq!(switch_to(3, true), vec![WindowStep::Restore(3), WindowStep::Foreground(3)]);
    assert_eq!(switch_to(3, false), vec![WindowStep::Foreground(3)]);
}

#[test]
fn the_mouse_picks_a_tile() {
    let mut a = AltTab::new();
    a.open(entries(6), 1000, 800, 96);
    assert!(a.on_mouse_move(300, 200, 96));
    assert_eq!(a.hover, Some(4));
    assert!(!a.on_mouse_move(301, 201, 96));
    assert!(!a.on_button_up(1, 1, 96));
    assert!(a.on_button_up(20, 20, 96));
    assert_eq!(a.selected, 0);
}

#[test]
fn the_panel_is_drawn() {
    let mut a = AltTab::new();
    a.open(entries(2), 1000, 800, 96);
    let v = a.paint(0x555555, 96);
    assert!(matches!(v[0], Draw::Fill { color: COL_BG, .. }));
    assert!(matches!(v[1], Draw::Round { fill: COL_ACTIVE, radius: 8, .. }));
    assert!(matches!(v[2], Draw::Icon { x: 20, y: 19, size: 16, .. }));
    assert!(matches!(&v[3], Draw::Text { text, rect, .. } if text == "w0" && rect.left == 42));
    assert!(matches!(v[4], Draw::Image { bitmap: 500, x: 62, y: 74, width: 100, height: 50 }));
    assert!(matches!(v[5], Draw::Outline { edge: COL_ACCENT, width: 2, .. }));
    assert!(matches!(v[8], Draw::Icon { size: 48, .. }));
    assert!(matches!(v[9], Draw::Outline { edge: 0x555555, width: 1, radius: 16, .. }));
    assert_eq!(v.len(), 10);
}
