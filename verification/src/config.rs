//! Configuration, read from the registry at startup.
//!
//! Values are read from the machine's key first, then overlaid by the user's. An
//! image build writes them machine-wide; the settings pane writes runtime changes
//! to the user's key.

use vstd::prelude::*;
use vstd::string::*;
use crate::text::{
    alike, char_views, chars_of, eq_ignore_case, split, split_char, string_of, trim, trimmed, views,
};
use crate::util::opt_view;

verus! {

/// Where both hives keep the values, below the hive.
pub const KEY: &'static str = "Software\\StartPE";

/// A registry value of a type that settings use.
#[derive(Debug)]
pub enum Value {
    Dword(u32),
    Text(String),
}

pub enum ValueView {
    Dword(u32),
    Text(Seq<char>),
}

impl View for Value {
    type V = ValueView;

    open spec fn view(&self) -> ValueView {
        match *self {
            Value::Dword(v) => ValueView::Dword(v),
            Value::Text(s) => ValueView::Text(s@),
        }
    }
}

/// A registry value with its name.
#[derive(Debug)]
pub struct Entry {
    pub name: String,
    pub value: Value,
}

/// The values below one registry key.
#[derive(Debug)]
pub struct Values {
    pub entries: Vec<Entry>,
}

/// The value called `name`, whatever the case of its letters.
pub open spec fn lookup(v: Seq<Entry>, name: Seq<char>) -> Option<ValueView>
    decreases v.len(),
{
    if v.len() == 0 {
        None
    } else if alike(v[0].name@, name) {
        Some(v[0].value@)
    } else {
        lookup(v.skip(1), name)
    }
}

proof fn lemma_lookup_before(v: Seq<Entry>, name: Seq<char>, i: int)
    requires
        0 <= i <= v.len(),
        forall|k: int| 0 <= k < i ==> !alike(#[trigger] v[k].name@, name),
    ensures
        lookup(v, name) == lookup(v.skip(i), name),
    decreases i,
{
    if i > 0 {
        assert(!alike(v[0].name@, name));
        assert(v.skip(1).skip(i - 1) =~= v.skip(i));
        assert forall|k: int| 0 <= k < i - 1 implies !alike(
            #[trigger] v.skip(1)[k].name@,
            name,
        ) by {
            assert(v.skip(1)[k] == v[k + 1]);
        }
        lemma_lookup_before(v.skip(1), name, i - 1);
    } else {
        assert(v.skip(0) =~= v);
    }
}

proof fn lemma_lookup_update(v: Seq<Entry>, i: int, e: Entry, name: Seq<char>)
    requires
        0 <= i < v.len(),
        e.name == v[i].name,
        forall|k: int| 0 <= k < i ==> !alike(#[trigger] v[k].name@, e.name@),
    ensures
        lookup(v.update(i, e), name) == if alike(e.name@, name) {
            Some(e.value@)
        } else {
            lookup(v, name)
        },
    decreases i,
{
    let w = v.update(i, e);
    if i == 0 {
        assert(w.skip(1) =~= v.skip(1));
    } else {
        assert(!alike(v[0].name@, e.name@));
        assert(w.skip(1) =~= v.skip(1).update(i - 1, e));
        assert(w[0] == v[0]);
        assert forall|k: int| 0 <= k < i - 1 implies !alike(
            #[trigger] v.skip(1)[k].name@,
            e.name@,
        ) by {
            assert(v.skip(1)[k] == v[k + 1]);
        }
        lemma_lookup_update(v.skip(1), i - 1, e, name);
    }
}

proof fn lemma_lookup_push(v: Seq<Entry>, e: Entry, name: Seq<char>)
    requires
        forall|k: int| 0 <= k < v.len() ==> !alike(#[trigger] v[k].name@, e.name@),
    ensures
        lookup(v.push(e), name) == if alike(e.name@, name) {
            Some(e.value@)
        } else {
            lookup(v, name)
        },
    decreases v.len(),
{
    let w = v.push(e);
    if v.len() == 0 {
        assert(w.skip(1) =~= seq![]);
    } else {
        assert(!alike(v[0].name@, e.name@));
        assert(w.skip(1) =~= v.skip(1).push(e));
        assert forall|k: int| 0 <= k < v.skip(1).len() implies !alike(
            #[trigger] v.skip(1)[k].name@,
            e.name@,
        ) by {
            assert(v.skip(1)[k] == v[k + 1]);
        }
        lemma_lookup_push(v.skip(1), e, name);
    }
}

impl Values {
    /// The value called `name`.
    pub open spec fn get(&self, name: Seq<char>) -> Option<ValueView> {
        lookup(self.entries@, name)
    }

    /// The number called `name`.
    pub open spec fn dword_spec(&self, name: Seq<char>) -> Option<u32> {
        match self.get(name) {
            Some(ValueView::Dword(v)) => Some(v),
            _ => None,
        }
    }

    /// The text called `name`.
    pub open spec fn text_spec(&self, name: Seq<char>) -> Option<Seq<char>> {
        match self.get(name) {
            Some(ValueView::Text(s)) => Some(s),
            _ => None,
        }
    }

    /// No values.
    pub fn empty() -> (r: Values)
        ensures
            forall|name: Seq<char>| r.get(name) is None,
    {
        Values { entries: Vec::new() }
    }

    /// Where `name` stands, or the number of entries.
    fn position(&self, name: &str) -> (r: usize)
        ensures
            r <= self.entries.len(),
            forall|k: int| 0 <= k < r ==> !alike(#[trigger] self.entries@[k].name@, name@),
            r < self.entries.len() ==> alike(self.entries@[r as int].name@, name@),
            r < self.entries.len() ==> self.get(name@) == Some(self.entries@[r as int].value@),
            r == self.entries.len() ==> self.get(name@) is None,
    {
        let wanted = chars_of(name);
        let mut i: usize = 0;
        while i < self.entries.len()
            invariant
                i <= self.entries.len(),
                wanted@ == name@,
                forall|k: int| 0 <= k < i ==> !alike(#[trigger] self.entries@[k].name@, name@),
            decreases self.entries.len() - i,
        {
            let other = chars_of(self.entries[i].name.as_str());
            if eq_ignore_case(&other, &wanted) {
                proof {
                    lemma_lookup_before(self.entries@, name@, i as int);
                    assert(self.entries@.skip(i as int)[0] == self.entries@[i as int]);
                }
                return i;
            }
            i = i + 1;
        }
        proof {
            lemma_lookup_before(self.entries@, name@, i as int);
        }
        i
    }

    /// The number called `name`. A text of that name does not count.
    pub fn dword(&self, name: &str) -> (r: Option<u32>)
        ensures
            r == self.dword_spec(name@),
    {
        let i = self.position(name);
        if i < self.entries.len() {
            match &self.entries[i].value {
                Value::Dword(v) => Some(*v),
                Value::Text(_) => None,
            }
        } else {
            None
        }
    }

    /// The text called `name`. A number of that name does not count.
    pub fn text(&self, name: &str) -> (r: Option<String>)
        ensures
            opt_view(r) == self.text_spec(name@),
    {
        let i = self.position(name);
        if i < self.entries.len() {
            match &self.entries[i].value {
                Value::Dword(_) => None,
                Value::Text(s) => Some(s.clone()),
            }
        } else {
            None
        }
    }

    /// Write a value: it replaces the one of that name, or is added.
    pub fn set(&mut self, name: &str, value: Value)
        ensures
            forall|other: Seq<char>| #[trigger]
                final(self).get(other) == if alike(name@, other) {
                    Some(value@)
                } else {
                    old(self).get(other)
                },
    {
        let i = self.position(name);
        let ghost before = self.entries@;
        if i < self.entries.len() {
            let e = Entry { name: self.entries[i].name.clone(), value };
            proof {
                assert forall|other: Seq<char>| #[trigger]
                    lookup(before.update(i as int, e), other) == if alike(name@, other) {
                        Some(value@)
                    } else {
                        lookup(before, other)
                    } by {
                    let f = Entry { name: before[i as int].name, value };
                    lemma_lookup_update(before, i as int, f, other);
                    lemma_lookup_same(before.update(i as int, f), before.update(i as int, e), other);
                }
            }
            self.entries.set(i, e);
        } else {
            let e = Entry { name: name.to_owned(), value };
            proof {
                assert forall|other: Seq<char>| #[trigger]
                    lookup(before.push(e), other) == if alike(name@, other) {
                        Some(value@)
                    } else {
                        lookup(before, other)
                    } by {
                    lemma_lookup_push(before, e, other);
                }
            }
            self.entries.push(e);
        }
    }
}

/// Two lists with the same names and values answer every lookup alike.
proof fn lemma_lookup_same(a: Seq<Entry>, b: Seq<Entry>, name: Seq<char>)
    requires
        a.len() == b.len(),
        forall|k: int|
            0 <= k < a.len() ==> (#[trigger] a[k]).name@ == b[k].name@ && a[k].value@ == b[k].value@,
    ensures
        lookup(a, name) == lookup(b, name),
    decreases a.len(),
{
    if a.len() > 0 {
        assert(a[0].name@ == b[0].name@);
        assert forall|k: int| 0 <= k < a.skip(1).len() implies (#[trigger] a.skip(1)[k]).name@
            == b.skip(1)[k].name@ && a.skip(1)[k].value@ == b.skip(1)[k].value@ by {
            assert(a.skip(1)[k] == a[k + 1]);
            assert(b.skip(1)[k] == b[k + 1]);
        }
        lemma_lookup_same(a.skip(1), b.skip(1), name);
    }
}

/// What the shell is configured to do.
#[derive(Clone, Debug)]
pub struct Config {
    /// Taskbar height in pixels at 96 DPI.
    pub taskbar_height: i32,
    /// Maximum width of one task button in pixels.
    pub button_max_width: i32,
    /// Start menu popup width in pixels.
    pub menu_width: i32,
    /// Start menu popup height in pixels.
    pub menu_height: i32,
    /// Show window titles on task buttons (default: icon-only).
    pub show_labels: bool,
    /// Combine windows of the same application into one button.
    pub combine: bool,
    /// Center the start button + task buttons as a cluster.
    pub center_taskbar: bool,
    /// Path to a .bmp shown as the user picture on the start menu.
    pub user_picture: Option<String>,
    /// When the shell provides the desktop itself: 0 = auto (only if Explorer's
    /// desktop never appears), 1 = always, 2 = never.
    pub own_desktop: u32,
    /// Path to a bitmap used as the desktop wallpaper.
    pub wallpaper: Option<String>,
    /// Solid desktop background (0x00BBGGRR) used when no wallpaper is available.
    pub desktop_color: u32,
    /// Show the built-in desktop namespace icons.
    pub show_system_desktop_icons: bool,
    /// Color of the Start button's four-square glyph (0x00BBGGRR).
    pub start_button_color: u32,
    /// Dark-mode the shell-rendered menus.
    pub dark_menus: bool,
    /// Draw an accent-colored frame around the foreground window.
    pub window_borders: bool,
    /// Re-launch as SYSTEM when running under a lesser token.
    pub launch_as_system: bool,
    /// File-browser command for "This PC" / Win+E. Unset is Explorer's view.
    pub file_manager: Option<String>,
}

/// A configuration with its texts as characters.
pub struct ConfigView {
    pub taskbar_height: int,
    pub button_max_width: int,
    pub menu_width: int,
    pub menu_height: int,
    pub show_labels: bool,
    pub combine: bool,
    pub center_taskbar: bool,
    pub user_picture: Option<Seq<char>>,
    pub own_desktop: u32,
    pub wallpaper: Option<Seq<char>>,
    pub desktop_color: u32,
    pub show_system_desktop_icons: bool,
    pub start_button_color: u32,
    pub dark_menus: bool,
    pub window_borders: bool,
    pub launch_as_system: bool,
    pub file_manager: Option<Seq<char>>,
}

impl View for Config {
    type V = ConfigView;

    open spec fn view(&self) -> ConfigView {
        ConfigView {
            taskbar_height: self.taskbar_height as int,
            button_max_width: self.button_max_width as int,
            menu_width: self.menu_width as int,
            menu_height: self.menu_height as int,
            show_labels: self.show_labels,
            combine: self.combine,
            center_taskbar: self.center_taskbar,
            user_picture: opt_view(self.user_picture),
            own_desktop: self.own_desktop,
            wallpaper: opt_view(self.wallpaper),
            desktop_color: self.desktop_color,
            show_system_desktop_icons: self.show_system_desktop_icons,
            start_button_color: self.start_button_color,
            dark_menus: self.dark_menus,
            window_borders: self.window_borders,
            launch_as_system: self.launch_as_system,
            file_manager: opt_view(self.file_manager),
        }
    }
}

/// What holds before any key is read.
pub open spec fn defaults() -> ConfigView {
    ConfigView {
        taskbar_height: 40,
        button_max_width: 220,
        menu_width: 420,
        menu_height: 480,
        show_labels: false,
        combine: true,
        center_taskbar: true,
        user_picture: None,
        own_desktop: 0,
        wallpaper: None,
        desktop_color: 0x0030_2820,
        show_system_desktop_icons: false,
        start_button_color: 0x00E6_5AB4,
        dark_menus: true,
        window_borders: true,
        launch_as_system: false,
        file_manager: None,
    }
}

impl Default for Config {
    fn default() -> (r: Config)
        ensures
            r@ == defaults(),
    {
        Config {
            taskbar_height: 40,
            button_max_width: 220,
            menu_width: 420,
            menu_height: 480,
            show_labels: false,
            combine: true,
            center_taskbar: true,
            user_picture: None,
            own_desktop: 0,
            wallpaper: None,
            desktop_color: 0x0030_2820,
            show_system_desktop_icons: false,
            start_button_color: 0x00E6_5AB4,
            dark_menus: true,
            window_borders: true,
            launch_as_system: false,
            file_manager: None,
        }
    }
}

/// A 32-bit number, read as one with a sign.
pub open spec fn signed(v: u32) -> int {
    if v < 0x8000_0000 {
        v as int
    } else {
        v - 0x1_0000_0000
    }
}

fn as_signed(v: u32) -> (r: i32)
    ensures
        r == signed(v),
{
    assert(v < 0x8000_0000u32 ==> v as i32 == v) by (bit_vector);
    assert(v >= 0x8000_0000u32 ==> v as i32 == v - 0x1_0000_0000) by (bit_vector);
    v as i32
}

pub open spec fn pick_int(k: Values, name: Seq<char>, kept: int) -> int {
    match k.dword_spec(name) {
        Some(v) => signed(v),
        None => kept,
    }
}

pub open spec fn pick_u32(k: Values, name: Seq<char>, kept: u32) -> u32 {
    match k.dword_spec(name) {
        Some(v) => v,
        None => kept,
    }
}

pub open spec fn pick_bool(k: Values, name: Seq<char>, kept: bool) -> bool {
    match k.dword_spec(name) {
        Some(v) => v != 0,
        None => kept,
    }
}

/// An empty text counts as absent.
pub open spec fn pick_text(
    k: Values,
    name: Seq<char>,
    kept: Option<Seq<char>>,
) -> Option<Seq<char>> {
    match k.text_spec(name) {
        Some(s) if s.len() > 0 => Some(s),
        _ => kept,
    }
}

/// `c` with every value present below `k` put over it.
pub open spec fn overlaid(c: ConfigView, k: Values) -> ConfigView {
    ConfigView {
        taskbar_height: pick_int(k, "TaskbarHeight"@, c.taskbar_height),
        button_max_width: pick_int(k, "ButtonMaxWidth"@, c.button_max_width),
        menu_width: pick_int(k, "MenuWidth"@, c.menu_width),
        menu_height: pick_int(k, "MenuHeight"@, c.menu_height),
        show_labels: pick_bool(k, "TaskbarLabels"@, c.show_labels),
        combine: pick_bool(k, "TaskbarCombine"@, c.combine),
        center_taskbar: pick_bool(k, "CenterTaskbar"@, c.center_taskbar),
        user_picture: pick_text(k, "UserPicture"@, c.user_picture),
        own_desktop: pick_u32(k, "OwnDesktop"@, c.own_desktop),
        wallpaper: pick_text(k, "Wallpaper"@, c.wallpaper),
        desktop_color: pick_u32(k, "DesktopColor"@, c.desktop_color),
        show_system_desktop_icons: pick_bool(
            k,
            "ShowSystemDesktopIcons"@,
            c.show_system_desktop_icons,
        ),
        start_button_color: pick_u32(k, "StartButtonColor"@, c.start_button_color),
        dark_menus: pick_bool(k, "DarkMenus"@, c.dark_menus),
        window_borders: pick_bool(k, "WindowBorders"@, c.window_borders),
        launch_as_system: pick_bool(k, "LaunchAsSystem"@, c.launch_as_system),
        file_manager: pick_text(k, "FileManager"@, c.file_manager),
    }
}

/// `c` with the values of a key that may be absent put over it.
pub open spec fn overlaid_opt(c: ConfigView, k: Option<Values>) -> ConfigView {
    match k {
        Some(k) => overlaid(c, k),
        None => c,
    }
}

/// The taskbar is never lower than 24 nor higher than 120 pixels.
pub open spec fn limited(c: ConfigView) -> ConfigView {
    ConfigView { taskbar_height: crate::geometry::clamped(c.taskbar_height, 24, 120), ..c }
}

/// The configuration that the two keys give.
pub open spec fn configured(machine: Option<Values>, user: Option<Values>) -> ConfigView {
    limited(overlaid_opt(overlaid_opt(defaults(), machine), user))
}

fn read_int(key: &Values, name: &str, kept: i32) -> (r: i32)
    ensures
        r == pick_int(*key, name@, kept as int),
{
    match key.dword(name) {
        Some(v) => as_signed(v),
        None => kept,
    }
}

fn read_u32(key: &Values, name: &str, kept: u32) -> (r: u32)
    ensures
        r == pick_u32(*key, name@, kept),
{
    match key.dword(name) {
        Some(v) => v,
        None => kept,
    }
}

fn read_bool(key: &Values, name: &str, kept: bool) -> (r: bool)
    ensures
        r == pick_bool(*key, name@, kept),
{
    match key.dword(name) {
        Some(v) => v != 0,
        None => kept,
    }
}

fn read_text(key: &Values, name: &str, kept: &Option<String>) -> (r: Option<String>)
    ensures
        opt_view(r) == pick_text(*key, name@, opt_view(*kept)),
{
    match key.text(name) {
        Some(s) => {
            if chars_of(s.as_str()).len() > 0 {
                return Some(s);
            }
        },
        None => {},
    }
    match kept {
        Some(s) => Some(s.clone()),
        None => None,
    }
}

impl Config {
    /// The configuration that the machine's and the user's key give: the user's
    /// values win, and what neither holds is as in `default`.
    pub fn load(machine: &Option<Values>, user: &Option<Values>) -> (r: Config)
        ensures
            r@ == configured(*machine, *user),
    {
        let mut cfg = Config::default();
        match machine {
            Some(key) => cfg.apply(key),
            None => {},
        }
        match user {
            Some(key) => cfg.apply(key),
            None => {},
        }
        cfg.taskbar_height = crate::geometry::clamp_i32(cfg.taskbar_height, 24, 120);
        cfg
    }

    /// Overlay any values present under `key` onto `self` (absent values keep
    /// whatever the lower-priority hive or the default left in place).
    pub fn apply(&mut self, key: &Values)
        ensures
            final(self)@ == overlaid(old(self)@, *key),
    {
        self.taskbar_height = read_int(key, "TaskbarHeight", self.taskbar_height);
        self.button_max_width = read_int(key, "ButtonMaxWidth", self.button_max_width);
        self.menu_width = read_int(key, "MenuWidth", self.menu_width);
        self.menu_height = read_int(key, "MenuHeight", self.menu_height);
        self.show_labels = read_bool(key, "TaskbarLabels", self.show_labels);
        self.combine = read_bool(key, "TaskbarCombine", self.combine);
        self.center_taskbar = read_bool(key, "CenterTaskbar", self.center_taskbar);
        self.user_picture = read_text(key, "UserPicture", &self.user_picture);
        self.own_desktop = read_u32(key, "OwnDesktop", self.own_desktop);
        self.wallpaper = read_text(key, "Wallpaper", &self.wallpaper);
        self.desktop_color = read_u32(key, "DesktopColor", self.desktop_color);
        self.show_system_desktop_icons = read_bool(
            key,
            "ShowSystemDesktopIcons",
            self.show_system_desktop_icons,
        );
        self.start_button_color = read_u32(key, "StartButtonColor", self.start_button_color);
        self.dark_menus = read_bool(key, "DarkMenus", self.dark_menus);
        self.window_borders = read_bool(key, "WindowBorders", self.window_borders);
        self.launch_as_system = read_bool(key, "LaunchAsSystem", self.launch_as_system);
        self.file_manager = read_text(key, "FileManager", &self.file_manager);
    }
}

/// The text a key holds under a name, where it is more than white space.
pub open spec fn filled_text(key: Option<Values>, name: Seq<char>) -> Option<Seq<char>> {
    match key {
        Some(k) => match k.text_spec(name) {
            Some(s) if trimmed(s).len() > 0 => Some(s),
            _ => None,
        },
        None => None,
    }
}

fn read_filled(key: &Option<Values>, name: &str) -> (r: Option<String>)
    ensures
        opt_view(r) == filled_text(*key, name@),
{
    match key {
        Some(k) => match k.text(name) {
            Some(s) => {
                if trim(&chars_of(s.as_str())).len() > 0 {
                    Some(s)
                } else {
                    None
                }
            },
            None => None,
        },
        None => None,
    }
}

/// A text that the user's key holds under a name, else the machine's.
pub open spec fn configured_text(
    machine: Option<Values>,
    user: Option<Values>,
    name: Seq<char>,
) -> Option<Seq<char>> {
    match filled_text(user, name) {
        Some(s) => Some(s),
        None => filled_text(machine, name),
    }
}

fn read_configured(machine: &Option<Values>, user: &Option<Values>, name: &str) -> (r: Option<
    String,
>)
    ensures
        opt_view(r) == configured_text(*machine, *user, name@),
{
    match read_filled(user, name) {
        Some(s) => Some(s),
        None => read_filled(machine, name),
    }
}

/// The number that a key that may be absent holds under a name.
pub open spec fn set_number(key: Option<Values>, name: Seq<char>) -> Option<u32> {
    match key {
        Some(k) => k.dword_spec(name),
        None => None,
    }
}

fn read_number(key: &Option<Values>, name: &str) -> (r: Option<u32>)
    ensures
        r == set_number(*key, name@),
{
    match key {
        Some(k) => k.dword(name),
        None => None,
    }
}

/// Path to an external System Information app, if one is configured under
/// `SysInfoApp`: the user's value, else the machine's. A blank value counts as
/// unset.
pub fn sysinfo_app(machine: &Option<Values>, user: &Option<Values>) -> (r: Option<String>)
    ensures
        opt_view(r) == configured_text(*machine, *user, "SysInfoApp"@),
{
    read_configured(machine, user, "SysInfoApp")
}

/// Path to an external network app, if one is configured under `NetworkApp`.
pub fn network_app(machine: &Option<Values>, user: &Option<Values>) -> (r: Option<String>)
    ensures
        opt_view(r) == configured_text(*machine, *user, "NetworkApp"@),
{
    read_configured(machine, user, "NetworkApp")
}

/// Whether the network glyph is shown next to the clock: `ShowNetworkIcon` of the
/// user, else of the machine, else it is.
pub fn show_network_icon(machine: &Option<Values>, user: &Option<Values>) -> (r: bool)
    ensures
        r == match set_number(*user, "ShowNetworkIcon"@) {
            Some(v) => v != 0,
            None => match set_number(*machine, "ShowNetworkIcon"@) {
                Some(v) => v != 0,
                None => true,
            },
        },
{
    match read_number(user, "ShowNetworkIcon") {
        Some(v) => v != 0,
        None => match read_number(machine, "ShowNetworkIcon") {
            Some(v) => v != 0,
            None => true,
        },
    }
}

/// The terminal every surface opens: the one configured under `TerminalApp` (the
/// user's value, else the machine's), else the system's command interpreter, else
/// `cmd.exe`.
pub fn terminal_app(
    machine: &Option<Values>,
    user: &Option<Values>,
    comspec: &Option<String>,
) -> (r: String)
    ensures
        r@ == match configured_text(*machine, *user, "TerminalApp"@) {
            Some(s) => s,
            None => match opt_view(*comspec) {
                Some(s) => s,
                None => "cmd.exe"@,
            },
        },
{
    match read_configured(machine, user, "TerminalApp") {
        Some(s) => s,
        None => match comspec {
            Some(s) => s.clone(),
            None => "cmd.exe".to_owned(),
        },
    }
}

/// A boolean setting as it is stored.
pub open spec fn flag(value: bool) -> u32 {
    if value {
        1
    } else {
        0
    }
}

/// Put a single boolean setting (as a number, 0 or 1) among the user's values.
pub fn save_bool(user: &mut Values, name: &str, value: bool)
    ensures
        forall|other: Seq<char>| #[trigger]
            final(user).get(other) == if alike(name@, other) {
                Some(ValueView::Dword(flag(value)))
            } else {
                old(user).get(other)
            },
{
    save_u32(user, name, if value { 1 } else { 0 });
}

/// Put a single number among the user's values, where it wins on the next load.
pub fn save_u32(user: &mut Values, name: &str, value: u32)
    ensures
        forall|other: Seq<char>| #[trigger]
            final(user).get(other) == if alike(name@, other) {
                Some(ValueView::Dword(value))
            } else {
                old(user).get(other)
            },
{
    user.set(name, Value::Dword(value));
}

/// Registry value holding the Run-command history (newline-joined, oldest first).
pub const RUN_HISTORY: &'static str = "RunHistory";

/// The texts that are not empty, in order.
pub open spec fn non_empty(v: Seq<Seq<char>>) -> Seq<Seq<char>>
    decreases v.len(),
{
    if v.len() == 0 {
        seq![]
    } else if v.last().len() > 0 {
        non_empty(v.drop_last()).push(v.last())
    } else {
        non_empty(v.drop_last())
    }
}

/// The history that the user's values hold: what stands between newlines,
/// without the empty entries.
pub open spec fn history_in(user: Option<Values>) -> Seq<Seq<char>> {
    match user {
        Some(k) => match k.text_spec(RUN_HISTORY@) {
            Some(s) => non_empty(split(s, '\n')),
            None => seq![],
        },
        None => seq![],
    }
}

/// Load the Run history, oldest first.
pub fn load_run_history(user: &Option<Values>) -> (r: Vec<String>)
    ensures
        views(r@) == history_in(*user),
{
    let mut out: Vec<String> = Vec::new();
    let stored = match user {
        Some(k) => k.text(RUN_HISTORY),
        None => None,
    };
    assert(views(out@) =~= seq![]);
    match stored {
        Some(s) => {
            let parts = split_char(&chars_of(s.as_str()), '\n');
            let ghost all = char_views(parts@);
            let mut i: usize = 0;
            assert(all.take(0) =~= seq![]);
            while i < parts.len()
                invariant
                    i <= parts.len(),
                    all == char_views(parts@),
                    views(out@) == non_empty(all.take(i as int)),
                decreases parts.len() - i,
            {
                let ghost before = out@;
                if parts[i].len() > 0 {
                    let t = string_of(&parts[i]);
                    out.push(t);
                    assert(views(out@) =~= views(before).push(all[i as int]));
                }
                i = i + 1;
                assert(all.take(i as int).drop_last() =~= all.take(i - 1));
            }
            assert(all.take(i as int) =~= all);
        },
        None => {},
    }
    out
}

/// Texts joined by newlines.
pub open spec fn joined(v: Seq<Seq<char>>) -> Seq<char>
    decreases v.len(),
{
    if v.len() == 0 {
        seq![]
    } else if v.len() == 1 {
        v[0]
    } else {
        v[0].push('\n') + joined(v.skip(1))
    }
}

/// Put the Run history (oldest first) among the user's values.
pub fn save_run_history(user: &mut Values, items: &Vec<String>)
    ensures
        forall|other: Seq<char>| #[trigger]
            final(user).get(other) == if alike(RUN_HISTORY@, other) {
                Some(ValueView::Text(joined(views(items@))))
            } else {
                old(user).get(other)
            },
{
    let mut s = String::new();
    let mut i: usize = 0;
    let ghost all = views(items@);
    assert(all.skip(0) =~= all);
    assert(s@ + joined(all) =~= joined(all));
    while i < items.len()
        invariant
            i <= items.len(),
            all == views(items@),
            s@ + joined(all.skip(i as int)) == joined(all),
        decreases items.len() - i,
    {
        let ghost before = s@;
        let ghost rest = all.skip(i as int);
        assert(rest.skip(1) =~= all.skip(i + 1));
        s.append(items[i].as_str());
        if i + 1 < items.len() {
            s.push('\n');
            assert(before + (rest[0].push('\n') + joined(rest.skip(1))) =~= s@ + joined(
                rest.skip(1),
            ));
        } else {
            assert(rest.skip(1) =~= seq![]);
            assert(s@ + joined(rest.skip(1)) =~= s@);
        }
        i = i + 1;
    }
    assert(all.skip(i as int) =~= seq![]);
    assert(s@ =~= joined(all));
    user.set(RUN_HISTORY, Value::Text(s));
}

// ---- Laws ----

/// Texts fit for the history: not empty, and on one line.
pub open spec fn history_items(v: Seq<Seq<char>>) -> bool {
    forall|i: int| 0 <= i < v.len() ==> (#[trigger] v[i]).len() > 0 && !v[i].contains('\n')
}

proof fn lemma_split_joined(v: Seq<Seq<char>>)
    requires
        v.len() > 0,
        history_items(v),
    ensures
        split(joined(v), '\n') == v,
    decreases v.len(),
{
    let s = joined(v);
    assert(!v[0].contains('\n'));
    s.index_of_first_ensures('\n');
    if v.len() == 1 {
        assert(split(s, '\n') =~= v);
    } else {
        let n = v[0].len() as int;
        assert(s[n] == '\n');
        assert(s.contains('\n'));
        let k = s.index_of_first('\n')->0;
        if k < n {
            assert(s[k] == v[0][k]);
            assert(v[0].contains('\n'));
        }
        assert(k == n);
        assert(s.take(n) =~= v[0]);
        assert(s.skip(n + 1) =~= joined(v.skip(1)));
        assert forall|i: int| 0 <= i < v.skip(1).len() implies (#[trigger] v.skip(1)[i]).len() > 0
            && !v.skip(1)[i].contains('\n') by {
            assert(v.skip(1)[i] == v[i + 1]);
        }
        lemma_split_joined(v.skip(1));
        assert(seq![v[0]] + v.skip(1) =~= v);
    }
}

proof fn lemma_non_empty_all(v: Seq<Seq<char>>)
    requires
        forall|i: int| 0 <= i < v.len() ==> (#[trigger] v[i]).len() > 0,
    ensures
        non_empty(v) == v,
    decreases v.len(),
{
    if v.len() > 0 {
        assert(v[v.len() - 1].len() > 0);
        assert forall|i: int| 0 <= i < v.drop_last().len() implies (#[trigger] v.drop_last()[i]).len()
            > 0 by {
            assert(v[i].len() > 0);
        }
        lemma_non_empty_all(v.drop_last());
        assert(v.drop_last().push(v.last()) =~= v);
    } else {
        assert(v =~= seq![]);
    }
}

/// A saved Run history is what the next load reads: `saved` holds under the
/// history's name what `save_run_history` writes of `items`.
pub proof fn run_history_reads_back(saved: Values, items: Seq<Seq<char>>)
    requires
        history_items(items),
        saved.get(RUN_HISTORY@) == Some(ValueView::Text(joined(items))),
    ensures
        history_in(Some(saved)) == items,
{
    if items.len() == 0 {
        let s = joined(items);
        assert(s =~= seq![]);
        s.index_of_first_ensures('\n');
        assert(!s.contains('\n'));
        assert(split(s, '\n') =~= seq![s]);
        assert(seq![s].drop_last() =~= seq![]);
        assert(non_empty(seq![]) =~= Seq::<Seq<char>>::empty());
        assert(seq![s].last() == s);
        assert(non_empty(seq![s]) =~= items);
    } else {
        lemma_split_joined(items);
        lemma_non_empty_all(items);
    }
}

/// A key without values changes nothing.
pub proof fn absent_values_keep(c: ConfigView, k: Values)
    requires
        forall|name: Seq<char>| k.get(name) is None,
    ensures
        overlaid(c, k) == c,
{
}

/// Reading the same key twice is reading it once.
pub proof fn overlay_is_idempotent(c: ConfigView, k: Values)
    ensures
        overlaid(overlaid(c, k), k) == overlaid(c, k),
{
}

/// The loaded taskbar height is usable whatever the keys hold.
pub proof fn height_is_limited(machine: Option<Values>, user: Option<Values>)
    ensures
        24 <= configured(machine, user).taskbar_height <= 120,
{
}

/// A value present in the user's key decides, whatever the machine's key says; an
/// empty text counts as absent.
pub proof fn user_value_wins(machine: Option<Values>, user: Values)
    ensures
        ({
            let c = configured(machine, Some(user));
            &&& user.dword_spec("TaskbarLabels"@) matches Some(v) ==> c.show_labels == (v != 0)
            &&& user.dword_spec("TaskbarCombine"@) matches Some(v) ==> c.combine == (v != 0)
            &&& user.dword_spec("CenterTaskbar"@) matches Some(v) ==> c.center_taskbar == (v != 0)
            &&& user.dword_spec("OwnDesktop"@) matches Some(v) ==> c.own_desktop == v
            &&& user.dword_spec("DesktopColor"@) matches Some(v) ==> c.desktop_color == v
            &&& user.dword_spec("ShowSystemDesktopIcons"@) matches Some(v)
                ==> c.show_system_desktop_icons == (v != 0)
            &&& user.dword_spec("StartButtonColor"@) matches Some(v) ==> c.start_button_color == v
            &&& user.dword_spec("DarkMenus"@) matches Some(v) ==> c.dark_menus == (v != 0)
            &&& user.dword_spec("WindowBorders"@) matches Some(v) ==> c.window_borders == (v != 0)
            &&& user.dword_spec("LaunchAsSystem"@) matches Some(v) ==> c.launch_as_system == (v
                != 0)
            &&& user.dword_spec("ButtonMaxWidth"@) matches Some(v) ==> c.button_max_width == signed(
                v,
            )
            &&& user.dword_spec("MenuWidth"@) matches Some(v) ==> c.menu_width == signed(v)
            &&& user.dword_spec("MenuHeight"@) matches Some(v) ==> c.menu_height == signed(v)
            &&& user.dword_spec("TaskbarHeight"@) matches Some(v) ==> c.taskbar_height
                == crate::geometry::clamped(signed(v), 24, 120)
            &&& user.text_spec("UserPicture"@) matches Some(s) ==> s.len() > 0 ==> c.user_picture
                == Some(s)
            &&& user.text_spec("Wallpaper"@) matches Some(s) ==> s.len() > 0 ==> c.wallpaper
                == Some(s)
            &&& user.text_spec("FileManager"@) matches Some(s) ==> s.len() > 0 ==> c.file_manager
                == Some(s)
        }),
{
}

/// Without a value of the user's for a setting, the machine's decides; an empty
/// text counts as absent.
pub proof fn machine_value_stays(machine: Option<Values>, user: Values)
    ensures
        ({
            let c = configured(machine, Some(user));
            let m = configured(machine, None);
            let none = |name: Seq<char>| user.dword_spec(name) is None;
            let blank = |name: Seq<char>|
                user.text_spec(name) matches Some(s) ==> s.len() == 0;
            &&& none("TaskbarHeight"@) ==> c.taskbar_height == m.taskbar_height
            &&& none("ButtonMaxWidth"@) ==> c.button_max_width == m.button_max_width
            &&& none("MenuWidth"@) ==> c.menu_width == m.menu_width
            &&& none("MenuHeight"@) ==> c.menu_height == m.menu_height
            &&& none("TaskbarLabels"@) ==> c.show_labels == m.show_labels
            &&& none("TaskbarCombine"@) ==> c.combine == m.combine
            &&& none("CenterTaskbar"@) ==> c.center_taskbar == m.center_taskbar
            &&& none("OwnDesktop"@) ==> c.own_desktop == m.own_desktop
            &&& none("DesktopColor"@) ==> c.desktop_color == m.desktop_color
            &&& none("ShowSystemDesktopIcons"@) ==> c.show_system_desktop_icons
                == m.show_system_desktop_icons
            &&& none("StartButtonColor"@) ==> c.start_button_color == m.start_button_color
            &&& none("DarkMenus"@) ==> c.dark_menus == m.dark_menus
            &&& none("WindowBorders"@) ==> c.window_borders == m.window_borders
            &&& none("LaunchAsSystem"@) ==> c.launch_as_system == m.launch_as_system
            &&& blank("UserPicture"@) ==> c.user_picture == m.user_picture
            &&& blank("Wallpaper"@) ==> c.wallpaper == m.wallpaper
            &&& blank("FileManager"@) ==> c.file_manager == m.file_manager
        }),
{
}

/// Without any key the taskbar is 40 pixels high, centered, with icons alone and one
/// button for each program; Explorer's desktop is preferred, menus are dark, and the
/// active window has a border.
pub proof fn the_defaults_are_those_of_a_plain_system()
    ensures
        ({
            let c = configured(None, None);
            &&& c.taskbar_height == 40
            &&& c.center_taskbar && !c.show_labels && c.combine
            &&& c.menu_width == 420 && c.menu_height == 480 && c.button_max_width == 220
            &&& c.own_desktop == 0
            &&& c.dark_menus && c.window_borders
            &&& !c.launch_as_system && !c.show_system_desktop_icons
            &&& c.user_picture is None && c.wallpaper is None && c.file_manager is None
        }),
{
}

/// A number that is negative in 32 bits is stored as its complement, and read back.
pub proof fn negative_numbers_read_back(i: int)
    requires
        -0x8000_0000 <= i <= 0x7fff_ffff,
    ensures
        signed((i % 0x1_0000_0000) as u32) == i,
{
}

/// A value is found by its name, whatever the case, and the first of that name counts.
pub proof fn values_are_found_whatever_the_case(v: Seq<Entry>, i: int, name: Seq<char>)
    requires
        0 <= i < v.len(),
        alike(v[i].name@, name),
        forall|k: int| 0 <= k < i ==> !alike((#[trigger] v[k]).name@, name),
    ensures
        lookup(v, name) == Some(v[i].value@),
    decreases v.len(),
{
    if i > 0 {
        assert(!alike(v[0].name@, name));
        let t = v.skip(1);
        assert forall|k: int| 0 <= k < i - 1 implies !alike((#[trigger] t[k]).name@, name) by {
            assert(!alike(v[k + 1].name@, name));
        }
        values_are_found_whatever_the_case(t, i - 1, name);
    }
}

/// A path that the user configures wins over the machine's, unless it is blank; where
/// both are blank or absent there is none.
pub proof fn the_users_path_wins(machine: Option<Values>, user: Values, name: Seq<char>)
    ensures
        (user.text_spec(name) matches Some(s) && !(forall|i: int|
            0 <= i < s.len() ==> crate::text::white(#[trigger] s[i]))) ==> configured_text(
            machine,
            Some(user),
            name,
        ) == user.text_spec(name),
        (user.text_spec(name) matches Some(s) ==> (forall|i: int|
            0 <= i < s.len() ==> crate::text::white(#[trigger] s[i]))) ==> configured_text(
            machine,
            Some(user),
            name,
        ) == configured_text(machine, None, name),
        configured_text(None, None, name) is None,
{
    match user.text_spec(name) {
        Some(s) => {
            crate::text::trimming_takes_white_space_off(s);
            if trimmed(s).len() > 0 {
                let (a, b) = choose|a: int, b: int|
                    #![trigger s.subrange(a, b)]
                    0 <= a <= b <= s.len() && trimmed(s) == s.subrange(a, b) && (forall|i: int|
                        0 <= i < a || b <= i < s.len() ==> crate::text::white(#[trigger] s[i]));
                assert(trimmed(s)[0] == s[a]);
                assert(!crate::text::white(s[a]));
            } else {
                let (a, b) = choose|a: int, b: int|
                    #![trigger s.subrange(a, b)]
                    0 <= a <= b <= s.len() && trimmed(s) == s.subrange(a, b) && (forall|i: int|
                        0 <= i < a || b <= i < s.len() ==> crate::text::white(#[trigger] s[i]));
                assert(s.subrange(a, b).len() == b - a);
                assert forall|i: int| 0 <= i < s.len() implies crate::text::white(#[trigger] s[i]) by {
                }
            }
        },
        None => {},
    }
}

/// A value of one type does not count as one of the other.
pub proof fn numbers_and_texts_are_apart(k: Values, name: Seq<char>)
    ensures
        k.dword_spec(name) is Some ==> k.text_spec(name) is None,
        k.get(name) matches Some(ValueView::Dword(v)) ==> k.dword_spec(name) == Some(v),
        k.get(name) matches Some(ValueView::Text(s)) ==> k.text_spec(name) == Some(s),
        k.get(name) is None ==> k.dword_spec(name) is None && k.text_spec(name) is None,
{
}

/// A setting that is read by itself is the user's where the user has it, whatever else
/// the key holds, and none where the key is absent.
pub proof fn a_number_set_is_found(k: Values, name: Seq<char>, v: u32)
    ensures
        k.get(name) == Some(ValueView::Dword(v)) ==> set_number(Some(k), name) == Some(v),
        k.get(name) is None ==> set_number(Some(k), name) is None,
        set_number(None, name) is None,
{
}

} // verus!
