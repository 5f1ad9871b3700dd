//! The power-user menu (Win+X, or right-click the start button).

use vstd::prelude::*;
use vstd::string::*;
use crate::config::{Config, ConfigView};
use crate::menu::Item;
use crate::taskbar::input::{file_manager_of, open_file_manager, Command};

verus! {

// Commands.
pub const EVENT_VIEWER: u32 = 1;

pub const SYSTEM: u32 = 2;

pub const DEVICE_MANAGER: u32 = 3;

pub const DISK_MANAGEMENT: u32 = 4;

pub const COMPUTER_MANAGEMENT: u32 = 5;

pub const TERMINAL: u32 = 6;

pub const TASK_MANAGER: u32 = 7;

pub const FILE_EXPLORER: u32 = 8;

pub const RUN: u32 = 9;

pub const SHUT_DOWN: u32 = 10;

pub const RESTART: u32 = 11;

pub const DESKTOP: u32 = 12;

/// An item as plain text.
pub enum ItemView {
    Entry(u32, Seq<char>),
    Separator,
    Submenu(Seq<char>, Seq<ItemView>),
}

/// `item` is this one.
pub open spec fn shows(item: Item, v: ItemView) -> bool
    decreases item,
{
    match item {
        Item::Entry(id, t) => v matches ItemView::Entry(i, s) && i == id && s == t@,
        Item::Separator => v is Separator,
        Item::Submenu(t, children) => {
            v matches ItemView::Submenu(s, w) && s == t@ && w.len() == children@.len() && (forall|
                i: int,
            |
                0 <= i < children@.len() ==> shows(#[trigger] children@[i], w[i]))
        },
    }
}

/// The menu: management tools, system tools, leaving, and the desktop.
pub open spec fn power_items() -> Seq<ItemView> {
    seq![
        ItemView::Entry(EVENT_VIEWER, "E&vent Viewer"@),
        ItemView::Entry(SYSTEM, "S&ystem"@),
        ItemView::Entry(DEVICE_MANAGER, "Device &Manager"@),
        ItemView::Entry(DISK_MANAGEMENT, "Dis&k Management"@),
        ItemView::Entry(COMPUTER_MANAGEMENT, "Computer Mana&gement"@),
        ItemView::Entry(TERMINAL, "Term&inal"@),
        ItemView::Separator,
        ItemView::Entry(TASK_MANAGER, "&Task Manager"@),
        ItemView::Entry(FILE_EXPLORER, "File &Explorer"@),
        ItemView::Entry(RUN, "&Run"@),
        ItemView::Separator,
        ItemView::Submenu(
            "Sh&ut down or restart"@,
            seq![ItemView::Entry(SHUT_DOWN, "Sh&ut down"@), ItemView::Entry(RESTART, "&Restart"@)],
        ),
        ItemView::Entry(DESKTOP, "&Desktop"@),
    ]
}

fn entry(id: u32, label: &str) -> (r: Item)
    ensures
        shows(r, ItemView::Entry(id, label@)),
{
    Item::Entry(id, label.to_owned())
}

pub fn power_menu() -> (r: Vec<Item>)
    ensures
        r@.len() == power_items().len(),
        forall|i: int| 0 <= i < r@.len() ==> shows(#[trigger] r@[i], power_items()[i]),
{
    let mut v: Vec<Item> = Vec::new();
    v.push(entry(EVENT_VIEWER, "E&vent Viewer"));
    v.push(entry(SYSTEM, "S&ystem"));
    v.push(entry(DEVICE_MANAGER, "Device &Manager"));
    v.push(entry(DISK_MANAGEMENT, "Dis&k Management"));
    v.push(entry(COMPUTER_MANAGEMENT, "Computer Mana&gement"));
    v.push(entry(TERMINAL, "Term&inal"));
    v.push(Item::Separator);
    v.push(entry(TASK_MANAGER, "&Task Manager"));
    v.push(entry(FILE_EXPLORER, "File &Explorer"));
    v.push(entry(RUN, "&Run"));
    v.push(Item::Separator);
    let mut leave: Vec<Item> = Vec::new();
    leave.push(entry(SHUT_DOWN, "Sh&ut down"));
    leave.push(entry(RESTART, "&Restart"));
    let sub = Item::Submenu("Sh&ut down or restart".to_owned(), leave);
    assert(shows(sub, power_items()[11]));
    v.push(sub);
    v.push(entry(DESKTOP, "&Desktop"));
    v
}

// ---- The taskbar's own menu ----

pub const BAR_SETTINGS: u32 = 1;

/// The menu of a right click on the taskbar.
pub fn taskbar_menu() -> (r: Vec<Item>)
    ensures
        r@.len() == 1,
        shows(r@[0], ItemView::Entry(BAR_SETTINGS, "Settings"@)),
{
    let mut v: Vec<Item> = Vec::new();
    v.push(entry(BAR_SETTINGS, "Settings"));
    v
}

/// Whether a choice from the taskbar's menu opens the settings. Every other number,
/// such as that of a dismissed menu, does nothing.
pub fn opens_settings(choice: u32) -> (r: bool)
    ensures
        r == (choice == BAR_SETTINGS),
{
    choice == BAR_SETTINGS
}

// ---- The start menu's power flyout ----

pub const FLYOUT_RESTART: u32 = 1;

pub const FLYOUT_SHUT_DOWN: u32 = 2;

/// The flyout: Restart above Shut down.
pub fn power_flyout() -> (r: Vec<Item>)
    ensures
        r@.len() == 2,
        shows(r@[0], ItemView::Entry(FLYOUT_RESTART, "Restart"@)),
        shows(r@[1], ItemView::Entry(FLYOUT_SHUT_DOWN, "Shut down"@)),
{
    let mut v: Vec<Item> = Vec::new();
    v.push(entry(FLYOUT_RESTART, "Restart"));
    v.push(entry(FLYOUT_SHUT_DOWN, "Shut down"));
    v
}

// ---- What a choice does ----

/// What is done for a choice from the menu.
pub enum PowerAction {
    Run(Command),
    /// The shell's own Run window opens.
    RunWindow,
    SystemInfo,
    ShowDesktop,
    Nothing,
}

pub enum ActionView {
    Run(Seq<char>, Seq<char>),
    RunWindow,
    SystemInfo,
    ShowDesktop,
    Nothing,
}

impl View for PowerAction {
    type V = ActionView;

    open spec fn view(&self) -> ActionView {
        match *self {
            PowerAction::Run(c) => ActionView::Run(c.program@, c.args@),
            PowerAction::RunWindow => ActionView::RunWindow,
            PowerAction::SystemInfo => ActionView::SystemInfo,
            PowerAction::ShowDesktop => ActionView::ShowDesktop,
            PowerAction::Nothing => ActionView::Nothing,
        }
    }
}

/// The action of each command; every other number, such as that of a dismissed menu,
/// does nothing.
pub open spec fn action_of(choice: u32, c: ConfigView, terminal: Seq<char>) -> ActionView {
    if choice == EVENT_VIEWER {
        ActionView::Run("eventvwr.msc"@, seq![])
    } else if choice == SYSTEM {
        ActionView::SystemInfo
    } else if choice == DEVICE_MANAGER {
        ActionView::Run("devmgmt.msc"@, seq![])
    } else if choice == DISK_MANAGEMENT {
        ActionView::Run("diskmgmt.msc"@, seq![])
    } else if choice == COMPUTER_MANAGEMENT {
        ActionView::Run("compmgmt.msc"@, seq![])
    } else if choice == TERMINAL {
        ActionView::Run(terminal, seq![])
    } else if choice == TASK_MANAGER {
        ActionView::Run("taskmgr.exe"@, seq![])
    } else if choice == FILE_EXPLORER {
        ActionView::Run(file_manager_of(c).0, file_manager_of(c).1)
    } else if choice == RUN {
        ActionView::RunWindow
    } else if choice == SHUT_DOWN {
        ActionView::Run("wpeutil.exe"@, "shutdown"@)
    } else if choice == RESTART {
        ActionView::Run("wpeutil.exe"@, "reboot"@)
    } else if choice == DESKTOP {
        ActionView::ShowDesktop
    } else {
        ActionView::Nothing
    }
}

fn tool(program: &str) -> (r: PowerAction)
    ensures
        r@ == ActionView::Run(program@, seq![]),
{
    let args = String::new();
    assert(args@ =~= seq![]);
    PowerAction::Run(Command { program: program.to_owned(), args })
}

fn leave(args: &str) -> (r: PowerAction)
    ensures
        r@ == ActionView::Run("wpeutil.exe"@, args@),
{
    PowerAction::Run(Command { program: "wpeutil.exe".to_owned(), args: args.to_owned() })
}

/// What a choice from the menu does, with the terminal that is configured.
pub fn power_action(choice: u32, cfg: &Config, terminal: &str) -> (r: PowerAction)
    ensures
        r@ == action_of(choice, cfg@, terminal@),
{
    if choice == EVENT_VIEWER {
        tool("eventvwr.msc")
    } else if choice == SYSTEM {
        PowerAction::SystemInfo
    } else if choice == DEVICE_MANAGER {
        tool("devmgmt.msc")
    } else if choice == DISK_MANAGEMENT {
        tool("diskmgmt.msc")
    } else if choice == COMPUTER_MANAGEMENT {
        tool("compmgmt.msc")
    } else if choice == TERMINAL {
        tool(terminal)
    } else if choice == TASK_MANAGER {
        tool("taskmgr.exe")
    } else if choice == FILE_EXPLORER {
        PowerAction::Run(open_file_manager(cfg))
    } else if choice == RUN {
        PowerAction::RunWindow
    } else if choice == SHUT_DOWN {
        leave("shutdown")
    } else if choice == RESTART {
        leave("reboot")
    } else if choice == DESKTOP {
        PowerAction::ShowDesktop
    } else {
        PowerAction::Nothing
    }
}

/// Each entry of the menu does what it says, and what the menu does not offer does
/// nothing.
pub proof fn each_entry_does_what_it_says(c: ConfigView, terminal: Seq<char>)
    ensures
        ({
            let v = power_items();
            let does = |i: int, label: Seq<char>, what: ActionView|
                v[i] matches ItemView::Entry(id, l) && l == label && action_of(id, c, terminal)
                    == what;
            &&& v.len() == 13
            &&& does(0, "E&vent Viewer"@, ActionView::Run("eventvwr.msc"@, seq![]))
            &&& does(1, "S&ystem"@, ActionView::SystemInfo)
            &&& does(2, "Device &Manager"@, ActionView::Run("devmgmt.msc"@, seq![]))
            &&& does(3, "Dis&k Management"@, ActionView::Run("diskmgmt.msc"@, seq![]))
            &&& does(4, "Computer Mana&gement"@, ActionView::Run("compmgmt.msc"@, seq![]))
            &&& does(5, "Term&inal"@, ActionView::Run(terminal, seq![]))
            &&& v[6] is Separator && v[10] is Separator
            &&& does(7, "&Task Manager"@, ActionView::Run("taskmgr.exe"@, seq![]))
            &&& does(
                8,
                "File &Explorer"@,
                ActionView::Run(file_manager_of(c).0, file_manager_of(c).1),
            )
            &&& does(9, "&Run"@, ActionView::RunWindow)
            &&& does(12, "&Desktop"@, ActionView::ShowDesktop)
            &&& (v[11] matches ItemView::Submenu(l, w) && l == "Sh&ut down or restart"@ && w.len()
                == 2 && (w[0] matches ItemView::Entry(id, l) && l == "Sh&ut down"@ && action_of(
                id,
                c,
                terminal,
            ) == ActionView::Run("wpeutil.exe"@, "shutdown"@)) && (w[1] matches ItemView::Entry(
                id,
                l,
            ) && l == "&Restart"@ && action_of(id, c, terminal) == ActionView::Run(
                "wpeutil.exe"@,
                "reboot"@,
            )))
        }),
        action_of(0, c, terminal) == ActionView::Nothing,
        forall|id: u32| id > 12 ==> #[trigger] action_of(id, c, terminal) == ActionView::Nothing,
{
}

} // verus!
