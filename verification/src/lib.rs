//! The decisions of a Windows PE shell: its taskbar, start menu, tray, window
//! switcher, desktop, settings and launcher, as functions from plain values to
//! plain values.
//!
//! Nothing in this crate touches the system. A surface's state goes in together
//! with what the system reported (a message, a window list, a file's text), and
//! the next state comes out together with what the system is to be told.

pub mod alttab;
pub mod border;
pub mod config;
pub mod darkmode;
pub mod desktop;
pub mod desktop_filter;
pub mod drawn;
pub mod dwm_border;
pub mod geometry;
pub mod menu;
pub mod network;
pub mod num;
pub mod paint;
pub mod paths;
pub mod peek;
pub mod pins;
pub mod power;
pub mod run_dialog;
pub mod run_window;
pub mod search;
pub mod settings;
pub mod start_menu;
pub mod startup;
pub mod sysinfo;
pub mod syslaunch;
pub mod taskbar;
pub mod taskman;
pub mod text;
pub mod tray;
pub mod util;
