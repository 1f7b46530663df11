//! Status-bar shell logic for the Niri compositor: settings state, parsers for
//! the outputs of system tools, layer-rule patching and UI decisions.

pub mod audio;
pub mod battery;
pub mod bluetooth;
pub mod brightness;
pub mod calendar;
pub mod cli;
pub mod dock;
pub mod launcher;
pub mod network;
pub mod night_light;
pub mod niri_config;
pub mod niri_ipc;
pub mod power_profile;
pub mod quick_settings;
pub mod settings;
pub mod text;
pub mod theme;
pub mod tray;
pub mod wallpaper;
pub mod workspaces;
