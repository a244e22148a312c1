//! Decision logic of the Handiva desktop helper: hotkey parsing, clicker and
//! key-monitor state, configuration model and the icon packer's rules.

pub mod text;
pub mod hotkeys;
pub mod config;
pub mod key_monitor;
pub mod clicker;
pub mod icon_packer;
pub mod ico_build;
pub mod app_state;
