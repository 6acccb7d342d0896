//! DShell: the verified core of a desktop shell around DeepSeek Harness.
#![allow(unused_imports)]

pub mod auth_cookie;
pub mod backend;
pub mod close_dialog;
pub mod config;
pub mod doctor;
pub mod handoff;
pub mod installer;
pub mod json;
pub mod lifecycle;
pub mod page;
pub mod picker;
pub mod plugin;
pub mod proc;
pub mod release_notes;
pub mod settings;
pub mod state;
pub mod table;
pub mod text;
pub mod tray;
pub mod ui_text;
pub mod update;
pub mod version;
pub mod win32;
pub mod window;
