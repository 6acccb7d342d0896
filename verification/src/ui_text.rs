//! What the user reads on the tray icon and in the closing dialog.

use vstd::prelude::*;

verus! {

#[derive(Debug, Clone, Copy, PartialEq, Eq, Structural)]
pub enum Lang {
    ZhCn,
}

impl Default for Lang {
    fn default() -> (r: Self)
        ensures
            r == Lang::ZhCn,
    {
        Lang::ZhCn
    }
}

/// The language of the texts.
pub fn current() -> (r: Lang)
    ensures
        r == Lang::ZhCn,
{
    Lang::ZhCn
}

// ───────────────────────── the tray ─────────────────────────

pub fn tray_tooltip() -> (r: &'static str)
    ensures
        r@ == "DShell"@,
{
    match current() {
        Lang::ZhCn => "DShell",
    }
}

pub fn menu_open_in_browser() -> (r: &'static str)
    ensures
        r@ == "在浏览器中打开"@,
{
    match current() {
        Lang::ZhCn => "在浏览器中打开",
    }
}

pub fn menu_quit() -> (r: &'static str)
    ensures
        r@ == "完全退出"@,
{
    match current() {
        Lang::ZhCn => "完全退出",
    }
}

pub fn menu_restart_dsh() -> (r: &'static str)
    ensures
        r@ == "重启 dsh 后端"@,
{
    match current() {
        Lang::ZhCn => "重启 dsh 后端",
    }
}

/// Opens the settings panel in the main window.
pub fn menu_settings() -> (r: &'static str)
    ensures
        r@ == "设置"@,
{
    match current() {
        Lang::ZhCn => "设置",
    }
}

// ───────────────────────── the closing dialog ─────────────────────────

pub fn close_dialog_title() -> (r: &'static str)
    ensures
        r@ == "DShell"@,
{
    match current() {
        Lang::ZhCn => "DShell",
    }
}

pub fn close_dialog_body() -> (r: &'static str)
    ensures
        r@ == "要退出 DShell，还是只在后台运行？"@,
{
    match current() {
        Lang::ZhCn => "要退出 DShell，还是只在后台运行？",
    }
}

/// The first button: quit.
pub fn close_btn_quit() -> (r: &'static str)
    ensures
        r@ == "完全退出"@,
{
    match current() {
        Lang::ZhCn => "完全退出",
    }
}

/// The second button: stay in the tray.
pub fn close_btn_tray() -> (r: &'static str)
    ensures
        r@ == "关到托盘"@,
{
    match current() {
        Lang::ZhCn => "关到托盘",
    }
}

/// The third button: do nothing.
pub fn close_btn_cancel() -> (r: &'static str)
    ensures
        r@ == "取消"@,
{
    match current() {
        Lang::ZhCn => "取消",
    }
}

} // verus!
