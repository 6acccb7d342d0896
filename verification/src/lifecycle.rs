//! What closing the main window means. Nothing else hides the window or ends the program.

use vstd::prelude::*;

use crate::ui_text;

verus! {

/// What the user chose in the closing dialog.
#[derive(Debug, Clone, Copy, PartialEq, Eq, Structural)]
pub enum CloseChoice {
    Quit,
    HideToTray,
    /// Nothing is to happen.
    Cancel,
}

/// What is done about the window.
#[derive(Debug, Clone, Copy, PartialEq, Eq, Structural)]
pub enum WindowAct {
    /// End the program, and with it the backend.
    Exit,
    /// Hide the window, which keeps it and the backend.
    Conceal,
    /// Leave it as it is.
    Stay,
}

/// What is done about the window for a choice.
pub fn apply_close_choice(choice: CloseChoice) -> (r: WindowAct)
    ensures
        r == (match choice {
            CloseChoice::Quit => WindowAct::Exit,
            CloseChoice::HideToTray => WindowAct::Conceal,
            CloseChoice::Cancel => WindowAct::Stay,
        }),
{
    match choice {
        CloseChoice::Quit => WindowAct::Exit,
        CloseChoice::HideToTray => WindowAct::Conceal,
        CloseChoice::Cancel => WindowAct::Stay,
    }
}

/// The texts of the closing dialog.
pub struct CloseDialogSpec {
    pub title: &'static str,
    pub body: &'static str,
    /// The first button: quit.
    pub yes: &'static str,
    /// The second button: stay in the tray.
    pub no: &'static str,
    /// The third button: do nothing.
    pub cancel: &'static str,
}

impl CloseDialogSpec {
    pub fn load() -> (r: Self)
        ensures
            r.title@ == "DShell"@,
            r.body@ == "要退出 DShell，还是只在后台运行？"@,
            r.yes@ == "完全退出"@,
            r.no@ == "关到托盘"@,
            r.cancel@ == "取消"@,
    {
        CloseDialogSpec {
            title: ui_text::close_dialog_title(),
            body: ui_text::close_dialog_body(),
            yes: ui_text::close_btn_quit(),
            no: ui_text::close_btn_tray(),
            cancel: ui_text::close_btn_cancel(),
        }
    }
}

} // verus!
