//! The tray icon: its menu, and what its events mean.

use vstd::prelude::*;

use crate::text;
use crate::ui_text;

verus! {

pub const MENU_ID_QUIT: &'static str = "tray-quit";

pub const MENU_ID_OPEN_BROWSER: &'static str = "tray-open-browser";

pub const MENU_ID_RESTART_DSH: &'static str = "tray-restart-dsh";

pub const MENU_ID_SETTINGS: &'static str = "tray-settings";

/// The id of the icon.
pub const TRAY_ID: &'static str = "main-tray";

/// What the tray icon has the shell do.
#[derive(Debug, Clone, Copy, PartialEq, Eq, Structural)]
pub enum TrayAction {
    RestoreWindow,
    OpenInBrowser,
    RestartDsh,
    OpenSettings,
    Quit,
}

/// Items of the menu as values: the id and the text.
pub open spec fn items(v: Seq<(&'static str, &'static str)>) -> Seq<(Seq<char>, Seq<char>)> {
    v.map_values(|p: (&'static str, &'static str)| (p.0@, p.1@))
}

/// The menu from top to bottom: the id and the text of each item.
pub fn menu() -> (r: Vec<(&'static str, &'static str)>)
    ensures
        items(r@) == seq![
            (MENU_ID_SETTINGS@, "设置"@),
            (MENU_ID_OPEN_BROWSER@, "在浏览器中打开"@),
            (MENU_ID_RESTART_DSH@, "重启 dsh 后端"@),
            (MENU_ID_QUIT@, "完全退出"@),
        ],
{
    let mut v: Vec<(&'static str, &'static str)> = Vec::new();
    v.push((MENU_ID_SETTINGS, ui_text::menu_settings()));
    v.push((MENU_ID_OPEN_BROWSER, ui_text::menu_open_in_browser()));
    v.push((MENU_ID_RESTART_DSH, ui_text::menu_restart_dsh()));
    v.push((MENU_ID_QUIT, ui_text::menu_quit()));
    assert(items(v@) =~= seq![
        (MENU_ID_SETTINGS@, "设置"@),
        (MENU_ID_OPEN_BROWSER@, "在浏览器中打开"@),
        (MENU_ID_RESTART_DSH@, "重启 dsh 后端"@),
        (MENU_ID_QUIT@, "完全退出"@),
    ]);
    v
}

/// What an item of the menu has the shell do.
pub open spec fn chosen(id: Seq<char>) -> Option<TrayAction> {
    if id == MENU_ID_QUIT@ {
        Some(TrayAction::Quit)
    } else if id == MENU_ID_OPEN_BROWSER@ {
        Some(TrayAction::OpenInBrowser)
    } else if id == MENU_ID_RESTART_DSH@ {
        Some(TrayAction::RestartDsh)
    } else if id == MENU_ID_SETTINGS@ {
        Some(TrayAction::OpenSettings)
    } else {
        None
    }
}

/// What an item of the menu has the shell do.
pub fn on_menu_event(id: &str) -> (r: Option<TrayAction>)
    ensures
        r == chosen(id@),
{
    if text::same(id, MENU_ID_QUIT) {
        Some(TrayAction::Quit)
    } else if text::same(id, MENU_ID_OPEN_BROWSER) {
        Some(TrayAction::OpenInBrowser)
    } else if text::same(id, MENU_ID_RESTART_DSH) {
        Some(TrayAction::RestartDsh)
    } else if text::same(id, MENU_ID_SETTINGS) {
        Some(TrayAction::OpenSettings)
    } else {
        None
    }
}

/// What a click on the icon has the shell do: the left button restores the window, once, when
/// it is released.
pub fn on_click(left: bool, released: bool) -> (r: Option<TrayAction>)
    ensures
        r == (if left && released {
            Some(TrayAction::RestoreWindow)
        } else {
            None::<TrayAction>
        }),
{
    if left && released {
        Some(TrayAction::RestoreWindow)
    } else {
        None
    }
}

/// No two items of the menu do the same.
pub proof fn law_items_do_not_share_actions(a: Seq<char>, b: Seq<char>)
    ensures
        chosen(a) is Some && chosen(a) == chosen(b) ==> a == b,
{
}

/// Each item of the menu does what it says.
pub proof fn law_menu_items_do_what_they_say(id: &str, r: Option<TrayAction>, m: Vec<(&'static str, &'static str)>)
    requires
        call_ensures(on_menu_event, (id,), r),
        call_ensures(menu, (), m),
    ensures
        items(m@).contains((id@, "设置"@)) ==> r == Some(TrayAction::OpenSettings),
        items(m@).contains((id@, "在浏览器中打开"@)) ==> r == Some(TrayAction::OpenInBrowser),
        items(m@).contains((id@, "重启 dsh 后端"@)) ==> r == Some(TrayAction::RestartDsh),
        items(m@).contains((id@, "完全退出"@)) ==> r == Some(TrayAction::Quit),
        r is Some ==> exists|i: int| 0 <= i < m@.len() && (#[trigger] m@[i]).0@ == id@,
        m@.len() == 4,
{
    reveal_strlit("设置");
    reveal_strlit("在浏览器中打开");
    reveal_strlit("重启 dsh 后端");
    reveal_strlit("完全退出");
    reveal_strlit("tray-quit");
    reveal_strlit("tray-open-browser");
    reveal_strlit("tray-restart-dsh");
    reveal_strlit("tray-settings");
    assert("设置"@.len() == 2 && "在浏览器中打开"@.len() == 7 && "重启 dsh 后端"@.len() == 9
        && "完全退出"@.len() == 4);
    assert("tray-quit"@.len() == 9 && "tray-open-browser"@.len() == 17 && "tray-restart-dsh"@.len()
        == 16 && "tray-settings"@.len() == 13);
    let v = items(m@);
    assert(v.len() == m@.len());
    assert(v[0].0 == m@[0].0@ && v[1].0 == m@[1].0@ && v[2].0 == m@[2].0@ && v[3].0 == m@[3].0@);
}

/// The window comes back when the left button is let go over the icon.
pub proof fn law_left_click_brings_the_window_back(left: bool, released: bool, r: Option<TrayAction>)
    requires
        call_ensures(on_click, (left, released), r),
    ensures
        r is Some <==> left && released,
        r matches Some(a) ==> a == TrayAction::RestoreWindow,
{
}

} // verus!
