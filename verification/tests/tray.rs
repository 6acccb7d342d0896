use dshell::tray::{menu, on_click, on_menu_event, TrayAction};
use dshell::ui_text::{current, tray_tooltip, Lang};

#[test]
fn menu_is_in_order() {
    assert_eq!(
        menu(),
        [
            ("tray-settings", "设置"),
            ("tray-open-browser", "在浏览器中打开"),
            ("tray-restart-dsh", "重启 dsh 后端"),
            ("tray-quit", "完全退出"),
        ]
    );
}

#[test]
fn every_item_does_its_own() {
    let done: Vec<Option<TrayAction>> = menu().iter().map(|m| on_menu_event(m.0)).collect();
    assert_eq!(
        done,
        [
            Some(TrayAction::OpenSettings),
            Some(TrayAction::OpenInBrowser),
            Some(TrayAction::RestartDsh),
            Some(TrayAction::Quit),
        ]
    );
    assert_eq!(on_menu_event("main-tray"), None);
}

#[test]
fn only_the_left_button_restores_and_only_once() {
    assert_eq!(on_click(true, true), Some(TrayAction::RestoreWindow));
    assert_eq!(on_click(true, false), None);
    assert_eq!(on_click(false, true), None);
}

#[test]
fn texts_are_chinese() {
    assert_eq!(current(), Lang::ZhCn);
    assert_eq!(Lang::default(), Lang::ZhCn);
    assert_eq!(tray_tooltip(), "DShell");
}
