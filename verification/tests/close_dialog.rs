use dshell::close_dialog::{interpret, DialogResult};
use dshell::lifecycle::{apply_close_choice, CloseChoice, CloseDialogSpec, WindowAct};

const YES: &str = "完全退出";
const NO: &str = "关到托盘";

#[test]
fn custom_yes_is_quit() {
    let r = DialogResult::Custom(YES.to_string());
    assert_eq!(interpret(&r, YES, NO), CloseChoice::Quit);
}

#[test]
fn custom_no_is_hide() {
    let r = DialogResult::Custom(NO.to_string());
    assert_eq!(interpret(&r, YES, NO), CloseChoice::HideToTray);
}

#[test]
fn custom_cancel_is_cancel() {
    let r = DialogResult::Custom("取消".to_string());
    assert_eq!(interpret(&r, YES, NO), CloseChoice::Cancel);
}

#[test]
fn window_x_is_cancel_not_hide() {
    assert_eq!(interpret(&DialogResult::Cancel, YES, NO), CloseChoice::Cancel);
}

#[test]
fn plain_enum_fallback() {
    assert_eq!(interpret(&DialogResult::Yes, YES, NO), CloseChoice::Quit);
    assert_eq!(interpret(&DialogResult::No, YES, NO), CloseChoice::HideToTray);
}

#[test]
fn answers_not_understood_do_nothing() {
    assert_eq!(interpret(&DialogResult::Confirm, YES, NO), CloseChoice::Cancel);
    let r = DialogResult::Custom("?".to_string());
    assert_eq!(interpret(&r, YES, NO), CloseChoice::Cancel);
}

#[test]
fn choices_are_carried_out() {
    assert_eq!(apply_close_choice(CloseChoice::Quit), WindowAct::Exit);
    assert_eq!(apply_close_choice(CloseChoice::HideToTray), WindowAct::Conceal);
    assert_eq!(apply_close_choice(CloseChoice::Cancel), WindowAct::Stay);
}

#[test]
fn dialog_names_its_buttons() {
    let d = CloseDialogSpec::load();
    assert_eq!(d.title, "DShell");
    assert_eq!(d.body, "要退出 DShell，还是只在后台运行？");
    assert_eq!((d.yes, d.no, d.cancel), (YES, NO, "取消"));
}
