//! What the closing dialog's answer means.
//!
//! The dialog has three buttons, so that closing it, which counts as cancelling, cannot be
//! taken for the wish to stay in the tray.

use vstd::prelude::*;

use crate::lifecycle::CloseChoice;
use crate::text;

verus! {

/// What a dialog answers.
pub enum DialogResult {
    Yes,
    No,
    Confirm,
    Cancel,
    /// The text of the button.
    Custom(String),
}

/// What the answer of the dialog means, given the texts of its first two buttons.
pub open spec fn meant(result: DialogResult, yes: Seq<char>, no: Seq<char>) -> CloseChoice {
    match result {
        DialogResult::Custom(t) => if t@ == yes {
            CloseChoice::Quit
        } else if t@ == no {
            CloseChoice::HideToTray
        } else {
            CloseChoice::Cancel
        },
        DialogResult::Yes => CloseChoice::Quit,
        DialogResult::No => CloseChoice::HideToTray,
        _ => CloseChoice::Cancel,
    }
}

/// What the answer of the dialog means. A system may answer with the button's text or with
/// its place; both are understood.
pub fn interpret(result: &DialogResult, yes: &str, no: &str) -> (r: CloseChoice)
    ensures
        r == meant(*result, yes@, no@),
{
    match result {
        DialogResult::Custom(t) => {
            if text::same(t.as_str(), yes) {
                CloseChoice::Quit
            } else if text::same(t.as_str(), no) {
                CloseChoice::HideToTray
            } else {
                CloseChoice::Cancel
            }
        },
        DialogResult::Yes => CloseChoice::Quit,
        DialogResult::No => CloseChoice::HideToTray,
        DialogResult::Confirm => CloseChoice::Cancel,
        DialogResult::Cancel => CloseChoice::Cancel,
    }
}

/// The program ends, and the window goes away, only by the button that says so. Closing the
/// dialog, or an answer that is not understood, does neither.
pub proof fn law_nothing_happens_unasked(result: DialogResult, yes: Seq<char>, no: Seq<char>)
    ensures
        meant(result, yes, no) == CloseChoice::Quit ==> result is Yes || (result
            matches DialogResult::Custom(t) && t@ == yes),
        meant(result, yes, no) == CloseChoice::HideToTray ==> result is No || (result
            matches DialogResult::Custom(t) && t@ == no),
        result is Cancel || result is Confirm ==> meant(result, yes, no) == CloseChoice::Cancel,
{
}

/// Each button of the dialog does what it says: the first ends the program, the second keeps it
/// in the tray, and whatever else comes of the dialog leaves it as it is.
pub proof fn law_buttons_do_what_they_say(
    dialog: crate::lifecycle::CloseDialogSpec,
    result: &DialogResult,
    choice: CloseChoice,
    act: crate::lifecycle::WindowAct,
)
    requires
        call_ensures(crate::lifecycle::CloseDialogSpec::load, (), dialog),
        call_ensures(interpret, (result, dialog.yes, dialog.no), choice),
        call_ensures(crate::lifecycle::apply_close_choice, (choice,), act),
    ensures
        dialog.yes@ == "完全退出"@ && dialog.no@ == "关到托盘"@,
        act is Exit <==> *result is Yes || (*result matches DialogResult::Custom(t) && t@
            == "完全退出"@),
        act is Conceal <==> *result is No || (*result matches DialogResult::Custom(t) && t@
            == "关到托盘"@),
        act is Stay <==> *result is Confirm || *result is Cancel || (*result matches
            DialogResult::Custom(t) && t@ != "完全退出"@ && t@ != "关到托盘"@),
{
    reveal_strlit("完全退出");
    reveal_strlit("关到托盘");
    assert("完全退出"@[0] != "关到托盘"@[0]);
}

} // verus!
