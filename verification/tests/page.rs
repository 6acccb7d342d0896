use dshell::page::{b64, err_tail_html, esc, panel_push, splash_fail, splash_status};

#[test]
fn base64_is_padded() {
    for (text, code) in
        [("", ""), ("f", "Zg=="), ("fo", "Zm8="), ("foo", "Zm9v"), ("foobar", "Zm9vYmFy"), ("?>~", "Pz5+")]
    {
        assert_eq!(b64(text), code);
    }
    assert_eq!(b64("ÿÿ"), "w7/Dvw==");
}

#[test]
fn base64_is_inert() {
    let code = b64("'\"<script>\n体验");
    assert!(code.chars().all(|c| c.is_ascii_alphanumeric() || "+/=".contains(c)));
    assert_eq!(code.len() % 4, 0);
}

#[test]
fn markup_is_escaped() {
    assert_eq!(esc("a & <b> &lt;"), "a &amp; &lt;b&gt; &amp;lt;");
    assert_eq!(esc("体验"), "体验");
}

#[test]
fn scripts_carry_base64() {
    assert_eq!(splash_status("foo"), "window.__dshell&&window.__dshell.statusB64('Zm9v')");
    assert_eq!(splash_fail("foo"), "window.__dshell&&window.__dshell.failB64('Zm9v')");
    assert_eq!(panel_push("foo"), "window.__dshellSettings&&window.__dshellSettings.push('Zm9v')");
}

#[test]
fn error_lines_are_listed() {
    assert_eq!(err_tail_html(&vec![]), "");
    assert_eq!(
        err_tail_html(&vec!["a<b".to_string(), "c".to_string()]),
        "\n\n<b>dsh 的原始输出：</b>\n· a&lt;b\n· c\n"
    );
}
