use dshell::picker::Request;
use dshell::release_notes::Note;
use dshell::settings::{
    decodable, find_param, fresh_nonce, origin_allowed, percent_decode, push_data,
    push_data_forced, push_notes, query_param, split_action, Act, Message, Panel, READY_HINT, SHIM,
};
use dshell::update::Catalog;

#[test]
fn shim_decodes_base64_as_utf8() {
    assert!(SHIM.contains("function dec(b64)"), "shim 里应有 UTF-8 解码器");
    assert!(SHIM.contains("new TextDecoder(\"utf-8\")"), "解码器必须显式指定 utf-8");
    let bad: Vec<&str> = SHIM
        .lines()
        .map(str::trim)
        .filter(|l| l.contains("atob("))
        .filter(|l| !l.starts_with("//"))
        .filter(|l| !l.starts_with("var bin = atob(b64);"))
        .collect();
    assert!(bad.is_empty(), "shim 里有裸 atob（会出乱码）：{bad:?}");
    for call in [
        "dec(\"__URL__\")",
        "dec(\"__NONCE__\")",
        "var json = dec(b64);",
        "el.textContent = dec(b64);",
    ] {
        assert!(SHIM.contains(call), "缺少 UTF-8 解码调用：{call}");
    }
}

#[test]
fn utf8_vs_latin1_decoding_differ_on_chinese() {
    let text = "体验优化";
    let bytes = text.as_bytes();
    let latin1: String = bytes.iter().map(|&b| b as char).collect();
    assert_ne!(latin1, text, "按 Latin-1 读必须是乱的（这正是缺陷现场）");
    assert!(latin1.starts_with('ä'), "乱码形状：{latin1}");
    assert_eq!(String::from_utf8(bytes.to_vec()).unwrap(), text);
    assert_eq!(dshell::page::b64(text), "5L2T6aqM5LyY5YyW");
}

const ORIGIN: &str = "http://127.0.0.1:4567";

fn request(method: &str, path: &str, origin: Option<&str>) -> Request {
    Request {
        method: method.to_string(),
        path: path.to_string(),
        token: None,
        origin: origin.map(|o| o.to_string()),
    }
}

fn panel() -> Panel {
    let mut p = Panel::new();
    p.start(9000);
    p.nonce = Some("n0".to_string());
    p
}

#[test]
fn actions_stand_behind_the_secret() {
    let found = |p: &str| split_action(p, "n0");
    assert_eq!(
        found("/_dshell/n0/settings/switch?version=1.0.0&x"),
        Some(("switch".to_string(), Some("version=1.0.0&x".to_string())))
    );
    assert_eq!(found("/_dshell/n0/settings/ready"), Some(("ready".to_string(), None)));
    assert_eq!(found("/_dshell/n0/settings/"), None);
    assert_eq!(found("/_dshell/n1/settings/ready"), None);
    assert_eq!(found("/?/_dshell/n0/settings/ready"), None);
}

#[test]
fn parameters_are_decoded() {
    assert_eq!(query_param(Some("a=1&version=0.1.6%2Bx"), "version"), Some("0.1.6+x".to_string()));
    assert_eq!(query_param(Some("version=0.1.6+x"), "version"), Some("0.1.6+x".to_string()));
    assert_eq!(query_param(Some("version"), "version"), Some(String::new()));
    assert_eq!(query_param(Some("version=1&version=2"), "version"), Some("1".to_string()));
    assert_eq!(query_param(Some("versions=1"), "version"), None);
    assert_eq!(query_param(None, "version"), None);
    assert_eq!(find_param(Some("version=%41=%42"), "version"), Some("%41=%42".to_string()));
}

#[test]
fn escapes_are_replaced() {
    assert_eq!(percent_decode("%E4%BD%93%e9%aa%8c"), "体验");
    assert_eq!(percent_decode("100%"), "100%");
    assert_eq!(percent_decode("%4"), "%4");
    assert_eq!(percent_decode("%zz%41"), "%zzA");
    assert_eq!(percent_decode("%+5"), "\u{5}");
    assert_eq!(percent_decode("%-5"), "%-5");
    assert_eq!(percent_decode("%ff"), "\u{fffd}");
    assert_eq!(percent_decode("%é"), "%é");
}

#[test]
fn escapes_that_end_inside_a_character_are_told() {
    assert!(decodable("%41体"));
    assert!(decodable("%é1"));
    assert!(!decodable("%4体"));
    assert!(!decodable("%体"));
    assert!(!decodable("%😀"));
    let p = panel();
    assert!(!p.readable(&request("POST", "/_dshell/n0/settings/notes?version=%体", Some(ORIGIN))));
    assert!(p.readable(&request("POST", "/_dshell/n0/settings/ready?version=%体", Some(ORIGIN))));
    assert!(p.readable(&request("GET", "/_dshell/n0/settings/notes?version=%体", Some(ORIGIN))));
}

#[test]
fn only_our_own_origins_are_allowed() {
    assert!(origin_allowed(Some("http://127.0.0.1:1")));
    assert!(origin_allowed(Some(" HTTP://LOCALHOST:8080 ")));
    assert!(origin_allowed(Some("http://tauri.localhost")));
    assert!(!origin_allowed(Some("http://tauri.localhost:1")));
    assert!(!origin_allowed(Some("https://127.0.0.1:1")));
    assert!(!origin_allowed(Some("http://127.0.0.1.example.com")));
    assert!(!origin_allowed(Some("null")));
    assert!(!origin_allowed(None));
}

#[test]
fn refusals_change_nothing() {
    let mut p = panel();
    p.selected = Some("1.0.0".to_string());
    p.open = true;
    let base = "/_dshell/n0/settings/";
    let cases = [
        (request("GET", &format!("{base}cancel"), Some(ORIGIN)), 405, "{\"ok\":false,\"error\":\"method not allowed\"}"),
        (request("POST", "/elsewhere", Some(ORIGIN)), 404, "{\"ok\":false,\"error\":\"not found\"}"),
        (request("POST", &format!("{base}cancel"), None), 403, "{\"ok\":false,\"error\":\"forbidden\"}"),
        (request("POST", &format!("{base}notes"), Some(ORIGIN)), 400, "{\"ok\":false,\"error\":\"version required\"}"),
        (request("POST", &format!("{base}switch?v=1"), Some(ORIGIN)), 400, "{\"ok\":false,\"error\":\"version required\"}"),
        (request("POST", &format!("{base}switch?version=1%26calc"), Some(ORIGIN)), 400, "{\"ok\":false,\"error\":\"invalid version\"}"),
        (request("POST", &format!("{base}switch?version="), Some(ORIGIN)), 400, "{\"ok\":false,\"error\":\"invalid version\"}"),
        (request("POST", &format!("{base}quit"), Some(ORIGIN)), 404, "{\"ok\":false,\"error\":\"unknown action\"}"),
    ];
    for (q, status, body) in cases {
        let (r, act) = p.handle(&q);
        assert_eq!((r.status, r.body.as_str()), (status, body));
        assert!(matches!(act, Act::Nothing));
        assert_eq!(p.selected, Some("1.0.0".to_string()));
        assert!(p.open && !p.ready);
    }
    let mut silent = Panel::new();
    let (r, _) = silent.handle(&request("POST", &format!("{base}ready"), Some(ORIGIN)));
    assert_eq!((r.status, r.reason), (503, "Service Unavailable"));
}

#[test]
fn actions_are_carried_out() {
    let mut p = panel();
    let post = |p: &mut Panel, what: &str| {
        let (r, act) = p.handle(&request("POST", &format!("/_dshell/n0/settings/{what}"), Some(ORIGIN)));
        assert_eq!((r.status, r.reason, r.body.as_str()), (200, "OK", "{\"ok\":true}"));
        act
    };
    assert!(matches!(post(&mut p, "ready"), Act::Push));
    assert!(p.ready);
    assert!(matches!(post(&mut p, "refresh"), Act::Refresh));
    match post(&mut p, "notes?version=0.1.5-rc.2") {
        Act::Notes(v) => assert_eq!(v, "0.1.5-rc.2"),
        _ => panic!("notes were asked for"),
    }
    match post(&mut p, "switch?version=0.1.6%2Bb") {
        Act::Switch(v) => assert_eq!(v, "0.1.6+b"),
        _ => panic!("a switch was asked for"),
    }
    p.open = true;
    assert!(matches!(post(&mut p, "apply?version=0.1.5"), Act::Close));
    assert_eq!(p.selected(), Some("0.1.5".to_string()));
    assert!(!p.open);
    assert!(matches!(post(&mut p, "apply?version="), Act::Close));
    assert_eq!(p.selected(), None);
    p.set_selected(Some("1".to_string()));
    assert!(matches!(post(&mut p, "cancel"), Act::Close));
    assert_eq!(p.selected(), None);
}

#[test]
fn panel_opens_beside_the_start_page() {
    let mut p = panel();
    let js = p.open(true, Some("http://tauri.localhost/index.html")).expect("it opens");
    assert!(js.contains(&format!(
        "dec(\"{}\")",
        dshell::page::b64("http://tauri.localhost/settings.html")
    )));
    assert!(js.contains("var port = 9000;"));
    assert!(js.contains(&format!("var nonce = dec(\"{}\");", dshell::page::b64("n0"))));
    assert!(!js.contains("__URL__") && !js.contains("__PORT__") && !js.contains("__NONCE__"));
    assert!(p.open && !p.ready);
}

#[test]
fn panel_says_why_it_cannot_open() {
    let mut p = panel();
    assert!(p.open(false, Some("a/b")).expect_err("no window").contains("main window is gone"));
    assert!(p.open(true, None).expect_err("no address").contains("panel url unknown"));
    assert!(p.open(true, Some("no slash")).expect_err("no address").contains("panel url unknown"));
    let mut silent = Panel::new();
    assert!(silent.open(true, Some("a/b")).expect_err("not listening").contains("not listening"));
    assert!(!p.open && !silent.open);
}

#[test]
fn silent_panels_are_noticed() {
    let mut p = panel();
    assert!(p.overdue().is_none());
    p.open(true, Some("a/b")).expect("it opens");
    assert_eq!(
        p.overdue(),
        Some(format!(
            "window.__dshellSettings&&window.__dshellSettings.status('{}')",
            dshell::page::b64(READY_HINT)
        ))
    );
    p.ready = true;
    assert!(p.overdue().is_none());
    assert!(p.reset_for_document());
    assert!(!p.open && !p.ready);
    assert!(!p.reset_for_document());
}

#[test]
fn secrets_differ_from_start_to_start() {
    let a = fresh_nonce(1);
    assert_eq!(a.len(), 32);
    assert!(a.chars().all(|c| c.is_ascii_hexdigit()));
    assert_ne!(a, fresh_nonce(1));
    let mut p = Panel::new();
    assert_eq!(p.start(7), 7);
    assert_eq!(p.nonce.map(|n| n.len()), Some(32));
}

fn catalog(stale: bool) -> Catalog {
    Catalog {
        current: None,
        latest: None,
        registry: String::new(),
        registry_age_secs: None,
        registry_stale: stale,
        npm_global: true,
        source_note: None,
        npm_prefix: None,
        versions: vec![],
    }
}

#[test]
fn messages_tell_what_they_are() {
    let (m, again) = push_data(Ok(catalog(true)));
    assert_eq!(m.kind(), "data");
    assert!(again);
    assert!(!push_data(Ok(catalog(false))).1);
    let (m, again) = push_data(Err("no npm".to_string()));
    assert!(matches!(&m, Message::Error(e) if e == "no npm"));
    assert_eq!(m.kind(), "error");
    assert!(!again);
    assert!(push_data_forced(Ok(())).is_none());
    assert_eq!(push_data_forced(Err("e".to_string())).expect("told").kind(), "refresh_error");
    let note = Note { version: "1".to_string(), body: "b".to_string(), url: "u".to_string(), cached: true };
    assert_eq!(push_notes("1".to_string(), Ok(Some(note))).kind(), "notes");
    assert!(matches!(push_notes("1".to_string(), Ok(None)), Message::NotesMissing(v) if v == "1"));
    let m = push_notes("1".to_string(), Err("e".to_string()));
    assert!(matches!(&m, Message::NotesError(v, e) if v == "1" && e == "e"));
    assert_eq!(m.kind(), "notes_error");
}
