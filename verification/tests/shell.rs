use dshell::backend::{Asked, Opened, Restarted, Stopped, Switched};
use dshell::config::Config;
use dshell::doctor::{blocking_ids, dsh_missing, node_missing, probe_dsh_at, StepState};
use dshell::handoff::{
    keep_tail, open_in_browser, spawn_dsh, unreadable_output, wait_for_url, Arrival, Heard, Wait,
    STDERR_TAIL,
};
use dshell::installer::{Kind, Outcome};
use dshell::settings::Panel;
use dshell::state::{doctor_set_path, log_line, log_path, run_doctor, AppState};
use dshell::window::{on_navigation, on_page_load};

fn shell() -> AppState {
    let mut s = AppState::new(false);
    s.set_splash_url("http://tauri.localhost/index.html");
    s
}

fn running(s: &mut AppState, pid: u32) -> u32 {
    let generation = s.start_handoff().expect("nothing runs");
    s.handoff_spawned(Ok(pid));
    generation
}

#[test]
fn addresses_are_known_once_set() {
    let mut s = AppState::new(true);
    assert!(s.hold);
    assert_eq!(s.launch_url(), None);
    assert_eq!(s.splash_url(), None);
    s.set_launch_url("http://127.0.0.1:1/?token=x");
    s.set_splash_url("http://tauri.localhost/");
    assert_eq!(s.launch_url(), Some("http://127.0.0.1:1/?token=x".to_string()));
    assert_eq!(s.splash_url(), Some("http://tauri.localhost/".to_string()));
    s.set_dsh_pid(3);
    assert_eq!(s.dsh_pid(), 3);
}

#[test]
fn generations_go_round() {
    let mut s = AppState::new(false);
    assert_eq!(s.begin_dsh_generation(), 1);
    assert!(s.is_current_generation(1) && !s.is_current_generation(0));
    s.dsh_generation = u32::MAX;
    assert_eq!(s.begin_dsh_generation(), 0);
}

#[test]
fn backend_is_started_with_its_environment() {
    let p = spawn_dsh("C:\\n;C:\\w", 0, Some("t"));
    assert_eq!(p.program, "cmd");
    assert_eq!(p.args, ["/c", "dsh", "web", "--port", "0", "--no-open"]);
    assert_eq!(p.env, [("PATH".to_string(), "C:\\n;C:\\w".to_string())]);
    let p = spawn_dsh("x", 80, Some("t"));
    assert_eq!(p.env[1], ("DSHELL_PICKER_PORT".to_string(), "80".to_string()));
    assert_eq!(p.env[2], ("DSHELL_PICKER_TOKEN".to_string(), "t".to_string()));
    assert_eq!(spawn_dsh("x", 80, None).env.len(), 2);
    assert_eq!(open_in_browser("http://x"), ["/c", "start", "", "http://x"]);
}

fn line(saw: &mut bool, l: &str) -> Wait {
    wait_for_url(saw, Heard::Line(l.to_string()), &vec![])
}

#[test]
fn address_is_waited_for() {
    let mut saw = false;
    assert!(matches!(line(&mut saw, "ok"), Wait::Go));
    assert!(matches!(line(&mut saw, " 体 "), Wait::Show(s) if s == "正在启动 DeepSeek Harness"));
    assert!(saw);
    assert!(matches!(line(&mut saw, "more output"), Wait::Go));
    assert!(matches!(line(&mut saw, "dsh web: opening the default browser..."), Wait::Go));
    assert!(matches!(line(&mut saw, "dsh web: "), Wait::Go));
    assert!(matches!(line(&mut saw, " dsh web: http://x"), Wait::Go));
    match line(&mut saw, "dsh web: http://127.0.0.1:5/?token=a (press ctrl-c)") {
        Wait::Done(Ok(u)) => assert_eq!(u, "http://127.0.0.1:5/?token=a"),
        _ => panic!("the address was printed"),
    }
}

#[test]
fn waits_that_fail_say_why() {
    let mut saw = false;
    match wait_for_url(&mut saw, Heard::Closed, &vec!["<boom>".to_string()]) {
        Wait::Done(Err(e)) => {
            assert!(e.starts_with("<b>dsh 还没打印地址就退出了</b>\n\n常见原因：\n"));
            assert!(e.ends_with("\n\n<b>dsh 的原始输出：</b>\n· &lt;boom&gt;\n"));
        }
        _ => panic!("the backend is gone"),
    }
    match wait_for_url(&mut saw, Heard::Timeout, &vec![]) {
        Wait::Done(Err(e)) => assert!(e.starts_with("<b>等待 dsh 启动超时（60 秒）</b>\n\n")),
        _ => panic!("the time is up"),
    }
    assert!(unreadable_output().starts_with("<b>无法读取 dsh 输出</b>"));
}

#[test]
fn only_the_latest_error_lines_are_kept() {
    let mut tail = Vec::new();
    for i in 0..20 {
        keep_tail(&mut tail, &format!("{i}"));
    }
    assert_eq!(tail.len(), STDERR_TAIL);
    assert_eq!(tail[0], "8");
    assert_eq!(tail[11], "19");
}

#[test]
fn one_backend_at_a_time() {
    let mut s = shell();
    let generation = s.start_handoff().expect("nothing runs");
    assert!(s.start_handoff().is_none());
    let r = s.handoff_spawned(Ok(77));
    assert_eq!(s.dsh_pid(), 77);
    assert_eq!(r.step.detail, "已启动 dsh web（pid 77），等待地址");
    assert!(r.step.state == StepState::Checking);
    assert!(r.card.is_none());
    let waited = Ok("http://127.0.0.1:5/?token=a".to_string());
    match s.handoff_arrived(generation, &waited, Some("http://127.0.0.1:5/?token=a")) {
        Arrival::Enter(r, status) => {
            assert_eq!(r.step.detail, "准备就绪，正在进入");
            assert_eq!(status, "准备就绪，正在进入");
        }
        _ => panic!("the backend was reached"),
    }
    assert_eq!(s.launch_url(), Some("http://127.0.0.1:5/?token=a".to_string()));
    assert!(s.start_handoff().is_none());
}

#[test]
fn failed_start_can_be_repeated() {
    let mut s = shell();
    s.start_handoff().expect("nothing runs");
    let r = s.handoff_spawned(Err("not found".to_string()));
    assert!(r.step.state == StepState::Failed);
    assert_eq!(r.step.detail, "无法启动 dsh：not found");
    assert_eq!(
        r.card,
        Some("<b>无法启动 dsh</b>\n\nnot found\n\n完整日志：<code>%USERPROFILE%\\.dshell\\dshell-poc.log</code>".to_string())
    );
    assert!(s.start_handoff().is_some());
}

#[test]
fn stopped_backends_end_in_silence() {
    let mut s = shell();
    let generation = running(&mut s, 77);
    s.set_launch_url("http://x");
    assert_eq!(s.stop_dsh(), 77);
    assert_eq!(s.dsh_pid(), 0);
    assert_eq!(s.launch_url(), None);
    let end = s.handoff_arrived(generation, &Err("gone".to_string()), None);
    assert!(matches!(end, Arrival::Superseded));
    let late = s.handoff_arrived(generation, &Ok("http://y".to_string()), Some("http://y"));
    assert!(matches!(late, Arrival::Superseded));
    assert_eq!(s.launch_url(), None);
    assert_eq!(s.stop_dsh(), 0);
}

#[test]
fn arrivals_that_fail_are_reported() {
    let mut s = shell();
    let generation = running(&mut s, 1);
    match s.handoff_arrived(generation, &Err("<b>card</b>".to_string()), None) {
        Arrival::Fail(r) => {
            assert_eq!(r.step.detail, "dsh 没有正常启动");
            assert_eq!(r.card, Some("<b>card</b>".to_string()));
            assert!(r.back.is_none());
        }
        _ => panic!("it failed"),
    }
    match s.handoff_arrived(generation, &Ok("http://[".to_string()), None) {
        Arrival::Fail(r) => assert_eq!(r.step.detail, "dsh 打印了无法解析的地址"),
        _ => panic!("it cannot be parsed"),
    }
}

#[test]
fn restart_holds_the_examination_back() {
    let mut s = shell();
    running(&mut s, 5);
    assert!(s.begin_restart());
    assert!(!s.begin_restart());
    assert!(matches!(s.restart_opened(true), Opened::Splash(u) if u == "http://tauri.localhost/index.html"));
    assert_eq!(s.doctor_run(), None);
    assert_eq!(s.stop_dsh(), 5);
    assert_eq!(s.doctor_run(), None);
    assert!(matches!(s.restart_stopped(true), Restarted::Examine(true)));
    assert_eq!(s.doctor_run(), Some(true));
    assert!(s.start_handoff().is_some());
    s.end_restart();
    assert!(s.begin_restart());
}

#[test]
fn restart_needs_a_place_to_report_to() {
    let mut s = AppState::new(false);
    assert!(matches!(s.restart_opened(false), Opened::Gone));
    match s.restart_opened(true) {
        Opened::Refused(card) => assert!(card.starts_with("<b>无法重启</b>\n\n")),
        _ => panic!("the start page is not known"),
    }
    assert!(!s.restart_guard);
    match s.switch_opened(&mut Panel::new(), true, None) {
        Opened::Refused(card) => assert!(card.starts_with("<b>无法切换版本</b>\n\n")),
        _ => panic!("the start page is not known"),
    }
}

#[test]
fn restart_is_abandoned_where_the_old_backend_stays() {
    let mut s = shell();
    running(&mut s, 5);
    s.restart_opened(true);
    s.stop_dsh();
    match s.restart_stopped(false) {
        Restarted::Abandoned(r) => {
            assert!(r.step.state == StepState::Warn);
            assert_eq!(r.step.detail, "旧 dsh 没有及时退出，重启已放弃（避免两个后端抢同一份会话）");
            assert!(r.card.expect("a card").starts_with("<b>旧 dsh 没有退出，重启已放弃</b>"));
        }
        _ => panic!("the old one stays"),
    }
    assert_eq!(s.doctor_run(), Some(true));
}

#[test]
fn replacement_can_be_taken_back() {
    let mut s = shell();
    running(&mut s, 5);
    let mut p = Panel::new();
    p.start(1);
    assert!(p.open(true, s.splash_url().as_deref()).is_ok());
    p.set_selected(Some("0.1.7".to_string()));
    assert!(matches!(s.switch_opened(&mut p, false, None), Opened::Gone));
    assert!(p.open && s.previous_dsh.is_none());
    let opened = s.switch_opened(&mut p, true, Some("0.1.6".to_string()));
    assert!(matches!(opened, Opened::Splash(_)));
    assert!(!p.open);
    s.stop_dsh();
    match s.switch_stopped(true, "0.1.7") {
        Stopped::Install { kind, target } => {
            assert!(kind == Kind::Dsh);
            assert_eq!(target, "0.1.7");
        }
        Stopped::Abandoned(_) => panic!("it exited"),
    }
    assert_eq!(s.doctor_run(), None);
    let done = Outcome { ok: true, cancelled: false, error: None };
    assert_eq!(p.selected(), Some("0.1.7".to_string()));
    assert!(matches!(s.switch_installed(&mut p, &done), Switched::Examine(true)));
    assert_eq!(p.selected(), None);
    let generation = running(&mut s, 6);
    match s.handoff_arrived(generation, &Err("broken".to_string()), None) {
        Arrival::Fail(r) => assert_eq!(r.back, Some("0.1.6".to_string())),
        _ => panic!("it does not start"),
    }
    assert_eq!(s.switch_back(), Some("0.1.6".to_string()));
    s.stop_dsh();
    let generation = running(&mut s, 7);
    s.handoff_arrived(generation, &Ok("http://x".to_string()), Some("http://x"));
    assert_eq!(s.switch_back(), None);
}

#[test]
fn replacement_has_to_reach_the_installation_in_use() {
    let s = shell();
    let mut cfg = Config::default();
    cfg.dsh = Some("e/dsh.cmd".to_string());
    assert!(matches!(s.switch_asked(&cfg, Some("1"), Some("E")), Asked::Go));
    match s.switch_asked(&cfg, Some("1"), Some("D")) {
        Asked::Refused(why) => assert!(why.contains("更新它只会装出第二份")),
        Asked::Go => panic!("it would be a second copy"),
    }
    assert!(matches!(s.switch_asked(&cfg, None, Some("E")), Asked::Refused(_)));
    assert!(matches!(s.switch_asked(&cfg, Some("1"), None), Asked::Refused(_)));
}

#[test]
fn failed_replacement_is_not_hidden() {
    let mut s = shell();
    let mut p = Panel::new();
    p.set_selected(Some("0.1.7".to_string()));
    s.switch_opened(&mut p, true, Some("0.1.6".to_string()));
    s.stop_dsh();
    s.switch_stopped(true, "0.1.7");
    let failed = Outcome { ok: false, cancelled: false, error: Some("a<b".to_string()) };
    match s.switch_installed(&mut p, &failed) {
        Switched::Failed(card, back) => {
            assert_eq!(
                card,
                "<b>更新 dsh 失败</b>\n\na&lt;b\n\ndsh 后端已停止。要恢复使用，点下面的「跳过检查，直接启动」——它会启动<b>当前已装</b>的那个版本。"
            );
            assert_eq!(back, Some("0.1.6".to_string()));
        }
        _ => panic!("it failed"),
    }
    assert!(!s.restart_guard);
    assert_eq!(p.selected(), Some("0.1.7".to_string()));
    let unknown = Outcome { ok: false, cancelled: false, error: None };
    let ended = s.switch_installed(&mut p, &unknown);
    assert!(matches!(ended, Switched::Failed(c, _) if c.contains("未知原因")));
    s.restart_guard = true;
    let card = match s.switch_stopped(false, "0.1.7") {
        Stopped::Abandoned(card) => card,
        Stopped::Install { .. } => panic!("it stays"),
    };
    assert!(card.starts_with("<b>旧 dsh 没有退出，切换已放弃</b>"));
    assert!(!s.restart_guard);
}

#[test]
fn examination_decides_on_the_start() {
    let fine = vec![probe_dsh_at("C:\\dsh.cmd", Some("0.1.6"))];
    let e = run_doctor(&fine, true);
    assert!(e.all_ok && e.handoff);
    assert!(!run_doctor(&fine, false).handoff);
    let bad = vec![node_missing(), dsh_missing()];
    let e = run_doctor(&bad, true);
    assert!(!e.all_ok && !e.handoff);
    assert_eq!(e.missing, ["node", "dsh"]);
    assert_eq!(e.auto, ["node", "dsh"]);
    assert_eq!(blocking_ids(&bad), e.missing);
}

#[test]
fn examination_is_made_even_if_no_page_asks() {
    let mut s = AppState::new(false);
    assert_eq!(s.doctor_fallback(), Some(true));
    s.doctor_run();
    assert_eq!(s.doctor_fallback(), None);
    assert_eq!(AppState::new(true).doctor_fallback(), Some(false));
}

#[test]
fn installation_can_be_cancelled() {
    let mut s = AppState::new(false);
    assert!(s.install_cancel().is_none());
    assert!(s.cancel.requested());
    s.install_begun();
    assert!(!s.cancel.requested());
    s.install_started(12);
    assert_eq!(s.install_cancel().expect("a process").args[1], "12");
    s.install_ended();
    assert!(s.install_pid == 0 && s.left_behind().is_empty());
}

#[test]
fn nothing_is_left_behind() {
    let mut s = AppState::new(false);
    assert!(s.left_behind().is_empty());
    s.install_pid = 2;
    assert_eq!(s.left_behind(), [("install", 2)]);
    s.dsh_pid = 1;
    assert_eq!(s.left_behind(), [("dsh", 1), ("install", 2)]);
}

#[test]
fn only_paths_in_order_are_remembered() {
    let mut cfg = Config::default();
    let good = probe_dsh_at("C:\\d.cmd", None);
    assert!(doctor_set_path(&mut cfg, "dsh", "C:\\d.cmd", &good));
    assert_eq!(cfg.dsh, Some("C:\\d.cmd".to_string()));
    assert!(!doctor_set_path(&mut cfg, "node", "C:\\n.exe", &node_missing()));
    assert_eq!(cfg.node, None);
}

#[test]
fn log_begins_with_a_mark() {
    assert_eq!(log_line(false, "体"), b"\xEF\xBB\xBF\xE4\xBD\x93\n");
    assert_eq!(log_line(true, "x"), b"x\n");
    assert_eq!(log_path(Some("C:\\u")), "C:\\u\\.dshell\\dshell-poc.log");
}

#[test]
fn window_stays_at_home() {
    assert!(on_navigation("http", Some("tauri.localhost")));
    assert!(on_navigation("http", Some("127.0.0.1")));
    assert!(on_navigation("http", Some("localhost")));
    assert!(on_navigation("about", None));
    assert!(on_navigation("data", None));
    assert!(!on_navigation("https", Some("github.com")));
    assert!(!on_navigation("file", None));
}

#[test]
fn start_page_is_remembered_when_it_loads() {
    let mut s = AppState::new(false);
    let mut p = Panel::new();
    p.open = true;
    assert!(!on_page_load(&mut s, &mut p, "about", None, "blank", "about:blank"));
    assert!(!p.open);
    assert_eq!(s.splash_url(), None);
    let url = "http://tauri.localhost/index.html";
    assert!(on_page_load(&mut s, &mut p, "http", Some("tauri.localhost"), "/index.html", url));
    assert_eq!(s.splash_url(), Some(url.to_string()));
    assert!(!on_page_load(&mut s, &mut p, "http", Some("tauri.localhost"), "/index.html", url));
    p.open = true;
    on_page_load(&mut s, &mut p, "http", Some("127.0.0.1"), "/settings.html", "http://127.0.0.1/settings.html");
    assert!(p.open);
    assert_eq!(s.splash_url(), Some(url.to_string()));
}
