use dshell::config::Config;
use dshell::installer::{
    command_for, display_command, dsh_in, first_of, guess_phase, install_missing,
    locate_and_remember, node_candidates, npm_beside, npm_prefix, parse_percent, remember, run,
    spawn_failed, valid_version, Begin, Install, Kind, LOG_LINES, Next, Percent, Places, Poll,
    Polled,
};
use dshell::proc::{Line, Output};

fn line(text: &str, is_err: bool) -> Line {
    Line { text: text.to_string(), is_err }
}

fn session() -> Install {
    match run(Kind::Dsh, Some("0.1.6"), None, 1_000) {
        Ok(i) => i,
        Err(_) => panic!("the version is fine"),
    }
}

#[test]
fn kinds_have_names() {
    assert_eq!((Kind::Node.id(), Kind::Node.title()), ("node", "Node.js"));
    assert_eq!((Kind::Dsh.id(), Kind::Dsh.title()), ("dsh", "@deepseek-ai/dsh"));
}

#[test]
fn only_official_commands_are_run() {
    let (program, args) = command_for(Kind::Node, None, None);
    assert_eq!(
        display_command(&program, &args),
        "winget install --id OpenJS.NodeJS.LTS --exact --accept-package-agreements --accept-source-agreements"
    );
    let (program, args) = command_for(Kind::Dsh, None, None);
    assert_eq!(program, "cmd");
    assert_eq!(
        args,
        ["/c", "npm", "i", "-g", "--no-audit", "--no-fund", "--loglevel=http", "@deepseek-ai/dsh"]
    );
    let (program, args) = command_for(Kind::Dsh, Some("0.1.6-alpha.1"), Some("2026-09-16T08:37:41.975Z"));
    assert_eq!(
        display_command(&program, &args),
        "cmd npm i -g --no-audit --no-fund --loglevel=http --before=2026-09-16T08:37:41.975Z @deepseek-ai/dsh@0.1.6-alpha.1"
    );
}

#[test]
fn versions_are_checked_before_they_are_run() {
    assert!(valid_version("0.1.6-alpha.1+b"));
    for v in ["", "1.0.0 & calc", "1.0.0\"", "版本", "1_0", &"1".repeat(65)] {
        assert!(!valid_version(v), "{v}");
    }
    assert!(valid_version(&"1".repeat(64)));
    match run(Kind::Dsh, Some("1 & 2"), None, 0) {
        Err(o) => {
            assert!(!o.ok && !o.cancelled);
            assert_eq!(o.error, Some("版本号 `1 & 2` 含意外字符，已拒绝执行".to_string()));
        }
        Ok(_) => panic!("it must not run"),
    }
}

#[test]
fn session_begins_with_its_command() {
    let i = session();
    assert_eq!(i.phase, "正在更新 @deepseek-ai/dsh@0.1.6");
    assert_eq!(i.log[0], "$ cmd npm i -g --no-audit --no-fund --loglevel=http @deepseek-ai/dsh@0.1.6");
    assert_eq!(i.log.len(), 2);
    match run(Kind::Node, None, None, 0) {
        Ok(n) => {
            assert_eq!(n.phase, "正在安装 Node.js");
            assert_eq!(n.log.len(), 1);
        }
        Err(_) => panic!("nothing to refuse"),
    }
}

#[test]
fn percentages_are_read() {
    assert!(parse_percent("12% then 34 %, 56%") == Some(Percent::Printed(56)));
    assert!(parse_percent("300% 20%") == Some(Percent::Printed(20)));
    assert!(parse_percent("99999999999999999999%").is_none());
    assert!(parse_percent("https://x/a%20b 50%").is_none());
    assert!(parse_percent("██████▒▒▒▒") == Some(Percent::Bar { filled: 6, total: 10 }));
    assert!(parse_percent("███▒▒").is_none());
    assert!(parse_percent("%").is_none());
}

#[test]
fn phases_are_guessed() {
    assert_eq!(guess_phase("npm http fetch GET 200 https://x"), Some("正在下载".to_string()));
    assert_eq!(guess_phase("npm http cache x"), Some("正在解析依赖".to_string()));
    assert_eq!(guess_phase("Downloading https"), Some("正在下载".to_string()));
    assert_eq!(guess_phase("Successfully INSTALLED"), Some("正在安装".to_string()));
    assert_eq!(guess_phase("Verified hash"), Some("正在校验".to_string()));
    assert_eq!(guess_phase("added 1 package"), None);
}

#[test]
fn progress_is_reported_now_and_then() {
    let mut i = session();
    assert!(!i.on_line(&line("downloading 10%", false), 1_119));
    assert!(i.on_line(&line("oops", true), 1_120));
    assert!(!i.on_line(&line("x", false), 1_121));
    assert_eq!(i.log[2], "  downloading 10%");
    assert_eq!(i.log[3], "! oops");
    let p = i.progress(false, 77);
    assert_eq!((p.kind, p.phase.as_str(), p.elapsed_ms), ("dsh", "正在下载", 77));
    assert!(p.percent == Some(Percent::Printed(10)));
    assert_eq!(p.lines, i.log);
    assert!(i.progress(true, 0).percent.is_none());
    for n in 0..200 {
        i.on_line(&line(&format!("{n}"), false), 1_122);
    }
    assert_eq!(i.log.len(), LOG_LINES);
    assert_eq!(i.log[LOG_LINES - 1], "  199");
}

#[test]
fn sessions_end() {
    let mut i = session();
    assert!(i.on_poll(Polled::Running, false) == Poll::Wait);
    assert!(i.on_poll(Polled::Exited(Some(0)), true) == Poll::Ended(Some(0)));
    let o = i.outcome(Some(0));
    assert!(o.ok && !o.cancelled && o.error.is_none());
    assert!(i.on_poll(Polled::Unknown, false) == Poll::Ended(None));
    assert!(i.on_poll(Polled::Running, true) == Poll::Kill);
    let o = i.outcome(None);
    assert!(!o.ok && o.cancelled);
    assert_eq!(o.error, Some("安装已取消".to_string()));
}

#[test]
fn failures_show_the_end_of_the_log() {
    let mut i = session();
    for n in 0..7 {
        i.on_line(&line(&format!("l{n}"), false), 0);
    }
    assert_eq!(
        i.outcome(Some(-1)).error,
        Some("安装失败（退出码 Some(-1)）\n  l1\n  l2\n  l3\n  l4\n  l5\n  l6".to_string())
    );
    i.on_line(&line("npm error code ETARGET", true), 0);
    let why = i.outcome(None).error.expect("it failed");
    assert!(why.starts_with("这个版本装不了：它发布那一刻，同一批的其它包还没发全（npm ETARGET）。\n"));
    assert!(why.contains("安装失败（退出码 None）\n"));
    assert_eq!(spawn_failed("no").error, Some("无法启动安装程序：no".to_string()));
}

#[test]
fn installed_programs_are_found() {
    assert_eq!(
        node_candidates(Some("P"), Some("L")),
        ["P\\nodejs\\node.exe", "L\\Programs\\nodejs\\node.exe", "C:\\Program Files\\nodejs\\node.exe"]
    );
    assert_eq!(node_candidates(None, None).len(), 1);
    assert_eq!(npm_beside("/n/node"), Some(dshell::config::join("/n", "npm.cmd")));
    assert_eq!(dsh_in("P"), "P\\dsh.cmd");
    let out = |code: i32, s: &str| {
        Ok(Output { code: Some(code), stdout: s.to_string(), stderr: String::new(), timed_out: false })
    };
    assert_eq!(npm_prefix(&out(0, " C:\\npm\n")), Some("C:\\npm".to_string()));
    assert_eq!(npm_prefix(&out(0, " ")), None);
    assert_eq!(npm_prefix(&out(1, "x")), None);
    assert_eq!(npm_prefix(&Err("e".to_string())), None);
}

#[test]
fn found_programs_are_remembered() {
    let mut c = Config::default();
    assert_eq!(remember(Kind::Node, &mut c, None, Some("m"), Some("p")), None);
    assert_eq!(c.npm, None);
    assert_eq!(
        remember(Kind::Node, &mut c, Some("n"), Some("m"), None),
        Some("n".to_string())
    );
    assert_eq!((c.node.as_deref(), c.npm.as_deref(), c.npm_prefix.as_deref()), (Some("n"), Some("m"), None));
    assert_eq!(remember(Kind::Dsh, &mut c, Some("d"), None, None), None);
    assert_eq!(
        remember(Kind::Dsh, &mut c, Some("d"), None, Some("p")),
        Some("d".to_string())
    );
    assert_eq!((c.dsh.as_deref(), c.npm_prefix.as_deref()), (Some("d"), Some("p")));
}

#[test]
fn installed_programs_are_looked_for() {
    let places = |candidates: &[bool], npm: bool, dsh: bool| Places {
        candidates: candidates.to_vec(),
        npm,
        dsh,
    };
    let mut c = Config::default();
    c.npm = Some("old".to_string());
    let none = places(&[false, false], true, true);
    assert_eq!(locate_and_remember(Kind::Node, &mut c, Some("P"), None, Some("X"), &none), None);
    assert_eq!((c.npm.as_deref(), c.npm_prefix.as_deref()), (Some("old"), None));
    let second = places(&[false, true], false, false);
    assert_eq!(
        locate_and_remember(Kind::Node, &mut c, Some("P"), None, Some("X"), &second),
        Some("C:\\Program Files\\nodejs\\node.exe".to_string())
    );
    assert_eq!((c.npm.as_deref(), c.npm_prefix.as_deref()), (Some("old"), Some("X")));
    let first = places(&[true, true], true, false);
    assert_eq!(
        locate_and_remember(Kind::Node, &mut c, Some("P"), None, None, &first),
        Some("P\\nodejs\\node.exe".to_string())
    );
    assert_eq!(c.npm, npm_beside("P\\nodejs\\node.exe"));
    assert_eq!(locate_and_remember(Kind::Dsh, &mut c, None, None, Some("X"), &first), None);
    let dsh = places(&[], false, true);
    assert_eq!(locate_and_remember(Kind::Dsh, &mut c, None, None, None, &dsh), None);
    assert_eq!(
        locate_and_remember(Kind::Dsh, &mut c, None, None, Some("X"), &dsh),
        Some("X\\dsh.cmd".to_string())
    );
    assert_eq!((c.dsh.as_deref(), c.npm_prefix.as_deref()), (Some("X\\dsh.cmd"), Some("X")));
    let paths = vec!["a".to_string(), "b".to_string()];
    assert_eq!(first_of(&paths, &vec![false]), None);
}

#[test]
fn missing_programs_are_installed_in_turn() {
    assert!(matches!(install_missing(true, &vec!["node"]), Begin::Suppressed));
    assert!(matches!(install_missing(false, &vec!["profile"]), Begin::Examine));
    let mut q = match install_missing(false, &vec!["node", "dsh"]) {
        Begin::Install(q) => q,
        _ => panic!("there is something to install"),
    };
    let (again, next) = q.installed(true);
    assert_eq!(again, ["node", "npm"]);
    assert!(next == Next::Install(Kind::Dsh));
    let (again, next) = q.installed(false);
    assert_eq!(again, ["dsh"]);
    assert!(next == Next::Stop);
    let (_, next) = q.installed(true);
    assert!(next == Next::Examine);
}
