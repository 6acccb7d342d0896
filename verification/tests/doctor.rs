use dshell::doctor::{
    auto_ids, blocking_ids, checking_step, dsh_missing, dsh_version, hint_dsh, hint_node, ids,
    label_of, launch_step, mk, node_missing, npm_global_query, npm_global_version, npm_shell_query,
    path_query, probe_dsh, probe_dsh_at, probe_node_at, probe_npm, probe_npm_at, probe_profile, probe_webview,
    probe_with_path, profile_home, unknown_step, version_query, webview_keys, webview_query, Step,
    StepState,
};
use dshell::proc::Output;

fn ran(code: i32, stdout: &str, stderr: &str) -> Result<Output, String> {
    Ok(Output {
        code: Some(code),
        stdout: stdout.to_string(),
        stderr: stderr.to_string(),
        timed_out: false,
    })
}

fn says(s: &Step, id: &str, state: StepState, detail: &str) {
    assert_eq!(s.id, id);
    assert_eq!(s.label, label_of(id));
    assert!(s.state == state, "{}", s.detail);
    assert_eq!(s.detail, detail);
}

#[test]
fn five_things_are_examined() {
    assert_eq!(ids(), ["webview", "node", "npm", "dsh", "profile"]);
    assert_eq!(label_of("launch"), "启动 DeepSeek Harness");
    assert_eq!(label_of("x"), "检查项");
    says(&checking_step("node"), "node", StepState::Checking, "检测中…");
    says(&unknown_step("x"), "x", StepState::Warn, "未知检查项");
    says(&launch_step(StepState::Warn, "d".to_string()), "launch", StepState::Warn, "d");
}

#[test]
fn webview_is_asked_for_in_the_registry() {
    let keys = webview_keys();
    let l = webview_query(keys[0]);
    assert_eq!(l.program, "reg");
    assert_eq!(l.args, ["query", keys[0], "/v", "pv"]);
    let none = Some(ran(1, "", "ERROR").unwrap());
    let found = Some(ran(0, "\r\nHKEY\r\n    pv    REG_SZ    128.0.2739.42\r\n", "").unwrap());
    says(&probe_webview(&vec![None, none, found]), "webview", StepState::Good, "128.0.2739.42");
    let old = Some(ran(0, "pv REG_SZ 92.0.902.55", "").unwrap());
    says(&probe_webview(&vec![old]), "webview", StepState::Good, "92.0.902.55（偏低，建议更新）");
    let s = probe_webview(&vec![]);
    says(&s, "webview", StepState::Warn, "正在运行，但读不到版本号");
    assert!(!s.hint.expect("a hint").auto);
}

#[test]
fn node_has_to_run_and_be_recent() {
    assert_eq!(version_query("C:\\node.exe").args, ["--version"]);
    let s = probe_node_at(Some(("N", &ran(0, "v22.3.0\n", ""))));
    says(&s, "node", StepState::Good, "v22.3.0 · N");
    assert_eq!(s.source, Some("N".to_string()));
    says(&probe_node_at(Some(("N", &ran(0, "v16.20.2", "")))), "node", StepState::Warn, "v16.20.2 过低（需要 ≥ 18.0） · N");
    says(&probe_node_at(Some(("N", &ran(0, "hello", "")))), "node", StepState::Warn, "已安装，版本未知 · N");
    let s = probe_node_at(Some(("N", &ran(1, "", "boom"))));
    says(&s, "node", StepState::Failed, "无法执行：N · boom");
    assert!(s.hint.expect("a hint").auto);
    says(&probe_node_at(Some(("N", &Err("denied".to_string())))), "node", StepState::Failed, "无法执行：N · denied");
    let s = probe_node_at(None);
    assert_eq!((s.label.as_str(), &s.source), ("Node.js 运行时", &None));
    let hint = s.hint.expect("a hint");
    assert_eq!(hint.command, "winget install --id OpenJS.NodeJS.LTS --exact");
    assert!(hint.url == "https://nodejs.org/en/download" && hint.auto);
    says(&node_missing(), "node", StepState::Missing, "未检测到 node。dsh 需要 Node.js 才能运行。");
}

#[test]
fn npm_may_be_found_by_name() {
    assert_eq!(npm_shell_query().args, ["/c", "npm", "--version"]);
    says(&probe_npm(&ran(0, " 10.8.1\n", "")), "npm", StepState::Good, "10.8.1 · 由 PATH 解析（路径未知）");
    says(&probe_npm(&ran(1, "", "nope")), "npm", StepState::Missing, "未检测到 npm。nope");
    says(&probe_npm(&Err("e".to_string())), "npm", StepState::Missing, "未检测到 npm。e");
    says(&probe_npm_at("P", &ran(0, "10.8.1", "")), "npm", StepState::Good, "10.8.1 · P");
    says(&probe_npm_at("P", &ran(0, "?", "")), "npm", StepState::Good, "已安装 · P");
    says(&probe_npm_at("P", &ran(3, "x", "")), "npm", StepState::Failed, "这个文件跑不出 npm 版本：P · x");
    says(&probe_npm_at("P", &Err("e".to_string())), "npm", StepState::Failed, "无法执行：P · e");
}

#[test]
fn dsh_counts_even_without_a_version() {
    assert_eq!(dsh_version(&ran(1, "", "dsh 0.1.6-alpha.2")), Some("0.1.6-alpha.2".to_string()));
    assert_eq!(dsh_version(&Err("e".to_string())), None);
    says(&probe_dsh_at("D", Some("0.1.6")), "dsh", StepState::Good, "0.1.6 · D");
    says(&probe_dsh_at("D", None), "dsh", StepState::Good, "已安装（版本未知） · D");
    let silent = Err("e".to_string());
    says(&probe_dsh(Some(("D", &silent)), None), "dsh", StepState::Good, "已安装（版本未知） · D");
    says(&probe_dsh(Some(("D", &silent)), Some("1.0.0")), "dsh", StepState::Good, "1.0.0 · D");
    says(&probe_dsh(None, Some("1.0.0")), "dsh", StepState::Missing, "未检测到 dsh 命令。这是 DShell 要托管的后端。");
    says(&dsh_missing(), "dsh", StepState::Missing, "未检测到 dsh 命令。这是 DShell 要托管的后端。");
    assert_eq!(npm_global_query("p").args, ["/c", "npm", "ls", "-g", "p", "--depth=0", "--json"]);
    let ls = ran(0, r#"{"dependencies":{"p":{"version":"1.2.3"}}}"#, "");
    assert_eq!(npm_global_version(&ls, "p"), Some("1.2.3".to_string()));
    assert_eq!(npm_global_version(&ls, "q"), None);
    assert_eq!(npm_global_version(&ran(0, "not json", ""), "p"), None);
}

#[test]
fn profile_never_blocks() {
    let home = profile_home(Some("C:\\u"));
    assert!(home.starts_with("C:\\u\\.dsh"));
    says(&probe_profile("H", &Ok(()), &Ok(())), "profile", StepState::Good, "可写 · H");
    let s = probe_profile("H", &Err("e".to_string()), &Ok(()));
    says(&s, "profile", StepState::Warn, "无法创建 H ：e");
    let w = probe_profile("H", &Ok(()), &Err("e".to_string()));
    assert!(w.state == StepState::Warn);
    let missing = mk("profile", StepState::Missing, String::new(), None, None);
    assert!(blocking_ids(&vec![s, w, missing]).is_empty());
}

#[test]
fn what_does_not_run_is_not_accepted() {
    let denied = Err("denied".to_string());
    let s = probe_with_path("dsh", "D", &denied, None).expect("known");
    says(&s, "dsh", StepState::Failed, "无法执行：D · denied");
    assert_eq!(s.source, Some("D".to_string()));
    let s = probe_with_path("dsh", "D", &denied, Some("1.0.0")).expect("known");
    assert!(s.state == StepState::Failed);
    let hung = |out: &str| {
        Ok(Output { code: None, stdout: out.to_string(), stderr: String::new(), timed_out: true })
    };
    let s = probe_with_path("dsh", "notepad.exe", &hung(""), None).expect("known");
    says(&s, "dsh", StepState::Failed, "这个文件跑不出 dsh 版本：notepad.exe · 命令超时无响应。");
    let s = probe_with_path("dsh", "D", &hung("dsh 0.1.6"), None).expect("known");
    says(&s, "dsh", StepState::Good, "0.1.6 · D");
    let s = probe_with_path("dsh", "D", &ran(1, " ", "\n"), Some("1.0.0")).expect("known");
    says(&s, "dsh", StepState::Failed, "这个文件跑不出 dsh 版本：D · 没有任何输出。");
    let s = probe_with_path("dsh", "D", &ran(0, "", ""), None).expect("known");
    says(&s, "dsh", StepState::Good, "已安装（版本未知） · D");
    let s = probe_with_path("dsh", "D", &ran(1, "", "unknown option"), None).expect("known");
    says(&s, "dsh", StepState::Good, "已安装（版本未知） · D");
    assert!(probe_with_path("node", "N", &denied, None).expect("known").state == StepState::Failed);
    assert!(probe_with_path("npm", "N", &denied, None).expect("known").state == StepState::Failed);
}

#[test]
fn named_paths_are_examined() {
    let s = probe_with_path("dsh", "D", &ran(0, "", ""), Some("1.0.0")).expect("known");
    says(&s, "dsh", StepState::Good, "1.0.0 · D");
    let s = probe_with_path("dsh", "D", &ran(0, "2.0.0", ""), Some("1.0.0")).expect("known");
    says(&s, "dsh", StepState::Good, "2.0.0 · D");
    assert_eq!(
        probe_with_path("webview", "D", &ran(0, "", ""), None).err(),
        Some("webview 不支持指定路径".to_string())
    );
    assert_eq!(path_query("dsh", "D.exe").expect("known").args, ["--version"]);
    assert_eq!(path_query("webview", "C:/x.exe").err(), Some("webview 不支持指定路径".to_string()));
    assert!(probe_with_path("node", "N", &ran(0, "v20.0.0", ""), None).is_ok());
    assert!(probe_with_path("npm", "N", &ran(0, "9.0.0", ""), None).is_ok());
}

#[test]
fn npm_comes_with_node() {
    assert_eq!(hint_node().command, "winget install --id OpenJS.NodeJS.LTS --exact");
    assert_eq!(hint_dsh().command, "npm i -g @deepseek-ai/dsh");
    let npm = probe_npm(&Err("e".to_string()));
    assert_eq!(auto_ids(&vec![npm]), ["node"]);
    assert_eq!(auto_ids(&vec![dsh_missing(), node_missing()]), ["node", "dsh"]);
    assert!(auto_ids(&vec![]).is_empty());
}
