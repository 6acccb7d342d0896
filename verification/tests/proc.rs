use dshell::proc::{
    capture_step, captured, find_semver, kill_tree, parse_version, pump, pump_end, run_capture,
    run_capture_env, run_path, run_shell, run_shell_env, user_path, validate_user_path, ver_ge,
    where_candidates, where_query, which, Cancel, CaptureStep, Output, LINE_CHARS,
};

fn output(code: Option<i32>, stdout: &str, stderr: &str, timed_out: bool) -> Output {
    Output { code, stdout: stdout.to_string(), stderr: stderr.to_string(), timed_out }
}

#[test]
fn only_a_zero_exit_is_success() {
    assert!(output(Some(0), "", "", false).ok());
    assert!(!output(Some(1), "", "", false).ok());
    assert!(!output(None, "", "", false).ok());
    assert!(!output(Some(0), "", "", true).ok());
}

#[test]
fn diagnosis_prefers_the_error_channel() {
    assert_eq!(output(Some(1), "out", " err \n", false).diagnose(), "err");
    assert_eq!(output(Some(1), " out ", "  ", false).diagnose(), "out");
    assert_eq!(output(None, "", "slow", true).diagnose(), "命令超时无响应。slow");
}

#[test]
fn long_diagnosis_is_cut() {
    let o = output(Some(1), "", &"x".repeat(601), false);
    assert!(o.diagnosable());
    assert_eq!(o.diagnose(), format!("{}…", "x".repeat(600)));
    let exact = output(Some(1), "", &"x".repeat(600), false);
    assert_eq!(exact.diagnose(), "x".repeat(600));
}

#[test]
fn diagnosis_that_would_cut_a_character_is_reported() {
    let cut = format!("{}中", "x".repeat(599));
    assert!(!output(Some(1), "", &cut, false).diagnosable());
    let whole = format!("{}中文", "x".repeat(597));
    let o = output(Some(1), "", &whole, false);
    assert!(o.diagnosable());
    assert_eq!(o.diagnose(), format!("{}中…", "x".repeat(597)));
}

#[test]
fn user_paths_lose_their_quotes() {
    assert_eq!(user_path("  \"C:\\node.exe\"  "), "C:\\node.exe");
    assert_eq!(
        validate_user_path(" \"C:\\node.exe\" ", true),
        Ok("C:\\node.exe".to_string())
    );
}

#[test]
fn bad_user_paths_are_refused() {
    assert!(validate_user_path("  ", true).is_err());
    assert!(validate_user_path("\"\"", true).is_err());
    assert!(validate_user_path("C:\\gone.exe", false).is_err());
    for c in ['&', '|', '<', '>', '^', '%', '!'] {
        let e = validate_user_path(&format!("C:\\a{c}b.exe"), true).expect_err("special");
        assert!(e.contains(&format!("`{c}`")), "{e}");
    }
}

#[test]
fn batch_files_go_through_cmd() {
    let l = run_path("C:\\npm.CMD", &["-v"], 5);
    assert_eq!(l.program, "cmd");
    assert_eq!(l.args, ["/c", "C:\\npm.CMD", "-v"]);
    assert_eq!(l.timeout_ms, 5);
    let l = run_capture("node", &["-v"], 7);
    assert_eq!(l.program, "node");
    assert_eq!(l.args, ["-v"]);
    let l = run_capture_env("a.bat", &[], 1, Some("P".to_string()));
    assert_eq!(l.args, ["/c", "a.bat"]);
    assert_eq!(l.path_env, Some("P".to_string()));
}

#[test]
fn shell_commands_go_through_cmd() {
    let l = run_shell(&["npm", "-v"], 9);
    assert_eq!(l.program, "cmd");
    assert_eq!(l.args, ["/c", "npm", "-v"]);
    assert_eq!(l.path_env, None);
    let l = run_shell_env(&["npm"], 9, Some("X".to_string()));
    assert_eq!(l.path_env, Some("X".to_string()));
}

#[test]
fn process_trees_are_ended() {
    let l = kill_tree(42).expect("a process");
    assert_eq!(l.program, "taskkill");
    assert_eq!(l.args, ["/PID", "42", "/T", "/F"]);
    assert!(kill_tree(0).is_none());
}

#[test]
fn captures_end_or_time_out() {
    assert!(capture_step(Some(Some(3)), 0, 10) == CaptureStep::Ended(Some(3)));
    assert!(capture_step(None, 9, 10) == CaptureStep::Wait);
    assert!(capture_step(None, 10, 10) == CaptureStep::TimedOut);
    let o = captured(CaptureStep::Ended(Some(0)), "体验".as_bytes(), b"\xff");
    assert_eq!(o.code, Some(0));
    assert_eq!(o.stdout, "体验");
    assert_eq!(o.stderr, "\u{fffd}");
    assert!(!o.timed_out);
    let o = captured(CaptureStep::TimedOut, b"", b"");
    assert!(o.timed_out && o.code.is_none());
}

fn texts(lines: &[dshell::proc::Line]) -> Vec<String> {
    lines.iter().map(|l| l.text.clone()).collect()
}

#[test]
fn lines_end_at_returns_and_newlines() {
    let mut acc = Vec::new();
    let lines = pump(&mut acc, b"one\r\ntwo\rthr", true);
    assert_eq!(texts(&lines), ["one", "two"]);
    assert!(lines.iter().all(|l| l.is_err));
    assert_eq!(acc, b"thr");
    let last = pump_end(&acc, false).expect("an unfinished line");
    assert_eq!(last.text, "thr");
    assert!(!last.is_err);
    assert!(pump_end(&Vec::new(), false).is_none());
}

#[test]
fn chunks_do_not_matter() {
    let all = "下载 10%\r下载 20%\n完成\n".as_bytes();
    let mut acc = Vec::new();
    let whole = texts(&pump(&mut acc, all, false));
    for cut in 0..all.len() {
        let mut acc = Vec::new();
        let mut lines = texts(&pump(&mut acc, &all[..cut], false));
        lines.extend(texts(&pump(&mut acc, &all[cut..], false)));
        assert_eq!(lines, whole);
    }
    assert_eq!(whole, ["下载 10%", "下载 20%", "完成"]);
}

#[test]
fn long_lines_are_cut_and_blank_ones_dropped() {
    let mut acc = Vec::new();
    let long = "长".repeat(LINE_CHARS + 1);
    let lines = pump(&mut acc, format!("{long}\n   \n").as_bytes(), false);
    assert_eq!(texts(&lines), [format!("{}…", "长".repeat(LINE_CHARS))]);
}

#[test]
fn cancelling_can_be_taken_back() {
    let mut c = Cancel::new();
    assert!(!c.requested());
    c.request();
    assert!(c.requested());
    c.reset();
    assert!(!c.requested());
    assert!(!Cancel::default().requested());
}

#[test]
fn programs_are_ranked() {
    let l = where_query("dsh");
    assert_eq!(l.args.last().map(String::as_str), Some("dsh"));
    let out = output(Some(0), "C:\\n\\dsh\r\nC:\\n\\dsh.cmd\r\n\r\nC:\\n\\dsh.ps1\r\n", "", false);
    let paths = where_candidates(&out);
    assert_eq!(paths, ["C:\\n\\dsh", "C:\\n\\dsh.cmd", "C:\\n\\dsh.ps1"]);
    assert_eq!(which(&paths, &vec![true, true, true]), Some("C:\\n\\dsh.cmd".to_string()));
    assert_eq!(which(&paths, &vec![true, false, true]), Some("C:\\n\\dsh.ps1".to_string()));
    assert_eq!(which(&paths, &vec![false, false, false]), None);
    let odd: Vec<String> =
        ["C:.exe", "a.exe\\..", "b.exe\\.\\"].iter().map(|p| p.to_string()).collect();
    assert_eq!(which(&odd, &vec![true, true, true]), Some("b.exe\\.\\".to_string()));
    assert_eq!(which(&odd, &vec![true, true, false]), Some("C:.exe".to_string()));
}

#[test]
fn versions_are_found_in_text() {
    assert_eq!(find_semver("dsh v0.1.6-alpha.2 (node)"), Some("0.1.6-alpha.2".to_string()));
    assert_eq!(find_semver("no version"), None);
    assert_eq!(find_semver("v1.2 x-3.4.5. y6.7.8-rc+1"), Some("6.7.8-rc+1".to_string()));
    assert_eq!(parse_version("v22.3.1"), Some((22, 3, 1)));
    assert_eq!(parse_version("nothing"), None);
}

#[test]
fn versions_compare_part_by_part() {
    assert!(ver_ge((18, 0, 0), (18, 0, 0)));
    assert!(ver_ge((18, 1, 0), (18, 0, 9)));
    assert!(!ver_ge((17, 99, 99), (18, 0, 0)));
}
