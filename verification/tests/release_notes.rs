use dshell::release_notes::{
    build, cache_path, extract_cn, fetch_query, fetched, normalize_markup, notes, notes_fetched,
    parse_releases, releases_from, Lookup, NotesCache, RawNote, FETCH_JS, RELEASES_API, TTL_MS,
};
use dshell::proc::Output;

const H3_CN_EN: &str = "[中文](#cn-v0.1.5-rc.2) | [English](#en-v0.1.5-rc.2)\r\n\r\n<h3 id=\"cn-v0.1.5-rc.2\">体验优化</h3>\r\n\r\n- 优化反馈提交体验。@yixiangihsiang\r\n- 优化交付文件卡片。@yixiangihsiang\r\n\r\n---\r\n\r\n<h3 id=\"en-v0.1.5-rc.2\">Improvements</h3>\r\n\r\n- Improve feedback submission. by @yixiangihsiang\r\n\r\nFull Changelog: https://github.com/x/y/compare/a...b";
const H2_CHINESE: &str = "[中文](#chinese) | [English](#english)\r\n\r\n<h2 id=\"chinese\">0.1.3-alpha.2 · 中文</h2>\r\n\r\n<h3>新增功能</h3>\r\n\r\n- 升级 pi-ai 到 0.85.1。 — @tianyicui\r\n\r\n<h2 id=\"english\">0.1.3-alpha.2 · English</h2>\r\n\r\n<h3>New Features</h3>\r\n\r\n- Upgrade pi-ai to 0.85.1. by @tianyicui";
const H3_CN_SHORT: &str = "[中文](#cn) | [English](#en)\r\n\r\n<h3 id=\"cn\">新增功能</h3>\r\n\r\n* 各插件可自行注册设置卡片\r\n\r\n---\r\n\r\n<h3 id=\"en\">New Features</h3>\r\n\r\n* Enable plugins to register their own settings cards by @LegGasai\r\n\r\n---\r\n\r\nFull Changelog: https://github.com/x/y/compare/abc...def";

fn raw(url: &str, body: &str) -> RawNote {
    RawNote { url: url.to_string(), body: body.to_string() }
}

fn find<'a>(m: &'a [(String, RawNote)], version: &str) -> Option<&'a RawNote> {
    m.iter().find(|p| p.0 == version).map(|p| &p.1)
}

#[test]
fn extracts_chinese_across_all_three_layouts() {
    for (name, body) in [
        ("h3 cn-vX", H3_CN_EN),
        ("h2 chinese", H2_CHINESE),
        ("h3 cn", H3_CN_SHORT),
    ] {
        let out = extract_cn(body);
        assert!(
            out.contains("优化反馈提交体验") || out.contains("升级 pi-ai") || out.contains("各插件可自行注册"),
            "{name}: 中文正文没切出来，得到：{out:?}"
        );
        for bad in ["Improvements", "New Features", "Bug Fixes", "by @", "Full Changelog"] {
            assert!(!out.contains(bad), "{name}: 英文段漏进来了（{bad}）：{out:?}");
        }
        assert!(!out.contains("id="), "{name}: 锚点标签没切干净：{out:?}");
        assert!(!out.starts_with("---"), "{name}: 开头留着分隔线：{out:?}");
    }
}

#[test]
fn falls_back_to_whole_body_when_no_chinese_anchor() {
    let body = "[中文](#cn) | [English](#en)\n\n恢复数据丢失的会话\n\nFull Changelog: https://x/y";
    let out = extract_cn(body);
    assert!(out.contains("恢复数据丢失的会话"), "回退路径不能给空窗口：{out:?}");
    assert!(!out.contains("Full Changelog"), "回退也要切掉末尾链接：{out:?}");
}

#[test]
fn truncates_at_full_changelog_inside_the_chinese_section() {
    let body = "[中文](#cn-v1) | [English](#en-v1)\r\n\r\n<h3 id=\"cn-v1\">新增功能</h3>\r\n\r\n- 中文条目一\r\n\r\nFull Changelog: https://github.com/x/y/compare/a...b\r\n\r\n---\r\n\r\nThis release candidate summarizes the changes since `v0.1.2`.\r\n\r\n<h3 id=\"en-v1\">New Features</h3>\r\n\r\n- English entry by @someone";
    let out = extract_cn(body);
    assert!(out.contains("中文条目一"), "{out:?}");
    assert!(!out.contains("Full Changelog"), "段内的 Full Changelog 要切掉：{out:?}");
    assert!(!out.contains("release candidate"), "英文散文漏进来了：{out:?}");
    assert!(
        !out.contains("New Features") && !out.contains("English entry"),
        "英文段漏进来了：{out:?}"
    );
}

#[test]
fn handles_empty_bodies() {
    assert_eq!(extract_cn(""), "");
    assert_eq!(extract_cn("[中文](#cn) | [English](#en)"), "");
}

#[test]
fn parses_only_dsh_version_tags_and_skips_drafts() {
    let raw = r#"[
      {"tag_name":"dsh-v0.1.7-alpha.1","body":"甲","html_url":"https://x/1"},
      {"tag_name":"dsh-v0.1.7-alpha.2","body":"乙","html_url":"https://x/2","draft":true},
      {"tag_name":"desktop-v2.0.0","body":"丙","html_url":"https://x/3"},
      {"tag_name":"dsh-v0.1.6-alpha.2","html_url":"https://x/4"}
    ]"#;
    let m = parse_releases(raw).expect("能解析");
    assert_eq!(m.len(), 2, "只留 dsh-v* 且非草稿");
    assert!(find(&m, "0.1.7-alpha.1").is_some());
    assert!(find(&m, "0.1.7-alpha.2").is_none(), "草稿不该出现");
    assert!(find(&m, "desktop-v2.0.0").is_none() && find(&m, "2.0.0").is_none());
    assert_eq!(
        find(&m, "0.1.6-alpha.2").expect("在").body,
        "",
        "缺 body 要落到空串而不是崩"
    );
}

#[test]
fn note_reports_whether_it_came_from_cache() {
    let raw = raw("https://x", H3_CN_EN);
    assert!(build("0.1.5-rc.2", &raw, true).cached);
    assert!(!build("0.1.5-rc.2", &raw, false).cached);
    assert_eq!(build("0.1.5-rc.2", &raw, true).url, "https://x");
}

#[test]
fn markup_is_flattened_to_a_tiny_markdown_subset() {
    let out = normalize_markup("<h3>新增功能</h3>\n- 支持 <b>粗体</b> 与 <code>代码</code>\n<a href=\"x\">链接</a>");
    assert!(out.contains("### 新增功能"), "{out:?}");
    assert!(out.contains("支持 粗体 与 代码"), "{out:?}");
    assert!(out.contains("链接"), "{out:?}");
    assert!(!out.contains('<') && !out.contains('>'), "不许给面板留标签：{out:?}");
}

#[test]
fn section_is_exactly_the_chinese_one() {
    assert_eq!(
        extract_cn(H3_CN_EN),
        "### 体验优化\n\n- 优化反馈提交体验。@yixiangihsiang\n- 优化交付文件卡片。@yixiangihsiang"
    );
}

#[test]
fn decoration_at_the_end_is_dropped() {
    assert_eq!(extract_cn("a\n---\n\n  ***\n___ \n"), "a");
    assert_eq!(extract_cn("---\n***"), "");
    assert_eq!(extract_cn("  a\n---\nb  "), "a\n---\nb");
}

#[test]
fn line_breaks_and_blank_lines() {
    assert_eq!(normalize_markup("a<br>b\n\n\n\nc  "), "a\nb\n\nc");
    assert_eq!(normalize_markup("x<H2>y</H2>"), "x\n\n### y");
}

#[test]
fn unfinished_tags_leave_no_bracket() {
    assert_eq!(normalize_markup("1 < 2"), "1  2");
    assert_eq!(normalize_markup("a > b"), "a  b");
}

#[test]
fn releases_that_are_no_list_are_refused() {
    assert!(parse_releases("{}").is_none());
    assert!(parse_releases("not json").is_none());
    assert!(parse_releases("[]").expect("a list").is_empty());
}

#[test]
fn later_entry_of_a_version_wins() {
    let m = parse_releases(
        r#"[{"tag_name":"dsh-v1.0.0","body":"old"},{"tag_name":"dsh-v1.0.0","body":"new"}]"#,
    )
    .expect("a list");
    assert_eq!(m.len(), 1);
    assert_eq!(m[0].1.body, "new");
}

fn cache(fetched_at_ms: u64) -> NotesCache {
    NotesCache {
        fetched_at_ms,
        notes: vec![("0.1.5-rc.2".to_string(), raw("https://x", H3_CN_EN))],
        absent: vec!["0.0.1-rc.1".to_string()],
    }
}

#[test]
fn fresh_cache_answers_without_the_network() {
    let c = cache(1_000);
    match notes("0.1.5-rc.2", Some(&c), 2_000) {
        Lookup::Found(n) => {
            assert!(n.cached);
            assert_eq!(n.version, "0.1.5-rc.2");
            assert_eq!(n.url, "https://x");
            assert!(n.body.starts_with("### 体验优化"));
        }
        _ => panic!("the cache holds it"),
    }
    assert!(matches!(notes("0.0.1-rc.1", Some(&c), 2_000), Lookup::Missing));
}

#[test]
fn versions_not_asked_for_are_fetched() {
    let c = cache(1_000);
    assert!(matches!(notes("9.9.9", Some(&c), 2_000), Lookup::Fetch));
    assert!(matches!(notes("0.1.5-rc.2", Some(&c), 1_000 + TTL_MS), Lookup::Fetch));
    assert!(matches!(notes("0.1.5-rc.2", None, 2_000), Lookup::Fetch));
    let empty = NotesCache { fetched_at_ms: 1_000, notes: vec![], absent: vec!["1.0.0".to_string()] };
    assert!(matches!(notes("1.0.0", Some(&empty), 1_500), Lookup::Fetch));
}

#[test]
fn absent_versions_are_asked_for_once() {
    let fresh = vec![("1.0.0".to_string(), raw("u", "b"))];
    let (kept, note) = notes_fetched("2.0.0", fresh, Some(cache(5)), 77);
    assert!(note.is_none());
    assert_eq!(kept.fetched_at_ms, 77);
    assert_eq!(kept.absent, ["0.0.1-rc.1".to_string(), "2.0.0".to_string()]);
    assert!(matches!(notes("2.0.0", Some(&kept), 78), Lookup::Missing));
    let fresh = vec![("1.0.0".to_string(), raw("u", "b"))];
    let (kept, note) = notes_fetched("1.0.0", fresh, None, 80);
    let note = note.expect("it has a release");
    assert!(!note.cached);
    assert_eq!(note.body, "b");
    assert!(kept.absent.is_empty());
}

fn ran(code: i32, stdout: &str, stderr: &str) -> Output {
    Output {
        code: Some(code),
        stdout: stdout.to_string(),
        stderr: stderr.to_string(),
        timed_out: false,
    }
}

#[test]
fn releases_are_fetched_by_node() {
    let l = fetch_query(None);
    assert_eq!(l.program, "node");
    assert_eq!(l.args, ["-e", FETCH_JS, RELEASES_API]);
    let l = fetch_query(Some("C:\\node.exe"));
    assert_eq!(l.program, "C:\\node.exe");
}

#[test]
fn failed_fetches_say_why() {
    assert_eq!(
        fetched(Err("no such file".to_string())).err(),
        Some("无法执行 node 去拉取发布说明：no such file".to_string())
    );
    assert_eq!(
        fetched(Ok(ran(1, "", "HTTP 403"))).err(),
        Some("拉取发布说明失败：HTTP 403".to_string())
    );
    assert_eq!(fetched(Ok(ran(0, "[]", ""))).ok(), Some("[]".to_string()));
}

#[test]
fn unreadable_releases_are_an_error() {
    assert_eq!(
        releases_from(parse_releases("nonsense")).err(),
        Some("无法解析 GitHub Releases 的返回".to_string())
    );
    assert_eq!(
        releases_from(parse_releases("[]")).err(),
        Some("GitHub Releases 里没有任何 dsh-* 的发布记录".to_string())
    );
    assert_eq!(
        releases_from(parse_releases(r#"[{"tag_name":"dsh-v1.0.0"}]"#)).ok().map(|m| m.len()),
        Some(1)
    );
}

#[test]
fn releases_are_kept_beside_the_configuration() {
    assert_eq!(cache_path(Some("C:\\u")), "C:\\u\\.dshell\\dsh-releases.json");
}
