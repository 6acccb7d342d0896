use dshell::proc::Output;
use dshell::config::Config;
use dshell::update::{
    cache_path, catalog, fetch_registry, fetch_times, installed_query, installed_version, kept,
    midpoint, midpoint_query, npm, parse_installed, parse_tags, parse_times, parse_versions,
    prefix_of, prefix_query, refresh_registry, registry_at_hand, registry_query, remember_times,
    resolve_before, same_dir, sort_desc, source_check, source_of, tags_query, take_times, times_query,
    version_times, versions_query, RegistryCache, Source, MIDPOINT_JS, TTL_MS,
};

fn strings(v: &[&str]) -> Vec<String> {
    v.iter().map(|s| s.to_string()).collect()
}

fn cache(versions: usize, times_seen: usize, times: usize) -> RegistryCache {
    RegistryCache {
        versions: (0..versions).map(|i| format!("0.1.{i}")).collect(),
        times: (0..times)
            .map(|i| (format!("0.1.{i}"), "2026-09-15T03:23:13.750Z".to_string()))
            .collect(),
        times_seen,
        ..Default::default()
    }
}

fn at<'a, T>(t: &'a [(String, T)], key: &str) -> Option<&'a T> {
    t.iter().find(|p| p.0 == key).map(|p| &p.1)
}

#[test]
fn times_are_fresh_only_for_the_same_version_snapshot() {
    assert!(cache(5, 5, 5).times_fresh(), "版本数对得上 ⇒ 同一份快照");
    assert!(!cache(6, 5, 5).times_fresh(), "又发布了新版 ⇒ 落后，要重抓");
    assert!(!cache(0, 0, 0).times_fresh(), "什么都没有 ⇒ 不算新鲜");
    assert!(cache(5, 5, 4).times_fresh(), "个别版本没时刻不该导致永久重抓");
}

#[test]
fn parse_times_keeps_only_version_keys_with_real_timestamps() {
    let raw = r#"{"created":"2026-08-13T12:35:18.048Z",
                  "modified":"2026-09-22T06:32:09.244Z",
                  "0.1.5-rc.2":"2026-09-10T14:57:10.790Z",
                  "0.1.7-alpha.1":"2026-09-22T06:23:31.522Z",
                  "0.1.9":"not-a-time"}"#;
    let t = parse_times(raw).expect("能解析");
    assert_eq!(t.len(), 2, "created/modified/坏时间戳都要被滤掉");
    assert_eq!(at(&t, "0.1.5-rc.2").map(String::as_str), Some("2026-09-10T14:57:10.790Z"));
    assert!(at(&t, "0.1.7-alpha.1").is_some());
}

#[test]
fn npm_is_asked() {
    let p = Some("P".to_string());
    for l in [
        versions_query(p.clone()),
        tags_query(p.clone()),
        times_query(p.clone()),
        registry_query(p.clone()),
        installed_query(p.clone()),
        prefix_query(),
    ] {
        assert_eq!(l.program, "cmd");
        assert_eq!(l.args[..2], ["/c", "npm"]);
    }
    assert!(versions_query(p.clone()).args.contains(&"versions".to_string()));
    assert!(tags_query(p.clone()).args.contains(&"dist-tags".to_string()));
    assert!(times_query(p.clone()).args.contains(&"time".to_string()));
    assert_eq!(versions_query(p.clone()).path_env, p);
}

fn out(code: i32, stdout: &str, stderr: &str) -> Output {
    Output { code: Some(code), stdout: stdout.to_string(), stderr: stderr.to_string(), timed_out: false }
}

#[test]
fn npm_answers_or_says_why() {
    assert_eq!(npm("view", Ok(out(0, "x", ""))), Ok("x".to_string()));
    assert_eq!(npm("view", Ok(out(1, "", "E404"))), Err("npm view 失败：E404".to_string()));
    assert_eq!(npm("view", Err("gone".to_string())), Err("无法执行 npm：gone".to_string()));
}

#[test]
fn lists_of_versions_are_read() {
    assert_eq!(parse_versions(r#"["0.1.0",3,"0.1.1"]"#), Some(strings(&["0.1.0", "0.1.1"])));
    assert_eq!(parse_versions(r#""0.1.0""#), None);
    assert_eq!(parse_versions("?"), None);
    assert_eq!(
        parse_installed(r#"{"dependencies":{"@deepseek-ai/dsh":{"version":"0.1.6"}}}"#, "@deepseek-ai/dsh"),
        Some("0.1.6".to_string())
    );
    assert_eq!(parse_installed("{}", "x"), None);
    assert_eq!(
        installed_version(Ok(r#"{"dependencies":{"@deepseek-ai/dsh":{"version":"0.1.6"}}}"#.to_string())),
        Some("0.1.6".to_string())
    );
    assert_eq!(installed_version(Err("e".to_string())), None);
}

#[test]
fn tags_are_turned_round_and_sorted() {
    let t = parse_tags(r#"{"latest":"1.0.0","beta":"1.0.0","alpha":"2.0.0-a","odd":7}"#).expect("an object");
    assert_eq!(at(&t, "1.0.0"), Some(&strings(&["beta", "latest"])));
    assert_eq!(at(&t, "2.0.0-a"), Some(&strings(&["alpha"])));
    assert!(parse_tags("[]").is_none());
}

#[test]
fn registry_needs_only_its_versions() {
    let c = fetch_registry(
        Ok(r#"["1.0.0","1.1.0"]"#.to_string()),
        Err("e".to_string()),
        Ok(" https://registry.npmjs.org/\n".to_string()),
        Some(cache(2, 2, 2)),
        9,
    )
    .ok()
    .expect("versions");
    assert_eq!(c.versions, strings(&["1.0.0", "1.1.0"]));
    assert_eq!(c.registry, "https://registry.npmjs.org/");
    assert!(c.tags.is_empty());
    assert_eq!((c.fetched_at_ms, c.times.len(), c.times_seen), (9, 2, 2));
    let e = |s: &str| refresh_registry(Ok(s.to_string()), Err("x".to_string()), Err("x".to_string()), None, 0).err();
    assert_eq!(e("{}"), Some("无法解析 registry 返回的版本列表".to_string()));
    assert_eq!(e("[]"), Some("registry 没有返回 @deepseek-ai/dsh 的任何版本".to_string()));
    assert_eq!(
        refresh_registry(Err("off".to_string()), Err("x".to_string()), Err("x".to_string()), None, 0).err(),
        Some("off".to_string())
    );
}

#[test]
fn kept_registry_is_used_even_if_stale() {
    assert!(kept(Some(cache(0, 0, 0))).is_none());
    let fresh = RegistryCache { fetched_at_ms: 10, ..cache(1, 1, 1) };
    assert_eq!(fresh.age_ms(25), 15);
    assert_eq!(fresh.age_ms(5), 0);
    assert!(matches!(registry_at_hand(false, Some(fresh), 11), Source::Kept { stale: false, .. }));
    let old = RegistryCache { fetched_at_ms: 10, ..cache(1, 1, 1) };
    assert!(matches!(registry_at_hand(false, Some(old), 10 + TTL_MS), Source::Kept { stale: true, .. }));
    assert!(matches!(registry_at_hand(true, Some(cache(1, 1, 1)), 0), Source::Ask));
    assert!(matches!(registry_at_hand(false, None, 0), Source::Ask));
}

#[test]
fn times_are_fetched_once() {
    let t = vec![("0.1.0".to_string(), "2026-01-01T00:00:00Z".to_string())];
    let c = take_times(cache(3, 0, 0), Some(t.clone()));
    assert_eq!(c.times_seen, 3);
    assert!(c.times_fresh());
    let same = take_times(cache(3, 0, 0), None);
    assert_eq!(same.times_seen, 0);
    assert!(version_times(Some(cache(3, 2, 2))).is_none());
    assert_eq!(version_times(Some(cache(3, 3, 2))).map(|t| t.len()), Some(2));
    assert_eq!(remember_times(Some(cache(4, 0, 0)), t).times_seen, 4);
    assert!(fetch_times(Err("e".to_string())).is_err());
    assert!(fetch_times(Ok("[]".to_string())).is_err());
    assert_eq!(fetch_times(Ok(r#"{"1.0.0":"2026-01-01T00:00:00Z"}"#.to_string())).map(|t| t.len()), Ok(1));
}

#[test]
fn newest_versions_come_first() {
    assert_eq!(
        sort_desc(strings(&["0.1.5", "junk", "0.1.6-alpha.10", "0.1.6-alpha.2", "0.1.6", "0.1.10"])),
        strings(&["0.1.10", "0.1.6", "0.1.6-alpha.10", "0.1.6-alpha.2", "0.1.5", "junk"])
    );
}

#[test]
fn directories_are_compared_loosely() {
    assert!(same_dir("C:/Users/A/npm/", "c:\\users\\a\\NPM"));
    assert!(!same_dir("C:\\a", "C:\\b"));
}

#[test]
fn source_of_the_installation_is_checked() {
    assert_eq!(source_of(Some("D\\dsh.cmd"), Some("D"), Some("1"), Some("d\\")), (true, None));
    assert_eq!(source_of(None, None, Some("1"), Some("d")), (true, None));
    let (ok, why) = source_of(Some("E\\dsh.cmd"), Some("E"), Some("1"), Some("D"));
    assert!(!ok);
    assert_eq!(
        why,
        Some("配置里的 dsh（E\\dsh.cmd）不在 npm 全局目录（D）下，更新它只会装出第二份".to_string())
    );
    assert!(source_of(None, None, None, Some("D")).1.expect("why").starts_with("npm 全局里没有 @deepseek-ai/dsh"));
    assert!(source_of(None, None, Some("1"), None).1.expect("why").starts_with("问不出 npm 全局目录"));
    assert_eq!(prefix_of(Ok(" C:\\npm \n".to_string())), Some("C:\\npm".to_string()));
    assert_eq!(prefix_of(Err("e".to_string())), None);
    let mut cfg = Config::default();
    assert_eq!(source_check(&cfg, Some("1"), Some("d")), (true, None));
    cfg.dsh = Some("d/dsh.cmd".to_string());
    assert_eq!(source_check(&cfg, Some("1"), Some("D")), (true, None));
    cfg.dsh = Some("e/dsh.cmd".to_string());
    assert_eq!(
        source_check(&cfg, Some("1"), Some("D")).1,
        Some("配置里的 dsh（e/dsh.cmd）不在 npm 全局目录（D）下，更新它只会装出第二份".to_string())
    );
}

#[test]
fn ledger_is_drawn_up() {
    let reg = RegistryCache {
        fetched_at_ms: 1_000,
        registry: "R".to_string(),
        versions: strings(&["0.1.5", "0.1.6-alpha.2", "0.1.6-alpha.1"]),
        tags: vec![("0.1.6-alpha.2".to_string(), strings(&["alpha"]))],
        times: vec![("0.1.5".to_string(), "2026-09-10T14:57:10.790Z".to_string())],
        times_seen: 3,
    };
    let c = catalog(&reg, true, Some("0.1.6-alpha.1".to_string()), Some("D".to_string()), &Config::default(), 6_500);
    assert_eq!(c.latest, Some("0.1.6-alpha.2".to_string()));
    assert_eq!(c.registry, "R");
    assert_eq!(c.registry_age_secs, Some(5));
    assert!(c.registry_stale && c.npm_global);
    let rows: Vec<(&str, bool, bool)> =
        c.versions.iter().map(|v| (v.version.as_str(), v.current, v.older)).collect();
    assert_eq!(
        rows,
        [("0.1.6-alpha.2", false, false), ("0.1.6-alpha.1", true, false), ("0.1.5", false, true)]
    );
    assert_eq!(c.versions[0].tags, strings(&["alpha"]));
    assert_eq!(c.versions[2].published, Some("2026-09-10T14:57:10.790Z".to_string()));
    assert_eq!(c.versions[1].published, None);
    let c = catalog(&reg, false, None, Some("D".to_string()), &Config::default(), 6_500);
    assert!(!c.npm_global && c.source_note.expect("why").starts_with("npm 全局里没有"));
}

fn times() -> Vec<(String, String)> {
    [
        ("0.1.5", "2026-09-10T14:57:10.790Z"),
        ("0.1.6-alpha.2", "2026-09-17T13:52:10.201Z"),
        ("0.1.6-alpha.1", "2026-09-15T03:23:13.750Z"),
    ]
    .iter()
    .map(|p| (p.0.to_string(), p.1.to_string()))
    .collect()
}

#[test]
fn windows_lie_between_releases() {
    assert_eq!(
        resolve_before("0.1.6-alpha.1", &times()),
        Some(("2026-09-15T03:23:13.750Z".to_string(), "2026-09-17T13:52:10.201Z".to_string()))
    );
    assert_eq!(resolve_before("0.1.6-alpha.2", &times()), None);
    assert_eq!(resolve_before("9.9.9", &times()), None);
}

#[test]
fn middle_is_computed_by_node() {
    let l = midpoint_query(None, "a", "b");
    assert_eq!(l.program, "node");
    assert_eq!(l.args, ["-e", MIDPOINT_JS, "a", "b"]);
    assert_eq!(
        midpoint(Ok(out(0, "2026-09-16T08:37:41.975Z\n", ""))),
        Ok("2026-09-16T08:37:41.975Z".to_string())
    );
    assert_eq!(midpoint(Ok(out(0, "nonsense", ""))), Err("node 没有给出可用的时间：nonsense".to_string()));
    assert_eq!(midpoint(Ok(out(2, "", "bad"))), Err("bad".to_string()));
    assert_eq!(midpoint(Err("e".to_string())), Err("无法执行 node：e".to_string()));
}

#[test]
fn registry_is_kept_beside_the_configuration() {
    assert_eq!(cache_path(Some("C:\\u")), "C:\\u\\.dshell\\dsh-versions.json");
}
