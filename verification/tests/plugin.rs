use dshell::json::Json;
use dshell::plugin::{
    bundled_plugin_dirs, copy_dir, dsh_home, ensure_installed, ensure_listed, install_target,
    list_plugin, looks_complete, manifest_path, manifest_text, modules_dir, profile_dir,
    removal_failed, uninstall, without_plugin, CopyEntry, Move, Phase, Seen, Status, PLUGIN_NAME,
};

fn names(v: &Json) -> Vec<String> {
    match v.get("dsh").and_then(|d| d.get("profile")).and_then(|p| p.get("bundles")) {
        Some(Json::Arr(b)) => b
            .iter()
            .map(|x| match x {
                Json::Str(s) => s.clone(),
                _ => String::new(),
            })
            .collect(),
        _ => panic!("no bundles"),
    }
}

fn dependency(v: &Json) -> Option<String> {
    match v.get("dependencies").and_then(|d| d.get(PLUGIN_NAME)) {
        Some(Json::Str(s)) => Some(s.clone()),
        _ => None,
    }
}

fn listing(raw: &str) -> Result<Option<Json>, String> {
    ensure_listed(Ok(raw.to_string()), "T")
}

#[test]
fn places_lie_in_the_profile() {
    assert_eq!(dsh_home(Some(" H "), Some("U")), "H");
    assert_eq!(dsh_home(Some("  "), Some("U")), "U\\.dsh");
    assert_eq!(dsh_home(None, None), ".\\.dsh");
    assert_eq!(profile_dir("H"), "H\\profiles\\web");
    assert_eq!(manifest_path("H"), "H\\profiles\\web\\package.json");
    assert_eq!(modules_dir("H"), "H\\profiles\\web\\node_modules");
    assert_eq!(install_target("H"), "H\\profiles\\web\\node_modules\\dshell-directory-picker");
    let dirs = bundled_plugin_dirs(Some("E"), Some("S"));
    assert_eq!(dirs.len(), 3);
    assert_eq!(dirs[2], "S\\plugin\\dshell-directory-picker");
    assert!(bundled_plugin_dirs(None, None).is_empty());
}

#[test]
fn links_are_not_followed() {
    assert!(looks_complete(true, true) && !looks_complete(true, false) && !looks_complete(false, true));
    assert!(copy_dir(true, true, true) == CopyEntry::Skip);
    assert!(copy_dir(false, true, false) == CopyEntry::Descend);
    assert!(copy_dir(false, false, true) == CopyEntry::Copy);
    assert!(copy_dir(false, false, false) == CopyEntry::Skip);
}

#[test]
fn plugin_is_listed_once() {
    let raw = r#"{"name":"p","dsh":{"profile":{"bundles":["a"]}},"dependencies":{"x":"1"}}"#;
    let v = listing(raw).expect("a manifest").expect("changed");
    assert_eq!(names(&v), ["a", PLUGIN_NAME]);
    assert_eq!(dependency(&v), Some("file:T".to_string()));
    let (again, changed) = list_plugin(v, "T").expect("a manifest");
    assert!(!changed);
    assert_eq!(names(&again), ["a", PLUGIN_NAME]);
}

#[test]
fn dependencies_are_made_where_there_are_none() {
    let v = listing(r#"{"dsh":{"profile":{"bundles":[]}}}"#).expect("a manifest").expect("changed");
    assert_eq!(names(&v), [PLUGIN_NAME]);
    assert_eq!(dependency(&v), Some("file:T".to_string()));
}

#[test]
fn nested_values_are_kept() {
    let raw = r#"{"dsh":{"profile":{"bundles":[]}},"x":{"y":[[0.1,-7,1.5e300],{"z":null,"w":true}]}}"#;
    let v = listing(raw).expect("a manifest").expect("changed");
    let Some(Json::Arr(y)) = v.get("x").and_then(|x| x.get("y")) else {
        panic!("no list");
    };
    let Json::Arr(numbers) = &y[0] else {
        panic!("no numbers");
    };
    let texts: Vec<String> = numbers
        .iter()
        .map(|n| match n {
            Json::Num(n) => n.to_string(),
            _ => String::new(),
        })
        .collect();
    let plain: serde_json::Value = serde_json::from_str("1.5e300").expect("a number");
    assert_eq!(texts, ["0.1".to_string(), "-7".to_string(), plain.to_string()]);
    assert!(matches!(y[1].get("z"), Some(Json::Null)));
    assert!(matches!(y[1].get("w"), Some(Json::Bool(true))));
}

#[test]
fn manifests_are_written_to_be_read() {
    let v = listing(r#"{"dsh":{"profile":{"bundles":[]}},"x":0.1}"#).expect("a manifest").expect("changed");
    let text = manifest_text(&v).expect("a text");
    assert!(text.starts_with("{\n  \"") && text.ends_with("}\n"));
    let again: serde_json::Value = serde_json::from_str(&text).expect("a document");
    assert_eq!(again["dsh"]["profile"]["bundles"][0], PLUGIN_NAME);
    assert_eq!(again["dependencies"][PLUGIN_NAME], "file:T");
    assert_eq!(again["x"].to_string(), "0.1");
    assert!(matches!(ensure_listed(Ok(text), "T"), Ok(None)));
    assert_eq!(manifest_text(&Json::Arr(vec![Json::Null, Json::Bool(true)])).expect("a text"), "[\n  null,\n  true\n]\n");
}

#[test]
fn other_documents_are_left_alone() {
    assert!(listing("{").err().expect("no JSON").starts_with("清单不是合法 JSON："));
    assert_eq!(
        listing("{}").err(),
        Some("这不是一个 dsh profile 清单（缺 dsh.profile）".to_string())
    );
    assert_eq!(
        listing(r#"{"dsh":{"profile":null}}"#).err(),
        Some("这不是一个 dsh profile 清单（缺 dsh.profile）".to_string())
    );
    assert_eq!(
        listing(r#"{"dsh":{"profile":{"bundles":{}}}}"#).err(),
        Some("清单里 dsh.profile.bundles 不是数组".to_string())
    );
    assert_eq!(ensure_listed(Err("e".to_string()), "T").err(), Some("e".to_string()));
}

#[test]
fn uninstalling_undoes_the_listing() {
    let raw = r#"{"dsh":{"profile":{"bundles":["a"]}},"dependencies":{"x":"1"}}"#;
    let v = listing(raw).expect("a manifest").expect("changed");
    let text = manifest_text(&v).expect("a text");
    let w = uninstall(Some(&text)).expect("changed");
    assert_eq!(names(&w), ["a"]);
    assert_eq!(dependency(&w), None);
    assert!(matches!(w.get("dependencies").and_then(|d| d.get("x")), Some(Json::Str(s)) if s == "1"));
    assert!(uninstall(Some(&manifest_text(&w).expect("a text"))).is_none());
    assert!(without_plugin(w).is_none());
    assert!(uninstall(None).is_none());
    assert!(uninstall(Some("{")).is_none());
    assert_eq!(removal_failed("T", "E"), "删不掉 T：E（DShell 可能正占用，先完全退出）");
}

fn survey(complete: bool, manifest: bool, source: bool, exists: bool) -> Seen {
    Seen::Survey { complete, manifest, source, exists }
}

fn step(phase: Phase, seen: Seen) -> Move {
    ensure_installed(phase, seen, "H")
}

const TARGET: &str = "H\\profiles\\web\\node_modules\\dshell-directory-picker";

fn degraded(m: Move) -> String {
    match m {
        Move::Stop(Status::Degraded { detail }) | Move::Undo(Status::Degraded { detail }) => detail,
        _ => panic!("something went wrong"),
    }
}

#[test]
fn complete_installations_are_kept() {
    assert!(matches!(step(Phase::Look, survey(true, false, false, true)), Move::Go(Phase::Confirm)));
    assert!(matches!(
        step(Phase::Confirm, Seen::Done),
        Move::Stop(Status::Present { detail }) if detail == format!("已就绪 · {TARGET}")
    ));
}

#[test]
fn installation_goes_step_by_step() {
    assert!(matches!(step(Phase::Look, survey(false, true, true, true)), Move::Go(Phase::Clear)));
    assert!(matches!(step(Phase::Look, survey(false, true, true, false)), Move::Go(Phase::Parent)));
    assert!(matches!(step(Phase::Clear, Seen::Done), Move::Go(Phase::Parent)));
    assert!(matches!(step(Phase::Parent, Seen::Done), Move::Go(Phase::Copy)));
    assert!(matches!(step(Phase::Copy, Seen::Done), Move::Go(Phase::List)));
    assert!(matches!(
        step(Phase::List, Seen::Done),
        Move::Stop(Status::Installed { detail }) if detail == format!("已自动安装 · {TARGET}")
    ));
}

#[test]
fn failures_do_not_stand_in_the_way() {
    let e = || Seen::Failed("E".to_string());
    assert!(degraded(step(Phase::Look, survey(false, false, true, false))).contains("profile 还没创建"));
    assert!(degraded(step(Phase::Look, survey(false, true, false, false))).contains("找不到随程序发布的插件目录"));
    assert!(degraded(step(Phase::Confirm, e())).starts_with(&format!("插件已在 {TARGET}，但无法确认它被 profile 启用：E")));
    assert!(degraded(step(Phase::Clear, e())).starts_with(&format!("{TARGET} 已存在但不完整，且删不掉：E")));
    assert_eq!(degraded(step(Phase::Parent, e())), "无法创建 H\\profiles\\web\\node_modules：E");
    assert!(matches!(step(Phase::Copy, e()), Move::Undo(_)));
    assert!(matches!(step(Phase::List, e()), Move::Undo(_)));
    assert_eq!(degraded(step(Phase::Copy, e())), format!("复制插件到 {TARGET} 失败：E"));
}
