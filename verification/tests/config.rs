use dshell::config::{dedup_paths, dir_list, dir_of, join, path_with, Config};

#[test]
fn places_are_joined() {
    assert_eq!(join("C:\\u", "x"), "C:\\u\\x");
    assert_eq!(join("C:\\u\\", "x"), "C:\\u\\x");
    assert_eq!(join("C:", "x"), "C:x");
    assert_eq!(join("1:", "x"), "1:\\x");
    assert_eq!(join("", "x"), "x");
    assert_eq!(Config::dir(Some("C:\\u")), "C:\\u\\.dshell");
    assert_eq!(Config::dir(None), ".\\.dshell");
    assert_eq!(Config::path(Some("C:\\u")), "C:\\u\\.dshell\\config.json");
}

#[test]
fn named_paths_are_remembered() {
    let mut c = Config::default();
    c.set("node", "n");
    c.set("npm", "m");
    c.set("dsh", "d");
    c.set("other", "o");
    assert_eq!((c.node.as_deref(), c.npm.as_deref(), c.dsh.as_deref()), (Some("n"), Some("m"), Some("d")));
    assert_eq!(c.configured("npm"), Some("m".to_string()));
    assert_eq!(c.configured("other"), None);
    assert_eq!(c.get("node", true), Some("n".to_string()));
    assert_eq!(c.get("node", false), None);
}

#[test]
fn directories_of_named_programs_come_first() {
    let mut c = Config::default();
    c.set("node", "/b/node");
    c.set("dsh", "/a/dsh");
    c.set("npm", "/b/npm");
    c.npm_prefix = Some("/c".to_string());
    assert_eq!(dir_of(&c.node), Some("/b".to_string()));
    assert_eq!(dir_of(&Some("bin/node".to_string())), Some("bin".to_string()));
    assert_eq!(dir_of(&Some("node".to_string())), Some(String::new()));
    assert_eq!(dir_of(&None), None);
    assert_eq!(dir_of(&Some("/".to_string())), None);
    assert_eq!(c.prelude_dirs(None), ["/a", "/b", "/c"]);
    c.npm_prefix = Some("/a b".to_string());
    assert_eq!(c.prelude_dirs(None), ["/a", "/a b", "/b"]);
    c.npm_prefix = Some("/b/./".to_string());
    assert_eq!(c.prelude_dirs(None).len(), 2);
    c.npm_prefix = Some("/.b".to_string());
    assert_eq!(c.prelude_dirs(None), ["/.b", "/a", "/b"]);
    assert_eq!(dir_of(&Some("bin/node_/".to_string())), Some("bin".to_string()));
    c.npm_prefix = Some("/b/".to_string());
    assert_eq!(c.prelude_dirs(None).len(), 2);
    c.npm_prefix = Some("/c".to_string());
    let with_global = c.prelude_dirs(Some("/z"));
    assert_eq!(with_global.len(), 4);
    assert!(with_global.contains(&Config::npm_global_dir(Some("/z")).expect("known")));
    assert_eq!(
        c.child_path_env(None, Some("/usr/bin")),
        "/a;/b;/c;/usr/bin"
    );
    assert_eq!(Config::default().child_path_env(None, None), "");
    assert_eq!(path_with(&vec!["/a".to_string()], None), "/a;");
    assert_eq!(
        dedup_paths(vec!["/a".to_string(), "/a/".to_string(), "/b".to_string(), "/a".to_string()]),
        ["/a", "/b"]
    );
    assert_eq!(
        dir_list(&Some("x".to_string()), &None, &None, &Some("y".to_string()), &None),
        ["x", "y"]
    );
}
