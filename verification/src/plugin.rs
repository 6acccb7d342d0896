//! The directory picker plugin that goes into dsh's profile.
//!
//! Three things hold throughout: an installation that is there is not overwritten, a failure
//! never keeps the shell from starting, and a half-made installation is taken back.

use vstd::prelude::*;

use crate::config;
use crate::json;
use crate::json::{Json, Tree};
use crate::text;

verus! {

/// The plugin's name: that of its directory and of its entry in the profile.
pub const PLUGIN_NAME: &'static str = "dshell-directory-picker";

/// The profile that it goes into.
pub const PROFILE: &'static str = "web";

/// Where the plugin lies beside the program.
pub const BUNDLED_DIR: &'static str = "plugin/dshell-directory-picker";

/// How an installation ended.
pub enum Status {
    /// It was there already.
    Present { detail: String },
    /// It was installed just now.
    Installed { detail: String },
    /// It could not be installed, which is no reason not to start.
    Degraded { detail: String },
}

// ───────────────────────── places ─────────────────────────

/// dsh's home: what `DSH_HOME` says, unless it is blank, or else `.dsh` in the user's home.
pub open spec fn home_of(dsh_home: Option<Seq<char>>, user: Option<Seq<char>>) -> Seq<char> {
    let plain = match user {
        Some(u) => config::within(u, ".dsh"@),
        None => config::within("."@, ".dsh"@),
    };
    match dsh_home {
        Some(h) => if text::trimmed(h).len() > 0 {
            text::trimmed(h)
        } else {
            plain
        },
        None => plain,
    }
}

/// The directory of the profile.
pub open spec fn profile_in(home: Seq<char>) -> Seq<char> {
    config::within(config::within(home, "profiles"@), PROFILE@)
}

/// The directory that the plugin is installed in.
pub open spec fn modules_in(home: Seq<char>) -> Seq<char> {
    config::within(profile_in(home), "node_modules"@)
}

/// Where the plugin is installed.
pub open spec fn target_in(home: Seq<char>) -> Seq<char> {
    config::within(modules_in(home), PLUGIN_NAME@)
}

pub fn dsh_home(variable: Option<&str>, user: Option<&str>) -> (r: String)
    ensures
        r@ == home_of(text::option_str(variable), text::option_str(user)),
{
    match variable {
        Some(h) => {
            let t = text::trim_text(h);
            if !t.as_str().is_empty() {
                return t;
            }
        },
        None => {},
    }
    match user {
        Some(u) => config::join(u, ".dsh"),
        None => config::join(".", ".dsh"),
    }
}

pub fn profile_dir(home: &str) -> (r: String)
    ensures
        r@ == profile_in(home@),
{
    let profiles = config::join(home, "profiles");
    config::join(profiles.as_str(), PROFILE)
}

/// The profile's manifest.
pub fn manifest_path(home: &str) -> (r: String)
    ensures
        r@ == config::within(profile_in(home@), "package.json"@),
{
    let profile = profile_dir(home);
    config::join(profile.as_str(), "package.json")
}

/// The directory that the plugin is installed in.
pub fn modules_dir(home: &str) -> (r: String)
    ensures
        r@ == modules_in(home@),
{
    let profile = profile_dir(home);
    config::join(profile.as_str(), "node_modules")
}

pub fn install_target(home: &str) -> (r: String)
    ensures
        r@ == target_in(home@),
{
    let modules = modules_dir(home);
    config::join(modules.as_str(), PLUGIN_NAME)
}

/// Where the plugin may lie, in the order in which these places are tried: beside the
/// program, in its resources, or in the sources that it was built from.
pub fn bundled_plugin_dirs(exe_dir: Option<&str>, source_root: Option<&str>) -> (r: Vec<String>)
    ensures
        text::texts(r@) == (match exe_dir {
            Some(d) => seq![
                config::within(d@, BUNDLED_DIR@),
                config::within(config::within(d@, "resources"@), BUNDLED_DIR@),
            ],
            None => seq![],
        }) + (match source_root {
            Some(d) => seq![config::within(config::within(d@, "plugin"@), PLUGIN_NAME@)],
            None => seq![],
        }),
{
    let mut v: Vec<String> = Vec::new();
    match exe_dir {
        Some(d) => {
            v.push(config::join(d, BUNDLED_DIR));
            let resources = config::join(d, "resources");
            v.push(config::join(resources.as_str(), BUNDLED_DIR));
        },
        None => {},
    }
    match source_root {
        Some(d) => {
            let plugin = config::join(d, "plugin");
            v.push(config::join(plugin.as_str(), PLUGIN_NAME));
        },
        None => {},
    }
    assert(text::texts(v@) =~= (match exe_dir {
        Some(d) => seq![
            config::within(d@, BUNDLED_DIR@),
            config::within(config::within(d@, "resources"@), BUNDLED_DIR@),
        ],
        None => seq![],
    }) + (match source_root {
        Some(d) => seq![config::within(config::within(d@, "plugin"@), PLUGIN_NAME@)],
        None => seq![],
    }));
    v
}

/// A plugin directory is complete when its manifest and its entry file are both there: a
/// half-copied one would be found and then fail to load.
pub fn looks_complete(has_manifest: bool, has_entry: bool) -> (r: bool)
    ensures
        r == (has_manifest && has_entry),
{
    has_manifest && has_entry
}

/// What to do with an entry of the plugin's directory.
#[derive(Clone, Copy, PartialEq, Eq, Structural)]
pub enum CopyEntry {
    Skip,
    Descend,
    Copy,
}

/// Decides what to do with an entry of the plugin's directory. A link is never followed: the
/// plugin needs none, and it could lead anywhere.
pub fn copy_dir(is_link: bool, is_dir: bool, is_file: bool) -> (r: CopyEntry)
    ensures
        r == (if is_link {
            CopyEntry::Skip
        } else if is_dir {
            CopyEntry::Descend
        } else if is_file {
            CopyEntry::Copy
        } else {
            CopyEntry::Skip
        }),
{
    if is_link {
        CopyEntry::Skip
    } else if is_dir {
        CopyEntry::Descend
    } else if is_file {
        CopyEntry::Copy
    } else {
        CopyEntry::Skip
    }
}

// ───────────────────────── the manifest ─────────────────────────

/// What a manifest says of its profile.
pub open spec fn profile_of(v: Tree) -> Option<Tree> {
    json::get_in(json::get(v, "dsh"@), "profile"@)
}

/// The profile's bundles, in the order in which they are applied.
pub open spec fn bundles_of(v: Tree) -> Option<Seq<Tree>> {
    match json::get_in(profile_of(v), "bundles"@) {
        Some(Tree::Arr(b)) => Some(b),
        _ => None,
    }
}

/// A document that describes a profile.
pub open spec fn is_profile(v: Tree) -> bool {
    profile_of(v) matches Some(p) && !(p is Null)
}

/// The entry of the plugin.
pub open spec fn entry() -> Tree {
    Tree::Str(PLUGIN_NAME@)
}

/// The plugin is among the bundles.
pub open spec fn listed(v: Tree) -> bool {
    bundles_of(v) matches Some(b) && b.contains(entry())
}

/// The plugin is among the dependencies.
pub open spec fn depended(v: Tree) -> bool {
    json::get_in(json::get(v, "dependencies"@), PLUGIN_NAME@) is Some
}

/// A manifest with other bundles.
pub open spec fn with_bundles(v: Tree, b: Seq<Tree>) -> Tree {
    let dsh = json::get(v, "dsh"@)->0;
    let profile = profile_of(v)->0;
    json::set(
        v,
        "dsh"@,
        json::set(dsh, "profile"@, json::set(profile, "bundles"@, Tree::Arr(b))),
    )
}

/// A manifest with the plugin behind its bundles.
pub open spec fn with_entry(v: Tree) -> Tree {
    if listed(v) {
        v
    } else {
        with_bundles(v, bundles_of(v)->0.push(entry()))
    }
}

/// What the plugin's dependency says: the place where it is installed.
pub open spec fn dependency(target: Seq<char>) -> Tree {
    Tree::Str("file:"@ + target)
}

/// A manifest with the plugin among its dependencies. Dependencies that are no object are
/// left as they are.
pub open spec fn with_dependency(v: Tree, target: Seq<char>) -> Tree {
    match json::get(v, "dependencies"@) {
        None => json::set(
            v,
            "dependencies"@,
            Tree::Obj(seq![(PLUGIN_NAME@, dependency(target))]),
        ),
        Some(deps) => if deps is Obj && !depended(v) {
            json::set(v, "dependencies"@, json::set(deps, PLUGIN_NAME@, dependency(target)))
        } else {
            v
        },
    }
}

/// A manifest in which the plugin is listed.
pub open spec fn enlisted(v: Tree, target: Seq<char>) -> Tree {
    with_dependency(with_entry(v), target)
}

/// The manifest has to be written anew.
pub open spec fn needs_listing(v: Tree) -> bool {
    !listed(v) || json::get(v, "dependencies"@) is None || (json::get(v, "dependencies"@)->0 is Obj
        && !depended(v))
}

fn has_entry(b: &Vec<Json>) -> (r: bool)
    ensures
        r == json::items(b@).contains(entry()),
{
    let mut i: usize = 0;
    while i < b.len()
        invariant
            i <= b.len(),
            forall|k: int| 0 <= k < i ==> json::items(b@)[k] != entry(),
        decreases b.len() - i,
    {
        assert(json::items(b@)[i as int] == b@[i as int].tree());
        match &b[i] {
            Json::Str(s) => {
                if text::same(s.as_str(), PLUGIN_NAME) {
                    return true;
                }
            },
            _ => {},
        }
        i = i + 1;
    }
    false
}

/// The profile's bundles.
fn bundles(v: &Json) -> (r: Option<&Vec<Json>>)
    ensures
        r matches Some(b) ==> bundles_of(v.tree()) == Some(json::items(b@)),
        r is None <==> bundles_of(v.tree()) is None,
{
    let dsh = match v.get("dsh") {
        Some(d) => d,
        None => {
            return None;
        },
    };
    let profile = match dsh.get("profile") {
        Some(p) => p,
        None => {
            return None;
        },
    };
    match profile.get("bundles") {
        Some(x) => {
            proof {
                json::lemma_tree(*x);
            }
            match x {
                Json::Arr(b) => Some(b),
                _ => None,
            }
        },
        None => None,
    }
}

fn put_bundles(v: Json, b: Vec<Json>) -> (r: Json)
    requires
        bundles_of(v.tree()) is Some,
    ensures
        r.tree() == with_bundles(v.tree(), json::items(b@)),
{
    let list = Json::Arr(b);
    proof {
        json::lemma_tree(list);
    }
    let dsh: Json = match v.get("dsh") {
        Some(d) => d.copy(),
        None => Json::Null,
    };
    let profile: Json = match dsh.get("profile") {
        Some(p) => p.copy(),
        None => Json::Null,
    };
    let profile = profile.with("bundles", list);
    let dsh = dsh.with("profile", profile);
    v.with("dsh", dsh)
}

/// Lists the plugin in a manifest, behind all other bundles and among the dependencies. The
/// second part of the result says whether anything changed.
pub fn list_plugin(v: Json, target: &str) -> (r: Result<(Json, bool), String>)
    ensures
        if !is_profile(v.tree()) {
            r matches Err(e) && e@ == "这不是一个 dsh profile 清单（缺 dsh.profile）"@
        } else if !listed(v.tree()) && bundles_of(v.tree()) is None {
            r matches Err(e) && e@ == "清单里 dsh.profile.bundles 不是数组"@
        } else {
            r matches Ok(done) && done.0.tree() == enlisted(v.tree(), target@) && done.1
                == needs_listing(v.tree())
        },
{
    let ghost start = v.tree();
    let profiled = match v.get("dsh") {
        Some(d) => match d.get("profile") {
            Some(p) => match p {
                Json::Null => false,
                _ => true,
            },
            None => false,
        },
        None => false,
    };
    if !profiled {
        return Err(text::copy("这不是一个 dsh profile 清单（缺 dsh.profile）"));
    }
    let mut changed = false;
    let there = match bundles(&v) {
        Some(b) => has_entry(b),
        None => false,
    };
    let mut v = v;
    if !there {
        let mut list: Vec<Json> = match bundles(&v) {
            Some(b) => copy_items(b),
            None => {
                return Err(text::copy("清单里 dsh.profile.bundles 不是数组"));
            },
        };
        let ghost old_list = list@;
        list.push(Json::Str(text::copy(PLUGIN_NAME)));
        assert(json::items(list@) =~= json::items(old_list).push(entry()));
        v = put_bundles(v, list);
        changed = true;
    }
    assert(v.tree() == with_entry(start));
    proof {
        lemma_bundles_keep_dependencies(start);
    }
    let dependencies: Option<Json> = match v.get("dependencies") {
        Some(d) => Some(d.copy()),
        None => None,
    };
    let place = Json::Str(text::cat2("file:", target));
    match dependencies {
        None => {
            let mut m: Vec<(String, Json)> = Vec::new();
            m.push((text::copy(PLUGIN_NAME), place));
            assert(json::members(m@) =~= seq![(PLUGIN_NAME@, dependency(target@))]);
            let d = Json::Obj(m);
            proof {
                json::lemma_tree(d);
            }
            v = v.with("dependencies", d);
            changed = true;
        },
        Some(d) => {
            let is_object = match &d {
                Json::Obj(_) => true,
                _ => false,
            };
            if is_object && d.get(PLUGIN_NAME).is_none() {
                let d = d.with(PLUGIN_NAME, place);
                v = v.with("dependencies", d);
                changed = true;
            }
        },
    }
    Ok((v, changed))
}

fn copy_items(b: &Vec<Json>) -> (r: Vec<Json>)
    ensures
        json::items(r@) == json::items(b@),
{
    let mut out: Vec<Json> = Vec::new();
    let mut i: usize = 0;
    while i < b.len()
        invariant
            i <= b.len(),
            json::items(out@) == json::items(b@).take(i as int),
        decreases b.len() - i,
    {
        let ghost before = out@;
        out.push(b[i].copy());
        i = i + 1;
        assert(json::items(out@) =~= json::items(before).push(b@[i - 1].tree()));
        assert(json::items(b@).take(i as int) =~= json::items(b@).take(i - 1).push(
            b@[i - 1].tree(),
        ));
    }
    assert(json::items(b@).take(i as int) =~= json::items(b@));
    out
}

proof fn lemma_names_differ()
    ensures
        "dsh"@ != "dependencies"@,
{
    reveal_strlit("dsh");
    reveal_strlit("dependencies");
    assert("dsh"@.len() != "dependencies"@.len());
}

/// Changing the bundles changes the bundles and nothing else.
proof fn lemma_with_bundles(v: Tree, b: Seq<Tree>)
    requires
        bundles_of(v) is Some,
    ensures
        bundles_of(with_bundles(v, b)) == Some(b),
        is_profile(with_bundles(v, b)),
        forall|k: Seq<char>|
            k != "dsh"@ ==> #[trigger] json::get(with_bundles(v, b), k) == json::get(v, k),
{
    let dsh = json::get(v, "dsh"@)->0;
    let profile = profile_of(v)->0;
    let p2 = json::set(profile, "bundles"@, Tree::Arr(b));
    let d2 = json::set(dsh, "profile"@, p2);
    json::lemma_set(profile, "bundles"@, Tree::Arr(b), "bundles"@);
    json::lemma_set(dsh, "profile"@, p2, "profile"@);
    json::lemma_set(v, "dsh"@, d2, "dsh"@);
    assert forall|k: Seq<char>| k != "dsh"@ implies #[trigger] json::get(with_bundles(v, b), k)
        == json::get(v, k) by {
        json::lemma_set(v, "dsh"@, d2, k);
    }
}

proof fn lemma_bundles_keep_dependencies(v: Tree)
    requires
        is_profile(v),
        listed(v) || bundles_of(v) is Some,
    ensures
        json::get(with_entry(v), "dependencies"@) == json::get(v, "dependencies"@),
        depended(with_entry(v)) == depended(v),
{
    lemma_names_differ();
    if !listed(v) {
        lemma_with_bundles(v, bundles_of(v)->0.push(entry()));
    }
}

proof fn lemma_with_bundles_well_named(v: Tree, b: Seq<Tree>)
    requires
        json::well_named(v),
        bundles_of(v) is Some,
        json::well_named(Tree::Arr(b)),
    ensures
        json::well_named(with_bundles(v, b)),
{
    let dsh = json::get(v, "dsh"@)->0;
    let profile = profile_of(v)->0;
    json::lemma_get_well_named(v, "dsh"@);
    json::lemma_get_well_named(dsh, "profile"@);
    let p = json::set(profile, "bundles"@, Tree::Arr(b));
    json::lemma_set_well_named(profile, "bundles"@, Tree::Arr(b));
    json::lemma_set_well_named(dsh, "profile"@, p);
    json::lemma_set_well_named(v, "dsh"@, json::set(dsh, "profile"@, p));
}

proof fn lemma_bundles_well_named(v: Tree)
    requires
        json::well_named(v),
    ensures
        bundles_of(v) matches Some(b) ==> json::well_named(Tree::Arr(b)),
{
    json::lemma_get_well_named(v, "dsh"@);
    if json::get(v, "dsh"@) is Some {
        let dsh = json::get(v, "dsh"@)->0;
        json::lemma_get_well_named(dsh, "profile"@);
        if json::get(dsh, "profile"@) is Some {
            json::lemma_get_well_named(json::get(dsh, "profile"@)->0, "bundles"@);
        }
    }
}

proof fn lemma_enlisted_well_named(v: Tree, target: Seq<char>)
    requires
        json::well_named(v),
        listed(v) || bundles_of(v) is Some,
    ensures
        json::well_named(enlisted(v, target)),
{
    lemma_bundles_well_named(v);
    if !listed(v) {
        let b = bundles_of(v)->0;
        let more = b.push(entry());
        assert forall|i: int| 0 <= i < more.len() implies json::well_named(#[trigger] more[i]) by {
            if i < b.len() {
                json::lemma_item_well_named(Tree::Arr(b), i);
                assert(more[i] == b[i]);
            }
        }
        assert(json::well_named(Tree::Arr(more)));
        lemma_with_bundles_well_named(v, more);
    }
    let w = with_entry(v);
    json::lemma_get_well_named(w, "dependencies"@);
    let own = Tree::Obj(seq![(PLUGIN_NAME@, dependency(target))]);
    assert(json::well_named(own)) by {
        assert(json::well_named(dependency(target)));
        assert(own->Obj_0[0].1 == dependency(target));
    }
    match json::get(w, "dependencies"@) {
        None => {
            json::lemma_set_well_named(w, "dependencies"@, own);
        },
        Some(deps) => {
            json::lemma_set_well_named(deps, PLUGIN_NAME@, dependency(target));
            json::lemma_set_well_named(
                w,
                "dependencies"@,
                json::set(deps, PLUGIN_NAME@, dependency(target)),
            );
        },
    }
}

/// Lists the plugin in the manifest whose text was read, or says why it could not: the
/// manifest to write, or nothing where it is fine as it is.
pub fn ensure_listed(raw: Result<String, String>, target: &str) -> (r: Result<Option<Json>, String>)
    ensures
        r matches Ok(Some(w)) ==> json::well_named(w.tree()),
        match raw {
            Err(e) => r matches Err(f) && f@ == e@,
            Ok(s) => match json::json_read(s@) {
                Err(e) => r matches Err(f) && f@ == "清单不是合法 JSON："@ + e,
                Ok(v) => if !is_profile(v) {
                    r matches Err(e) && e@ == "这不是一个 dsh profile 清单（缺 dsh.profile）"@
                } else if !listed(v) && bundles_of(v) is None {
                    r matches Err(e) && e@ == "清单里 dsh.profile.bundles 不是数组"@
                } else if needs_listing(v) {
                    r matches Ok(Some(w)) && w.tree() == enlisted(v, target@)
                } else {
                    r matches Ok(None)
                },
            },
        },
{
    match raw {
        Err(e) => Err(e),
        Ok(s) => match json::parse_json(s.as_str()) {
            Err(e) => Err(text::cat2("清单不是合法 JSON：", e.as_str())),
            Ok(v) => {
                let ghost before = v.tree();
                match list_plugin(v, target) {
                    Err(e) => Err(e),
                    Ok((w, changed)) => {
                        proof {
                            lemma_enlisted_well_named(before, target@);
                        }
                        if changed {
                            Ok(Some(w))
                        } else {
                            Ok(None)
                        }
                    },
                }
            },
        },
    }
}

// ───────────────────────── what listing keeps ─────────────────────────

proof fn lemma_with_dependency(v: Tree, target: Seq<char>)
    requires
        v is Obj,
    ensures
        forall|k: Seq<char>|
            k != "dependencies"@ ==> #[trigger] json::get(with_dependency(v, target), k)
                == json::get(v, k),
        json::get(with_dependency(v, target), "dependencies"@) is Some,
        json::get(with_dependency(v, target), "dependencies"@)->0 is Obj ==> depended(
            with_dependency(v, target),
        ),
        bundles_of(with_dependency(v, target)) == bundles_of(v),
        profile_of(with_dependency(v, target)) == profile_of(v),
{
    let w = with_dependency(v, target);
    lemma_names_differ();
    match json::get(v, "dependencies"@) {
        None => {
            let d = Tree::Obj(seq![(PLUGIN_NAME@, dependency(target))]);
            json::lemma_set(v, "dependencies"@, d, "dsh"@);
            assert forall|k: Seq<char>| k != "dependencies"@ implies #[trigger] json::get(w, k)
                == json::get(v, k) by {
                json::lemma_set(v, "dependencies"@, d, k);
            }
            assert(json::member_from(d->Obj_0, PLUGIN_NAME@, 0) == Some(0int));
        },
        Some(deps) => {
            if deps is Obj && !depended(v) {
                let d = json::set(deps, PLUGIN_NAME@, dependency(target));
                json::lemma_set(deps, PLUGIN_NAME@, dependency(target), PLUGIN_NAME@);
                json::lemma_set(v, "dependencies"@, d, "dsh"@);
                assert forall|k: Seq<char>| k != "dependencies"@ implies #[trigger] json::get(w, k)
                    == json::get(v, k) by {
                    json::lemma_set(v, "dependencies"@, d, k);
                }
            }
        },
    }
}

/// Listing is done once: a manifest in which the plugin was listed is fine as it is.
pub proof fn law_listing_is_done_once(v: Tree, target: Seq<char>)
    requires
        is_profile(v),
        bundles_of(v) is Some,
    ensures
        is_profile(enlisted(v, target)),
        listed(enlisted(v, target)),
        !needs_listing(enlisted(v, target)),
{
    if !listed(v) {
        let b = bundles_of(v)->0.push(entry());
        lemma_with_bundles(v, b);
        assert(b[b.len() - 1] == entry());
    }
    lemma_with_dependency(with_entry(v), target);
}

/// Listing only appends: the other bundles stay in their order, and no other member of the
/// manifest changes.
pub proof fn law_listing_only_appends(v: Tree, target: Seq<char>, key: Seq<char>)
    requires
        is_profile(v),
        bundles_of(v) is Some,
    ensures
        bundles_of(enlisted(v, target)) == Some(
            if listed(v) {
                bundles_of(v)->0
            } else {
                bundles_of(v)->0.push(entry())
            },
        ),
        key != "dsh"@ && key != "dependencies"@ ==> json::get(enlisted(v, target), key)
            == json::get(v, key),
{
    if !listed(v) {
        lemma_with_bundles(v, bundles_of(v)->0.push(entry()));
    }
    lemma_with_dependency(with_entry(v), target);
}

// ───────────────────────── taking it out again ─────────────────────────

/// Bundles without the plugin.
pub open spec fn others(b: Seq<Tree>) -> Seq<Tree>
    decreases b.len(),
{
    if b.len() == 0 {
        seq![]
    } else if b.last() == entry() {
        others(b.drop_last())
    } else {
        others(b.drop_last()).push(b.last())
    }
}

/// A manifest without the plugin among its bundles.
pub open spec fn without_entry(v: Tree) -> Tree {
    if listed(v) {
        with_bundles(v, others(bundles_of(v)->0))
    } else {
        v
    }
}

/// A manifest without the plugin among its dependencies.
pub open spec fn without_dependency(v: Tree) -> Tree {
    if depended(v) {
        json::set(
            v,
            "dependencies"@,
            json::unset(json::get(v, "dependencies"@)->0, PLUGIN_NAME@),
        )
    } else {
        v
    }
}

fn other_bundles(b: &Vec<Json>) -> (r: Vec<Json>)
    ensures
        json::items(r@) == others(json::items(b@)),
{
    let mut out: Vec<Json> = Vec::new();
    let mut i: usize = 0;
    let ghost all = json::items(b@);
    assert(json::items(out@) =~= seq![]);
    while i < b.len()
        invariant
            i <= b.len(),
            all == json::items(b@),
            json::items(out@) == others(all.take(i as int)),
        decreases b.len() - i,
    {
        assert(all.take(i + 1).drop_last() =~= all.take(i as int));
        assert(all[i as int] == b@[i as int].tree());
        let own = match &b[i] {
            Json::Str(s) => text::same(s.as_str(), PLUGIN_NAME),
            _ => false,
        };
        if !own {
            let ghost before = out@;
            out.push(b[i].copy());
            assert(json::items(out@) =~= json::items(before).push(b@[i as int].tree()));
        }
        i = i + 1;
    }
    assert(all.take(i as int) =~= all);
    out
}

proof fn lemma_others_well_named(b: Seq<Tree>)
    requires
        json::well_named(Tree::Arr(b)),
    ensures
        json::well_named(Tree::Arr(others(b))),
    decreases b.len(),
{
    if b.len() > 0 {
        let less = b.drop_last();
        assert forall|i: int| 0 <= i < less.len() implies json::well_named(#[trigger] less[i]) by {
            json::lemma_item_well_named(Tree::Arr(b), i);
            assert(less[i] == b[i]);
        }
        assert(json::well_named(Tree::Arr(less)));
        lemma_others_well_named(less);
        json::lemma_item_well_named(Tree::Arr(b), b.len() - 1);
        let o = others(less);
        let more = o.push(b.last());
        assert forall|i: int| 0 <= i < more.len() implies json::well_named(#[trigger] more[i]) by {
            if i < o.len() {
                json::lemma_item_well_named(Tree::Arr(o), i);
                assert(more[i] == o[i]);
            }
        }
        assert(json::well_named(Tree::Arr(more)));
    }
}

proof fn lemma_without_well_named(v: Tree)
    requires
        json::well_named(v),
    ensures
        json::well_named(without_dependency(without_entry(v))),
{
    lemma_bundles_well_named(v);
    if listed(v) {
        lemma_others_well_named(bundles_of(v)->0);
        lemma_with_bundles_well_named(v, others(bundles_of(v)->0));
    }
    let w = without_entry(v);
    json::lemma_get_well_named(w, "dependencies"@);
    if depended(w) {
        let deps = json::get(w, "dependencies"@)->0;
        json::lemma_unset_well_named(deps, PLUGIN_NAME@);
        json::lemma_set_well_named(w, "dependencies"@, json::unset(deps, PLUGIN_NAME@));
    }
}

/// The text of a manifest, or why there is none: the document, printed so that it can be read,
/// and a newline.
pub fn manifest_text(v: &Json) -> (r: Result<String, String>)
    ensures
        exists|t: Tree| #[trigger]
            is_manifest_text(t, r) && (json::well_named(v.tree()) ==> json::same_document(
                t,
                v.tree(),
            )),
{
    match json::print_json(v) {
        Ok(s) => {
            let ghost printed = Ok::<String, String>(s);
            let ghost t = choose|t: Tree| #[trigger]
                json::is_printed(t, printed) && (json::well_named(v.tree())
                    ==> json::same_document(t, v.tree()));
            let mut out = s;
            out.push('\n');
            let r: Result<String, String> = Ok(out);
            assert(is_manifest_text(t, r));
            r
        },
        Err(e) => {
            let ghost printed = Err::<String, String>(e);
            let ghost t = choose|t: Tree| #[trigger]
                json::is_printed(t, printed) && (json::well_named(v.tree())
                    ==> json::same_document(t, v.tree()));
            let r: Result<String, String> = Err(e);
            assert(is_manifest_text(t, r));
            r
        },
    }
}

/// What came of writing down the manifest that says `t`.
pub open spec fn is_manifest_text(t: Tree, r: Result<String, String>) -> bool {
    match json::json_pretty(t) {
        Ok(s) => r matches Ok(x) && x@ == s.push('\n'),
        Err(e) => r matches Err(x) && x@ == e,
    }
}

/// Why the plugin's directory could not be taken away.
pub fn removal_failed(target: &str, why: &str) -> (r: String)
    ensures
        r@ == "删不掉 "@ + target@ + "："@ + why@ + "（DShell 可能正占用，先完全退出）"@,
{
    text::cat5("删不掉 ", target, "：", why, "（DShell 可能正占用，先完全退出）")
}

/// Takes the plugin out of the manifest whose text was read: the manifest to write, or nothing
/// where the plugin was not in it or there is no manifest that can be read.
pub fn uninstall(raw: Option<&str>) -> (r: Option<Json>)
    ensures
        r matches Some(w) ==> json::well_named(w.tree()),
        match text::option_str(raw) {
            None => r is None,
            Some(s) => match json::json_read(s) {
                Err(_) => r is None,
                Ok(v) => if listed(v) || depended(v) {
                    r matches Some(w) && w.tree() == without_dependency(without_entry(v))
                } else {
                    r is None
                },
            },
        },
{
    match raw {
        None => None,
        Some(s) => match json::parse_json(s) {
            Ok(v) => {
                proof {
                    lemma_without_well_named(v.tree());
                }
                without_plugin(v)
            },
            Err(_) => None,
        },
    }
}

/// Takes the plugin out of a manifest: the manifest to write, or nothing where it was not
/// there.
pub fn without_plugin(v: Json) -> (r: Option<Json>)
    ensures
        if listed(v.tree()) || depended(v.tree()) {
            r matches Some(w) && w.tree() == without_dependency(without_entry(v.tree()))
        } else {
            r is None
        },
{
    let ghost start = v.tree();
    let mut v = v;
    let mut changed = false;
    let there = match bundles(&v) {
        Some(b) => has_entry(b),
        None => false,
    };
    if there {
        let rest: Vec<Json> = match bundles(&v) {
            Some(b) => other_bundles(b),
            None => Vec::new(),
        };
        proof {
            lemma_names_differ();
            lemma_with_bundles(start, others(bundles_of(start)->0));
        }
        v = put_bundles(v, rest);
        changed = true;
    }
    assert(v.tree() == without_entry(start));
    assert(depended(v.tree()) == depended(start));
    let dependencies: Option<Json> = match v.get("dependencies") {
        Some(d) => if d.get(PLUGIN_NAME).is_some() {
            Some(d.copy())
        } else {
            None
        },
        None => None,
    };
    match dependencies {
        Some(d) => {
            let d = d.without(PLUGIN_NAME);
            v = v.with("dependencies", d);
            changed = true;
        },
        None => {},
    }
    if changed {
        Some(v)
    } else {
        None
    }
}

proof fn lemma_others_unlisted(b: Seq<Tree>)
    requires
        !b.contains(entry()),
    ensures
        others(b) == b,
        others(b.push(entry())) == b,
    decreases b.len(),
{
    assert(b.push(entry()).drop_last() =~= b);
    if b.len() > 0 {
        let less = b.drop_last();
        assert(b.contains(b[b.len() - 1]));
        assert forall|i: int| 0 <= i < less.len() implies less[i] != entry() by {
            assert(less[i] == b[i]);
            assert(b.contains(b[i]));
        }
        lemma_others_unlisted(less);
        assert(less.push(b.last()) =~= b);
    } else {
        assert(others(b) =~= b);
    }
}

/// Taking the plugin out undoes what listing it did: the bundles are those from before, and
/// so are the dependencies, where there were any.
pub proof fn law_uninstall_undoes_listing(v: Tree, target: Seq<char>)
    requires
        is_profile(v),
        bundles_of(v) is Some,
        !listed(v),
        !depended(v),
    ensures
        ({
            let w = without_dependency(without_entry(enlisted(v, target)));
            &&& bundles_of(w) == bundles_of(v)
            &&& !listed(w)
            &&& !depended(w)
            &&& json::get(v, "dependencies"@) is Some ==> json::get(w, "dependencies"@)
                == json::get(v, "dependencies"@)
        }),
{
    law_listing_is_done_once(v, target);
    law_listing_only_appends(v, target, "dsh"@);
    let listed_tree = with_entry(v);
    lemma_bundles_keep_dependencies(v);
    lemma_with_bundles(v, bundles_of(v)->0.push(entry()));
    lemma_with_dependency(listed_tree, target);
    let w = enlisted(v, target);
    let b = bundles_of(v)->0;
    lemma_others_unlisted(b);
    lemma_with_bundles(w, others(bundles_of(w)->0));
    let u = without_entry(w);
    lemma_names_differ();
    match json::get(v, "dependencies"@) {
        None => {
            let d = Tree::Obj(seq![(PLUGIN_NAME@, dependency(target))]);
            json::lemma_set(listed_tree, "dependencies"@, d, "dsh"@);
            assert(json::member_from(d->Obj_0, PLUGIN_NAME@, 0) == Some(0int));
            let e = json::unset(d, PLUGIN_NAME@);
            json::lemma_set(u, "dependencies"@, e, "dsh"@);
            assert(e->Obj_0 =~= seq![]);
        },
        Some(deps) => {
            if deps is Obj {
                let m = deps->Obj_0;
                let d = json::set(deps, PLUGIN_NAME@, dependency(target));
                json::lemma_set(listed_tree, "dependencies"@, d, "dsh"@);
                json::lemma_set(deps, PLUGIN_NAME@, dependency(target), PLUGIN_NAME@);
                json::lemma_member_from(m, PLUGIN_NAME@, 0);
                json::lemma_member_from(d->Obj_0, PLUGIN_NAME@, 0);
                let e = json::unset(d, PLUGIN_NAME@);
                match json::member(d->Obj_0, PLUGIN_NAME@) {
                    Some(i) => {
                        if i < m.len() {
                            assert(d->Obj_0[i] == m[i]);
                        }
                        assert(d->Obj_0.remove(i) =~= m);
                    },
                    None => {},
                }
                json::lemma_set(u, "dependencies"@, e, "dsh"@);
            }
        },
    }
}

// ───────────────────────── installing ─────────────────────────

/// What an installation is about to do.
#[derive(Clone, Copy, PartialEq, Eq, Structural)]
pub enum Phase {
    /// Look what is there.
    Look,
    /// Confirm that what is there is listed.
    Confirm,
    /// Remove what an interrupted installation left.
    Clear,
    /// Create the directory that the plugin goes into.
    Parent,
    /// Copy the plugin.
    Copy,
    /// List what was copied.
    List,
}

/// What came of a phase.
pub enum Seen {
    /// What is there: a complete installation, the profile's manifest, the plugin beside the
    /// program, and anything at the place of the installation.
    Survey { complete: bool, manifest: bool, source: bool, exists: bool },
    Done,
    Failed(String),
}

/// What follows.
pub enum Move {
    Go(Phase),
    Stop(Status),
    /// Remove what was copied, and stop.
    Undo(Status),
}

/// The words of a status.
pub open spec fn detail(s: Status) -> Seq<char> {
    match s {
        Status::Present { detail } => detail@,
        Status::Installed { detail } => detail@,
        Status::Degraded { detail } => detail@,
    }
}

/// What follows a phase of an installation for the backend with this home.
pub open spec fn follows(phase: Phase, seen: Seen, home: Seq<char>, m: Move) -> bool {
    let target = target_in(home);
    match (phase, seen) {
        (Phase::Look, Seen::Survey { complete, manifest, source, exists }) => if complete {
            m == Move::Go(Phase::Confirm)
        } else if !manifest {
            m matches Move::Stop(s) && s is Degraded && detail(s) == "dsh 的 "@ + PROFILE@
                + " profile 还没创建（首次启动 dsh 后会生成）。本次先跳过；下次启动 DShell 会自动装上。"@
        } else if !source {
            m matches Move::Stop(s) && s is Degraded && detail(s)
                == "找不到随程序发布的插件目录（打包时漏了 resource？）。本次跳过。"@
        } else if exists {
            m == Move::Go(Phase::Clear)
        } else {
            m == Move::Go(Phase::Parent)
        },
        (Phase::Confirm, Seen::Done) => m matches Move::Stop(s) && s is Present && detail(s)
            == "已就绪 · "@ + target,
        (Phase::Confirm, Seen::Failed(e)) => m matches Move::Stop(s) && s is Degraded && detail(s)
            == "插件已在 "@ + target + "，但无法确认它被 profile 启用："@ + e@
            + "。功能可能不生效（表现为选完目录要补点一下）。"@,
        (Phase::Clear, Seen::Done) => m == Move::Go(Phase::Parent),
        (Phase::Clear, Seen::Failed(e)) => m matches Move::Stop(s) && s is Degraded && detail(s)
            == target + " 已存在但不完整，且删不掉："@ + e@ + "。请完全退出 DShell 后重试。"@,
        (Phase::Parent, Seen::Done) => m == Move::Go(Phase::Copy),
        (Phase::Parent, Seen::Failed(e)) => m matches Move::Stop(s) && s is Degraded && detail(s)
            == "无法创建 "@ + modules_in(home) + "："@ + e@,
        (Phase::Copy, Seen::Done) => m == Move::Go(Phase::List),
        (Phase::Copy, Seen::Failed(e)) => m matches Move::Undo(s) && s is Degraded && detail(s)
            == "复制插件到 "@ + target + " 失败："@ + e@,
        (Phase::List, Seen::Done) => m matches Move::Stop(s) && s is Installed && detail(s)
            == "已自动安装 · "@ + target,
        (Phase::List, Seen::Failed(e)) => m matches Move::Undo(s) && s is Degraded && detail(s)
            == "插件目录已复制，但写入 profile 清单失败："@ + e@
            + "。已回滚。可手动运行 scripts\\install-picker-plugin.ps1。"@,
        _ => true,
    }
}

/// What a phase can bring.
pub open spec fn fits(phase: Phase, seen: Seen) -> bool {
    (phase == Phase::Look) == (seen is Survey)
}

/// Decides what follows a phase of the installation for the backend with this home.
pub fn ensure_installed(phase: Phase, seen: Seen, home: &str) -> (r: Move)
    requires
        fits(phase, seen),
    ensures
        follows(phase, seen, home@, r),
{
    let place = install_target(home);
    let modules = modules_dir(home);
    let target: &str = place.as_str();
    let parent: &str = modules.as_str();
    match (phase, seen) {
        (Phase::Look, Seen::Survey { complete, manifest, source, exists }) => if complete {
            Move::Go(Phase::Confirm)
        } else if !manifest {
            Move::Stop(
                Status::Degraded {
                    detail: text::cat3(
                        "dsh 的 ",
                        PROFILE,
                        " profile 还没创建（首次启动 dsh 后会生成）。本次先跳过；下次启动 DShell 会自动装上。",
                    ),
                },
            )
        } else if !source {
            Move::Stop(
                Status::Degraded {
                    detail: text::copy(
                        "找不到随程序发布的插件目录（打包时漏了 resource？）。本次跳过。",
                    ),
                },
            )
        } else if exists {
            Move::Go(Phase::Clear)
        } else {
            Move::Go(Phase::Parent)
        },
        (Phase::Confirm, Seen::Done) => Move::Stop(
            Status::Present { detail: text::cat2("已就绪 · ", target) },
        ),
        (Phase::Confirm, Seen::Failed(e)) => Move::Stop(
            Status::Degraded {
                detail: text::cat5(
                    "插件已在 ",
                    target,
                    "，但无法确认它被 profile 启用：",
                    e.as_str(),
                    "。功能可能不生效（表现为选完目录要补点一下）。",
                ),
            },
        ),
        (Phase::Clear, Seen::Done) => Move::Go(Phase::Parent),
        (Phase::Clear, Seen::Failed(e)) => Move::Stop(
            Status::Degraded {
                detail: text::cat4(
                    target,
                    " 已存在但不完整，且删不掉：",
                    e.as_str(),
                    "。请完全退出 DShell 后重试。",
                ),
            },
        ),
        (Phase::Parent, Seen::Done) => Move::Go(Phase::Copy),
        (Phase::Parent, Seen::Failed(e)) => Move::Stop(
            Status::Degraded { detail: text::cat4("无法创建 ", parent, "：", e.as_str()) },
        ),
        (Phase::Copy, Seen::Done) => Move::Go(Phase::List),
        (Phase::Copy, Seen::Failed(e)) => Move::Undo(
            Status::Degraded {
                detail: text::cat4("复制插件到 ", target, " 失败：", e.as_str()),
            },
        ),
        (Phase::List, Seen::Done) => Move::Stop(
            Status::Installed { detail: text::cat2("已自动安装 · ", target) },
        ),
        (Phase::List, Seen::Failed(e)) => Move::Undo(
            Status::Degraded {
                detail: text::cat3(
                    "插件目录已复制，但写入 profile 清单失败：",
                    e.as_str(),
                    "。已回滚。可手动运行 scripts\\install-picker-plugin.ps1。",
                ),
            },
        ),
        _ => Move::Go(Phase::Look),
    }
}

/// A complete installation is not touched: it is confirmed, and whatever comes of that, the
/// installation stops without removing or copying anything.
pub proof fn law_complete_installation_is_kept(
    seen: Seen,
    m: Move,
    after: Seen,
    n: Move,
    home: Seq<char>,
)
    requires
        seen matches Seen::Survey { complete, .. } && complete,
        follows(Phase::Look, seen, home, m),
        fits(Phase::Confirm, after),
        follows(Phase::Confirm, after, home, n),
    ensures
        m == Move::Go(Phase::Confirm),
        n is Stop,
{
}

/// Once copying has begun, the plugin is either installed or taken back.
pub proof fn law_all_or_nothing(
    phase: Phase,
    seen: Seen,
    home: Seq<char>,
    m: Move,
)
    requires
        phase == Phase::Copy || phase == Phase::List,
        fits(phase, seen),
        follows(phase, seen, home, m),
    ensures
        m == Move::Go(Phase::List) || m is Undo || (m matches Move::Stop(s) && s is Installed),
        seen is Failed ==> m is Undo,
{
}

/// What is listed is the plugin by its name, and nothing else counts as it.
pub proof fn law_plugin_is_listed_by_name(v: Tree)
    ensures
        listed(v) <==> (bundles_of(v) matches Some(b) && b.contains(
            Tree::Str("dshell-directory-picker"@),
        )),
        depended(v) <==> (json::get(v, "dependencies"@) matches Some(d) && json::get(
            d,
            "dshell-directory-picker"@,
        ) is Some),
{
}

/// A manifest is listed in exactly where it has a profile with a list of bundles. The plugin
/// is then in that list, behind what was there before, and among the dependencies where those
/// can hold it; a manifest that lacks nothing stays as it is.
#[verifier::rlimit(50)]
pub proof fn law_listed_manifest_has_the_plugin(
    v: Json,
    target: &str,
    r: Result<(Json, bool), String>,
)
    requires
        call_ensures(list_plugin, (v, target), r),
    ensures
        r is Ok <==> (json::get_in(json::get(v.tree(), "dsh"@), "profile"@) matches Some(p) && !(p
            is Null) && (json::get(p, "bundles"@) matches Some(b) && b is Arr)),
        (r matches Err(e) && (profile_of(v.tree()) is None || profile_of(v.tree())->Some_0 is Null))
            ==> r->Err_0@ == "这不是一个 dsh profile 清单（缺 dsh.profile）"@,
        (r matches Err(e) && profile_of(v.tree()) is Some && !(profile_of(v.tree())->Some_0
            is Null)) ==> r->Err_0@ == "清单里 dsh.profile.bundles 不是数组"@,
        r matches Ok(done) ==> {
            let before = bundles_of(v.tree())->Some_0;
            let after = bundles_of(done.0.tree());
            &&& after is Some
            &&& after->Some_0.contains(Tree::Str("dshell-directory-picker"@))
            &&& before.is_prefix_of(after->Some_0)
            &&& after->Some_0.len() <= before.len() + 1
            &&& json::get(done.0.tree(), "dependencies"@) is Some
            &&& json::get(v.tree(), "dependencies"@) is None ==> json::get_in(
                json::get(done.0.tree(), "dependencies"@),
                "dshell-directory-picker"@,
            ) == Some(Tree::Str("file:"@ + target@))
            &&& (json::get(v.tree(), "dependencies"@) matches Some(d) && d is Obj && json::get(
                d,
                "dshell-directory-picker"@,
            ) is None) ==> json::get_in(
                json::get(done.0.tree(), "dependencies"@),
                "dshell-directory-picker"@,
            ) == Some(Tree::Str("file:"@ + target@))
            &&& depended(v.tree()) ==> json::get(done.0.tree(), "dependencies"@) == json::get(
                v.tree(),
                "dependencies"@,
            )
            &&& !done.1 ==> done.0.tree() == v.tree()
            &&& done.1 <==> !listed(v.tree()) || json::get(v.tree(), "dependencies"@) is None || (
            json::get(v.tree(), "dependencies"@)->Some_0 is Obj && !depended(v.tree()))
        },
{
    if let Ok(done) = r {
        let t = v.tree();
        law_listing_is_done_once(t, target@);
        law_listing_only_appends(t, target@, "dependencies"@);
        lemma_bundles_keep_dependencies(t);
        let w = with_entry(t);
        let before = bundles_of(t)->Some_0;
        let after = bundles_of(done.0.tree())->Some_0;
        assert(before.is_prefix_of(after)) by {
            assert(before =~= after.subrange(0, before.len() as int));
        }
        assert(w is Obj);
        match json::get(w, "dependencies"@) {
            None => {
                let deps = Tree::Obj(seq![(PLUGIN_NAME@, dependency(target@))]);
                json::lemma_set(w, "dependencies"@, deps, "dsh"@);
                json::lemma_member_from(
                    seq![(PLUGIN_NAME@, dependency(target@))],
                    PLUGIN_NAME@,
                    0,
                );
                assert(seq![(PLUGIN_NAME@, dependency(target@))][0].0 == PLUGIN_NAME@);
            },
            Some(deps) => {
                if deps is Obj && !depended(w) {
                    json::lemma_set(
                        w,
                        "dependencies"@,
                        json::set(deps, PLUGIN_NAME@, dependency(target@)),
                        "dsh"@,
                    );
                    json::lemma_set(deps, PLUGIN_NAME@, dependency(target@), "dsh"@);
                }
            },
        }
    }
}

/// Taking the plugin out of a list takes out each of its entries and nothing else.
pub proof fn law_other_bundles_stay(a: Seq<Tree>, b: Seq<Tree>, x: Tree)
    ensures
        others(a + b) == others(a) + others(b),
        x != Tree::Str("dshell-directory-picker"@) ==> others(seq![x]) == seq![x],
        others(seq![Tree::Str("dshell-directory-picker"@)]) == Seq::<Tree>::empty(),
    decreases b.len(),
{
    let e = Tree::Str("dshell-directory-picker"@);
    assert(seq![x].drop_last() =~= Seq::<Tree>::empty());
    assert(seq![e].drop_last() =~= Seq::<Tree>::empty());
    assert(seq![x].last() == x && seq![e].last() == e);
    assert(others(Seq::<Tree>::empty()) =~= Seq::<Tree>::empty());
    assert(Seq::<Tree>::empty().push(x) =~= seq![x]);
    if b.len() == 0 {
        assert(a + b =~= a);
    } else {
        assert((a + b).drop_last() =~= a + b.drop_last());
        assert((a + b).last() == b.last());
        law_other_bundles_stay(a, b.drop_last(), x);
    }
}

proof fn lemma_others_have_none(b: Seq<Tree>)
    ensures
        !others(b).contains(entry()),
    decreases b.len(),
{
    if b.len() > 0 {
        lemma_others_have_none(b.drop_last());
        let o = others(b.drop_last());
        if b.last() != entry() {
            assert forall|i: int| 0 <= i < o.push(b.last()).len() implies o.push(b.last())[i]
                != entry() by {
                if i < o.len() {
                    assert(o.push(b.last())[i] == o[i]);
                    assert(o.contains(o[i]));
                }
            }
        }
    }
}

/// What is uninstalled is neither listed nor depended on afterwards; a manifest that has no
/// trace of the plugin is not written again.
pub proof fn law_uninstalled_plugin_is_gone(v: Json, r: Option<Json>)
    requires
        json::well_named(v.tree()),
        call_ensures(without_plugin, (v,), r),
    ensures
        r is Some <==> listed(v.tree()) || depended(v.tree()),
        r matches Some(w) ==> !listed(w.tree()) && !depended(w.tree()) && (bundles_of(v.tree())
            matches Some(b) ==> bundles_of(w.tree()) == Some(others(b))),
{
    if let Some(w) = r {
        let t = v.tree();
        let a = without_entry(t);
        lemma_names_differ();
        if listed(t) {
            lemma_with_bundles(t, others(bundles_of(t)->0));
            lemma_others_have_none(bundles_of(t)->0);
        } else if let Some(b) = bundles_of(t) {
            lemma_others_unlisted(b);
        }
        if listed(t) {
            assert(json::get(a, "dependencies"@) == json::get(t, "dependencies"@));
        }
        if depended(a) {
            let deps = json::get(a, "dependencies"@)->0;
            json::lemma_get_well_named(t, "dependencies"@);
            json::lemma_set(a, "dependencies"@, json::unset(deps, PLUGIN_NAME@), "dsh"@);
            lemma_unset_gone(deps);
        }
    }
}

proof fn lemma_unset_gone(deps: Tree)
    requires
        json::well_named(deps),
    ensures
        json::get(json::unset(deps, PLUGIN_NAME@), PLUGIN_NAME@) is None,
{
    if let Tree::Obj(m) = deps {
        json::lemma_member_from(m, PLUGIN_NAME@, 0);
        if let Some(i) = json::member(m, PLUGIN_NAME@) {
            let n = m.remove(i);
            json::lemma_member_from(n, PLUGIN_NAME@, 0);
            if let Some(j) = json::member(n, PLUGIN_NAME@) {
                if j < i {
                    assert(n[j] == m[j]);
                } else {
                    assert(n[j] == m[j + 1]);
                    assert(m[i].0 != m[j + 1].0);
                }
            }
        }
    }
}

/// The installation goes on step by step while all goes well, and ends in a plugin that is
/// there or was installed just now; a failure ends it with its reason, and what was copied is
/// removed again.
#[verifier::rlimit(50)]
pub proof fn law_installation_goes_step_by_step(phase: Phase, seen: Seen, home: &str, r: Move)
    requires
        fits(phase, seen),
        call_ensures(ensure_installed, (phase, seen, home), r),
    ensures
        seen matches Seen::Survey { complete, manifest, source, exists } ==> {
            &&& complete ==> r == Move::Go(Phase::Confirm)
            &&& !complete && manifest && source && exists ==> r == Move::Go(Phase::Clear)
            &&& !complete && manifest && source && !exists ==> r == Move::Go(Phase::Parent)
            &&& !complete && !(manifest && source) ==> (r matches Move::Stop(s) && s is Degraded)
        },
        seen is Done ==> match phase {
            Phase::Confirm => r matches Move::Stop(s) && s is Present && text::ends(
                detail(s),
                target_in(home@),
            ),
            Phase::Clear => r == Move::Go(Phase::Parent),
            Phase::Parent => r == Move::Go(Phase::Copy),
            Phase::Copy => r == Move::Go(Phase::List),
            Phase::List => r matches Move::Stop(s) && s is Installed && text::ends(
                detail(s),
                target_in(home@),
            ),
            Phase::Look => true,
        },
        seen is Failed && (phase == Phase::Copy || phase == Phase::List) ==> (r matches Move::Undo(s)
            && s is Degraded && text::has(detail(s), seen->Failed_0@)),
        seen is Failed && phase != Phase::Copy && phase != Phase::List ==> (r matches Move::Stop(s)
            && s is Degraded && text::has(detail(s), seen->Failed_0@)),
{
    let target = target_in(home@);
    let none = Seq::<char>::empty();
    match seen {
        Seen::Done => {
            let head = if phase == Phase::Confirm {
                "已就绪 · "@
            } else {
                "已自动安装 · "@
            };
            text::law_prefix_is_taken_off(target, head, none);
        },
        Seen::Failed(e) => {
            let (a, b) = match phase {
                Phase::Confirm => (
                    "插件已在 "@ + target + "，但无法确认它被 profile 启用："@,
                    "。功能可能不生效（表现为选完目录要补点一下）。"@,
                ),
                Phase::Clear => (
                    target + " 已存在但不完整，且删不掉："@,
                    "。请完全退出 DShell 后重试。"@,
                ),
                Phase::Parent => ("无法创建 "@ + modules_in(home@) + "："@, none),
                Phase::Copy => ("复制插件到 "@ + target + " 失败："@, none),
                Phase::List => (
                    "插件目录已复制，但写入 profile 清单失败："@,
                    "。已回滚。可手动运行 scripts\\install-picker-plugin.ps1。"@,
                ),
                Phase::Look => (none, none),
            };
            text::law_prefix_is_taken_off(e@, a, b);
            assert(a + e@ + none =~= a + e@);
        },
        _ => {},
    }
}

/// A plugin is complete where it has both its manifest and its entry. Of what it consists of
/// directories are descended into and files copied; links are passed over.
pub proof fn law_links_are_passed_over(
    has_manifest: bool,
    has_entry: bool,
    complete: bool,
    is_link: bool,
    is_dir: bool,
    is_file: bool,
    r: CopyEntry,
)
    requires
        call_ensures(looks_complete, (has_manifest, has_entry), complete),
        call_ensures(copy_dir, (is_link, is_dir, is_file), r),
    ensures
        complete <==> has_manifest && has_entry,
        r is Descend <==> !is_link && is_dir,
        r is Copy <==> !is_link && !is_dir && is_file,
{
}

/// The backend's home is the one that is set, where that is more than whitespace, and else the
/// one in the user's directory. The plugin goes below it, among the modules of its profile.
pub proof fn law_home_is_the_one_that_is_set(
    variable: Option<&str>,
    user: Option<&str>,
    home: String,
    dir: &str,
    target: String,
)
    requires
        call_ensures(dsh_home, (variable, user), home),
        call_ensures(install_target, (dir,), target),
    ensures
        (variable matches Some(h) && text::trimmed(h@).len() > 0) ==> home@ == text::trimmed(
            variable->Some_0@,
        ),
        (variable is None || text::trimmed(variable->Some_0@).len() == 0) && user is Some ==> home@
            == config::within(user->Some_0@, ".dsh"@),
        target@ == config::within(
            config::within(
                config::within(config::within(dir@, "profiles"@), "web"@),
                "node_modules"@,
            ),
            "dshell-directory-picker"@,
        ),
{
}

/// A manifest is written again exactly where the plugin is not all there yet. One that cannot
/// be read, is no JSON, or is no profile is a failure.
pub proof fn law_manifest_is_written_where_needed(
    raw: Result<String, String>,
    target: &str,
    r: Result<Option<Json>, String>,
)
    requires
        call_ensures(ensure_listed, (raw, target), r),
    ensures
        raw matches Err(e) ==> r matches Err(f) && f@ == e@,
        r is Ok ==> raw is Ok && json::json_read(raw->Ok_0@) is Ok && is_profile(
            json::json_read(raw->Ok_0@)->Ok_0,
        ),
        (raw matches Ok(s) && (json::json_read(s@) matches Ok(v) && is_profile(v) && bundles_of(v)
            is Some)) ==> r is Ok,
        r matches Ok(Some(w)) ==> listed(w.tree()) && !needs_listing(w.tree()),
        r matches Ok(None) ==> listed(json::json_read(raw->Ok_0@)->Ok_0),
{
    if let Ok(Some(w)) = r {
        law_listing_is_done_once(json::json_read(raw->Ok_0@)->Ok_0, target@);
    }
}

/// Uninstalling writes a manifest without any trace of the plugin, and writes none where there
/// is no manifest, where it is no JSON, or where the plugin is not in it.
pub proof fn law_uninstalling_leaves_no_trace(raw: Option<&str>, r: Option<Json>)
    requires
        call_ensures(uninstall, (raw,), r),
    ensures
        raw is None ==> r is None,
        r is Some <==> (raw matches Some(s) && (json::json_read(s@) matches Ok(v) && (listed(v)
            || depended(v)))),
        (r matches Some(w) && json::well_named(json::json_read(raw->Some_0@)->Ok_0)) ==> !listed(
            r->Some_0.tree(),
        ) && !depended(r->Some_0.tree()),
{
    if let Some(w) = r {
        let t = json::json_read(raw->Some_0@)->Ok_0;
        if json::well_named(t) {
            lemma_without_leaves_none(t);
        }
    }
}

proof fn lemma_without_leaves_none(t: Tree)
    requires
        json::well_named(t),
    ensures
        !listed(without_dependency(without_entry(t))),
        !depended(without_dependency(without_entry(t))),
{
    let a = without_entry(t);
    lemma_names_differ();
    if listed(t) {
        lemma_with_bundles(t, others(bundles_of(t)->0));
        lemma_others_have_none(bundles_of(t)->0);
        assert(json::get(a, "dependencies"@) == json::get(t, "dependencies"@));
    }
    if depended(a) {
        let deps = json::get(a, "dependencies"@)->0;
        json::lemma_get_well_named(t, "dependencies"@);
        json::lemma_set(a, "dependencies"@, json::unset(deps, PLUGIN_NAME@), "dsh"@);
        lemma_unset_gone(deps);
    }
}

/// A manifest is a printed document with a newline at its end, or the reason why it could not be
/// printed.
pub proof fn law_manifest_ends_in_a_newline(v: &Json, r: Result<String, String>)
    requires
        call_ensures(manifest_text, (v,), r),
    ensures
        r matches Ok(s) ==> s@.len() > 0 && s@.last() == '\n' && exists|t: Tree| #[trigger]
            json::json_pretty(t) == Ok::<Seq<char>, Seq<char>>(s@.drop_last()),
        r matches Err(e) ==> exists|t: Tree| #[trigger]
            json::json_pretty(t) == Err::<Seq<char>, Seq<char>>(e@),
{
    let t = choose|t: Tree| #[trigger]
        is_manifest_text(t, r) && (json::well_named(v.tree()) ==> json::same_document(t, v.tree()));
    assert(is_manifest_text(t, r));
    if let Ok(s) = r {
        assert(s@.drop_last() =~= json::json_pretty(t)->Ok_0);
    }
}

/// The plugin is looked for beside the program first, then among its resources, and at last
/// where it is built.
pub proof fn law_plugin_is_looked_for_in_turn(
    exe_dir: Option<&str>,
    source_root: Option<&str>,
    r: Vec<String>,
)
    requires
        call_ensures(bundled_plugin_dirs, (exe_dir, source_root), r),
    ensures
        exe_dir matches Some(d) ==> r@.len() >= 2 && text::texts(r@)[0] == config::within(
            d@,
            "plugin/dshell-directory-picker"@,
        ) && text::texts(r@)[1] == config::within(
            config::within(d@, "resources"@),
            "plugin/dshell-directory-picker"@,
        ),
        source_root matches Some(d) ==> r@.len() >= 1 && text::texts(r@).last() == config::within(
            config::within(d@, "plugin"@),
            "dshell-directory-picker"@,
        ),
        r@.len() == (if exe_dir is Some {
            2int
        } else {
            0
        }) + (if source_root is Some {
            1int
        } else {
            0
        }),
{
    assert(text::texts(r@).len() == r@.len());
}

} // verus!
