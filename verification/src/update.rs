//! The ledger of dsh versions: what the registry offers, what is installed, and whether a
//! switch would reach the installation that is in use.
//!
//! Nothing here installs or changes anything.

use vstd::prelude::*;
use vstd::slice::slice_subrange;

use crate::config;
use crate::config::Config;
use crate::installer::DSH_PACKAGE;
use crate::json;
use crate::json::{Json, Tree};
use crate::proc;
use crate::proc::{Launch, Output};
use crate::table;
use crate::text;
use crate::version;

verus! {

/// How long what the registry said counts as fresh: two hours.
pub const TTL_MS: u64 = 7_200_000;

/// How long a question to the registry may take.
pub const VIEW_TIMEOUT_MS: u64 = 45_000;

/// How long a local question may take.
pub const LOCAL_TIMEOUT_MS: u64 = 15_000;

/// One version, as it is shown.
pub struct VItem {
    pub version: String,
    /// The tags that point at it, sorted.
    pub tags: Vec<String>,
    /// The one that is installed.
    pub current: bool,
    /// Older than the installed one: switching to it is a downgrade.
    pub older: bool,
    /// When it was published, as the registry words it.
    pub published: Option<String>,
}

/// The ledger, as it is shown.
pub struct Catalog {
    pub current: Option<String>,
    /// The greatest of all published versions, pre-releases among them.
    pub latest: Option<String>,
    pub registry: String,
    pub registry_age_secs: Option<u64>,
    /// What the registry said is out of date: a newer ledger follows.
    pub registry_stale: bool,
    /// Whether a switch reaches the installation that is in use.
    pub npm_global: bool,
    /// Why not, in words for the user.
    pub source_note: Option<String>,
    pub npm_prefix: Option<String>,
    /// The newest first; what writes no version comes last.
    pub versions: Vec<VItem>,
}

/// What the registry said.
pub struct RegistryCache {
    pub fetched_at_ms: u64,
    pub registry: String,
    pub versions: Vec<String>,
    /// Version to tags.
    pub tags: Vec<(String, Vec<String>)>,
    /// Version to the time it was published.
    pub times: Vec<(String, String)>,
    /// How many versions there were when `times` was fetched.
    pub times_seen: usize,
}

impl Default for RegistryCache {
    fn default() -> (r: Self)
        ensures
            r.fetched_at_ms == 0 && r.registry@.len() == 0 && r.versions.len() == 0 && r.tags.len()
                == 0 && r.times.len() == 0 && r.times_seen == 0,
    {
        RegistryCache {
            fetched_at_ms: 0,
            registry: String::new(),
            versions: Vec::new(),
            tags: Vec::new(),
            times: Vec::new(),
            times_seen: 0,
        }
    }
}

impl RegistryCache {
    /// How old it is.
    pub open spec fn age(self, now_ms: u64) -> int {
        if now_ms >= self.fetched_at_ms {
            now_ms - self.fetched_at_ms
        } else {
            0
        }
    }

    pub fn age_ms(&self, now_ms: u64) -> (r: u64)
        ensures
            r == self.age(now_ms),
    {
        if now_ms >= self.fetched_at_ms {
            now_ms - self.fetched_at_ms
        } else {
            0
        }
    }

    /// The times belong to the list of versions that stands here: they were fetched when
    /// there were as many.
    pub open spec fn times_match(self) -> bool {
        self.times.len() > 0 && self.times_seen == self.versions.len()
    }

    pub fn times_fresh(&self) -> (r: bool)
        ensures
            r == self.times_match(),
    {
        self.times.len() > 0 && self.times_seen == self.versions.len()
    }
}

// ───────────────────────── asking npm ─────────────────────────

/// The command that asks npm something.
fn npm_query(args: &[&str], path_env: Option<String>, timeout_ms: u64) -> (r: Launch)
    ensures
        proc::launches(
            r,
            "cmd"@,
            seq!["/c"@, "npm"@] + text::slices(args@),
            text::option_text(path_env),
            timeout_ms,
        ),
{
    let mut all: Vec<String> = Vec::new();
    all.push(text::copy("/c"));
    all.push(text::copy("npm"));
    let mut given = text::strings(args);
    let ghost rest = given@;
    all.append(&mut given);
    assert(text::texts(all@) =~= seq!["/c"@, "npm"@] + text::texts(rest));
    Launch { program: text::copy("cmd"), args: all, path_env, timeout_ms }
}

/// Which versions there are.
pub fn versions_query(path_env: Option<String>) -> (r: Launch)
    ensures
        proc::launches(
            r,
            "cmd"@,
            seq!["/c"@, "npm"@, "view"@, DSH_PACKAGE@, "versions"@, "--json"@],
            text::option_text(path_env),
            VIEW_TIMEOUT_MS,
        ),
{
    let args: [&str; 4] = ["view", DSH_PACKAGE, "versions", "--json"];
    let r = npm_query(args.as_slice(), path_env, VIEW_TIMEOUT_MS);
    assert(text::texts(r.args@) =~= seq![
        "/c"@,
        "npm"@,
        "view"@,
        DSH_PACKAGE@,
        "versions"@,
        "--json"@,
    ]);
    r
}

/// Which tags there are.
pub fn tags_query(path_env: Option<String>) -> (r: Launch)
    ensures
        proc::launches(
            r,
            "cmd"@,
            seq!["/c"@, "npm"@, "view"@, DSH_PACKAGE@, "dist-tags"@, "--json"@],
            text::option_text(path_env),
            VIEW_TIMEOUT_MS,
        ),
{
    let args: [&str; 4] = ["view", DSH_PACKAGE, "dist-tags", "--json"];
    let r = npm_query(args.as_slice(), path_env, VIEW_TIMEOUT_MS);
    assert(text::texts(r.args@) =~= seq![
        "/c"@,
        "npm"@,
        "view"@,
        DSH_PACKAGE@,
        "dist-tags"@,
        "--json"@,
    ]);
    r
}

/// When the versions were published.
pub fn times_query(path_env: Option<String>) -> (r: Launch)
    ensures
        proc::launches(
            r,
            "cmd"@,
            seq!["/c"@, "npm"@, "view"@, DSH_PACKAGE@, "time"@, "--json"@],
            text::option_text(path_env),
            VIEW_TIMEOUT_MS,
        ),
{
    let args: [&str; 4] = ["view", DSH_PACKAGE, "time", "--json"];
    let r = npm_query(args.as_slice(), path_env, VIEW_TIMEOUT_MS);
    assert(text::texts(r.args@) =~= seq![
        "/c"@,
        "npm"@,
        "view"@,
        DSH_PACKAGE@,
        "time"@,
        "--json"@,
    ]);
    r
}

/// Which registry npm is set to. It is never given one: what is looked up and what is
/// installed has to come from the same place.
pub fn registry_query(path_env: Option<String>) -> (r: Launch)
    ensures
        proc::launches(
            r,
            "cmd"@,
            seq!["/c"@, "npm"@, "config"@, "get"@, "registry"@],
            text::option_text(path_env),
            LOCAL_TIMEOUT_MS,
        ),
{
    let args: [&str; 3] = ["config", "get", "registry"];
    let r = npm_query(args.as_slice(), path_env, LOCAL_TIMEOUT_MS);
    assert(text::texts(r.args@) =~= seq!["/c"@, "npm"@, "config"@, "get"@, "registry"@]);
    r
}

/// Which version is installed.
pub fn installed_query(path_env: Option<String>) -> (r: Launch)
    ensures
        proc::launches(
            r,
            "cmd"@,
            seq!["/c"@, "npm"@, "ls"@, "-g"@, DSH_PACKAGE@, "--depth=0"@, "--json"@],
            text::option_text(path_env),
            LOCAL_TIMEOUT_MS,
        ),
{
    let args: [&str; 5] = ["ls", "-g", DSH_PACKAGE, "--depth=0", "--json"];
    let r = npm_query(args.as_slice(), path_env, LOCAL_TIMEOUT_MS);
    assert(text::texts(r.args@) =~= seq![
        "/c"@,
        "npm"@,
        "ls"@,
        "-g"@,
        DSH_PACKAGE@,
        "--depth=0"@,
        "--json"@,
    ]);
    r
}

/// Where npm installs globally.
pub fn prefix_query() -> (r: Launch)
    ensures
        proc::launches(
            r,
            "cmd"@,
            seq!["/c"@, "npm"@, "prefix"@, "-g"@],
            None,
            LOCAL_TIMEOUT_MS,
        ),
{
    let args: [&str; 2] = ["prefix", "-g"];
    let r = npm_query(args.as_slice(), None, LOCAL_TIMEOUT_MS);
    assert(text::texts(r.args@) =~= seq!["/c"@, "npm"@, "prefix"@, "-g"@]);
    r
}

/// What npm answered, or why it did not. `verb` is the word that the question began with.
pub fn npm(verb: &str, ran: Result<Output, String>) -> (r: Result<String, String>)
    requires
        ran matches Ok(out) ==> out.succeeded() || out.can_diagnose(),
    ensures
        match ran {
            Ok(out) => if out.succeeded() {
                r matches Ok(s) && s@ == out.stdout@
            } else {
                r matches Err(e) && e@ == "npm "@ + verb@ + " 失败："@ + out.diagnosis()
            },
            Err(why) => r matches Err(e) && e@ == "无法执行 npm："@ + why@,
        },
{
    match ran {
        Ok(out) => if out.ok() {
            Ok(out.stdout)
        } else {
            let why = out.diagnose();
            Err(text::cat4("npm ", verb, " 失败：", why.as_str()))
        },
        Err(why) => Err(text::cat2("无法执行 npm：", why.as_str())),
    }
}

// ───────────────────────── reading npm's answers ─────────────────────────

/// The texts among the items of a list.
pub open spec fn strings_in(items: Seq<Tree>) -> Seq<Seq<char>>
    decreases items.len(),
{
    if items.len() == 0 {
        seq![]
    } else {
        match items.last() {
            Tree::Str(s) => strings_in(items.drop_last()).push(s),
            _ => strings_in(items.drop_last()),
        }
    }
}

/// The versions that a document lists: `None` where it is no list.
pub fn versions_of(doc: &Json) -> (r: Option<Vec<String>>)
    ensures
        r matches Some(v) ==> doc.tree() matches Tree::Arr(items) && text::texts(v@) == strings_in(
            items,
        ),
        r is None <==> !(doc.tree() is Arr),
{
    proof {
        json::lemma_tree(*doc);
    }
    match doc {
        Json::Arr(items) => {
            let ghost said = json::items(items@);
            let mut out: Vec<String> = Vec::new();
            let mut i: usize = 0;
            assert(text::texts(out@) =~= seq![]);
            while i < items.len()
                invariant
                    i <= items.len(),
                    said == json::items(items@),
                    text::texts(out@) == strings_in(said.take(i as int)),
                decreases items.len() - i,
            {
                let ghost more = said.take(i + 1);
                assert(more.drop_last() =~= said.take(i as int));
                assert(more.last() == items@[i as int].tree());
                match &items[i] {
                    Json::Str(s) => {
                        let ghost before = out@;
                        out.push(text::copy(s.as_str()));
                        assert(text::texts(out@) =~= text::texts(before).push(s@));
                    },
                    _ => {},
                }
                i = i + 1;
            }
            assert(said.take(i as int) =~= said);
            Some(out)
        },
        _ => None,
    }
}

/// Reads the list of versions.
pub fn parse_versions(s: &str) -> (r: Option<Vec<String>>)
    ensures
        r matches Some(v) ==> json::json_read(s@) matches Ok(Tree::Arr(items)) && text::texts(v@)
            == strings_in(items),
        r is None <==> !(json::json_read(s@) matches Ok(Tree::Arr(_))),
{
    match json::parse_json(s) {
        Ok(doc) => versions_of(&doc),
        Err(_) => None,
    }
}

/// The version of a package in a document that lists what is installed.
pub open spec fn installed(doc: Tree, package: Seq<char>) -> Option<Seq<char>> {
    match json::get(doc, "dependencies"@) {
        Some(deps) => match json::get(deps, package) {
            Some(dep) => json::str_of(json::get(dep, "version"@)),
            None => None,
        },
        None => None,
    }
}

/// The version of a package in a document that lists what is installed.
pub fn installed_of(doc: &Json, package: &str) -> (r: Option<String>)
    ensures
        text::option_text(r) == installed(doc.tree(), package@),
{
    match doc.get("dependencies") {
        Some(deps) => match deps.get(package) {
            Some(dep) => json::text_of(dep.get("version")),
            None => None,
        },
        None => None,
    }
}

/// Reads what is installed: the version of a package.
pub fn parse_installed(s: &str, package: &str) -> (r: Option<String>)
    ensures
        text::option_text(r) == (match json::json_read(s@) {
            Ok(doc) => installed(doc, package@),
            Err(_) => None,
        }),
{
    match json::parse_json(s) {
        Ok(doc) => installed_of(&doc, package),
        Err(_) => None,
    }
}

/// The installed version of dsh, from npm's answer.
pub fn installed_version(answer: Result<String, String>) -> (r: Option<String>)
    ensures
        text::option_text(r) == (match answer {
            Ok(s) => match json::json_read(s@) {
                Ok(doc) => installed(doc, DSH_PACKAGE@),
                Err(_) => None,
            },
            Err(_) => None,
        }),
{
    match answer {
        Ok(s) => parse_installed(s.as_str(), DSH_PACKAGE),
        Err(_) => None,
    }
}

/// A time as the registry words it: long enough, with a `T` in it and a `Z` at its end.
pub open spec fn timestamp(t: Seq<char>) -> bool {
    text::utf8_len(t) >= 20 && t.contains('T') && t.len() > 0 && t.last() == 'Z'
}

/// The time that a member gives for a version. The names that stand for no version, and
/// whatever is no time, are not counted.
pub open spec fn time_entry(m: (Seq<char>, Tree)) -> Option<Seq<char>> {
    match m.1 {
        Tree::Str(t) => if version::parsed(m.0) is Some && timestamp(t) {
            Some(t)
        } else {
            None
        },
        _ => None,
    }
}

/// The time of a version among the members of a document.
pub open spec fn time_at(members: Seq<(Seq<char>, Tree)>, v: Seq<char>) -> Option<Seq<char>>
    decreases members.len(),
{
    if members.len() == 0 {
        None
    } else if members.last().0 == v && time_entry(members.last()) is Some {
        time_entry(members.last())
    } else {
        time_at(members.drop_last(), v)
    }
}

/// The time of a version in a table of times.
pub open spec fn timed(times: Seq<(String, String)>, v: Seq<char>) -> Option<Seq<char>> {
    text::option_text(table::at(times, v))
}

/// A table that holds the times of a document's members.
pub open spec fn holds_times(
    times: Seq<(String, String)>,
    members: Seq<(Seq<char>, Tree)>,
) -> bool {
    &&& table::unique(times)
    &&& forall|v: Seq<char>| #[trigger] timed(times, v) == time_at(members, v)
}

fn is_timestamp(t: &str) -> (r: bool)
    ensures
        r == timestamp(t@),
{
    let v = text::chars(t);
    text::byte_len(t) >= 20 && text::has_char(v.as_slice(), 'T') && v.len() > 0 && v[v.len() - 1]
        == 'Z'
}

/// The times of a document: `None` where it is no object.
pub fn times_of(doc: &Json) -> (r: Option<Vec<(String, String)>>)
    ensures
        r matches Some(t) ==> doc.tree() matches Tree::Obj(m) && holds_times(t@, m),
        r is None <==> !(doc.tree() is Obj),
{
    proof {
        json::lemma_tree(*doc);
    }
    match doc {
        Json::Obj(m) => {
            let ghost said = json::members(m@);
            let mut out: Vec<(String, String)> = Vec::new();
            let mut i: usize = 0;
            while i < m.len()
                invariant
                    i <= m.len(),
                    said == json::members(m@),
                    holds_times(out@, said.take(i as int)),
                decreases m.len() - i,
            {
                let ghost before = out@;
                let ghost more = said.take(i + 1);
                assert(more.drop_last() =~= said.take(i as int));
                assert(more.last() == (m@[i as int].0@, m@[i as int].1.tree()));
                let entry: Option<String> = match &m[i].1 {
                    Json::Str(t) => if version::is_version(m[i].0.as_str()) && is_timestamp(
                        t.as_str(),
                    ) {
                        Some(text::copy(t.as_str()))
                    } else {
                        None
                    },
                    _ => None,
                };
                assert(text::option_text(entry) == time_entry(more.last()));
                match entry {
                    Some(t) => {
                        let name = text::copy(m[i].0.as_str());
                        let ghost key = name@;
                        table::put(&mut out, name, t);
                        assert forall|v: Seq<char>| #[trigger]
                            timed(out@, v) == time_at(more, v) by {
                            assert(timed(before, v) == time_at(more.drop_last(), v));
                            assert(table::at(out@, v) == if v == key {
                                Some(t)
                            } else {
                                table::at(before, v)
                            });
                        }
                    },
                    None => {
                        assert forall|v: Seq<char>| #[trigger]
                            timed(out@, v) == time_at(more, v) by {
                            assert(timed(before, v) == time_at(more.drop_last(), v));
                        }
                    },
                }
                i = i + 1;
            }
            assert(said.take(i as int) =~= said);
            Some(out)
        },
        _ => None,
    }
}

/// Reads the times at which versions were published.
pub fn parse_times(s: &str) -> (r: Option<Vec<(String, String)>>)
    ensures
        r matches Some(t) ==> json::json_read(s@) matches Ok(Tree::Obj(m)) && holds_times(t@, m),
        r is None <==> !(json::json_read(s@) matches Ok(Tree::Obj(_))),
{
    match json::parse_json(s) {
        Ok(doc) => times_of(&doc),
        Err(_) => None,
    }
}

/// The times that npm answered with, or why it did not.
pub fn fetch_times(answer: Result<String, String>) -> (r: Result<Vec<(String, String)>, String>)
    ensures
        match answer {
            Err(e) => r matches Err(f) && f@ == e@,
            Ok(s) => match json::json_read(s@) {
                Ok(Tree::Obj(m)) => r matches Ok(t) && holds_times(t@, m),
                _ => r matches Err(e) && e@ == "无法解析 npm view time 的输出"@,
            },
        },
{
    match answer {
        Err(e) => Err(e),
        Ok(s) => match parse_times(s.as_str()) {
            Some(t) => Ok(t),
            None => Err(text::copy("无法解析 npm view time 的输出")),
        },
    }
}

/// A text put in its place in a sorted list.
pub open spec fn put_sorted(v: Seq<Seq<char>>, s: Seq<char>) -> Seq<Seq<char>>
    decreases v.len(),
{
    if v.len() > 0 && version::text_before(s, v.last()) {
        put_sorted(v.drop_last(), s).push(v.last())
    } else {
        v.push(s)
    }
}

/// The tags that point at a version, sorted.
pub open spec fn tags_at(members: Seq<(Seq<char>, Tree)>, v: Seq<char>) -> Seq<Seq<char>>
    decreases members.len(),
{
    if members.len() == 0 {
        seq![]
    } else {
        let less = tags_at(members.drop_last(), v);
        match members.last().1 {
            Tree::Str(s) => if s == v {
                put_sorted(less, members.last().0)
            } else {
                less
            },
            _ => less,
        }
    }
}

/// The tags of a version in a table of tags.
pub open spec fn tagged(tags: Seq<(String, Vec<String>)>, v: Seq<char>) -> Seq<Seq<char>> {
    match table::at(tags, v) {
        Some(t) => text::texts(t@),
        None => seq![],
    }
}

/// A table that holds the tags of a document's members.
pub open spec fn holds_tags(
    tags: Seq<(String, Vec<String>)>,
    members: Seq<(Seq<char>, Tree)>,
) -> bool {
    &&& table::unique(tags)
    &&& forall|v: Seq<char>| #[trigger] tagged(tags, v) == tags_at(members, v)
}

fn insert_sorted(v: &Vec<String>, s: &str) -> (r: Vec<String>)
    ensures
        text::texts(r@) == put_sorted(text::texts(v@), s@),
{
    let mut n: usize = v.len();
    let ghost all = text::texts(v@);
    assert(all.take(n as int) =~= all);
    assert(all.skip(n as int) =~= seq![]);
    assert(put_sorted(all, s@) =~= put_sorted(all.take(n as int), s@) + all.skip(n as int));
    while n > 0 && version::comes_before(s, v[n - 1].as_str())
        invariant
            n <= v.len(),
            all == text::texts(v@),
            put_sorted(all, s@) == put_sorted(all.take(n as int), s@) + all.skip(n as int),
        decreases n,
    {
        let ghost part = all.take(n as int);
        assert(part.last() == v@[n - 1]@);
        assert(part.drop_last() =~= all.take(n - 1));
        assert(put_sorted(part, s@) + all.skip(n as int) =~= put_sorted(all.take(n - 1), s@)
            + all.skip(n - 1));
        n = n - 1;
    }
    let mut out = text::copies(slice_subrange(v.as_slice(), 0, n));
    assert(text::texts(out@) =~= all.take(n as int));
    let ghost head = out@;
    out.push(text::copy(s));
    assert(text::texts(out@) =~= text::texts(head).push(s@));
    assert(n > 0 ==> all.take(n as int).last() == v@[n - 1]@);
    assert(put_sorted(all.take(n as int), s@) =~= all.take(n as int).push(s@));
    let mut rest = text::copies(slice_subrange(v.as_slice(), n, v.len()));
    assert(text::texts(rest@) =~= all.skip(n as int));
    let ghost tail = rest@;
    let ghost front = out@;
    out.append(&mut rest);
    assert(text::texts(out@) =~= text::texts(front) + text::texts(tail));
    out
}

/// The tags of a document, by the versions that they point at: `None` where it is no object.
pub fn tags_of(doc: &Json) -> (r: Option<Vec<(String, Vec<String>)>>)
    ensures
        r matches Some(t) ==> doc.tree() matches Tree::Obj(m) && holds_tags(t@, m),
        r is None <==> !(doc.tree() is Obj),
{
    proof {
        json::lemma_tree(*doc);
    }
    match doc {
        Json::Obj(m) => {
            let ghost said = json::members(m@);
            let mut out: Vec<(String, Vec<String>)> = Vec::new();
            let mut i: usize = 0;
            while i < m.len()
                invariant
                    i <= m.len(),
                    said == json::members(m@),
                    holds_tags(out@, said.take(i as int)),
                decreases m.len() - i,
            {
                let ghost before = out@;
                let ghost more = said.take(i + 1);
                assert(more.drop_last() =~= said.take(i as int));
                assert(more.last() == (m@[i as int].0@, m@[i as int].1.tree()));
                match &m[i].1 {
                    Json::Str(s) => {
                        let now: Vec<String> = match table::lookup(&out, s.as_str()) {
                            Some(tags) => insert_sorted(tags, m[i].0.as_str()),
                            None => {
                                let none: Vec<String> = Vec::new();
                                assert(text::texts(none@) =~= seq![]);
                                insert_sorted(&none, m[i].0.as_str())
                            },
                        };
                        assert(text::texts(now@) == put_sorted(tagged(before, s@), m@[i as int].0@));
                        table::put(&mut out, text::copy(s.as_str()), now);
                        assert forall|v: Seq<char>| #[trigger]
                            tagged(out@, v) == tags_at(more, v) by {
                            assert(tagged(before, v) == tags_at(more.drop_last(), v));
                            assert(table::at(out@, v) == if v == s@ {
                                Some(now)
                            } else {
                                table::at(before, v)
                            });
                        }
                    },
                    _ => {
                        assert forall|v: Seq<char>| #[trigger]
                            tagged(out@, v) == tags_at(more, v) by {
                            assert(tagged(before, v) == tags_at(more.drop_last(), v));
                        }
                    },
                }
                i = i + 1;
            }
            assert(said.take(i as int) =~= said);
            Some(out)
        },
        _ => None,
    }
}

/// Reads which tags point at which versions.
pub fn parse_tags(s: &str) -> (r: Option<Vec<(String, Vec<String>)>>)
    ensures
        r matches Some(t) ==> json::json_read(s@) matches Ok(Tree::Obj(m)) && holds_tags(t@, m),
        r is None <==> !(json::json_read(s@) matches Ok(Tree::Obj(_))),
{
    match json::parse_json(s) {
        Ok(doc) => tags_of(&doc),
        Err(_) => None,
    }
}

// ───────────────────────── the registry's half ─────────────────────────

/// The file in which what the registry said is kept.
pub fn cache_path(home: Option<&str>) -> (r: String)
    ensures
        r@ == config::within(Config::dir_in(text::option_str(home)), "dsh-versions.json"@),
{
    let dir = Config::dir(home);
    config::join(dir.as_str(), "dsh-versions.json")
}

/// What the registry said counts only if it named a version.
pub open spec fn usable(cache: Option<RegistryCache>) -> bool {
    cache matches Some(c) && c.versions.len() > 0
}

/// The kept answer of the registry, as far as it counts.
pub fn kept(cache: Option<RegistryCache>) -> (r: Option<RegistryCache>)
    ensures
        r == if usable(cache) {
            cache
        } else {
            None
        },
{
    match cache {
        Some(c) => if c.versions.len() > 0 {
            Some(c)
        } else {
            None
        },
        None => None,
    }
}

/// The registry's half of the ledger, from what was read of npm's answers: the list of
/// versions has to be there and to name one. Tags and registry are empty where they could
/// not be had. The times of the kept answer are kept: whether they still match is seen from
/// the number of versions.
pub fn registry_from(
    versions: Option<Vec<String>>,
    tags: Option<Vec<(String, Vec<String>)>>,
    registry: Option<String>,
    cache: Option<RegistryCache>,
    now_ms: u64,
) -> (r: Result<RegistryCache, String>)
    ensures
        match versions {
            None => r matches Err(e) && e@ == "无法解析 registry 返回的版本列表"@,
            Some(v) => if v.len() == 0 {
                r matches Err(e) && e@ == "registry 没有返回 "@ + DSH_PACKAGE@ + " 的任何版本"@
            } else {
                r matches Ok(c) && {
                    &&& c.fetched_at_ms == now_ms
                    &&& c.versions == v
                    &&& c.registry@ == (match registry {
                        Some(s) => text::trimmed(s@),
                        None => seq![],
                    })
                    &&& c.tags@ == (match tags {
                        Some(t) => t@,
                        None => seq![],
                    })
                    &&& usable(cache) ==> c.times == cache->0.times && c.times_seen
                        == cache->0.times_seen
                    &&& !usable(cache) ==> c.times.len() == 0 && c.times_seen == 0
                }
            },
        },
{
    let versions = match versions {
        None => {
            return Err(text::copy("无法解析 registry 返回的版本列表"));
        },
        Some(v) => v,
    };
    if versions.len() == 0 {
        return Err(text::cat3("registry 没有返回 ", DSH_PACKAGE, " 的任何版本"));
    }
    let tags = match tags {
        Some(t) => t,
        None => {
            let none: Vec<(String, Vec<String>)> = Vec::new();
            assert(none@ =~= seq![]);
            none
        },
    };
    let registry = match registry {
        Some(s) => text::trim_text(s.as_str()),
        None => {
            let none = String::new();
            assert(none@ =~= seq![]);
            none
        },
    };
    let prev = match kept(cache) {
        Some(c) => c,
        None => RegistryCache::default(),
    };
    Ok(
        RegistryCache {
            fetched_at_ms: now_ms,
            registry,
            versions,
            tags,
            times: prev.times,
            times_seen: prev.times_seen,
        },
    )
}

/// The answer to a question, where there is one.
fn answered(a: Result<String, String>) -> (r: Option<String>)
    ensures
        r == (match a {
            Ok(s) => Some(s),
            Err(_) => None,
        }),
{
    match a {
        Ok(s) => Some(s),
        Err(_) => None,
    }
}

/// The registry's half of the ledger is this, given npm's answers. Only the list of versions is
/// needed; the other answers may be missing.
pub open spec fn is_registry(
    r: Result<RegistryCache, String>,
    versions: Result<String, String>,
    tags: Result<String, String>,
    registry: Result<String, String>,
    cache: Option<RegistryCache>,
    now_ms: u64,
) -> bool {
    match versions {
        Err(e) => r matches Err(f) && f@ == e@,
        Ok(raw) => match json::json_read(raw@) {
            Ok(Tree::Arr(items)) => if strings_in(items).len() == 0 {
                r matches Err(e) && e@ == "registry 没有返回 "@ + DSH_PACKAGE@ + " 的任何版本"@
            } else {
                r matches Ok(c) && {
                    &&& c.fetched_at_ms == now_ms
                    &&& text::texts(c.versions@) == strings_in(items)
                    &&& c.registry@ == (match registry {
                        Ok(s) => text::trimmed(s@),
                        Err(_) => seq![],
                    })
                    &&& match tags {
                        Ok(t) => match json::json_read(t@) {
                            Ok(Tree::Obj(m)) => holds_tags(c.tags@, m),
                            _ => c.tags.len() == 0,
                        },
                        Err(_) => c.tags.len() == 0,
                    }
                    &&& usable(cache) ==> c.times == cache->0.times && c.times_seen
                        == cache->0.times_seen
                    &&& !usable(cache) ==> c.times.len() == 0 && c.times_seen == 0
                }
            },
            _ => r matches Err(e) && e@ == "无法解析 registry 返回的版本列表"@,
        },
    }
}

/// The registry's half of the ledger, from npm's answers.
pub fn fetch_registry(
    versions: Result<String, String>,
    tags: Result<String, String>,
    registry: Result<String, String>,
    cache: Option<RegistryCache>,
    now_ms: u64,
) -> (r: Result<RegistryCache, String>)
    ensures
        is_registry(r, versions, tags, registry, cache, now_ms),
{
    let raw = match versions {
        Err(e) => {
            return Err(e);
        },
        Ok(raw) => raw,
    };
    let listed = parse_versions(raw.as_str());
    proof {
        if listed is Some {
            assert(text::texts(listed->0@).len() == listed->0@.len());
        }
    }
    let tags = match tags {
        Ok(t) => parse_tags(t.as_str()),
        Err(_) => None,
    };
    registry_from(listed, tags, answered(registry), cache, now_ms)
}

/// Asks the registry anew, however fresh the kept answer is, and gives the answer to keep.
pub fn refresh_registry(
    versions: Result<String, String>,
    tags: Result<String, String>,
    registry: Result<String, String>,
    cache: Option<RegistryCache>,
    now_ms: u64,
) -> (r: Result<RegistryCache, String>)
    ensures
        is_registry(r, versions, tags, registry, cache, now_ms),
{
    fetch_registry(versions, tags, registry, cache, now_ms)
}

/// Where the registry's half of the ledger comes from.
pub enum Source {
    /// What was kept; `stale` where it is out of date and is to be asked for again.
    Kept { cache: RegistryCache, stale: bool },
    /// The registry has to be asked.
    Ask,
}

/// Decides where the registry's half of the ledger comes from: what was kept is shown at
/// once even when it is out of date, unless a new answer is asked for.
pub fn registry_at_hand(force: bool, cache: Option<RegistryCache>, now_ms: u64) -> (r: Source)
    ensures
        !force && usable(cache) ==> r == (Source::Kept {
            cache: cache->0,
            stale: cache->0.age(now_ms) >= TTL_MS,
        }),
        force || !usable(cache) ==> r is Ask,
{
    if force {
        return Source::Ask;
    }
    match kept(cache) {
        Some(c) => {
            let stale = c.age_ms(now_ms) >= TTL_MS;
            Source::Kept { cache: c, stale }
        },
        None => Source::Ask,
    }
}

/// Takes over the times that were fetched for the list of versions as it stands. Where they
/// could not be had, nothing changes.
pub fn take_times(reg: RegistryCache, times: Option<Vec<(String, String)>>) -> (r: RegistryCache)
    ensures
        r.fetched_at_ms == reg.fetched_at_ms,
        r.registry == reg.registry,
        r.versions == reg.versions,
        r.tags == reg.tags,
        match times {
            Some(t) => r.times == t && r.times_seen == reg.versions.len(),
            None => r.times == reg.times && r.times_seen == reg.times_seen,
        },
{
    match times {
        Some(t) => RegistryCache { times: t, times_seen: reg.versions.len(), ..reg },
        None => reg,
    }
}

/// The times, where the kept answer has those of its own list of versions.
pub fn version_times(cache: Option<RegistryCache>) -> (r: Option<Vec<(String, String)>>)
    ensures
        r == if usable(cache) && cache->0.times_match() {
            Some(cache->0.times)
        } else {
            None
        },
{
    match kept(cache) {
        Some(c) => if c.times_fresh() {
            Some(c.times)
        } else {
            None
        },
        None => None,
    }
}

/// The answer to keep once the times were fetched by themselves.
pub fn remember_times(cache: Option<RegistryCache>, times: Vec<(String, String)>) -> (r:
    RegistryCache)
    ensures
        r.times == times,
        r.times_seen == r.versions.len(),
        usable(cache) ==> r.versions == cache->0.versions && r.fetched_at_ms
            == cache->0.fetched_at_ms && r.registry == cache->0.registry && r.tags == cache->0.tags,
        !usable(cache) ==> r.versions.len() == 0 && r.fetched_at_ms == 0 && r.registry@.len() == 0
            && r.tags.len() == 0,
{
    let c = match kept(cache) {
        Some(c) => c,
        None => RegistryCache::default(),
    };
    take_times(c, Some(times))
}

/// Times that were fetched once match until another version is published: they are not
/// fetched again although some version has no time, and they are once there is a new one.
pub proof fn law_times_are_fetched_once(
    reg: RegistryCache,
    taken: RegistryCache,
    times: Seq<(String, String)>,
    later: RegistryCache,
)
    requires
        times.len() > 0,
        taken.times@ == times,
        taken.times_seen == reg.versions.len(),
        taken.versions == reg.versions,
        later.times == taken.times,
        later.times_seen == taken.times_seen,
    ensures
        taken.times_match(),
        later.times_match() <==> later.versions.len() == taken.versions.len(),
{
}

// ───────────────────────── order ─────────────────────────

/// One version stands strictly before another in the ledger: the newer before the older, what
/// writes a version before what does not, and the rest by their texts.
pub open spec fn precedes(a: Seq<char>, b: Seq<char>) -> bool {
    match (version::parsed(a), version::parsed(b)) {
        (Some(x), Some(y)) => version::older(y, x),
        (Some(_), None) => true,
        (None, Some(_)) => false,
        (None, None) => version::text_before(a, b),
    }
}

/// No version stands before one that it has to follow.
pub open spec fn ordered(v: Seq<Seq<char>>) -> bool {
    forall|i: int, j: int| 0 <= i < j < v.len() ==> !precedes(#[trigger] v[j], #[trigger] v[i])
}

proof fn lemma_lex_weak(a: Seq<int>, b: Seq<int>, c: Seq<int>)
    requires
        !version::lex(b, a),
        !version::lex(c, b),
    ensures
        !version::lex(c, a),
{
    version::lemma_lex_total(a, b);
    version::lemma_lex_total(b, c);
    version::lemma_lex_irreflexive(a);
    if version::lex(c, a) {
        if a == b {
        } else if b == c {
        } else {
            version::lemma_lex_transitive(a, b, c);
            version::lemma_lex_transitive(a, c, a);
        }
    }
}

proof fn lemma_precedes_weak(a: Seq<char>, b: Seq<char>, c: Seq<char>)
    requires
        !precedes(b, a),
        !precedes(c, b),
    ensures
        !precedes(c, a),
{
    match (version::parsed(a), version::parsed(b), version::parsed(c)) {
        (Some(x), Some(y), Some(z)) => {
            lemma_lex_weak(version::key(z), version::key(y), version::key(x));
        },
        (None, None, None) => {
            lemma_lex_weak(version::codes(a), version::codes(b), version::codes(c));
        },
        _ => {},
    }
}

proof fn lemma_precedes_asymmetric(a: Seq<char>, b: Seq<char>)
    requires
        precedes(a, b),
    ensures
        !precedes(b, a),
{
    match (version::parsed(a), version::parsed(b)) {
        (Some(x), Some(y)) => {
            if version::older(x, y) {
                version::lemma_lex_transitive(version::key(x), version::key(y), version::key(x));
                version::lemma_lex_irreflexive(version::key(x));
            }
        },
        (None, None) => {
            if version::text_before(b, a) {
                version::lemma_lex_transitive(
                    version::codes(a),
                    version::codes(b),
                    version::codes(a),
                );
                version::lemma_lex_irreflexive(version::codes(a));
            }
        },
        _ => {},
    }
}

fn goes_before(a: &str, b: &str) -> (r: bool)
    ensures
        r == precedes(a@, b@),
{
    let x = version::is_version(a);
    let y = version::is_version(b);
    if x && y {
        version::is_older(b, a)
    } else if x {
        true
    } else if y {
        false
    } else {
        version::comes_before(a, b)
    }
}

/// Sorts versions: the newest first, what writes no version last.
pub fn sort_desc(v: Vec<String>) -> (r: Vec<String>)
    ensures
        text::texts(r@).to_multiset() == text::texts(v@).to_multiset(),
        ordered(text::texts(r@)),
{
    let mut out: Vec<String> = Vec::new();
    let mut i: usize = 0;
    assert(text::texts(out@) =~= text::texts(v@).take(0));
    while i < v.len()
        invariant
            i <= v.len(),
            text::texts(out@).to_multiset() == text::texts(v@).take(i as int).to_multiset(),
            ordered(text::texts(out@)),
        decreases v.len() - i,
    {
        let ghost done = text::texts(v@).take(i as int);
        let ghost more = text::texts(v@).take(i + 1);
        let ghost before = text::texts(out@);
        let ghost x = text::texts(v@)[i as int];
        let mut p: usize = 0;
        while p < out.len() && !goes_before(v[i].as_str(), out[p].as_str())
            invariant
                i < v.len(),
                p <= out.len(),
                x == v@[i as int]@,
                before == text::texts(out@),
                forall|k: int| 0 <= k < p ==> !precedes(x, #[trigger] before[k]),
            decreases out.len() - p,
        {
            assert(before[p as int] == out@[p as int]@);
            p = p + 1;
        }
        assert(p < out.len() ==> before[p as int] == out@[p as int]@);
        out.insert(p, text::copy(v[i].as_str()));
        proof {
            let now = text::texts(out@);
            assert(now =~= before.insert(p as int, x));
            vstd::seq_lib::to_multiset_insert(before, p as int, x);
            assert(more =~= done.push(x));
            vstd::seq_lib::to_multiset_build(done, x);
            assert forall|a: int, b: int| 0 <= a < b < now.len() implies !precedes(
                #[trigger] now[b],
                #[trigger] now[a],
            ) by {
                if a < p && b < p {
                    assert(now[a] == before[a] && now[b] == before[b]);
                } else if a < p && b == p {
                    assert(now[a] == before[a]);
                } else if a < p {
                    assert(now[a] == before[a] && now[b] == before[b - 1]);
                } else if a == p {
                    assert(now[b] == before[b - 1]);
                    lemma_precedes_asymmetric(x, before[p as int]);
                    if b - 1 > p {
                        lemma_precedes_weak(x, before[p as int], before[b - 1]);
                    }
                } else {
                    assert(now[a] == before[a - 1] && now[b] == before[b - 1]);
                }
            }
        }
        i = i + 1;
    }
    assert(text::texts(v@).take(i as int) =~= text::texts(v@));
    out
}

// ───────────────────────── where dsh comes from ─────────────────────────

/// A text without the backslashes at its end.
pub open spec fn unslashed(s: Seq<char>) -> Seq<char>
    decreases s.len(),
{
    if s.len() > 0 && s.last() == '\\' {
        unslashed(s.drop_last())
    } else {
        s
    }
}

/// A directory in a form in which equal directories are equal texts: with backslashes, none
/// of them at the end, and in lower case.
pub open spec fn dir_key(s: Seq<char>) -> Seq<char> {
    text::lower(
        unslashed(
            s.map_values(|c: char| if c == '/' {
                '\\'
            } else {
                c
            }),
        ),
    )
}

fn dir_form(s: &str) -> (r: Vec<char>)
    ensures
        r@ == dir_key(s@),
{
    let v = text::chars(s);
    let mut out: Vec<char> = Vec::new();
    let ghost whole = s@.map_values(|c: char| if c == '/' {
        '\\'
    } else {
        c
    });
    let mut i: usize = 0;
    while i < v.len()
        invariant
            i <= v.len(),
            v@ == s@,
            whole == s@.map_values(|c: char| if c == '/' {
                '\\'
            } else {
                c
            }),
            out@ == whole.take(i as int),
        decreases v.len() - i,
    {
        out.push(
            if v[i] == '/' {
                '\\'
            } else {
                v[i]
            },
        );
        i = i + 1;
        assert(out@ =~= whole.take(i as int));
    }
    assert(out@ =~= whole);
    let mut n: usize = out.len();
    assert(whole.take(n as int) =~= whole);
    while n > 0 && out[n - 1] == '\\'
        invariant
            n <= out.len(),
            out@ == whole,
            unslashed(whole) == unslashed(whole.take(n as int)),
        decreases n,
    {
        assert(whole.take(n as int).drop_last() =~= whole.take(n - 1));
        n = n - 1;
    }
    let kept = slice_subrange(out.as_slice(), 0, n);
    assert(kept@ =~= whole.take(n as int));
    text::to_lower(kept)
}

/// Whether two texts name the same directory: case, the kind of slash and slashes at the end
/// make no difference.
pub fn same_dir(a: &str, b: &str) -> (r: bool)
    ensures
        r == (dir_key(a@) == dir_key(b@)),
{
    let x = dir_form(a);
    let y = dir_form(b);
    text::same_chars(x.as_slice(), y.as_slice())
}

/// Why a switch would not reach the installation in use: `npm i -g` only changes npm's own
/// global copy.
pub open spec fn source_fault(
    dsh: Option<Seq<char>>,
    dsh_dir: Option<Seq<char>>,
    current: Option<Seq<char>>,
    npm_prefix: Option<Seq<char>>,
) -> Option<Seq<char>> {
    match npm_prefix {
        None => Some(
            "问不出 npm 全局目录（`npm prefix -g` 失败），无法确认要更新的那一份"@,
        ),
        Some(prefix) => if current is None {
            Some(
                "npm 全局里没有 "@ + DSH_PACKAGE@
                    + " —— 当前这份可能是 pnpm / npx / 手动指定的，直接更新会装出第二份 DShell 不会启动的 dsh"@,
            )
        } else {
            match (dsh, dsh_dir) {
                (Some(path), Some(dir)) => if dir_key(dir) != dir_key(prefix) {
                    Some(
                        "配置里的 dsh（"@ + path + "）不在 npm 全局目录（"@ + prefix
                            + "）下，更新它只会装出第二份"@,
                    )
                } else {
                    None
                },
                _ => None,
            }
        },
    }
}

/// Why a switch would not reach the installation in use, from the configuration: `fault` is
/// that of the directory that was found for the configured dsh.
pub open spec fn source_judged(
    cfg: Config,
    current: Option<Seq<char>>,
    npm_prefix: Option<Seq<char>>,
    fault: Option<Seq<char>>,
) -> bool {
    exists|dir: Option<Seq<char>>| #[trigger]
        config::found_parent(dir, text::option_text(cfg.dsh)) && fault == source_fault(
            text::option_text(cfg.dsh),
            dir,
            current,
            npm_prefix,
        )
}

/// Whether a switch reaches the installation in use, and why not.
pub fn source_check(cfg: &Config, current: Option<&str>, npm_prefix: Option<&str>) -> (r: (
    bool,
    Option<String>,
))
    ensures
        source_judged(
            *cfg,
            text::option_str(current),
            text::option_str(npm_prefix),
            text::option_text(r.1),
        ),
        r.0 == r.1 is None,
{
    let dir = config::dir_of(&cfg.dsh);
    let r = source_of(as_str(&cfg.dsh), as_str(&dir), current, npm_prefix);
    assert(config::found_parent(text::option_text(dir), text::option_text(cfg.dsh)));
    r
}

fn as_str(s: &Option<String>) -> (r: Option<&str>)
    ensures
        text::option_str(r) == text::option_text(*s),
{
    match s {
        Some(t) => Some(t.as_str()),
        None => None,
    }
}

/// Whether a switch reaches the installation in use, and why not. `dsh` is the configured
/// path and `dsh_dir` its directory.
pub fn source_of(
    dsh: Option<&str>,
    dsh_dir: Option<&str>,
    current: Option<&str>,
    npm_prefix: Option<&str>,
) -> (r: (bool, Option<String>))
    ensures
        text::option_text(r.1) == source_fault(
            text::option_str(dsh),
            text::option_str(dsh_dir),
            text::option_str(current),
            text::option_str(npm_prefix),
        ),
        r.0 == r.1 is None,
{
    let prefix: &str = match npm_prefix {
        Some(p) => p,
        None => {
            return (
                false,
                Some(
                    text::copy("问不出 npm 全局目录（`npm prefix -g` 失败），无法确认要更新的那一份"),
                ),
            );
        },
    };
    if current.is_none() {
        return (
            false,
            Some(
                text::cat3(
                    "npm 全局里没有 ",
                    DSH_PACKAGE,
                    " —— 当前这份可能是 pnpm / npx / 手动指定的，直接更新会装出第二份 DShell 不会启动的 dsh",
                ),
            ),
        );
    }
    match (dsh, dsh_dir) {
        (Some(path), Some(dir)) => {
            if !same_dir(dir, prefix) {
                return (
                    false,
                    Some(
                        text::cat5(
                            "配置里的 dsh（",
                            path,
                            "）不在 npm 全局目录（",
                            prefix,
                            "）下，更新它只会装出第二份",
                        ),
                    ),
                );
            }
        },
        _ => {},
    }
    (true, None)
}

/// npm's global directory, from its answer.
pub fn prefix_of(answer: Result<String, String>) -> (r: Option<String>)
    ensures
        text::option_text(r) == (match answer {
            Ok(s) => if text::trimmed(s@).len() > 0 {
                Some(text::trimmed(s@))
            } else {
                None
            },
            Err(_) => None,
        }),
{
    match answer {
        Ok(s) => {
            let t = text::trim_text(s.as_str());
            if t.as_str().is_empty() {
                None
            } else {
                Some(t)
            }
        },
        Err(_) => None,
    }
}

// ───────────────────────── the ledger ─────────────────────────

/// The first text of a list that writes a version.
pub open spec fn first_version(v: Seq<Seq<char>>) -> Option<Seq<char>>
    decreases v.len(),
{
    if v.len() == 0 {
        None
    } else if version::parsed(v[0]) is Some {
        Some(v[0])
    } else {
        first_version(v.drop_first())
    }
}

/// How a version is shown.
pub open spec fn shown(
    item: VItem,
    v: Seq<char>,
    reg: RegistryCache,
    current: Option<Seq<char>>,
) -> bool {
    &&& item.version@ == v
    &&& text::texts(item.tags@) == tagged(reg.tags@, v)
    &&& item.current == (current == Some(v))
    &&& item.older == (current is Some && version::parsed(v) is Some && version::parsed(current->0)
        is Some && version::older(version::parsed(v)->0, version::parsed(current->0)->0))
    &&& text::option_text(item.published) == timed(reg.times@, v)
}

/// The versions of a list of items.
pub open spec fn item_versions(items: Seq<VItem>) -> Seq<Seq<char>> {
    items.map_values(|i: VItem| i.version@)
}

fn item_for(v: &str, reg: &RegistryCache, current: &Option<String>) -> (r: VItem)
    ensures
        shown(r, v@, *reg, text::option_text(*current)),
{
    let tags: Vec<String> = match table::lookup(&reg.tags, v) {
        Some(t) => text::copies(t.as_slice()),
        None => {
            let none: Vec<String> = Vec::new();
            assert(text::texts(none@) =~= seq![]);
            none
        },
    };
    let is_current = match current {
        Some(c) => text::same(c.as_str(), v),
        None => false,
    };
    let older = match current {
        Some(c) => version::is_older(v, c.as_str()),
        None => false,
    };
    let published = match table::lookup(&reg.times, v) {
        Some(t) => Some(text::copy(t.as_str())),
        None => None,
    };
    VItem { version: text::copy(v), tags, current: is_current, older, published }
}

/// The ledger: the registry's half as it is at hand, and the local half as it is at this
/// moment.
pub open spec fn is_catalog(
    c: Catalog,
    reg: RegistryCache,
    stale: bool,
    current: Option<Seq<char>>,
    npm_prefix: Option<Seq<char>>,
    now_ms: u64,
) -> bool {
    &&& text::option_text(c.current) == current
    &&& text::option_text(c.npm_prefix) == npm_prefix
    &&& c.registry@ == reg.registry@
    &&& c.registry_age_secs == Some((reg.age(now_ms) / 1000) as u64)
    &&& c.registry_stale == stale
    &&& c.npm_global == c.source_note is None
    &&& item_versions(c.versions@).to_multiset() == text::texts(reg.versions@).to_multiset()
    &&& ordered(item_versions(c.versions@))
    &&& forall|i: int|
        0 <= i < c.versions.len() ==> shown(
            #[trigger] c.versions@[i],
            c.versions@[i].version@,
            reg,
            current,
        )
    &&& text::option_text(c.latest) == first_version(item_versions(c.versions@))
}

/// Puts the ledger together.
pub fn catalog(
    reg: &RegistryCache,
    stale: bool,
    current: Option<String>,
    npm_prefix: Option<String>,
    cfg: &Config,
    now_ms: u64,
) -> (r: Catalog)
    ensures
        is_catalog(
            r,
            *reg,
            stale,
            text::option_text(current),
            text::option_text(npm_prefix),
            now_ms,
        ),
        source_judged(
            *cfg,
            text::option_text(current),
            text::option_text(npm_prefix),
            text::option_text(r.source_note),
        ),
{
    let (_, fault) = source_check(cfg, as_str(&current), as_str(&npm_prefix));
    catalog_with(reg, stale, current, npm_prefix, fault, now_ms)
}

/// Puts the ledger together, with why a switch would not reach the installation in use.
pub fn catalog_with(
    reg: &RegistryCache,
    stale: bool,
    current: Option<String>,
    npm_prefix: Option<String>,
    fault: Option<String>,
    now_ms: u64,
) -> (r: Catalog)
    ensures
        is_catalog(
            r,
            *reg,
            stale,
            text::option_text(current),
            text::option_text(npm_prefix),
            now_ms,
        ),
        text::option_text(r.source_note) == text::option_text(fault),
{
    let sorted = sort_desc(text::copies(reg.versions.as_slice()));
    let ghost list = text::texts(sorted@);
    let mut versions: Vec<VItem> = Vec::new();
    let mut latest: Option<String> = None;
    let mut i: usize = 0;
    assert(list.skip(0) =~= list);
    while i < sorted.len()
        invariant
            i <= sorted.len(),
            list == text::texts(sorted@),
            item_versions(versions@) == list.take(i as int),
            forall|k: int|
                0 <= k < versions.len() ==> shown(
                    #[trigger] versions@[k],
                    versions@[k].version@,
                    *reg,
                    text::option_text(current),
                ),
            latest is None ==> first_version(list) == first_version(list.skip(i as int)),
            latest matches Some(l) ==> first_version(list) == Some(l@),
        decreases sorted.len() - i,
    {
        let ghost before = versions@;
        let ghost rest = list.skip(i as int);
        assert(rest[0] == sorted@[i as int]@);
        assert(rest.drop_first() =~= list.skip(i + 1));
        if latest.is_none() && version::is_version(sorted[i].as_str()) {
            latest = Some(text::copy(sorted[i].as_str()));
        }
        versions.push(item_for(sorted[i].as_str(), reg, &current));
        i = i + 1;
        assert(item_versions(versions@) =~= item_versions(before).push(rest[0]));
        assert(list.take(i as int) =~= list.take(i - 1).push(rest[0]));
        assert(item_versions(versions@) =~= list.take(i as int));
    }
    assert(list.take(i as int) =~= list);
    Catalog {
        latest,
        registry: text::copy(reg.registry.as_str()),
        registry_age_secs: Some(reg.age_ms(now_ms) / 1000),
        registry_stale: stale,
        npm_global: fault.is_none(),
        source_note: fault,
        versions,
        current,
        npm_prefix,
    }
}

proof fn lemma_first_version(v: Seq<Seq<char>>)
    ensures
        first_version(v) matches Some(l) ==> exists|k: int|
            0 <= k < v.len() && #[trigger] v[k] == l && forall|j: int|
                0 <= j < k ==> version::parsed(#[trigger] v[j]) is None,
        first_version(v) matches Some(l) ==> version::parsed(l) is Some,
        first_version(v) is None ==> forall|k: int|
            0 <= k < v.len() ==> version::parsed(#[trigger] v[k]) is None,
    decreases v.len(),
{
    if v.len() > 0 && version::parsed(v[0]) is None {
        let w = v.drop_first();
        lemma_first_version(w);
        match first_version(w) {
            Some(l) => {
                let k = choose|k: int|
                    0 <= k < w.len() && #[trigger] w[k] == l && forall|j: int|
                        0 <= j < k ==> version::parsed(#[trigger] w[j]) is None;
                assert(v[k + 1] == l);
                assert forall|j: int| 0 <= j < k + 1 implies version::parsed(
                    #[trigger] v[j],
                ) is None by {
                    if j > 0 {
                        assert(v[j] == w[j - 1]);
                    }
                }
            },
            None => {
                assert forall|k: int| 0 <= k < v.len() implies version::parsed(
                    #[trigger] v[k],
                ) is None by {
                    if k > 0 {
                        assert(v[k] == w[k - 1]);
                    }
                }
            },
        }
    }
}

/// The latest version of an ordered ledger is one of its versions, and none is newer.
pub proof fn law_latest_is_greatest(v: Seq<Seq<char>>, w: Seq<char>)
    requires
        ordered(v),
        v.contains(w),
        version::parsed(w) is Some,
    ensures
        first_version(v) matches Some(l) && v.contains(l) && version::parsed(l) is Some
            && !version::older(version::parsed(l)->0, version::parsed(w)->0),
{
    lemma_first_version(v);
    let i = choose|i: int| 0 <= i < v.len() && v[i] == w;
    match first_version(v) {
        Some(l) => {
            let k = choose|k: int|
                0 <= k < v.len() && #[trigger] v[k] == l && forall|j: int|
                    0 <= j < k ==> version::parsed(#[trigger] v[j]) is None;
            if k < i {
                assert(!precedes(v[i], v[k]));
            } else if i < k {
                assert(version::parsed(v[i]) is None);
            } else {
                version::lemma_lex_irreflexive(version::key(version::parsed(l)->0));
            }
        },
        None => {
            assert(version::parsed(v[i]) is None);
        },
    }
}

/// The tags of a version are sorted.
pub proof fn law_tags_are_sorted(members: Seq<(Seq<char>, Tree)>, v: Seq<char>)
    ensures
        forall|i: int, j: int|
            0 <= i < j < tags_at(members, v).len() ==> !version::text_before(
                #[trigger] tags_at(members, v)[j],
                #[trigger] tags_at(members, v)[i],
            ),
    decreases members.len(),
{
    if members.len() > 0 {
        let less = tags_at(members.drop_last(), v);
        law_tags_are_sorted(members.drop_last(), v);
        lemma_put_sorted(less, members.last().0);
    }
}

spec fn sorted_texts(v: Seq<Seq<char>>) -> bool {
    forall|i: int, j: int|
        0 <= i < j < v.len() ==> !version::text_before(#[trigger] v[j], #[trigger] v[i])
}

proof fn lemma_put_sorted(v: Seq<Seq<char>>, s: Seq<char>)
    requires
        sorted_texts(v),
    ensures
        sorted_texts(put_sorted(v, s)),
        forall|k: int|
            0 <= k < put_sorted(v, s).len() ==> #[trigger] put_sorted(v, s)[k] == s || v.contains(
                put_sorted(v, s)[k],
            ),
    decreases v.len(),
{
    let r = put_sorted(v, s);
    if v.len() > 0 && version::text_before(s, v.last()) {
        let less = v.drop_last();
        let q = put_sorted(less, s);
        assert(sorted_texts(less));
        lemma_put_sorted(less, s);
        assert forall|i: int, j: int| 0 <= i < j < r.len() implies !version::text_before(
            #[trigger] r[j],
            #[trigger] r[i],
        ) by {
            if j < q.len() {
                assert(r[i] == q[i] && r[j] == q[j]);
            } else {
                assert(r[j] == v.last());
                assert(r[i] == q[i]);
                if q[i] == s {
                    if version::text_before(v.last(), s) {
                        version::lemma_lex_transitive(
                            version::codes(s),
                            version::codes(v.last()),
                            version::codes(s),
                        );
                        version::lemma_lex_irreflexive(version::codes(s));
                    }
                } else {
                    let k = choose|k: int| 0 <= k < less.len() && less[k] == q[i];
                    assert(v[k] == less[k]);
                    assert(!version::text_before(v[v.len() - 1], v[k]));
                }
            }
        }
        assert forall|k: int| 0 <= k < r.len() implies #[trigger] r[k] == s || v.contains(r[k]) by {
            if k < q.len() {
                assert(r[k] == q[k]);
                if q[k] != s {
                    let m = choose|m: int| 0 <= m < less.len() && less[m] == q[k];
                    assert(v[m] == less[m]);
                }
            } else {
                assert(r[k] == v[v.len() - 1]);
            }
        }
    } else {
        assert forall|i: int, j: int| 0 <= i < j < r.len() implies !version::text_before(
            #[trigger] r[j],
            #[trigger] r[i],
        ) by {
            if j < v.len() {
                assert(r[i] == v[i] && r[j] == v[j]);
            } else {
                assert(r[j] == s && r[i] == v[i]);
                let last = v[v.len() - 1];
                if i < v.len() - 1 {
                    assert(!version::text_before(last, v[i]));
                }
                version::lemma_lex_irreflexive(version::codes(last));
                lemma_lex_weak(version::codes(v[i]), version::codes(last), version::codes(s));
            }
        }
        assert forall|k: int| 0 <= k < r.len() implies #[trigger] r[k] == s || v.contains(r[k]) by {
            if k < v.len() {
                assert(r[k] == v[k]);
            }
        }
    }
}

// ───────────────────────── the window of a downgrade ─────────────────────────

/// The script that finds the middle of two times with node, which reads them as npm does.
pub const MIDPOINT_JS: &'static str =
    "const a=Date.parse(process.argv[1]),b=Date.parse(process.argv[2]);if(!isFinite(a)||!isFinite(b)){process.exit(2)}process.stdout.write(new Date((a+b)/2).toISOString());";

/// `t` is the next time after `from` at which something was published.
pub open spec fn next_after(times: Seq<(String, String)>, from: Seq<char>, t: Seq<char>) -> bool {
    &&& exists|i: int| 0 <= i < times.len() && (#[trigger] times[i]).1@ == t
    &&& version::text_before(from, t)
    &&& forall|i: int|
        0 <= i < times.len() && version::text_before(from, (#[trigger] times[i]).1@)
            ==> !version::text_before(times[i].1@, t)
}

/// Something was published after `from`.
pub open spec fn has_next(times: Seq<(String, String)>, from: Seq<char>) -> bool {
    exists|i: int| 0 <= i < times.len() && version::text_before(from, (#[trigger] times[i]).1@)
}

/// The window that an installation of `target` is resolved in: from the time it was published
/// to the next time that something was. The packages of one release are not published at one
/// moment, so it takes a moment between two releases to find exactly those of `target`.
///
/// There is none where the time of `target` is not known, and where nothing was published
/// since: then nothing newer can be picked by mistake.
pub fn resolve_before(target: &str, times: &Vec<(String, String)>) -> (r: Option<(String, String)>)
    ensures
        match timed(times@, target@) {
            None => r is None,
            Some(from) => if has_next(times@, from) {
                r matches Some(w) && w.0@ == from && next_after(times@, from, w.1@)
            } else {
                r is None
            },
        },
{
    let from = match table::lookup(times, target) {
        Some(t) => t,
        None => {
            return None;
        },
    };
    let mut at: Option<usize> = None;
    let mut i: usize = 0;
    while i < times.len()
        invariant
            i <= times.len(),
            at is None ==> forall|k: int|
                0 <= k < i ==> !version::text_before(from@, (#[trigger] times@[k]).1@),
            at matches Some(n) ==> n < i && version::text_before(from@, times@[n as int].1@)
                && forall|k: int|
                0 <= k < i && version::text_before(from@, (#[trigger] times@[k]).1@)
                    ==> !version::text_before(times@[k].1@, times@[n as int].1@),
        decreases times.len() - i,
    {
        if version::comes_before(from.as_str(), times[i].1.as_str()) {
            match at {
                None => {
                    proof {
                        version::lemma_lex_irreflexive(version::codes(times@[i as int].1@));
                    }
                    at = Some(i);
                },
                Some(n) => {
                    if version::comes_before(times[i].1.as_str(), times[n].1.as_str()) {
                        let ghost old_best = times@[n as int].1@;
                        let ghost new_best = times@[i as int].1@;
                        proof {
                            version::lemma_lex_irreflexive(version::codes(new_best));
                            assert forall|k: int|
                                0 <= k < i + 1 && version::text_before(
                                    from@,
                                    (#[trigger] times@[k]).1@,
                                ) implies !version::text_before(times@[k].1@, new_best) by {
                                if k < i && version::text_before(times@[k].1@, new_best) {
                                    version::lemma_lex_transitive(
                                        version::codes(times@[k].1@),
                                        version::codes(new_best),
                                        version::codes(old_best),
                                    );
                                }
                            }
                        }
                        at = Some(i);
                    }
                },
            }
        }
        i = i + 1;
    }
    match at {
        None => None,
        Some(n) => {
            assert(times@[n as int].1@ == times@[n as int].1@);
            Some((text::copy(from.as_str()), text::copy(times[n].1.as_str())))
        },
    }
}

/// The command that finds the middle of two times, with the node that the user named, if any.
pub fn midpoint_query(node: Option<&str>, t0: &str, t1: &str) -> (r: Launch)
    ensures
        ({
            let exe = match node {
                Some(n) => n@,
                None => "node"@,
            };
            proc::launches(
                r,
                proc::real_program(exe),
                proc::real_args(exe, seq!["-e"@, MIDPOINT_JS@, t0@, t1@]),
                None,
                15_000,
            )
        }),
{
    let exe: &str = match node {
        Some(n) => n,
        None => "node",
    };
    let args: [&str; 4] = ["-e", MIDPOINT_JS, t0, t1];
    let r = proc::run_path(exe, args.as_slice(), 15_000);
    assert(text::slices(args@) =~= seq!["-e"@, MIDPOINT_JS@, t0@, t1@]);
    r
}

/// The middle of two times, from what the command said, or why it is not known.
pub fn midpoint(ran: Result<Output, String>) -> (r: Result<String, String>)
    requires
        ran matches Ok(out) ==> out.succeeded() || out.can_diagnose(),
    ensures
        match ran {
            Err(why) => r matches Err(e) && e@ == "无法执行 node："@ + why@,
            Ok(out) => if !out.succeeded() {
                r matches Err(e) && e@ == out.diagnosis()
            } else {
                let t = text::trimmed(out.stdout@);
                if t.contains('T') {
                    r matches Ok(s) && s@ == t
                } else {
                    r matches Err(e) && e@ == "node 没有给出可用的时间："@ + t
                }
            },
        },
{
    match ran {
        Err(why) => Err(text::cat2("无法执行 node：", why.as_str())),
        Ok(out) => {
            if !out.ok() {
                return Err(out.diagnose());
            }
            let t = text::trim_text(out.stdout.as_str());
            let v = text::chars(t.as_str());
            if text::has_char(v.as_slice(), 'T') {
                Ok(t)
            } else {
                Err(text::cat2("node 没有给出可用的时间：", t.as_str()))
            }
        },
    }
}

/// The newest version needs no window.
pub proof fn law_newest_needs_no_window(times: Seq<(String, String)>, from: Seq<char>)
    requires
        forall|i: int|
            0 <= i < times.len() ==> !version::text_before(from, (#[trigger] times[i]).1@),
    ensures
        !has_next(times, from),
{
}

/// Nothing was published inside a window.
pub proof fn law_window_is_between_releases(
    times: Seq<(String, String)>,
    from: Seq<char>,
    upto: Seq<char>,
    i: int,
)
    requires
        next_after(times, from, upto),
        0 <= i < times.len(),
    ensures
        !(version::text_before(from, times[i].1@) && version::text_before(times[i].1@, upto)),
{
}

/// Every text in the registry's list is read, in the order of the list and nothing else: a
/// list of texts alone is read one for one.
pub proof fn law_every_listed_version_is_read(items: Seq<Tree>, more: Seq<Tree>, i: int)
    requires
        0 <= i < items.len(),
    ensures
        items[i] matches Tree::Str(s) ==> strings_in(items).contains(s),
        (forall|k: int| 0 <= k < items.len() ==> #[trigger] items[k] is Str) ==> strings_in(
            items,
        ).len() == items.len() && Tree::Str(strings_in(items)[i]) == items[i],
        strings_in(items + more) == strings_in(items) + strings_in(more),
        forall|s: Seq<char>| #[trigger]
            strings_in(items).contains(s) ==> items.contains(Tree::Str(s)),
{
    lemma_strings_add(items, more);
    let head = items.take(i);
    let tail = items.skip(i);
    lemma_strings_add(head, tail);
    assert(head + tail =~= items);
    let rest = items.skip(i + 1);
    assert(tail =~= seq![items[i]] + rest);
    lemma_strings_add(seq![items[i]], rest);
    assert(seq![items[i]].drop_last() =~= Seq::<Tree>::empty());
    assert(seq![items[i]].last() == items[i]);
    assert(strings_in(Seq::<Tree>::empty()) =~= Seq::<Seq<char>>::empty());
    if let Tree::Str(s) = items[i] {
        assert(strings_in(seq![items[i]]) =~= seq![s]);
        let n = strings_in(head).len() as int;
        assert(strings_in(items) =~= strings_in(head) + (seq![s] + strings_in(rest)));
        assert(strings_in(items)[n] == s);
    }
    if forall|k: int| 0 <= k < items.len() ==> #[trigger] items[k] is Str {
        lemma_strings_all(items);
        assert(items[i] is Str);
    }
    assert forall|s: Seq<char>| #[trigger] strings_in(items).contains(s) implies items.contains(
        Tree::Str(s),
    ) by {
        lemma_strings_only(items, s);
    }
}

proof fn lemma_strings_add(a: Seq<Tree>, b: Seq<Tree>)
    ensures
        strings_in(a + b) == strings_in(a) + strings_in(b),
    decreases b.len(),
{
    if b.len() == 0 {
        assert(a + b =~= a);
    } else {
        assert((a + b).drop_last() =~= a + b.drop_last());
        assert((a + b).last() == b.last());
        lemma_strings_add(a, b.drop_last());
    }
}

proof fn lemma_strings_all(items: Seq<Tree>)
    requires
        forall|k: int| 0 <= k < items.len() ==> #[trigger] items[k] is Str,
    ensures
        strings_in(items).len() == items.len(),
        forall|k: int|
            0 <= k < items.len() ==> Tree::Str(strings_in(items)[k]) == #[trigger] items[k],
    decreases items.len(),
{
    if items.len() > 0 {
        let rest = items.drop_last();
        assert forall|k: int| 0 <= k < rest.len() implies #[trigger] rest[k] is Str by {
            assert(rest[k] == items[k]);
        }
        lemma_strings_all(rest);
        assert(items[items.len() - 1] is Str);
        assert forall|k: int| 0 <= k < items.len() implies Tree::Str(strings_in(items)[k])
            == #[trigger] items[k] by {
            if k < rest.len() {
                assert(rest[k] == items[k]);
            }
        }
    }
}

proof fn lemma_strings_only(items: Seq<Tree>, s: Seq<char>)
    requires
        strings_in(items).contains(s),
    ensures
        items.contains(Tree::Str(s)),
    decreases items.len(),
{
    if items.len() > 0 {
        let rest = items.drop_last();
        let k = choose|k: int| 0 <= k < strings_in(items).len() && strings_in(items)[k] == s;
        if k < strings_in(rest).len() {
            assert(strings_in(rest)[k] == s);
            lemma_strings_only(rest, s);
            let j = choose|j: int| 0 <= j < rest.len() && rest[j] == Tree::Str(s);
            assert(items[j] == Tree::Str(s));
        } else {
            assert(items[items.len() - 1] == Tree::Str(s));
        }
    }
}

/// A list of texts is answered by those texts; an answer that is no list has no versions.
pub proof fn law_answered_list_is_the_versions(raw: &str, r: Option<Vec<String>>)
    requires
        call_ensures(parse_versions, (raw,), r),
    ensures
        r is Some <==> (json::json_read(raw@) matches Ok(t) && t is Arr),
        json::json_read(raw@) matches Ok(Tree::Arr(items)) ==> {
            &&& forall|k: int|
                0 <= k < items.len() && (#[trigger] items[k]) is Str ==> text::texts(
                    r->Some_0@,
                ).contains(items[k]->Str_0)
            &&& (forall|k: int| 0 <= k < items.len() ==> (#[trigger] items[k]) is Str) ==> r
                ->Some_0@.len() == items.len()
        },
{
    if let Ok(Tree::Arr(items)) = json::json_read(raw@) {
        assert forall|k: int| 0 <= k < items.len() && (#[trigger] items[k])
            is Str implies text::texts(r->Some_0@).contains(items[k]->Str_0) by {
            law_every_listed_version_is_read(items, Seq::empty(), k);
        }
        if forall|k: int| 0 <= k < items.len() ==> (#[trigger] items[k]) is Str {
            lemma_strings_all(items);
            assert(text::texts(r->Some_0@).len() == r->Some_0@.len());
        }
    }
}

/// The installed version is the one that npm's answer names for the package, and there is none
/// where the answer does not name one.
pub proof fn law_installed_version_is_the_named_one(
    raw: &str,
    package: &str,
    deps: Tree,
    dep: Tree,
    v: Seq<char>,
    r: Option<String>,
)
    requires
        call_ensures(parse_installed, (raw, package), r),
    ensures
        json::json_read(raw@) is Ok && json::get(json::json_read(raw@)->Ok_0, "dependencies"@)
            == Some(deps) && json::get(deps, package@) == Some(dep) && json::get(dep, "version"@)
            == Some(Tree::Str(v)) ==> text::option_text(r) == Some(v),
        json::json_read(raw@) is Err ==> r is None,
        r is Some ==> json::get_in(
            json::get_in(
                json::get(json::json_read(raw@)->Ok_0, "dependencies"@),
                package@,
            ),
            "version"@,
        ) == Some(Tree::Str(r->Some_0@)),
{
}

/// A time is taken from the registry where it belongs to a version and is written as a
/// timestamp: at least 20 bytes, with a `T`, up to a `Z`. The last one of a version counts.
pub proof fn law_times_belong_to_versions(
    members: Seq<(Seq<char>, Tree)>,
    v: Seq<char>,
    w: Seq<char>,
    x: Tree,
)
    ensures
        time_at(Seq::<(Seq<char>, Tree)>::empty(), v) is None,
        version::parsed(v) is Some && (x matches Tree::Str(t) && text::utf8_len(t) >= 20
            && t.contains('T') && t.last() == 'Z') ==> time_at(members.push((v, x)), v) == Some(
            x->Str_0,
        ),
        w != v ==> time_at(members.push((w, x)), v) == time_at(members, v),
        version::parsed(w) is None || !(x is Str) || text::utf8_len(x->Str_0) < 20
            || !x->Str_0.contains('T') || x->Str_0.last() != 'Z' ==> time_at(
            members.push((w, x)),
            v,
        ) == time_at(members, v),
{
    assert(members.push((v, x)).drop_last() =~= members);
    assert(members.push((w, x)).drop_last() =~= members);
    if let Tree::Str(t) = x {
        if t.len() == 0 {
            assert(text::utf8_len(t) == 0);
        }
    }
}

/// Every tag is shown at the version that it points at, and at no other.
pub proof fn law_tags_stand_at_their_version(
    members: Seq<(Seq<char>, Tree)>,
    tag: Seq<char>,
    v: Seq<char>,
    x: Tree,
)
    ensures
        tags_at(Seq::<(Seq<char>, Tree)>::empty(), v) == Seq::<Seq<char>>::empty(),
        x == Tree::Str(v) ==> tags_at(members.push((tag, x)), v).to_multiset() == tags_at(
            members,
            v,
        ).to_multiset().insert(tag),
        x != Tree::Str(v) ==> tags_at(members.push((tag, x)), v) == tags_at(members, v),
{
    assert(members.push((tag, x)).drop_last() =~= members);
    if x == Tree::Str(v) {
        lemma_put_multiset(tags_at(members, v), tag);
    }
}

proof fn lemma_put_multiset(v: Seq<Seq<char>>, s: Seq<char>)
    ensures
        put_sorted(v, s).to_multiset() == v.to_multiset().insert(s),
    decreases v.len(),
{
    broadcast use vstd::seq_lib::group_to_multiset_ensures;

    if v.len() > 0 && version::text_before(s, v.last()) {
        lemma_put_multiset(v.drop_last(), s);
        assert(v =~= v.drop_last().push(v.last()));
        assert(v.drop_last().to_multiset().insert(s).insert(v.last())
            =~= v.drop_last().to_multiset().insert(v.last()).insert(s));
    }
}

/// What was kept is shown at once unless a fresh answer is asked for, and is asked for again
/// once it is two hours old; where nothing was kept the registry is asked.
pub proof fn law_kept_ledger_lasts_two_hours(
    force: bool,
    cache: Option<RegistryCache>,
    now_ms: u64,
    r: Source,
)
    requires
        call_ensures(registry_at_hand, (force, cache, now_ms), r),
    ensures
        r is Ask <==> force || cache is None || cache->Some_0.versions@.len() == 0,
        r matches Source::Kept { cache: c, stale } ==> Some(c) == cache && (stale <==> now_ms
            - c.fetched_at_ms >= 2 * 60 * 60 * 1000),
{
}

/// A new answer is dated now, has the versions that were read, and keeps the times that were
/// known; one without a version is a failure that says so.
pub proof fn law_new_ledger_keeps_the_times(
    versions: Option<Vec<String>>,
    tags: Option<Vec<(String, Vec<String>)>>,
    registry: Option<String>,
    cache: Option<RegistryCache>,
    now_ms: u64,
    r: Result<RegistryCache, String>,
)
    requires
        call_ensures(registry_from, (versions, tags, registry, cache, now_ms), r),
    ensures
        r is Ok <==> versions is Some && versions->Some_0@.len() > 0,
        r matches Ok(c) ==> {
            &&& c.versions == versions->Some_0
            &&& c.fetched_at_ms == now_ms
            &&& tags matches Some(t) ==> c.tags@ == t@
            &&& tags is None ==> c.tags@.len() == 0
            &&& registry matches Some(g) ==> c.registry@ == text::trimmed(g@)
            &&& (cache matches Some(k) && k.versions@.len() > 0) ==> c.times
                == cache->Some_0.times && c.times_seen == cache->Some_0.times_seen
            &&& (cache is None || cache->Some_0.versions@.len() == 0) ==> c.times@.len() == 0
        },
{
}

/// Times that were fetched are those that are at hand afterwards, as long as no version came
/// or went; nothing else of what was kept changes.
pub proof fn law_fetched_times_are_at_hand(
    reg: RegistryCache,
    times: Vec<(String, String)>,
    taken: RegistryCache,
    remembered: RegistryCache,
    cache: Option<RegistryCache>,
    r: Option<Vec<(String, String)>>,
)
    requires
        reg.versions@.len() > 0,
        times@.len() > 0,
        call_ensures(take_times, (reg, Some(times)), taken),
        call_ensures(remember_times, (Some(reg), times), remembered),
        cache == Some(taken) || cache == Some(remembered),
        call_ensures(version_times, (cache,), r),
    ensures
        r == Some(times),
        taken.versions == reg.versions && taken.tags == reg.tags && taken.registry == reg.registry
            && taken.fetched_at_ms == reg.fetched_at_ms,
        remembered.versions == reg.versions && remembered.tags == reg.tags && remembered.registry
            == reg.registry && remembered.fetched_at_ms == reg.fetched_at_ms,
{
}

/// Times that could not be fetched leave what was kept as it is.
pub proof fn law_unfetched_times_change_nothing(reg: RegistryCache, r: RegistryCache)
    requires
        call_ensures(take_times, (reg, None::<Vec<(String, String)>>), r),
    ensures
        r.times == reg.times && r.times_seen == reg.times_seen && r.versions == reg.versions
            && r.tags == reg.tags && r.registry == reg.registry && r.fetched_at_ms
            == reg.fetched_at_ms,
{
}

/// Times that were fetched for another number of versions are not used.
pub proof fn law_times_of_other_versions_are_not_used(
    cache: RegistryCache,
    r: Option<Vec<(String, String)>>,
)
    requires
        call_ensures(version_times, (Some(cache),), r),
    ensures
        r is Some <==> cache.versions@.len() > 0 && cache.times@.len() > 0 && cache.times_seen
            == cache.versions@.len(),
        r matches Some(t) ==> t == cache.times,
{
}

/// The newer of two versions goes first; what writes no version goes behind all that do.
pub proof fn law_newer_versions_go_first(v: Vec<String>, r: Vec<String>, i: int, j: int)
    requires
        call_ensures(sort_desc, (v,), r),
        0 <= i < r@.len(),
        0 <= j < r@.len(),
    ensures
        text::texts(r@).to_multiset() == text::texts(v@).to_multiset(),
        r@.len() == v@.len(),
        version::parsed(r@[i]@) is Some && version::parsed(r@[j]@) is Some && version::older(
            version::parsed(r@[j]@)->Some_0,
            version::parsed(r@[i]@)->Some_0,
        ) ==> i < j,
        version::parsed(r@[i]@) is Some && version::parsed(r@[j]@) is None ==> i < j,
        version::parsed(r@[i]@) is None && version::parsed(r@[j]@) is None && version::text_before(
            r@[i]@,
            r@[j]@,
        ) ==> i < j,
{
    broadcast use vstd::seq_lib::group_to_multiset_ensures;

    let t = text::texts(r@);
    assert(t.len() == t.to_multiset().len());
    assert(text::texts(v@).len() == text::texts(v@).to_multiset().len());
    assert(t[i] == r@[i]@ && t[j] == r@[j]@);
    if precedes(t[i], t[j]) && j <= i {
        lemma_precedes_asymmetric(t[i], t[j]);
        if j < i {
            assert(!precedes(t[i], t[j]));
        }
    }
}

proof fn lemma_unslashed_end(s: Seq<char>, k: Seq<char>)
    requires
        forall|i: int| 0 <= i < k.len() ==> #[trigger] k[i] == '\\',
    ensures
        unslashed(s + k) == unslashed(s),
    decreases k.len(),
{
    if k.len() == 0 {
        assert(s + k =~= s);
    } else {
        assert((s + k).drop_last() =~= s + k.drop_last());
        assert((s + k).last() == k[k.len() - 1]);
        lemma_unslashed_end(s, k.drop_last());
    }
}

/// Two directories are the same however they are cased, with either slash, and with slashes at
/// their ends or not. Written in lower case, with backslashes and without one at the end, they
/// are the same only where they are written alike.
#[verifier::rlimit(50)]
pub proof fn law_directories_are_compared_as_the_system_does(
    a: Seq<char>,
    b: Seq<char>,
    i: int,
)
    requires
        0 <= i < a.len(),
    ensures
        dir_key(a.push('\\')) == dir_key(a) && dir_key(a.push('/')) == dir_key(a),
        dir_key(a.update(i, '/')) == dir_key(a.update(i, '\\')),
        'A' <= a[i] <= 'Z' ==> dir_key(a.update(i, ((a[i] as u32) + 32) as char)) == dir_key(a),
        lower_backslashed(a) && lower_backslashed(b) && dir_key(a) == dir_key(b) ==> a == b,
{
    let f = |c: char|
        if c == '/' {
            '\\'
        } else {
            c
        };
    let m = a.map_values(f);
    assert(a.push('\\').map_values(f) =~= m + seq!['\\']);
    assert(a.push('/').map_values(f) =~= m + seq!['\\']);
    lemma_unslashed_end(m, seq!['\\']);
    assert(a.update(i, '/').map_values(f) =~= a.update(i, '\\').map_values(f));
    if 'A' <= a[i] <= 'Z' {
        let c = ((a[i] as u32) + 32) as char;
        lemma_unslashed_case(m, m.update(i, c), i);
        assert(a.update(i, c).map_values(f) =~= m.update(i, c));
    }
    if lower_backslashed(a) && lower_backslashed(b) {
        lemma_plain_dir(a);
        lemma_plain_dir(b);
    }
}

/// A directory in lower case, with backslashes and without one at its end.
pub open spec fn lower_backslashed(s: Seq<char>) -> bool {
    &&& forall|i: int| 0 <= i < s.len() ==> #[trigger] s[i] != '/' && !('A' <= s[i] <= 'Z')
    &&& s.len() > 0 ==> s[s.len() - 1] != '\\'
}

proof fn lemma_plain_dir(s: Seq<char>)
    requires
        lower_backslashed(s),
    ensures
        dir_key(s) == s,
{
    let f = |c: char|
        if c == '/' {
            '\\'
        } else {
            c
        };
    assert(s.map_values(f) =~= s);
    assert(text::lower(s) =~= s);
}

proof fn lemma_unslashed_case(s: Seq<char>, t: Seq<char>, i: int)
    requires
        0 <= i < s.len(),
        'A' <= s[i] <= 'Z',
        t == s.update(i, ((s[i] as u32) + 32) as char),
    ensures
        text::lower(unslashed(s)) == text::lower(unslashed(t)),
    decreases s.len(),
{
    if s.last() == '\\' {
        assert(t.last() == '\\');
        assert(t.drop_last() =~= s.drop_last().update(i, ((s[i] as u32) + 32) as char));
        lemma_unslashed_case(s.drop_last(), t.drop_last(), i);
    } else {
        assert(t.last() != '\\');
        assert(text::lower(s) =~= text::lower(t));
    }
}

/// A switch reaches the dsh in use exactly where npm's global directory is known, has dsh
/// installed, and is the directory of the configured dsh, where one is configured.
pub proof fn law_switch_reaches_the_dsh_in_use(
    dsh: Option<&str>,
    dsh_dir: Option<&str>,
    current: Option<&str>,
    npm_prefix: Option<&str>,
    same: bool,
    r: (bool, Option<String>),
)
    requires
        call_ensures(source_of, (dsh, dsh_dir, current, npm_prefix), r),
        dsh_dir is Some && npm_prefix is Some ==> call_ensures(
            same_dir,
            (dsh_dir->Some_0, npm_prefix->Some_0),
            same,
        ),
    ensures
        r.0 <==> npm_prefix is Some && current is Some && (dsh is None || dsh_dir is None || same),
        r.1 is None <==> r.0,
        npm_prefix is Some && current is Some && !r.0 ==> text::has(r.1->Some_0@, dsh->Some_0@),
{
    if npm_prefix is Some && current is Some && dsh is Some && dsh_dir is Some && !same {
        text::law_prefix_is_taken_off(
            dsh->Some_0@,
            "配置里的 dsh（"@,
            "）不在 npm 全局目录（"@ + npm_prefix->Some_0@ + "）下，更新它只会装出第二份"@,
        );
        assert(r.1->Some_0@ =~= "配置里的 dsh（"@ + dsh->Some_0@ + ("）不在 npm 全局目录（"@
            + npm_prefix->Some_0@ + "）下，更新它只会装出第二份"@));
    }
}

/// Every published version is in the ledger, once for each time it was listed, with its tags
/// and its time; the installed one is marked, and the older ones are. The latest is a version
/// that none of the others is newer than.
#[verifier::rlimit(50)]
pub proof fn law_ledger_shows_every_version(
    reg: &RegistryCache,
    stale: bool,
    current: Option<String>,
    npm_prefix: Option<String>,
    fault: Option<String>,
    now_ms: u64,
    r: Catalog,
    i: int,
)
    requires
        call_ensures(catalog_with, (reg, stale, current, npm_prefix, fault, now_ms), r),
        0 <= i < r.versions@.len(),
    ensures
        r.versions@.len() == reg.versions@.len(),
        item_versions(r.versions@).to_multiset() == text::texts(reg.versions@).to_multiset(),
        r.versions@[i].current <==> text::option_text(current) == Some(r.versions@[i].version@),
        r.versions@[i].older ==> current is Some && !r.versions@[i].current,
        r.versions@[i].older <==> current is Some && version::parsed(r.versions@[i].version@)
            is Some && version::parsed(current->Some_0@) is Some && version::older(
            version::parsed(r.versions@[i].version@)->Some_0,
            version::parsed(current->Some_0@)->Some_0,
        ),
        text::texts(r.versions@[i].tags@) == tagged(reg.tags@, r.versions@[i].version@),
        text::option_text(r.versions@[i].published) == timed(reg.times@, r.versions@[i].version@),
        version::parsed(r.versions@[i].version@) is Some ==> r.latest is Some && version::parsed(
            r.latest->Some_0@,
        ) is Some && !version::older(
            version::parsed(r.latest->Some_0@)->Some_0,
            version::parsed(r.versions@[i].version@)->Some_0,
        ),
        r.registry_stale == stale,
        r.npm_global <==> fault is None,
        text::option_text(r.current) == text::option_text(current),
        r.registry_age_secs is Some,
        now_ms >= reg.fetched_at_ms ==> r.registry_age_secs->Some_0 == (now_ms - reg.fetched_at_ms)
            / 1000,
        now_ms < reg.fetched_at_ms ==> r.registry_age_secs->Some_0 == 0,
{
    broadcast use vstd::seq_lib::group_to_multiset_ensures;

    let vs = item_versions(r.versions@);
    assert(vs.len() == vs.to_multiset().len());
    assert(text::texts(reg.versions@).len() == text::texts(reg.versions@).to_multiset().len());
    assert(shown(r.versions@[i], r.versions@[i].version@, *reg, text::option_text(current)));
    assert(vs[i] == r.versions@[i].version@);
    assert(vs.contains(vs[i]));
    if version::parsed(vs[i]) is Some {
        law_latest_is_greatest(vs, vs[i]);
        version::lemma_lex_irreflexive(version::key(version::parsed(vs[i])->Some_0));
    }
}

/// An older version is resolved as of a moment behind its own publication and before the next
/// one; the newest needs no such moment, and one whose time is not known has none.
pub proof fn law_window_opens_with_the_release(
    target: &str,
    times: &Vec<(String, String)>,
    r: Option<(String, String)>,
    k: int,
)
    requires
        call_ensures(resolve_before, (target, times), r),
        0 <= k < times@.len(),
    ensures
        r matches Some(w) ==> Some(w.0@) == timed(times@, target@) && version::text_before(
            w.0@,
            w.1@,
        ) && !(version::text_before(w.0@, times@[k].1@) && version::text_before(
            times@[k].1@,
            w.1@,
        )) && exists|i: int| 0 <= i < times@.len() && (#[trigger] times@[i]).1@ == w.1@,
        timed(times@, target@) is None ==> r is None,
        (timed(times@, target@) matches Some(from) && version::text_before(from, times@[k].1@))
            ==> r is Some,
{
}

/// The middle of the two moments is what node prints: a moment, without whitespace around it.
pub proof fn law_middle_is_what_node_prints(ran: Result<Output, String>, r: Result<String, String>)
    requires
        ran matches Ok(out) ==> out.succeeded() || out.can_diagnose(),
        call_ensures(midpoint, (ran,), r),
    ensures
        r is Ok <==> (ran matches Ok(out) && !out.timed_out && out.code == Some(0i32)
            && text::trimmed(out.stdout@).contains('T')),
        r matches Ok(s) ==> s@ == text::trimmed(ran->Ok_0.stdout@),
        ran matches Err(why) ==> text::ends(r->Err_0@, why@),
{
    if let Err(why) = ran {
        let e = r->Err_0@;
        assert(e.subrange(e.len() - why@.len(), e.len() as int) =~= why@);
    }
}

/// An answer of npm is what it printed where it ended well; else it is a failure that names
/// what was asked, or why npm could not be started.
pub proof fn law_answer_is_what_npm_prints(
    verb: &str,
    ran: Result<Output, String>,
    r: Result<String, String>,
)
    requires
        ran matches Ok(out) ==> out.succeeded() || out.can_diagnose(),
        call_ensures(npm, (verb, ran), r),
    ensures
        r is Ok <==> (ran matches Ok(out) && !out.timed_out && out.code == Some(0i32)),
        r matches Ok(s) ==> s@ == ran->Ok_0.stdout@,
        ran matches Err(why) ==> text::ends(r->Err_0@, why@),
        ran is Ok && r is Err ==> text::has(r->Err_0@, verb@) && text::ends(
            r->Err_0@,
            ran->Ok_0.diagnosis(),
        ),
{
    if r is Err {
        let e = r->Err_0@;
        match ran {
            Err(why) => {
                assert(e.subrange(e.len() - why@.len(), e.len() as int) =~= why@);
            },
            Ok(out) => {
                let d = out.diagnosis();
                assert(e.subrange(e.len() - d.len(), e.len() as int) =~= d);
                text::law_prefix_is_taken_off(verb@, "npm "@, " 失败："@ + d);
                assert(e =~= "npm "@ + verb@ + (" 失败："@ + d));
            },
        }
    }
}

/// npm's global directory is what it printed, without whitespace around it, where that is
/// anything at all.
pub proof fn law_global_directory_is_what_npm_prints(
    answer: Result<String, String>,
    r: Option<String>,
)
    requires
        call_ensures(prefix_of, (answer,), r),
    ensures
        r is Some <==> (answer matches Ok(s) && text::trimmed(s@).len() > 0),
        r matches Some(p) ==> p@ == text::trimmed(answer->Ok_0@),
{
}

/// The ledger is had from a list of versions alone: answers on the tags or on the registry that
/// failed take nothing from it. It fails where the versions were not answered, where the answer
/// is no list, or where no version is in it.
#[verifier::rlimit(50)]
pub proof fn law_versions_alone_make_the_ledger(
    versions: Result<String, String>,
    tags: Result<String, String>,
    registry: Result<String, String>,
    cache: Option<RegistryCache>,
    now_ms: u64,
    r: Result<RegistryCache, String>,
    again: Result<RegistryCache, String>,
)
    requires
        call_ensures(fetch_registry, (versions, tags, registry, cache, now_ms), r),
        call_ensures(refresh_registry, (versions, tags, registry, cache, now_ms), again),
    ensures
        r is Ok <==> (versions matches Ok(raw) && (json::json_read(raw@) matches Ok(Tree::Arr(items))
            && strings_in(items).len() > 0)),
        again is Ok <==> r is Ok,
        r matches Ok(c) ==> {
            &&& text::texts(c.versions@) == strings_in(
                json::json_read(versions->Ok_0@)->Ok_0->Arr_0,
            )
            &&& c.fetched_at_ms == now_ms
            &&& tags is Err ==> c.tags@.len() == 0
            &&& registry matches Ok(g) ==> c.registry@ == text::trimmed(g@)
            &&& again matches Ok(d) && text::texts(d.versions@) == text::texts(c.versions@)
                && d.fetched_at_ms == now_ms
        },
        r is Ok && (tags matches Ok(t) && (json::json_read(t@) matches Ok(d) && d is Obj))
            ==> forall|v: Seq<char>| #[trigger]
            tagged(r->Ok_0.tags@, v) == tags_at(json::json_read(tags->Ok_0@)->Ok_0->Obj_0, v),
        versions matches Err(e) ==> (r matches Err(f) && f@ == e@),
        r is Ok && cache is Some && cache->Some_0.versions@.len() > 0 ==> r->Ok_0.times
            == cache->Some_0.times && r->Ok_0.times_seen == cache->Some_0.times_seen,
        r is Ok && (cache is None || cache->Some_0.versions@.len() == 0) ==> r->Ok_0.times@.len()
            == 0 && r->Ok_0.times_seen == 0,
{
}

/// The times that were answered are found by version; an answer that failed, or that is no
/// object, is a failure.
pub proof fn law_answered_times_are_found(
    answer: Result<String, String>,
    v: Seq<char>,
    r: Result<Vec<(String, String)>, String>,
)
    requires
        call_ensures(fetch_times, (answer,), r),
    ensures
        r is Ok <==> (answer matches Ok(s) && (json::json_read(s@) matches Ok(t) && t is Obj)),
        r matches Ok(times) ==> timed(times@, v) == time_at(
            json::json_read(answer->Ok_0@)->Ok_0->Obj_0,
            v,
        ),
        answer matches Err(e) ==> r matches Err(f) && f@ == e@,
{
}

/// Tags that were answered are found by the version they point at.
pub proof fn law_answered_tags_are_found(
    raw: &str,
    v: Seq<char>,
    r: Option<Vec<(String, Vec<String>)>>,
    times: Option<Vec<(String, String)>>,
)
    requires
        call_ensures(parse_tags, (raw,), r),
        call_ensures(parse_times, (raw,), times),
    ensures
        r is Some <==> (json::json_read(raw@) matches Ok(t) && t is Obj),
        times is Some <==> r is Some,
        r matches Some(tags) ==> tagged(tags@, v) == tags_at(
            json::json_read(raw@)->Ok_0->Obj_0,
            v,
        ),
        times matches Some(t) ==> timed(t@, v) == time_at(
            json::json_read(raw@)->Ok_0->Obj_0,
            v,
        ),
{
}

/// What was kept is used only where it has versions.
pub proof fn law_empty_ledgers_are_not_kept(cache: Option<RegistryCache>, r: Option<RegistryCache>)
    requires
        call_ensures(kept, (cache,), r),
    ensures
        r is Some <==> cache is Some && cache->Some_0.versions@.len() > 0,
        r is Some ==> r == cache,
{
}

/// What is read from a document is what is read from its text.
pub proof fn law_documents_are_read_as_their_texts(
    doc: &Json,
    package: &str,
    versions: Option<Vec<String>>,
    found: Option<String>,
    times: Option<Vec<(String, String)>>,
    tags: Option<Vec<(String, Vec<String>)>>,
    v: Seq<char>,
)
    requires
        call_ensures(versions_of, (doc,), versions),
        call_ensures(installed_of, (doc, package), found),
        call_ensures(times_of, (doc,), times),
        call_ensures(tags_of, (doc,), tags),
    ensures
        versions is Some <==> doc.tree() is Arr,
        versions matches Some(l) ==> text::texts(l@) == strings_in(doc.tree()->Arr_0),
        text::option_text(found) == json::str_of(
            json::get_in(
                json::get_in(json::get(doc.tree(), "dependencies"@), package@),
                "version"@,
            ),
        ),
        times is Some <==> doc.tree() is Obj,
        tags is Some <==> doc.tree() is Obj,
        times matches Some(t) ==> timed(t@, v) == time_at(doc.tree()->Obj_0, v),
        tags matches Some(t) ==> tagged(t@, v) == tags_at(doc.tree()->Obj_0, v),
{
}

/// The installed version of dsh is the one that npm's answer names for it; a failed answer
/// names none.
pub proof fn law_installed_dsh_is_the_named_one(answer: Result<String, String>, r: Option<String>)
    requires
        call_ensures(installed_version, (answer,), r),
    ensures
        answer is Err ==> r is None,
        (answer matches Ok(s) && json::json_read(s@) is Err) ==> r is None,
        (answer matches Ok(s) && json::json_read(s@) is Ok) ==> text::option_text(r) == json::str_of(
            json::get_in(
                json::get_in(
                    json::get(json::json_read(answer->Ok_0@)->Ok_0, "dependencies"@),
                    "@deepseek-ai/dsh"@,
                ),
                "version"@,
            ),
        ),
{
}

/// The ledger is the same whether the configuration or a fault that is known already tells
/// that a switch does not reach the dsh in use.
pub proof fn law_ledger_tells_the_fault(
    reg: &RegistryCache,
    stale: bool,
    current: Option<String>,
    npm_prefix: Option<String>,
    cfg: &Config,
    now_ms: u64,
    r: Catalog,
)
    requires
        call_ensures(catalog, (reg, stale, current, npm_prefix, cfg, now_ms), r),
    ensures
        is_catalog(
            r,
            *reg,
            stale,
            text::option_text(current),
            text::option_text(npm_prefix),
            now_ms,
        ),
        r.npm_global <==> r.source_note is None,
        npm_prefix is None || current is None ==> !r.npm_global,
        cfg.dsh is None && npm_prefix is Some && current is Some ==> r.npm_global,
{
}

/// What is configured is judged as what is known is: without npm's directory or without an
/// installed dsh a switch does not reach it.
pub proof fn law_configured_dsh_is_judged(
    cfg: &Config,
    current: Option<&str>,
    npm_prefix: Option<&str>,
    r: (bool, Option<String>),
)
    requires
        call_ensures(source_check, (cfg, current, npm_prefix), r),
    ensures
        r.0 <==> r.1 is None,
        npm_prefix is None || current is None ==> !r.0,
        cfg.dsh is None && npm_prefix is Some && current is Some ==> r.0,
{
}

/// npm is asked for what the ledger shows: the versions, the tags and the times of dsh, the
/// registry, what is installed for all, and where.
pub proof fn law_npm_is_asked_for_the_ledger(
    path_env: Option<String>,
    versions: Launch,
    tags: Launch,
    times: Launch,
    registry: Launch,
    installed: Launch,
    prefix: Launch,
)
    requires
        call_ensures(versions_query, (path_env,), versions),
        call_ensures(tags_query, (path_env,), tags),
        call_ensures(times_query, (path_env,), times),
        call_ensures(registry_query, (path_env,), registry),
        call_ensures(installed_query, (path_env,), installed),
        call_ensures(prefix_query, (), prefix),
    ensures
        text::texts(versions.args@) == seq![
            "/c"@,
            "npm"@,
            "view"@,
            "@deepseek-ai/dsh"@,
            "versions"@,
            "--json"@,
        ],
        text::texts(tags.args@)[4] == "dist-tags"@ && text::texts(times.args@)[4] == "time"@,
        text::texts(registry.args@).last() == "registry"@,
        text::texts(installed.args@).contains("@deepseek-ai/dsh"@) && text::texts(
            installed.args@,
        ).contains("-g"@),
        text::texts(prefix.args@) == seq!["/c"@, "npm"@, "prefix"@, "-g"@],
        text::option_text(versions.path_env) == text::option_text(path_env),
        versions.timeout_ms == 45_000 && tags.timeout_ms == 45_000 && times.timeout_ms == 45_000,
{
    let i = text::texts(installed.args@);
    assert(i[3] == "-g"@ && i[4] == "@deepseek-ai/dsh"@);
}

/// The middle of two moments is asked of node, of the one that is configured where there is
/// one, with the two moments in their order.
pub proof fn law_node_is_asked_for_the_middle(t0: &str, t1: &str, r: Launch)
    requires
        call_ensures(midpoint_query, (None::<&str>, t0, t1), r),
    ensures
        r.program@ == "node"@ && r.args@.len() == 4 && text::texts(r.args@)[0] == "-e"@
            && text::texts(r.args@)[2] == t0@ && text::texts(r.args@)[3] == t1@,
{
    reveal_strlit("node");
    reveal_strlit(".cmd");
    reveal_strlit(".bat");
    let l = text::lower("node"@);
    assert(l.subrange(0, 4)[0] == 'n');
    assert(".cmd"@[0] == '.' && ".bat"@[0] == '.');
    assert(text::texts(r.args@).len() == r.args@.len());
}

/// A list without a version is told apart from an answer that is no list: it names the package
/// that has none.
pub proof fn law_empty_list_names_the_package(
    raw: String,
    tags: Result<String, String>,
    registry: Result<String, String>,
    cache: Option<RegistryCache>,
    now_ms: u64,
    r: Result<RegistryCache, String>,
)
    requires
        call_ensures(fetch_registry, (Ok::<String, String>(raw), tags, registry, cache, now_ms), r),
    ensures
        (json::json_read(raw@) matches Ok(Tree::Arr(items)) && strings_in(items).len() == 0)
            ==> text::has(r->Err_0@, "@deepseek-ai/dsh"@),
        !(json::json_read(raw@) matches Ok(Tree::Arr(_))) ==> r->Err_0@
            == "无法解析 registry 返回的版本列表"@,
{
    text::law_prefix_is_taken_off(
        "@deepseek-ai/dsh"@,
        "registry 没有返回 "@,
        " 的任何版本"@,
    );
}

} // verus!
