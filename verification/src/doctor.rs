//! The examination before the start: five findings, each with one conclusion.
//!
//! All five are made before anything is reported. That something is missing is a finding, not
//! a failure: only the start itself needs it.

use vstd::prelude::*;

use crate::config;
use crate::proc;
use crate::proc::{Launch, Output};
use crate::text;
use crate::update;

verus! {

/// How long a question to a program may take.
pub const PROBE_TIMEOUT_MS: u64 = 5_000;

/// How long the question what npm has installed may take.
pub const NPM_LS_TIMEOUT_MS: u64 = 20_000;

/// The oldest Node.js that will do.
pub const MIN_NODE_MAJOR: u32 = 18;

/// The oldest WebView2 that is not called outdated.
pub const MIN_WEBVIEW_MAJOR: u32 = 93;

pub const WEBVIEW_URL: &'static str = "https://developer.microsoft.com/microsoft-edge/webview2/";

pub const NODE_URL: &'static str = "https://nodejs.org/en/download";

pub const DSH_URL: &'static str = "https://github.com/deepseek-ai/deepseek-harness";

#[derive(Clone, Copy, PartialEq, Eq, Structural)]
pub enum StepState {
    Pending,
    Checking,
    /// In order.
    Good,
    Warn,
    Missing,
    Failed,
}

/// How to get what is missing.
pub struct Hint {
    /// The official command, to be copied.
    pub command: String,
    pub url: String,
    /// Whether it can be installed from here.
    pub auto: bool,
}

/// One finding.
pub struct Step {
    pub id: String,
    pub label: String,
    pub state: StepState,
    /// The conclusion in one sentence.
    pub detail: String,
    /// The path that was used.
    pub source: Option<String>,
    pub hint: Option<Hint>,
}

// ───────────────────────── findings ─────────────────────────

/// What is examined, in this order.
pub fn ids() -> (r: Vec<&'static str>)
    ensures
        text::slices(r@) == seq!["webview"@, "node"@, "npm"@, "dsh"@, "profile"@],
{
    let mut v: Vec<&'static str> = Vec::new();
    v.push("webview");
    v.push("node");
    v.push("npm");
    v.push("dsh");
    v.push("profile");
    assert(text::slices(v@) =~= seq!["webview"@, "node"@, "npm"@, "dsh"@, "profile"@]);
    v
}

/// What a finding is called.
pub open spec fn label(id: Seq<char>) -> Seq<char> {
    if id == "webview"@ {
        "WebView2 运行环境"@
    } else if id == "node"@ {
        "Node.js 运行时"@
    } else if id == "npm"@ {
        "npm 包管理器"@
    } else if id == "dsh"@ {
        "dsh 命令行（DeepSeek Harness）"@
    } else if id == "profile"@ {
        "dsh 配置目录可写"@
    } else if id == "launch"@ {
        "启动 DeepSeek Harness"@
    } else {
        "检查项"@
    }
}

pub fn label_of(id: &str) -> (r: &'static str)
    ensures
        r@ == label(id@),
{
    if text::same(id, "webview") {
        "WebView2 运行环境"
    } else if text::same(id, "node") {
        "Node.js 运行时"
    } else if text::same(id, "npm") {
        "npm 包管理器"
    } else if text::same(id, "dsh") {
        "dsh 命令行（DeepSeek Harness）"
    } else if text::same(id, "profile") {
        "dsh 配置目录可写"
    } else if text::same(id, "launch") {
        "启动 DeepSeek Harness"
    } else {
        "检查项"
    }
}

/// A finding says this.
pub open spec fn finds(
    s: Step,
    id: Seq<char>,
    state: StepState,
    detail: Seq<char>,
    source: Option<Seq<char>>,
) -> bool {
    s.id@ == id && s.label@ == label(id) && s.state == state && s.detail@ == detail
        && text::option_text(s.source) == source
}

/// What a hint says.
pub open spec fn hinted(
    h: Option<Hint>,
    command: Seq<char>,
    url: Seq<char>,
    auto: bool,
) -> bool {
    h matches Some(x) && x.command@ == command && x.url@ == url && x.auto == auto
}

/// The hint how to get Node.js.
pub open spec fn node_hint(h: Option<Hint>) -> bool {
    hinted(h, "winget install --id OpenJS.NodeJS.LTS --exact"@, NODE_URL@, true)
}

/// The hint how to get dsh.
pub open spec fn dsh_hint(h: Option<Hint>) -> bool {
    hinted(h, "npm i -g @deepseek-ai/dsh"@, DSH_URL@, true)
}

/// A finding.
pub fn mk(
    id: &str,
    state: StepState,
    detail: String,
    hint: Option<Hint>,
    source: Option<String>,
) -> (r: Step)
    ensures
        finds(r, id@, state, detail@, text::option_text(source)),
        r.hint == hint,
{
    Step { id: text::copy(id), label: text::copy(label_of(id)), state, detail, source, hint }
}

/// The finding that follows the examination: the start itself.
pub fn launch_step(state: StepState, detail: String) -> (r: Step)
    ensures
        finds(r, "launch"@, state, detail@, None),
        r.hint is None,
{
    mk("launch", state, detail, None, None)
}

/// The finding while it is being made.
pub fn checking_step(id: &str) -> (r: Step)
    ensures
        finds(r, id@, StepState::Checking, "检测中…"@, None),
        r.hint is None,
{
    mk(id, StepState::Checking, text::copy("检测中…"), None, None)
}

/// The finding of something that is not examined.
pub fn unknown_step(id: &str) -> (r: Step)
    ensures
        finds(r, id@, StepState::Warn, "未知检查项"@, None),
        r.hint is None,
{
    mk(id, StepState::Warn, text::copy("未知检查项"), None, None)
}

pub fn hint_node() -> (r: Hint)
    ensures
        node_hint(Some(r)),
{
    Hint {
        command: text::copy("winget install --id OpenJS.NodeJS.LTS --exact"),
        url: text::copy(NODE_URL),
        auto: true,
    }
}

pub fn hint_dsh() -> (r: Hint)
    ensures
        dsh_hint(Some(r)),
{
    Hint { command: text::copy("npm i -g @deepseek-ai/dsh"), url: text::copy(DSH_URL), auto: true }
}

// ───────────────────────── conclusions ─────────────────────────

/// Something that is not there or does not work.
pub open spec fn lacking(s: Step) -> bool {
    s.state == StepState::Missing || s.state == StepState::Failed
}

/// A finding under this name is that something is not there or does not work.
pub open spec fn lacks(steps: Seq<Step>, id: Seq<char>) -> bool {
    exists|i: int| 0 <= i < steps.len() && (#[trigger] steps[i]).id@ == id && lacking(steps[i])
}

/// What can be installed from here. npm comes with Node.js: where npm is gone, Node.js is
/// installed anew.
pub open spec fn auto(steps: Seq<Step>) -> Seq<Seq<char>> {
    (if lacks(steps, "node"@) || lacks(steps, "npm"@) {
        seq!["node"@]
    } else {
        seq![]
    }) + (if lacks(steps, "dsh"@) {
        seq!["dsh"@]
    } else {
        seq![]
    })
}

fn is_lacking(s: &Step) -> (r: bool)
    ensures
        r == lacking(*s),
{
    s.state == StepState::Missing || s.state == StepState::Failed
}

fn misses(steps: &Vec<Step>, id: &str) -> (r: bool)
    ensures
        r == lacks(steps@, id@),
{
    let mut i: usize = 0;
    while i < steps.len()
        invariant
            i <= steps.len(),
            forall|k: int|
                0 <= k < i ==> !((#[trigger] steps@[k]).id@ == id@ && lacking(steps@[k])),
        decreases steps.len() - i,
    {
        if is_lacking(&steps[i]) && text::same(steps[i].id.as_str(), id) {
            assert(steps@[i as int].id@ == id@);
            return true;
        }
        i = i + 1;
    }
    false
}

/// What is missing and can be installed from here.
pub fn auto_ids(steps: &Vec<Step>) -> (r: Vec<&'static str>)
    ensures
        text::slices(r@) == auto(steps@),
{
    let mut v: Vec<&'static str> = Vec::new();
    if misses(steps, "node") || misses(steps, "npm") {
        v.push("node");
    }
    if misses(steps, "dsh") {
        v.push("dsh");
    }
    assert(text::slices(v@) =~= auto(steps@));
    v
}

/// A finding that stands in the way of the start.
pub open spec fn blocks(s: Step) -> bool {
    s.id@ != "launch"@ && s.id@ != "profile"@ && lacking(s)
}

/// The findings that stand in the way of the start.
pub open spec fn blocking(steps: Seq<Step>) -> Seq<Seq<char>>
    decreases steps.len(),
{
    if steps.len() == 0 {
        seq![]
    } else if blocks(steps.last()) {
        blocking(steps.drop_last()).push(steps.last().id@)
    } else {
        blocking(steps.drop_last())
    }
}

/// What stands in the way of the start.
pub fn blocking_ids(steps: &Vec<Step>) -> (r: Vec<String>)
    ensures
        text::texts(r@) == blocking(steps@),
{
    let mut v: Vec<String> = Vec::new();
    let mut i: usize = 0;
    assert(text::texts(v@) =~= seq![]);
    while i < steps.len()
        invariant
            i <= steps.len(),
            text::texts(v@) == blocking(steps@.take(i as int)),
        decreases steps.len() - i,
    {
        assert(steps@.take(i + 1).drop_last() =~= steps@.take(i as int));
        if !text::same(steps[i].id.as_str(), "launch") && !text::same(
            steps[i].id.as_str(),
            "profile",
        ) && is_lacking(&steps[i]) {
            let ghost before = v@;
            v.push(text::copy(steps[i].id.as_str()));
            assert(text::texts(v@) =~= text::texts(before).push(steps@[i as int].id@));
        }
        i = i + 1;
    }
    assert(steps@.take(i as int) =~= steps@);
    v
}

proof fn lemma_blocking(steps: Seq<Step>, i: int)
    requires
        0 <= i < steps.len(),
        blocks(steps[i]),
    ensures
        blocking(steps).len() > 0,
    decreases steps.len(),
{
    if i < steps.len() - 1 {
        assert(steps.drop_last()[i] == steps[i]);
        lemma_blocking(steps.drop_last(), i);
    }
}

/// Where nothing stands in the way of the start, there is nothing to install.
pub proof fn law_nothing_blocks_nothing_to_install(steps: Seq<Step>)
    requires
        blocking(steps).len() == 0,
    ensures
        auto(steps).len() == 0,
{
    reveal_strlit("node");
    reveal_strlit("npm");
    reveal_strlit("dsh");
    reveal_strlit("launch");
    reveal_strlit("profile");
    assert("node"@.len() == 4 && "npm"@.len() == 3 && "dsh"@.len() == 3);
    assert("launch"@.len() == 6 && "profile"@.len() == 7);
    assert forall|i: int| 0 <= i < steps.len() && lacking(#[trigger] steps[i]) implies steps[i].id@
        == "launch"@ || steps[i].id@ == "profile"@ by {
        if blocks(steps[i]) {
            lemma_blocking(steps, i);
        }
    }
}

/// The profile directory and the start itself never stand in the way of the start.
pub proof fn law_profile_never_blocks(steps: Seq<Step>)
    ensures
        !blocking(steps).contains("profile"@),
        !blocking(steps).contains("launch"@),
    decreases steps.len(),
{
    if steps.len() > 0 {
        law_profile_never_blocks(steps.drop_last());
        let less = blocking(steps.drop_last());
        let all = blocking(steps);
        assert forall|i: int| 0 <= i < all.len() implies all[i] != "profile"@ && all[i]
            != "launch"@ by {
            if i < less.len() {
                assert(all[i] == less[i]);
                assert(less.contains(less[i]));
            }
        }
    }
}

// ───────────────────────── ① WebView2 ─────────────────────────

/// The places of the registry that know the version of WebView2.
pub fn webview_keys() -> (r: Vec<&'static str>)
    ensures
        text::slices(r@) == seq![
            "HKLM\\SOFTWARE\\WOW6432Node\\Microsoft\\EdgeUpdate\\Clients\\{F3017226-FE2A-4295-8BDF-00C3A9A7E4C5}"@,
            "HKLM\\SOFTWARE\\Microsoft\\EdgeUpdate\\Clients\\{F3017226-FE2A-4295-8BDF-00C3A9A7E4C5}"@,
            "HKCU\\SOFTWARE\\Microsoft\\EdgeUpdate\\Clients\\{F3017226-FE2A-4295-8BDF-00C3A9A7E4C5}"@,
        ],
{
    let mut v: Vec<&'static str> = Vec::new();
    v.push(
        "HKLM\\SOFTWARE\\WOW6432Node\\Microsoft\\EdgeUpdate\\Clients\\{F3017226-FE2A-4295-8BDF-00C3A9A7E4C5}",
    );
    v.push(
        "HKLM\\SOFTWARE\\Microsoft\\EdgeUpdate\\Clients\\{F3017226-FE2A-4295-8BDF-00C3A9A7E4C5}",
    );
    v.push(
        "HKCU\\SOFTWARE\\Microsoft\\EdgeUpdate\\Clients\\{F3017226-FE2A-4295-8BDF-00C3A9A7E4C5}",
    );
    assert(text::slices(v@) =~= seq![
        "HKLM\\SOFTWARE\\WOW6432Node\\Microsoft\\EdgeUpdate\\Clients\\{F3017226-FE2A-4295-8BDF-00C3A9A7E4C5}"@,
        "HKLM\\SOFTWARE\\Microsoft\\EdgeUpdate\\Clients\\{F3017226-FE2A-4295-8BDF-00C3A9A7E4C5}"@,
        "HKCU\\SOFTWARE\\Microsoft\\EdgeUpdate\\Clients\\{F3017226-FE2A-4295-8BDF-00C3A9A7E4C5}"@,
    ]);
    v
}

/// The question to the registry.
pub fn webview_query(key: &str) -> (r: Launch)
    ensures
        proc::launches(
            r,
            proc::real_program("reg"@),
            proc::real_args("reg"@, seq!["query"@, key@, "/v"@, "pv"@]),
            None,
            PROBE_TIMEOUT_MS,
        ),
{
    let args: [&str; 4] = ["query", key, "/v", "pv"];
    let r = proc::run_capture("reg", args.as_slice(), PROBE_TIMEOUT_MS);
    assert(text::slices(args@) =~= seq!["query"@, key@, "/v"@, "pv"@]);
    r
}

/// The version in an answer of the registry: its last word, if that starts with a digit.
pub open spec fn webview_said(out: Option<Output>) -> Option<Seq<char>> {
    match out {
        Some(o) => if o.code == Some(0i32) && text::words(o.stdout@).len() > 0 {
            let w = text::words(o.stdout@).last();
            if w.len() > 0 && text::digit(w[0]) {
                Some(w)
            } else {
                None
            }
        } else {
            None
        },
        None => None,
    }
}

/// The first version among the answers of the registry.
pub open spec fn webview_version(outs: Seq<Option<Output>>) -> Option<Seq<char>>
    decreases outs.len(),
{
    if outs.len() == 0 {
        None
    } else if webview_said(outs[0]) is Some {
        webview_said(outs[0])
    } else {
        webview_version(outs.drop_first())
    }
}

/// How a version of WebView2 is worded.
pub open spec fn webview_detail(v: Seq<char>) -> Seq<char> {
    let low = match proc::version_from(v, 0) {
        Some(tok) => match proc::version_numbers(tok) {
            Some(n) => !proc::at_least(n, (MIN_WEBVIEW_MAJOR, 0, 0)),
            None => false,
        },
        None => false,
    };
    if low {
        v + "（偏低，建议更新）"@
    } else {
        v
    }
}

fn webview_reading(out: &Option<Output>) -> (r: Option<String>)
    ensures
        text::option_text(r) == webview_said(*out),
{
    match out {
        Some(o) => {
            let found = match o.code {
                Some(c) => c == 0,
                None => false,
            };
            if !found {
                return None;
            }
            let v = text::chars(o.stdout.as_str());
            let ws = text::words_of(v.as_slice());
            if ws.len() == 0 {
                assert(text::words(o.stdout@).len() == 0);
                return None;
            }
            let w = ws[ws.len() - 1];
            assert(text::words(o.stdout@).last() == ws@[ws@.len() - 1]@);
            if w.len() > 0 && text::is_digit(w[0]) {
                Some(text::text_of(w))
            } else {
                None
            }
        },
        None => None,
    }
}

/// The finding on WebView2, from the answers of the registry; `None` stands for a question
/// that could not be asked. The window is open already, so it is there in any case.
pub fn probe_webview(outs: &Vec<Option<Output>>) -> (r: Step)
    ensures
        match webview_version(outs@) {
            Some(v) => finds(r, "webview"@, StepState::Good, webview_detail(v), None) && r.hint
                is None,
            None => finds(r, "webview"@, StepState::Warn, "正在运行，但读不到版本号"@, None)
                && hinted(r.hint, seq![], WEBVIEW_URL@, false),
        },
{
    let mut i: usize = 0;
    assert(outs@.skip(0) =~= outs@);
    while i < outs.len()
        invariant
            i <= outs.len(),
            webview_version(outs@) == webview_version(outs@.skip(i as int)),
        decreases outs.len() - i,
    {
        assert(outs@.skip(i as int).drop_first() =~= outs@.skip(i + 1));
        match webview_reading(&outs[i]) {
            Some(v) => {
                let low = match proc::parse_version(v.as_str()) {
                    Some(n) => !proc::ver_ge(n, (MIN_WEBVIEW_MAJOR, 0, 0)),
                    None => false,
                };
                let detail = if low {
                    text::cat2(v.as_str(), "（偏低，建议更新）")
                } else {
                    v
                };
                return mk("webview", StepState::Good, detail, None, None);
            },
            None => {},
        }
        i = i + 1;
    }
    let command = String::new();
    assert(command@ =~= seq![]);
    mk(
        "webview",
        StepState::Warn,
        text::copy("正在运行，但读不到版本号"),
        Some(Hint { command, url: text::copy(WEBVIEW_URL), auto: false }),
        None,
    )
}

// ───────────────────────── ② Node.js ─────────────────────────

/// The question for a program's version.
pub fn version_query(path: &str) -> (r: Launch)
    ensures
        proc::launches(
            r,
            proc::real_program(path@),
            proc::real_args(path@, seq!["--version"@]),
            None,
            PROBE_TIMEOUT_MS,
        ),
{
    let args: [&str; 1] = ["--version"];
    let r = proc::run_path(path, args.as_slice(), PROBE_TIMEOUT_MS);
    assert(text::slices(args@) =~= seq!["--version"@]);
    r
}

/// The numbers of a version with dots between them.
pub open spec fn dotted_numbers(v: (u32, u32, u32)) -> Seq<char> {
    text::decimal(v.0 as nat) + "."@ + text::decimal(v.1 as nat) + "."@ + text::decimal(
        v.2 as nat,
    )
}

fn number_text(v: (u32, u32, u32)) -> (r: String)
    ensures
        r@ == dotted_numbers(v),
{
    let a = text::decimal_text(v.0 as u64);
    let b = text::decimal_text(v.1 as u64);
    let c = text::decimal_text(v.2 as u64);
    text::cat5(a.as_str(), ".", b.as_str(), ".", c.as_str())
}

/// What a failed question says: a program that could not be started has its own words.
pub open spec fn answerable(ran: Result<Output, String>) -> bool {
    ran matches Ok(out) ==> out.succeeded() || out.can_diagnose()
}

/// The version in what a program printed.
pub open spec fn printed_version(out: Output) -> Option<(u32, u32, u32)> {
    match proc::version_from(out.stdout@, 0) {
        Some(tok) => proc::version_numbers(tok),
        None => None,
    }
}

/// The finding on the Node.js at a path, from what it answered. That a file is there does not
/// mean that it works, so it is always asked.
pub open spec fn node_found(s: Step, path: Seq<char>, ran: Result<Output, String>) -> bool {
    match ran {
        Ok(out) => if out.succeeded() {
            s.hint is None && match printed_version(out) {
                Some(v) => if proc::at_least(v, (MIN_NODE_MAJOR, 0, 0)) {
                    finds(
                        s,
                        "node"@,
                        StepState::Good,
                        "v"@ + dotted_numbers(v) + " · "@ + path,
                        Some(path),
                    )
                } else {
                    finds(
                        s,
                        "node"@,
                        StepState::Warn,
                        "v"@ + dotted_numbers(v) + " 过低（需要 ≥ 18.0） · "@ + path,
                        Some(path),
                    )
                },
                None => finds(
                    s,
                    "node"@,
                    StepState::Warn,
                    "已安装，版本未知 · "@ + path,
                    Some(path),
                ),
            }
        } else {
            node_hint(s.hint) && finds(
                s,
                "node"@,
                StepState::Failed,
                "无法执行："@ + path + " · "@ + out.diagnosis(),
                Some(path),
            )
        },
        Err(e) => node_hint(s.hint) && finds(
            s,
            "node"@,
            StepState::Failed,
            "无法执行："@ + path + " · "@ + e@,
            Some(path),
        ),
    }
}

/// The finding on the Node.js at a path.
fn node_step(path: &str, ran: &Result<Output, String>) -> (r: Step)
    requires
        answerable(*ran),
    ensures
        node_found(r, path@, *ran),
{
    let source = Some(text::copy(path));
    match ran {
        Ok(out) => if out.ok() {
            match proc::parse_version(out.stdout.as_str()) {
                Some(v) => {
                    let n = number_text(v);
                    if proc::ver_ge(v, (MIN_NODE_MAJOR, 0, 0)) {
                        mk(
                            "node",
                            StepState::Good,
                            text::cat4("v", n.as_str(), " · ", path),
                            None,
                            source,
                        )
                    } else {
                        mk(
                            "node",
                            StepState::Warn,
                            text::cat4("v", n.as_str(), " 过低（需要 ≥ 18.0） · ", path),
                            None,
                            source,
                        )
                    }
                },
                None => mk(
                    "node",
                    StepState::Warn,
                    text::cat2("已安装，版本未知 · ", path),
                    None,
                    source,
                ),
            }
        } else {
            let why = out.diagnose();
            mk(
                "node",
                StepState::Failed,
                text::cat4("无法执行：", path, " · ", why.as_str()),
                Some(hint_node()),
                source,
            )
        },
        Err(e) => mk(
            "node",
            StepState::Failed,
            text::cat4("无法执行：", path, " · ", e.as_str()),
            Some(hint_node()),
            source,
        ),
    }
}

/// The finding where no Node.js was found.
pub fn node_missing() -> (r: Step)
    ensures
        no_node(r),
{
    mk(
        "node",
        StepState::Missing,
        text::copy("未检测到 node。dsh 需要 Node.js 才能运行。"),
        Some(hint_node()),
        None,
    )
}

/// The finding where no Node.js was found.
pub open spec fn no_node(s: Step) -> bool {
    node_hint(s.hint) && finds(
        s,
        "node"@,
        StepState::Missing,
        "未检测到 node。dsh 需要 Node.js 才能运行。"@,
        None,
    )
}

/// The finding on Node.js: on the one that was found, which is its path and what it answered,
/// or that there is none. Where there is none nothing is asked.
pub fn probe_node_at(found: Option<(&str, &Result<Output, String>)>) -> (r: Step)
    requires
        found matches Some(at) ==> answerable(*at.1),
    ensures
        match found {
            Some(at) => node_found(r, at.0@, *at.1),
            None => no_node(r),
        },
{
    match found {
        Some((path, ran)) => node_step(path, ran),
        None => node_missing(),
    }
}

// ───────────────────────── ③ npm ─────────────────────────

/// The question for npm's version where its path is not known.
pub fn npm_shell_query() -> (r: Launch)
    ensures
        proc::launches(r, "cmd"@, seq!["/c"@, "npm"@, "--version"@], None, PROBE_TIMEOUT_MS),
{
    let args: [&str; 2] = ["npm", "--version"];
    let r = proc::run_shell(args.as_slice(), PROBE_TIMEOUT_MS);
    assert(text::texts(r.args@) =~= seq!["/c"@, "npm"@, "--version"@]);
    r
}

/// The finding on an npm whose path is not known.
pub open spec fn npm_unplaced(s: Step, ran: Result<Output, String>) -> bool {
    match ran {
        Ok(out) => if out.succeeded() {
            s.hint is None && finds(
                s,
                "npm"@,
                StepState::Good,
                text::trimmed(out.stdout@) + " · 由 PATH 解析（路径未知）"@,
                None,
            )
        } else {
            node_hint(s.hint) && finds(
                s,
                "npm"@,
                StepState::Missing,
                "未检测到 npm。"@ + out.diagnosis(),
                None,
            )
        },
        Err(e) => node_hint(s.hint) && finds(
            s,
            "npm"@,
            StepState::Missing,
            "未检测到 npm。"@ + e@,
            None,
        ),
    }
}

/// The finding on npm, where no path of it was found.
pub fn probe_npm(ran: &Result<Output, String>) -> (r: Step)
    requires
        answerable(*ran),
    ensures
        npm_unplaced(r, *ran),
{
    match ran {
        Ok(out) => if out.ok() {
            let v = text::trim_text(out.stdout.as_str());
            mk(
                "npm",
                StepState::Good,
                text::cat2(v.as_str(), " · 由 PATH 解析（路径未知）"),
                None,
                None,
            )
        } else {
            let why = out.diagnose();
            mk(
                "npm",
                StepState::Missing,
                text::cat2("未检测到 npm。", why.as_str()),
                Some(hint_node()),
                None,
            )
        },
        Err(e) => mk(
            "npm",
            StepState::Missing,
            text::cat2("未检测到 npm。", e.as_str()),
            Some(hint_node()),
            None,
        ),
    }
}

/// The finding on the npm at a path.
pub open spec fn npm_found(s: Step, path: Seq<char>, ran: Result<Output, String>) -> bool {
    match ran {
        Ok(out) => if out.succeeded() {
            s.hint is None && finds(
                s,
                "npm"@,
                StepState::Good,
                match proc::version_from(out.stdout@, 0) {
                    Some(v) => v + " · "@ + path,
                    None => "已安装 · "@ + path,
                },
                Some(path),
            )
        } else {
            node_hint(s.hint) && finds(
                s,
                "npm"@,
                StepState::Failed,
                "这个文件跑不出 npm 版本："@ + path + " · "@ + out.diagnosis(),
                Some(path),
            )
        },
        Err(e) => node_hint(s.hint) && finds(
            s,
            "npm"@,
            StepState::Failed,
            "无法执行："@ + path + " · "@ + e@,
            Some(path),
        ),
    }
}

/// The finding on the npm at a path.
pub fn probe_npm_at(path: &str, ran: &Result<Output, String>) -> (r: Step)
    requires
        answerable(*ran),
    ensures
        npm_found(r, path@, *ran),
{
    let source = Some(text::copy(path));
    match ran {
        Ok(out) => if out.ok() {
            let detail = match proc::find_semver(out.stdout.as_str()) {
                Some(v) => text::cat3(v.as_str(), " · ", path),
                None => text::cat2("已安装 · ", path),
            };
            mk("npm", StepState::Good, detail, None, source)
        } else {
            let why = out.diagnose();
            mk(
                "npm",
                StepState::Failed,
                text::cat4("这个文件跑不出 npm 版本：", path, " · ", why.as_str()),
                Some(hint_node()),
                source,
            )
        },
        Err(e) => mk(
            "npm",
            StepState::Failed,
            text::cat4("无法执行：", path, " · ", e.as_str()),
            Some(hint_node()),
            source,
        ),
    }
}

// ───────────────────────── ④ dsh ─────────────────────────

/// The version in what dsh printed to either channel, whether or not it succeeded.
pub open spec fn dsh_said(ran: Result<Output, String>) -> Option<Seq<char>> {
    match ran {
        Ok(out) => match proc::version_from(out.stdout@, 0) {
            Some(v) => Some(v),
            None => proc::version_from(out.stderr@, 0),
        },
        Err(_) => None,
    }
}

/// The version in what dsh printed.
pub fn dsh_version(ran: &Result<Output, String>) -> (r: Option<String>)
    ensures
        text::option_text(r) == dsh_said(*ran),
{
    match ran {
        Ok(out) => match proc::find_semver(out.stdout.as_str()) {
            Some(v) => Some(v),
            None => proc::find_semver(out.stderr.as_str()),
        },
        Err(_) => None,
    }
}

/// The question which version of a package npm has installed.
pub fn npm_global_query(package: &str) -> (r: Launch)
    ensures
        proc::launches(
            r,
            "cmd"@,
            seq!["/c"@, "npm"@, "ls"@, "-g"@, package@, "--depth=0"@, "--json"@],
            None,
            NPM_LS_TIMEOUT_MS,
        ),
{
    let args: [&str; 6] = ["npm", "ls", "-g", package, "--depth=0", "--json"];
    let r = proc::run_shell(args.as_slice(), NPM_LS_TIMEOUT_MS);
    assert(text::texts(r.args@) =~= seq![
        "/c"@,
        "npm"@,
        "ls"@,
        "-g"@,
        package@,
        "--depth=0"@,
        "--json"@,
    ]);
    r
}

/// The version of a package that npm has installed, from its answer.
pub fn npm_global_version(ran: &Result<Output, String>, package: &str) -> (r: Option<String>)
    ensures
        text::option_text(r) == (match *ran {
            Ok(out) => match crate::json::json_read(out.stdout@) {
                Ok(doc) => update::installed(doc, package@),
                Err(_) => None,
            },
            Err(_) => None,
        }),
{
    match ran {
        Ok(out) => update::parse_installed(out.stdout.as_str(), package),
        Err(_) => None,
    }
}

/// The finding on the dsh at a path: it is there, and its version is what it printed or else
/// what npm says.
pub open spec fn dsh_found(
    s: Step,
    path: Seq<char>,
    ran: Result<Output, String>,
    installed: Option<Seq<char>>,
) -> bool {
    s.hint is None && finds(
        s,
        "dsh"@,
        StepState::Good,
        match dsh_said(ran) {
            Some(v) => v + " · "@ + path,
            None => match installed {
                Some(v) => v + " · "@ + path,
                None => "已安装（版本未知） · "@ + path,
            },
        },
        Some(path),
    )
}

/// The finding on the dsh at a path, with its version as far as it could be found out. That
/// it does not tell its version is no fault.
pub fn probe_dsh_at(path: &str, version: Option<&str>) -> (r: Step)
    ensures
        finds(
            r,
            "dsh"@,
            StepState::Good,
            match version {
                Some(v) => v@ + " · "@ + path@,
                None => "已安装（版本未知） · "@ + path@,
            },
            Some(path@),
        ),
        r.hint is None,
{
    let detail = match version {
        Some(v) => text::cat3(v, " · ", path),
        None => text::cat2("已安装（版本未知） · ", path),
    };
    mk("dsh", StepState::Good, detail, None, Some(text::copy(path)))
}

/// The finding where no dsh was found.
pub open spec fn no_dsh(s: Step) -> bool {
    dsh_hint(s.hint) && finds(
        s,
        "dsh"@,
        StepState::Missing,
        "未检测到 dsh 命令。这是 DShell 要托管的后端。"@,
        None,
    )
}

/// The finding where no dsh was found.
pub fn dsh_missing() -> (r: Step)
    ensures
        no_dsh(r),
{
    mk(
        "dsh",
        StepState::Missing,
        text::copy("未检测到 dsh 命令。这是 DShell 要托管的后端。"),
        Some(hint_dsh()),
        None,
    )
}

/// The finding on dsh: on the one that was found, which is its path, what it answered and the
/// version that npm has of it, or that there is none.
pub fn probe_dsh(
    found: Option<(&str, &Result<Output, String>)>,
    installed: Option<&str>,
) -> (r: Step)
    ensures
        match found {
            Some(at) => dsh_found(r, at.0@, *at.1, text::option_str(installed)),
            None => no_dsh(r),
        },
{
    match found {
        Some((path, ran)) => match dsh_version(ran) {
            Some(v) => probe_dsh_at(path, Some(v.as_str())),
            None => probe_dsh_at(path, installed),
        },
        None => dsh_missing(),
    }
}

// ───────────────────────── ⑤ the profile directory ─────────────────────────

/// The directory that has to be writable.
pub fn profile_home(user: Option<&str>) -> (r: String)
    ensures
        r@ == (match user {
            Some(u) => config::within(u@, ".dsh"@),
            None => config::within("."@, ".dsh"@),
        }),
{
    match user {
        Some(u) => config::join(u, ".dsh"),
        None => config::join(".", ".dsh"),
    }
}

/// The finding on the profile directory: whether it could be created, and whether a file
/// could be written in it. It is never more than a warning.
pub fn probe_profile(
    dir: &str,
    created: &Result<(), String>,
    written: &Result<(), String>,
) -> (r: Step)
    ensures
        r.hint is None,
        match *created {
            Err(e) => finds(
                r,
                "profile"@,
                StepState::Warn,
                "无法创建 "@ + dir@ + " ："@ + e@,
                None,
            ),
            Ok(_) => match *written {
                Ok(_) => finds(r, "profile"@, StepState::Good, "可写 · "@ + dir@, None),
                Err(e) => finds(
                    r,
                    "profile"@,
                    StepState::Warn,
                    "不可写 · "@ + dir@ + " ："@ + e@,
                    None,
                ),
            },
        },
{
    match created {
        Err(e) => mk(
            "profile",
            StepState::Warn,
            text::cat4("无法创建 ", dir, " ：", e.as_str()),
            None,
            None,
        ),
        Ok(_) => match written {
            Ok(_) => mk("profile", StepState::Good, text::cat2("可写 · ", dir), None, None),
            Err(e) => mk(
                "profile",
                StepState::Warn,
                text::cat4("不可写 · ", dir, " ：", e.as_str()),
                None,
                None,
            ),
        },
    }
}

// ───────────────────────── paths that a user names ─────────────────────────

/// The programs whose path can be named.
pub open spec fn nameable(id: Seq<char>) -> bool {
    id == "node"@ || id == "npm"@ || id == "dsh"@
}

/// The question to the program at a path that the user named. For anything but node, npm and
/// dsh there is none: nothing is started.
pub fn path_query(id: &str, path: &str) -> (r: Result<Launch, String>)
    ensures
        match r {
            Ok(l) => nameable(id@) && proc::launches(
                l,
                proc::real_program(path@),
                proc::real_args(path@, seq!["--version"@]),
                None,
                PROBE_TIMEOUT_MS,
            ),
            Err(e) => !nameable(id@) && e@ == id@ + " 不支持指定路径"@,
        },
{
    if text::same(id, "node") || text::same(id, "npm") || text::same(id, "dsh") {
        Ok(version_query(path))
    } else {
        Err(text::cat2(id, " 不支持指定路径"))
    }
}

/// A program printed nothing but whitespace to either channel.
pub open spec fn silent(out: Output) -> bool {
    text::trimmed(out.stdout@).len() == 0 && text::trimmed(out.stderr@).len() == 0
}

fn exited_well(out: &Output) -> (r: bool)
    ensures
        r == (out.code == Some(0i32)),
{
    match out.code {
        Some(c) => c == 0,
        None => false,
    }
}

fn is_silent(out: &Output) -> (r: bool)
    ensures
        r == silent(*out),
{
    let a = text::trim_text(out.stdout.as_str());
    let b = text::trim_text(out.stderr.as_str());
    a.as_str().is_empty() && b.as_str().is_empty()
}

/// The finding on a dsh that the user named. One that cannot be started, or that says nothing
/// of its version until its time is up, or that fails without a word, is not accepted; one that
/// ends otherwise without telling its version is.
pub open spec fn dsh_named(
    s: Step,
    path: Seq<char>,
    ran: Result<Output, String>,
    installed: Option<Seq<char>>,
) -> bool {
    match ran {
        Err(e) => dsh_hint(s.hint) && finds(
            s,
            "dsh"@,
            StepState::Failed,
            "无法执行："@ + path + " · "@ + e@,
            Some(path),
        ),
        Ok(out) => if out.timed_out && dsh_said(ran) is None {
            dsh_hint(s.hint) && finds(
                s,
                "dsh"@,
                StepState::Failed,
                "这个文件跑不出 dsh 版本："@ + path + " · 命令超时无响应。"@,
                Some(path),
            )
        } else if out.code != Some(0i32) && silent(out) {
            dsh_hint(s.hint) && finds(
                s,
                "dsh"@,
                StepState::Failed,
                "这个文件跑不出 dsh 版本："@ + path + " · 没有任何输出。"@,
                Some(path),
            )
        } else {
            dsh_found(s, path, ran, installed)
        },
    }
}

fn named_dsh(path: &str, ran: &Result<Output, String>, installed: Option<&str>) -> (r: Step)
    ensures
        dsh_named(r, path@, *ran, text::option_str(installed)),
{
    let source = Some(text::copy(path));
    match ran {
        Err(e) => mk(
            "dsh",
            StepState::Failed,
            text::cat4("无法执行：", path, " · ", e.as_str()),
            Some(hint_dsh()),
            source,
        ),
        Ok(out) => if out.timed_out && dsh_version(ran).is_none() {
            mk(
                "dsh",
                StepState::Failed,
                text::cat3("这个文件跑不出 dsh 版本：", path, " · 命令超时无响应。"),
                Some(hint_dsh()),
                source,
            )
        } else if !exited_well(out) && is_silent(out) {
            mk(
                "dsh",
                StepState::Failed,
                text::cat3("这个文件跑不出 dsh 版本：", path, " · 没有任何输出。"),
                Some(hint_dsh()),
                source,
            )
        } else {
            probe_dsh(Some((path, ran)), installed)
        },
    }
}

/// The finding on a path that the user named, from what the program there answered to the
/// question for its version; `installed` is the version that npm has of dsh. Only node, npm
/// and dsh can be named.
pub fn probe_with_path(
    id: &str,
    path: &str,
    ran: &Result<Output, String>,
    installed: Option<&str>,
) -> (r: Result<Step, String>)
    requires
        id@ == "node"@ || id@ == "npm"@ ==> answerable(*ran),
    ensures
        if id@ == "node"@ {
            r matches Ok(s) && node_found(s, path@, *ran)
        } else if id@ == "npm"@ {
            r matches Ok(s) && npm_found(s, path@, *ran)
        } else if id@ == "dsh"@ {
            r matches Ok(s) && dsh_named(s, path@, *ran, text::option_str(installed))
        } else {
            r matches Err(e) && e@ == id@ + " 不支持指定路径"@
        },
{
    if text::same(id, "node") {
        Ok(probe_node_at(Some((path, ran))))
    } else if text::same(id, "npm") {
        Ok(probe_npm_at(path, ran))
    } else if text::same(id, "dsh") {
        Ok(named_dsh(path, ran, installed))
    } else {
        Err(text::cat2(id, " 不支持指定路径"))
    }
}

/// A path that does not run is not accepted, whatever npm has installed.
pub proof fn law_what_does_not_run_is_not_accepted(
    s: Step,
    path: Seq<char>,
    why: String,
    installed: Option<Seq<char>>,
)
    requires
        ({
            ||| node_found(s, path, Err(why))
            ||| npm_found(s, path, Err(why))
            ||| dsh_named(s, path, Err(why), installed)
        }),
    ensures
        s.state != StepState::Good,
{
}

/// Whatever is missing or does not work stands in the way of the start, unless it is the
/// profile directory or the start itself; nothing else does.
pub proof fn law_what_does_not_work_blocks(steps: Seq<Step>, i: int)
    requires
        0 <= i < steps.len(),
    ensures
        (steps[i].state == StepState::Failed || steps[i].state == StepState::Missing)
            && steps[i].id@ != "profile"@ && steps[i].id@ != "launch"@ ==> blocking(
            steps,
        ).contains(steps[i].id@),
        forall|id: Seq<char>| #[trigger]
            blocking(steps).contains(id) ==> id != "profile"@ && id != "launch"@ && exists|j: int|
                0 <= j < steps.len() && (#[trigger] steps[j]).id@ == id && (steps[j].state
                    == StepState::Failed || steps[j].state == StepState::Missing),
    decreases steps.len(),
{
    let rest = steps.drop_last();
    if i < rest.len() {
        law_what_does_not_work_blocks(rest, i);
        assert(rest[i] == steps[i]);
        if blocking(rest).contains(steps[i].id@) {
            let k = choose|k: int| 0 <= k < blocking(rest).len() && blocking(rest)[k] == steps[i].id@;
            assert(blocking(steps)[k] == steps[i].id@);
        }
    } else if blocks(steps.last()) {
        assert(blocking(steps)[blocking(rest).len() as int] == steps[i].id@);
    }
    assert forall|id: Seq<char>| #[trigger] blocking(steps).contains(id) implies id != "profile"@
        && id != "launch"@ && exists|j: int|
        0 <= j < steps.len() && (#[trigger] steps[j]).id@ == id && (steps[j].state
            == StepState::Failed || steps[j].state == StepState::Missing) by {
        lemma_blocking_is_lacking(steps, id);
    }
}

proof fn lemma_blocking_is_lacking(steps: Seq<Step>, id: Seq<char>)
    requires
        blocking(steps).contains(id),
    ensures
        id != "profile"@ && id != "launch"@,
        exists|j: int|
            0 <= j < steps.len() && (#[trigger] steps[j]).id@ == id && (steps[j].state
                == StepState::Failed || steps[j].state == StepState::Missing),
    decreases steps.len(),
{
    if steps.len() > 0 {
        let rest = steps.drop_last();
        let k = choose|k: int| 0 <= k < blocking(steps).len() && blocking(steps)[k] == id;
        if k < blocking(rest).len() {
            assert(blocking(rest)[k] == id);
            lemma_blocking_is_lacking(rest, id);
            let j = choose|j: int|
                0 <= j < rest.len() && (#[trigger] rest[j]).id@ == id && (rest[j].state
                    == StepState::Failed || rest[j].state == StepState::Missing);
            assert(steps[j] == rest[j]);
        } else {
            assert(steps[steps.len() - 1].id@ == id);
        }
    }
}

/// Each finding is judged for itself, and what stands in the way is named in the order of the
/// findings.
pub proof fn law_findings_are_judged_one_by_one(a: Seq<Step>, b: Seq<Step>, s: Step)
    ensures
        blocking(a + b) == blocking(a) + blocking(b),
        blocking(seq![s]) == (if s.id@ != "profile"@ && s.id@ != "launch"@ && (s.state
            == StepState::Failed || s.state == StepState::Missing) {
            seq![s.id@]
        } else {
            seq![]
        }),
    decreases b.len(),
{
    assert(seq![s].drop_last() =~= Seq::<Step>::empty());
    assert(seq![s].last() == s);
    assert(blocking(Seq::<Step>::empty()) =~= Seq::<Seq<char>>::empty());
    if b.len() == 0 {
        assert(a + b =~= a);
    } else {
        assert((a + b).drop_last() =~= a + b.drop_last());
        assert((a + b).last() == b.last());
        law_findings_are_judged_one_by_one(a, b.drop_last(), s);
    }
}

/// Node.js is to be installed exactly where it or npm is missing or does not work, and dsh
/// exactly where it is; Node.js comes first, and nothing else is installed from here.
pub proof fn law_what_is_missing_is_installed(steps: Seq<Step>)
    ensures
        auto(steps).contains("node"@) <==> exists|i: int|
            0 <= i < steps.len() && ((#[trigger] steps[i]).id@ == "node"@ || steps[i].id@
                == "npm"@) && (steps[i].state == StepState::Failed || steps[i].state
                == StepState::Missing),
        auto(steps).contains("dsh"@) <==> exists|i: int|
            0 <= i < steps.len() && (#[trigger] steps[i]).id@ == "dsh"@ && (steps[i].state
                == StepState::Failed || steps[i].state == StepState::Missing),
        auto(steps).contains("node"@) && auto(steps).contains("dsh"@) ==> auto(steps) == seq![
            "node"@,
            "dsh"@,
        ],
        auto(steps).len() <= 2,
        forall|id: Seq<char>| #[trigger]
            auto(steps).contains(id) ==> id == "node"@ || id == "dsh"@,
        auto(steps).no_duplicates(),
{
    reveal_strlit("node");
    reveal_strlit("dsh");
    assert("node"@.len() != "dsh"@.len());
    let a = auto(steps);
    if lacks(steps, "node"@) || lacks(steps, "npm"@) {
        assert(a[0] == "node"@);
        if lacks(steps, "dsh"@) {
            assert(a[1] == "dsh"@);
            assert(a =~= seq!["node"@, "dsh"@]);
        }
    } else if lacks(steps, "dsh"@) {
        assert(a[0] == "dsh"@);
    }
}

/// A Node.js is in order exactly where it ended well and told a version from 18 on. One that
/// could not be run is a failure that can be mended from here; none at all is missing.
pub proof fn law_node_is_judged_by_its_answer(
    path: &str,
    ran: &Result<Output, String>,
    r: Step,
    none: Step,
)
    requires
        answerable(*ran),
        call_ensures(probe_node_at, (Some((path, ran)),), r),
        call_ensures(probe_node_at, (None::<(&str, &Result<Output, String>)>,), none),
    ensures
        r.id@ == "node"@ && none.id@ == "node"@,
        text::option_text(r.source) == Some(path@),
        (*ran matches Ok(out) && !out.timed_out && out.code == Some(0i32)) ==> {
            &&& r.state == StepState::Good <==> (printed_version(ran->Ok_0) matches Some(v)
                && v.0 >= 18)
            &&& r.state == StepState::Good || r.state == StepState::Warn
            &&& r.hint is None
        },
        (*ran matches Ok(out) && (out.timed_out || out.code != Some(0i32))) ==> r.state
            == StepState::Failed && (r.hint matches Some(h) && h.auto),
        *ran is Err ==> r.state == StepState::Failed && (r.hint matches Some(h) && h.auto),
        none.state == StepState::Missing && (none.hint matches Some(h) && h.auto),
{
}

/// An npm is in order exactly where it ended well. At a path it fails otherwise; without a
/// path it is missing. Either can be mended from here.
pub proof fn law_npm_is_judged_by_its_answer(
    path: &str,
    ran: &Result<Output, String>,
    placed: Step,
    unplaced: Step,
)
    requires
        answerable(*ran),
        call_ensures(probe_npm_at, (path, ran), placed),
        call_ensures(probe_npm, (ran,), unplaced),
    ensures
        placed.id@ == "npm"@ && unplaced.id@ == "npm"@,
        text::option_text(placed.source) == Some(path@),
        unplaced.source is None,
        (*ran matches Ok(out) && !out.timed_out && out.code == Some(0i32)) ==> placed.state
            == StepState::Good && unplaced.state == StepState::Good && placed.hint is None
            && unplaced.hint is None,
        !(*ran matches Ok(out) && !out.timed_out && out.code == Some(0i32)) ==> placed.state
            == StepState::Failed && unplaced.state == StepState::Missing && (placed.hint matches
            Some(h) && h.auto) && (unplaced.hint matches Some(h) && h.auto),
{
}

/// A dsh that was found is in order whatever it answers, and is shown with its path and with
/// the version it printed, or else the one npm knows; where none was found it is missing, and
/// can be installed from here.
pub proof fn law_dsh_that_is_there_is_in_order(
    path: &str,
    ran: &Result<Output, String>,
    installed: Option<&str>,
    r: Step,
    none: Step,
)
    requires
        call_ensures(probe_dsh, (Some((path, ran)), installed), r),
        call_ensures(probe_dsh, (None::<(&str, &Result<Output, String>)>, installed), none),
    ensures
        r.id@ == "dsh"@ && none.id@ == "dsh"@,
        r.state == StepState::Good && r.hint is None,
        text::option_text(r.source) == Some(path@),
        text::ends(r.detail@, path@),
        (*ran matches Ok(out) && proc::version_from(out.stdout@, 0) is Some) ==> text::starts(
            r.detail@,
            proc::version_from(ran->Ok_0.stdout@, 0)->Some_0,
        ),
        (*ran matches Ok(out) && proc::version_from(out.stdout@, 0) is None
            && proc::version_from(out.stderr@, 0) is Some) ==> text::starts(
            r.detail@,
            proc::version_from(ran->Ok_0.stderr@, 0)->Some_0,
        ),
        (*ran is Err || (*ran matches Ok(out) && proc::version_from(out.stdout@, 0) is None
            && proc::version_from(out.stderr@, 0) is None)) && installed is Some ==> text::starts(
            r.detail@,
            installed->Some_0@,
        ),
        none.state == StepState::Missing && (none.hint matches Some(h) && h.auto),
{
    let head = match dsh_said(*ran) {
        Some(v) => v,
        None => match installed {
            Some(v) => v@,
            None => "已安装（版本未知）"@,
        },
    };
    let d = r.detail@;
    assert(d.subrange(d.len() - path@.len(), d.len() as int) =~= path@);
    if dsh_said(*ran) is Some || installed is Some {
        text::law_prefix_is_taken_off(head, " · "@ + path@, Seq::empty());
        assert(head + (" · "@ + path@) =~= d);
    }
}

/// A path that the user names is accepted for Node.js, npm and dsh only. A dsh that is named
/// is refused exactly where it cannot be started, where its time is up before it told a
/// version, or where it failed without a word.
#[verifier::rlimit(50)]
pub proof fn law_named_dsh_has_to_answer(
    id: &str,
    path: &str,
    ran: &Result<Output, String>,
    installed: Option<&str>,
    r: Result<Step, String>,
)
    requires
        id@ == "node"@ || id@ == "npm"@ ==> answerable(*ran),
        call_ensures(probe_with_path, (id, path, ran, installed), r),
    ensures
        r is Ok <==> id@ == "node"@ || id@ == "npm"@ || id@ == "dsh"@,
        r matches Ok(s) ==> s.id@ == id@ && text::option_text(s.source) == Some(path@),
        id@ == "dsh"@ ==> (r->Ok_0.state == StepState::Good <==> (*ran matches Ok(out) && !(
        out.timed_out && proc::version_from(out.stdout@, 0) is None && proc::version_from(
            out.stderr@,
            0,
        ) is None) && !(out.code != Some(0i32) && text::trimmed(out.stdout@) == Seq::<
            char,
        >::empty() && text::trimmed(out.stderr@) == Seq::<char>::empty()))),
        id@ == "dsh"@ && r->Ok_0.state != StepState::Good ==> r->Ok_0.state == StepState::Failed,
        id@ == "node"@ && r->Ok_0.state == StepState::Good ==> (*ran matches Ok(out)
            && !out.timed_out && out.code == Some(0i32) && (printed_version(out) matches Some(v)
            && v.0 >= 18)),
        id@ == "npm"@ ==> (r->Ok_0.state == StepState::Good <==> (*ran matches Ok(out)
            && !out.timed_out && out.code == Some(0i32))),
{
    reveal_strlit("node");
    reveal_strlit("npm");
    reveal_strlit("dsh");
    assert("npm"@[0] != "dsh"@[0]);
    assert("node"@.len() != "npm"@.len());
    if let Ok(out) = *ran {
        assert(text::trimmed(out.stdout@).len() == 0 <==> text::trimmed(out.stdout@) =~= Seq::<
            char,
        >::empty());
        assert(text::trimmed(out.stderr@).len() == 0 <==> text::trimmed(out.stderr@) =~= Seq::<
            char,
        >::empty());
    }
}

/// The profile directory is in order exactly where it could be made and written to; else it is
/// a warning that names the directory and the reason, never a failure.
pub proof fn law_profile_is_a_warning_at_most(
    dir: &str,
    created: &Result<(), String>,
    written: &Result<(), String>,
    r: Step,
)
    requires
        call_ensures(probe_profile, (dir, created, written), r),
    ensures
        r.id@ == "profile"@,
        r.state == StepState::Good <==> *created is Ok && *written is Ok,
        r.state == StepState::Good || r.state == StepState::Warn,
        *created matches Err(e) ==> text::ends(r.detail@, e@),
        *created is Ok && *written is Err ==> text::ends(r.detail@, written->Err_0@),
{
    let d = r.detail@;
    match *created {
        Err(e) => {
            assert(d.subrange(d.len() - e@.len(), d.len() as int) =~= e@);
        },
        Ok(_) => {
            if let Err(e) = *written {
                assert(d.subrange(d.len() - e@.len(), d.len() as int) =~= e@);
            }
        },
    }
}

/// WebView2 never stands in the way: its version is the last word of the first answer that
/// succeeded and ends in a word that begins with a digit; where there is none this is a
/// warning.
pub proof fn law_webview_is_read_from_the_first_answer(
    outs: &Vec<Option<Output>>,
    i: int,
    r: Step,
)
    requires
        call_ensures(probe_webview, (outs,), r),
        0 <= i <= outs@.len(),
        forall|j: int| 0 <= j < i ==> !tells_webview(#[trigger] outs@[j]),
    ensures
        r.id@ == "webview"@,
        i == outs@.len() ==> r.state == StepState::Warn && (r.hint matches Some(h) && !h.auto),
        i < outs@.len() && tells_webview(outs@[i]) ==> r.state == StepState::Good && text::starts(
            r.detail@,
            text::words(outs@[i]->Some_0.stdout@).last(),
        ),
{
    lemma_webview_version(outs@, i);
    if i < outs@.len() && tells_webview(outs@[i]) {
        let w = text::words(outs@[i]->Some_0.stdout@).last();
        text::law_prefix_is_taken_off(w, Seq::empty(), Seq::empty());
        assert(w + Seq::<char>::empty() =~= w);
        text::law_prefix_is_taken_off(w, "（偏低，建议更新）"@, Seq::empty());
    }
}

/// An answer of the registry succeeded and ends in a word that begins with a digit.
pub open spec fn tells_webview(out: Option<Output>) -> bool {
    out matches Some(o) && o.code == Some(0i32) && text::words(o.stdout@).len() > 0 && text::words(
        o.stdout@,
    ).last().len() > 0 && '0' <= text::words(o.stdout@).last()[0] <= '9'
}

proof fn lemma_webview_version(outs: Seq<Option<Output>>, i: int)
    requires
        0 <= i <= outs.len(),
        forall|j: int| 0 <= j < i ==> !tells_webview(#[trigger] outs[j]),
    ensures
        i == outs.len() ==> webview_version(outs) is None,
        i < outs.len() && tells_webview(outs[i]) ==> webview_version(outs) == Some(
            text::words(outs[i]->Some_0.stdout@).last(),
        ),
    decreases outs.len(),
{
    if i > 0 {
        assert(!tells_webview(outs[0]));
        assert forall|j: int| 0 <= j < i - 1 implies !tells_webview(
            #[trigger] outs.drop_first()[j],
        ) by {
            assert(outs.drop_first()[j] == outs[j + 1]);
        }
        lemma_webview_version(outs.drop_first(), i - 1);
    }
}

/// Each thing that is examined has a name of its own, and only what is not known shares one.
#[verifier::rlimit(50)]
pub proof fn law_findings_have_their_own_names(a: Seq<char>, b: Seq<char>)
    requires
        seq!["webview"@, "node"@, "npm"@, "dsh"@, "profile"@, "launch"@].contains(a),
    ensures
        label(a) == label(b) ==> a == b,
{
    reveal_strlit("webview");
    reveal_strlit("node");
    reveal_strlit("npm");
    reveal_strlit("dsh");
    reveal_strlit("profile");
    reveal_strlit("launch");
    assert("webview"@[0] == 'w' && "node"@[1] == 'o' && "npm"@[1] == 'p' && "dsh"@[0] == 'd'
        && "profile"@[0] == 'p' && "launch"@[0] == 'l' && "node"@[0] == 'n' && "npm"@[0] == 'n');
    reveal_strlit("WebView2 运行环境");
    reveal_strlit("Node.js 运行时");
    reveal_strlit("npm 包管理器");
    reveal_strlit("dsh 命令行（DeepSeek Harness）");
    reveal_strlit("dsh 配置目录可写");
    reveal_strlit("启动 DeepSeek Harness");
    reveal_strlit("检查项");
    assert("WebView2 运行环境"@[0] == 'W' && "Node.js 运行时"@[0] == 'N' && "npm 包管理器"@[0]
        == 'n' && "dsh 命令行（DeepSeek Harness）"@[4] == '命' && "dsh 配置目录可写"@[4]
        == '配' && "dsh 命令行（DeepSeek Harness）"@[0] == 'd' && "dsh 配置目录可写"@[0] == 'd'
        && "启动 DeepSeek Harness"@[0] == '启' && "检查项"@[0] == '检');
}

/// A finding on Node.js shows its path, with the version it told where it told one and with the
/// reason where it could not be run.
pub proof fn law_node_is_shown_with_its_path(path: &str, ran: &Result<Output, String>, r: Step)
    requires
        answerable(*ran),
        call_ensures(probe_node_at, (Some((path, ran)),), r),
    ensures
        text::has(r.detail@, path@),
        (*ran matches Ok(out) && !out.timed_out && out.code == Some(0i32) && printed_version(out)
            is Some) ==> text::starts(
            r.detail@,
            "v"@ + dotted_numbers(printed_version(ran->Ok_0)->Some_0),
        ),
        (*ran matches Ok(out) && (out.timed_out || out.code != Some(0i32))) ==> text::ends(
            r.detail@,
            ran->Ok_0.diagnosis(),
        ),
        *ran matches Err(e) ==> text::ends(r.detail@, e@),
{
    let d = r.detail@;
    let none = Seq::<char>::empty();
    match *ran {
        Ok(out) => {
            if out.succeeded() {
                let head = match printed_version(out) {
                    Some(v) => {
                        let n = "v"@ + dotted_numbers(v);
                        if v.0 >= 18 {
                            text::law_prefix_is_taken_off(n, " · "@ + path@, none);
                            assert(n + (" · "@ + path@) =~= d);
                            n + " · "@
                        } else {
                            text::law_prefix_is_taken_off(
                                n,
                                " 过低（需要 ≥ 18.0） · "@ + path@,
                                none,
                            );
                            assert(n + (" 过低（需要 ≥ 18.0） · "@ + path@) =~= d);
                            n + " 过低（需要 ≥ 18.0） · "@
                        }
                    },
                    None => "已安装，版本未知 · "@,
                };
                text::law_prefix_is_taken_off(path@, head, none);
                assert(head + path@ + none =~= d);
            } else {
                lemma_shown_failure(d, "无法执行："@, path@, out.diagnosis());
            }
        },
        Err(e) => {
            lemma_shown_failure(d, "无法执行："@, path@, e@);
        },
    }
}

proof fn lemma_shown_failure(d: Seq<char>, head: Seq<char>, path: Seq<char>, why: Seq<char>)
    requires
        d == head + path + " · "@ + why,
    ensures
        text::has(d, path),
        text::ends(d, why),
{
    text::law_prefix_is_taken_off(path, head, " · "@ + why);
    assert(head + path + (" · "@ + why) =~= d);
    assert(d.subrange(d.len() - why.len(), d.len() as int) =~= why);
}

/// A finding on npm shows the version it told, and its path where that is known; where it could
/// not be run it shows the reason.
pub proof fn law_npm_is_shown_with_its_version(
    path: &str,
    ran: &Result<Output, String>,
    placed: Step,
    unplaced: Step,
)
    requires
        answerable(*ran),
        call_ensures(probe_npm_at, (path, ran), placed),
        call_ensures(probe_npm, (ran,), unplaced),
    ensures
        text::has(placed.detail@, path@),
        (*ran matches Ok(out) && !out.timed_out && out.code == Some(0i32)) ==> text::starts(
            unplaced.detail@,
            text::trimmed(ran->Ok_0.stdout@),
        ),
        (*ran matches Ok(out) && !out.timed_out && out.code == Some(0i32) && proc::version_from(
            out.stdout@,
            0,
        ) is Some) ==> text::starts(
            placed.detail@,
            proc::version_from(ran->Ok_0.stdout@, 0)->Some_0,
        ),
        (*ran matches Ok(out) && (out.timed_out || out.code != Some(0i32))) ==> text::ends(
            placed.detail@,
            ran->Ok_0.diagnosis(),
        ) && text::ends(unplaced.detail@, ran->Ok_0.diagnosis()),
        *ran matches Err(e) ==> text::ends(placed.detail@, e@) && text::ends(unplaced.detail@, e@),
{
    let d = placed.detail@;
    let u = unplaced.detail@;
    let none = Seq::<char>::empty();
    match *ran {
        Ok(out) => {
            if out.succeeded() {
                let t = text::trimmed(out.stdout@);
                text::law_prefix_is_taken_off(t, " · 由 PATH 解析（路径未知）"@, none);
                let head = match proc::version_from(out.stdout@, 0) {
                    Some(v) => {
                        text::law_prefix_is_taken_off(v, " · "@ + path@, none);
                        assert(v + (" · "@ + path@) =~= d);
                        v + " · "@
                    },
                    None => "已安装 · "@,
                };
                text::law_prefix_is_taken_off(path@, head, none);
                assert(head + path@ + none =~= d);
            } else {
                lemma_shown_failure(d, "这个文件跑不出 npm 版本："@, path@, out.diagnosis());
                text::law_prefix_is_taken_off(out.diagnosis(), "未检测到 npm。"@, none);
            }
        },
        Err(e) => {
            lemma_shown_failure(d, "无法执行："@, path@, e@);
            text::law_prefix_is_taken_off(e@, "未检测到 npm。"@, none);
        },
    }
}

/// A version of WebView2 is shown as it is, and marked where its first number is below 93.
pub proof fn law_old_webview_is_marked(v: Seq<char>, a: u32, b: u32, c: u32)
    requires
        proc::version_from(v, 0) matches Some(tok) && proc::version_numbers(tok) == Some((a, b, c)),
    ensures
        a >= 93 ==> webview_detail(v) == v,
        a < 93 ==> webview_detail(v) == v + "（偏低，建议更新）"@,
{
}

/// The version that npm knows is the one in its answer, however it ended; that of dsh is the
/// first one in its output, or else on its error channel, however it ended.
pub proof fn law_versions_are_read_however_it_ended(
    out: Output,
    package: &str,
    known: Option<String>,
    said: Option<String>,
)
    requires
        call_ensures(npm_global_version, (&Ok::<Output, String>(out), package), known),
        call_ensures(dsh_version, (&Ok::<Output, String>(out),), said),
    ensures
        crate::json::json_read(out.stdout@) matches Ok(doc) ==> text::option_text(known)
            == crate::json::str_of(
            crate::json::get_in(
                crate::json::get_in(crate::json::get(doc, "dependencies"@), package@),
                "version"@,
            ),
        ),
        crate::json::json_read(out.stdout@) is Err ==> known is None,
        proc::version_from(out.stdout@, 0) is Some ==> text::option_text(said)
            == proc::version_from(out.stdout@, 0),
        proc::version_from(out.stdout@, 0) is None ==> text::option_text(said)
            == proc::version_from(out.stderr@, 0),
{
}

/// A program at a path that the user names is asked for its version; no other thing can be
/// named.
pub proof fn law_named_program_is_asked_for_its_version(
    id: &str,
    path: &str,
    r: Result<Launch, String>,
)
    requires
        call_ensures(path_query, (id, path), r),
    ensures
        r is Ok <==> id@ == "node"@ || id@ == "npm"@ || id@ == "dsh"@,
        r matches Ok(l) ==> l.args@.len() > 0 && text::texts(l.args@).last() == "--version"@ && (
        l.program@ == path@ || text::texts(l.args@).contains(path@)),
        r matches Err(e) ==> text::starts(e@, id@),
{
    if let Ok(l) = r {
        let args = text::texts(l.args@);
        assert(args.len() == l.args@.len());
        if proc::batch_file(path@) {
            assert(args[1] == path@);
        }
    }
    text::law_prefix_is_taken_off(id@, " 不支持指定路径"@, Seq::empty());
}

/// What stands in the way and what can be installed is named as it was found.
pub proof fn law_findings_are_named(
    steps: &Vec<Step>,
    i: int,
    blocked: Vec<String>,
    installable: Vec<&'static str>,
)
    requires
        call_ensures(blocking_ids, (steps,), blocked),
        call_ensures(auto_ids, (steps,), installable),
        0 <= i < steps@.len(),
        steps@[i].state == StepState::Failed || steps@[i].state == StepState::Missing,
    ensures
        steps@[i].id@ != "profile"@ && steps@[i].id@ != "launch"@ ==> text::texts(
            blocked@,
        ).contains(steps@[i].id@),
        steps@[i].id@ == "node"@ || steps@[i].id@ == "npm"@ ==> text::slices(
            installable@,
        ).contains("node"@),
        steps@[i].id@ == "dsh"@ ==> text::slices(installable@).contains("dsh"@),
{
    law_what_does_not_work_blocks(steps@, i);
    law_what_is_missing_is_installed(steps@);
}

/// A finding is what it was made of, under the label of its name.
pub proof fn law_findings_are_what_they_are_made_of(
    id: &str,
    state: StepState,
    detail: String,
    hint: Option<Hint>,
    source: Option<String>,
    r: Step,
    launch: Step,
    checking: Step,
    unknown: Step,
)
    requires
        call_ensures(mk, (id, state, detail, hint, source), r),
        call_ensures(launch_step, (state, detail), launch),
        call_ensures(checking_step, (id,), checking),
        call_ensures(unknown_step, (id,), unknown),
    ensures
        r.id@ == id@ && r.state == state && r.detail@ == detail@ && r.hint == hint
            && text::option_text(r.source) == text::option_text(source),
        launch.id@ == "launch"@ && launch.state == state && launch.detail@ == detail@,
        checking.id@ == id@ && checking.state == StepState::Checking,
        unknown.id@ == id@ && unknown.state == StepState::Warn,
        r.label@ == checking.label@ && r.label@ == unknown.label@,
{
}

/// All that a start rests on is examined, and each of it once.
pub proof fn law_everything_is_examined_once(r: Vec<&'static str>)
    requires
        call_ensures(ids, (), r),
    ensures
        text::slices(r@).contains("webview"@) && text::slices(r@).contains("node"@)
            && text::slices(r@).contains("npm"@) && text::slices(r@).contains("dsh"@)
            && text::slices(r@).contains("profile"@),
        r@.len() == 5,
{
    let s = text::slices(r@);
    assert(s.len() == r@.len());
    assert(s[0] == "webview"@ && s[1] == "node"@ && s[2] == "npm"@ && s[3] == "dsh"@ && s[4]
        == "profile"@);
}

/// What is asked of the programs is their version, and of npm what is installed for all, each
/// for a limited time.
pub proof fn law_programs_are_asked_for_their_version(
    path: &str,
    package: &str,
    version: Launch,
    shell: Launch,
    global: Launch,
)
    requires
        call_ensures(version_query, (path,), version),
        call_ensures(npm_shell_query, (), shell),
        call_ensures(npm_global_query, (package,), global),
    ensures
        text::texts(version.args@).len() > 0 && text::texts(version.args@).last() == "--version"@,
        shell.program@ == "cmd"@ && text::texts(shell.args@) == seq![
            "/c"@,
            "npm"@,
            "--version"@,
        ],
        global.program@ == "cmd"@ && text::texts(global.args@).contains(package@) && text::texts(
            global.args@,
        ).contains("-g"@) && text::texts(global.args@).contains("--json"@),
        version.timeout_ms == 5_000 && shell.timeout_ms == 5_000 && global.timeout_ms == 20_000,
{
    let g = text::texts(global.args@);
    assert(g[3] == "-g"@ && g[4] == package@ && g[6] == "--json"@);
}

/// What a user is told to type gets what is missing: Node.js from winget, dsh from npm for all,
/// and either can be had from here instead.
pub proof fn law_hints_get_what_is_missing(node: Hint, dsh: Hint)
    requires
        call_ensures(hint_node, (), node),
        call_ensures(hint_dsh, (), dsh),
    ensures
        text::starts(node.command@, "winget install"@) && text::has(
            node.command@,
            "OpenJS.NodeJS.LTS"@,
        ) && node.auto,
        text::starts(dsh.command@, "npm i -g"@) && text::ends(dsh.command@, "@deepseek-ai/dsh"@)
            && dsh.auto,
        text::starts(node.url@, "https://"@) && text::starts(dsh.url@, "https://"@),
{
    reveal_strlit("winget install --id OpenJS.NodeJS.LTS --exact");
    reveal_strlit("winget install");
    reveal_strlit("OpenJS.NodeJS.LTS");
    reveal_strlit("npm i -g @deepseek-ai/dsh");
    reveal_strlit("npm i -g");
    reveal_strlit("@deepseek-ai/dsh");
    reveal_strlit("https://nodejs.org/en/download");
    reveal_strlit("https://github.com/deepseek-ai/deepseek-harness");
    reveal_strlit("https://");
    assert(node.command@.subrange(0, 14) =~= "winget install"@);
    assert(node.command@.subrange(20, 37) =~= "OpenJS.NodeJS.LTS"@);
    assert(text::occurs_at(node.command@, "OpenJS.NodeJS.LTS"@, 20));
    assert(dsh.command@.subrange(0, 8) =~= "npm i -g"@);
    assert(dsh.command@.subrange(9, 25) =~= "@deepseek-ai/dsh"@);
    assert(node.url@.subrange(0, 8) =~= "https://"@);
    assert(dsh.url@.subrange(0, 8) =~= "https://"@);
}

/// WebView2 is looked for under three keys, each asked for its version; what a profile needs
/// lies in `.dsh` in the user's directory.
pub proof fn law_registry_is_asked_for_the_version(
    keys: Vec<&'static str>,
    key: &str,
    query: Launch,
    user: Option<&str>,
    home: String,
)
    requires
        call_ensures(webview_keys, (), keys),
        call_ensures(webview_query, (key,), query),
        call_ensures(profile_home, (user,), home),
    ensures
        keys@.len() == 3,
        query.program@ == "reg"@ && text::texts(query.args@) == seq!["query"@, key@, "/v"@, "pv"@],
        user matches Some(u) ==> home@ == config::within(u@, ".dsh"@),
{
    assert(text::slices(keys@).len() == keys@.len());
    reveal_strlit("reg");
    reveal_strlit(".cmd");
    reveal_strlit(".bat");
    assert(text::lower("reg"@).len() == 3);
}

} // verus!
