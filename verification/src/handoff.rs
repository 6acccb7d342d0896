//! Starting the backend and waiting for its address.

use vstd::prelude::*;
use vstd::slice::slice_subrange;

use crate::doctor;
use crate::doctor::{Step, StepState};
use crate::page;
use crate::state;
use crate::state::{AppState, Shell};
use crate::text;

verus! {

/// How long the backend may take to print its address.
pub const STARTUP_TIMEOUT_SECS: u64 = 60;

/// How many lines of the backend's error channel are kept.
pub const STDERR_TAIL: usize = 12;

/// How long the removal of stale cookies may take before the window goes on without it.
pub const PURGE_TIMEOUT_MS: u64 = 2_000;

/// Has the start page fade out.
pub const LEAVE_JS: &'static str = "window.__dshell&&window.__dshell.leave()";

// ───────────────────────── the command ─────────────────────────

/// How the backend is started.
pub struct Spawn {
    pub program: String,
    pub args: Vec<String>,
    /// What is set in its environment.
    pub env: Vec<(String, String)>,
}

/// The environment of the backend: the search path, and where it finds the directory picker
/// where that is served.
pub open spec fn spawn_env(
    path_env: Seq<char>,
    port: u16,
    token: Option<Seq<char>>,
) -> Seq<(Seq<char>, Seq<char>)> {
    let path = seq![("PATH"@, path_env)];
    if port == 0 {
        path
    } else {
        let with_port = path.push(("DSHELL_PICKER_PORT"@, text::decimal(port as nat)));
        match token {
            Some(t) => with_port.push(("DSHELL_PICKER_TOKEN"@, t)),
            None => with_port,
        }
    }
}

/// Pairs of texts as values.
pub open spec fn pairs(v: Seq<(String, String)>) -> Seq<(Seq<char>, Seq<char>)> {
    v.map_values(|p: (String, String)| (p.0@, p.1@))
}

fn set_var(env: &mut Vec<(String, String)>, name: &str, value: &str)
    ensures
        pairs(final(env)@) == pairs(old(env)@).push((name@, value@)),
{
    env.push((text::copy(name), text::copy(value)));
    assert(pairs(env@) =~= pairs(old(env)@).push((name@, value@)));
}

/// How the backend is started: it picks its own port, prints its address, and opens no browser.
/// Without the variables of the picker the backend keeps its own.
pub fn spawn_dsh(path_env: &str, port: u16, token: Option<&str>) -> (r: Spawn)
    ensures
        r.program@ == "cmd"@,
        text::texts(r.args@) == seq!["/c"@, "dsh"@, "web"@, "--port"@, "0"@, "--no-open"@],
        pairs(r.env@) == spawn_env(path_env@, port, text::option_str(token)),
{
    let mut args: Vec<String> = Vec::new();
    args.push(text::copy("/c"));
    args.push(text::copy("dsh"));
    args.push(text::copy("web"));
    args.push(text::copy("--port"));
    args.push(text::copy("0"));
    args.push(text::copy("--no-open"));
    assert(text::texts(args@) =~= seq!["/c"@, "dsh"@, "web"@, "--port"@, "0"@, "--no-open"@]);
    let mut env: Vec<(String, String)> = Vec::new();
    set_var(&mut env, "PATH", path_env);
    assert(pairs(env@) =~= seq![("PATH"@, path_env@)]);
    if port != 0 {
        let p = text::decimal_text(port as u64);
        set_var(&mut env, "DSHELL_PICKER_PORT", p.as_str());
        match token {
            Some(t) => {
                set_var(&mut env, "DSHELL_PICKER_TOKEN", t);
            },
            None => {},
        }
    }
    Spawn { program: text::copy("cmd"), args, env }
}

/// The arguments of `cmd` that hand an address to the system's browser. The empty one stands
/// where `start` expects a title.
pub fn open_in_browser(url: &str) -> (r: Vec<String>)
    ensures
        text::texts(r@) == seq!["/c"@, "start"@, ""@, url@],
{
    let mut args: Vec<String> = Vec::new();
    args.push(text::copy("/c"));
    args.push(text::copy("start"));
    args.push(text::copy(""));
    args.push(text::copy(url));
    assert(text::texts(args@) =~= seq!["/c"@, "start"@, ""@, url@]);
    args
}

// ───────────────────────── waiting for the address ─────────────────────────

/// The address that a line announces: the first word behind `dsh web: `, where it is one. A
/// line such as `dsh web: opening the default browser` announces none.
pub open spec fn announced(line: Seq<char>) -> Option<Seq<char>> {
    if !text::starts(line, "dsh web: "@) {
        None
    } else {
        let words = text::words(line.skip("dsh web: "@.len() as int));
        if words.len() > 0 && text::starts(words[0], "http"@) {
            Some(words[0])
        } else {
            None
        }
    }
}

/// A line that shows that the backend is alive.
pub open spec fn alive(line: Seq<char>) -> bool {
    !text::starts(line, "dsh web: "@) && text::utf8_len(text::trimmed(line)) > 2
}

/// Keeps a line of the backend's error channel, and of those before it only the last ones.
pub fn keep_tail(tail: &mut Vec<String>, line: &str)
    ensures
        text::texts(final(tail)@) == text::last_of(
            text::texts(old(tail)@).push(line@),
            STDERR_TAIL as int,
        ),
        final(tail)@.len() <= STDERR_TAIL,
{
    let ghost all = text::texts(tail@).push(line@);
    tail.push(text::copy(line));
    assert(text::texts(tail@) =~= all);
    assert(all.skip(0) =~= all);
    let ghost total = tail@.len();
    while tail.len() > STDERR_TAIL
        invariant
            total == all.len(),
            tail@.len() <= total,
            tail@.len() >= STDERR_TAIL || tail@.len() == total,
            text::texts(tail@) == all.skip(total - tail@.len()),
        decreases tail.len(),
    {
        let ghost before = tail@;
        tail.remove(0);
        assert(tail@ =~= before.skip(1));
        assert(text::texts(tail@) =~= text::texts(before).skip(1));
        assert(text::texts(tail@) =~= all.skip(total - tail@.len()));
    }
}

/// What is heard while waiting.
pub enum Heard {
    /// A line of the backend's output.
    Line(String),
    /// Its output ended.
    Closed,
    /// The time is up.
    Timeout,
}

/// What follows from it.
pub enum Wait {
    Go,
    /// Show this on the start page, and go on.
    Show(String),
    Done(Result<String, String>),
}

pub open spec fn exited_card(tail: Seq<Seq<char>>) -> Seq<char> {
    "<b>dsh 还没打印地址就退出了</b>\n\n常见原因：\n· dsh 的 profile 目录 <code>%USERPROFILE%\\.dsh</code> 不可写\n· 杀毒软件 / 安全策略拦住了 Node.js 监听本地端口\n\n直接在终端里跑 <code>dsh web</code> 可以看到原始报错。"@
        + page::tail_shown(tail)
}

pub open spec fn timeout_card() -> Seq<char> {
    "<b>等待 dsh 启动超时（"@ + text::decimal(STARTUP_TIMEOUT_SECS as nat)
        + " 秒）</b>\n\n它在超时前没有打印出监听地址。可以试试：\n· 在终端里手动跑 <code>dsh web</code>，确认它自己能起来\n· 检查杀毒软件 / 安全策略是否拦住了 Node.js 监听本地端口\n\n完整日志：<code>%USERPROFILE%\\.dshell\\dshell-poc.log</code>"@
}

/// One step of the wait for the backend's address. `saw_output` says whether a sign of life
/// was shown already; `tail` holds the last lines of the error channel.
pub fn wait_for_url(saw_output: &mut bool, heard: Heard, tail: &Vec<String>) -> (r: Wait)
    ensures
        match heard {
            Heard::Line(l) => match announced(l@) {
                Some(url) => {
                    &&& r matches Wait::Done(Ok(u))
                    &&& u@ == url
                    &&& *final(saw_output) == *old(saw_output)
                },
                None => if alive(l@) && !*old(saw_output) {
                    &&& r matches Wait::Show(s)
                    &&& s@ == "正在启动 DeepSeek Harness"@
                    &&& *final(saw_output)
                } else {
                    r is Go && *final(saw_output) == *old(saw_output)
                },
            },
            Heard::Closed => {
                &&& r matches Wait::Done(Err(e))
                &&& e@ == exited_card(text::texts(tail@))
                &&& *final(saw_output) == *old(saw_output)
            },
            Heard::Timeout => {
                &&& r matches Wait::Done(Err(e))
                &&& e@ == timeout_card()
                &&& *final(saw_output) == *old(saw_output)
            },
        },
{
    match heard {
        Heard::Line(l) => {
            let line = text::chars(l.as_str());
            let mark = text::chars("dsh web: ");
            if !text::starts_with(line.as_slice(), mark.as_slice()) {
                if !*saw_output {
                    let t = text::trim_text(l.as_str());
                    if text::byte_len(t.as_str()) > 2 {
                        *saw_output = true;
                        return Wait::Show(text::copy("正在启动 DeepSeek Harness"));
                    }
                }
                return Wait::Go;
            }
            let rest = slice_subrange(line.as_slice(), mark.len(), line.len());
            assert(rest@ =~= line@.skip("dsh web: "@.len() as int));
            let words = text::words_of(rest);
            if words.len() == 0 {
                return Wait::Go;
            }
            let http = text::chars("http");
            assert(text::pieces(words@)[0] == words@[0]@);
            if text::starts_with(words[0], http.as_slice()) {
                Wait::Done(Ok(text::text_of(words[0])))
            } else {
                Wait::Go
            }
        },
        Heard::Closed => {
            let shown = page::err_tail_html(tail);
            Wait::Done(Err(text::cat2("<b>dsh 还没打印地址就退出了</b>\n\n常见原因：\n· dsh 的 profile 目录 <code>%USERPROFILE%\\.dsh</code> 不可写\n· 杀毒软件 / 安全策略拦住了 Node.js 监听本地端口\n\n直接在终端里跑 <code>dsh web</code> 可以看到原始报错。", shown.as_str())))
        },
        Heard::Timeout => {
            let secs = text::decimal_text(STARTUP_TIMEOUT_SECS);
            Wait::Done(Err(text::cat3("<b>等待 dsh 启动超时（", secs.as_str(), " 秒）</b>\n\n它在超时前没有打印出监听地址。可以试试：\n· 在终端里手动跑 <code>dsh web</code>，确认它自己能起来\n· 检查杀毒软件 / 安全策略是否拦住了 Node.js 监听本地端口\n\n完整日志：<code>%USERPROFILE%\\.dshell\\dshell-poc.log</code>")))
        },
    }
}

/// The failure where the backend's output cannot be read at all.
pub fn unreadable_output() -> (r: String)
    ensures
        r@ == "<b>无法读取 dsh 输出</b>\n\nstdout 没有被重定向。"@,
{
    text::copy("<b>无法读取 dsh 输出</b>\n\nstdout 没有被重定向。")
}

// ───────────────────────── the handoff ─────────────────────────

/// What the start page is told.
pub struct Report {
    pub step: Step,
    /// The failure to show.
    pub card: Option<String>,
    /// The version that can be installed again in place of the one that failed.
    pub back: Option<String>,
}

/// A report says this.
pub open spec fn reports(
    r: Report,
    state: StepState,
    detail: Seq<char>,
    card: Option<Seq<char>>,
    back: Option<Seq<char>>,
) -> bool {
    &&& doctor::finds(r.step, "launch"@, state, detail, None)
    &&& r.step.hint is None
    &&& text::option_text(r.card) == card
    &&& text::option_text(r.back) == back
}

impl Shell {
    /// Once the start of the backend began.
    pub open spec fn handing_off(self) -> Shell {
        Shell {
            handoff_started: true,
            dsh_generation: state::after(self.dsh_generation),
            ..self
        }
    }

    /// Once the process of the backend runs, or could not be created.
    pub open spec fn spawned(self, pid: Option<u32>) -> Shell {
        match pid {
            Some(p) => Shell { dsh_pid: p, ..self },
            None => Shell { handoff_started: false, ..self },
        }
    }

    /// Once the backend was reached at an address.
    pub open spec fn entered(self, url: Seq<char>) -> Shell {
        Shell { launch_url: url, previous_dsh: None, ..self }
    }
}

pub open spec fn spawn_card(why: Seq<char>) -> Seq<char> {
    "<b>无法启动 dsh</b>\n\n"@ + why
        + "\n\n完整日志：<code>%USERPROFILE%\\.dshell\\dshell-poc.log</code>"@
}

/// How the wait for the backend ended.
pub enum Arrival {
    /// The backend was stopped meanwhile; nobody is told anything.
    Superseded,
    /// The window goes to the backend, and the start page says so.
    Enter(Report, String),
    Fail(Report),
}

impl AppState {
    /// Begins to start the backend, unless that began already. The result is the generation of
    /// the backend.
    pub fn start_handoff(&mut self) -> (r: Option<u32>)
        ensures
            if old(self)@.handoff_started {
                r is None && final(self)@ == old(self)@
            } else {
                r == Some(final(self)@.dsh_generation) && final(self)@ == old(self)@.handing_off()
            },
    {
        if self.handoff_started {
            return None;
        }
        self.handoff_started = true;
        Some(self.begin_dsh_generation())
    }

    /// The process of the backend was created, or could not be.
    pub fn handoff_spawned(&mut self, spawned: Result<u32, String>) -> (r: Report)
        ensures
            match spawned {
                Ok(pid) => {
                    &&& final(self)@ == old(self)@.spawned(Some(pid))
                    &&& reports(
                        r,
                        StepState::Checking,
                        "已启动 dsh web（pid "@ + text::decimal(pid as nat) + "），等待地址"@,
                        None,
                        None,
                    )
                },
                Err(e) => {
                    &&& final(self)@ == old(self)@.spawned(None)
                    &&& reports(
                        r,
                        StepState::Failed,
                        "无法启动 dsh："@ + e@,
                        Some(spawn_card(e@)),
                        old(self)@.previous_dsh,
                    )
                },
            },
    {
        match spawned {
            Ok(pid) => {
                self.set_dsh_pid(pid);
                let p = text::decimal_text(pid as u64);
                let detail = text::cat3("已启动 dsh web（pid ", p.as_str(), "），等待地址");
                Report { step: doctor::launch_step(StepState::Checking, detail), card: None, back: None }
            },
            Err(e) => {
                self.handoff_started = false;
                let detail = text::cat2("无法启动 dsh：", e.as_str());
                let card = text::cat3(
                    "<b>无法启动 dsh</b>\n\n",
                    e.as_str(),
                    "\n\n完整日志：<code>%USERPROFILE%\\.dshell\\dshell-poc.log</code>",
                );
                Report {
                    step: doctor::launch_step(StepState::Failed, detail),
                    card: Some(card),
                    back: text::copy_option(&self.previous_dsh),
                }
            },
        }
    }

    /// The wait for the backend of a generation ended. `parsed` is its address as the window
    /// takes it, where it takes it. Where the backend was stopped meanwhile its end is none of
    /// anybody's business, whichever it was.
    pub fn handoff_arrived(
        &mut self,
        generation: u32,
        waited: &Result<String, String>,
        parsed: Option<&str>,
    ) -> (r: Arrival)
        ensures
            if old(self)@.dsh_generation != generation {
                r is Superseded && final(self)@ == old(self)@
            } else {
                match (*waited, parsed) {
                    (Ok(_), Some(url)) => {
                        &&& r matches Arrival::Enter(report, status)
                        &&& final(self)@ == old(self)@.entered(url@)
                        &&& reports(
                            report,
                            StepState::Checking,
                            "准备就绪，正在进入"@,
                            None,
                            None,
                        )
                        &&& status@ == "准备就绪，正在进入"@
                    },
                    (Ok(_), None) => {
                        &&& r matches Arrival::Fail(report)
                        &&& final(self)@ == old(self)@
                        &&& reports(
                            report,
                            StepState::Failed,
                            "dsh 打印了无法解析的地址"@,
                            Some(
                                "<b>dsh 打印了无法解析的地址</b>\n\n请检查 dsh 版本，或在日志中查看原始输出。"@,
                            ),
                            old(self)@.previous_dsh,
                        )
                    },
                    (Err(e), _) => {
                        &&& r matches Arrival::Fail(report)
                        &&& final(self)@ == old(self)@
                        &&& reports(
                            report,
                            StepState::Failed,
                            "dsh 没有正常启动"@,
                            Some(e@),
                            old(self)@.previous_dsh,
                        )
                    },
                }
            },
    {
        if !self.is_current_generation(generation) {
            return Arrival::Superseded;
        }
        match waited {
            Ok(_) => match parsed {
                Some(url) => {
                    self.set_launch_url(url);
                    self.previous_dsh = None;
                    Arrival::Enter(
                        Report {
                            step: doctor::launch_step(
                                StepState::Checking,
                                text::copy("准备就绪，正在进入"),
                            ),
                            card: None,
                            back: None,
                        },
                        text::copy("准备就绪，正在进入"),
                    )
                },
                None => Arrival::Fail(
                    Report {
                        step: doctor::launch_step(
                            StepState::Failed,
                            text::copy("dsh 打印了无法解析的地址"),
                        ),
                        card: Some(
                            text::copy(
                                "<b>dsh 打印了无法解析的地址</b>\n\n请检查 dsh 版本，或在日志中查看原始输出。",
                            ),
                        ),
                        back: text::copy_option(&self.previous_dsh),
                    },
                ),
            },
            Err(e) => Arrival::Fail(
                Report {
                    step: doctor::launch_step(StepState::Failed, text::copy("dsh 没有正常启动")),
                    card: Some(text::copy(e.as_str())),
                    back: text::copy_option(&self.previous_dsh),
                },
            ),
        }
    }
}

// ───────────────────────── laws ─────────────────────────

/// While a backend is being started, or runs, no other is started.
pub proof fn law_one_backend_at_a_time(s: Shell, pid: Option<u32>)
    requires
        s.at_most_one(),
        !s.handoff_started,
    ensures
        s.dsh_pid == 0,
        s.handing_off().handoff_started,
        s.handing_off().at_most_one(),
        s.handing_off().spawned(pid).at_most_one(),
        pid is Some ==> s.handing_off().spawned(pid).handoff_started,
{
}

/// A start that failed leaves the way free for the next one.
pub proof fn law_failed_start_can_be_repeated(s: Shell)
    ensures
        !s.handing_off().spawned(None).handoff_started,
{
}

/// The lines that are kept of the error channel are never more than so many, always the latest
/// ones, and the same whether or not those before them were dropped meanwhile.
pub proof fn law_tail_is_the_latest(lines: Seq<Seq<char>>, line: Seq<char>, n: int)
    requires
        0 < n,
    ensures
        text::last_of(lines, n).len() <= n,
        lines == lines.take(lines.len() - text::last_of(lines, n).len()) + text::last_of(lines, n),
        text::last_of(text::last_of(lines, n).push(line), n) == text::last_of(lines.push(line), n),
{
    let kept = text::last_of(lines, n);
    assert(lines =~= lines.take(lines.len() - kept.len()) + kept);
    assert(text::last_of(kept.push(line), n) =~= text::last_of(lines.push(line), n));
}

/// The address that the backend prints is the one that is taken: whatever word that begins
/// with `http` stands right behind `dsh web: `, up to whitespace or the end of the line.
pub proof fn law_printed_address_is_announced(u: Seq<char>, t: Seq<char>)
    requires
        text::every(u, |c: char| !text::space(c)),
        "http"@.is_prefix_of(u),
        t.len() == 0 || text::space(t[0]),
    ensures
        announced("dsh web: "@ + u + t) == Some(u),
{
    reveal_strlit("http");
    law_address_is_the_first_word_behind_the_mark(seq![], u, t);
    assert("dsh web: "@ + Seq::<char>::empty() + u + t =~= "dsh web: "@ + u + t);
}

/// Behind `dsh web: ` only the first word counts: it is announced where it begins with `http`,
/// and else nothing is.
pub proof fn law_address_is_the_first_word_behind_the_mark(
    w: Seq<char>,
    u: Seq<char>,
    t: Seq<char>,
)
    requires
        text::every(w, |c: char| text::space(c)),
        text::every(u, |c: char| !text::space(c)),
        u.len() > 0,
        t.len() == 0 || text::space(t[0]),
    ensures
        "http"@.is_prefix_of(u) ==> announced("dsh web: "@ + w + u + t) == Some(u),
        !("http"@.is_prefix_of(u)) ==> announced("dsh web: "@ + w + u + t) is None,
        announced("dsh web: "@ + w) is None,
{
    reveal_strlit("dsh web: ");
    reveal_strlit("http");
    let m = "dsh web: "@;
    let line = m + w + u + t;
    assert(line.subrange(0, m.len() as int) =~= m);
    assert(line.skip(m.len() as int) =~= w + (u + t));
    text::law_whitespace_is_no_word(w, u + t);
    text::law_words_begin_with_the_first(u, t);
    if "http"@.is_prefix_of(u) {
        assert(u.subrange(0, 4) =~= "http"@);
    } else if text::starts(u, "http"@) {
        assert("http"@ =~= u.subrange(0, 4));
    }
    let bare = m + w;
    assert(bare.subrange(0, m.len() as int) =~= m);
    assert(bare.skip(m.len() as int) =~= w);
}

/// A line that does not begin with `dsh web: ` announces nothing, whatever it holds.
pub proof fn law_other_lines_announce_nothing(line: Seq<char>)
    requires
        !("dsh web: "@.is_prefix_of(line)),
    ensures
        announced(line) is None,
{
    if text::starts(line, "dsh web: "@) {
        assert(line.subrange(0, "dsh web: "@.len() as int) =~= "dsh web: "@);
    }
}

/// The wait goes on until an address is announced, the output ends or the time is up, and it
/// ends with that address or with a failure. A sign of life is shown at most once: for the
/// first line with more than two bytes between whitespace that is not the backend's own.
pub proof fn law_wait_ends_with_the_address()
    ensures
        forall|saw: &mut bool, l: String, tail: &Vec<String>, r: Wait| #[trigger]
            call_ensures(wait_for_url, (saw, Heard::Line(l), tail), r) ==> {
                &&& announced(l@) is None ==> !(r is Done)
                &&& announced(l@) matches Some(u) ==> (r matches Wait::Done(Ok(x)) && x@ == u)
                &&& *saw ==> *final(saw) && !(r is Show)
                &&& r is Show <==> !*saw && *final(saw)
                &&& !*saw && !("dsh web: "@.is_prefix_of(l@)) && text::utf8_len(
                    text::trimmed(l@),
                ) >= 3 ==> r is Show
                &&& "dsh web: "@.is_prefix_of(l@) || text::utf8_len(text::trimmed(l@)) < 3 ==> !(r
                    is Show)
            },
        forall|saw: &mut bool, heard: Heard, tail: &Vec<String>, r: Wait| #[trigger]
            call_ensures(wait_for_url, (saw, heard, tail), r) && !(heard is Line) ==> (r matches
                Wait::Done(Err(_))) && *final(saw) == *saw,
{
    assert forall|saw: &mut bool, l: String, tail: &Vec<String>, r: Wait| #[trigger]
        call_ensures(wait_for_url, (saw, Heard::Line(l), tail), r) implies {
        &&& announced(l@) is None ==> !(r is Done)
        &&& announced(l@) matches Some(u) ==> (r matches Wait::Done(Ok(x)) && x@ == u)
        &&& *saw ==> *final(saw) && !(r is Show)
        &&& r is Show <==> !*saw && *final(saw)
        &&& !*saw && !("dsh web: "@.is_prefix_of(l@)) && text::utf8_len(text::trimmed(l@)) >= 3
            ==> r is Show
        &&& "dsh web: "@.is_prefix_of(l@) || text::utf8_len(text::trimmed(l@)) < 3 ==> !(r is Show)
    } by {
        let m = "dsh web: "@;
        if m.is_prefix_of(l@) {
            assert(l@.subrange(0, m.len() as int) =~= m);
        } else {
            law_other_lines_announce_nothing(l@);
            if text::starts(l@, m) {
                assert(l@.subrange(0, m.len() as int) =~= m);
            }
        }
    }
}

/// A failure of the wait shows every line that was kept of the error channel.
pub proof fn law_end_of_the_output_shows_the_error_lines(tail: &Vec<String>)
    ensures
        forall|s: &mut bool, r: Wait| #[trigger]
            call_ensures(wait_for_url, (s, Heard::Closed, tail), r) ==> (r matches Wait::Done(
                Err(e),
            ) && text::ends(e@, page::tail_shown(text::texts(tail@)))),
{
    assert forall|s: &mut bool, r: Wait| #[trigger]
        call_ensures(wait_for_url, (s, Heard::Closed, tail), r) implies (r matches Wait::Done(
        Err(e),
    ) && text::ends(e@, page::tail_shown(text::texts(tail@)))) by {
        let shown = page::tail_shown(text::texts(tail@));
        let card = exited_card(text::texts(tail@));
        assert(card.subrange(card.len() - shown.len(), card.len() as int) =~= shown);
    }
}

/// The backend is always given the search path; it is told of the directory picker exactly
/// where that is served, and given its token where there is one.
pub proof fn law_backend_is_told_of_the_picker(
    path_env: &str,
    port: u16,
    token: Option<&str>,
    r: Spawn,
)
    requires
        call_ensures(spawn_dsh, (path_env, port, token), r),
    ensures
        pairs(r.env@).contains(("PATH"@, path_env@)),
        port != 0 ==> pairs(r.env@).contains(("DSHELL_PICKER_PORT"@, text::decimal(port as nat))),
        port != 0 && token is Some ==> pairs(r.env@).contains(
            ("DSHELL_PICKER_TOKEN"@, token->Some_0@),
        ),
        r.env@.len() == 1 + (if port != 0 {
            1int
        } else {
            0
        }) + (if port != 0 && token is Some {
            1int
        } else {
            0
        }),
        text::texts(r.args@).contains("--no-open"@),
        text::texts(r.args@) == seq!["/c"@, "dsh"@, "web"@, "--port"@, "0"@, "--no-open"@],
{
    let env = pairs(r.env@);
    assert(env.len() == r.env@.len());
    assert(env[0] == ("PATH"@, path_env@));
    if port != 0 {
        assert(env[1] == ("DSHELL_PICKER_PORT"@, text::decimal(port as nat)));
        if token is Some {
            assert(env[2] == ("DSHELL_PICKER_TOKEN"@, token->Some_0@));
        }
    }
    assert(text::texts(r.args@)[5] == "--no-open"@);
}

/// A start that began keeps a second one from beginning, and changes nothing but the latch
/// and the generation; a start whose process could not be created leaves the way free again.
pub proof fn law_second_start_is_refused()
    ensures
        forall|s: &mut AppState, t: &mut AppState, a: Option<u32>, b: Option<u32>|
            #![trigger call_ensures(AppState::start_handoff, (s,), a), call_ensures(AppState::start_handoff, (t,), b)]
            call_ensures(AppState::start_handoff, (s,), a) && call_ensures(
                AppState::start_handoff,
                (t,),
                b,
            ) && final(s)@ == (*t)@ ==> {
                &&& b is None
                &&& final(t)@ == (*t)@
                &&& a is Some <==> !(*s)@.handoff_started
                &&& a is Some ==> a == Some(final(s)@.dsh_generation) && a != Some(
                    (*s)@.dsh_generation,
                )
                &&& final(s)@ == (Shell {
                    handoff_started: true,
                    dsh_generation: final(s)@.dsh_generation,
                    ..(*s)@
                })
            },
{
}

/// A process that was created is remembered; where it could not be, another start may follow,
/// and the version that can be gone back to is offered. Nothing else changes.
pub proof fn law_created_process_is_remembered()
    ensures
        forall|s: &mut AppState, pid: u32, r: Report| #[trigger]
            call_ensures(AppState::handoff_spawned, (s, Ok::<u32, String>(pid)), r) ==> final(s)@
                == (Shell { dsh_pid: pid, ..(*s)@ }) && r.step.state == StepState::Checking
                && r.card is None && r.back is None,
        forall|s: &mut AppState, e: String, r: Report| #[trigger]
            call_ensures(AppState::handoff_spawned, (s, Err::<u32, String>(e)), r) ==> final(s)@
                == (Shell { handoff_started: false, ..(*s)@ }) && r.step.state
                == StepState::Failed && r.card is Some && text::option_text(r.back)
                == (*s)@.previous_dsh && text::has(r.step.detail@, e@) && text::has(
                r.card->Some_0@,
                e@,
            ),
{
    assert forall|s: &mut AppState, e: String, r: Report| #[trigger]
        call_ensures(AppState::handoff_spawned, (s, Err::<u32, String>(e)), r) implies final(s)@
        == (Shell { handoff_started: false, ..(*s)@ }) && r.step.state == StepState::Failed
        && r.card is Some && text::option_text(r.back) == (*s)@.previous_dsh && text::has(
        r.step.detail@,
        e@,
    ) && text::has(r.card->Some_0@, e@) by {
        let head = "无法启动 dsh："@;
        text::law_prefix_is_taken_off(e@, head, Seq::empty());
        assert(head + e@ + Seq::<char>::empty() =~= head + e@);
        text::law_prefix_is_taken_off(
            e@,
            "<b>无法启动 dsh</b>\n\n"@,
            "\n\n完整日志：<code>%USERPROFILE%\\.dshell\\dshell-poc.log</code>"@,
        );
    }
}

/// The end of a wait counts only for the backend that still is the current one. Where it is,
/// the address it was reached at is kept and the way back is forgotten; a failure keeps the
/// whole state and offers the way back.
pub proof fn law_only_the_current_backend_arrives()
    ensures
        forall|
            s: &mut AppState,
            g: u32,
            waited: &Result<String, String>,
            parsed: Option<&str>,
            r: Arrival,
        | #[trigger]
            call_ensures(AppState::handoff_arrived, (s, g, waited, parsed), r) ==> {
                &&& r is Superseded <==> (*s)@.dsh_generation != g
                &&& r is Enter <==> (*s)@.dsh_generation == g && *waited is Ok && parsed is Some
                &&& r is Enter ==> final(s)@ == (Shell {
                    launch_url: parsed->Some_0@,
                    previous_dsh: None,
                    ..(*s)@
                })
                &&& !(r is Enter) ==> final(s)@ == (*s)@
                &&& r matches Arrival::Fail(f) ==> f.step.state == StepState::Failed && f.card
                    is Some && text::option_text(f.back) == (*s)@.previous_dsh && (*waited matches
                    Err(e) ==> text::option_text(f.card) == Some(e@))
            },
{
}

/// Of the lines of the error channel the twelve latest are kept, in their order.
pub proof fn law_error_lines_are_kept()
    ensures
        forall|tail: &mut Vec<String>, line: &str|
            #[trigger]
            call_ensures(keep_tail, (tail, line), ()) ==> {
                let kept = text::texts(final(tail)@);
                &&& kept.len() > 0 && kept.last() == line@
                &&& (*tail)@.len() < 12 ==> kept == text::texts((*tail)@).push(line@)
                &&& (*tail)@.len() == 12 ==> kept == text::texts((*tail)@).drop_first().push(line@)
            },
{
    assert forall|tail: &mut Vec<String>, line: &str|
        #[trigger] call_ensures(keep_tail, (tail, line), ()) implies {
        let kept = text::texts(final(tail)@);
        &&& kept.len() > 0 && kept.last() == line@
        &&& (*tail)@.len() < 12 ==> kept == text::texts((*tail)@).push(line@)
        &&& (*tail)@.len() == 12 ==> kept == text::texts((*tail)@).drop_first().push(line@)
    } by {
        let all = text::texts((*tail)@).push(line@);
        let kept = text::texts(final(tail)@);
        if (*tail)@.len() == 12 {
            assert(all.skip(1) =~= text::texts((*tail)@).drop_first().push(line@));
        }
    }
}

/// An address that is handed to the system's browser is handed on as it is.
pub proof fn law_browser_is_given_the_address(url: &str, r: Vec<String>)
    requires
        call_ensures(open_in_browser, (url,), r),
    ensures
        r@.len() == 4 && text::texts(r@).last() == url@ && text::texts(r@)[0] == "/c"@
            && text::texts(r@)[1] == "start"@ && text::texts(r@)[2].len() == 0,
{
    reveal_strlit("");
    assert(text::texts(r@).len() == r@.len());
}

} // verus!
