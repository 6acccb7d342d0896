//! What the shell remembers while it runs.

use vstd::prelude::*;

use crate::config;
use crate::config::Config;
use crate::doctor;
use crate::doctor::{Step, StepState};
use crate::proc;
use crate::proc::{Cancel, Launch};
use crate::text;

verus! {

/// The label of the main window.
pub const MAIN_WINDOW: &'static str = "main";

/// How long a page may take to ask for the examination before it is made anyway.
pub const PAGE_FALLBACK_MS: u64 = 2_500;

/// How long a second instance looks for the window of the first.
pub const FOCUS_TIMEOUT_MS: u64 = 5_000;

pub struct AppState {
    /// The process tree of the backend; 0 where there is none.
    pub dsh_pid: u32,
    /// The process tree of the running installation; 0 where there is none.
    pub install_pid: u32,
    pub cancel: Cancel,
    /// A backend is being started, or was.
    pub handoff_started: bool,
    /// Counts the starts and the stops of the backend, so that whoever waits for one that was
    /// stopped since can tell.
    pub dsh_generation: u32,
    /// The backend is being restarted or replaced.
    pub restarting: bool,
    /// While set, the start page must not have the examination made: it would end in starting
    /// a second backend.
    pub restart_guard: bool,
    /// A page asked for the examination.
    pub doctor_requested: bool,
    /// Stay on the start page.
    pub hold: bool,
    /// The address of the backend with its token; empty where there is none.
    pub launch_url: String,
    /// The address of the start page; empty where it is not known.
    pub splash_url: String,
    /// The version that was installed before the backend was last replaced.
    pub previous_dsh: Option<String>,
}

/// The state as a value.
pub struct Shell {
    pub dsh_pid: u32,
    pub install_pid: u32,
    pub cancel: bool,
    pub handoff_started: bool,
    pub dsh_generation: u32,
    pub restarting: bool,
    pub restart_guard: bool,
    pub doctor_requested: bool,
    pub hold: bool,
    pub launch_url: Seq<char>,
    pub splash_url: Seq<char>,
    pub previous_dsh: Option<Seq<char>>,
}

impl View for AppState {
    type V = Shell;

    open spec fn view(&self) -> Shell {
        Shell {
            dsh_pid: self.dsh_pid,
            install_pid: self.install_pid,
            cancel: self.cancel.flag,
            handoff_started: self.handoff_started,
            dsh_generation: self.dsh_generation,
            restarting: self.restarting,
            restart_guard: self.restart_guard,
            doctor_requested: self.doctor_requested,
            hold: self.hold,
            launch_url: self.launch_url@,
            splash_url: self.splash_url@,
            previous_dsh: text::option_text(self.previous_dsh),
        }
    }
}

/// A text, where it is not empty.
pub open spec fn known(s: Seq<char>) -> Option<Seq<char>> {
    if s.len() == 0 {
        None
    } else {
        Some(s)
    }
}

fn given(s: &String) -> (r: Option<String>)
    ensures
        text::option_text(r) == known(s@),
{
    let none = text::same(s.as_str(), "");
    proof {
        reveal_strlit("");
        assert(s@.len() == 0 ==> s@ =~= ""@);
    }
    if none {
        None
    } else {
        Some(text::copy(s.as_str()))
    }
}

/// The generation that follows.
pub open spec fn after(generation: u32) -> u32 {
    if generation == u32::MAX {
        0
    } else {
        (generation + 1) as u32
    }
}

impl Shell {
    /// No backend is recorded that was not started through the latch.
    pub open spec fn at_most_one(self) -> bool {
        self.dsh_pid != 0 ==> self.handoff_started
    }
}

impl AppState {
    pub fn new(hold: bool) -> (r: Self)
        ensures
            r@ == (Shell {
                dsh_pid: 0,
                install_pid: 0,
                cancel: false,
                handoff_started: false,
                dsh_generation: 0,
                restarting: false,
                restart_guard: false,
                doctor_requested: false,
                hold,
                launch_url: seq![],
                splash_url: seq![],
                previous_dsh: None,
            }),
            r@.at_most_one(),
    {
        let r = AppState {
            dsh_pid: 0,
            install_pid: 0,
            cancel: Cancel::new(),
            handoff_started: false,
            dsh_generation: 0,
            restarting: false,
            restart_guard: false,
            doctor_requested: false,
            hold,
            launch_url: String::new(),
            splash_url: String::new(),
            previous_dsh: None,
        };
        assert(r.launch_url@ =~= seq![] && r.splash_url@ =~= seq![]);
        r
    }

    pub fn set_launch_url(&mut self, url: &str)
        ensures
            final(self)@ == (Shell { launch_url: url@, ..old(self)@ }),
    {
        self.launch_url = text::copy(url);
    }

    /// The address of the backend; none before it was reached.
    pub fn launch_url(&self) -> (r: Option<String>)
        ensures
            text::option_text(r) == known(self@.launch_url),
    {
        given(&self.launch_url)
    }

    pub fn set_splash_url(&mut self, url: &str)
        ensures
            final(self)@ == (Shell { splash_url: url@, ..old(self)@ }),
    {
        self.splash_url = text::copy(url);
    }

    /// The address of the start page; none before it was loaded.
    pub fn splash_url(&self) -> (r: Option<String>)
        ensures
            text::option_text(r) == known(self@.splash_url),
    {
        given(&self.splash_url)
    }

    /// Takes a new generation.
    pub fn begin_dsh_generation(&mut self) -> (r: u32)
        ensures
            r == after(old(self)@.dsh_generation),
            final(self)@ == (Shell { dsh_generation: r, ..old(self)@ }),
    {
        self.dsh_generation = if self.dsh_generation == u32::MAX {
            0
        } else {
            self.dsh_generation + 1
        };
        self.dsh_generation
    }

    /// Whether the backend of this generation was not stopped since.
    pub fn is_current_generation(&self, generation: u32) -> (r: bool)
        ensures
            r == (self@.dsh_generation == generation),
    {
        self.dsh_generation == generation
    }

    /// The process of the backend; 0 where there is none.
    pub fn dsh_pid(&self) -> (r: u32)
        ensures
            r == self@.dsh_pid,
    {
        self.dsh_pid
    }

    pub fn set_dsh_pid(&mut self, pid: u32)
        ensures
            final(self)@ == (Shell { dsh_pid: pid, ..old(self)@ }),
    {
        self.dsh_pid = pid;
    }
}

// ───────────────────────── the examination ─────────────────────────

/// What an examination came to.
pub struct Examined {
    pub all_ok: bool,
    /// What stands in the way of the start.
    pub missing: Vec<String>,
    /// What can be installed from here.
    pub auto: Vec<&'static str>,
    /// Whether to start the backend now.
    pub handoff: bool,
}

/// What an examination came to. The backend is started only where nothing stands in the way.
pub fn run_doctor(steps: &Vec<Step>, then_handoff: bool) -> (r: Examined)
    ensures
        text::texts(r.missing@) == doctor::blocking(steps@),
        text::slices(r.auto@) == doctor::auto(steps@),
        r.all_ok == (doctor::blocking(steps@).len() == 0),
        r.handoff == (r.all_ok && then_handoff),
{
    let missing = doctor::blocking_ids(steps);
    let auto = doctor::auto_ids(steps);
    assert(missing.len() == text::texts(missing@).len());
    let all_ok = missing.len() == 0;
    Examined { all_ok, missing, auto, handoff: all_ok && then_handoff }
}

impl AppState {
    /// A page asks for the examination. While the backend is being restarted or replaced the
    /// page is not heard; else the result says whether to start the backend after it.
    pub fn doctor_run(&mut self) -> (r: Option<bool>)
        ensures
            if old(self)@.restart_guard {
                r is None && final(self)@ == old(self)@
            } else {
                r == Some(!old(self)@.hold) && final(self)@ == (Shell {
                    doctor_requested: true,
                    ..old(self)@
                })
            },
    {
        if self.restart_guard {
            return None;
        }
        self.doctor_requested = true;
        Some(!self.hold)
    }

    /// No page asked in time: the examination is made anyway, and the result says whether to
    /// start the backend after it.
    pub fn doctor_fallback(&self) -> (r: Option<bool>)
        ensures
            r == (if self@.doctor_requested {
                None::<bool>
            } else {
                Some(!self@.hold)
            }),
    {
        if self.doctor_requested {
            None
        } else {
            Some(!self.hold)
        }
    }

    /// An installation is about to start: what was cancelled before is not this one.
    pub fn install_begun(&mut self)
        ensures
            final(self)@ == (Shell { cancel: false, ..old(self)@ }),
    {
        self.cancel.reset();
    }

    /// The process of an installation started.
    pub fn install_started(&mut self, pid: u32)
        ensures
            final(self)@ == (Shell { install_pid: pid, ..old(self)@ }),
    {
        self.install_pid = pid;
    }

    /// The process of an installation ended, in whichever way.
    pub fn install_ended(&mut self)
        ensures
            final(self)@ == (Shell { install_pid: 0, ..old(self)@ }),
    {
        self.install_pid = 0;
    }

    /// The installation is to stop. The result is the command that ends its processes.
    pub fn install_cancel(&mut self) -> (r: Option<Launch>)
        ensures
            final(self)@ == (Shell { cancel: true, ..old(self)@ }),
            proc::kills(r, old(self)@.install_pid),
    {
        self.cancel.request();
        proc::kill_tree(self.install_pid)
    }

    /// The processes to end together with the shell.
    pub fn left_behind(&self) -> (r: Vec<(&'static str, u32)>)
        ensures
            r@.len() == (if self@.dsh_pid != 0 {
                1int
            } else {
                0
            }) + (if self@.install_pid != 0 {
                1int
            } else {
                0
            }),
            self@.dsh_pid != 0 ==> r@[0].0@ == "dsh"@ && r@[0].1 == self@.dsh_pid,
            self@.install_pid != 0 ==> r@.last().0@ == "install"@ && r@.last().1
                == self@.install_pid,
    {
        let mut v: Vec<(&'static str, u32)> = Vec::new();
        if self.dsh_pid != 0 {
            v.push(("dsh", self.dsh_pid));
        }
        if self.install_pid != 0 {
            v.push(("install", self.install_pid));
        }
        v
    }
}

/// A path that the user named was examined: it is remembered only where it is in order. The
/// result says whether it is.
pub fn doctor_set_path(cfg: &mut Config, id: &str, path: &str, found: &Step) -> (r: bool)
    ensures
        r == (found.state == StepState::Good),
        if r {
            final(cfg).is_set(*old(cfg), id@, path@)
        } else {
            *final(cfg) == *old(cfg)
        },
{
    if found.state == StepState::Good {
        cfg.set(id, path);
        true
    } else {
        false
    }
}

// ───────────────────────── the log ─────────────────────────

/// The file of the log.
pub fn log_path(home: Option<&str>) -> (r: String)
    ensures
        r@ == config::within(Config::dir_in(text::option_str(home)), "dshell-poc.log"@),
{
    let dir = Config::dir(home);
    config::join(dir.as_str(), "dshell-poc.log")
}

/// A line of the log, as bytes. The first line of a new log has a byte order mark before it,
/// without which editors take the text for another encoding.
pub fn log_line(exists: bool, msg: &str) -> (r: Vec<u8>)
    ensures
        r@ == (if exists {
            seq![]
        } else {
            seq![0xEFu8, 0xBB, 0xBF]
        }) + vstd::utf8::encode_utf8(msg@) + seq![10u8],
{
    let mut v: Vec<u8> = Vec::new();
    if !exists {
        v.push(0xEF);
        v.push(0xBB);
        v.push(0xBF);
    }
    let ghost mark = v@;
    assert(mark =~= (if exists {
        seq![]
    } else {
        seq![0xEFu8, 0xBB, 0xBF]
    }));
    let bytes = msg.as_bytes();
    let mut i: usize = 0;
    while i < bytes.len()
        invariant
            i <= bytes.len(),
            v@ == mark + bytes@.take(i as int),
        decreases bytes.len() - i,
    {
        v.push(bytes[i]);
        i = i + 1;
        assert(v@ =~= mark + bytes@.take(i as int));
    }
    assert(bytes@.take(i as int) =~= bytes@);
    v.push(10);
    assert(v@ =~= mark + bytes@ + seq![10u8]);
    v
}

// ───────────────────────── laws ─────────────────────────

/// A generation is never its own successor: whoever holds one can tell that another began.
pub proof fn law_generations_differ(generation: u32)
    ensures
        after(generation) != generation,
{
}

/// The backend is started after an examination exactly where that is wanted and nothing but the
/// profile directory and the start itself is missing or does not work. What stands in the way
/// is named, and so is what can be installed.
pub proof fn law_start_needs_all_in_order(
    steps: &Vec<Step>,
    wanted: bool,
    r: Examined,
    i: int,
)
    requires
        call_ensures(run_doctor, (steps, wanted), r),
        0 <= i < steps@.len(),
    ensures
        r.handoff <==> r.all_ok && wanted,
        (steps@[i].state == StepState::Missing || steps@[i].state == StepState::Failed)
            && steps@[i].id@ != "profile"@ && steps@[i].id@ != "launch"@ ==> !r.all_ok
            && !r.handoff && text::texts(r.missing@).contains(steps@[i].id@),
        r.all_ok <==> r.missing@.len() == 0,
        !r.all_ok ==> exists|j: int|
            0 <= j < steps@.len() && ((#[trigger] steps@[j]).state == StepState::Missing
                || steps@[j].state == StepState::Failed) && steps@[j].id@ != "profile"@
                && steps@[j].id@ != "launch"@,
        (steps@[i].state == StepState::Missing || steps@[i].state == StepState::Failed) && (
        steps@[i].id@ == "node"@ || steps@[i].id@ == "npm"@) ==> text::slices(r.auto@).contains(
            "node"@,
        ),
        (steps@[i].state == StepState::Missing || steps@[i].state == StepState::Failed)
            && steps@[i].id@ == "dsh"@ ==> text::slices(r.auto@).contains("dsh"@),
{
    let b = doctor::blocking(steps@);
    assert(text::texts(r.missing@).len() == r.missing@.len());
    doctor::law_what_does_not_work_blocks(steps@, i);
    doctor::law_what_is_missing_is_installed(steps@);
    if b.len() > 0 {
        assert(b.contains(b[0]));
    }
    if b.contains(steps@[i].id@) {
        assert(b.len() > 0);
    }
}

/// An address that was set is the one that is known, and an empty one is not known.
pub proof fn law_addresses_are_known_once_set(s: &AppState, launch: Option<String>, splash: Option<String>)
    requires
        call_ensures(AppState::launch_url, (s,), launch),
        call_ensures(AppState::splash_url, (s,), splash),
    ensures
        launch is None <==> s@.launch_url.len() == 0,
        launch matches Some(u) ==> u@ == s@.launch_url,
        splash is None <==> s@.splash_url.len() == 0,
        splash matches Some(u) ==> u@ == s@.splash_url,
        forall|t: &mut AppState, url: &str| #[trigger]
            call_ensures(AppState::set_launch_url, (t, url), ()) ==> final(t)@ == (Shell {
                launch_url: url@,
                ..(*t)@
            }),
        forall|t: &mut AppState, url: &str| #[trigger]
            call_ensures(AppState::set_splash_url, (t, url), ()) ==> final(t)@ == (Shell {
                splash_url: url@,
                ..(*t)@
            }),
{
}

/// Each generation follows the one before it, and the first follows the last; only the latest
/// one is current.
pub proof fn law_latest_generation_is_current(s: &AppState, g: u32, r: bool)
    requires
        call_ensures(AppState::is_current_generation, (s, g), r),
    ensures
        r <==> s@.dsh_generation == g,
        forall|t: &mut AppState, n: u32| #[trigger]
            call_ensures(AppState::begin_dsh_generation, (t,), n) ==> final(t)@ == (Shell {
                dsh_generation: n,
                ..(*t)@
            }) && n == ((*t)@.dsh_generation + 1) % 0x1_0000_0000,
{
}

/// A page that asks for the examination is heard unless the backend is being restarted or
/// replaced; the backend then follows unless the shell is to stay on the start page. Where no
/// page asked, the examination is made all the same.
pub proof fn law_page_is_heard_unless_guarded(s: &AppState, late: Option<bool>)
    requires
        call_ensures(AppState::doctor_fallback, (s,), late),
    ensures
        late is None <==> s@.doctor_requested,
        late matches Some(go) ==> go == !s@.hold,
        forall|t: &mut AppState, r: Option<bool>| #[trigger]
            call_ensures(AppState::doctor_run, (t,), r) ==> {
                &&& r is None <==> (*t)@.restart_guard
                &&& r matches Some(go) ==> go == !(*t)@.hold
                &&& r is Some ==> final(t)@ == (Shell { doctor_requested: true, ..(*t)@ })
                &&& r is None ==> final(t)@ == (*t)@
            },
{
}

/// An installation is remembered while it runs, so that it can be ended; the wish to end it is
/// forgotten when the next one begins.
pub proof fn law_running_installation_can_be_ended()
    ensures
        forall|t: &mut AppState| #[trigger]
            call_ensures(AppState::install_begun, (t,), ()) ==> final(t)@ == (Shell {
                cancel: false,
                ..(*t)@
            }),
        forall|t: &mut AppState, pid: u32| #[trigger]
            call_ensures(AppState::install_started, (t, pid), ()) ==> final(t)@ == (Shell {
                install_pid: pid,
                ..(*t)@
            }),
        forall|t: &mut AppState| #[trigger]
            call_ensures(AppState::install_ended, (t,), ()) ==> final(t)@ == (Shell {
                install_pid: 0,
                ..(*t)@
            }),
        forall|t: &mut AppState, r: Option<Launch>| #[trigger]
            call_ensures(AppState::install_cancel, (t,), r) ==> final(t)@ == (Shell {
                cancel: true,
                ..(*t)@
            }) && (r is None <==> (*t)@.install_pid == 0) && (r matches Some(l) ==> l.program@
                == "taskkill"@ && text::texts(l.args@)[1] == text::decimal(
                (*t)@.install_pid as nat,
            )),
{
}

/// Whatever runs when the shell ends is ended with it: the backend, and the installation.
pub proof fn law_nothing_is_left_running(s: &AppState, r: Vec<(&'static str, u32)>)
    requires
        call_ensures(AppState::left_behind, (s,), r),
    ensures
        s@.dsh_pid != 0 ==> exists|i: int|
            0 <= i < r@.len() && (#[trigger] r@[i]).1 == s@.dsh_pid && r@[i].0@ == "dsh"@,
        s@.install_pid != 0 ==> exists|i: int|
            0 <= i < r@.len() && (#[trigger] r@[i]).1 == s@.install_pid && r@[i].0@ == "install"@,
        s@.dsh_pid == 0 && s@.install_pid == 0 ==> r@.len() == 0,
        r@.len() <= 2,
{
    if s@.dsh_pid != 0 {
        assert(r@[0].1 == s@.dsh_pid);
    }
    if s@.install_pid != 0 {
        assert(r@[r@.len() - 1].1 == s@.install_pid);
    }
}

/// A path that the user names is remembered for its program exactly where it was found in
/// order; a path that was not leaves everything as it is.
pub proof fn law_only_good_paths_are_remembered()
    ensures
        forall|cfg: &mut Config, id: &str, path: &str, found: &Step, r: bool| #[trigger]
            call_ensures(doctor_set_path, (cfg, id, path, found), r) ==> {
                &&& r <==> found.state == StepState::Good
                &&& !r ==> *final(cfg) == *cfg
                &&& r && id@ == "node"@ ==> text::option_text(final(cfg).node) == Some(path@)
                    && final(cfg).npm == (*cfg).npm && final(cfg).dsh == (*cfg).dsh
                &&& r && id@ == "npm"@ ==> text::option_text(final(cfg).npm) == Some(path@)
                    && final(cfg).node == (*cfg).node && final(cfg).dsh == (*cfg).dsh
                &&& r && id@ == "dsh"@ ==> text::option_text(final(cfg).dsh) == Some(path@)
                    && final(cfg).node == (*cfg).node && final(cfg).npm == (*cfg).npm
                &&& final(cfg).npm_prefix == (*cfg).npm_prefix
            },
{
    reveal_strlit("node");
    reveal_strlit("npm");
    reveal_strlit("dsh");
    assert("npm"@[0] != "dsh"@[0]);
    assert("node"@.len() != "npm"@.len());
}

/// A line of the log is its text in UTF-8 and a newline; a new log begins with a byte order
/// mark.
pub proof fn law_log_lines_are_utf8(msg: &str, first: Vec<u8>, later: Vec<u8>)
    requires
        call_ensures(log_line, (false, msg), first),
        call_ensures(log_line, (true, msg), later),
    ensures
        later@ == vstd::utf8::encode_utf8(msg@).push(10u8),
        first@ == seq![0xEFu8, 0xBB, 0xBF] + later@,
{
    assert(later@ =~= vstd::utf8::encode_utf8(msg@).push(10u8));
    assert(first@ =~= seq![0xEFu8, 0xBB, 0xBF] + later@);
}

/// The process of the backend is the one that was set last, and the log stands beside the
/// configuration.
pub proof fn law_process_is_the_one_set_last(s: &AppState, pid: u32, home: Option<&str>, log: String, fresh: AppState, hold: bool)
    requires
        call_ensures(AppState::dsh_pid, (s,), pid),
        call_ensures(log_path, (home,), log),
        call_ensures(AppState::new, (hold,), fresh),
    ensures
        pid == s@.dsh_pid,
        home matches Some(h) ==> log@ == config::within(
            config::within(h@, ".dshell"@),
            "dshell-poc.log"@,
        ),
        fresh@.hold == hold && fresh@.dsh_pid == 0 && fresh@.install_pid == 0
            && !fresh@.handoff_started && !fresh@.restarting && !fresh@.restart_guard
            && !fresh@.doctor_requested && !fresh@.cancel && fresh@.previous_dsh is None
            && fresh@.launch_url.len() == 0 && fresh@.splash_url.len() == 0,
        forall|t: &mut AppState, p: u32| #[trigger]
            call_ensures(AppState::set_dsh_pid, (t, p), ()) ==> final(t)@ == (Shell {
                dsh_pid: p,
                ..(*t)@
            }),
{
}

} // verus!
