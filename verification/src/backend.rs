//! Stopping, restarting and replacing the backend.
//!
//! A restart is: show the start page, stop, start. A replacement by another version is the
//! same with an installation between the stop and the start. In both the examination that the
//! start page asks for is held back until the old backend is gone and nothing is being
//! installed.

use vstd::prelude::*;

use crate::config::Config;
use crate::doctor;
use crate::doctor::StepState;
use crate::handoff;
use crate::handoff::Report;
use crate::installer::{Kind, Outcome};
use crate::page;
use crate::settings::{Panel, PanelView};
use crate::state;
use crate::state::{AppState, Shell};
use crate::text;
use crate::update;

verus! {

/// How long the old backend may take to exit.
pub const DSH_EXIT_TIMEOUT_MS: u64 = 15_000;

/// How long the start page takes to load before it can be told anything.
pub const SPLASH_SETTLE_MS: u64 = 700;

/// Clears the start page of what it showed before.
pub const RESTARTING_JS: &'static str = "window.__dshell&&window.__dshell.restarting()";

/// Puts the steps of the examination away during a replacement.
pub const UPDATING_JS: &'static str = "window.__dshell&&window.__dshell.updating(true)";

/// Shows the steps of the examination again.
pub const UPDATED_JS: &'static str = "window.__dshell&&window.__dshell.updating(false)";

/// Offers the ways on after a replacement that failed.
pub const UPDATE_FAILED_JS: &'static str = "window.__dshell&&window.__dshell.updateFailed()";

impl Shell {
    /// Once a restart or a replacement began to show the start page.
    pub open spec fn guarded(self) -> Shell {
        Shell { restart_guard: true, ..self }
    }

    /// Once the examination is no longer held back.
    pub open spec fn released(self) -> Shell {
        Shell { restart_guard: false, ..self }
    }

    /// Once the backend was told to stop.
    pub open spec fn stopping(self) -> Shell {
        Shell {
            dsh_generation: state::after(self.dsh_generation),
            dsh_pid: 0,
            launch_url: seq![],
            handoff_started: false,
            ..self
        }
    }

    /// Once a replacement began, with the version that it replaces.
    pub open spec fn replacing(self, installed: Option<Seq<char>>) -> Shell {
        Shell { previous_dsh: installed, ..self }
    }
}

/// How a restart or a replacement begins.
pub enum Opened {
    /// The main window is gone: nothing is done.
    Gone,
    /// The start page's address is not known, so progress could not be shown: nothing is done
    /// but to show this.
    Refused(String),
    /// Go to the start page, which has this address.
    Splash(String),
}

/// How a restart goes on.
pub enum Restarted {
    /// The old backend did not exit. Nothing is started.
    Abandoned(Report),
    /// Examine, and start the backend after it where this says so.
    Examine(bool),
}

/// Whether a replacement may begin.
pub enum Asked {
    /// It would not reach the installation in use, for this reason: nothing is done.
    Refused(String),
    Go,
}

/// How a replacement goes on once the old backend was told to stop.
pub enum Stopped {
    /// The old backend did not exit: this is shown, and nothing is installed.
    Abandoned(String),
    /// Install this version of the program.
    Install { kind: Kind, target: String },
}

/// How a replacement ends.
pub enum Switched {
    /// The installation failed: this is shown, and the version can be installed again that was
    /// there before. Nothing is started.
    Failed(String, Option<String>),
    /// Examine, and start the backend after it where this says so.
    Examine(bool),
}

pub open spec fn install_failed_card(why: Seq<char>) -> Seq<char> {
    "<b>更新 dsh 失败</b>\n\n"@ + page::escaped(why)
        + "\n\ndsh 后端已停止。要恢复使用，点下面的「跳过检查，直接启动」——它会启动<b>当前已装</b>的那个版本。"@
}

impl AppState {
    /// Begins a restart or a replacement, unless one is under way. The result says whether it
    /// began.
    pub fn begin_restart(&mut self) -> (r: bool)
        ensures
            r == !old(self)@.restarting,
            final(self)@ == (Shell { restarting: true, ..old(self)@ }),
    {
        let r = !self.restarting;
        self.restarting = true;
        r
    }

    /// A restart or a replacement ended, in whichever way.
    pub fn end_restart(&mut self)
        ensures
            final(self)@ == (Shell { restarting: false, ..old(self)@ }),
    {
        self.restarting = false;
    }

    /// Has the start page shown. `refusal` is what is said where its address is not known.
    fn show_splash(&mut self, refusal: &str) -> (r: Opened)
        ensures
            match state::known(old(self)@.splash_url) {
                None => {
                    &&& r matches Opened::Refused(card)
                    &&& card@ == refusal@
                    &&& final(self)@ == old(self)@.released()
                },
                Some(url) => {
                    &&& r matches Opened::Splash(u)
                    &&& u@ == url
                    &&& final(self)@ == old(self)@.guarded()
                },
            },
    {
        self.restart_guard = true;
        match self.splash_url() {
            None => {
                self.restart_guard = false;
                Opened::Refused(text::copy(refusal))
            },
            Some(url) => Opened::Splash(url),
        }
    }

    /// Begins to restart the backend.
    pub fn restart_opened(&mut self, window: bool) -> (r: Opened)
        ensures
            if !window {
                r is Gone && final(self)@ == old(self)@
            } else {
                match state::known(old(self)@.splash_url) {
                    None => {
                        &&& r matches Opened::Refused(card)
                        &&& card@
                            == "<b>无法重启</b>\n\n没有记下启动页地址，重启后界面会无处显示进度。\n\n请「完全退出」DShell 再重新打开。"@
                        &&& final(self)@ == old(self)@.released()
                    },
                    Some(url) => {
                        &&& r matches Opened::Splash(u)
                        &&& u@ == url
                        &&& final(self)@ == old(self)@.guarded()
                    },
                }
            },
    {
        if !window {
            return Opened::Gone;
        }
        self.show_splash(
            "<b>无法重启</b>\n\n没有记下启动页地址，重启后界面会无处显示进度。\n\n请「完全退出」DShell 再重新打开。",
        )
    }

    /// Stops the backend: whoever waits for it is superseded, its address is forgotten, and
    /// the next start is possible. The result is the process to end, 0 where there is none.
    pub fn stop_dsh(&mut self) -> (r: u32)
        ensures
            r == old(self)@.dsh_pid,
            final(self)@ == old(self)@.stopping(),
            final(self)@.at_most_one(),
    {
        let _ = self.begin_dsh_generation();
        let pid = self.dsh_pid;
        self.dsh_pid = 0;
        self.launch_url = String::new();
        assert(self.launch_url@ =~= seq![]);
        self.handoff_started = false;
        pid
    }

    /// The backend that is being restarted exited, or did not in time. Only in the first case
    /// another one is started: two of them would contend for the same sessions.
    pub fn restart_stopped(&mut self, exited: bool) -> (r: Restarted)
        ensures
            final(self)@ == old(self)@.released(),
            if exited {
                r matches Restarted::Examine(go) && go == !old(self)@.hold
            } else {
                r matches Restarted::Abandoned(report) && handoff::reports(
                    report,
                    StepState::Warn,
                    "旧 dsh 没有及时退出，重启已放弃（避免两个后端抢同一份会话）"@,
                    Some(
                        "<b>旧 dsh 没有退出，重启已放弃</b>\n\n它的进程可能卡住了。请「完全退出」DShell，再重新打开。\n\n这样做的原因：两个 dsh 后端会抢同一份会话锁"@,
                    ),
                    None,
                )
            },
    {
        self.restart_guard = false;
        if exited {
            return Restarted::Examine(!self.hold);
        }
        Restarted::Abandoned(
            Report {
                step: doctor::launch_step(
                    StepState::Warn,
                    text::copy("旧 dsh 没有及时退出，重启已放弃（避免两个后端抢同一份会话）"),
                ),
                card: Some(
                    text::copy(
                        "<b>旧 dsh 没有退出，重启已放弃</b>\n\n它的进程可能卡住了。请「完全退出」DShell，再重新打开。\n\n这样做的原因：两个 dsh 后端会抢同一份会话锁",
                    ),
                ),
                back: None,
            },
        )
    }

    /// The user asks for another version of the backend. Where the installation would not reach
    /// the one in use it is refused, and nothing is done: not even the settings panel goes away.
    /// `installed` is what npm has of dsh, and `npm_prefix` its global directory.
    pub fn switch_asked(
        &self,
        cfg: &Config,
        installed: Option<&str>,
        npm_prefix: Option<&str>,
    ) -> (r: Asked)
        ensures
            update::source_judged(
                *cfg,
                text::option_str(installed),
                text::option_str(npm_prefix),
                match r {
                    Asked::Refused(why) => Some(why@),
                    Asked::Go => None,
                },
            ),
    {
        match update::source_check(cfg, installed, npm_prefix).1 {
            Some(why) => Asked::Refused(why),
            None => Asked::Go,
        }
    }

    /// Begins to replace the backend by another version; `installed` is the one that is there.
    /// The settings panel goes away.
    pub fn switch_opened(
        &mut self,
        panel: &mut Panel,
        window: bool,
        installed: Option<String>,
    ) -> (r: Opened)
        ensures
            final(panel)@ == (if window {
                PanelView { open: false, ..old(panel)@ }
            } else {
                old(panel)@
            }),
            if !window {
                r is Gone && final(self)@ == old(self)@
            } else {
                let s = old(self)@.replacing(text::option_text(installed));
                match state::known(s.splash_url) {
                    None => {
                        &&& r matches Opened::Refused(card)
                        &&& card@
                            == "<b>无法切换版本</b>\n\n没有记下启动页地址，切换后界面会无处显示进度。\n\n请「完全退出」DShell 再重新打开。"@
                        &&& final(self)@ == s.released()
                    },
                    Some(url) => {
                        &&& r matches Opened::Splash(u)
                        &&& u@ == url
                        &&& final(self)@ == s.guarded()
                    },
                }
            },
    {
        if !window {
            return Opened::Gone;
        }
        panel.put_away();
        self.previous_dsh = installed;
        self.show_splash(
            "<b>无法切换版本</b>\n\n没有记下启动页地址，切换后界面会无处显示进度。\n\n请「完全退出」DShell 再重新打开。",
        )
    }

    /// The backend that is being replaced exited, or did not in time. In the first case the
    /// version is installed that was asked for, with the examination still held back; in the
    /// second nothing is.
    pub fn switch_stopped(&mut self, exited: bool, target: &str) -> (r: Stopped)
        ensures
            if exited {
                &&& r matches Stopped::Install { kind, target: version }
                &&& kind == Kind::Dsh
                &&& version@ == target@
                &&& final(self)@ == old(self)@
            } else {
                &&& r matches Stopped::Abandoned(card)
                &&& card@
                    == "<b>旧 dsh 没有退出，切换已放弃</b>\n\n它的进程可能卡住了。请「完全退出」DShell，再重新打开。\n\n这样做的原因：两个 dsh 后端会抢同一份会话锁，而且 `npm i -g` 要覆盖的\n文件正被它锁着"@
                &&& final(self)@ == old(self)@.released()
            },
    {
        if exited {
            return Stopped::Install { kind: Kind::Dsh, target: text::copy(target) };
        }
        self.restart_guard = false;
        Stopped::Abandoned(
            text::copy(
                "<b>旧 dsh 没有退出，切换已放弃</b>\n\n它的进程可能卡住了。请「完全退出」DShell，再重新打开。\n\n这样做的原因：两个 dsh 后端会抢同一份会话锁，而且 `npm i -g` 要覆盖的\n文件正被它锁着",
            ),
        )
    }

    /// The installation of a replacement ended. Where it failed the old version is not started
    /// again by itself: that would hide the failure. What the user selected in the settings
    /// panel is done with only where it succeeded.
    pub fn switch_installed(&mut self, panel: &mut Panel, outcome: &Outcome) -> (r: Switched)
        ensures
            final(self)@ == old(self)@.released(),
            final(panel)@ == (if outcome.ok {
                PanelView { selected: None, ..old(panel)@ }
            } else {
                old(panel)@
            }),
            if outcome.ok {
                r matches Switched::Examine(go) && go == !old(self)@.hold
            } else {
                &&& r matches Switched::Failed(card, back)
                &&& card@ == install_failed_card(
                    match text::option_text(outcome.error) {
                        Some(e) => e,
                        None => "未知原因"@,
                    },
                )
                &&& text::option_text(back) == old(self)@.previous_dsh
            },
    {
        self.restart_guard = false;
        if outcome.ok {
            panel.clear_selection();
            return Switched::Examine(!self.hold);
        }
        let why = match &outcome.error {
            Some(e) => page::esc(e.as_str()),
            None => page::esc("未知原因"),
        };
        let card = text::cat3(
            "<b>更新 dsh 失败</b>\n\n",
            why.as_str(),
            "\n\ndsh 后端已停止。要恢复使用，点下面的「跳过检查，直接启动」——它会启动<b>当前已装</b>的那个版本。",
        );
        Switched::Failed(card, text::copy_option(&self.previous_dsh))
    }

    /// The version to go back to from one that does not start.
    pub fn switch_back(&self) -> (r: Option<String>)
        ensures
            text::option_text(r) == self@.previous_dsh,
    {
        text::copy_option(&self.previous_dsh)
    }
}

// ───────────────────────── laws ─────────────────────────

/// A stop supersedes every wait for the backend that it stops, and leaves nothing of it: no
/// process, no address, and a free way for the next start.
pub proof fn law_stop_supersedes(s: Shell)
    ensures
        s.stopping().dsh_generation != s.dsh_generation,
        s.stopping().dsh_pid == 0,
        state::known(s.stopping().launch_url) is None,
        !s.stopping().handoff_started,
        s.stopping().at_most_one(),
        s.stopping().handing_off().dsh_generation != s.stopping().dsh_generation,
{
}

/// From the moment at which the start page is shown until the installation ended, the
/// examination is held back; after that it is not, whichever way it ended.
pub proof fn law_guard_spans_the_replacement(s: Shell, installed: Option<Seq<char>>)
    ensures
        s.replacing(installed).guarded().restart_guard,
        s.replacing(installed).guarded().stopping().restart_guard,
        !s.replacing(installed).guarded().stopping().released().restart_guard,
{
}

/// After a stop that succeeded, the next start is the only one: it takes the latch, and the
/// generation that it takes is not that of the backend before.
pub proof fn law_restart_replaces_the_backend(s: Shell, pid: u32)
    requires
        s.at_most_one(),
    ensures
        ({
            let ready = s.guarded().stopping().released();
            let again = ready.handing_off().spawned(Some(pid));
            &&& ready.at_most_one()
            &&& !ready.handoff_started
            &&& again.dsh_pid == pid
            &&& again.handoff_started
            &&& again.dsh_generation != s.dsh_generation
            &&& again.splash_url == s.splash_url
        }),
{
}

/// What is installed can be gone back to until the new version was reached, and then no more.
pub proof fn law_way_back_is_kept_until_arrival(
    s: Shell,
    installed: Option<Seq<char>>,
    pid: u32,
    url: Seq<char>,
)
    ensures
        ({
            let started = s.replacing(
                installed,
            ).guarded().stopping().released().handing_off().spawned(Some(pid));
            &&& started.previous_dsh == installed
            &&& started.entered(url).previous_dsh is None
        }),
{
}

/// A restart begins unless one is under way, and one that ended makes room for the next.
pub proof fn law_one_restart_at_a_time()
    ensures
        forall|s: &mut AppState, t: &mut AppState, a: bool, b: bool|
            #![trigger call_ensures(AppState::begin_restart, (s,), a), call_ensures(AppState::begin_restart, (t,), b)]
            call_ensures(AppState::begin_restart, (s,), a) && call_ensures(
                AppState::begin_restart,
                (t,),
                b,
            ) && final(s)@ == (*t)@ ==> !b && (a <==> !(*s)@.restarting) && final(s)@ == (Shell {
                restarting: true,
                ..(*s)@
            }),
        forall|s: &mut AppState| #[trigger]
            call_ensures(AppState::end_restart, (s,), ()) ==> final(s)@ == (Shell {
                restarting: false,
                ..(*s)@
            }),
{
}

/// Before the backend is stopped the window goes to the start page, where pages are not heard
/// from then on. Without a window nothing happens; without the address of the start page there
/// is a refusal, and nothing is stopped.
pub proof fn law_restart_goes_by_the_start_page()
    ensures
        forall|s: &mut AppState, window: bool, r: Opened| #[trigger]
            call_ensures(AppState::restart_opened, (s, window), r) ==> {
                &&& r is Gone <==> !window
                &&& r is Refused <==> window && (*s)@.splash_url.len() == 0
                &&& r matches Opened::Splash(u) ==> u@ == (*s)@.splash_url && final(s)@ == (Shell {
                    restart_guard: true,
                    ..(*s)@
                })
                &&& r is Refused ==> final(s)@ == (Shell { restart_guard: false, ..(*s)@ })
                &&& r is Gone ==> final(s)@ == (*s)@
            },
        forall|
            s: &mut AppState,
            p: &mut Panel,
            window: bool,
            installed: Option<String>,
            r: Opened,
        | #[trigger]
            call_ensures(AppState::switch_opened, (s, p, window, installed), r) ==> {
                &&& r is Gone <==> !window
                &&& r is Refused <==> window && (*s)@.splash_url.len() == 0
                &&& r matches Opened::Splash(u) ==> u@ == (*s)@.splash_url && final(s)@ == (Shell {
                    restart_guard: true,
                    previous_dsh: text::option_text(installed),
                    ..(*s)@
                })
                &&& r is Gone ==> final(s)@ == (*s)@ && final(p)@ == (*p)@
                &&& window ==> !final(p)@.open && final(p)@.selected == (*p)@.selected
            },
{
}

/// Stopping the backend gives up its process, its address and its latch, and makes those who
/// wait for it notice; nothing else is touched.
pub proof fn law_stopped_backend_is_forgotten()
    ensures
        forall|s: &mut AppState, r: u32| #[trigger]
            call_ensures(AppState::stop_dsh, (s,), r) ==> {
                &&& r == (*s)@.dsh_pid
                &&& final(s)@.dsh_generation != (*s)@.dsh_generation
                &&& final(s)@ == (Shell {
                    dsh_pid: 0,
                    launch_url: Seq::empty(),
                    handoff_started: false,
                    dsh_generation: final(s)@.dsh_generation,
                    ..(*s)@
                })
            },
{
}

/// A backend is started again only once the old one is gone; pages are heard again either way.
pub proof fn law_restart_waits_for_the_old_backend()
    ensures
        forall|s: &mut AppState, exited: bool, r: Restarted| #[trigger]
            call_ensures(AppState::restart_stopped, (s, exited), r) ==> {
                &&& r is Examine <==> exited
                &&& r matches Restarted::Examine(go) ==> go == !(*s)@.hold
                &&& r matches Restarted::Abandoned(report) ==> report.step.state == StepState::Warn
                    && report.card is Some
                &&& final(s)@ == (Shell { restart_guard: false, ..(*s)@ })
            },
        forall|s: &mut AppState, exited: bool, target: &str, r: Stopped| #[trigger]
            call_ensures(AppState::switch_stopped, (s, exited, target), r) ==> {
                &&& r is Install <==> exited
                &&& r matches Stopped::Install { kind, target: v } ==> kind == Kind::Dsh && v@
                    == target@ && final(s)@ == (*s)@
                &&& r is Abandoned ==> final(s)@ == (Shell { restart_guard: false, ..(*s)@ })
            },
{
}

/// A version that was installed is examined, and no longer picked; one that failed to be is
/// told of with its reason, the way back is offered, and the pick stays. Pages are heard again
/// either way.
#[verifier::rlimit(50)]
pub proof fn law_failed_replacement_offers_the_way_back()
    ensures
        forall|s: &mut AppState, p: &mut Panel, outcome: &Outcome, r: Switched| #[trigger]
            call_ensures(AppState::switch_installed, (s, p, outcome), r) ==> {
                &&& r is Examine <==> outcome.ok
                &&& r matches Switched::Examine(go) ==> go == !(*s)@.hold
                    && final(p)@.selected is None
                &&& r matches Switched::Failed(card, back) ==> text::option_text(back)
                    == (*s)@.previous_dsh && final(p)@ == (*p)@ && (outcome.error matches Some(e)
                    ==> text::has(card@, page::escaped(e@)))
                &&& final(s)@ == (Shell { restart_guard: false, ..(*s)@ })
                &&& final(p)@.open == (*p)@.open
            },
{
    assert forall|s: &mut AppState, p: &mut Panel, outcome: &Outcome, r: Switched| #[trigger]
        call_ensures(AppState::switch_installed, (s, p, outcome), r) implies {
        &&& r is Examine <==> outcome.ok
        &&& r matches Switched::Examine(go) ==> go == !(*s)@.hold && final(p)@.selected is None
        &&& r matches Switched::Failed(card, back) ==> text::option_text(back)
            == (*s)@.previous_dsh && final(p)@ == (*p)@ && (outcome.error matches Some(e)
            ==> text::has(card@, page::escaped(e@)))
        &&& final(s)@ == (Shell { restart_guard: false, ..(*s)@ })
        &&& final(p)@.open == (*p)@.open
    } by {
        if let Some(e) = outcome.error {
            text::law_prefix_is_taken_off(
                page::escaped(e@),
                "<b>更新 dsh 失败</b>\n\n"@,
                "\n\ndsh 后端已停止。要恢复使用，点下面的「跳过检查，直接启动」——它会启动<b>当前已装</b>的那个版本。"@,
            );
        }
    }
}

/// A switch is refused where npm's global directory is not known or has no dsh; where no dsh
/// is configured these are the only reasons. The way back is the version that was there before.
pub proof fn law_switch_needs_a_global_installation(
    s: &AppState,
    cfg: &Config,
    installed: Option<&str>,
    npm_prefix: Option<&str>,
    r: Asked,
    back: Option<String>,
)
    requires
        call_ensures(AppState::switch_asked, (s, cfg, installed, npm_prefix), r),
        call_ensures(AppState::switch_back, (s,), back),
    ensures
        npm_prefix is None || installed is None ==> r is Refused,
        cfg.dsh is None && npm_prefix is Some && installed is Some ==> r is Go,
        text::option_text(back) == s@.previous_dsh,
{
}

} // verus!
