//! Installing Node.js and dsh, by their official ways only.

use vstd::prelude::*;
use vstd::slice::slice_subrange;

use crate::config;
use crate::config::Config;
use crate::proc;
use crate::proc::{Line, Output};
use crate::text;

verus! {

/// The package that dsh is installed from, and by which its versions are asked for.
pub const DSH_PACKAGE: &'static str = "@deepseek-ai/dsh";

/// How many lines of output are kept.
pub const LOG_LINES: usize = 120;

/// How many lines of output a failure is reported with.
pub const TAIL_LINES: usize = 6;

/// How long to wait between two reports of progress.
pub const EMIT_MS: u64 = 120;

#[derive(Clone, Copy, PartialEq, Eq, Structural)]
pub enum Kind {
    Node,
    Dsh,
}

impl Kind {
    pub open spec fn name(self) -> Seq<char> {
        match self {
            Kind::Node => "node"@,
            Kind::Dsh => "dsh"@,
        }
    }

    pub fn id(self) -> (r: &'static str)
        ensures
            r@ == self.name(),
    {
        match self {
            Kind::Node => "node",
            Kind::Dsh => "dsh",
        }
    }

    pub open spec fn heading(self) -> Seq<char> {
        match self {
            Kind::Node => "Node.js"@,
            Kind::Dsh => "@deepseek-ai/dsh"@,
        }
    }

    pub fn title(self) -> (r: &'static str)
        ensures
            r@ == self.heading(),
    {
        match self {
            Kind::Node => "Node.js",
            Kind::Dsh => "@deepseek-ai/dsh",
        }
    }
}

/// How far an installation has come.
#[derive(Clone, Copy, PartialEq, Eq, Structural)]
pub enum Percent {
    /// As many per cent as were printed.
    Printed(u8),
    /// As many blocks of a bar as are filled.
    Bar { filled: usize, total: usize },
}

/// A report of progress.
pub struct Progress {
    pub kind: &'static str,
    pub phase: String,
    /// `None` where it is not known.
    pub percent: Option<Percent>,
    pub elapsed_ms: u64,
    pub lines: Vec<String>,
}

/// How an installation ended.
pub struct Outcome {
    pub ok: bool,
    pub cancelled: bool,
    pub error: Option<String>,
}

// ───────────────────────── commands ─────────────────────────

/// The program that installs.
pub open spec fn program_for(kind: Kind) -> Seq<char> {
    match kind {
        Kind::Node => "winget"@,
        Kind::Dsh => "cmd"@,
    }
}

/// A package and, where it is given, the version that is to be installed of it.
pub open spec fn package_spec(target: Option<Seq<char>>) -> Seq<char> {
    match target {
        Some(v) => DSH_PACKAGE@ + "@"@ + v,
        None => DSH_PACKAGE@,
    }
}

/// The arguments that it is called with. A version that is not the newest has to be resolved
/// as of the time it was the newest, or npm puts newer packages beside it.
pub open spec fn args_for(
    kind: Kind,
    target: Option<Seq<char>>,
    before: Option<Seq<char>>,
) -> Seq<Seq<char>> {
    match kind {
        Kind::Node => seq![
            "install"@,
            "--id"@,
            "OpenJS.NodeJS.LTS"@,
            "--exact"@,
            "--accept-package-agreements"@,
            "--accept-source-agreements"@,
        ],
        Kind::Dsh => seq![
            "/c"@,
            "npm"@,
            "i"@,
            "-g"@,
            "--no-audit"@,
            "--no-fund"@,
            "--loglevel=http"@,
        ] + (match before {
            Some(b) => seq!["--before="@ + b],
            None => seq![],
        }) + seq![package_spec(target)],
    }
}

/// The command that installs: for dsh with a version, where one is asked for, and with the
/// time that it is resolved as of.
pub fn command_for(kind: Kind, target: Option<&str>, before: Option<&str>) -> (r: (
    String,
    Vec<String>,
))
    ensures
        r.0@ == program_for(kind),
        text::texts(r.1@) == args_for(kind, text::option_str(target), text::option_str(before)),
{
    let mut v: Vec<String> = Vec::new();
    match kind {
        Kind::Node => {
            v.push(text::copy("install"));
            v.push(text::copy("--id"));
            v.push(text::copy("OpenJS.NodeJS.LTS"));
            v.push(text::copy("--exact"));
            v.push(text::copy("--accept-package-agreements"));
            v.push(text::copy("--accept-source-agreements"));
            assert(text::texts(v@) =~= args_for(
                kind,
                text::option_str(target),
                text::option_str(before),
            ));
            (text::copy("winget"), v)
        },
        Kind::Dsh => {
            v.push(text::copy("/c"));
            v.push(text::copy("npm"));
            v.push(text::copy("i"));
            v.push(text::copy("-g"));
            v.push(text::copy("--no-audit"));
            v.push(text::copy("--no-fund"));
            v.push(text::copy("--loglevel=http"));
            match before {
                Some(b) => v.push(text::cat2("--before=", b)),
                None => {},
            }
            match target {
                Some(t) => v.push(text::cat3(DSH_PACKAGE, "@", t)),
                None => v.push(text::copy(DSH_PACKAGE)),
            }
            assert(text::texts(v@) =~= args_for(
                kind,
                text::option_str(target),
                text::option_str(before),
            ));
            (text::copy("cmd"), v)
        },
    }
}

/// A command as it is shown: the `/c` of `cmd` is left out.
pub open spec fn displayed(program: Seq<char>, args: Seq<Seq<char>>) -> Seq<char> {
    let shown = if program == "cmd"@ && args.len() > 0 && args[0] == "/c"@ {
        args.skip(1)
    } else {
        args
    };
    program + " "@ + text::joined(shown, " "@)
}

/// A command as it is shown.
pub fn display_command(program: &str, args: &[String]) -> (r: String)
    ensures
        r@ == displayed(program@, text::texts(args@)),
{
    let quiet = text::same(program, "cmd") && args.len() > 0 && text::same(args[0].as_str(), "/c");
    let body = if quiet {
        let rest = slice_subrange(args, 1, args.len());
        assert(text::texts(rest@) =~= text::texts(args@).skip(1));
        text::join(rest, " ")
    } else {
        text::join(args, " ")
    };
    text::cat3(program, " ", body.as_str())
}

/// A version that may stand in a command: not empty, not overlong, and made of letters,
/// digits, dots, hyphens and plus signs.
pub open spec fn acceptable(v: Seq<char>) -> bool {
    v.len() > 0 && text::utf8_len(v) <= 64 && text::every(v, |c: char| proc::version_char(c))
}

/// Whether a version may stand in a command. This is where outside input meets the command
/// line of an installation.
pub fn valid_version(v: &str) -> (r: bool)
    ensures
        r == acceptable(v@),
{
    let c = text::chars(v);
    if c.len() == 0 || text::byte_len(v) > 64 {
        return false;
    }
    let mut i: usize = 0;
    while i < c.len()
        invariant
            i <= c.len(),
            c@ == v@,
            forall|k: int| 0 <= k < i ==> proc::version_char(#[trigger] c@[k]),
        decreases c.len() - i,
    {
        if !(text::is_alnum(c[i]) || c[i] == '.' || c[i] == '-' || c[i] == '+') {
            assert(!proc::version_char(v@[i as int]));
            return false;
        }
        i = i + 1;
    }
    true
}

/// An acceptable version holds no character that `cmd` gives a meaning to, no quote and no
/// space: it stays one argument.
pub proof fn law_acceptable_version_is_one_argument(v: Seq<char>, i: int)
    requires
        acceptable(v),
        0 <= i < v.len(),
    ensures
        !proc::special(v[i]),
        !text::space(v[i]),
        v[i] != '\'' && v[i] != '(' && v[i] != ')' && v[i] != ';' && v[i] != ',',
{
    assert(proc::version_char(v[i]));
}

// ───────────────────────── reading progress ─────────────────────────

/// Where the run of digits that ends at `i` begins.
pub open spec fn digits_start(s: Seq<char>, i: int) -> int
    decreases i,
{
    if 0 < i <= s.len() && text::digit(s[i - 1]) {
        digits_start(s, i - 1)
    } else {
        i
    }
}

/// The number of per cent that ends at position `i`: digits before a per cent sign, at most a
/// hundred.
pub open spec fn percent_at(s: Seq<char>, i: int) -> Option<nat> {
    let j = digits_start(s, i);
    if 0 <= j < i < s.len() && s[i] == '%' && text::value(s.subrange(j, i)) <= 100 {
        Some(text::value(s.subrange(j, i)))
    } else {
        None
    }
}

/// The last number of per cent before position `n`.
pub open spec fn last_percent(s: Seq<char>, n: int) -> Option<nat>
    decreases n,
{
    if n <= 0 {
        None
    } else if percent_at(s, n - 1) is Some {
        percent_at(s, n - 1)
    } else {
        last_percent(s, n - 1)
    }
}

/// A filled block of a bar.
pub open spec fn full_block(c: char) -> bool {
    c == '█' || c == '▓' || c == '■'
}

/// An empty block of a bar.
pub open spec fn empty_block(c: char) -> bool {
    c == '░' || c == '▒' || c == '□'
}

/// How many filled blocks a text has.
pub open spec fn full_blocks(s: Seq<char>) -> nat
    decreases s.len(),
{
    if s.len() == 0 {
        0
    } else {
        full_blocks(s.drop_last()) + (if full_block(s.last()) {
            1nat
        } else {
            0nat
        })
    }
}

/// How many empty blocks a text has.
pub open spec fn empty_blocks(s: Seq<char>) -> nat
    decreases s.len(),
{
    if s.len() == 0 {
        0
    } else {
        empty_blocks(s.drop_last()) + (if empty_block(s.last()) {
            1nat
        } else {
            0nat
        })
    }
}

/// How far a line says that the installation has come: the last number of per cent in it, or
/// else a bar of at least ten blocks. A line with an address in it says nothing: addresses
/// hold per cent signs of their own.
pub open spec fn percent_in(s: Seq<char>) -> Option<Percent> {
    if text::has(s, "://"@) {
        None
    } else {
        match last_percent(s, s.len() as int) {
            Some(n) => Some(Percent::Printed(n as u8)),
            None => if full_blocks(s) + empty_blocks(s) >= 10 {
                Some(
                    Percent::Bar {
                        filled: full_blocks(s) as usize,
                        total: (full_blocks(s) + empty_blocks(s)) as usize,
                    },
                )
            } else {
                None
            },
        }
    }
}

/// The value of digits, or some value over a hundred where it is over a hundred.
fn small_value(s: &[char]) -> (r: u64)
    requires
        text::all_digits(s@),
    ensures
        text::value(s@) <= 100 ==> r == text::value(s@),
        text::value(s@) > 100 ==> r > 100,
{
    let mut n: u64 = 0;
    let mut i: usize = 0;
    while i < s.len()
        invariant
            i <= s.len(),
            text::all_digits(s@),
            n <= 1009,
            text::value(s@.take(i as int)) <= 100 ==> n == text::value(s@.take(i as int)),
            text::value(s@.take(i as int)) > 100 ==> n > 100,
        decreases s.len() - i,
    {
        let ghost more = s@.take(i + 1);
        assert(more.drop_last() =~= s@.take(i as int));
        assert(text::digit(s@[i as int]));
        let d: u64 = (s[i] as u32 - 48) as u64;
        assert(text::value(more) == text::value(s@.take(i as int)) * 10 + d);
        if n <= 100 {
            n = n * 10 + d;
        }
        i = i + 1;
    }
    assert(s@.take(i as int) =~= s@);
    n
}

fn find_percent(s: &[char]) -> (r: Option<u8>)
    ensures
        r matches Some(n) ==> last_percent(s@, s@.len() as int) == Some(n as nat) && n <= 100,
        r is None <==> last_percent(s@, s@.len() as int) is None,
{
    let mut n: usize = s.len();
    while n > 0
        invariant
            n <= s.len(),
            last_percent(s@, s@.len() as int) == last_percent(s@, n as int),
        decreases n,
    {
        let i: usize = n - 1;
        if s[i] == '%' {
            let mut j: usize = i;
            while j > 0 && text::is_digit(s[j - 1])
                invariant
                    j <= i < s.len(),
                    digits_start(s@, i as int) == digits_start(s@, j as int),
                    forall|k: int| j <= k < i ==> text::digit(#[trigger] s@[k]),
                decreases j,
            {
                j = j - 1;
            }
            if j < i {
                let run = slice_subrange(s, j, i);
                assert(text::all_digits(run@));
                let v = small_value(run);
                if v <= 100 {
                    return Some(v as u8);
                }
            }
        }
        n = n - 1;
    }
    None
}

/// How far a line says that the installation has come.
pub fn parse_percent(s: &str) -> (r: Option<Percent>)
    ensures
        r == percent_in(s@),
{
    let v = text::chars(s);
    let sep = text::chars("://");
    if text::contains(v.as_slice(), sep.as_slice()) {
        return None;
    }
    match find_percent(v.as_slice()) {
        Some(n) => {
            return Some(Percent::Printed(n));
        },
        None => {},
    }
    let mut filled: usize = 0;
    let mut empty: usize = 0;
    let mut i: usize = 0;
    while i < v.len()
        invariant
            i <= v.len(),
            filled + empty <= i,
            filled == full_blocks(v@.take(i as int)),
            empty == empty_blocks(v@.take(i as int)),
        decreases v.len() - i,
    {
        assert(v@.take(i + 1).drop_last() =~= v@.take(i as int));
        let c = v[i];
        if c == '█' || c == '▓' || c == '■' {
            filled = filled + 1;
        } else if c == '░' || c == '▒' || c == '□' {
            empty = empty + 1;
        }
        i = i + 1;
    }
    assert(v@.take(i as int) =~= v@);
    let total = filled + empty;
    if total >= 10 {
        Some(Percent::Bar { filled, total })
    } else {
        None
    }
}

/// What a line says that the installation is doing.
pub open spec fn phase_in(line: Seq<char>) -> Option<Seq<char>> {
    let l = text::lower(line);
    if text::starts(l, "npm http"@) {
        if text::has(l, " fetch "@) {
            Some("正在下载"@)
        } else {
            Some("正在解析依赖"@)
        }
    } else if text::has(l, "downloading"@) || text::has(l, "download"@) {
        Some("正在下载"@)
    } else if text::has(l, "installing"@) || text::has(l, "install"@) {
        Some("正在安装"@)
    } else if text::has(l, "verif"@) {
        Some("正在校验"@)
    } else {
        None
    }
}

fn mentions(l: &Vec<char>, word: &str) -> (r: bool)
    ensures
        r == text::has(l@, word@),
{
    let w = text::chars(word);
    text::contains(l.as_slice(), w.as_slice())
}

/// What a line says that the installation is doing.
pub fn guess_phase(line: &str) -> (r: Option<String>)
    ensures
        text::option_text(r) == phase_in(line@),
{
    let v = text::chars(line);
    let l = text::to_lower(v.as_slice());
    let http = text::chars("npm http");
    if text::starts_with(l.as_slice(), http.as_slice()) {
        if mentions(&l, " fetch ") {
            Some(text::copy("正在下载"))
        } else {
            Some(text::copy("正在解析依赖"))
        }
    } else if mentions(&l, "downloading") || mentions(&l, "download") {
        Some(text::copy("正在下载"))
    } else if mentions(&l, "installing") || mentions(&l, "install") {
        Some(text::copy("正在安装"))
    } else if mentions(&l, "verif") {
        Some(text::copy("正在校验"))
    } else {
        None
    }
}

// ───────────────────────── a running installation ─────────────────────────

/// An installation that runs.
pub struct Install {
    pub kind: Kind,
    pub program: String,
    pub args: Vec<String>,
    /// What it is doing.
    pub phase: String,
    pub percent: Option<Percent>,
    /// The last lines of its output.
    pub log: Vec<String>,
    /// When progress was last reported.
    pub emitted_ms: u64,
    /// It was asked to stop.
    pub cancelled: bool,
}

/// What an installation is called: with a version it is an update.
pub open spec fn first_phase(kind: Kind, target: Option<Seq<char>>) -> Seq<char> {
    match target {
        Some(v) => "正在更新 "@ + (kind.heading() + "@"@ + v),
        None => "正在安装 "@ + kind.heading(),
    }
}

/// The lines that an installation begins with: what is run, and, for dsh, that it may stay
/// silent for a while.
pub open spec fn first_lines(kind: Kind, command: Seq<char>) -> Seq<Seq<char>> {
    match kind {
        Kind::Node => seq!["$ "@ + command],
        Kind::Dsh => seq![
            "$ "@ + command,
            "（换版本要重装几百个包；npm 在解析依赖时会安静一会儿，通常 1-3 分钟）"@,
        ],
    }
}

impl Install {
    /// The log is not longer than it may be.
    pub open spec fn wf(self) -> bool {
        self.log.len() <= LOG_LINES
    }
}

/// Begins an installation of `kind`: of a version, where one is asked for, resolved as of
/// `before`. A version that may not stand in a command is refused, and nothing is run.
pub fn run(kind: Kind, target: Option<&str>, before: Option<&str>, now_ms: u64) -> (r: Result<
    Install,
    Outcome,
>)
    ensures
        match r {
            Ok(i) => {
                &&& text::option_str(target) matches Some(v) ==> acceptable(v)
                &&& i.wf()
                &&& i.kind == kind
                &&& i.program@ == program_for(kind)
                &&& text::texts(i.args@) == args_for(
                    kind,
                    text::option_str(target),
                    text::option_str(before),
                )
                &&& i.phase@ == first_phase(kind, text::option_str(target))
                &&& i.percent is None
                &&& text::texts(i.log@) == first_lines(
                    kind,
                    displayed(
                        program_for(kind),
                        args_for(kind, text::option_str(target), text::option_str(before)),
                    ),
                )
                &&& i.emitted_ms == now_ms
                &&& !i.cancelled
            },
            Err(o) => {
                &&& text::option_str(target) matches Some(v) && !acceptable(v)
                &&& !o.ok
                &&& !o.cancelled
                &&& text::option_text(o.error) == Some(
                    "版本号 `"@ + text::option_str(target)->0 + "` 含意外字符，已拒绝执行"@,
                )
            },
        },
{
    match target {
        Some(v) => {
            if !valid_version(v) {
                return Err(
                    Outcome {
                        ok: false,
                        cancelled: false,
                        error: Some(text::cat3("版本号 `", v, "` 含意外字符，已拒绝执行")),
                    },
                );
            }
        },
        None => {},
    }
    let (program, args) = command_for(kind, target, before);
    let phase = match target {
        Some(v) => {
            let what = text::cat3(kind.title(), "@", v);
            text::cat2("正在更新 ", what.as_str())
        },
        None => text::cat2("正在安装 ", kind.title()),
    };
    let shown = display_command(program.as_str(), args.as_slice());
    let mut log: Vec<String> = Vec::new();
    log.push(text::cat2("$ ", shown.as_str()));
    match kind {
        Kind::Dsh => {
            log.push(
                text::copy(
                    "（换版本要重装几百个包；npm 在解析依赖时会安静一会儿，通常 1-3 分钟）",
                ),
            );
        },
        Kind::Node => {},
    }
    assert(text::texts(log@) =~= first_lines(kind, shown@));
    Ok(
        Install {
            kind,
            program,
            args,
            phase,
            percent: None,
            log,
            emitted_ms: now_ms,
            cancelled: false,
        },
    )
}

/// A line as it stands in the log: lines of the error channel are marked.
pub open spec fn logged(line: Line) -> Seq<char> {
    (if line.is_err {
        "!"@
    } else {
        " "@
    }) + " "@ + line.text@
}

/// The state of an installed process.
#[derive(Clone, Copy, PartialEq, Eq, Structural)]
pub enum Polled {
    Running,
    Exited(Option<i32>),
    /// It cannot be told.
    Unknown,
}

/// What to do about a running installation.
#[derive(Clone, Copy, PartialEq, Eq, Structural)]
pub enum Poll {
    Wait,
    /// End its process tree; it then has no exit code.
    Kill,
    /// It has ended.
    Ended(Option<i32>),
}

/// An exit code in words.
pub open spec fn code_text(code: Option<i32>) -> Seq<char> {
    match code {
        Some(c) => "Some("@ + text::signed_decimal(c as int) + ")"@,
        None => "None"@,
    }
}

/// Why an installation failed: its exit code and the end of its output. The one failure that
/// nobody understands is explained first.
pub open spec fn failure(log: Seq<Seq<char>>, code: Option<i32>) -> Seq<char> {
    let tail = text::joined(text::last_of(log, TAIL_LINES as int), "\n"@);
    (if text::has(tail, "ETARGET"@) {
        "这个版本装不了：它发布那一刻，同一批的其它包还没发全（npm ETARGET）。\n— 换一个版本，或点下面的「装回 …」。\n"@
    } else {
        seq![]
    }) + "安装失败（退出码 "@ + code_text(code) + "）\n"@ + tail
}

fn code_words(code: Option<i32>) -> (r: String)
    ensures
        r@ == code_text(code),
{
    match code {
        Some(c) => {
            let n = text::signed_text(c);
            text::cat3("Some(", n.as_str(), ")")
        },
        None => text::copy("None"),
    }
}

impl Install {
    /// Takes in a line of output. The result says whether progress is to be reported: not
    /// every line is, as npm prints hundreds.
    pub fn on_line(&mut self, line: &Line, now_ms: u64) -> (r: bool)
        requires
            old(self).wf(),
        ensures
            final(self).wf(),
            final(self).kind == old(self).kind,
            final(self).program == old(self).program,
            final(self).args == old(self).args,
            final(self).cancelled == old(self).cancelled,
            final(self).percent == (match percent_in(line.text@) {
                Some(p) => Some(p),
                None => old(self).percent,
            }),
            final(self).phase@ == (match phase_in(line.text@) {
                Some(p) => p,
                None => old(self).phase@,
            }),
            text::texts(final(self).log@) == text::last_of(
                text::texts(old(self).log@).push(logged(*line)),
                LOG_LINES as int,
            ),
            r == (now_ms - old(self).emitted_ms >= EMIT_MS),
            final(self).emitted_ms == if r {
                now_ms
            } else {
                old(self).emitted_ms
            },
    {
        match parse_percent(line.text.as_str()) {
            Some(p) => {
                self.percent = Some(p);
            },
            None => {},
        }
        match guess_phase(line.text.as_str()) {
            Some(p) => {
                self.phase = p;
            },
            None => {},
        }
        let mark = if line.is_err {
            "!"
        } else {
            " "
        };
        let ghost before = self.log@;
        self.log.push(text::cat3(mark, " ", line.text.as_str()));
        assert(text::texts(self.log@) =~= text::texts(before).push(logged(*line)));
        if self.log.len() > LOG_LINES {
            let ghost full = self.log@;
            let gone = self.log.remove(0);
            assert(text::texts(self.log@) =~= text::texts(full).skip(1));
        }
        if now_ms >= self.emitted_ms && now_ms - self.emitted_ms >= EMIT_MS {
            self.emitted_ms = now_ms;
            true
        } else {
            false
        }
    }

    /// Decides what to do about the process. A request to stop counts only while it runs.
    pub fn on_poll(&mut self, status: Polled, cancel: bool) -> (r: Poll)
        ensures
            r == (match status {
                Polled::Running => if cancel {
                    Poll::Kill
                } else {
                    Poll::Wait
                },
                Polled::Exited(code) => Poll::Ended(code),
                Polled::Unknown => Poll::Ended(None),
            }),
            final(self).cancelled == (old(self).cancelled || r == Poll::Kill),
            final(self).kind == old(self).kind,
            final(self).program == old(self).program,
            final(self).args == old(self).args,
            final(self).phase == old(self).phase,
            final(self).percent == old(self).percent,
            final(self).log == old(self).log,
            final(self).emitted_ms == old(self).emitted_ms,
    {
        match status {
            Polled::Running => if cancel {
                self.cancelled = true;
                Poll::Kill
            } else {
                Poll::Wait
            },
            Polled::Exited(code) => Poll::Ended(code),
            Polled::Unknown => Poll::Ended(None),
        }
    }

    /// How the installation ended, from its exit code.
    pub fn outcome(&self, code: Option<i32>) -> (r: Outcome)
        ensures
            r.ok == (!self.cancelled && code == Some(0i32)),
            r.cancelled == self.cancelled,
            text::option_text(r.error) == (if r.ok {
                None
            } else if self.cancelled {
                Some("安装已取消"@)
            } else {
                Some(failure(text::texts(self.log@), code))
            }),
    {
        let done = match code {
            Some(c) => c == 0,
            None => false,
        };
        if self.cancelled {
            return Outcome { ok: false, cancelled: true, error: Some(text::copy("安装已取消")) };
        }
        if done {
            return Outcome { ok: true, cancelled: false, error: None };
        }
        let n = self.log.len();
        let tail = if n > TAIL_LINES {
            let last = slice_subrange(self.log.as_slice(), n - TAIL_LINES, n);
            assert(text::texts(last@) =~= text::last_of(text::texts(self.log@), TAIL_LINES as int));
            text::join(last, "\n")
        } else {
            text::join(self.log.as_slice(), "\n")
        };
        let t = text::chars(tail.as_str());
        let mut why = if mentions(&t, "ETARGET") {
            text::copy(
                "这个版本装不了：它发布那一刻，同一批的其它包还没发全（npm ETARGET）。\n— 换一个版本，或点下面的「装回 …」。\n",
            )
        } else {
            let none = String::new();
            assert(none@ =~= seq![]);
            none
        };
        let c = code_words(code);
        why.push_str("安装失败（退出码 ");
        why.push_str(c.as_str());
        why.push_str("）\n");
        why.push_str(tail.as_str());
        Outcome { ok: false, cancelled: false, error: Some(why) }
    }

    /// A report of progress. The first and the last report give no percentage.
    pub fn progress(&self, bare: bool, elapsed_ms: u64) -> (r: Progress)
        ensures
            r.kind@ == self.kind.name(),
            r.phase@ == self.phase@,
            r.percent == if bare {
                None
            } else {
                self.percent
            },
            r.elapsed_ms == elapsed_ms,
            text::texts(r.lines@) == text::texts(self.log@),
    {
        Progress {
            kind: self.kind.id(),
            phase: text::copy(self.phase.as_str()),
            percent: if bare {
                None
            } else {
                self.percent
            },
            elapsed_ms,
            lines: text::copies(self.log.as_slice()),
        }
    }
}

/// How an installation ended that could not be started.
pub fn spawn_failed(why: &str) -> (r: Outcome)
    ensures
        !r.ok && !r.cancelled,
        text::option_text(r.error) == Some("无法启动安装程序："@ + why@),
{
    Outcome { ok: false, cancelled: false, error: Some(text::cat2("无法启动安装程序：", why)) }
}

// ───────────────────────── after an installation ─────────────────────────

/// Where a Node.js is known to be put, the likeliest place first.
pub open spec fn candidates(
    program_files: Option<Seq<char>>,
    local_data: Option<Seq<char>>,
) -> Seq<Seq<char>> {
    (match program_files {
        Some(p) => seq![config::within(config::within(p, "nodejs"@), "node.exe"@)],
        None => seq![],
    }) + (match local_data {
        Some(l) => seq![
            config::within(
                config::within(config::within(l, "Programs"@), "nodejs"@),
                "node.exe"@,
            ),
        ],
        None => seq![],
    }) + seq!["C:\\Program Files\\nodejs\\node.exe"@]
}

/// The places where Node.js may have been installed, in the order in which they are tried.
pub fn node_candidates(program_files: Option<&str>, local_data: Option<&str>) -> (r: Vec<String>)
    ensures
        text::texts(r@) == candidates(
            text::option_str(program_files),
            text::option_str(local_data),
        ),
{
    let mut v: Vec<String> = Vec::new();
    match program_files {
        Some(p) => {
            let dir = config::join(p, "nodejs");
            v.push(config::join(dir.as_str(), "node.exe"));
        },
        None => {},
    }
    match local_data {
        Some(l) => {
            let programs = config::join(l, "Programs");
            let dir = config::join(programs.as_str(), "nodejs");
            v.push(config::join(dir.as_str(), "node.exe"));
        },
        None => {},
    }
    v.push(text::copy("C:\\Program Files\\nodejs\\node.exe"));
    assert(text::texts(v@) =~= candidates(
        text::option_str(program_files),
        text::option_str(local_data),
    ));
    v
}

/// `p` is the npm beside the Node.js at `node`.
pub open spec fn beside(p: Seq<char>, node: Seq<char>) -> bool {
    exists|d: Seq<char>| #[trigger]
        config::parent(d, node) && p == config::within(d, "npm.cmd"@)
}

/// Where npm lies beside a Node.js.
pub fn npm_beside(node: &str) -> (r: Option<String>)
    ensures
        r matches Some(p) ==> beside(p@, node@),
        config::has_name(node@) ==> r is Some,
{
    match config::parent_dir(node) {
        Some(d) => {
            let p = config::join(d.as_str(), "npm.cmd");
            assert(config::parent(d@, node@) && p@ == config::within(d@, "npm.cmd"@));
            Some(p)
        },
        None => None,
    }
}

/// npm's global directory, from its answer.
pub fn npm_prefix(ran: &Result<Output, String>) -> (r: Option<String>)
    ensures
        text::option_text(r) == (match *ran {
            Ok(out) => if out.succeeded() && text::trimmed(out.stdout@).len() > 0 {
                Some(text::trimmed(out.stdout@))
            } else {
                None
            },
            Err(_) => None,
        }),
{
    match ran {
        Ok(out) => {
            if !out.ok() {
                return None;
            }
            let p = text::trim_text(out.stdout.as_str());
            if p.as_str().is_empty() {
                None
            } else {
                Some(p)
            }
        },
        Err(_) => None,
    }
}

/// Where dsh lies in npm's global directory.
pub fn dsh_in(prefix: &str) -> (r: String)
    ensures
        r@ == config::within(prefix@, "dsh.cmd"@),
{
    config::join(prefix, "dsh.cmd")
}

/// Remembers where the program is that was installed, and gives its path.
///
/// For Node.js, `found` is where it is, and `npm` where the npm beside it is; for dsh, `found`
/// is where it is. `prefix` is npm's global directory.
pub fn remember(
    kind: Kind,
    cfg: &mut Config,
    found: Option<&str>,
    npm: Option<&str>,
    prefix: Option<&str>,
) -> (r: Option<String>)
    ensures
        match kind {
            Kind::Node => match found {
                None => r is None && *final(cfg) == *old(cfg),
                Some(node) => {
                    &&& text::option_text(r) == Some(node@)
                    &&& text::option_text(final(cfg).node) == Some(node@)
                    &&& npm matches Some(n) ==> text::option_text(final(cfg).npm) == Some(n@)
                    &&& npm is None ==> final(cfg).npm == old(cfg).npm
                    &&& text::option_text(final(cfg).npm_prefix) == text::option_str(prefix)
                    &&& final(cfg).dsh == old(cfg).dsh
                },
            },
            Kind::Dsh => if found is Some && prefix is Some {
                &&& text::option_text(r) == text::option_str(found)
                &&& text::option_text(final(cfg).dsh) == text::option_str(found)
                &&& text::option_text(final(cfg).npm_prefix) == text::option_str(prefix)
                &&& final(cfg).node == old(cfg).node
                &&& final(cfg).npm == old(cfg).npm
            } else {
                r is None && *final(cfg) == *old(cfg)
            },
        },
{
    match kind {
        Kind::Node => match found {
            None => None,
            Some(node) => {
                match npm {
                    Some(n) => {
                        cfg.npm = Some(text::copy(n));
                    },
                    None => {},
                }
                cfg.node = Some(text::copy(node));
                cfg.npm_prefix =
                match prefix {
                    Some(p) => Some(text::copy(p)),
                    None => None,
                };
                Some(text::copy(node))
            },
        },
        Kind::Dsh => match (found, prefix) {
            (Some(dsh), Some(p)) => {
                cfg.dsh = Some(text::copy(dsh));
                cfg.npm_prefix = Some(text::copy(p));
                Some(text::copy(dsh))
            },
            _ => None,
        },
    }
}

/// What the disk says of the places where an installed program may be.
pub struct Places {
    /// Of each candidate for Node.js, whether it is a file.
    pub candidates: Vec<bool>,
    /// Whether the npm beside the first such candidate is a file.
    pub npm: bool,
    /// Whether the dsh in npm's global directory is a file.
    pub dsh: bool,
}

/// The first of some paths that is a file, from position `i` on.
pub open spec fn first_file(paths: Seq<Seq<char>>, is_file: Seq<bool>, i: int) -> Option<Seq<char>>
    decreases paths.len() - i,
{
    if i < 0 || i >= paths.len() || i >= is_file.len() {
        None
    } else if is_file[i] {
        Some(paths[i])
    } else {
        first_file(paths, is_file, i + 1)
    }
}

/// The first of some paths that is a file. A path of which nothing is said is none.
pub fn first_of(paths: &Vec<String>, is_file: &Vec<bool>) -> (r: Option<String>)
    ensures
        text::option_text(r) == first_file(text::texts(paths@), is_file@, 0),
{
    let mut i: usize = 0;
    while i < paths.len() && i < is_file.len()
        invariant
            i <= paths.len(),
            i <= is_file.len(),
            first_file(text::texts(paths@), is_file@, 0) == first_file(
                text::texts(paths@),
                is_file@,
                i as int,
            ),
        decreases paths.len() - i,
    {
        assert(text::texts(paths@)[i as int] == paths@[i as int]@);
        if is_file[i] {
            return Some(text::copy(paths[i].as_str()));
        }
        i = i + 1;
    }
    None
}

/// How the configuration is once a Node.js was found at `node`.
pub open spec fn node_remembered(
    after: Config,
    before: Config,
    node: Seq<char>,
    npm_is_file: bool,
    prefix: Option<Seq<char>>,
) -> bool {
    &&& text::option_text(after.node) == Some(node)
    &&& text::option_text(after.npm_prefix) == prefix
    &&& after.dsh == before.dsh
    &&& if npm_is_file && config::has_name(node) {
        text::option_text(after.npm) matches Some(p) && beside(p, node)
    } else {
        after.npm == before.npm || (npm_is_file && (text::option_text(after.npm) matches Some(p)
            && beside(p, node)))
    }
}

/// Looks for the program that was installed, remembers where it is, and gives its path. The
/// `PATH` of the running program does not know it yet, so it is looked for where it is known
/// to be put: a Node.js among the candidates, a dsh in npm's global directory, which is
/// `prefix`.
pub fn locate_and_remember(
    kind: Kind,
    cfg: &mut Config,
    program_files: Option<&str>,
    local_data: Option<&str>,
    prefix: Option<&str>,
    places: &Places,
) -> (r: Option<String>)
    ensures
        match kind {
            Kind::Node => {
                &&& text::option_text(r) == first_file(
                    candidates(text::option_str(program_files), text::option_str(local_data)),
                    places.candidates@,
                    0,
                )
                &&& r is None ==> *final(cfg) == *old(cfg)
                &&& r matches Some(node) ==> node_remembered(
                    *final(cfg),
                    *old(cfg),
                    node@,
                    places.npm,
                    text::option_str(prefix),
                )
            },
            Kind::Dsh => if prefix is Some && places.dsh {
                &&& text::option_text(r) == Some(
                    config::within(text::option_str(prefix)->0, "dsh.cmd"@),
                )
                &&& text::option_text(final(cfg).dsh) == text::option_text(r)
                &&& text::option_text(final(cfg).npm_prefix) == text::option_str(prefix)
                &&& final(cfg).node == old(cfg).node
                &&& final(cfg).npm == old(cfg).npm
            } else {
                r is None && *final(cfg) == *old(cfg)
            },
        },
{
    match kind {
        Kind::Node => {
            let paths = node_candidates(program_files, local_data);
            match first_of(&paths, &places.candidates) {
                None => None,
                Some(node) => {
                    let npm = if places.npm {
                        npm_beside(node.as_str())
                    } else {
                        None
                    };
                    let at: Option<&str> = match &npm {
                        Some(p) => Some(p.as_str()),
                        None => None,
                    };
                    remember(kind, cfg, Some(node.as_str()), at, prefix)
                },
            }
        },
        Kind::Dsh => match prefix {
            Some(p) => if places.dsh {
                let dsh = dsh_in(p);
                remember(kind, cfg, Some(dsh.as_str()), None, prefix)
            } else {
                None
            },
            None => None,
        },
    }
}

// ───────────────────────── installing what is missing ─────────────────────────

/// What is still to be installed, one after the other.
pub struct Queue {
    pub kinds: Vec<Kind>,
    /// The one that is being installed.
    pub at: usize,
}

impl Queue {
    /// Something is being installed.
    pub open spec fn wf(self) -> bool {
        self.at < self.kinds.len()
    }
}

/// The kinds that names stand for, in their order; other names stand for none.
pub open spec fn kinds_of(ids: Seq<Seq<char>>) -> Seq<Kind>
    decreases ids.len(),
{
    if ids.len() == 0 {
        seq![]
    } else if ids.last() == "node"@ {
        kinds_of(ids.drop_last()).push(Kind::Node)
    } else if ids.last() == "dsh"@ {
        kinds_of(ids.drop_last()).push(Kind::Dsh)
    } else {
        kinds_of(ids.drop_last())
    }
}

/// How the installation of what is missing begins.
pub enum Begin {
    /// Not now: the backend is being restarted or replaced.
    Suppressed,
    /// There is nothing to install: examine again, and start.
    Examine,
    Install(Queue),
}

/// Begins to install what is missing. While the backend is being restarted or replaced, this
/// must not happen: it would end in starting a second backend on top of files that are being
/// overwritten.
pub fn install_missing(guarded: bool, ids: &Vec<&'static str>) -> (r: Begin)
    ensures
        if guarded {
            r is Suppressed
        } else if kinds_of(text::slices(ids@)).len() == 0 {
            r is Examine
        } else {
            r matches Begin::Install(q) && q.kinds@ == kinds_of(text::slices(ids@)) && q.at == 0
                && q.wf()
        },
{
    if guarded {
        return Begin::Suppressed;
    }
    let mut kinds: Vec<Kind> = Vec::new();
    let mut i: usize = 0;
    let ghost names = text::slices(ids@);
    while i < ids.len()
        invariant
            i <= ids.len(),
            names == text::slices(ids@),
            kinds@ == kinds_of(names.take(i as int)),
        decreases ids.len() - i,
    {
        assert(names.take(i + 1).drop_last() =~= names.take(i as int));
        assert(names[i as int] == ids@[i as int]@);
        if text::same(ids[i], "node") {
            kinds.push(Kind::Node);
        } else if text::same(ids[i], "dsh") {
            kinds.push(Kind::Dsh);
        }
        i = i + 1;
    }
    assert(names.take(i as int) =~= names);
    if kinds.len() == 0 {
        Begin::Examine
    } else {
        Begin::Install(Queue { kinds, at: 0 })
    }
}

/// What follows an installation of the queue.
#[derive(Clone, Copy, PartialEq, Eq, Structural)]
pub enum Next {
    /// It failed: the user decides about the rest.
    Stop,
    Install(Kind),
    /// All is done: examine again, and start.
    Examine,
}

/// What is to be examined again once a kind was installed, or failed to be.
pub open spec fn again(kind: Kind, ok: bool) -> Seq<Seq<char>> {
    match kind {
        Kind::Node => if ok {
            seq!["node"@, "npm"@]
        } else {
            seq!["node"@]
        },
        Kind::Dsh => seq!["dsh"@],
    }
}

impl Queue {
    /// What follows once the installation ended: what to examine again, and what then.
    pub fn installed(&mut self, ok: bool) -> (r: (Vec<&'static str>, Next))
        requires
            old(self).wf(),
        ensures
            text::slices(r.0@) == again(old(self).kinds@[old(self).at as int], ok),
            final(self).kinds == old(self).kinds,
            if !ok {
                r.1 == Next::Stop && final(self).at == old(self).at
            } else if old(self).at + 1 < old(self).kinds.len() {
                r.1 == Next::Install(old(self).kinds@[old(self).at + 1]) && final(self).at == old(
                    self,
                ).at + 1 && final(self).wf()
            } else {
                r.1 == Next::Examine && final(self).at == old(self).at
            },
    {
        let kind = self.kinds[self.at];
        let mut v: Vec<&'static str> = Vec::new();
        match kind {
            Kind::Node => {
                v.push("node");
                if ok {
                    v.push("npm");
                }
            },
            Kind::Dsh => {
                v.push("dsh");
            },
        }
        assert(text::slices(v@) =~= again(kind, ok));
        if !ok {
            (v, Next::Stop)
        } else if self.at + 1 < self.kinds.len() {
            self.at = self.at + 1;
            (v, Next::Install(self.kinds[self.at]))
        } else {
            (v, Next::Examine)
        }
    }
}

/// Every name of something that can be installed is queued, in the order of the names and as
/// often as it is named; other names queue nothing.
pub proof fn law_every_missing_kind_is_queued(ids: Seq<Seq<char>>, other: Seq<char>)
    ensures
        kinds_of(Seq::<Seq<char>>::empty()) == Seq::<Kind>::empty(),
        kinds_of(ids + seq!["dsh"@]) == kinds_of(ids).push(Kind::Dsh),
        kinds_of(ids + seq!["node"@]) == kinds_of(ids).push(Kind::Node),
        other != "dsh"@ && other != "node"@ ==> kinds_of(ids + seq![other]) == kinds_of(ids),
        ids.contains("dsh"@) <==> kinds_of(ids).contains(Kind::Dsh),
        ids.contains("node"@) <==> kinds_of(ids).contains(Kind::Node),
{
    reveal_strlit("dsh");
    reveal_strlit("node");
    assert("node"@.len() != "dsh"@.len());
    assert((ids + seq!["dsh"@]).drop_last() =~= ids);
    assert((ids + seq!["node"@]).drop_last() =~= ids);
    assert((ids + seq![other]).drop_last() =~= ids);
    lemma_kinds_named(ids);
}

proof fn lemma_kinds_named(ids: Seq<Seq<char>>)
    ensures
        ids.contains("dsh"@) <==> kinds_of(ids).contains(Kind::Dsh),
        ids.contains("node"@) <==> kinds_of(ids).contains(Kind::Node),
    decreases ids.len(),
{
    reveal_strlit("dsh");
    reveal_strlit("node");
    assert("node"@.len() != "dsh"@.len());
    if ids.len() > 0 {
        let rest = ids.drop_last();
        lemma_kinds_named(rest);
        assert(ids =~= rest.push(ids.last()));
        lemma_push_contains(rest, ids.last(), "dsh"@);
        lemma_push_contains(rest, ids.last(), "node"@);
        lemma_push_contains(kinds_of(rest), Kind::Dsh, Kind::Dsh);
        lemma_push_contains(kinds_of(rest), Kind::Dsh, Kind::Node);
        lemma_push_contains(kinds_of(rest), Kind::Node, Kind::Dsh);
        lemma_push_contains(kinds_of(rest), Kind::Node, Kind::Node);
    }
}

proof fn lemma_push_contains<A>(s: Seq<A>, a: A, x: A)
    ensures
        s.push(a).contains(x) <==> s.contains(x) || a == x,
{
    let t = s.push(a);
    if s.contains(x) {
        let i = choose|i: int| 0 <= i < s.len() && s[i] == x;
        assert(t[i] == x);
    }
    if a == x {
        assert(t[s.len() as int] == x);
    }
    if t.contains(x) {
        let i = choose|i: int| 0 <= i < t.len() && t[i] == x;
        if i < s.len() {
            assert(s[i] == x);
        }
    }
}

/// What is missing is installed, from the first on, unless the backend is being restarted or
/// replaced; where nothing that is missing can be installed, the examination is made again.
pub proof fn law_what_is_missing_is_queued(guarded: bool, ids: &Vec<&'static str>, r: Begin)
    requires
        call_ensures(install_missing, (guarded, ids), r),
    ensures
        r is Suppressed <==> guarded,
        !guarded && (text::slices(ids@).contains("node"@) || text::slices(ids@).contains("dsh"@))
            ==> (r matches Begin::Install(q) && q.at == 0 && q.kinds@.len() > 0 && (
        q.kinds@.contains(Kind::Node) <==> text::slices(ids@).contains("node"@)) && (
        q.kinds@.contains(Kind::Dsh) <==> text::slices(ids@).contains("dsh"@))),
        !guarded && !text::slices(ids@).contains("node"@) && !text::slices(ids@).contains("dsh"@)
            ==> r is Examine,
{
    let names = text::slices(ids@);
    let kinds = kinds_of(names);
    lemma_kinds_named(names);
    if kinds.len() > 0 && !kinds.contains(Kind::Node) && !kinds.contains(Kind::Dsh) {
        assert(kinds.contains(kinds[0]));
    }
}

/// The queue is worked off one by one: after each success the next one follows, after the last
/// the examination, and after a failure nothing. What was installed is examined again.
pub proof fn law_queue_is_worked_off()
    ensures
        forall|q: &mut Queue, ok: bool, r: (Vec<&'static str>, Next)| #[trigger]
            call_ensures(Queue::installed, (q, ok), r) && (*q).wf() ==> {
                &&& final(q).kinds@ == (*q).kinds@
                &&& r.1 is Stop <==> !ok
                &&& r.1 is Examine <==> ok && (*q).at == (*q).kinds@.len() - 1
                &&& r.1 matches Next::Install(k) ==> final(q).at == (*q).at + 1 && k
                    == final(q).kinds@[final(q).at as int]
                &&& (*q).kinds@[(*q).at as int] == Kind::Dsh ==> text::slices(r.0@) == seq!["dsh"@]
                &&& (*q).kinds@[(*q).at as int] == Kind::Node ==> text::slices(r.0@)[0] == "node"@
                    && (text::slices(r.0@).contains("npm"@) <==> ok)
            },
{
    assert forall|q: &mut Queue, ok: bool, r: (Vec<&'static str>, Next)| #[trigger]
        call_ensures(Queue::installed, (q, ok), r) && (*q).wf() implies {
        &&& final(q).kinds@ == (*q).kinds@
        &&& r.1 is Stop <==> !ok
        &&& r.1 is Examine <==> ok && (*q).at == (*q).kinds@.len() - 1
        &&& r.1 matches Next::Install(k) ==> final(q).at == (*q).at + 1 && k
            == final(q).kinds@[final(q).at as int]
        &&& (*q).kinds@[(*q).at as int] == Kind::Dsh ==> text::slices(r.0@) == seq!["dsh"@]
        &&& (*q).kinds@[(*q).at as int] == Kind::Node ==> text::slices(r.0@)[0] == "node"@ && (
        text::slices(r.0@).contains("npm"@) <==> ok)
    } by {
        let s = text::slices(r.0@);
        reveal_strlit("node");
        reveal_strlit("npm");
        assert("node"@.len() != "npm"@.len());
        if (*q).kinds@[(*q).at as int] == Kind::Node {
            if ok {
                assert(s[1] == "npm"@);
            } else {
                assert(s.len() == 1 && s[0] == "node"@);
            }
        }
    }
}

/// A version may stand in a command exactly where it is made of ASCII letters, digits, dots,
/// hyphens and plus signs, and is between one and 64 bytes long; any other is refused before
/// anything is run.
pub proof fn law_versions_are_plain(
    kind: Kind,
    v: &str,
    before: Option<&str>,
    now_ms: u64,
    r: bool,
    begun: Result<Install, Outcome>,
)
    requires
        call_ensures(valid_version, (v,), r),
        call_ensures(run, (kind, Some(v), before, now_ms), begun),
    ensures
        r <==> 0 < v@.len() && text::utf8_len(v@) <= 64 && forall|i: int|
            0 <= i < v@.len() ==> {
                ||| 'a' <= #[trigger] v@[i] <= 'z'
                ||| 'A' <= v@[i] <= 'Z'
                ||| '0' <= v@[i] <= '9'
                ||| v@[i] == '.'
                ||| v@[i] == '-'
                ||| v@[i] == '+'
            },
        begun is Ok <==> r,
        begun matches Err(o) ==> !o.ok && !o.cancelled && (o.error matches Some(e) && text::has(
            e@,
            v@,
        )),
{
    let p = |c: char| proc::version_char(c);
    if r {
        assert forall|i: int| 0 <= i < v@.len() implies {
            ||| 'a' <= #[trigger] v@[i] <= 'z'
            ||| 'A' <= v@[i] <= 'Z'
            ||| '0' <= v@[i] <= '9'
            ||| v@[i] == '.'
            ||| v@[i] == '-'
            ||| v@[i] == '+'
        } by {
            assert(p(v@[i]));
        }
    }
    if begun is Err {
        text::law_prefix_is_taken_off(v@, "版本号 `"@, "` 含意外字符，已拒绝执行"@);
    }
}

/// What is run is the command for that kind and version; no version at all is always accepted.
/// The log begins with that command.
#[verifier::rlimit(50)]
pub proof fn law_command_is_what_is_run(
    kind: Kind,
    target: Option<&str>,
    before: Option<&str>,
    now_ms: u64,
    c: (String, Vec<String>),
    r: Result<Install, Outcome>,
)
    requires
        call_ensures(command_for, (kind, target, before), c),
        call_ensures(run, (kind, target, before, now_ms), r),
    ensures
        target is None ==> r is Ok,
        r matches Ok(i) ==> {
            &&& i.kind == kind
            &&& i.program@ == c.0@
            &&& text::texts(i.args@) == text::texts(c.1@)
            &&& i.log@.len() > 0 && text::starts(i.log@[0]@, "$ "@ + c.0@)
            &&& !i.cancelled
            &&& i.percent is None
        },
        kind == Kind::Node ==> c.0@ == "winget"@ && text::texts(c.1@).contains(
            "OpenJS.NodeJS.LTS"@,
        ),
        kind == Kind::Dsh ==> c.0@ == "cmd"@ && text::texts(c.1@).contains("-g"@),
        kind == Kind::Dsh && target is Some ==> text::texts(c.1@).last() == "@deepseek-ai/dsh@"@
            + target->Some_0@,
        kind == Kind::Dsh && target is None ==> text::texts(c.1@).last() == "@deepseek-ai/dsh"@,
        kind == Kind::Dsh && before is Some ==> text::texts(c.1@).contains(
            "--before="@ + before->Some_0@,
        ),
        kind == Kind::Dsh ==> c.1@.len() == 8 + (if before is Some {
            1int
        } else {
            0
        }),
{
    let args = text::texts(c.1@);
    assert(args.len() == c.1@.len());
    match kind {
        Kind::Node => {
            assert(args[2] == "OpenJS.NodeJS.LTS"@);
        },
        Kind::Dsh => {
            assert(args[3] == "-g"@);
            reveal_strlit("@deepseek-ai/dsh");
            reveal_strlit("@");
            reveal_strlit("@deepseek-ai/dsh@");
            if target is Some {
                assert(DSH_PACKAGE@ + "@"@ + target->Some_0@ =~= "@deepseek-ai/dsh@"@
                    + target->Some_0@);
            }
            if before is Some {
                assert(args[7] == "--before="@ + before->Some_0@);
            }
        },
    }
    if let Ok(i) = r {
        let shown = displayed(c.0@, args);
        assert(text::texts(i.log@) == first_lines(kind, shown));
        assert(text::texts(i.log@).len() == i.log@.len());
        assert(first_lines(kind, shown).len() > 0);
        assert(text::texts(i.log@)[0] == i.log@[0]@);
        let l = i.log@[0]@;
        let head = "$ "@ + c.0@;
        assert(l =~= "$ "@ + shown);
        assert(l.subrange(0, head.len() as int) =~= head);
    }
}

proof fn lemma_digits_start(s: Seq<char>, j: int, i: int)
    requires
        0 <= j <= i <= s.len(),
        forall|k: int| j <= k < i ==> text::digit(#[trigger] s[k]),
        j == 0 || !text::digit(s[j - 1]),
    ensures
        digits_start(s, i) == j,
    decreases i - j,
{
    if i > j {
        lemma_digits_start(s, j, i - 1);
    }
}

proof fn lemma_no_percent_behind(s: Seq<char>, k: int, n: int)
    requires
        0 <= k <= n <= s.len(),
        forall|i: int| k <= i < n && #[trigger] s[i] == '%' ==> percent_at(s, i) is None,
    ensures
        last_percent(s, n) == last_percent(s, k),
    decreases n - k,
{
    if n > k {
        if s[n - 1] == '%' {
            assert(percent_at(s, n - 1) is None);
        }
        lemma_no_percent_behind(s, k, n - 1);
    }
}

/// A number up to a hundred before a per cent sign is how far the installation has come,
/// whatever stands before it, unless another number with such a sign follows or the line holds
/// an address.
#[verifier::rlimit(50)]
pub proof fn law_printed_percent_is_read(h: Seq<char>, n: nat, t: Seq<char>)
    requires
        n <= 100,
        h.len() == 0 || !text::digit(h.last()),
        forall|k: int|
            0 <= k < t.len() && #[trigger] t[k] == '%' ==> k == 0 || !text::digit(t[k - 1]),
        !text::has(h + text::decimal(n) + seq!['%'] + t, "://"@),
    ensures
        percent_in(h + text::decimal(n) + seq!['%'] + t) == Some(Percent::Printed(n as u8)),
{
    let d = text::decimal(n);
    let s = h + d + seq!['%'] + t;
    text::lemma_decimal(n);
    let i = (h.len() + d.len()) as int;
    assert forall|k: int| h.len() <= k < i implies text::digit(#[trigger] s[k]) by {
        assert(s[k] == d[k - h.len()]);
    }
    if h.len() > 0 {
        assert(s[h.len() - 1] == h.last());
    }
    lemma_digits_start(s, h.len() as int, i);
    assert(s.subrange(h.len() as int, i) =~= d);
    assert(s[i] == '%');
    assert(percent_at(s, i) == Some(n));
    assert forall|k: int| i + 1 <= k < s.len() && #[trigger] s[k] == '%' implies percent_at(s, k)
        is None by {
        assert(s[k] == t[k - i - 1]);
        assert(!text::digit(s[k - 1])) by {
            if k > i + 1 {
                assert(s[k - 1] == t[k - i - 2]);
            }
        }
        assert(digits_start(s, k) == k);
    }
    lemma_no_percent_behind(s, i + 1, s.len() as int);
}

/// A number above a hundred is no progress: the one before it counts.
pub proof fn law_numbers_above_a_hundred_are_passed_over(h: Seq<char>, n: nat, t: Seq<char>)
    requires
        n > 100,
        h.len() == 0 || !text::digit(h.last()),
        !h.contains('%'),
        !t.contains('%'),
    ensures
        !(percent_in(h + text::decimal(n) + seq!['%'] + t) matches Some(Percent::Printed(_))),
{
    let d = text::decimal(n);
    let s = h + d + seq!['%'] + t;
    text::lemma_decimal(n);
    let i = (h.len() + d.len()) as int;
    assert forall|k: int| h.len() <= k < i implies text::digit(#[trigger] s[k]) by {
        assert(s[k] == d[k - h.len()]);
    }
    if h.len() > 0 {
        assert(s[h.len() - 1] == h.last());
    }
    lemma_digits_start(s, h.len() as int, i);
    assert(s.subrange(h.len() as int, i) =~= d);
    assert(percent_at(s, i) is None);
    assert forall|k: int| 0 <= k < s.len() && #[trigger] s[k] == '%' implies percent_at(s, k)
        is None by {
        if k < h.len() {
            assert(s[k] == h[k]);
        } else if k > i {
            assert(s[k] == t[k - i - 1]);
        }
    }
    lemma_no_percent_behind(s, 0, s.len() as int);
}

/// A line with an address says nothing of how far the installation has come, and neither does
/// one without a per cent sign, unless it draws a bar of at least ten blocks.
pub proof fn law_addresses_are_no_progress(s: Seq<char>)
    ensures
        text::has(s, "://"@) ==> percent_in(s) is None,
        !s.contains('%') && !text::has(s, "://"@) ==> (percent_in(s) is Some <==> full_blocks(s)
            + empty_blocks(s) >= 10) && (percent_in(s) matches Some(p) ==> p is Bar),
{
    if !s.contains('%') {
        assert forall|i: int| 0 <= i < s.len() implies #[trigger] s[i] != '%' by {}
        lemma_no_percent_behind(s, 0, s.len() as int);
    }
}

/// The blocks of a bar are counted one by one.
pub proof fn law_blocks_are_counted(s: Seq<char>, c: char)
    ensures
        full_blocks(s.push(c)) == full_blocks(s) + (if c == '█' || c == '▓' || c == '■' {
            1nat
        } else {
            0
        }),
        empty_blocks(s.push(c)) == empty_blocks(s) + (if c == '░' || c == '▒' || c == '□' {
            1nat
        } else {
            0
        }),
        full_blocks(Seq::<char>::empty()) == 0 && empty_blocks(Seq::<char>::empty()) == 0,
{
    assert(s.push(c).drop_last() =~= s);
}

/// What a line is about is told by its words, in capitals or not: what npm fetches or
/// downloads is a download, what else it asks for is the resolution of dependencies.
pub proof fn law_phase_is_told_by_the_words(line: &str, r: Option<String>)
    requires
        call_ensures(guess_phase, (line,), r),
    ensures
        text::starts(text::lower(line@), "npm http"@) && text::has(
            text::lower(line@),
            " fetch "@,
        ) ==> text::option_text(r) == Some("正在下载"@),
        text::starts(text::lower(line@), "npm http"@) && !text::has(
            text::lower(line@),
            " fetch "@,
        ) ==> text::option_text(r) == Some("正在解析依赖"@),
        !text::starts(text::lower(line@), "npm http"@) && text::has(
            text::lower(line@),
            "download"@,
        ) ==> text::option_text(r) == Some("正在下载"@),
        !text::starts(text::lower(line@), "npm http"@) && !text::has(
            text::lower(line@),
            "download"@,
        ) && text::has(text::lower(line@), "install"@) ==> text::option_text(r) == Some(
            "正在安装"@,
        ),
        !text::starts(text::lower(line@), "npm http"@) && !text::has(
            text::lower(line@),
            "download"@,
        ) && !text::has(text::lower(line@), "install"@) ==> text::option_text(r) == (
        if text::has(text::lower(line@), "verif"@) {
            Some("正在校验"@)
        } else {
            None
        }),
{
    let l = text::lower(line@);
    reveal_strlit("downloading");
    reveal_strlit("download");
    reveal_strlit("installing");
    reveal_strlit("install");
    lemma_has_longer(l, "downloading"@, "download"@);
    lemma_has_longer(l, "installing"@, "install"@);
}

proof fn lemma_has_longer(l: Seq<char>, long: Seq<char>, short: Seq<char>)
    requires
        short.len() <= long.len(),
        long.take(short.len() as int) =~= short,
    ensures
        text::has(l, long) ==> text::has(l, short),
{
    if text::has(l, long) {
        let i = choose|i: int| text::occurs_at(l, long, i);
        assert(l.subrange(i, i + short.len()) =~= l.subrange(i, i + long.len()).take(
            short.len() as int,
        ));
        assert(text::occurs_at(l, short, i));
    }
}

/// Each line goes into the log behind those before it, of which the latest 120 stay; it is
/// shown when 120 milliseconds passed since the last one was. What a line does not speak of
/// stays as it was.
#[verifier::rlimit(50)]
pub proof fn law_lines_are_logged()
    ensures
        forall|i: &mut Install, line: &Line, now_ms: u64, r: bool| #[trigger]
            call_ensures(Install::on_line, (i, line, now_ms), r) && (*i).wf() ==> {
                let log = text::texts((*i).log@);
                let after = text::texts(final(i).log@);
                &&& after.len() > 0 && text::ends(after.last(), line.text@)
                &&& after.len() <= 120
                &&& log.len() < 120 ==> after.drop_last() == log
                &&& log.len() == 120 ==> after.drop_last() == log.drop_first()
                &&& r <==> now_ms >= (*i).emitted_ms + 120
                &&& final(i).emitted_ms == (if r {
                    now_ms
                } else {
                    (*i).emitted_ms
                })
                &&& percent_in(line.text@) is None ==> final(i).percent == (*i).percent
                &&& percent_in(line.text@) is Some ==> final(i).percent == percent_in(line.text@)
                &&& phase_in(line.text@) is None ==> final(i).phase@ == (*i).phase@
                &&& phase_in(line.text@) matches Some(p) ==> final(i).phase@ == p
                &&& final(i).cancelled == (*i).cancelled
            },
{
    assert forall|i: &mut Install, line: &Line, now_ms: u64, r: bool| #[trigger]
        call_ensures(Install::on_line, (i, line, now_ms), r) && (*i).wf() implies {
        let log = text::texts((*i).log@);
        let after = text::texts(final(i).log@);
        &&& after.len() > 0 && text::ends(after.last(), line.text@)
        &&& after.len() <= 120
        &&& log.len() < 120 ==> after.drop_last() == log
        &&& log.len() == 120 ==> after.drop_last() == log.drop_first()
        &&& r <==> now_ms >= (*i).emitted_ms + 120
        &&& final(i).emitted_ms == (if r {
            now_ms
        } else {
            (*i).emitted_ms
        })
        &&& percent_in(line.text@) is None ==> final(i).percent == (*i).percent
        &&& percent_in(line.text@) is Some ==> final(i).percent == percent_in(line.text@)
        &&& phase_in(line.text@) is None ==> final(i).phase@ == (*i).phase@
        &&& phase_in(line.text@) matches Some(p) ==> final(i).phase@ == p
        &&& final(i).cancelled == (*i).cancelled
    } by {
        let log = text::texts((*i).log@);
        let after = text::texts(final(i).log@);
        let all = log.push(logged(*line));
        let l = logged(*line);
        assert(l.subrange(l.len() - line.text@.len(), l.len() as int) =~= line.text@);
        assert(log.len() == (*i).log@.len());
        if log.len() < 120 {
            assert(after.drop_last() =~= log);
        } else {
            assert(after.drop_last() =~= log.drop_first());
        }
    }
}

/// An installation that runs is ended exactly where that was asked for, and is cancelled from
/// then on; one that ended is over, with its exit code where there is one.
pub proof fn law_installation_is_ended_on_request()
    ensures
        forall|i: &mut Install, status: Polled, cancel: bool, r: Poll| #[trigger]
            call_ensures(Install::on_poll, (i, status, cancel), r) ==> {
                &&& r is Kill <==> status is Running && cancel
                &&& r is Wait <==> status is Running && !cancel
                &&& status matches Polled::Exited(code) ==> r == Poll::Ended(code)
                &&& status is Unknown ==> r == Poll::Ended(None)
                &&& final(i).cancelled <==> (*i).cancelled || r is Kill
                &&& final(i).log@ == (*i).log@
            },
{
}

/// An installation succeeded exactly where it was not cancelled and ended with code 0. Any
/// other end says why: the exit code, and at its end the last six lines of the log.
pub proof fn law_failed_installation_says_why(i: &Install, code: Option<i32>, r: Outcome)
    requires
        call_ensures(Install::outcome, (i, code), r),
    ensures
        r.ok <==> !i.cancelled && code == Some(0i32),
        r.cancelled == i.cancelled,
        r.error is None <==> r.ok,
        i.cancelled ==> text::option_text(r.error) == Some("安装已取消"@),
        !i.cancelled && !r.ok ==> text::ends(
            r.error->Some_0@,
            text::joined(text::last_of(text::texts(i.log@), 6), "\n"@),
        ),
        !i.cancelled && !r.ok && code is Some ==> text::has(
            r.error->Some_0@,
            text::signed_decimal(code->Some_0 as int),
        ),
{
    if !i.cancelled && !r.ok {
        let e = r.error->Some_0@;
        let tail = text::joined(text::last_of(text::texts(i.log@), 6), "\n"@);
        assert(e.subrange(e.len() - tail.len(), e.len() as int) =~= tail);
        if let Some(c) = code {
            let n = text::signed_decimal(c as int);
            let head = (if text::has(tail, "ETARGET"@) {
                "这个版本装不了：它发布那一刻，同一批的其它包还没发全（npm ETARGET）。\n— 换一个版本，或点下面的「装回 …」。\n"@
            } else {
                seq![]
            }) + "安装失败（退出码 "@ + "Some("@;
            let back = ")"@ + "）\n"@ + tail;
            text::law_prefix_is_taken_off(n, head, back);
            assert(head + n + back =~= e);
        }
    }
}

/// Of the places where a program may be, the first at which there is a file is taken.
pub proof fn law_first_file_is_taken(
    paths: &Vec<String>,
    is_file: &Vec<bool>,
    i: int,
    r: Option<String>,
)
    requires
        call_ensures(first_of, (paths, is_file), r),
        paths@.len() == is_file@.len(),
        0 <= i <= paths@.len(),
        forall|j: int| 0 <= j < i ==> !#[trigger] is_file@[j],
    ensures
        i < paths@.len() && is_file@[i] ==> text::option_text(r) == Some(paths@[i]@),
        i == paths@.len() ==> r is None,
{
    lemma_first_file(text::texts(paths@), is_file@, 0, i);
}

proof fn lemma_first_file(paths: Seq<Seq<char>>, is_file: Seq<bool>, k: int, i: int)
    requires
        paths.len() == is_file.len(),
        0 <= k <= i <= paths.len(),
        forall|j: int| k <= j < i ==> !#[trigger] is_file[j],
    ensures
        i < paths.len() && is_file[i] ==> first_file(paths, is_file, k) == Some(paths[i]),
        i == paths.len() ==> first_file(paths, is_file, k) is None,
    decreases i - k,
{
    if k < i {
        lemma_first_file(paths, is_file, k + 1, i);
    }
}

/// What npm prints is its global directory where it ended well and printed more than
/// whitespace; else there is none.
pub proof fn law_prefix_is_what_npm_prints(ran: &Result<Output, String>, r: Option<String>)
    requires
        call_ensures(npm_prefix, (ran,), r),
    ensures
        r is Some <==> (*ran matches Ok(out) && !out.timed_out && out.code == Some(0i32)
            && text::trimmed(out.stdout@).len() > 0),
        r matches Some(p) ==> p@ == text::trimmed(ran->Ok_0.stdout@),
{
}

/// What was installed is remembered where it was found, and nothing is forgotten on that
/// account: a Node.js takes the npm beside it along where there is one, a dsh leaves both as
/// they are.
pub proof fn law_what_was_installed_is_remembered()
    ensures
        forall|
            cfg: &mut Config,
            found: Option<&str>,
            npm: Option<&str>,
            prefix: Option<&str>,
            r: Option<String>,
        | #[trigger]
            call_ensures(remember, (Kind::Node, cfg, found, npm, prefix), r) ==> {
                &&& found is None ==> *final(cfg) == *cfg && r is None
                &&& found matches Some(p) ==> text::option_text(final(cfg).node) == Some(p@)
                    && text::option_text(r) == Some(p@) && final(cfg).dsh == (*cfg).dsh
                &&& found is Some && npm is Some ==> text::option_text(final(cfg).npm) == Some(
                    npm->Some_0@,
                )
                &&& npm is None ==> final(cfg).npm == (*cfg).npm
            },
        forall|
            cfg: &mut Config,
            found: Option<&str>,
            npm: Option<&str>,
            prefix: Option<&str>,
            r: Option<String>,
        | #[trigger]
            call_ensures(remember, (Kind::Dsh, cfg, found, npm, prefix), r) ==> {
                &&& r is Some <==> found is Some && prefix is Some
                &&& r is Some ==> text::option_text(final(cfg).dsh) == text::option_str(found)
                    && text::option_text(final(cfg).npm_prefix) == text::option_str(prefix)
                &&& r is None ==> *final(cfg) == *cfg
                &&& final(cfg).node == (*cfg).node && final(cfg).npm == (*cfg).npm
            },
{
}

/// Node.js is looked for where programs are kept, first for all users and then for this one,
/// and at last at its usual place.
pub proof fn law_node_is_looked_for_in_turn(
    program_files: Option<&str>,
    local_data: Option<&str>,
    r: Vec<String>,
)
    requires
        call_ensures(node_candidates, (program_files, local_data), r),
    ensures
        r@.len() == 1 + (if program_files is Some {
            1int
        } else {
            0
        }) + (if local_data is Some {
            1int
        } else {
            0
        }),
        text::texts(r@).last() == "C:\\Program Files\\nodejs\\node.exe"@,
        program_files matches Some(p) ==> text::texts(r@)[0] == config::within(
            config::within(p@, "nodejs"@),
            "node.exe"@,
        ),
        local_data matches Some(l) ==> text::texts(r@)[r@.len() - 2] == config::within(
            config::within(config::within(l@, "Programs"@), "nodejs"@),
            "node.exe"@,
        ),
{
    assert(text::texts(r@).len() == r@.len());
}

/// A command is shown without the `/c` that hands it to `cmd`; any other is shown whole.
pub proof fn law_commands_are_shown_as_typed(program: &str, args: &[String], r: String)
    requires
        call_ensures(display_command, (program, args), r),
    ensures
        program@ == "cmd"@ && args@.len() > 0 && args@[0]@ == "/c"@ ==> r@ == "cmd "@
            + text::joined(text::texts(args@).drop_first(), " "@),
        program@ != "cmd"@ || args@.len() == 0 || args@[0]@ != "/c"@ ==> r@ == program@ + " "@
            + text::joined(text::texts(args@), " "@),
{
    let t = text::texts(args@);
    assert(t.len() == args@.len());
    if args@.len() > 0 {
        assert(t[0] == args@[0]@);
        assert(t.skip(1) =~= t.drop_first());
    }
    reveal_strlit("cmd");
    reveal_strlit(" ");
    reveal_strlit("cmd ");
    assert("cmd"@ + " "@ =~= "cmd "@);
}

/// The failure that says that a version cannot be had is explained before it is told; no other
/// is.
pub proof fn law_unavailable_version_is_explained(i: &Install, code: Option<i32>, r: Outcome)
    requires
        call_ensures(Install::outcome, (i, code), r),
        !i.cancelled,
        code != Some(0i32),
    ensures
        text::has(text::joined(text::last_of(text::texts(i.log@), 6), "\n"@), "ETARGET"@)
            ==> text::starts(r.error->Some_0@, "这个版本装不了"@),
        !text::has(text::joined(text::last_of(text::texts(i.log@), 6), "\n"@), "ETARGET"@)
            ==> text::starts(r.error->Some_0@, "安装失败"@),
{
    let e = r.error->Some_0@;
    reveal_strlit("这个版本装不了");
    reveal_strlit(
        "这个版本装不了：它发布那一刻，同一批的其它包还没发全（npm ETARGET）。\n— 换一个版本，或点下面的「装回 …」。\n",
    );
    reveal_strlit("安装失败");
    reveal_strlit("安装失败（退出码 ");
    if text::has(text::joined(text::last_of(text::texts(i.log@), 6), "\n"@), "ETARGET"@) {
        assert(e.subrange(0, "这个版本装不了"@.len() as int) =~= "这个版本装不了"@);
    } else {
        assert(e.subrange(0, "安装失败"@.len() as int) =~= "安装失败"@);
    }
}

/// Progress shows what is being done and all of the log; how far it has come is left out where
/// that is not wanted.
pub proof fn law_progress_shows_the_log(i: &Install, bare: bool, elapsed_ms: u64, r: Progress)
    requires
        call_ensures(Install::progress, (i, bare, elapsed_ms), r),
    ensures
        text::texts(r.lines@) == text::texts(i.log@),
        r.phase@ == i.phase@,
        bare ==> r.percent is None,
        !bare ==> r.percent == i.percent,
        r.elapsed_ms == elapsed_ms,
        i.kind == Kind::Node ==> r.kind@ == "node"@,
        i.kind == Kind::Dsh ==> r.kind@ == "dsh"@,
{
}

/// A version is updated to and no version is installed; the user is told that dsh may take a
/// while.
pub proof fn law_first_words_tell_what_is_done(
    kind: Kind,
    target: Option<&str>,
    before: Option<&str>,
    now_ms: u64,
    r: Result<Install, Outcome>,
)
    requires
        call_ensures(run, (kind, target, before, now_ms), r),
        r is Ok,
    ensures
        target is Some ==> text::starts(r->Ok_0.phase@, "正在更新 "@) && text::ends(
            r->Ok_0.phase@,
            "@"@ + target->Some_0@,
        ),
        target is None ==> text::starts(r->Ok_0.phase@, "正在安装 "@),
        kind == Kind::Dsh ==> r->Ok_0.log@.len() == 2,
        kind == Kind::Node ==> r->Ok_0.log@.len() == 1,
        r->Ok_0.emitted_ms == now_ms,
{
    let i = r->Ok_0;
    let p = i.phase@;
    assert(text::texts(i.log@).len() == i.log@.len());
    if let Some(v) = target {
        text::law_prefix_is_taken_off("正在更新 "@, kind.heading() + "@"@ + v@, Seq::empty());
        let t = "@"@ + v@;
        assert(p.subrange(p.len() - t.len(), p.len() as int) =~= t);
    } else {
        text::law_prefix_is_taken_off("正在安装 "@, kind.heading(), Seq::empty());
    }
}

/// After an installation the first place at which there is a Node.js is remembered, with the
/// npm beside it where there is one, and a dsh below npm's directory where it is there.
/// Whatever was not found leaves everything as it is.
pub proof fn law_found_programs_are_remembered(
    program_files: Option<&str>,
    local_data: Option<&str>,
    prefix: Option<&str>,
    places: &Places,
)
    ensures
        forall|cfg: &mut Config, r: Option<String>| #[trigger]
            call_ensures(
                locate_and_remember,
                (Kind::Dsh, cfg, program_files, local_data, prefix, places),
                r,
            ) ==> {
                &&& r is Some <==> prefix is Some && places.dsh
                &&& r is None ==> *final(cfg) == *cfg
                &&& r matches Some(p) ==> p@ == config::within(prefix->Some_0@, "dsh.cmd"@)
                    && text::option_text(final(cfg).dsh) == Some(p@) && text::option_text(
                    final(cfg).npm_prefix,
                ) == Some(prefix->Some_0@)
                &&& final(cfg).node == (*cfg).node && final(cfg).npm == (*cfg).npm
            },
        forall|cfg: &mut Config, r: Option<String>| #[trigger]
            call_ensures(
                locate_and_remember,
                (Kind::Node, cfg, program_files, local_data, prefix, places),
                r,
            ) ==> {
                &&& r is None ==> *final(cfg) == *cfg
                &&& r matches Some(p) ==> text::option_text(final(cfg).node) == Some(p@)
                    && text::option_text(r) == first_file(
                    candidates(text::option_str(program_files), text::option_str(local_data)),
                    places.candidates@,
                    0,
                )
                &&& final(cfg).dsh == (*cfg).dsh
                &&& !places.npm ==> final(cfg).npm == (*cfg).npm
                &&& r is Some ==> text::option_text(final(cfg).npm_prefix) == text::option_str(
                    prefix,
                )
                &&& r is Some && places.npm && config::has_name(r->Some_0@) ==> (
                final(cfg).npm matches Some(n) && beside(n@, r->Some_0@))
            },
{
}

/// What a line says of the progress is read from it as it stands; an installer that could not
/// be started says why.
pub proof fn law_progress_is_read_from_the_line(
    line: &str,
    r: Option<Percent>,
    why: &str,
    failed: Outcome,
    prefix: &str,
    dsh: String,
)
    requires
        call_ensures(parse_percent, (line,), r),
        call_ensures(spawn_failed, (why,), failed),
        call_ensures(dsh_in, (prefix,), dsh),
    ensures
        r == percent_in(line@),
        !failed.ok && !failed.cancelled,
        failed.error matches Some(e) && text::ends(e@, why@),
        dsh@ == config::within(prefix@, "dsh.cmd"@),
{
    let e = failed.error->Some_0@;
    assert(e.subrange(e.len() - why@.len(), e.len() as int) =~= why@);
}

/// A line of the error channel is marked as such in the log, and no other is.
pub proof fn law_error_lines_are_marked(line: Line)
    ensures
        line.is_err ==> logged(line) == "! "@ + line.text@,
        !line.is_err ==> logged(line) == "  "@ + line.text@,
{
    reveal_strlit("!");
    reveal_strlit(" ");
    reveal_strlit("! ");
    reveal_strlit("  ");
    assert("!"@ + " "@ =~= "! "@);
    assert(" "@ + " "@ =~= "  "@);
}

} // verus!
