//! Running outside commands: how they are called, how their output is read.
//!
//! Nothing here starts a process. A `Launch` says what is to be started; the functions
//! around it say what to make of what came back.

use vstd::prelude::*;
use vstd::slice::slice_subrange;

use crate::config;
use crate::text;

verus! {

/// One line of output of a running command.
pub struct Line {
    pub text: String,
    pub is_err: bool,
}

/// What a finished command left behind.
pub struct Output {
    pub code: Option<i32>,
    pub stdout: String,
    pub stderr: String,
    pub timed_out: bool,
}

/// A command that is to be started.
pub struct Launch {
    pub program: String,
    pub args: Vec<String>,
    /// The `PATH` to give it, where it is not to inherit one.
    pub path_env: Option<String>,
    pub timeout_ms: u64,
}

// ───────────────────────── finished commands ─────────────────────────

/// How much of a diagnosis is shown, in bytes.
pub const DIAGNOSIS_BYTES: usize = 600;

impl Output {
    /// The command ended by itself and reported success.
    pub open spec fn succeeded(self) -> bool {
        !self.timed_out && self.code == Some(0i32)
    }

    pub fn ok(&self) -> (r: bool)
        ensures
            r == self.succeeded(),
    {
        !self.timed_out && match self.code {
            Some(c) => c == 0,
            None => false,
        }
    }

    /// The whole diagnosis: what the command wrote to its error channel, or else to its
    /// output, headed where it ran out of time.
    pub open spec fn complaint(self) -> Seq<char> {
        let said = if text::trimmed(self.stderr@).len() == 0 {
            text::trimmed(self.stdout@)
        } else {
            text::trimmed(self.stderr@)
        };
        if self.timed_out {
            "命令超时无响应。"@ + said
        } else {
            said
        }
    }

    /// The diagnosis is short enough, or can be cut between two characters.
    pub open spec fn can_diagnose(self) -> bool {
        text::utf8_len(self.complaint()) <= DIAGNOSIS_BYTES || text::chars_in(
            self.complaint(),
            DIAGNOSIS_BYTES as int,
        ) is Some
    }

    /// The diagnosis as it is shown.
    pub open spec fn diagnosis(self) -> Seq<char> {
        if text::utf8_len(self.complaint()) <= DIAGNOSIS_BYTES {
            self.complaint()
        } else {
            self.complaint().take(
                text::chars_in(self.complaint(), DIAGNOSIS_BYTES as int)->0,
            ).push('…')
        }
    }

    fn complain(&self) -> (r: String)
        ensures
            r@ == self.complaint(),
    {
        let err = text::trim_text(self.stderr.as_str());
        let said = if err.as_str().is_empty() {
            text::trim_text(self.stdout.as_str())
        } else {
            err
        };
        if self.timed_out {
            text::cat2("命令超时无响应。", said.as_str())
        } else {
            said
        }
    }

    /// Whether `diagnose` can be asked.
    pub fn diagnosable(&self) -> (r: bool)
        ensures
            r == self.can_diagnose(),
    {
        let said = self.complain();
        if text::byte_len(said.as_str()) <= DIAGNOSIS_BYTES {
            return true;
        }
        let v = text::chars(said.as_str());
        match text::chars_within(v.as_slice(), DIAGNOSIS_BYTES) {
            Some(_) => true,
            None => false,
        }
    }

    /// The text that is shown to a user when a command failed.
    pub fn diagnose(&self) -> (r: String)
        requires
            self.can_diagnose(),
        ensures
            r@ == self.diagnosis(),
    {
        let said = self.complain();
        if text::byte_len(said.as_str()) <= DIAGNOSIS_BYTES {
            return said;
        }
        let v = text::chars(said.as_str());
        match text::chars_within(v.as_slice(), DIAGNOSIS_BYTES) {
            Some(k) => {
                let head = slice_subrange(v.as_slice(), 0, k);
                assert(head@ =~= v@.take(k as int));
                let mut r = text::text_of(head);
                r.push('…');
                r
            },
            None => said,
        }
    }
}

// ───────────────────────── paths that a user names ─────────────────────────

/// The text without the double quotes at its ends.
pub open spec fn unquoted(s: Seq<char>) -> Seq<char>
    decreases s.len(),
{
    if s.len() > 0 && s[0] == '"' {
        unquoted(s.drop_first())
    } else if s.len() > 0 && s.last() == '"' {
        unquoted(s.drop_last())
    } else {
        s
    }
}

/// A character that `cmd` gives a meaning to.
pub open spec fn special(c: char) -> bool {
    c == '&' || c == '|' || c == '<' || c == '>' || c == '^' || c == '"' || c == '\n' || c == '\r'
        || c == '%' || c == '!'
}

fn is_special(c: char) -> (r: bool)
    ensures
        r == special(c),
{
    c == '&' || c == '|' || c == '<' || c == '>' || c == '^' || c == '"' || c == '\n' || c == '\r'
        || c == '%' || c == '!'
}

/// The first special character of a text.
pub open spec fn first_special(s: Seq<char>) -> Option<char>
    decreases s.len(),
{
    if s.len() == 0 {
        None
    } else if special(s[0]) {
        Some(s[0])
    } else {
        first_special(s.drop_first())
    }
}

/// The path that a user's input names.
pub fn user_path(raw: &str) -> (r: String)
    ensures
        r@ == unquoted(text::trimmed(raw@)),
{
    let v = text::chars(raw);
    let t = text::trim(v.as_slice());
    let mut a: usize = 0;
    let mut b: usize = t.len();
    assert(t@.subrange(0, b as int) =~= t@);
    while a < b && (t[a] == '"' || t[b - 1] == '"')
        invariant
            a <= b <= t.len(),
            unquoted(t@) == unquoted(t@.subrange(a as int, b as int)),
        decreases b - a,
    {
        let ghost part = t@.subrange(a as int, b as int);
        assert(part[0] == t@[a as int]);
        assert(part.last() == t@[b - 1]);
        if t[a] == '"' {
            assert(part.drop_first() =~= t@.subrange(a + 1, b as int));
            a = a + 1;
        } else {
            assert(part.drop_last() =~= t@.subrange(a as int, b - 1));
            b = b - 1;
        }
    }
    assert(a < b ==> t@.subrange(a as int, b as int)[0] == t@[a as int]);
    assert(a < b ==> t@.subrange(a as int, b as int).last() == t@[b - 1]);
    text::text_of(slice_subrange(t, a, b))
}

/// Checks the path that a user named. `is_file` says whether the path that `user_path`
/// gives is an existing file.
///
/// This is where outside input comes near a command line: a path with a character that
/// `cmd` gives a meaning to is refused.
pub fn validate_user_path(raw: &str, is_file: bool) -> (r: Result<String, String>)
    ensures
        ({
            let path = unquoted(text::trimmed(raw@));
            match r {
                Ok(p) => p@ == path && path.len() > 0 && is_file && first_special(path) is None,
                Err(e) => if path.len() == 0 {
                    e@ == "路径为空"@
                } else if !is_file {
                    e@ == "不是一个文件："@ + path
                } else {
                    first_special(path) matches Some(c) && e@ == "路径里含有命令行特殊字符 `"@ + seq![c]
                        + "`，请把 node / dsh 装在普通路径下（例如 C:\\nodejs）"@
                },
            }
        }),
{
    let path = user_path(raw);
    if path.as_str().is_empty() {
        return Err(text::copy("路径为空"));
    }
    if !is_file {
        return Err(text::cat2("不是一个文件：", path.as_str()));
    }
    let v = text::chars(path.as_str());
    let mut i: usize = 0;
    assert(v@.skip(0) =~= v@);
    while i < v.len()
        invariant
            i <= v.len(),
            v@ == path@,
            path@ == unquoted(text::trimmed(raw@)),
            path@.len() > 0,
            is_file,
            first_special(v@) == first_special(v@.skip(i as int)),
        decreases v.len() - i,
    {
        if is_special(v[i]) {
            let mut e = text::copy("路径里含有命令行特殊字符 `");
            e.push(v[i]);
            e.push_str("`，请把 node / dsh 装在普通路径下（例如 C:\\nodejs）");
            assert(e@ =~= "路径里含有命令行特殊字符 `"@ + seq![v@[i as int]]
                + "`，请把 node / dsh 装在普通路径下（例如 C:\\nodejs）"@);
            return Err(e);
        }
        assert(v@.skip(i as int).drop_first() =~= v@.skip(i + 1));
        i = i + 1;
    }
    Ok(path)
}

// ───────────────────────── calling ─────────────────────────

/// A batch file, which only `cmd` can start.
pub open spec fn batch_file(program: Seq<char>) -> bool {
    text::ends(text::lower(program), ".cmd"@) || text::ends(text::lower(program), ".bat"@)
}

/// The program that is really started.
pub open spec fn real_program(program: Seq<char>) -> Seq<char> {
    if batch_file(program) {
        "cmd"@
    } else {
        program
    }
}

/// The arguments that it is really started with.
pub open spec fn real_args(program: Seq<char>, args: Seq<Seq<char>>) -> Seq<Seq<char>> {
    if batch_file(program) {
        seq!["/c"@, program] + args
    } else {
        args
    }
}

/// What a `Launch` starts.
pub open spec fn launches(
    l: Launch,
    program: Seq<char>,
    args: Seq<Seq<char>>,
    path_env: Option<Seq<char>>,
    timeout_ms: u64,
) -> bool {
    l.program@ == program && text::texts(l.args@) == args && text::option_text(l.path_env)
        == path_env && l.timeout_ms == timeout_ms
}

/// A command line for a program: a batch file is put behind `cmd /c`.
fn build_command(
    program: &str,
    args: &[&str],
    timeout_ms: u64,
    path_env: Option<String>,
) -> (r: Launch)
    ensures
        launches(
            r,
            real_program(program@),
            real_args(program@, text::slices(args@)),
            text::option_text(path_env),
            timeout_ms,
        ),
{
    let v = text::chars(program);
    let lower = text::to_lower(v.as_slice());
    let cmd = text::chars(".cmd");
    let bat = text::chars(".bat");
    let mut given = text::strings(args);
    if text::ends_with(lower.as_slice(), cmd.as_slice()) || text::ends_with(
        lower.as_slice(),
        bat.as_slice(),
    ) {
        let mut all: Vec<String> = Vec::new();
        all.push(text::copy("/c"));
        all.push(text::copy(program));
        let ghost rest = given@;
        all.append(&mut given);
        assert(text::texts(all@) =~= seq!["/c"@, program@] + text::texts(rest));
        Launch { program: text::copy("cmd"), args: all, path_env, timeout_ms }
    } else {
        Launch { program: text::copy(program), args: given, path_env, timeout_ms }
    }
}

/// Runs a program and takes its output.
pub fn run_capture(program: &str, args: &[&str], timeout_ms: u64) -> (r: Launch)
    ensures
        launches(
            r,
            real_program(program@),
            real_args(program@, text::slices(args@)),
            None,
            timeout_ms,
        ),
{
    run_capture_env(program, args, timeout_ms, None)
}

/// As `run_capture`, with a `PATH` of its own.
pub fn run_capture_env(
    program: &str,
    args: &[&str],
    timeout_ms: u64,
    path_env: Option<String>,
) -> (r: Launch)
    ensures
        launches(
            r,
            real_program(program@),
            real_args(program@, text::slices(args@)),
            text::option_text(path_env),
            timeout_ms,
        ),
{
    build_command(program, args, timeout_ms, path_env)
}

/// Runs a command that is found along the `PATH`: it goes through `cmd /c`.
pub fn run_shell(args: &[&str], timeout_ms: u64) -> (r: Launch)
    ensures
        launches(r, "cmd"@, seq!["/c"@] + text::slices(args@), None, timeout_ms),
{
    run_shell_env(args, timeout_ms, None)
}

/// As `run_shell`, with a `PATH` of its own.
pub fn run_shell_env(args: &[&str], timeout_ms: u64, path_env: Option<String>) -> (r: Launch)
    ensures
        launches(
            r,
            "cmd"@,
            seq!["/c"@] + text::slices(args@),
            text::option_text(path_env),
            timeout_ms,
        ),
{
    let mut all: Vec<String> = Vec::new();
    all.push(text::copy("/c"));
    let mut given = text::strings(args);
    let ghost rest = given@;
    all.append(&mut given);
    assert(text::texts(all@) =~= seq!["/c"@] + text::texts(rest));
    Launch { program: text::copy("cmd"), args: all, path_env, timeout_ms }
}

/// Runs the program at a known path.
pub fn run_path(exe: &str, args: &[&str], timeout_ms: u64) -> (r: Launch)
    ensures
        launches(
            r,
            real_program(exe@),
            real_args(exe@, text::slices(args@)),
            None,
            timeout_ms,
        ),
{
    run_capture(exe, args, timeout_ms)
}

/// This command ends a process and all that it started. There is none for process 0.
pub open spec fn kills(command: Option<Launch>, pid: u32) -> bool {
    match command {
        None => pid == 0,
        Some(l) => {
            &&& pid != 0
            &&& l.program@ == "taskkill"@
            &&& text::texts(l.args@) == seq!["/PID"@, text::decimal(pid as nat), "/T"@, "/F"@]
            &&& l.path_env is None
        },
    }
}

/// How to end a process and all that it started. There is nothing to do for process 0.
pub fn kill_tree(pid: u32) -> (r: Option<Launch>)
    ensures
        kills(r, pid),
{
    if pid == 0 {
        return None;
    }
    let mut args: Vec<String> = Vec::new();
    args.push(text::copy("/PID"));
    args.push(text::decimal_text(pid as u64));
    args.push(text::copy("/T"));
    args.push(text::copy("/F"));
    assert(text::texts(args@) =~= seq!["/PID"@, text::decimal(pid as nat), "/T"@, "/F"@]);
    Some(Launch { program: text::copy("taskkill"), args, path_env: None, timeout_ms: 0 })
}

/// What to do next while a command runs.
#[derive(Clone, Copy, PartialEq, Eq, Structural)]
pub enum CaptureStep {
    /// It has ended, with this exit code.
    Ended(Option<i32>),
    /// It ran out of time: end its process tree.
    TimedOut,
    /// Look again in a moment.
    Wait,
}

/// Decides what to do next while a command runs: `status` is its exit status, once it has
/// one.
pub fn capture_step(status: Option<Option<i32>>, now_ms: u64, deadline_ms: u64) -> (r: CaptureStep)
    ensures
        r == (match status {
            Some(code) => CaptureStep::Ended(code),
            None => if now_ms >= deadline_ms {
                CaptureStep::TimedOut
            } else {
                CaptureStep::Wait
            },
        }),
{
    match status {
        Some(code) => CaptureStep::Ended(code),
        None => if now_ms >= deadline_ms {
            CaptureStep::TimedOut
        } else {
            CaptureStep::Wait
        },
    }
}

/// What a finished command left behind, from the bytes that it wrote. A command that was
/// ended for want of time has no exit code.
pub fn captured(last: CaptureStep, stdout: &[u8], stderr: &[u8]) -> (r: Output)
    ensures
        r.code == (match last {
            CaptureStep::Ended(code) => code,
            _ => None,
        }),
        r.timed_out == (last == CaptureStep::TimedOut),
        r.stdout@ == text::utf8_lossy(stdout@),
        r.stderr@ == text::utf8_lossy(stderr@),
{
    let code = match last {
        CaptureStep::Ended(code) => code,
        _ => None,
    };
    let timed_out = match last {
        CaptureStep::TimedOut => true,
        _ => false,
    };
    Output { code, stdout: text::decode_lossy(stdout), stderr: text::decode_lossy(stderr), timed_out }
}

// ───────────────────────── streaming ─────────────────────────

/// How many characters of a line are kept.
pub const LINE_CHARS: usize = 300;

/// A line cut to `LINE_CHARS` characters.
pub open spec fn capped(s: Seq<char>) -> Seq<char> {
    if s.len() > LINE_CHARS {
        s.take(LINE_CHARS as int).push('…')
    } else {
        s
    }
}

/// The line that a run of bytes between two line ends makes: none where it is blank.
pub open spec fn line_of(bytes: Seq<u8>) -> Seq<Seq<char>> {
    let t = text::rtrim(text::utf8_lossy(bytes));
    if bytes.len() == 0 || text::trimmed(t).len() == 0 {
        seq![]
    } else {
        seq![capped(t)]
    }
}

/// What reading `chunk` behind the unfinished line `acc` gives: the lines that end in it,
/// and the line that it leaves unfinished. A line ends at `\r` and at `\n`.
pub open spec fn fed(acc: Seq<u8>, chunk: Seq<u8>) -> (Seq<Seq<char>>, Seq<u8>)
    decreases chunk.len(),
{
    if chunk.len() == 0 {
        (seq![], acc)
    } else {
        let (done, open) = fed(acc, chunk.drop_last());
        if chunk.last() == 13 || chunk.last() == 10 {
            (done + line_of(open), seq![])
        } else {
            (done, open.push(chunk.last()))
        }
    }
}

/// The texts of lines.
pub open spec fn line_texts(v: Seq<Line>) -> Seq<Seq<char>> {
    v.map_values(|l: Line| l.text@)
}

/// All lines came over the same channel.
pub open spec fn same_channel(v: Seq<Line>, is_err: bool) -> bool {
    forall|i: int| 0 <= i < v.len() ==> (#[trigger] v[i]).is_err == is_err
}

/// The line that a run of bytes between two line ends makes.
fn finish_line(bytes: &[u8], is_err: bool) -> (r: Option<Line>)
    ensures
        r matches Some(l) ==> line_of(bytes@) == seq![l.text@] && l.is_err == is_err,
        r is None ==> line_of(bytes@) == Seq::<Seq<char>>::empty(),
{
    if bytes.len() == 0 {
        return None;
    }
    let whole = text::decode_lossy(bytes);
    let v = text::chars(whole.as_str());
    let t = text::trim_end(v.as_slice());
    if text::trim(t).len() == 0 {
        return None;
    }
    if t.len() > LINE_CHARS {
        let head = slice_subrange(t, 0, LINE_CHARS);
        assert(head@ =~= t@.take(LINE_CHARS as int));
        let mut line = text::text_of(head);
        line.push('…');
        Some(Line { text: line, is_err })
    } else {
        Some(Line { text: text::text_of(t), is_err })
    }
}

/// Reads a chunk of output behind the unfinished line `acc` and gives the lines that end in
/// it. A progress bar redraws itself with `\r`, so that ends a line too.
pub fn pump(acc: &mut Vec<u8>, chunk: &[u8], is_err: bool) -> (r: Vec<Line>)
    ensures
        (line_texts(r@), final(acc)@) == fed(old(acc)@, chunk@),
        same_channel(r@, is_err),
{
    let mut out: Vec<Line> = Vec::new();
    let mut i: usize = 0;
    assert(line_texts(out@) =~= seq![]);
    while i < chunk.len()
        invariant
            i <= chunk.len(),
            line_texts(out@) == fed(old(acc)@, chunk@.take(i as int)).0,
            acc@ == fed(old(acc)@, chunk@.take(i as int)).1,
            same_channel(out@, is_err),
        decreases chunk.len() - i,
    {
        assert(chunk@.take(i + 1).drop_last() =~= chunk@.take(i as int));
        let b: u8 = chunk[i];
        if b == 13 || b == 10 {
            let ghost before = out@;
            match finish_line(acc.as_slice(), is_err) {
                Some(line) => {
                    out.push(line);
                    assert(line_texts(out@) =~= line_texts(before) + seq![line.text@]);
                },
                None => {
                    assert(line_texts(out@) =~= line_texts(before) + Seq::<Seq<char>>::empty());
                },
            }
            acc.clear();
        } else {
            acc.push(b);
        }
        i = i + 1;
    }
    assert(chunk@.take(i as int) =~= chunk@);
    out
}

/// The line that is still unfinished when the output ends.
pub fn pump_end(acc: &Vec<u8>, is_err: bool) -> (r: Option<Line>)
    ensures
        r matches Some(l) ==> line_of(acc@) == seq![l.text@] && l.is_err == is_err,
        r is None ==> line_of(acc@) == Seq::<Seq<char>>::empty(),
{
    finish_line(acc.as_slice(), is_err)
}

/// How output is cut into chunks makes no difference to its lines.
pub proof fn law_chunks_do_not_matter(acc: Seq<u8>, a: Seq<u8>, b: Seq<u8>)
    ensures
        fed(acc, a + b).0 == fed(acc, a).0 + fed(fed(acc, a).1, b).0,
        fed(acc, a + b).1 == fed(fed(acc, a).1, b).1,
    decreases b.len(),
{
    if b.len() == 0 {
        assert(a + b =~= a);
    } else {
        law_chunks_do_not_matter(acc, a, b.drop_last());
        assert((a + b).drop_last() =~= a + b.drop_last());
    }
}

/// No line is longer than the cap and the ellipsis behind it, and none is blank.
pub proof fn law_lines_are_short(bytes: Seq<u8>, i: int)
    requires
        0 <= i < line_of(bytes).len(),
    ensures
        0 < line_of(bytes)[i].len() <= LINE_CHARS + 1,
{
    let t = text::rtrim(text::utf8_lossy(bytes));
    if t.len() == 0 {
        assert(text::rtrim(t) =~= t);
        assert(text::ltrim(t) =~= t);
    }
}

// ───────────────────────── cancelling ─────────────────────────

/// A request to stop a background task.
pub struct Cancel {
    pub flag: bool,
}

impl Cancel {
    pub fn new() -> (r: Self)
        ensures
            !r.flag,
    {
        Cancel { flag: false }
    }

    pub fn request(&mut self)
        ensures
            final(self).flag,
    {
        self.flag = true;
    }

    pub fn reset(&mut self)
        ensures
            !final(self).flag,
    {
        self.flag = false;
    }

    pub fn requested(&self) -> (r: bool)
        ensures
            r == self.flag,
    {
        self.flag
    }
}

impl Default for Cancel {
    fn default() -> (r: Self)
        ensures
            !r.flag,
    {
        Cancel::new()
    }
}

// ───────────────────────── finding programs ─────────────────────────

/// A path without separators and single dots at its end, which say nothing of its last
/// component.
pub open spec fn to_last(path: Seq<char>) -> Seq<char>
    decreases path.len(),
{
    if path.len() > 0 && (config::separator(path.last()) || (path.last() == '.' && path.len() > 1
        && config::separator(path[path.len() - 2]))) {
        to_last(path.drop_last())
    } else {
        path
    }
}

/// What follows the last separator of a path.
pub open spec fn behind_last(path: Seq<char>) -> Seq<char>
    decreases path.len(),
{
    if path.len() == 0 || config::separator(path.last()) {
        seq![]
    } else {
        behind_last(path.drop_last()).push(path.last())
    }
}

/// The file name of a path: its last component, without a drive.
pub open spec fn file_name(path: Seq<char>) -> Seq<char> {
    let name = behind_last(to_last(path));
    if name.len() == to_last(path).len() && config::drive(name) {
        name.skip(2)
    } else {
        name
    }
}

/// The extension of a path: what follows the last dot of its file name, unless that dot is
/// the first character of the name or the name stands for the directory above.
pub open spec fn extension(path: Seq<char>) -> Option<Seq<char>> {
    match text::last_char(file_name(path), '.') {
        Some(i) => if i > 0 && file_name(path) != seq!['.', '.'] {
            Some(file_name(path).skip(i + 1))
        } else {
            None
        },
        None => None,
    }
}

/// How willingly a program is taken, by its extension: the lower the better. Beside
/// `npm.cmd` stand a shell script `npm` and an `npm.ps1`, which cannot be started.
pub open spec fn rank(path: Seq<char>) -> int {
    match extension(path) {
        None => 5,
        Some(e) => if text::lower(e) == "exe"@ {
            0
        } else if text::lower(e) == "cmd"@ {
            1
        } else if text::lower(e) == "bat"@ {
            2
        } else if text::lower(e) == "ps1"@ {
            4
        } else {
            3
        },
    }
}

fn is_separator(c: char) -> (r: bool)
    ensures
        r == config::separator(c),
{
    c == '/' || c == '\\'
}

#[verifier::rlimit(40)]
fn rank_of(path: &str) -> (r: u8)
    ensures
        r == rank(path@),
{
    let v = text::chars(path);
    let mut end: usize = v.len();
    assert(v@.take(end as int) =~= v@);
    while end > 0 && (is_separator(v[end - 1]) || (v[end - 1] == '.' && end > 1 && is_separator(
        v[end - 2],
    )))
        invariant
            end <= v.len(),
            to_last(v@) == to_last(v@.take(end as int)),
        decreases end,
    {
        assert(v@.take(end as int).drop_last() =~= v@.take(end - 1));
        end = end - 1;
    }
    let ghost last = v@.take(end as int);
    assert(to_last(v@) == last);
    let mut start: usize = end;
    assert(last.skip(start as int) =~= Seq::<char>::empty());
    assert(last.take(start as int) =~= last);
    assert(behind_last(last) =~= behind_last(last.take(start as int)) + last.skip(start as int));
    while start > 0 && !is_separator(v[start - 1])
        invariant
            start <= end <= v.len(),
            last == v@.take(end as int),
            behind_last(last) == behind_last(last.take(start as int)) + last.skip(start as int),
        decreases start,
    {
        let ghost upto = last.take(start as int);
        assert(upto.drop_last() =~= last.take(start - 1));
        assert(behind_last(upto) + last.skip(start as int) =~= behind_last(last.take(start - 1))
            + last.skip(start - 1));
        start = start - 1;
    }
    let whole = slice_subrange(v.as_slice(), start, end);
    assert(behind_last(last.take(start as int)) =~= seq![]);
    assert(whole@ =~= behind_last(last));
    let name = if start == 0 && config::has_drive(whole) {
        slice_subrange(whole, 2, whole.len())
    } else {
        whole
    };
    assert(name@ =~= file_name(v@));
    match text::rfind_char(name, '.') {
        None => 5,
        Some(i) => {
            let above = name.len() == 2 && name[0] == '.' && name[1] == '.';
            assert(above ==> name@ =~= seq!['.', '.']);
            if i == 0 || above {
                return 5;
            }
            let e = slice_subrange(name, i + 1, name.len());
            assert(e@ =~= name@.skip(i + 1));
            let lower = text::to_lower(e);
            let t = text::text_of(lower.as_slice());
            if text::same(t.as_str(), "exe") {
                0
            } else if text::same(t.as_str(), "cmd") {
                1
            } else if text::same(t.as_str(), "bat") {
                2
            } else if text::same(t.as_str(), "ps1") {
                4
            } else {
                3
            }
        },
    }
}

/// The question to `where.exe` that finds a program.
pub fn where_query(name: &str) -> (r: Launch)
    ensures
        launches(r, "where.exe"@, seq![name@], None, 5000),
{
    let mut args: Vec<String> = Vec::new();
    args.push(text::copy(name));
    assert(text::texts(args@) =~= seq![name@]);
    Launch { program: text::copy("where.exe"), args, path_env: None, timeout_ms: 5000 }
}

/// Lines without the whitespace at their ends and without the blank ones.
pub open spec fn listed(ls: Seq<Seq<char>>) -> Seq<Seq<char>>
    decreases ls.len(),
{
    if ls.len() == 0 {
        seq![]
    } else if text::trimmed(ls.last()).len() == 0 {
        listed(ls.drop_last())
    } else {
        listed(ls.drop_last()).push(text::trimmed(ls.last()))
    }
}

/// The paths that `where.exe` names: none where it found nothing.
pub fn where_candidates(out: &Output) -> (r: Vec<String>)
    ensures
        text::texts(r@) == if out.code == Some(0i32) {
            listed(text::lines(out.stdout@))
        } else {
            seq![]
        },
{
    let mut paths: Vec<String> = Vec::new();
    let found = match out.code {
        Some(c) => c == 0,
        None => false,
    };
    assert(text::texts(paths@) =~= seq![]);
    if !found {
        return paths;
    }
    let v = text::chars(out.stdout.as_str());
    let ls = text::lines_of(v.as_slice());
    let mut i: usize = 0;
    while i < ls.len()
        invariant
            i <= ls.len(),
            text::pieces(ls@) == text::lines(out.stdout@),
            text::texts(paths@) == listed(text::lines(out.stdout@).take(i as int)),
        decreases ls.len() - i,
    {
        let ghost all = text::lines(out.stdout@);
        assert(all[i as int] == ls@[i as int]@);
        assert(all.take(i + 1).drop_last() =~= all.take(i as int));
        let t = text::trim(ls[i]);
        if t.len() > 0 {
            let ghost before = paths@;
            paths.push(text::text_of(t));
            assert(text::texts(paths@) =~= text::texts(before).push(t@));
        }
        i = i + 1;
    }
    assert(text::lines(out.stdout@).take(i as int) =~= text::lines(out.stdout@));
    paths
}

/// `i` is the program to take: a file, of the best rank, and the first of that rank.
pub open spec fn best(paths: Seq<Seq<char>>, is_file: Seq<bool>, i: int) -> bool {
    &&& 0 <= i < paths.len()
    &&& is_file[i]
    &&& forall|j: int|
        0 <= j < paths.len() && is_file[j] ==> rank(paths[i]) <= rank(#[trigger] paths[j]) && (rank(
            paths[i],
        ) == rank(paths[j]) ==> i <= j)
}

/// One of some paths is a file.
pub open spec fn any_file(is_file: Seq<bool>) -> bool {
    exists|i: int| 0 <= i < is_file.len() && #[trigger] is_file[i]
}

/// Picks the program to take among those that `where.exe` names. `is_file` says of each
/// whether it is an existing file.
pub fn which(paths: &Vec<String>, is_file: &Vec<bool>) -> (r: Option<String>)
    requires
        paths.len() == is_file.len(),
    ensures
        r matches Some(p) ==> exists|i: int|
            best(text::texts(paths@), is_file@, i) && p@ == #[trigger] text::texts(paths@)[i],
        r is None <==> forall|i: int| 0 <= i < is_file.len() ==> !#[trigger] is_file@[i],
        any_file(is_file@) ==> r is Some,
{
    let mut at: Option<usize> = None;
    let mut i: usize = 0;
    while i < paths.len()
        invariant
            i <= paths.len(),
            paths.len() == is_file.len(),
            at is None ==> forall|j: int| 0 <= j < i ==> !#[trigger] is_file@[j],
            at matches Some(k) ==> k < i && is_file@[k as int] && forall|j: int|
                0 <= j < i && is_file@[j] ==> rank(paths@[k as int]@) <= rank(
                    (#[trigger] paths@[j])@,
                ) && (rank(paths@[k as int]@) == rank(paths@[j]@) ==> k <= j),
        decreases paths.len() - i,
    {
        if is_file[i] {
            let better = match at {
                None => true,
                Some(k) => rank_of(paths[i].as_str()) < rank_of(paths[k].as_str()),
            };
            if better {
                at = Some(i);
            }
        }
        i = i + 1;
    }
    match at {
        None => None,
        Some(k) => {
            assert(text::texts(paths@)[k as int] == paths@[k as int]@);
            assert(best(text::texts(paths@), is_file@, k as int)) by {
                assert forall|j: int| 0 <= j < paths.len() && is_file@[j] implies rank(
                    text::texts(paths@)[k as int],
                ) <= rank(#[trigger] text::texts(paths@)[j]) && (rank(text::texts(paths@)[k as int])
                    == rank(text::texts(paths@)[j]) ==> k <= j) by {
                    assert(text::texts(paths@)[j] == paths@[j]@);
                }
            }
            Some(text::copy(paths[k].as_str()))
        },
    }
}

// ───────────────────────── version numbers ─────────────────────────

/// A character of a version number.
pub open spec fn version_char(c: char) -> bool {
    text::alnum(c) || c == '.' || c == '-' || c == '+'
}

fn is_version_char(c: char) -> (r: bool)
    ensures
        r == version_char(c),
{
    text::is_alnum(c) || c == '.' || c == '-' || c == '+'
}

/// The end of the run of version characters that starts at `i`.
pub open spec fn run_end(s: Seq<char>, i: int) -> int
    decreases s.len() - i,
{
    if 0 <= i < s.len() && version_char(s[i]) {
        run_end(s, i + 1)
    } else {
        i
    }
}

/// How often a character stands in a text.
pub open spec fn times(s: Seq<char>, c: char) -> nat
    decreases s.len(),
{
    if s.len() == 0 {
        0
    } else {
        times(s.drop_last(), c) + (if s.last() == c {
            1nat
        } else {
            0nat
        })
    }
}

/// A run of version characters that has the shape `x.y.z`.
pub open spec fn version_shaped(tok: Seq<char>) -> bool {
    times(tok, '.') >= 2 && tok.len() > 0 && text::alnum(tok.last())
}

/// The first version number of a text from `i` on: the first run of version characters that
/// starts with a digit and has the shape `x.y.z`.
pub open spec fn version_from(s: Seq<char>, i: int) -> Option<Seq<char>>
    decreases s.len() - i,
{
    if i < 0 || i >= s.len() {
        None
    } else if !text::digit(s[i]) {
        version_from(s, i + 1)
    } else {
        let e = run_end(s, i);
        if version_shaped(s.subrange(i, e)) {
            Some(s.subrange(i, e))
        } else if !(i <= e < s.len()) {
            None
        } else {
            version_from(s, e + 1)
        }
    }
}

proof fn lemma_run_end(s: Seq<char>, i: int)
    requires
        0 <= i <= s.len(),
    ensures
        i <= run_end(s, i) <= s.len(),
        forall|k: int| i <= k < run_end(s, i) ==> version_char(#[trigger] s[k]),
        run_end(s, i) < s.len() ==> !version_char(s[run_end(s, i)]),
    decreases s.len() - i,
{
    if i < s.len() && version_char(s[i]) {
        lemma_run_end(s, i + 1);
    }
}

/// How often a character stands in a text.
fn count_char(s: &[char], c: char) -> (r: usize)
    ensures
        r == times(s@, c),
{
    let mut n: usize = 0;
    let mut i: usize = 0;
    while i < s.len()
        invariant
            i <= s.len(),
            n <= i,
            n == times(s@.take(i as int), c),
        decreases s.len() - i,
    {
        assert(s@.take(i + 1).drop_last() =~= s@.take(i as int));
        if s[i] == c {
            n = n + 1;
        }
        i = i + 1;
    }
    assert(s@.take(i as int) =~= s@);
    n
}

/// Finds the first `x.y.z` in a text: how a command words its version is not known.
pub fn find_semver(s: &str) -> (r: Option<String>)
    ensures
        text::option_text(r) == version_from(s@, 0),
{
    let v = text::chars(s);
    let mut i: usize = 0;
    while i < v.len()
        invariant
            i <= v.len(),
            v@ == s@,
            version_from(s@, 0) == version_from(s@, i as int),
        decreases v.len() - i,
    {
        if !text::is_digit(v[i]) {
            i = i + 1;
            continue;
        }
        let start = i;
        let mut e: usize = i;
        while e < v.len() && is_version_char(v[e])
            invariant
                start <= e <= v.len(),
                v@ == s@,
                run_end(s@, start as int) == run_end(s@, e as int),
            decreases v.len() - e,
        {
            e = e + 1;
        }
        let tok = slice_subrange(v.as_slice(), start, e);
        proof {
            lemma_run_end(s@, start as int);
        }
        assert(tok@ == s@.subrange(start as int, e as int));
        if count_char(tok, '.') >= 2 && text::is_alnum(tok[tok.len() - 1]) {
            return Some(text::text_of(tok));
        }
        if e == v.len() {
            return None;
        }
        i = e + 1;
    }
    None
}

/// A text with its hyphens and plus signs turned into dots.
pub open spec fn dotted(s: Seq<char>) -> Seq<char> {
    s.map_values(|c: char| if c == '-' || c == '+' {
        '.'
    } else {
        c
    })
}

/// A number that fits in 32 bits, from its decimal digits.
pub open spec fn number(s: Seq<char>) -> Option<u32> {
    if s.len() > 0 && text::all_digits(s) && text::value(s) <= u32::MAX {
        Some(text::value(s) as u32)
    } else {
        None
    }
}

/// The number in the part `i` of a version, 0 where there is none.
pub open spec fn part(parts: Seq<Seq<char>>, i: int) -> u32 {
    if i < parts.len() {
        match number(parts[i]) {
            Some(n) => n,
            None => 0,
        }
    } else {
        0
    }
}

/// The three numbers that a version begins with. The first has to be there.
pub open spec fn version_numbers(tok: Seq<char>) -> Option<(u32, u32, u32)> {
    let parts = text::split(dotted(tok), '.');
    match number(parts[0]) {
        Some(a) => Some((a, part(parts, 1), part(parts, 2))),
        None => None,
    }
}

fn parse_number(s: &[char]) -> (r: Option<u32>)
    ensures
        r == number(s@),
{
    if s.len() == 0 {
        return None;
    }
    let mut n: u64 = 0;
    let mut i: usize = 0;
    let mut big = false;
    while i < s.len()
        invariant
            i <= s.len(),
            text::all_digits(s@.take(i as int)),
            big ==> text::value(s@.take(i as int)) > u32::MAX,
            !big ==> n <= u32::MAX && n == text::value(s@.take(i as int)),
        decreases s.len() - i,
    {
        let ghost more = s@.take(i + 1);
        assert(more.drop_last() =~= s@.take(i as int));
        if !text::is_digit(s[i]) {
            assert(!text::digit(s@[i as int]));
            return None;
        }
        let d: u64 = (s[i] as u32 - 48) as u64;
        assert(text::value(more) == text::value(s@.take(i as int)) * 10 + d);
        if !big {
            n = n * 10 + d;
            if n > u32::MAX as u64 {
                big = true;
            }
        }
        i = i + 1;
    }
    assert(s@.take(i as int) =~= s@);
    if big {
        None
    } else {
        Some(n as u32)
    }
}

/// The three numbers of the first version in a text.
pub fn parse_version(s: &str) -> (r: Option<(u32, u32, u32)>)
    ensures
        r == (match version_from(s@, 0) {
            Some(tok) => version_numbers(tok),
            None => None,
        }),
{
    let tok = match find_semver(s) {
        Some(t) => t,
        None => {
            return None;
        },
    };
    let v = text::chars(tok.as_str());
    let mut d: Vec<char> = Vec::new();
    let mut i: usize = 0;
    while i < v.len()
        invariant
            i <= v.len(),
            d@ == dotted(v@).take(i as int),
        decreases v.len() - i,
    {
        d.push(
            if v[i] == '-' || v[i] == '+' {
                '.'
            } else {
                v[i]
            },
        );
        i = i + 1;
        assert(d@ =~= dotted(v@).take(i as int));
    }
    assert(d@ =~= dotted(v@));
    let parts = text::split_char(d.as_slice(), '.');
    let ghost all = text::split(dotted(v@), '.');
    assert(all[0] == parts@[0]@);
    let a = match parse_number(parts[0]) {
        Some(n) => n,
        None => {
            return None;
        },
    };
    let b = if parts.len() > 1 {
        assert(all[1] == parts@[1]@);
        match parse_number(parts[1]) {
            Some(n) => n,
            None => 0,
        }
    } else {
        0
    };
    let c = if parts.len() > 2 {
        assert(all[2] == parts@[2]@);
        match parse_number(parts[2]) {
            Some(n) => n,
            None => 0,
        }
    } else {
        0
    };
    Some((a, b, c))
}

/// One version is at least another: the first number that differs decides.
pub open spec fn at_least(v: (u32, u32, u32), min: (u32, u32, u32)) -> bool {
    v.0 > min.0 || (v.0 == min.0 && (v.1 > min.1 || (v.1 == min.1 && v.2 >= min.2)))
}

/// Whether one version is at least another.
pub fn ver_ge(v: (u32, u32, u32), min: (u32, u32, u32)) -> (r: bool)
    ensures
        r == at_least(v, min),
{
    v.0 > min.0 || (v.0 == min.0 && (v.1 > min.1 || (v.1 == min.1 && v.2 >= min.2)))
}

/// Versions are totally ordered by their numbers.
pub proof fn law_versions_are_ordered(a: (u32, u32, u32), b: (u32, u32, u32), c: (u32, u32, u32))
    ensures
        at_least(a, a),
        at_least(a, b) || at_least(b, a),
        at_least(a, b) && at_least(b, a) ==> a == b,
        at_least(a, b) && at_least(b, c) ==> at_least(a, c),
{
}

/// Between two positions of a text there is a character that no version has.
pub open spec fn parted(s: Seq<char>, j: int, i: int) -> bool {
    exists|k: int| j < k < i && !version_char(#[trigger] s[k])
}

/// A token starts at `i`: the first digit of a run of version characters.
pub open spec fn token_at(s: Seq<char>, i: int) -> bool {
    &&& 0 <= i < s.len()
    &&& text::digit(s[i])
    &&& forall|j: int| 0 <= j < i && text::digit(#[trigger] s[j]) ==> parted(s, j, i)
}

/// A version number starts at `i`: a token that has two dots or more and ends in a letter or a
/// digit, where the run of version characters ends.
pub open spec fn version_at(s: Seq<char>, i: int) -> bool {
    token_at(s, i) && version_shaped(s.subrange(i, run_end(s, i)))
}

proof fn lemma_version_from(s: Seq<char>, i: int)
    requires
        0 <= i,
        forall|j: int| 0 <= j < i && j < s.len() && text::digit(#[trigger] s[j]) ==> parted(s, j, i),
    ensures
        version_from(s, i) is None ==> forall|k: int| i <= k ==> !#[trigger] version_at(s, k),
        version_from(s, i) matches Some(tok) ==> exists|k: int|
            i <= k && #[trigger] version_at(s, k) && tok == s.subrange(k, run_end(s, k)) && forall|
                j: int,
            |
                i <= j < k ==> !#[trigger] version_at(s, j),
    decreases s.len() - i,
{
    if i < s.len() {
        if !text::digit(s[i]) {
            assert forall|j: int| 0 <= j < i + 1 && j < s.len() && text::digit(
                #[trigger] s[j],
            ) implies parted(s, j, i + 1) by {
                assert(parted(s, j, i));
                let k = choose|k: int| j < k < i && !version_char(#[trigger] s[k]);
                assert(j < k < i + 1);
            }
            lemma_version_from(s, i + 1);
            assert(!version_at(s, i));
        } else {
            let e = run_end(s, i);
            lemma_run_end(s, i);
            assert(e > i);
            assert(token_at(s, i));
            if version_shaped(s.subrange(i, e)) {
                assert(version_at(s, i));
            } else {
                assert forall|k: int| i <= k <= e implies !#[trigger] version_at(s, k) by {
                    if i < k < e && token_at(s, k) {
                        assert(parted(s, i, k));
                    }
                }
                if e < s.len() {
                    assert forall|j: int| 0 <= j < e + 1 && j < s.len() && text::digit(
                        #[trigger] s[j],
                    ) implies parted(s, j, e + 1) by {
                        assert(!version_char(s[e]));
                        assert(j < e < e + 1);
                    }
                    lemma_version_from(s, e + 1);
                } else {
                    assert forall|k: int| i <= k implies !#[trigger] version_at(s, k) by {
                    }
                }
            }
        }
    }
}

/// What is found in a text is the first version number in it: the first token, from the first
/// digit of a run of version characters to the end of the run, that has two dots or more and
/// ends in a letter or a digit. Nothing is found only where there is none.
pub proof fn law_first_version_is_found(s: Seq<char>)
    ensures
        version_from(s, 0) is None <==> forall|k: int| !#[trigger] version_at(s, k),
        version_from(s, 0) matches Some(tok) ==> exists|k: int| #[trigger]
            version_at(s, k) && tok == s.subrange(k, run_end(s, k)) && forall|j: int|
                j < k ==> !#[trigger] version_at(s, j),
{
    lemma_version_from(s, 0);
    assert forall|k: int| k < 0 implies !#[trigger] version_at(s, k) by {
    }
}

/// A command succeeded exactly where it ended with code 0 before its time was up.
pub proof fn law_success_is_code_zero_in_time(out: &Output, r: bool)
    requires
        call_ensures(Output::ok, (out,), r),
    ensures
        r <==> out.code == Some(0i32) && !out.timed_out,
{
}

/// A diagnosis is what the command wrote to its error channel, or, where that is blank, to its
/// output, without whitespace around it and behind a word on its time where that was up. What
/// is longer than 600 bytes is cut there, and marked.
pub proof fn law_diagnosis_is_what_the_command_said(out: &Output, said: Seq<char>, r: String)
    requires
        out.can_diagnose(),
        call_ensures(Output::diagnose, (out,), r),
        said == (if out.timed_out {
            "命令超时无响应。"@
        } else {
            seq![]
        }) + (if text::trimmed(out.stderr@) == Seq::<char>::empty() {
            text::trimmed(out.stdout@)
        } else {
            text::trimmed(out.stderr@)
        }),
    ensures
        text::utf8_len(said) <= 600 ==> r@ == said,
        text::utf8_len(said) > 600 ==> r@.len() > 0 && r@.last() == '…' && r@.drop_last()
            == said.take(r@.len() - 1) && text::utf8_len(r@.drop_last()) == 600,
{
    assert(text::trimmed(out.stderr@).len() == 0 <==> text::trimmed(out.stderr@) =~= Seq::<
        char,
    >::empty());
    assert(said =~= out.complaint());
    if text::utf8_len(said) > 600 {
        text::law_bytes_are_counted_in_characters(said, Seq::empty(), 600);
        let k = text::chars_in(said, 600)->Some_0;
        assert(r@.drop_last() =~= said.take(k));
    }
}

proof fn lemma_unquoted(q: Seq<char>, s: Seq<char>, p: Seq<char>)
    requires
        forall|i: int| 0 <= i < q.len() ==> #[trigger] q[i] == '"',
        forall|i: int| 0 <= i < p.len() ==> #[trigger] p[i] == '"',
        s.len() > 0 ==> s[0] != '"' && s.last() != '"',
    ensures
        unquoted(q + s + p) == s,
    decreases q.len() + p.len(),
{
    let all = q + s + p;
    if q.len() > 0 {
        assert(all[0] == q[0]);
        assert(all.drop_first() =~= q.drop_first() + s + p);
        lemma_unquoted(q.drop_first(), s, p);
    } else if p.len() > 0 {
        assert(all.last() == p[p.len() - 1]);
        if s.len() == 0 {
            assert(all =~= p);
            assert(all[0] == p[0]);
            assert(all.drop_first() =~= q + s + p.drop_first());
            lemma_unquoted(q, s, p.drop_first());
        } else {
            assert(all[0] == s[0]);
            assert(all.drop_last() =~= q + s + p.drop_last());
            lemma_unquoted(q, s, p.drop_last());
        }
    } else {
        assert(all =~= s);
    }
}

/// A path that is pasted is freed of the whitespace and then of the double quotes around it,
/// and of nothing else.
pub proof fn law_pasted_path_is_freed_of_quotes(
    raw: &str,
    r: String,
    q: Seq<char>,
    s: Seq<char>,
    p: Seq<char>,
)
    requires
        call_ensures(user_path, (raw,), r),
        text::trimmed(raw@) == q + s + p,
        forall|i: int| 0 <= i < q.len() ==> #[trigger] q[i] == '"',
        forall|i: int| 0 <= i < p.len() ==> #[trigger] p[i] == '"',
        s.len() > 0 ==> s[0] != '"' && s.last() != '"',
    ensures
        r@ == s,
{
    lemma_unquoted(q, s, p);
}

proof fn lemma_first_special(s: Seq<char>)
    ensures
        first_special(s) is None <==> forall|i: int| 0 <= i < s.len() ==> !special(#[trigger] s[i]),
        first_special(s) matches Some(c) ==> s.contains(c) && special(c),
    decreases s.len(),
{
    if s.len() > 0 && !special(s[0]) {
        let t = s.drop_first();
        lemma_first_special(t);
        assert forall|i: int| 0 <= i < s.len() && first_special(t) is None implies !special(
            #[trigger] s[i],
        ) by {
            if i > 0 {
                assert(t[i - 1] == s[i]);
            }
        }
        if forall|i: int| 0 <= i < s.len() ==> !special(#[trigger] s[i]) {
            assert forall|i: int| 0 <= i < t.len() implies !special(#[trigger] t[i]) by {
                assert(t[i] == s[i + 1]);
            }
        }
        if let Some(c) = first_special(t) {
            let i = choose|i: int| 0 <= i < t.len() && t[i] == c;
            assert(s[i + 1] == c);
        }
    } else if s.len() > 0 {
        assert(s[0] == s[0]);
    }
}

/// A path that the user names is taken exactly where it is not empty, is a file, and holds no
/// character that `cmd` gives a meaning to; it is then the path without its quotes.
pub proof fn law_named_path_is_plain(
    raw: &str,
    is_file: bool,
    path: String,
    r: Result<String, String>,
)
    requires
        call_ensures(user_path, (raw,), path),
        call_ensures(validate_user_path, (raw, is_file), r),
    ensures
        r is Ok <==> path@.len() > 0 && is_file && forall|i: int|
            0 <= i < path@.len() ==> !seq!['&', '|', '<', '>', '^', '"', '\n', '\r', '%', '!'].contains(
                #[trigger] path@[i],
            ),
        r matches Ok(p) ==> p@ == path@,
{
    lemma_first_special(path@);
    let l = seq!['&', '|', '<', '>', '^', '"', '\n', '\r', '%', '!'];
    assert forall|c: char| special(c) <==> l.contains(c) by {
        if special(c) {
            assert(l[0] == c || l[1] == c || l[2] == c || l[3] == c || l[4] == c || l[5] == c
                || l[6] == c || l[7] == c || l[8] == c || l[9] == c);
        }
    }
}

/// A batch file, however it is cased, is started by `cmd`, with its path before its arguments;
/// any other program is started by itself.
pub proof fn law_batch_files_are_started_by_cmd(
    program: &str,
    args: &[&str],
    timeout_ms: u64,
    r: Launch,
)
    requires
        call_ensures(run_capture, (program, args, timeout_ms), r),
    ensures
        text::ends(text::lower(program@), ".cmd"@) || text::ends(text::lower(program@), ".bat"@)
            ==> r.program@ == "cmd"@ && text::texts(r.args@) == seq!["/c"@, program@]
            + text::slices(args@),
        !text::ends(text::lower(program@), ".cmd"@) && !text::ends(
            text::lower(program@),
            ".bat"@,
        ) ==> r.program@ == program@ && text::texts(r.args@) == text::slices(args@),
        r.timeout_ms == timeout_ms,
        r.path_env is None,
{
}

/// A command for the shell is handed to `cmd /c`, with the search path where one is given.
pub proof fn law_shell_commands_go_to_cmd(
    args: &[&str],
    timeout_ms: u64,
    path_env: Option<String>,
    r: Launch,
)
    requires
        call_ensures(run_shell_env, (args, timeout_ms, path_env), r),
    ensures
        r.program@ == "cmd"@,
        text::texts(r.args@) == seq!["/c"@] + text::slices(args@),
        text::option_text(r.path_env) == text::option_text(path_env),
        r.timeout_ms == timeout_ms,
{
}

/// A process is ended with all that it started, by force and by its number; there is nothing to
/// end where there is none.
pub proof fn law_whole_trees_are_ended(pid: u32, r: Option<Launch>)
    requires
        call_ensures(kill_tree, (pid,), r),
    ensures
        r is None <==> pid == 0,
        r matches Some(l) ==> l.program@ == "taskkill"@ && text::texts(l.args@).contains("/T"@)
            && text::texts(l.args@).contains("/F"@) && text::texts(l.args@)[0] == "/PID"@
            && text::texts(l.args@)[1] == text::decimal(pid as nat),
{
    if let Some(l) = r {
        assert(text::texts(l.args@)[2] == "/T"@);
        assert(text::texts(l.args@)[3] == "/F"@);
    }
}

/// A command that ended is over, whatever the time; one that has not is given up exactly when
/// its time is up. Only one that was given up counts as such.
pub proof fn law_commands_are_given_up_in_time(
    status: Option<Option<i32>>,
    now_ms: u64,
    deadline_ms: u64,
    step: CaptureStep,
    stdout: &[u8],
    stderr: &[u8],
    out: Output,
)
    requires
        call_ensures(capture_step, (status, now_ms, deadline_ms), step),
        call_ensures(captured, (step, stdout, stderr), out),
    ensures
        status matches Some(code) ==> step == CaptureStep::Ended(code) && out.code == code
            && !out.timed_out,
        status is None ==> (out.timed_out <==> now_ms >= deadline_ms) && out.code is None && !(step
            is Ended),
        status is None && now_ms < deadline_ms ==> step is Wait,
        out.stdout@ == text::utf8_lossy(stdout@) && out.stderr@ == text::utf8_lossy(stderr@),
{
}

/// A line ends at a carriage return and at a newline, and every other byte belongs to it.
pub proof fn law_lines_end_at_line_ends(acc: Seq<u8>, b: u8)
    ensures
        fed(acc, Seq::<u8>::empty()) == (Seq::<Seq<char>>::empty(), acc),
        b == 10 || b == 13 ==> fed(acc, seq![b]).0 == line_of(acc) && fed(acc, seq![b]).1
            == Seq::<u8>::empty(),
        b != 10 && b != 13 ==> fed(acc, seq![b]).0 == Seq::<Seq<char>>::empty() && fed(
            acc,
            seq![b],
        ).1 == acc.push(b),
{
    assert(seq![b].drop_last() =~= Seq::<u8>::empty());
    assert(seq![b].last() == b);
    assert(fed(acc, Seq::<u8>::empty()) == (Seq::<Seq<char>>::empty(), acc));
    assert(Seq::<Seq<char>>::empty() + line_of(acc) =~= line_of(acc));
}

/// A line is handed on unless it is blank, without the whitespace at its end; of one longer
/// than 300 characters the first 300 are, with a mark.
pub proof fn law_blank_lines_are_not_handed_on(bytes: Seq<u8>)
    ensures
        bytes.len() == 0 || text::trimmed(text::rtrim(text::utf8_lossy(bytes))).len() == 0
            ==> line_of(bytes) == Seq::<Seq<char>>::empty(),
        bytes.len() > 0 && text::trimmed(text::rtrim(text::utf8_lossy(bytes))).len() > 0
            && text::rtrim(text::utf8_lossy(bytes)).len() <= 300 ==> line_of(bytes) == seq![
            text::rtrim(text::utf8_lossy(bytes)),
        ],
        bytes.len() > 0 && text::trimmed(text::rtrim(text::utf8_lossy(bytes))).len() > 0
            && text::rtrim(text::utf8_lossy(bytes)).len() > 300 ==> line_of(bytes) == seq![
            text::rtrim(text::utf8_lossy(bytes)).take(300).push('…'),
        ],
{
}

/// What is read is handed on line by line, over its channel; the rest waits for more and is
/// handed on at the end.
pub proof fn law_what_is_read_is_handed_on(rest: &Vec<u8>, is_err: bool, last: Option<Line>)
    requires
        call_ensures(pump_end, (rest, is_err), last),
    ensures
        line_of(rest@).len() > 0 <==> last is Some,
        last matches Some(l) ==> line_of(rest@) == seq![l.text@] && l.is_err == is_err,
        forall|acc: &mut Vec<u8>, chunk: &[u8], r: Vec<Line>, i: int|
            #![trigger call_ensures(pump, (acc, chunk, is_err), r), r@[i]]
            call_ensures(pump, (acc, chunk, is_err), r) && 0 <= i < r@.len() ==> r@[i].is_err
                == is_err && r@.len() == fed((*acc)@, chunk@).0.len() && r@[i].text@ == fed(
                (*acc)@,
                chunk@,
            ).0[i] && final(acc)@ == fed((*acc)@, chunk@).1,
{
    assert forall|acc: &mut Vec<u8>, chunk: &[u8], r: Vec<Line>, i: int|
        #![trigger call_ensures(pump, (acc, chunk, is_err), r), r@[i]]
        call_ensures(pump, (acc, chunk, is_err), r) && 0 <= i < r@.len() implies r@[i].is_err
        == is_err && r@.len() == fed((*acc)@, chunk@).0.len() && r@[i].text@ == fed(
        (*acc)@,
        chunk@,
    ).0[i] && final(acc)@ == fed((*acc)@, chunk@).1 by {
        assert(line_texts(r@).len() == r@.len());
        assert(line_texts(r@)[i] == r@[i].text@);
    }
}

/// Every line that `where` prints is a candidate, in its order and without whitespace around
/// it, unless it is blank; there is none where it failed.
pub proof fn law_printed_paths_are_candidates(
    ls: Seq<Seq<char>>,
    line: Seq<char>,
    out: &Output,
    r: Vec<String>,
)
    requires
        call_ensures(where_candidates, (out,), r),
    ensures
        listed(Seq::<Seq<char>>::empty()) == Seq::<Seq<char>>::empty(),
        text::trimmed(line).len() > 0 ==> listed(ls.push(line)) == listed(ls).push(
            text::trimmed(line),
        ),
        text::trimmed(line).len() == 0 ==> listed(ls.push(line)) == listed(ls),
        out.code == Some(0i32) ==> text::texts(r@) == listed(text::lines(out.stdout@)),
        out.code != Some(0i32) ==> r@.len() == 0,
{
    assert(ls.push(line).drop_last() =~= ls);
    assert(text::texts(r@).len() == r@.len());
}

proof fn lemma_behind_last(d: Seq<char>, n: Seq<char>)
    requires
        forall|i: int| 0 <= i < n.len() ==> !config::separator(#[trigger] n[i]),
        d.len() == 0 || config::separator(d.last()),
    ensures
        behind_last(d + n) == n,
    decreases n.len(),
{
    if n.len() == 0 {
        assert(d + n =~= d);
    } else {
        assert((d + n).drop_last() =~= d + n.drop_last());
        assert((d + n).last() == n[n.len() - 1]);
        lemma_behind_last(d, n.drop_last());
        assert(n.drop_last().push(n.last()) =~= n);
    }
}

/// A program is judged by what stands behind the last dot of its file name, however it is
/// cased: an `exe` before a `cmd`, that before a `bat`, then what is not known, then a `ps1`;
/// last comes a program without an extension.
#[verifier::rlimit(50)]
pub proof fn law_programs_are_ranked_by_extension(
    dir: Seq<char>,
    sep: char,
    stem: Seq<char>,
    ext: Seq<char>,
)
    requires
        sep == '/' || sep == '\\',
        forall|i: int| 0 <= i < stem.len() ==> #[trigger] stem[i] != '/' && stem[i] != '\\',
        forall|i: int|
            0 <= i < ext.len() ==> #[trigger] ext[i] != '/' && ext[i] != '\\' && ext[i] != '.',
        stem.len() > 0,
        ext.len() > 0,
    ensures
        extension(dir + seq![sep] + stem + seq!['.'] + ext) == Some(ext),
        text::lower(ext) == "exe"@ ==> rank(dir + seq![sep] + stem + seq!['.'] + ext) == 0,
        text::lower(ext) == "cmd"@ ==> rank(dir + seq![sep] + stem + seq!['.'] + ext) == 1,
        text::lower(ext) == "bat"@ ==> rank(dir + seq![sep] + stem + seq!['.'] + ext) == 2,
        text::lower(ext) == "ps1"@ ==> rank(dir + seq![sep] + stem + seq!['.'] + ext) == 4,
        text::lower(ext) != "exe"@ && text::lower(ext) != "cmd"@ && text::lower(ext) != "bat"@
            && text::lower(ext) != "ps1"@ ==> rank(dir + seq![sep] + stem + seq!['.'] + ext)
            == 3,
        !stem.contains('.') ==> rank(dir + seq![sep] + stem) == 5,
        stem.len() > 1 && stem[1] != ':' ==> rank(stem + seq!['.'] + ext) == rank(
            dir + seq![sep] + stem + seq!['.'] + ext,
        ),
{
    reveal_strlit("exe");
    reveal_strlit("cmd");
    reveal_strlit("bat");
    reveal_strlit("ps1");
    assert("exe"@[0] != "cmd"@[0] && "bat"@[0] != "cmd"@[0] && "ps1"@[0] != "cmd"@[0]
        && "exe"@[0] != "bat"@[0] && "exe"@[0] != "ps1"@[0] && "bat"@[0] != "ps1"@[0]);
    let d = dir + seq![sep];
    let name = stem + seq!['.'] + ext;
    let path = dir + seq![sep] + stem + seq!['.'] + ext;
    assert(path =~= d + name);
    assert(path.last() == ext[ext.len() - 1]);
    assert(to_last(path) == path);
    assert forall|i: int| 0 <= i < name.len() implies !config::separator(#[trigger] name[i]) by {
        if i < stem.len() {
            assert(name[i] == stem[i]);
        } else if i > stem.len() {
            assert(name[i] == ext[i - stem.len() - 1]);
        }
    }
    lemma_behind_last(d, name);
    assert(file_name(path) == name);
    let dot = stem.len() as int;
    assert forall|i: int| dot < i < name.len() implies name[i] != '.' by {
        assert(name[i] == ext[i - dot - 1]);
    }
    lemma_last_dot(name, dot, name.len() as int);
    assert(name.skip(dot + 1) =~= ext);
    assert(name[name.len() - 1] != '.');
    assert(name != seq!['.', '.']) by {
        if name == seq!['.', '.'] {
            assert(name[1] == '.');
        }
    }
    if !stem.contains('.') {
        let bare = dir + seq![sep] + stem;
        assert(bare =~= d + stem);
        assert(bare.last() == stem[stem.len() - 1]);
        assert(stem.contains(stem[stem.len() - 1]));
        assert(to_last(bare) == bare);
        lemma_behind_last(d, stem);
        assert(file_name(bare) == stem);
        lemma_no_dot(stem, stem.len() as int);
    }
    if stem.len() > 1 && stem[1] != ':' {
        let none = Seq::<char>::empty();
        assert(none + name =~= name);
        assert(to_last(name) == name);
        lemma_behind_last(none, name);
        assert(name[1] == stem[1]);
        assert(file_name(name) == name);
        assert(extension(name) == Some(ext));
    }
}

proof fn lemma_last_dot(s: Seq<char>, i: int, upto: int)
    requires
        0 <= i < upto <= s.len(),
        s[i] == '.',
        forall|j: int| i < j < upto ==> s[j] != '.',
    ensures
        text::last_char_before(s, '.', upto) == Some(i),
    decreases upto - i,
{
    if upto - 1 > i {
        lemma_last_dot(s, i, upto - 1);
    }
}

proof fn lemma_no_dot(s: Seq<char>, upto: int)
    requires
        0 <= upto <= s.len(),
        !s.contains('.'),
    ensures
        text::last_char_before(s, '.', upto) is None,
    decreases upto,
{
    if upto > 0 {
        assert(s.contains(s[upto - 1]));
        lemma_no_dot(s, upto - 1);
    }
}

/// The program to take is a file, and no file is better by its extension; there is none only
/// where there is no file.
pub proof fn law_best_program_is_taken(
    paths: &Vec<String>,
    is_file: &Vec<bool>,
    r: Option<String>,
    j: int,
)
    requires
        paths@.len() == is_file@.len(),
        call_ensures(which, (paths, is_file), r),
        0 <= j < paths@.len(),
    ensures
        is_file@[j] ==> r is Some && rank(r->Some_0@) <= rank(paths@[j]@),
        r matches Some(p) ==> exists|i: int|
            0 <= i < paths@.len() && is_file@[i] && (#[trigger] paths@[i])@ == p@ && forall|k: int|
                0 <= k < i && is_file@[k] ==> rank((#[trigger] paths@[k])@) > rank(p@),
{
    let t = text::texts(paths@);
    assert(is_file@[j] ==> any_file(is_file@));
    assert(t[j] == paths@[j]@);
    if let Some(p) = r {
        let i = choose|i: int| best(t, is_file@, i) && p@ == #[trigger] t[i];
        assert(best(t, is_file@, i) && p@ == t[i]);
        if is_file@[j] {
            assert(rank(t[i]) <= rank(t[j]));
            assert(rank(p@) <= rank(paths@[j]@));
        }
        assert(t[i] == paths@[i]@);
        assert forall|k: int| 0 <= k < i && is_file@[k] implies rank((#[trigger] paths@[k])@)
            > rank(p@) by {
            assert(t[k] == paths@[k]@);
        }
    }
}

proof fn lemma_times_two(s: Seq<char>, c: char, i: int, j: int)
    requires
        0 <= i < j < s.len(),
        s[i] == c && s[j] == c,
    ensures
        times(s, c) >= 2,
    decreases s.len(),
{
    if j < s.len() - 1 {
        lemma_times_two(s.drop_last(), c, i, j);
    } else {
        lemma_times_one(s.drop_last(), c, i);
    }
}

proof fn lemma_times_one(s: Seq<char>, c: char, i: int)
    requires
        0 <= i < s.len(),
        s[i] == c,
    ensures
        times(s, c) >= 1,
    decreases s.len(),
{
    if i < s.len() - 1 {
        lemma_times_one(s.drop_last(), c, i);
    }
}

proof fn lemma_times_where(s: Seq<char>, c: char)
    ensures
        times(s, c) >= 1 ==> exists|i: int| 0 <= i < s.len() && #[trigger] s[i] == c,
        times(s, c) >= 2 ==> exists|i: int, j: int|
            0 <= i < j < s.len() && #[trigger] s[i] == c && #[trigger] s[j] == c,
    decreases s.len(),
{
    if s.len() > 0 {
        let t = s.drop_last();
        lemma_times_where(t, c);
        if times(t, c) >= 2 {
            let (i, j) = choose|i: int, j: int|
                0 <= i < j < t.len() && #[trigger] t[i] == c && #[trigger] t[j] == c;
            assert(s[i] == c && s[j] == c);
        } else if times(t, c) >= 1 {
            let i = choose|i: int| 0 <= i < t.len() && #[trigger] t[i] == c;
            assert(s[i] == c);
            if s.last() == c {
                assert(s[s.len() - 1] == c);
            }
        } else if s.last() == c {
            assert(s[s.len() - 1] == c);
        }
    }
}

/// A character that may stand in a version number.
pub open spec fn of_version(c: char) -> bool {
    'a' <= c <= 'z' || 'A' <= c <= 'Z' || '0' <= c <= '9' || c == '.' || c == '-' || c == '+'
}

/// A version number is what it looks like: it begins with a digit, is made of letters, digits,
/// dots, hyphens and plus signs, has two dots or more, and ends in a letter or a digit.
pub open spec fn looks_like_version(v: Seq<char>) -> bool {
    &&& v.len() > 0
    &&& '0' <= v[0] <= '9'
    &&& forall|i: int| 0 <= i < v.len() ==> of_version(#[trigger] v[i])
    &&& exists|i: int, j: int|
        0 <= i < j < v.len() && #[trigger] v[i] == '.' && #[trigger] v[j] == '.'
    &&& of_version(v.last()) && v.last() != '.' && v.last() != '-' && v.last() != '+'
}

/// A version number in a text is found where nothing before it has a digit and where it ends
/// at a character that no version number has.
#[verifier::rlimit(50)]
pub proof fn law_version_number_is_found(h: Seq<char>, v: Seq<char>, t: Seq<char>)
    requires
        forall|i: int| 0 <= i < h.len() ==> !('0' <= #[trigger] h[i] <= '9'),
        looks_like_version(v),
        t.len() > 0 ==> !of_version(t[0]),
    ensures
        version_from(h + v + t, 0) == Some(v),
{
    let whole = h + v + t;
    let n = h.len() as int;
    let e = (h.len() + v.len()) as int;
    lemma_skip_to_digit(whole, 0, n);
    assert(whole[n] == v[0]);
    assert forall|k: int| n <= k < e implies version_char(#[trigger] whole[k]) by {
        assert(whole[k] == v[k - n]);
    }
    if t.len() > 0 {
        assert(whole[e] == t[0]);
    }
    lemma_run_to(whole, n, e);
    assert(whole.subrange(n, e) =~= v);
    let (i, j) = choose|i: int, j: int|
        0 <= i < j < v.len() && #[trigger] v[i] == '.' && #[trigger] v[j] == '.';
    lemma_times_two(v, '.', i, j);
}

/// Whatever is found as a version number looks like one.
pub proof fn law_what_is_found_looks_like_a_version(s: Seq<char>)
    ensures
        version_from(s, 0) matches Some(tok) ==> looks_like_version(tok),
{
    if let Some(tok) = version_from(s, 0) {
        law_first_version_is_found(s);
        let k = choose|k: int| #[trigger] version_at(s, k) && tok == s.subrange(k, run_end(s, k));
        assert(version_at(s, k) && tok == s.subrange(k, run_end(s, k)));
        lemma_run_end(s, k);
        lemma_times_where(tok, '.');
        assert(tok[0] == s[k]);
        assert forall|m: int| 0 <= m < tok.len() implies of_version(#[trigger] tok[m]) by {
            assert(tok[m] == s[k + m]);
        }
    }
}

proof fn lemma_skip_to_digit(s: Seq<char>, i: int, n: int)
    requires
        0 <= i <= n < s.len(),
        forall|k: int| i <= k < n ==> !text::digit(#[trigger] s[k]),
    ensures
        version_from(s, i) == version_from(s, n),
    decreases n - i,
{
    if i < n {
        assert(!text::digit(s[i]));
        lemma_skip_to_digit(s, i + 1, n);
    }
}

proof fn lemma_run_to(s: Seq<char>, i: int, e: int)
    requires
        0 <= i <= e <= s.len(),
        forall|k: int| i <= k < e ==> version_char(#[trigger] s[k]),
        e < s.len() ==> !version_char(s[e]),
    ensures
        run_end(s, i) == e,
    decreases e - i,
{
    if i < e {
        lemma_run_to(s, i + 1, e);
    }
}

proof fn lemma_dotted_decimal(n: nat)
    ensures
        dotted(text::decimal(n)) == text::decimal(n),
        !text::decimal(n).contains('.'),
{
    text::lemma_decimal(n);
    let d = text::decimal(n);
    assert forall|i: int| 0 <= i < d.len() implies text::digit(#[trigger] d[i]) by {}
    assert(dotted(d) =~= d);
}

/// The numbers of a version are those that stand between its dots, whatever follows the third
/// one behind a hyphen, a plus sign or a dot.
#[verifier::rlimit(50)]
pub proof fn law_numbers_are_read_back(a: u32, b: u32, c: u32, t: Seq<char>)
    requires
        t.len() > 0 ==> t[0] == '-' || t[0] == '+' || t[0] == '.',
    ensures
        version_numbers(
            text::decimal(a as nat) + seq!['.'] + text::decimal(b as nat) + seq!['.']
                + text::decimal(c as nat) + t,
        ) == Some((a, b, c)),
{
    let (x, y, z) = (text::decimal(a as nat), text::decimal(b as nat), text::decimal(c as nat));
    lemma_dotted_decimal(a as nat);
    lemma_dotted_decimal(b as nat);
    lemma_dotted_decimal(c as nat);
    text::lemma_decimal(a as nat);
    text::lemma_decimal(b as nat);
    text::lemma_decimal(c as nat);
    let tok = x + seq!['.'] + y + seq!['.'] + z + t;
    let u = dotted(t);
    let zt = z + u;
    let d = dotted(tok);
    assert(d =~= x + seq!['.'] + (y + seq!['.'] + zt)) by {
        assert forall|i: int| 0 <= i < x.len() implies d[i] == x[i] by {
            assert(dotted(x)[i] == x[i]);
            assert(tok[i] == x[i]);
        }
        let o = (x.len() + 1) as int;
        assert forall|i: int| 0 <= i < y.len() implies d[o + i] == y[i] by {
            assert(dotted(y)[i] == y[i]);
            assert(tok[o + i] == y[i]);
        }
        let p = o + y.len() + 1;
        assert forall|i: int| 0 <= i < z.len() implies d[p + i] == z[i] by {
            assert(dotted(z)[i] == z[i]);
            assert(tok[p + i] == z[i]);
        }
    }
    text::law_pieces_lie_between_the_cuts(x, '.', y + seq!['.'] + zt);
    text::law_pieces_lie_between_the_cuts(y, '.', zt);
    if t.len() > 0 {
        assert(u[0] == '.');
        assert(zt =~= z + seq!['.'] + u.drop_first());
        text::law_pieces_lie_between_the_cuts(z, '.', u.drop_first());
    } else {
        assert(zt =~= z);
        text::law_pieces_lie_between_the_cuts(z, '.', Seq::empty());
    }
    let parts = text::split(d, '.');
    assert(parts[0] == x && parts[1] == y && parts[2] == z);
}

/// Of two versions the one with the greater first number is the greater; where that is the
/// same the second decides, and then the third.
pub proof fn law_first_difference_decides(a: (u32, u32, u32), b: (u32, u32, u32), r: bool)
    requires
        call_ensures(ver_ge, (a, b), r),
    ensures
        a.0 > b.0 ==> r,
        a.0 < b.0 ==> !r,
        a.0 == b.0 && a.1 > b.1 ==> r,
        a.0 == b.0 && a.1 < b.1 ==> !r,
        a.0 == b.0 && a.1 == b.1 ==> (r <==> a.2 >= b.2),
{
}

/// The numbers of the first version in a text are read from it, whatever stands around it.
#[verifier::rlimit(50)]
pub proof fn law_printed_numbers_are_read(
    raw: &str,
    h: Seq<char>,
    a: u32,
    b: u32,
    c: u32,
    t: Seq<char>,
    found: Option<String>,
    r: Option<(u32, u32, u32)>,
)
    requires
        call_ensures(find_semver, (raw,), found),
        call_ensures(parse_version, (raw,), r),
        forall|i: int| 0 <= i < h.len() ==> !('0' <= #[trigger] h[i] <= '9'),
        t.len() > 0 ==> !of_version(t[0]),
        raw@ == h + (text::decimal(a as nat) + seq!['.'] + text::decimal(b as nat) + seq!['.']
            + text::decimal(c as nat)) + t,
    ensures
        text::option_text(found) == Some(
            text::decimal(a as nat) + seq!['.'] + text::decimal(b as nat) + seq!['.']
                + text::decimal(c as nat),
        ),
        r == Some((a, b, c)),
{
    let (x, y, z) = (text::decimal(a as nat), text::decimal(b as nat), text::decimal(c as nat));
    let v = x + seq!['.'] + y + seq!['.'] + z;
    text::lemma_decimal(a as nat);
    text::lemma_decimal(b as nat);
    text::lemma_decimal(c as nat);
    assert(v[0] == x[0]);
    assert(v.last() == z[z.len() - 1]);
    let i = x.len() as int;
    let j = (x.len() + 1 + y.len()) as int;
    assert(v[i] == '.' && v[j] == '.');
    assert forall|k: int| 0 <= k < v.len() implies of_version(#[trigger] v[k]) by {
        if k < i {
            assert(v[k] == x[k]);
        } else if i < k < j {
            assert(v[k] == y[k - i - 1]);
        } else if k > j {
            assert(v[k] == z[k - j - 1]);
        }
    }
    assert(looks_like_version(v));
    law_version_number_is_found(h, v, t);
    law_numbers_are_read_back(a, b, c, Seq::empty());
    assert(v + Seq::<char>::empty() =~= v);
}

/// A wish to stop is heard from when it is made until it is taken back.
pub proof fn law_wishes_last_until_taken_back(c: &Cancel, r: bool)
    requires
        call_ensures(Cancel::requested, (c,), r),
    ensures
        r == c.flag,
        forall|d: &mut Cancel| #[trigger] call_ensures(Cancel::request, (d,), ()) ==> final(d).flag,
        forall|d: &mut Cancel| #[trigger] call_ensures(Cancel::reset, (d,), ()) ==> !final(d).flag,
{
}

/// A program is started in the same way by each of the functions that do it.
pub proof fn law_programs_are_started_alike(
    program: &str,
    args: &[&str],
    timeout_ms: u64,
    path_env: Option<String>,
    a: Launch,
    b: Launch,
    c: Launch,
)
    requires
        call_ensures(run_capture, (program, args, timeout_ms), a),
        call_ensures(run_capture_env, (program, args, timeout_ms, path_env), b),
        call_ensures(run_path, (program, args, timeout_ms), c),
    ensures
        b.program@ == a.program@ && c.program@ == a.program@,
        text::texts(b.args@) == text::texts(a.args@) && text::texts(c.args@) == text::texts(a.args@),
        b.timeout_ms == timeout_ms && c.timeout_ms == timeout_ms,
        text::option_text(b.path_env) == text::option_text(path_env) && c.path_env is None,
{
}

/// A part of a version that is no number counts as zero, and so does one that is not there; a
/// version whose first part is no number has none.
pub proof fn law_odd_parts_count_as_zero(a: u32, m: Seq<char>, c: u32)
    requires
        !m.contains('.') && !m.contains('-') && !m.contains('+'),
        m.len() > 0 && exists|i: int| 0 <= i < m.len() && !('0' <= #[trigger] m[i] <= '9'),
    ensures
        version_numbers(text::decimal(a as nat)) == Some((a, 0u32, 0u32)),
        version_numbers(
            text::decimal(a as nat) + seq!['.'] + m + seq!['.'] + text::decimal(c as nat),
        ) == Some((a, 0u32, c)),
        version_numbers(m) is None,
{
    let (x, z) = (text::decimal(a as nat), text::decimal(c as nat));
    let none = Seq::<char>::empty();
    lemma_dotted_decimal(a as nat);
    lemma_dotted_decimal(c as nat);
    text::lemma_decimal(a as nat);
    text::lemma_decimal(c as nat);
    assert(dotted(m) =~= m) by {
        assert forall|i: int| 0 <= i < m.len() implies dotted(m)[i] == m[i] by {
            assert(m.contains(m[i]));
        }
    }
    let i = choose|i: int| 0 <= i < m.len() && !('0' <= #[trigger] m[i] <= '9');
    assert(!text::digit(m[i]));
    assert(!text::all_digits(m));
    let tok = x + seq!['.'] + m + seq!['.'] + z;
    let d = dotted(tok);
    assert(d =~= x + seq!['.'] + (m + seq!['.'] + z)) by {
        assert forall|k: int| 0 <= k < x.len() implies d[k] == x[k] by {
            assert(dotted(x)[k] == x[k]);
            assert(tok[k] == x[k]);
        }
        let o = (x.len() + 1) as int;
        assert forall|k: int| 0 <= k < m.len() implies d[o + k] == m[k] by {
            assert(dotted(m)[k] == m[k]);
            assert(tok[o + k] == m[k]);
        }
        let p = o + m.len() + 1;
        assert forall|k: int| 0 <= k < z.len() implies d[p + k] == z[k] by {
            assert(dotted(z)[k] == z[k]);
            assert(tok[p + k] == z[k]);
        }
    }
    text::law_pieces_lie_between_the_cuts(x, '.', m + seq!['.'] + z);
    text::law_pieces_lie_between_the_cuts(m, '.', z);
    text::law_pieces_lie_between_the_cuts(z, '.', none);
    let parts = text::split(d, '.');
    assert(parts[0] == x && parts[1] == m && parts[2] == z);
}

/// Separators at the end of a path, and single dots behind them, change nothing of what it is
/// called; a name that begins with its only dot has no extension.
pub proof fn law_trailing_separators_do_not_matter(
    path: Seq<char>,
    sep: char,
    dir: Seq<char>,
    name: Seq<char>,
)
    requires
        sep == '/' || sep == '\\',
        path.len() > 0,
        forall|i: int|
            0 <= i < name.len() ==> #[trigger] name[i] != '/' && name[i] != '\\' && name[i] != '.',
        name.len() > 0,
    ensures
        rank(path.push(sep)) == rank(path),
        extension(path.push(sep)) == extension(path),
        extension(path.push(sep).push('.')) == extension(path),
        extension(dir + seq![sep] + seq!['.'] + name) is None,
{
    assert(path.push(sep).drop_last() =~= path);
    let dotted_end = path.push(sep).push('.');
    assert(dotted_end.drop_last() =~= path.push(sep));
    assert(dotted_end[dotted_end.len() - 2] == sep);
    assert(to_last(path.push(sep)) == to_last(path));
    assert(to_last(dotted_end) == to_last(path.push(sep)));
    let d = dir + seq![sep];
    let n = seq!['.'] + name;
    let whole = dir + seq![sep] + seq!['.'] + name;
    assert(whole =~= d + n);
    assert(whole.last() == name[name.len() - 1]);
    assert(to_last(whole) == whole);
    assert forall|i: int| 0 <= i < n.len() implies !config::separator(#[trigger] n[i]) by {
        if i > 0 {
            assert(n[i] == name[i - 1]);
        }
    }
    lemma_behind_last(d, n);
    assert(file_name(whole) == n);
    assert forall|i: int| 0 < i < n.len() implies n[i] != '.' by {
        assert(n[i] == name[i - 1]);
    }
    lemma_last_dot(n, 0, n.len() as int);
}

} // verus!
