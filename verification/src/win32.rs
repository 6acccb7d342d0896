//! What is decided on answers of the system: whether this is the first instance, which window
//! belongs to the other one, and whether a process is gone.
//!
//! A call that fails never stands in the way: the shell then does without what it protects.

use vstd::prelude::*;

use crate::text;

verus! {

/// The name of the mutex that the first instance holds. It is one for each session.
pub const MUTEX_NAME: &'static str = "Local\\DShell.SingleInstance.v1";

/// What the system reports where a mutex of that name exists.
pub const ERROR_ALREADY_EXISTS: u32 = 183;

/// What a wait reports where the process has ended.
pub const WAIT_OBJECT_0: u32 = 0;

/// Shows a hidden window.
pub const SW_SHOW: i32 = 5;

/// Shows a minimised window in its former size.
pub const SW_RESTORE: i32 = 9;

/// How long to wait before looking for the other instance's window again.
pub const FOCUS_RETRY_MS: u64 = 150;

#[derive(Debug, Clone, Copy, PartialEq, Eq, Structural)]
pub enum Instance {
    /// The first instance.
    Primary,
    /// Another one runs already.
    Duplicate,
}

// ───────────────────────── texts for the system ─────────────────────────

/// A character in UTF-16.
pub open spec fn utf16_char(c: char) -> Seq<u16> {
    let n = c as int;
    if n < 0x10000 {
        seq![n as u16]
    } else {
        seq![(0xD800 + (n - 0x10000) / 0x400) as u16, (0xDC00 + (n - 0x10000) % 0x400) as u16]
    }
}

/// A text in UTF-16.
pub open spec fn utf16(s: Seq<char>) -> Seq<u16>
    decreases s.len(),
{
    if s.len() == 0 {
        seq![]
    } else {
        utf16(s.drop_last()) + utf16_char(s.last())
    }
}

fn push_utf16(out: &mut Vec<u16>, c: char)
    ensures
        final(out)@ == old(out)@ + utf16_char(c),
{
    let n: u32 = c as u32;
    if n < 0x10000 {
        out.push(n as u16);
    } else {
        let m: u32 = n - 0x10000;
        out.push((0xD800 + m / 0x400) as u16);
        out.push((0xDC00 + m % 0x400) as u16);
    }
    assert(out@ =~= old(out)@ + utf16_char(c));
}

/// A text as the system takes it: in UTF-16, with a zero behind it.
pub fn wide(s: &str) -> (r: Vec<u16>)
    ensures
        r@ == utf16(s@).push(0),
{
    let v = text::chars(s);
    let mut out: Vec<u16> = Vec::new();
    let mut i: usize = 0;
    assert(out@ =~= utf16(v@.take(0)));
    while i < v.len()
        invariant
            i <= v.len(),
            out@ == utf16(v@.take(i as int)),
        decreases v.len() - i,
    {
        assert(v@.take(i + 1).drop_last() =~= v@.take(i as int));
        push_utf16(&mut out, v[i]);
        i = i + 1;
    }
    assert(v@.take(i as int) =~= v@);
    out.push(0);
    out
}

// ───────────────────────── one instance ─────────────────────────

/// Which instance this is, given whether the mutex was made and what the system reported. Where
/// it was not made, the shell starts without this protection.
pub fn acquire_single_instance(made: bool, last_error: u32) -> (r: Instance)
    ensures
        r == (if made && last_error == ERROR_ALREADY_EXISTS {
            Instance::Duplicate
        } else {
            Instance::Primary
        }),
{
    if made && last_error == ERROR_ALREADY_EXISTS {
        Instance::Duplicate
    } else {
        Instance::Primary
    }
}

/// A window at the top level.
pub struct TopWindow {
    /// The process that it belongs to.
    pub pid: u32,
    /// The file of that process, where it can be found out.
    pub image: Option<String>,
    pub titled: bool,
    pub visible: bool,
    /// It is minimised.
    pub iconic: bool,
}

/// The window belongs to another process that runs the same file. Letter case does not matter
/// in files.
pub open spec fn of_other(w: TopWindow, self_pid: u32, self_exe: Seq<char>) -> bool {
    w.pid != 0 && w.pid != self_pid && match w.image {
        Some(p) => text::lower(p@) == text::lower(self_exe),
        None => false,
    }
}

/// The first window in a list for which `p` holds, from place `from` on.
pub open spec fn first_window(
    ws: Seq<TopWindow>,
    p: spec_fn(TopWindow) -> bool,
    from: int,
) -> Option<int>
    decreases ws.len() - from,
{
    if from < 0 || from >= ws.len() {
        None
    } else if p(ws[from]) {
        Some(from)
    } else {
        first_window(ws, p, from + 1)
    }
}

/// The process of the other instance.
pub open spec fn other_pid(ws: Seq<TopWindow>, self_pid: u32, self_exe: Seq<char>) -> Option<u32> {
    match first_window(ws, |w: TopWindow| of_other(w, self_pid, self_exe), 0) {
        Some(i) => Some(ws[i].pid),
        None => None,
    }
}

/// The main window of a process: of its windows with a title the first visible one, else the
/// first hidden one, which is one in the tray.
pub open spec fn main_of(ws: Seq<TopWindow>, pid: u32) -> Option<int> {
    match first_window(ws, |w: TopWindow| w.pid == pid && w.titled && w.visible, 0) {
        Some(i) => Some(i),
        None => first_window(ws, |w: TopWindow| w.pid == pid && w.titled && !w.visible, 0),
    }
}

fn same_file(a: &str, b: &str) -> (r: bool)
    ensures
        r == (text::lower(a@) == text::lower(b@)),
{
    let x = text::chars(a);
    let y = text::chars(b);
    let p = text::to_lower(x.as_slice());
    let q = text::to_lower(y.as_slice());
    text::same_chars(p.as_slice(), q.as_slice())
}

fn is_of_other(w: &TopWindow, self_pid: u32, self_exe: &str) -> (r: bool)
    ensures
        r == of_other(*w, self_pid, self_exe@),
{
    if w.pid == 0 || w.pid == self_pid {
        return false;
    }
    match &w.image {
        Some(p) => same_file(p.as_str(), self_exe),
        None => false,
    }
}

/// The process of the other instance, found by the file that it runs.
pub fn find_pid(ws: &Vec<TopWindow>, self_pid: u32, self_exe: &str) -> (r: Option<u32>)
    ensures
        r == other_pid(ws@, self_pid, self_exe@),
{
    let ghost p = |w: TopWindow| of_other(w, self_pid, self_exe@);
    let mut i: usize = 0;
    while i < ws.len()
        invariant
            i <= ws.len(),
            p == (|w: TopWindow| of_other(w, self_pid, self_exe@)),
            first_window(ws@, p, 0) == first_window(ws@, p, i as int),
        decreases ws.len() - i,
    {
        if is_of_other(&ws[i], self_pid, self_exe) {
            return Some(ws[i].pid);
        }
        i = i + 1;
    }
    None
}

/// The place of a process's main window.
pub fn main_window_of(ws: &Vec<TopWindow>, pid: u32) -> (r: Option<usize>)
    ensures
        match r {
            Some(i) => main_of(ws@, pid) == Some(i as int) && i < ws@.len(),
            None => main_of(ws@, pid) is None,
        },
{
    let ghost shown = |w: TopWindow| w.pid == pid && w.titled && w.visible;
    let ghost concealed = |w: TopWindow| w.pid == pid && w.titled && !w.visible;
    let mut hidden: Option<usize> = None;
    let mut i: usize = 0;
    while i < ws.len()
        invariant
            i <= ws.len(),
            shown == (|w: TopWindow| w.pid == pid && w.titled && w.visible),
            concealed == (|w: TopWindow| w.pid == pid && w.titled && !w.visible),
            first_window(ws@, shown, 0) == first_window(ws@, shown, i as int),
            match hidden {
                Some(k) => first_window(ws@, concealed, 0) == Some(k as int) && k < ws@.len(),
                None => first_window(ws@, concealed, 0) == first_window(ws@, concealed, i as int),
            },
        decreases ws.len() - i,
    {
        if ws[i].pid == pid && ws[i].titled {
            if ws[i].visible {
                return Some(i);
            } else if hidden.is_none() {
                hidden = Some(i);
            }
        }
        i = i + 1;
    }
    hidden
}

/// How a window is brought back: a hidden one is shown, a minimised one restored.
pub fn activate(iconic: bool) -> (r: i32)
    ensures
        r == (if iconic {
            SW_RESTORE
        } else {
            SW_SHOW
        }),
{
    if iconic {
        SW_RESTORE
    } else {
        SW_SHOW
    }
}

/// What to do about the other instance's window.
pub enum Focus {
    /// Bring this one to the front, by this command.
    Window(usize, i32),
    /// Look again later: it may not be there yet.
    Retry,
    /// It was not found.
    GiveUp,
}

/// What to do about the other instance's window, given the windows that there are and whether
/// the time is up.
pub fn focus_existing_instance(
    ws: &Vec<TopWindow>,
    self_pid: u32,
    self_exe: &str,
    time_is_up: bool,
) -> (r: Focus)
    ensures
        ({
            let at = match other_pid(ws@, self_pid, self_exe@) {
                Some(pid) => main_of(ws@, pid),
                None => None,
            };
            match r {
                Focus::Window(i, command) => {
                    &&& at == Some(i as int)
                    &&& i < ws@.len()
                    &&& command == (if ws@[i as int].iconic {
                        SW_RESTORE
                    } else {
                        SW_SHOW
                    })
                },
                Focus::Retry => at is None && !time_is_up,
                Focus::GiveUp => at is None && time_is_up,
            }
        }),
{
    match find_pid(ws, self_pid, self_exe) {
        Some(pid) => {
            match main_window_of(ws, pid) {
                Some(i) => {
                    return Focus::Window(i, activate(ws[i].iconic));
                },
                None => {},
            }
        },
        None => {},
    }
    if time_is_up {
        Focus::GiveUp
    } else {
        Focus::Retry
    }
}

// ───────────────────────── processes and disks ─────────────────────────

/// How long to wait, in the number that the system takes.
pub fn wait_millis(millis: u64) -> (r: u32)
    ensures
        r == (if millis > u32::MAX {
            u32::MAX as u64
        } else {
            millis
        }),
{
    if millis > u32::MAX as u64 {
        u32::MAX
    } else {
        millis as u32
    }
}

/// Whether a process is gone, given whether it could be opened and what a wait for it reported.
/// One that cannot be opened is gone; so is none at all.
pub fn wait_process_exit(pid: u32, opened: bool, waited: u32) -> (r: bool)
    ensures
        r == (pid == 0 || !opened || waited == WAIT_OBJECT_0),
{
    pid == 0 || !opened || waited == WAIT_OBJECT_0
}

/// The free space that the system reported, where the call succeeded.
pub fn free_space_bytes(succeeded: i32, available: u64) -> (r: Option<u64>)
    ensures
        r == (if succeeded != 0 {
            Some(available)
        } else {
            None::<u64>
        }),
{
    if succeeded != 0 {
        Some(available)
    } else {
        None
    }
}

// ───────────────────────── laws ─────────────────────────

proof fn lemma_first_window(ws: Seq<TopWindow>, p: spec_fn(TopWindow) -> bool, from: int)
    requires
        0 <= from,
    ensures
        first_window(ws, p, from) matches Some(i) ==> from <= i < ws.len() && p(ws[i]) && (forall|
            j: int,
        |
            from <= j < i ==> !p(#[trigger] ws[j])),
        first_window(ws, p, from) is None ==> forall|j: int|
            from <= j < ws.len() ==> !p(#[trigger] ws[j]),
    decreases ws.len() - from,
{
    if from < ws.len() && !p(ws[from]) {
        lemma_first_window(ws, p, from + 1);
    }
}

/// The window that is brought to the front is never one of our own, has a title, and belongs
/// to a process that runs our file; and where such a process has a visible window with a title,
/// a visible one is taken.
pub proof fn law_the_other_window_is_found(ws: Seq<TopWindow>, self_pid: u32, self_exe: Seq<char>)
    ensures
        other_pid(ws, self_pid, self_exe) matches Some(pid) ==> {
            &&& pid != 0
            &&& pid != self_pid
            &&& exists|k: int| 0 <= k < ws.len() && #[trigger] ws[k].pid == pid && of_other(
                ws[k],
                self_pid,
                self_exe,
            )
            &&& main_of(ws, pid) matches Some(i) ==> 0 <= i < ws.len() && ws[i].pid == pid
                && ws[i].titled && (ws[i].visible || forall|j: int|
                0 <= j < ws.len() ==> !(#[trigger] ws[j].pid == pid && ws[j].titled
                    && ws[j].visible))
        },
{
    let p = |w: TopWindow| of_other(w, self_pid, self_exe);
    lemma_first_window(ws, p, 0);
    if let Some(pid) = other_pid(ws, self_pid, self_exe) {
        let shown = |w: TopWindow| w.pid == pid && w.titled && w.visible;
        let concealed = |w: TopWindow| w.pid == pid && w.titled && !w.visible;
        lemma_first_window(ws, shown, 0);
        lemma_first_window(ws, concealed, 0);
        let k = first_window(ws, p, 0)->0;
        assert(ws[k].pid == pid);
        if first_window(ws, shown, 0) is None {
            assert forall|j: int| 0 <= j < ws.len() implies !(#[trigger] ws[j].pid == pid
                && ws[j].titled && ws[j].visible) by {
                assert(!shown(ws[j]));
            }
        }
    }
}

/// A text is turned into UTF-16 character by character: one below the surrogates' range by
/// itself, any other by two units that write it, as the system reads them.
pub proof fn law_wide_text_is_utf16(a: Seq<char>, b: Seq<char>, c: char, s: &str, r: Vec<u16>)
    requires
        call_ensures(wide, (s,), r),
    ensures
        utf16(a + b) == utf16(a) + utf16(b),
        (c as int) < 0x10000 ==> utf16(seq![c]).len() == 1 && utf16(seq![c])[0] == c as int,
        c as int >= 0x10000 ==> utf16(seq![c]).len() == 2 && 0xD800 <= utf16(seq![c])[0] < 0xDC00
            && 0xDC00 <= utf16(seq![c])[1] < 0xE000 && c as int == 0x10000 + (utf16(seq![c])[0]
            - 0xD800) * 0x400 + (utf16(seq![c])[1] - 0xDC00),
        r@ == utf16(s@) + seq![0u16],
    decreases b.len(),
{
    assert(r@ =~= utf16(s@) + seq![0u16]);
    assert(seq![c].drop_last() =~= Seq::<char>::empty());
    assert(seq![c].last() == c);
    assert(utf16(Seq::<char>::empty()) =~= Seq::<u16>::empty());
    assert(utf16(seq![c]) =~= utf16_char(c));
    if b.len() == 0 {
        assert(a + b =~= a);
    } else {
        assert((a + b).drop_last() =~= a + b.drop_last());
        assert((a + b).last() == b.last());
        law_wide_text_is_utf16(a, b.drop_last(), c, s, r);
    }
}

/// An instance is a second one exactly where its mutex was made and was there already.
pub proof fn law_second_instance_knows_itself(made: bool, last_error: u32, r: Instance)
    requires
        call_ensures(acquire_single_instance, (made, last_error), r),
    ensures
        r is Duplicate <==> made && last_error == 183,
{
}

/// The other instance is the first window of another process of the same program, whatever the
/// case of its path.
pub proof fn law_other_instance_is_found(
    ws: &Vec<TopWindow>,
    self_pid: u32,
    self_exe: &str,
    k: int,
    r: Option<u32>,
)
    requires
        call_ensures(find_pid, (ws, self_pid, self_exe), r),
        0 <= k <= ws@.len(),
        forall|j: int|
            0 <= j < k ==> (#[trigger] ws@[j]).pid == 0 || ws@[j].pid == self_pid || ws@[j].image
                is None || text::lower(ws@[j].image->Some_0@) != text::lower(self_exe@),
    ensures
        k < ws@.len() && ws@[k].pid != 0 && ws@[k].pid != self_pid && ws@[k].image is Some
            && text::lower(ws@[k].image->Some_0@) == text::lower(self_exe@) ==> r == Some(
            ws@[k].pid,
        ),
        k == ws@.len() ==> r is None,
{
    let p = |w: TopWindow| of_other(w, self_pid, self_exe@);
    lemma_first_window(ws@, p, 0);
    assert forall|j: int| 0 <= j < k implies !p(#[trigger] ws@[j]) by {}
    if k < ws@.len() {
        assert(p(ws@[k]) == of_other(ws@[k], self_pid, self_exe@));
    }
}

/// The window of a process is its first one with a title that is visible, and else its first
/// one with a title.
pub proof fn law_titled_window_is_taken(
    ws: &Vec<TopWindow>,
    pid: u32,
    k: int,
    r: Option<usize>,
)
    requires
        call_ensures(main_window_of, (ws, pid), r),
        0 <= k < ws@.len(),
        ws@[k].pid == pid && ws@[k].titled,
    ensures
        r is Some,
        ws@[r->Some_0 as int].pid == pid && ws@[r->Some_0 as int].titled,
        ws@[k].visible ==> ws@[r->Some_0 as int].visible && r->Some_0 <= k,
        !ws@[r->Some_0 as int].visible ==> !ws@[k].visible && r->Some_0 <= k,
{
    let p = |w: TopWindow| w.pid == pid && w.titled && w.visible;
    let q = |w: TopWindow| w.pid == pid && w.titled && !w.visible;
    lemma_first_window(ws@, p, 0);
    lemma_first_window(ws@, q, 0);
    assert(p(ws@[k]) == (ws@[k].pid == pid && ws@[k].titled && ws@[k].visible));
    assert(q(ws@[k]) == (ws@[k].pid == pid && ws@[k].titled && !ws@[k].visible));
}

/// The window of the other instance is brought to the front, restored where it is minimised and
/// shown where it is not; where it is not there yet it is looked for until the time is up.
pub proof fn law_other_instance_is_brought_to_the_front(
    ws: &Vec<TopWindow>,
    self_pid: u32,
    self_exe: &str,
    time_is_up: bool,
    pid: Option<u32>,
    at: Option<usize>,
    r: Focus,
)
    requires
        call_ensures(find_pid, (ws, self_pid, self_exe), pid),
        pid matches Some(p) ==> call_ensures(main_window_of, (ws, p), at),
        pid is None ==> at is None,
        call_ensures(focus_existing_instance, (ws, self_pid, self_exe, time_is_up), r),
    ensures
        at is None && time_is_up ==> r is GiveUp,
        at is None && !time_is_up ==> r is Retry,
        at matches Some(i) ==> r == Focus::Window(
            i,
            if ws@[i as int].iconic {
                9
            } else {
                5
            },
        ),
{
}

/// A process counts as gone where there was none, where it cannot be opened, or where the wait
/// for it ended; no wait is longer than the system takes. Free space is known where the system
/// told it.
pub proof fn law_waits_end_with_the_process(
    pid: u32,
    opened: bool,
    waited: u32,
    gone: bool,
    millis: u64,
    limit: u32,
    succeeded: i32,
    available: u64,
    free: Option<u64>,
    iconic: bool,
    command: i32,
)
    requires
        call_ensures(wait_process_exit, (pid, opened, waited), gone),
        call_ensures(wait_millis, (millis,), limit),
        call_ensures(free_space_bytes, (succeeded, available), free),
        call_ensures(activate, (iconic,), command),
    ensures
        gone <==> pid == 0 || !opened || waited == 0,
        millis <= u32::MAX ==> limit == millis,
        millis > u32::MAX ==> limit == u32::MAX,
        free is Some <==> succeeded != 0,
        free matches Some(n) ==> n == available,
        iconic ==> command == 9,
        !iconic ==> command == 5,
{
}

} // verus!
