//! The local service through which the backend asks for a directory.
//!
//! The shell shows the chooser itself, owned by its main window, so that the window keeps the
//! foreground. The backend asks for it by a request on the loopback interface that carries a
//! token which only it was given.

use vstd::prelude::*;
use vstd::slice::slice_subrange;

use crate::text;

verus! {

/// The path of the service.
pub const PICK_PATH: &'static str = "/_dsh/desktop/pick-directory";

/// How long the head of a request may be.
pub const HEAD_BYTES: usize = 65_536;

/// How long to wait for a request or for its reply to be taken.
pub const IO_TIMEOUT_MS: u64 = 10_000;

/// The title of the chooser.
pub const CHOOSER_TITLE: &'static str = "选择工作区目录";

// ───────────────────────── requests ─────────────────────────

/// What is looked at of a request.
pub struct Request {
    pub method: String,
    pub path: String,
    /// The header `x-dshell-token`.
    pub token: Option<String>,
    /// The header `origin`.
    pub origin: Option<String>,
}

/// The head of a request ends at byte `i`: an empty line follows.
pub open spec fn ends_head(b: Seq<u8>, i: int) -> bool {
    0 <= i && i + 4 <= b.len() && b[i] == 13 && b[i + 1] == 10 && b[i + 2] == 13 && b[i + 3]
        == 10
}

/// The head of a request ends first at this byte, or not at all.
pub open spec fn ends_first(b: Seq<u8>, at: Option<int>) -> bool {
    match at {
        Some(i) => ends_head(b, i) && forall|j: int| j < i ==> !#[trigger] ends_head(b, j),
        None => forall|j: int| !#[trigger] ends_head(b, j),
    }
}

/// A request was read from these bytes: its head ends first at some byte, and it asks what the
/// bytes before that say.
pub open spec fn read_from(q: Request, b: Seq<u8>) -> bool {
    exists|i: int| #[trigger] ends_first(b, Some(i)) && asks(q, text::utf8_lossy(b.take(i)))
}

/// Where the head of a request ends.
pub fn find_double_crlf(buf: &Vec<u8>) -> (r: Option<usize>)
    ensures
        match r {
            Some(i) => ends_head(buf@, i as int) && forall|j: int| j < i ==> !ends_head(buf@, j),
            None => forall|j: int| !ends_head(buf@, j),
        },
        ends_first(
            buf@,
            match r {
                Some(i) => Some(i as int),
                None => None,
            },
        ),
{
    let mut i: usize = 0;
    while buf.len() >= 4 && i <= buf.len() - 4
        invariant
            i <= buf.len(),
            forall|j: int| j < i ==> !ends_head(buf@, j),
        decreases buf.len() - i,
    {
        if buf[i] == 13 && buf[i + 1] == 10 && buf[i + 2] == 13 && buf[i + 3] == 10 {
            return Some(i);
        }
        i = i + 1;
    }
    None
}

/// The value of a header line, where it has this name. Letter case does not matter in names.
pub open spec fn header_in(line: Seq<char>, name: Seq<char>) -> Option<Seq<char>> {
    match text::first_char(line, ':') {
        Some(i) => if text::lower(text::trimmed(line.take(i))) == name {
            Some(text::trimmed(line.skip(i + 1)))
        } else {
            None
        },
        None => None,
    }
}

/// The value of a header: that of the last line with its name.
pub open spec fn header(lines: Seq<Seq<char>>, name: Seq<char>) -> Option<Seq<char>>
    decreases lines.len(),
{
    if lines.len() == 0 {
        None
    } else {
        match header_in(lines.last(), name) {
            Some(v) => Some(v),
            None => header(lines.drop_last(), name),
        }
    }
}

/// A word of a line; empty where the line has fewer.
pub open spec fn word(line: Seq<char>, i: int) -> Seq<char> {
    if i < text::words(line).len() {
        text::words(line)[i]
    } else {
        seq![]
    }
}

/// This is what a request with this head asks for.
pub open spec fn asks(r: Request, head: Seq<char>) -> bool {
    let lines = text::split_at(head, "\r\n"@);
    &&& r.method@ == word(lines[0], 0)
    &&& r.path@ == word(lines[0], 1)
    &&& text::option_text(r.token) == header(lines.skip(1), "x-dshell-token"@)
    &&& text::option_text(r.origin) == header(lines.skip(1), "origin"@)
}

fn word_of(words: &Vec<&[char]>, i: usize, Ghost(line): Ghost<Seq<char>>) -> (r: String)
    requires
        text::pieces(words@) == text::words(line),
    ensures
        r@ == word(line, i as int),
{
    if i < words.len() {
        assert(text::pieces(words@)[i as int] == words@[i as int]@);
        text::text_of(words[i])
    } else {
        let none = String::new();
        assert(none@ =~= seq![]);
        none
    }
}

fn header_of(line: &[char], name: &str) -> (r: Option<String>)
    ensures
        text::option_text(r) == header_in(line@, name@),
{
    match text::find_char(line, ':') {
        Some(i) => {
            let head = slice_subrange(line, 0, i);
            assert(head@ =~= line@.take(i as int));
            let low = text::to_lower(text::trim(head));
            let want = text::chars(name);
            if text::same_chars(low.as_slice(), want.as_slice()) {
                let rest = slice_subrange(line, i + 1, line.len());
                assert(rest@ =~= line@.skip(i + 1));
                Some(text::text_of(text::trim(rest)))
            } else {
                None
            }
        },
        None => None,
    }
}

fn find_header(lines: &Vec<&[char]>, name: &str) -> (r: Option<String>)
    requires
        lines@.len() > 0,
    ensures
        text::option_text(r) == header(text::pieces(lines@).skip(1), name@),
{
    let mut found: Option<String> = None;
    let mut i: usize = 1;
    let ghost all = text::pieces(lines@).skip(1);
    while i < lines.len()
        invariant
            1 <= i <= lines.len(),
            all == text::pieces(lines@).skip(1),
            text::option_text(found) == header(all.take(i - 1), name@),
        decreases lines.len() - i,
    {
        assert(all.take(i as int).drop_last() =~= all.take(i - 1));
        assert(all.take(i as int).last() == lines@[i as int]@);
        match header_of(lines[i], name) {
            Some(v) => {
                found = Some(v);
            },
            None => {},
        }
        i = i + 1;
    }
    assert(all.take(i - 1) =~= all);
    found
}

/// What a request asks for, given the text of its head. The body is not looked at.
pub fn parse_head(head: &str) -> (r: Request)
    ensures
        asks(r, head@),
{
    proof {
        reveal_strlit("\r\n");
    }
    let all = text::chars(head);
    let crlf = text::chars("\r\n");
    let lines = text::split_text(all.as_slice(), crlf.as_slice());
    assert(text::pieces(lines@)[0] == lines@[0]@);
    let words = text::words_of(lines[0]);
    let ghost line = lines@[0]@;
    Request {
        method: word_of(&words, 0, Ghost(line)),
        path: word_of(&words, 1, Ghost(line)),
        token: find_header(&lines, "x-dshell-token"),
        origin: find_header(&lines, "origin"),
    }
}

/// What came of reading on.
pub enum Reading {
    /// The head is not complete yet.
    More,
    /// The connection was closed before it was.
    Closed,
    /// The head is longer than is accepted.
    TooLarge,
    Done(Request),
}

/// Takes what was read of a request; nothing read means that the connection was closed.
pub fn read_request(buf: &mut Vec<u8>, chunk: &[u8]) -> (r: Reading)
    ensures
        final(buf)@ == old(buf)@ + chunk@,
        match r {
            Reading::Closed => chunk@.len() == 0,
            Reading::TooLarge => chunk@.len() > 0 && final(buf)@.len() > HEAD_BYTES,
            Reading::More => chunk@.len() > 0 && final(buf)@.len() <= HEAD_BYTES && forall|j: int|
                !ends_head(final(buf)@, j),
            Reading::Done(q) => chunk@.len() > 0 && final(buf)@.len() <= HEAD_BYTES && exists|
                i: int,
            |
                #[trigger] ends_head(final(buf)@, i) && (forall|j: int|
                    j < i ==> !ends_head(final(buf)@, j)) && asks(
                    q,
                    text::utf8_lossy(final(buf)@.take(i)),
                ),
        },
        r is More ==> ends_first(final(buf)@, None),
        r matches Reading::Done(q) ==> read_from(q, final(buf)@),
{
    let mut i: usize = 0;
    while i < chunk.len()
        invariant
            i <= chunk.len(),
            buf@ == old(buf)@ + chunk@.take(i as int),
        decreases chunk.len() - i,
    {
        buf.push(chunk[i]);
        i = i + 1;
        assert(buf@ =~= old(buf)@ + chunk@.take(i as int));
    }
    assert(chunk@.take(i as int) =~= chunk@);
    if chunk.len() == 0 {
        return Reading::Closed;
    }
    if buf.len() > HEAD_BYTES {
        return Reading::TooLarge;
    }
    match find_double_crlf(buf) {
        None => Reading::More,
        Some(end) => {
            let bytes = slice_subrange(buf.as_slice(), 0, end);
            assert(bytes@ =~= buf@.take(end as int));
            let head = text::decode_lossy(bytes);
            Reading::Done(parse_head(head.as_str()))
        },
    }
}

// ───────────────────────── replies ─────────────────────────

pub struct Reply {
    pub status: u16,
    pub reason: &'static str,
    /// A JSON document.
    pub body: String,
}

/// A reply is this.
pub open spec fn replies(r: Reply, status: u16, reason: Seq<char>, body: Seq<char>) -> bool {
    r.status == status && r.reason@ == reason && r.body@ == body
}

/// A reply as it is sent.
pub open spec fn response(status: u16, reason: Seq<char>, body: Seq<char>) -> Seq<char> {
    "HTTP/1.1 "@ + text::decimal(status as nat) + " "@ + reason
        + "\r\nContent-Type: application/json; charset=utf-8\r\nContent-Length: "@ + text::decimal(
        text::utf8_len(body),
    ) + "\r\nCache-Control: no-store\r\nConnection: close\r\n\r\n"@ + body
}

impl Reply {
    pub fn new(status: u16, reason: &'static str, body: &str) -> (r: Self)
        ensures
            replies(r, status, reason@, body@),
    {
        Reply { status, reason, body: text::copy(body) }
    }

    /// The reply as it is sent.
    pub fn write_json(&self) -> (r: String)
        ensures
            r@ == response(self.status, self.reason@, self.body@),
    {
        let status = text::decimal_text(self.status as u64);
        let line = text::cat4("HTTP/1.1 ", status.as_str(), " ", self.reason);
        let length = text::decimal_text(text::byte_len(self.body.as_str()) as u64);
        text::cat5(
            line.as_str(),
            "\r\nContent-Type: application/json; charset=utf-8\r\nContent-Length: ",
            length.as_str(),
            "\r\nCache-Control: no-store\r\nConnection: close\r\n\r\n",
            self.body.as_str(),
        )
    }
}

// ───────────────────────── JSON text ─────────────────────────

/// A hexadecimal digit.
pub open spec fn hex_digit(n: int) -> char {
    if n < 10 {
        (('0' as u32) + n) as char
    } else {
        (('a' as u32) + n - 10) as char
    }
}

/// A number in hexadecimal, with leading zeros, in so many digits.
pub open spec fn hex(n: nat, digits: nat) -> Seq<char>
    decreases digits,
{
    if digits == 0 {
        seq![]
    } else {
        hex(n / 16, (digits - 1) as nat).push(hex_digit((n % 16) as int))
    }
}

fn hex_char(n: u8) -> (r: char)
    requires
        n < 16,
    ensures
        r == hex_digit(n as int),
{
    if n < 10 {
        (48u8 + n) as char
    } else {
        (97u8 + (n - 10)) as char
    }
}

/// A number in hexadecimal, with leading zeros.
fn push_hex(out: &mut String, n: u64, digits: usize)
    ensures
        final(out)@ == old(out)@ + hex(n as nat, digits as nat),
    decreases digits,
{
    if digits == 0 {
        assert(out@ =~= old(out)@ + hex(n as nat, 0));
        return ;
    }
    push_hex(out, n / 16, digits - 1);
    out.push(hex_char((n % 16) as u8));
    assert(out@ =~= old(out)@ + hex(n as nat, digits as nat));
}

/// A character as it stands in a JSON string.
pub open spec fn json_char(c: char) -> Seq<char> {
    if c == '"' {
        seq!['\\', '"']
    } else if c == '\\' {
        seq!['\\', '\\']
    } else if c == '\n' {
        seq!['\\', 'n']
    } else if c == '\r' {
        seq!['\\', 'r']
    } else if c == '\t' {
        seq!['\\', 't']
    } else if ' ' > c {
        seq!['\\', 'u'] + hex(c as nat, 4)
    } else {
        seq![c]
    }
}

/// A text as it stands between the quotes of a JSON string.
pub open spec fn json_chars(s: Seq<char>) -> Seq<char>
    decreases s.len(),
{
    if s.len() == 0 {
        seq![]
    } else {
        json_char(s[0]) + json_chars(s.skip(1))
    }
}

fn push_json_char(out: &mut String, c: char)
    ensures
        final(out)@ == old(out)@ + json_char(c),
{
    if c == '"' {
        out.push('\\');
        out.push('"');
    } else if c == '\\' {
        out.push('\\');
        out.push('\\');
    } else if c == '\n' {
        out.push('\\');
        out.push('n');
    } else if c == '\r' {
        out.push('\\');
        out.push('r');
    } else if c == '\t' {
        out.push('\\');
        out.push('t');
    } else if ' ' > c {
        out.push('\\');
        out.push('u');
        push_hex(out, c as u64, 4);
    } else {
        out.push(c);
    }
    assert(out@ =~= old(out)@ + json_char(c));
}

/// A text as a JSON string.
pub fn json_string(s: &str) -> (r: String)
    ensures
        r@ == seq!['"'] + json_chars(s@) + seq!['"'],
{
    let v = text::chars(s);
    let mut out = String::new();
    out.push('"');
    let mut i: usize = 0;
    assert(v@.skip(0) =~= v@);
    assert(out@ + json_chars(v@.skip(0)) =~= seq!['"'] + json_chars(v@));
    while i < v.len()
        invariant
            i <= v.len(),
            out@ + json_chars(v@.skip(i as int)) == seq!['"'] + json_chars(v@),
        decreases v.len() - i,
    {
        let ghost before = out@;
        push_json_char(&mut out, v[i]);
        assert(v@.skip(i as int).skip(1) =~= v@.skip(i + 1));
        assert(out@ + json_chars(v@.skip(i + 1)) =~= before + json_chars(v@.skip(i as int)));
        i = i + 1;
    }
    assert(json_chars(v@.skip(i as int)) =~= seq![]);
    assert(out@ =~= seq!['"'] + json_chars(v@));
    out.push('"');
    assert(out@ =~= seq!['"'] + json_chars(s@) + seq!['"']);
    out
}

// ───────────────────────── tokens ─────────────────────────

/// `std::hash::RandomState::new`: keys that are drawn at random. Nothing is said of them: they
/// differ from call to call.
#[verifier::external_body]
fn random_keys() -> std::collections::hash_map::RandomState {
    std::collections::hash_map::RandomState::new()
}

/// `std::hash::BuildHasher::hash_one`: a hash under given keys. Nothing is said of the result,
/// which rests on the keys.
#[verifier::external_body]
fn hash_under(keys: &std::collections::hash_map::RandomState, seed: u64) -> u64 {
    std::hash::BuildHasher::hash_one(keys, seed)
}

fn random_hash(seed: u64) -> u64 {
    let keys = random_keys();
    hash_under(&keys, seed)
}

/// A token made of two numbers.
pub fn token_of(a: u64, b: u64) -> (r: String)
    ensures
        r@ == hex(a as nat, 16) + hex(b as nat, 16),
{
    let mut out = String::new();
    push_hex(&mut out, a, 16);
    push_hex(&mut out, b, 16);
    assert(out@ =~= hex(a as nat, 16) + hex(b as nat, 16));
    out
}

/// A character of a token.
pub open spec fn token_char(c: char) -> bool {
    '0' <= c <= '9' || 'a' <= c <= 'f'
}

proof fn lemma_hex(n: nat, digits: nat)
    ensures
        hex(n, digits).len() == digits,
        text::every(hex(n, digits), |c: char| token_char(c)),
    decreases digits,
{
    if digits > 0 {
        lemma_hex(n / 16, (digits - 1) as nat);
    }
}

/// 32 hexadecimal digits that cannot be foreseen, drawn with these seeds.
pub(crate) fn fresh_pair(first: u64, second: u64) -> (r: String)
    ensures
        r@.len() == 32,
        text::every(r@, |c: char| token_char(c)),
{
    let a = random_hash(first);
    let b = random_hash(second);
    proof {
        lemma_hex(a as nat, 16);
        lemma_hex(b as nat, 16);
    }
    token_of(a, b)
}

/// A token for whoever may ask.
pub fn fresh_token(port: u16) -> (r: String)
    ensures
        r@.len() == 32,
        text::every(r@, |c: char| token_char(c)),
{
    fresh_pair(port as u64, port as u64)
}

// ───────────────────────── the service ─────────────────────────

pub struct Bridge {
    /// Where the service listens; 0 where it does not.
    pub port: u16,
    pub token: Option<String>,
    /// A chooser is open.
    pub dialog_open: bool,
}

/// What is done about a request.
pub enum Picking {
    Answer(Reply),
    /// Show the chooser.
    Choose,
}

/// The request is one for this service that carries its token.
pub open spec fn admitted(b: Bridge, q: Request) -> bool {
    &&& q.path@ == PICK_PATH@
    &&& q.method@ == "POST"@
    &&& b.token matches Some(want)
    &&& q.token matches Some(got)
    &&& want@ == got@
}

impl Bridge {
    pub fn new() -> (r: Self)
        ensures
            r.port == 0,
            r.token is None,
            !r.dialog_open,
    {
        Bridge { port: 0, token: None, dialog_open: false }
    }

    /// The service listens from now on. The result is the address's port.
    pub fn start(&mut self, port: u16) -> (r: u16)
        ensures
            r == port,
            final(self).port == port,
            final(self).dialog_open == old(self).dialog_open,
            final(self).token matches Some(t) && t@.len() == 32 && text::every(
                t@,
                |c: char| token_char(c),
            ),
    {
        self.port = port;
        self.token = Some(fresh_token(port));
        port
    }

    /// Where the service listens; 0 where it does not.
    pub fn port(&self) -> (r: u16)
        ensures
            r == self.port,
    {
        self.port
    }

    /// What a request must carry.
    pub fn auth_token(&self) -> (r: Option<String>)
        ensures
            text::option_text(r) == text::option_text(self.token),
    {
        text::copy_option(&self.token)
    }

    /// What is done about a request. Only one chooser is shown at a time.
    pub fn handle(&mut self, q: &Request) -> (r: Picking)
        ensures
            final(self).port == old(self).port,
            final(self).token == old(self).token,
            if q.path@ != PICK_PATH@ {
                &&& r matches Picking::Answer(a)
                &&& replies(a, 404, "Not Found"@, "{\"error\":\"not found\"}"@)
                &&& final(self).dialog_open == old(self).dialog_open
            } else if q.method@ != "POST"@ {
                &&& r matches Picking::Answer(a)
                &&& replies(a, 405, "Method Not Allowed"@, "{\"error\":\"method not allowed\"}"@)
                &&& final(self).dialog_open == old(self).dialog_open
            } else if !admitted(*old(self), *q) {
                &&& r matches Picking::Answer(a)
                &&& replies(a, 403, "Forbidden"@, "{\"error\":\"forbidden\"}"@)
                &&& final(self).dialog_open == old(self).dialog_open
            } else if old(self).dialog_open {
                &&& r matches Picking::Answer(a)
                &&& replies(a, 200, "OK"@, "{\"path\":null}"@)
                &&& final(self).dialog_open
            } else {
                r is Choose && final(self).dialog_open
            },
    {
        if !text::same(q.path.as_str(), PICK_PATH) {
            return Picking::Answer(Reply::new(404, "Not Found", "{\"error\":\"not found\"}"));
        }
        if !text::same(q.method.as_str(), "POST") {
            return Picking::Answer(
                Reply::new(405, "Method Not Allowed", "{\"error\":\"method not allowed\"}"),
            );
        }
        let good = match (&self.token, &q.token) {
            (Some(want), Some(got)) => text::same(want.as_str(), got.as_str()),
            _ => false,
        };
        if !good {
            return Picking::Answer(Reply::new(403, "Forbidden", "{\"error\":\"forbidden\"}"));
        }
        if self.dialog_open {
            return Picking::Answer(Reply::new(200, "OK", "{\"path\":null}"));
        }
        self.dialog_open = true;
        Picking::Choose
    }

    /// The chooser was closed, with a directory or without; or it could not be shown because
    /// the main window is gone.
    pub fn pick_directory(&mut self, window: bool, picked: Option<&str>) -> (r: Reply)
        ensures
            !final(self).dialog_open,
            final(self).port == old(self).port,
            final(self).token == old(self).token,
            if !window {
                replies(
                    r,
                    500,
                    "Internal Server Error"@,
                    "{\"error\":\"native directory picker failed\"}"@,
                )
            } else {
                match picked {
                    Some(p) => replies(
                        r,
                        200,
                        "OK"@,
                        "{\"path\":"@ + (seq!['"'] + json_chars(p@) + seq!['"']) + "}"@,
                    ),
                    None => replies(r, 200, "OK"@, "{\"path\":null}"@),
                }
            },
    {
        self.dialog_open = false;
        if !window {
            return Reply::new(
                500,
                "Internal Server Error",
                "{\"error\":\"native directory picker failed\"}",
            );
        }
        match picked {
            Some(p) => {
                let value = json_string(p);
                let body = text::cat3("{\"path\":", value.as_str(), "}");
                Reply { status: 200, reason: "OK", body }
            },
            None => Reply::new(200, "OK", "{\"path\":null}"),
        }
    }
}

// ───────────────────────── laws ─────────────────────────

/// The value of a hexadecimal digit.
pub open spec fn hex_value(c: char) -> int {
    if '0' <= c <= '9' {
        c as int - '0' as int
    } else {
        c as int - 'a' as int + 10
    }
}

/// The text that stands between the quotes of a JSON string, read back.
pub open spec fn json_read_back(s: Seq<char>) -> Seq<char>
    decreases s.len(),
{
    if s.len() == 0 {
        seq![]
    } else if s[0] != '\\' {
        seq![s[0]] + json_read_back(s.skip(1))
    } else if s.len() < 2 {
        seq![]
    } else if s[1] == 'n' {
        seq!['\n'] + json_read_back(s.skip(2))
    } else if s[1] == 'r' {
        seq!['\r'] + json_read_back(s.skip(2))
    } else if s[1] == 't' {
        seq!['\t'] + json_read_back(s.skip(2))
    } else if s[1] == 'u' && s.len() >= 6 {
        seq![
            (hex_value(s[2]) * 4096 + hex_value(s[3]) * 256 + hex_value(s[4]) * 16 + hex_value(s[5])) as char,
        ] + json_read_back(s.skip(6))
    } else {
        seq![s[1]] + json_read_back(s.skip(2))
    }
}

proof fn lemma_json_char(c: char, rest: Seq<char>)
    ensures
        json_read_back(json_char(c) + rest) == seq![c] + json_read_back(rest),
{
    let s = json_char(c) + rest;
    if c == '"' || c == '\\' || c == '\n' || c == '\r' || c == '\t' {
        assert(s.skip(2) =~= rest);
    } else if ' ' > c {
        let n = c as nat;
        reveal_with_fuel(hex, 5);
        assert(n < 32);
        assert(n / 16 / 16 == 0 && n / 16 / 16 / 16 == 0);
        assert(hex(n, 4) =~= seq!['0', '0', hex_digit((n / 16) as int), hex_digit((n % 16) as int)]);
        assert(s.skip(6) =~= rest);
        assert(hex_value(hex_digit((n % 16) as int)) == n % 16);
        assert(hex_value(hex_digit((n / 16) as int)) == n / 16);
        assert(s[2] == '0' && s[3] == '0');
        assert(s[4] == hex_digit((n / 16) as int));
        assert(s[5] == hex_digit((n % 16) as int));
    } else {
        assert(s.skip(1) =~= rest);
    }
}

/// A path is read back from the JSON string as it was written, whatever characters it has.
pub proof fn law_json_string_is_read_back(s: Seq<char>)
    ensures
        json_read_back(json_chars(s)) == s,
    decreases s.len(),
{
    if s.len() > 0 {
        law_json_string_is_read_back(s.skip(1));
        lemma_json_char(s[0], json_chars(s.skip(1)));
        assert(seq![s[0]] + s.skip(1) =~= s);
    } else {
        assert(json_read_back(json_chars(s)) =~= s);
    }
}

/// No line break, tab or other control character stands in a JSON string as it is.
pub proof fn law_json_string_has_no_controls(s: Seq<char>)
    ensures
        text::every(json_chars(s), |c: char| ' ' <= c),
    decreases s.len(),
{
    if s.len() > 0 {
        law_json_string_has_no_controls(s.skip(1));
        lemma_hex(s[0] as nat, 4);
        let head = json_char(s[0]);
        let rest = json_chars(s.skip(1));
        let all = json_chars(s);
        assert forall|i: int| 0 <= i < all.len() implies ' ' <= #[trigger] all[i] by {
            if i < head.len() {
                assert(all[i] == head[i]);
                if ' ' > s[0] && head.len() == 6 && i >= 2 {
                    assert(head[i] == hex(s[0] as nat, 4)[i - 2]);
                    assert(token_char(hex(s[0] as nat, 4)[i - 2]));
                }
            } else {
                assert(all[i] == rest[i - head.len()]);
            }
        }
    }
}

/// A request asks with the first word of its first line for the second one; what follows that
/// does not matter.
pub proof fn law_request_asks_for_its_second_word(
    head: &str,
    method: Seq<char>,
    path: Seq<char>,
    more: Seq<char>,
    r: Request,
)
    requires
        call_ensures(parse_head, (head,), r),
        text::every(method, |c: char| !text::space(c)),
        text::every(path, |c: char| !text::space(c)),
        method.len() > 0,
        path.len() > 0,
        more.len() == 0 || text::space(more[0]),
        text::split_at(head@, "\r\n"@)[0] == method + seq![' '] + path + more,
    ensures
        r.method@ == method,
        r.path@ == path,
{
    let rest = seq![' '] + path + more;
    let line = method + seq![' '] + path + more;
    assert(line =~= method + rest);
    text::law_words_begin_with_the_first(method, rest);
    assert(rest =~= seq![' '] + (path + more));
    assert(text::every(seq![' '], |c: char| text::space(c)));
    text::law_whitespace_is_no_word(seq![' '], path + more);
    text::law_words_begin_with_the_first(path, more);
    let words = text::words(line);
    assert(words[0] == method);
    assert(words[1] == path);
}

/// A header is found by its name, however that is cased and spaced, and is what stands behind
/// the colon, without whitespace around it. The last of a name counts; others do not touch it.
pub proof fn law_headers_are_found_by_name(
    lines: Seq<Seq<char>>,
    name: Seq<char>,
    given: Seq<char>,
    value: Seq<char>,
)
    requires
        !given.contains(':'),
    ensures
        header(Seq::<Seq<char>>::empty(), name) is None,
        text::lower(text::trimmed(given)) == name ==> header(
            lines.push(given + seq![':'] + value),
            name,
        ) == Some(text::trimmed(value)),
        text::lower(text::trimmed(given)) != name ==> header(
            lines.push(given + seq![':'] + value),
            name,
        ) == header(lines, name),
        header(lines.push(given), name) == header(lines, name),
{
    let line = given + seq![':'] + value;
    text::lemma_first_char_from(line, ':', 0);
    text::lemma_first_char_from(given, ':', 0);
    assert(line[given.len() as int] == ':');
    assert forall|i: int| 0 <= i < given.len() implies line[i] != ':' by {
        assert(line[i] == given[i]);
    }
    assert(text::first_char(line, ':') == Some(given.len() as int));
    assert(line.take(given.len() as int) =~= given);
    assert(line.skip((given.len() + 1) as int) =~= value);
    assert(lines.push(line).drop_last() =~= lines);
    assert(lines.push(given).drop_last() =~= lines);
}

/// The head of a request has two headers that count: the token and the origin.
pub proof fn law_token_and_origin_are_headers(head: &str, r: Request)
    requires
        call_ensures(parse_head, (head,), r),
    ensures
        text::option_text(r.token) == header(
            text::split_at(head@, "\r\n"@).drop_first(),
            "x-dshell-token"@,
        ),
        text::option_text(r.origin) == header(
            text::split_at(head@, "\r\n"@).drop_first(),
            "origin"@,
        ),
{
    let lines = text::split_at(head@, "\r\n"@);
    assert(lines.len() > 0);
    assert(lines.skip(1) =~= lines.drop_first());
}

/// A request is read up to the first empty line, and is what stands before that. It is given up
/// where the connection ends before that, or where more than 64 KiB came.
#[verifier::rlimit(50)]
pub proof fn law_requests_are_read_to_the_empty_line(i: int)
    ensures
        forall|buf: &mut Vec<u8>, chunk: &[u8], r: Reading| #[trigger]
            call_ensures(read_request, (buf, chunk), r) ==> {
                let all = (*buf)@ + chunk@;
                &&& final(buf)@ == all
                &&& r is Closed <==> chunk@.len() == 0
                &&& r is TooLarge <==> chunk@.len() > 0 && all.len() > 65536
                &&& chunk@.len() > 0 && all.len() <= 65536 && 0 <= i && i + 4 <= all.len()
                    && all.subrange(i, i + 4) == seq![13u8, 10, 13, 10] ==> r is Done
                &&& r matches Reading::Done(q) ==> read_from(q, all)
            },
{
    assert forall|buf: &mut Vec<u8>, chunk: &[u8], r: Reading| #[trigger]
        call_ensures(read_request, (buf, chunk), r) implies {
        let all = (*buf)@ + chunk@;
        &&& final(buf)@ == all
        &&& r is Closed <==> chunk@.len() == 0
        &&& r is TooLarge <==> chunk@.len() > 0 && all.len() > 65536
        &&& chunk@.len() > 0 && all.len() <= 65536 && 0 <= i && i + 4 <= all.len()
            && all.subrange(i, i + 4) == seq![13u8, 10, 13, 10] ==> r is Done
        &&& r matches Reading::Done(q) ==> read_from(q, all)
    } by {
        let all = (*buf)@ + chunk@;
        if 0 <= i && i + 4 <= all.len() && all.subrange(i, i + 4) == seq![13u8, 10, 13, 10] {
            let s = all.subrange(i, i + 4);
            assert(s[0] == all[i] && s[1] == all[i + 1] && s[2] == all[i + 2] && s[3] == all[i
                + 3]);
            assert(ends_head(all, i));
        }
    }
}

/// A reply is sent with its status, the length of its body in bytes, and its body at the end.
#[verifier::rlimit(50)]
pub proof fn law_reply_ends_in_its_body(reply: &Reply, r: String)
    requires
        call_ensures(Reply::write_json, (reply,), r),
    ensures
        text::starts(r@, "HTTP/1.1 "@ + text::decimal(reply.status as nat) + " "@ + reply.reason@),
        text::ends(r@, "\r\n\r\n"@ + reply.body@),
        text::has(
            r@,
            "\r\nContent-Length: "@ + text::decimal(text::utf8_len(reply.body@)) + "\r\n"@,
        ),
{
    let head = "HTTP/1.1 "@ + text::decimal(reply.status as nat) + " "@ + reply.reason@;
    let n = text::decimal(text::utf8_len(reply.body@));
    let m1 = "\r\nContent-Type: application/json; charset=utf-8\r\nContent-Length: "@;
    let m2 = "\r\nCache-Control: no-store\r\nConnection: close\r\n\r\n"@;
    let s = head + m1 + n + m2 + reply.body@;
    assert(r@ =~= s);
    assert(s.subrange(0, head.len() as int) =~= head);
    reveal_strlit("\r\nContent-Type: application/json; charset=utf-8\r\nContent-Length: ");
    reveal_strlit("\r\nCache-Control: no-store\r\nConnection: close\r\n\r\n");
    reveal_strlit("\r\n\r\n");
    reveal_strlit("\r\nContent-Length: ");
    reveal_strlit("\r\n");
    let tail = "\r\n\r\n"@ + reply.body@;
    assert(s.subrange(s.len() - tail.len(), s.len() as int) =~= tail);
    let mid = "\r\nContent-Length: "@ + n + "\r\n"@;
    let at = (head.len() + m1.len() - "\r\nContent-Length: "@.len()) as int;
    assert(s.subrange(at, (at + mid.len()) as int) =~= mid);
    assert(text::occurs_at(s, mid, at));
}

/// The chooser is shown for a `POST` to its path that brings the token, and for nothing else;
/// while it is open a further request gets no directory. What is refused changes nothing.
#[verifier::rlimit(50)]
pub proof fn law_only_the_token_opens_the_chooser()
    ensures
        forall|b: &mut Bridge, q: &Request, r: Picking| #[trigger]
            call_ensures(Bridge::handle, (b, q), r) ==> {
                let right = (*b).token is Some && text::option_text((*b).token)
                    == text::option_text(q.token);
                &&& r is Choose <==> q.path@ == "/_dsh/desktop/pick-directory"@ && q.method@
                    == "POST"@ && right && !(*b).dialog_open
                &&& q.path@ != "/_dsh/desktop/pick-directory"@ ==> (r matches Picking::Answer(a)
                    && a.status == 404)
                &&& q.path@ == "/_dsh/desktop/pick-directory"@ && q.method@ != "POST"@ ==> (r
                    matches Picking::Answer(a) && a.status == 405)
                &&& q.path@ == "/_dsh/desktop/pick-directory"@ && q.method@ == "POST"@ && !right
                    ==> (r matches Picking::Answer(a) && a.status == 403)
                &&& q.path@ == "/_dsh/desktop/pick-directory"@ && q.method@ == "POST"@ && right
                    && (*b).dialog_open ==> (r matches Picking::Answer(a) && a.status == 200
                    && a.body@ == "{\"path\":null}"@)
                &&& final(b).dialog_open <==> (*b).dialog_open || r is Choose
                &&& final(b).token == (*b).token
            },
{
}

/// The chooser is closed by its answer: the directory as a JSON string, or none where none was
/// chosen; without a window it fails. Afterwards it can be opened again.
pub proof fn law_chosen_directory_is_answered()
    ensures
        forall|b: &mut Bridge, window: bool, picked: Option<&str>, r: Reply| #[trigger]
            call_ensures(Bridge::pick_directory, (b, window, picked), r) ==> {
                &&& !final(b).dialog_open
                &&& final(b).token == (*b).token
                &&& r.status == 500 <==> !window
                &&& window ==> r.status == 200
                &&& window && picked is None ==> r.body@ == "{\"path\":null}"@
                &&& window && picked is Some ==> r.body@ == "{\"path\":\""@ + json_chars(
                    picked->Some_0@,
                ) + "\"}"@
            },
{
    assert forall|b: &mut Bridge, window: bool, picked: Option<&str>, r: Reply| #[trigger]
        call_ensures(Bridge::pick_directory, (b, window, picked), r) implies {
        &&& !final(b).dialog_open
        &&& final(b).token == (*b).token
        &&& r.status == 500 <==> !window
        &&& window ==> r.status == 200
        &&& window && picked is None ==> r.body@ == "{\"path\":null}"@
        &&& window && picked is Some ==> r.body@ == "{\"path\":\""@ + json_chars(picked->Some_0@)
            + "\"}"@
    } by {
        if window && picked is Some {
            reveal_strlit("{\"path\":");
            reveal_strlit("{\"path\":\"");
            reveal_strlit("}");
            reveal_strlit("\"}");
            let j = json_chars(picked->Some_0@);
            assert("{\"path\":"@ + (seq!['"'] + j + seq!['"']) + "}"@ =~= "{\"path\":\""@ + j
                + "\"}"@);
        }
    }
}

proof fn lemma_hex_digits_differ(a: int, b: int)
    requires
        0 <= a < 16,
        0 <= b < 16,
        hex_digit(a) == hex_digit(b),
    ensures
        a == b,
{
}

proof fn lemma_hex_injective(m: nat, n: nat, digits: nat)
    requires
        hex(m, digits) == hex(n, digits),
        m < vstd::arithmetic::power::pow(16, digits),
        n < vstd::arithmetic::power::pow(16, digits),
    ensures
        m == n,
    decreases digits,
{
    vstd::arithmetic::power::lemma_pow0(16);
    if digits > 0 {
        let less = (digits - 1) as nat;
        let p = vstd::arithmetic::power::pow(16, less);
        assert(vstd::arithmetic::power::pow(16, digits) == 16 * p) by {
            reveal(vstd::arithmetic::power::pow);
        }
        let (x, y) = (hex(m, digits), hex(n, digits));
        assert(x.last() == hex_digit((m % 16) as int));
        assert(y.last() == hex_digit((n % 16) as int));
        lemma_hex_digits_differ((m % 16) as int, (n % 16) as int);
        assert(x.drop_last() =~= hex(m / 16, less));
        assert(y.drop_last() =~= hex(n / 16, less));
        assert(m / 16 < p) by (nonlinear_arith)
            requires
                m < 16 * p,
        ;
        assert(n / 16 < p) by (nonlinear_arith)
            requires
                n < 16 * p,
        ;
        lemma_hex_injective(m / 16, n / 16, less);
    }
}

/// Different numbers make different tokens, each of 32 hexadecimal digits.
pub proof fn law_tokens_tell_numbers_apart(
    a: u64,
    b: u64,
    c: u64,
    d: u64,
    r: String,
    s: String,
)
    requires
        call_ensures(token_of, (a, b), r),
        call_ensures(token_of, (c, d), s),
    ensures
        r@.len() == 32,
        r@ == s@ ==> a == c && b == d,
{
    lemma_hex(a as nat, 16);
    lemma_hex(b as nat, 16);
    lemma_hex(c as nat, 16);
    lemma_hex(d as nat, 16);
    if r@ == s@ {
        assert(hex(a as nat, 16) =~= r@.take(16));
        assert(hex(c as nat, 16) =~= s@.take(16));
        assert(hex(b as nat, 16) =~= r@.skip(16));
        assert(hex(d as nat, 16) =~= s@.skip(16));
        assert(vstd::arithmetic::power::pow(16, 16) == 0x1_0000_0000_0000_0000) by {
            reveal_with_fuel(vstd::arithmetic::power::pow, 17);
        }
        lemma_hex_injective(a as nat, c as nat, 16);
        lemma_hex_injective(b as nat, d as nat, 16);
    }
}

/// A text is written as a JSON string between two quotes, from which it is read back.
pub proof fn law_strings_are_written_as_json(s: &str, r: String, b: &Bridge, token: Option<String>)
    requires
        call_ensures(json_string, (s,), r),
        call_ensures(Bridge::auth_token, (b,), token),
    ensures
        r@.len() >= 2 && r@[0] == '"' && r@.last() == '"',
        json_read_back(r@.subrange(1, r@.len() - 1)) == s@,
        text::option_text(token) == text::option_text(b.token),
        forall|c: &mut Bridge, port: u16, p: u16| #[trigger]
            call_ensures(Bridge::start, (c, port), p) ==> p == port && final(c).port == port
                && final(c).token is Some && final(c).dialog_open == (*c).dialog_open,
{
    law_json_string_is_read_back(s@);
    assert(r@.subrange(1, r@.len() - 1) =~= json_chars(s@));
}

/// The head of a request ends at the first empty line.
pub proof fn law_head_ends_at_the_first_empty_line(buf: &Vec<u8>, r: Option<usize>, i: int)
    requires
        call_ensures(find_double_crlf, (buf,), r),
        0 <= i,
        i + 4 <= buf@.len(),
        buf@.subrange(i, i + 4) == seq![13u8, 10, 13, 10],
    ensures
        r is Some,
        r->Some_0 <= i,
        buf@.subrange(r->Some_0 as int, r->Some_0 + 4) == seq![13u8, 10, 13, 10],
{
    let s = buf@.subrange(i, i + 4);
    assert(s[0] == buf@[i] && s[1] == buf@[i + 1] && s[2] == buf@[i + 2] && s[3] == buf@[i + 3]);
    assert(ends_head(buf@, i));
    if let Some(k) = r {
        assert(ends_head(buf@, k as int));
        assert(buf@.subrange(k as int, k + 4) =~= seq![13u8, 10, 13, 10]);
    }
}

} // verus!
