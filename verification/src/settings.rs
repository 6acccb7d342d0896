//! The settings panel: a frame over whatever document the main window shows, and the local
//! service through which the panel answers.
//!
//! A script that is put into the document makes the frame. The shell speaks to the panel
//! through that script; the panel speaks to the shell by requests whose path holds a secret
//! part that is drawn anew at every start.

use vstd::prelude::*;
use vstd::slice::slice_subrange;

use crate::installer;
use crate::page;
use crate::picker;
use crate::picker::{Reply, Request};
use crate::release_notes::Note;
use crate::text;
use crate::update::Catalog;

verus! {

/// The file of the panel, beside that of the start page.
pub const PANEL_FILE: &'static str = "settings.html";

/// How long the panel may take to report that it is there.
pub const READY_TIMEOUT_MS: u64 = 2_500;

/// Takes the panel away.
pub const HIDE_JS: &'static str = "window.__dshellSettings&&window.__dshellSettings.hide()";

/// What is shown where the panel did not come up.
pub const READY_HINT: &'static str =
    "设置面板没有加载出来。\n\n这通常是打包不完整或文件损坏。\n按 Esc 关闭；完整日志：%USERPROFILE%\\.dshell\\dshell-poc.log";

/// The script that makes the frame. Run again in the same document, it shows the frame that is
/// there.
pub const SHIM: &'static str = r##"
(function () {
  // Base64 to UTF-8 text. A bare atob gives one character for each byte, which turns every
  // text that is not ASCII into garbage. This has to stand here: the script runs in a
  // document that it knows nothing of.
  function dec(b64) {
    var bin = atob(b64);
    var bytes = new Uint8Array(bin.length);
    for (var i = 0; i < bin.length; i++) bytes[i] = bin.charCodeAt(i);
    return new TextDecoder("utf-8").decode(bytes);
  }
  var url = dec("__URL__");
  var port = __PORT__;
  var nonce = dec("__NONCE__");
  var base = "http://127.0.0.1:" + port + "/_dshell/" + nonce + "/settings/";
  function beacon(action) {
    try { navigator.sendBeacon(base + action); } catch (e) {}
  }
  var S = window.__dshellSettings;
  if (!S) {
    S = window.__dshellSettings = {
      host: null,
      frame: null,
      open: function () {
        if (this.host) { this.host.style.display = "block"; return; }
        var d = document.createElement("div");
        d.id = "__dshell_settings_host";
        d.setAttribute("style", [
          "position:fixed", "inset:0", "z-index:2147483000",
          "background:#0b0f17", "color-scheme:dark", "margin:0", "padding:0"
        ].join(";") + ";");
        var f = document.createElement("iframe");
        f.id = "__dshell_settings_frame";
        f.setAttribute("title", "DShell 设置");
        f.setAttribute("style", [
          "position:absolute", "inset:0", "width:100%", "height:100%",
          "border:0", "margin:0", "padding:0", "display:block", "background:#0b0f17"
        ].join(";") + ";");
        f.src = url + (url.indexOf("?") < 0 ? "?" : "&") + "b=" + port + "&n=" + nonce;
        d.appendChild(f);
        (document.body || document.documentElement).appendChild(d);
        this.host = d;
        this.frame = f;
      },
      hide: function () {
        if (this.host && this.host.parentNode) this.host.parentNode.removeChild(this.host);
        this.host = null;
        this.frame = null;
      },
      push: function (b64) {
        if (!this.frame || !this.frame.contentWindow) return;
        var json = dec(b64);
        this.frame.contentWindow.postMessage({ __dshell: 1, payload: json }, "*");
      },
      status: function (b64) {
        if (!this.host) return;
        var el = this.host.querySelector("#__dshell_settings_status");
        if (!el) {
          el = document.createElement("div");
          el.id = "__dshell_settings_status";
          el.setAttribute("style", [
            "position:absolute", "left:50%", "top:50%", "transform:translate(-50%,-50%)",
            "max-width:520px", "padding:20px 24px", "border-radius:12px",
            "background:#111827", "color:#e5e7eb", "font:14px/1.7 system-ui,Segoe UI,sans-serif",
            "border:1px solid #374151", "z-index:2"
          ].join(";") + ";");
          this.host.appendChild(el);
        }
        el.textContent = dec(b64);
      }
    };
    // Escape closes the panel also where the focus is outside the frame. Keys pressed in the
    // frame do not come here.
    document.addEventListener("keydown", function (e) {
      if (e.key !== "Escape" || !window.__dshellSettings.host) return;
      e.preventDefault();
      e.stopPropagation();
      beacon("cancel");
    }, true);
  }
  S.open();
})();
"##;

// ───────────────────────── the panel ─────────────────────────

pub struct Panel {
    /// Where the service listens; 0 where it does not.
    pub port: u16,
    /// The secret part of its path.
    pub nonce: Option<String>,
    /// The frame was made, and not taken away since.
    pub open: bool,
    /// The panel reported that it is there.
    pub ready: bool,
    /// The version that the user picked.
    pub selected: Option<String>,
}

/// The panel as a value.
pub struct PanelView {
    pub port: u16,
    pub nonce: Option<Seq<char>>,
    pub open: bool,
    pub ready: bool,
    pub selected: Option<Seq<char>>,
}

impl View for Panel {
    type V = PanelView;

    open spec fn view(&self) -> PanelView {
        PanelView {
            port: self.port,
            nonce: text::option_text(self.nonce),
            open: self.open,
            ready: self.ready,
            selected: text::option_text(self.selected),
        }
    }
}

/// The address of the panel: that of the start page with another file.
pub open spec fn panel_at(splash: Option<Seq<char>>) -> Option<Seq<char>> {
    match splash {
        Some(s) => match text::last_char(s, '/') {
            Some(cut) => Some(s.take(cut) + "/"@ + PANEL_FILE@),
            None => None,
        },
        None => None,
    }
}

/// The script that makes the frame, for this address, port and secret.
pub open spec fn shim_for(url: Seq<char>, port: u16, nonce: Seq<char>) -> Seq<char> {
    text::replaced(
        text::replaced(
            text::replaced(SHIM@, "__URL__"@, page::base64(vstd::utf8::encode_utf8(url))),
            "__PORT__"@,
            text::decimal(port as nat),
        ),
        "__NONCE__"@,
        page::base64(vstd::utf8::encode_utf8(nonce)),
    )
}

fn panel_url(splash: Option<&str>) -> (r: Option<String>)
    ensures
        text::option_text(r) == panel_at(text::option_str(splash)),
{
    match splash {
        Some(s) => {
            let v = text::chars(s);
            match text::rfind_char(v.as_slice(), '/') {
                Some(cut) => {
                    let dir = slice_subrange(v.as_slice(), 0, cut);
                    assert(dir@ =~= s@.take(cut as int));
                    let d = text::text_of(dir);
                    Some(text::cat3(d.as_str(), "/", PANEL_FILE))
                },
                None => None,
            }
        },
        None => None,
    }
}

/// The secret part of the path: 32 hexadecimal digits that cannot be foreseen.
pub fn fresh_nonce(port: u16) -> (r: String)
    ensures
        r@.len() == 32,
        text::every(r@, |c: char| picker::token_char(c)),
{
    picker::fresh_pair((port as u64) * 256, (port as u64) * 256 + 1)
}

impl Panel {
    pub fn new() -> (r: Self)
        ensures
            r@ == (PanelView { port: 0, nonce: None, open: false, ready: false, selected: None }),
    {
        Panel { port: 0, nonce: None, open: false, ready: false, selected: None }
    }

    /// The service listens from now on. The result is the address's port.
    pub fn start(&mut self, port: u16) -> (r: u16)
        ensures
            r == port,
            final(self)@.nonce matches Some(n) && n.len() == 32 && text::every(
                n,
                |c: char| picker::token_char(c),
            ),
            final(self)@ == (PanelView { port, nonce: final(self)@.nonce, ..old(self)@ }),
    {
        self.port = port;
        self.nonce = Some(fresh_nonce(port));
        port
    }

    /// The window shows another document: the frame went with the one before. The result says
    /// whether there was one.
    pub fn reset_for_document(&mut self) -> (r: bool)
        ensures
            r == old(self)@.open,
            final(self)@ == (PanelView { open: false, ready: false, ..old(self)@ }),
    {
        let r = self.open;
        self.open = false;
        self.ready = false;
        r
    }

    /// Opens the panel. The result is the script to run in the window's document, or why it
    /// cannot be.
    pub fn open(&mut self, window: bool, splash: Option<&str>) -> (r: Result<String, &'static str>)
        ensures
            match r {
                Ok(js) => {
                    &&& window
                    &&& panel_at(text::option_str(splash)) is Some
                    &&& old(self)@.nonce is Some
                    &&& js@ == shim_for(
                        panel_at(text::option_str(splash))->0,
                        old(self)@.port,
                        old(self)@.nonce->0,
                    )
                    &&& final(self)@ == (PanelView { open: true, ready: false, ..old(self)@ })
                },
                Err(why) => {
                    &&& final(self)@ == old(self)@
                    &&& if !window {
                        why@ == "settings: main window is gone - cannot open the panel"@
                    } else if panel_at(text::option_str(splash)) is None {
                        why@
                            == "settings: panel url unknown (启动页地址还没记下) - cannot open the panel"@
                    } else {
                        old(self)@.nonce is None && why@
                            == "settings: bridge is not listening - cannot open the panel"@
                    }
                },
            },
    {
        if !window {
            return Err("settings: main window is gone - cannot open the panel");
        }
        match panel_url(splash) {
            None => Err(
                "settings: panel url unknown (启动页地址还没记下) - cannot open the panel",
            ),
            Some(url) => {
                let js = match &self.nonce {
                    None => {
                        return Err("settings: bridge is not listening - cannot open the panel");
                    },
                    Some(nonce) => {
                        proof {
                            reveal_strlit("__URL__");
                            reveal_strlit("__PORT__");
                            reveal_strlit("__NONCE__");
                        }
                        let u = page::b64(url.as_str());
                        let p = text::decimal_text(self.port as u64);
                        let n = page::b64(nonce.as_str());
                        let a = text::replace(SHIM, "__URL__", u.as_str());
                        let b = text::replace(a.as_str(), "__PORT__", p.as_str());
                        text::replace(b.as_str(), "__NONCE__", n.as_str())
                    },
                };
                self.open = true;
                self.ready = false;
                Ok(js)
            },
        }
    }

    /// The time for the panel to report is up. Where it did not, and is still wanted, the
    /// result is the script that says so.
    pub fn overdue(&self) -> (r: Option<String>)
        ensures
            text::option_text(r) == (if self@.open && !self@.ready {
                Some(
                    page::call_with(
                        "window.__dshellSettings&&window.__dshellSettings.status"@,
                        READY_HINT@,
                    ),
                )
            } else {
                None
            }),
    {
        if self.open && !self.ready {
            Some(page::panel_status(READY_HINT))
        } else {
            None
        }
    }

    /// The panel is taken away.
    pub fn put_away(&mut self)
        ensures
            final(self)@ == (PanelView { open: false, ..old(self)@ }),
    {
        self.open = false;
    }

    /// The version that the user picked.
    pub fn selected(&self) -> (r: Option<String>)
        ensures
            text::option_text(r) == self@.selected,
    {
        text::copy_option(&self.selected)
    }

    pub fn set_selected(&mut self, v: Option<String>)
        ensures
            final(self)@ == (PanelView { selected: text::option_text(v), ..old(self)@ }),
    {
        self.selected = v;
    }

    /// The version that the user picked is in use: nothing is picked any more.
    pub fn clear_selection(&mut self)
        ensures
            final(self)@ == (PanelView { selected: None, ..old(self)@ }),
    {
        self.set_selected(None);
    }
}

// ───────────────────────── addresses ─────────────────────────

/// A text up to the first `c`, and what follows it.
pub open spec fn cut_once(s: Seq<char>, c: char) -> (Seq<char>, Option<Seq<char>>) {
    match text::first_char(s, c) {
        Some(i) => (s.take(i), Some(s.skip(i + 1))),
        None => (s, None),
    }
}

fn cut(s: &[char], c: char) -> (r: (&[char], Option<&[char]>))
    ensures
        r.0@ == cut_once(s@, c).0,
        match r.1 {
            Some(t) => cut_once(s@, c).1 == Some(t@),
            None => cut_once(s@, c).1 is None,
        },
{
    match text::find_char(s, c) {
        Some(i) => {
            let head = slice_subrange(s, 0, i);
            let tail = slice_subrange(s, i + 1, s.len());
            assert(head@ =~= s@.take(i as int));
            assert(tail@ =~= s@.skip(i + 1));
            (head, Some(tail))
        },
        None => (s, None),
    }
}

/// What the paths of the service begin with.
pub open spec fn base_path(nonce: Seq<char>) -> Seq<char> {
    "/_dshell/"@ + nonce + "/settings/"@
}

/// What a path asks for: `/_dshell/<nonce>/settings/<action>?<query>`.
pub open spec fn action_at(path: Seq<char>, nonce: Seq<char>) -> Option<
    (Seq<char>, Option<Seq<char>>),
> {
    let (head, query) = cut_once(path, '?');
    match text::behind_prefix(head, base_path(nonce)) {
        Some(action) => if action.len() > 0 {
            Some((action, query))
        } else {
            None
        },
        None => None,
    }
}

/// What a path asks for, as texts.
pub open spec fn asked(r: Option<(String, Option<String>)>) -> Option<
    (Seq<char>, Option<Seq<char>>),
> {
    match r {
        Some(x) => Some((x.0@, text::option_text(x.1))),
        None => None,
    }
}

/// What a path asks for, and with what.
pub fn split_action(path: &str, nonce: &str) -> (r: Option<(String, Option<String>)>)
    ensures
        asked(r) == action_at(path@, nonce@),
{
    let v = text::chars(path);
    let (head, query) = cut(v.as_slice(), '?');
    let base = text::cat3("/_dshell/", nonce, "/settings/");
    let h = text::text_of(head);
    match text::strip_prefix(h.as_str(), base.as_str()) {
        Some(action) => {
            let none = text::same(action.as_str(), "");
            proof {
                reveal_strlit("");
                assert(action@.len() == 0 ==> action@ =~= ""@);
            }
            if none {
                None
            } else {
                let q = match query {
                    Some(t) => Some(text::text_of(t)),
                    None => None,
                };
                Some((action, q))
            }
        },
        None => None,
    }
}

/// The value of the first parameter with a name, as it stands in a query; empty where the
/// name has none.
pub open spec fn param_in(pairs: Seq<Seq<char>>, key: Seq<char>) -> Option<Seq<char>>
    decreases pairs.len(),
{
    if pairs.len() == 0 {
        None
    } else if cut_once(pairs[0], '=').0 == key {
        match cut_once(pairs[0], '=').1 {
            Some(v) => Some(v),
            None => Some(seq![]),
        }
    } else {
        param_in(pairs.skip(1), key)
    }
}

/// The value of a parameter, as it stands in a query.
pub open spec fn raw_param(query: Option<Seq<char>>, key: Seq<char>) -> Option<Seq<char>> {
    match query {
        Some(q) => param_in(text::split(q, '&'), key),
        None => None,
    }
}

/// The value of a parameter, as it stands in a query.
pub fn find_param(query: Option<&str>, key: &str) -> (r: Option<String>)
    ensures
        text::option_text(r) == raw_param(text::option_str(query), key@),
{
    match query {
        None => None,
        Some(q) => {
            let v = text::chars(q);
            let want = text::chars(key);
            let pairs = text::split_char(v.as_slice(), '&');
            let ghost all = text::pieces(pairs@);
            let mut i: usize = 0;
            assert(all.skip(0) =~= all);
            while i < pairs.len()
                invariant
                    i <= pairs.len(),
                    want@ == key@,
                    all == text::pieces(pairs@),
                    param_in(all, key@) == param_in(all.skip(i as int), key@),
                    param_in(all, key@) == raw_param(text::option_str(query), key@),
                decreases pairs.len() - i,
            {
                assert(all.skip(i as int)[0] == pairs@[i as int]@);
                assert(all.skip(i as int).skip(1) =~= all.skip(i + 1));
                let (k, value) = cut(pairs[i], '=');
                if text::same_chars(k, want.as_slice()) {
                    return match value {
                        Some(t) => Some(text::text_of(t)),
                        None => {
                            let none = String::new();
                            assert(none@ =~= seq![]);
                            Some(none)
                        },
                    };
                }
                i = i + 1;
            }
            None
        },
    }
}

// ───────────────────────── percent-encoding ─────────────────────────

/// The value of a hexadecimal digit, in either case.
pub open spec fn nibble(b: u8) -> Option<u8> {
    if 48 <= b <= 57 {
        Some((b - 48) as u8)
    } else if 97 <= b <= 102 {
        Some((b - 87) as u8)
    } else if 65 <= b <= 70 {
        Some((b - 55) as u8)
    } else {
        None
    }
}

/// The byte that an escape at the start of some bytes stands for. Two digits are a number
/// also where the first of them is a plus sign.
pub open spec fn escape_at(b: Seq<u8>) -> Option<u8> {
    if b.len() < 3 || b[0] != 37 {
        None
    } else {
        match (nibble(b[1]), nibble(b[2])) {
            (Some(h), Some(l)) => Some((h * 16 + l) as u8),
            (None, Some(l)) => if b[1] == 43 {
                Some(l)
            } else {
                None
            },
            _ => None,
        }
    }
}

/// Bytes with every escape replaced by what it stands for. What is no escape stays.
pub open spec fn unescaped(b: Seq<u8>) -> Seq<u8>
    decreases b.len(),
{
    if b.len() == 0 {
        seq![]
    } else {
        match escape_at(b) {
            Some(v) => seq![v] + unescaped(b.skip(3)),
            None => seq![b[0]] + unescaped(b.skip(1)),
        }
    }
}

/// No percent sign is followed by two bytes that end inside a character.
pub open spec fn unbroken(b: Seq<u8>) -> bool {
    forall|i: int|
        0 <= i && i + 3 < b.len() && #[trigger] b[i] == 37 ==> !(0x80 <= b[i + 3] < 0xC0)
}

fn nibble_of(b: u8) -> (r: Option<u8>)
    ensures
        r == nibble(b),
        r matches Some(v) ==> v < 16,
{
    if 48 <= b && b <= 57 {
        Some(b - 48)
    } else if 97 <= b && b <= 102 {
        Some(b - 87)
    } else if 65 <= b && b <= 70 {
        Some(b - 55)
    } else {
        None
    }
}

fn escape_of(b: &[u8], i: usize) -> (r: Option<u8>)
    requires
        i < b.len(),
    ensures
        r == escape_at(b@.skip(i as int)),
{
    if b.len() - i < 3 || b[i] != 37 {
        return None;
    }
    match (nibble_of(b[i + 1]), nibble_of(b[i + 2])) {
        (Some(h), Some(l)) => Some(h * 16 + l),
        (None, Some(l)) => if b[i + 1] == 43 {
            Some(l)
        } else {
            None
        },
        _ => None,
    }
}

/// Whether a text can be decoded.
pub fn decodable(s: &str) -> (r: bool)
    ensures
        r == unbroken(vstd::utf8::encode_utf8(s@)),
{
    let b = s.as_bytes();
    let mut i: usize = 0;
    while b.len() >= 4 && i < b.len() - 3
        invariant
            i <= b.len(),
            b@ == vstd::utf8::encode_utf8(s@),
            forall|j: int|
                0 <= j < i && j + 3 < b@.len() && #[trigger] b@[j] == 37 ==> !(0x80 <= b@[j + 3]
                    < 0xC0),
        decreases b.len() - i,
    {
        if b[i] == 37 && 0x80 <= b[i + 3] && b[i + 3] < 0xC0 {
            assert(b@[i as int] == 37);
            return false;
        }
        i = i + 1;
    }
    true
}

proof fn lemma_plain_bytes(b: Seq<u8>)
    requires
        forall|i: int| 0 <= i < b.len() ==> b[i] != 37,
    ensures
        unescaped(b) == b,
    decreases b.len(),
{
    if b.len() > 0 {
        lemma_plain_bytes(b.skip(1));
        assert(seq![b[0]] + b.skip(1) =~= b);
    } else {
        assert(unescaped(b) =~= b);
    }
}

/// A parameter's value decoded. A plus sign stays one: it separates the build of a version.
pub fn percent_decode(s: &str) -> (r: String)
    requires
        unbroken(vstd::utf8::encode_utf8(s@)),
    ensures
        r@ == text::utf8_lossy(unescaped(vstd::utf8::encode_utf8(s@))),
        (forall|i: int|
            0 <= i < vstd::utf8::encode_utf8(s@).len() ==> vstd::utf8::encode_utf8(s@)[i] != 37)
            ==> r@ == s@,
{
    let b = s.as_bytes();
    let mut out: Vec<u8> = Vec::new();
    let mut i: usize = 0;
    assert(b@.skip(0) =~= b@);
    assert(out@ + unescaped(b@.skip(0)) =~= unescaped(b@));
    while i < b.len()
        invariant
            i <= b.len(),
            out@ + unescaped(b@.skip(i as int)) == unescaped(b@),
        decreases b.len() - i,
    {
        let ghost before = out@;
        let ghost rest = b@.skip(i as int);
        match escape_of(b, i) {
            Some(v) => {
                out.push(v);
                assert(rest.skip(3) =~= b@.skip(i + 3));
                i = i + 3;
            },
            None => {
                out.push(b[i]);
                assert(rest.skip(1) =~= b@.skip(i + 1));
                i = i + 1;
            },
        }
        assert(out@ + unescaped(b@.skip(i as int)) =~= before + unescaped(rest));
    }
    assert(unescaped(b@.skip(i as int)) =~= seq![]);
    assert(out@ =~= unescaped(b@));
    proof {
        if forall|k: int| 0 <= k < b@.len() ==> b@[k] != 37 {
            lemma_plain_bytes(b@);
            vstd::utf8::encode_utf8_valid_utf8(s@);
            vstd::utf8::encode_utf8_decode_utf8(s@);
        }
    }
    text::decode_lossy(out.as_slice())
}

/// The value of a parameter, decoded.
pub open spec fn param(query: Option<Seq<char>>, key: Seq<char>) -> Option<Seq<char>> {
    match raw_param(query, key) {
        Some(raw) => Some(text::utf8_lossy(unescaped(vstd::utf8::encode_utf8(raw)))),
        None => None,
    }
}

/// The value of a parameter can be decoded, where it is there.
pub open spec fn param_reads(query: Option<Seq<char>>, key: Seq<char>) -> bool {
    raw_param(query, key) matches Some(raw) ==> unbroken(vstd::utf8::encode_utf8(raw))
}

/// The value of a parameter, decoded.
pub fn query_param(query: Option<&str>, key: &str) -> (r: Option<String>)
    requires
        param_reads(text::option_str(query), key@),
    ensures
        text::option_text(r) == param(text::option_str(query), key@),
{
    match find_param(query, key) {
        Some(raw) => Some(percent_decode(raw.as_str())),
        None => None,
    }
}

// ───────────────────────── requests ─────────────────────────

/// A request may come from the start page, or from a page that the backend serves.
pub open spec fn own_origin(origin: Option<Seq<char>>) -> bool {
    match origin {
        Some(o) => {
            let t = text::lower(text::trimmed(o));
            text::starts(t, "http://127.0.0.1:"@) || text::starts(t, "http://localhost:"@) || t
                == "http://tauri.localhost"@
        },
        None => false,
    }
}

/// Whether a request comes from a page of ours.
pub fn origin_allowed(origin: Option<&str>) -> (r: bool)
    ensures
        r == own_origin(text::option_str(origin)),
{
    match origin {
        Some(o) => {
            let v = text::chars(o);
            let t = text::to_lower(text::trim(v.as_slice()));
            let loopback = text::chars("http://127.0.0.1:");
            let local = text::chars("http://localhost:");
            let start = text::chars("http://tauri.localhost");
            text::starts_with(t.as_slice(), loopback.as_slice()) || text::starts_with(
                t.as_slice(),
                local.as_slice(),
            ) || text::same_chars(t.as_slice(), start.as_slice())
        },
        None => false,
    }
}

/// What a request has the shell do.
pub enum Act {
    Nothing,
    /// Send the ledger.
    Push,
    /// Ask the registry again, and send the ledger.
    Refresh,
    /// Send the notes of a version.
    Notes(String),
    /// Take the panel away.
    Close,
    /// Replace the backend by a version.
    Switch(String),
}

/// What a request has the shell do, as a value.
pub enum ActView {
    Nothing,
    Push,
    Refresh,
    Notes(Seq<char>),
    Close,
    Switch(Seq<char>),
}

impl View for Act {
    type V = ActView;

    open spec fn view(&self) -> ActView {
        match self {
            Act::Nothing => ActView::Nothing,
            Act::Push => ActView::Push,
            Act::Refresh => ActView::Refresh,
            Act::Notes(v) => ActView::Notes(v@),
            Act::Close => ActView::Close,
            Act::Switch(v) => ActView::Switch(v@),
        }
    }
}

/// The actions that are asked for with a version.
pub open spec fn with_version(action: Seq<char>) -> bool {
    action == "notes"@ || action == "apply"@ || action == "switch"@
}

/// What comes of a request.
pub struct Handled {
    pub status: u16,
    pub reason: Seq<char>,
    pub body: Seq<char>,
    pub act: ActView,
    /// The panel after it.
    pub panel: PanelView,
}

impl PanelView {
    pub open spec fn refuse(self, status: u16, reason: Seq<char>, body: Seq<char>) -> Handled {
        Handled { status, reason, body, act: ActView::Nothing, panel: self }
    }

    pub open spec fn accept(self, act: ActView, panel: PanelView) -> Handled {
        Handled { status: 200, reason: "OK"@, body: "{\"ok\":true}"@, act, panel }
    }

    /// What comes of a request for an action of this service from a page of ours, with the
    /// version that it names.
    pub open spec fn acted(self, action: Seq<char>, version: Option<Seq<char>>) -> Handled {
        if action == "ready"@ {
            self.accept(ActView::Push, PanelView { ready: true, ..self })
        } else if action == "refresh"@ {
            self.accept(ActView::Refresh, self)
        } else if action == "notes"@ {
            match version {
                Some(v) => self.accept(ActView::Notes(v), self),
                None => self.refuse(
                    400,
                    "Bad Request"@,
                    "{\"ok\":false,\"error\":\"version required\"}"@,
                ),
            }
        } else if action == "cancel"@ {
            self.accept(ActView::Close, PanelView { selected: None, open: false, ..self })
        } else if action == "apply"@ {
            let selected = match version {
                Some(v) => if v.len() > 0 {
                    Some(v)
                } else {
                    None
                },
                None => None,
            };
            self.accept(ActView::Close, PanelView { selected, open: false, ..self })
        } else if action == "switch"@ {
            match version {
                Some(v) => if installer::acceptable(v) {
                    self.accept(ActView::Switch(v), self)
                } else {
                    self.refuse(
                        400,
                        "Bad Request"@,
                        "{\"ok\":false,\"error\":\"invalid version\"}"@,
                    )
                },
                None => self.refuse(
                    400,
                    "Bad Request"@,
                    "{\"ok\":false,\"error\":\"version required\"}"@,
                ),
            }
        } else {
            self.refuse(404, "Not Found"@, "{\"ok\":false,\"error\":\"unknown action\"}"@)
        }
    }

    /// What comes of a request.
    pub open spec fn handled(
        self,
        method: Seq<char>,
        path: Seq<char>,
        origin: Option<Seq<char>>,
    ) -> Handled {
        if method != "POST"@ {
            self.refuse(
                405,
                "Method Not Allowed"@,
                "{\"ok\":false,\"error\":\"method not allowed\"}"@,
            )
        } else if self.nonce is None {
            self.refuse(
                503,
                "Service Unavailable"@,
                "{\"ok\":false,\"error\":\"bridge not ready\"}"@,
            )
        } else {
            match action_at(path, self.nonce->0) {
                None => self.refuse(404, "Not Found"@, "{\"ok\":false,\"error\":\"not found\"}"@),
                Some((action, query)) => if !own_origin(origin) {
                    self.refuse(403, "Forbidden"@, "{\"ok\":false,\"error\":\"forbidden\"}"@)
                } else {
                    self.acted(action, param(query, "version"@))
                },
            }
        }
    }

    /// The version that a request names can be decoded, where the request is one that is
    /// asked for it.
    pub open spec fn reads(
        self,
        method: Seq<char>,
        path: Seq<char>,
        origin: Option<Seq<char>>,
    ) -> bool {
        method == "POST"@ && self.nonce is Some && own_origin(origin) ==> match action_at(
            path,
            self.nonce->0,
        ) {
            Some((action, query)) => with_version(action) ==> param_reads(query, "version"@),
            None => true,
        }
    }
}

fn takes_version(action: &str) -> (r: bool)
    ensures
        r == with_version(action@),
{
    text::same(action, "notes") || text::same(action, "apply") || text::same(action, "switch")
}

proof fn lemma_version_matters_where_taken(
    p: PanelView,
    action: Seq<char>,
    a: Option<Seq<char>>,
    b: Option<Seq<char>>,
)
    requires
        with_version(action) ==> a == b,
    ensures
        p.acted(action, a) == p.acted(action, b),
{
}

fn opt(s: &Option<String>) -> (r: Option<&str>)
    ensures
        text::option_str(r) == text::option_text(*s),
{
    match s {
        Some(t) => Some(t.as_str()),
        None => None,
    }
}

impl Panel {
    /// Whether the version that a request names can be decoded, where the request is one that
    /// is asked for it.
    pub fn readable(&self, q: &Request) -> (r: bool)
        ensures
            r == self@.reads(q.method@, q.path@, text::option_text(q.origin)),
    {
        if !text::same(q.method.as_str(), "POST") || !origin_allowed(opt(&q.origin)) {
            return true;
        }
        match &self.nonce {
            None => true,
            Some(nonce) => match split_action(q.path.as_str(), nonce.as_str()) {
                None => true,
                Some((action, query)) => {
                    if takes_version(action.as_str()) {
                        match find_param(opt(&query), "version") {
                            Some(raw) => decodable(raw.as_str()),
                            None => true,
                        }
                    } else {
                        true
                    }
                },
            },
        }
    }

    /// What comes of a request for an action from a page of ours, with the version that it
    /// names.
    pub fn act(&mut self, action: &str, version: Option<String>) -> (r: (Reply, Act))
        ensures
            ({
                let h = old(self)@.acted(action@, text::option_text(version));
                &&& picker::replies(r.0, h.status, h.reason, h.body)
                &&& r.1@ == h.act
                &&& final(self)@ == h.panel
            }),
    {
        let fine = Reply::new(200, "OK", "{\"ok\":true}");
        if text::same(action, "ready") {
            self.ready = true;
            (fine, Act::Push)
        } else if text::same(action, "refresh") {
            (fine, Act::Refresh)
        } else if text::same(action, "notes") {
            match version {
                Some(v) => (fine, Act::Notes(v)),
                None => (
                    Reply::new(
                        400,
                        "Bad Request",
                        "{\"ok\":false,\"error\":\"version required\"}",
                    ),
                    Act::Nothing,
                ),
            }
        } else if text::same(action, "cancel") {
            self.selected = None;
            self.put_away();
            (fine, Act::Close)
        } else if text::same(action, "apply") {
            self.selected = match version {
                Some(v) => {
                    let none = text::same(v.as_str(), "");
                    proof {
                        reveal_strlit("");
                        assert(v@.len() == 0 ==> v@ =~= ""@);
                    }
                    if none {
                        None
                    } else {
                        Some(v)
                    }
                },
                None => None,
            };
            self.put_away();
            (fine, Act::Close)
        } else if text::same(action, "switch") {
            match version {
                Some(v) => if installer::valid_version(v.as_str()) {
                    (fine, Act::Switch(v))
                } else {
                    (
                        Reply::new(
                            400,
                            "Bad Request",
                            "{\"ok\":false,\"error\":\"invalid version\"}",
                        ),
                        Act::Nothing,
                    )
                },
                None => (
                    Reply::new(
                        400,
                        "Bad Request",
                        "{\"ok\":false,\"error\":\"version required\"}",
                    ),
                    Act::Nothing,
                ),
            }
        } else {
            (
                Reply::new(404, "Not Found", "{\"ok\":false,\"error\":\"unknown action\"}"),
                Act::Nothing,
            )
        }
    }

    /// What comes of a request.
    pub fn handle(&mut self, q: &Request) -> (r: (Reply, Act))
        requires
            old(self)@.reads(q.method@, q.path@, text::option_text(q.origin)),
        ensures
            ({
                let h = old(self)@.handled(q.method@, q.path@, text::option_text(q.origin));
                &&& picker::replies(r.0, h.status, h.reason, h.body)
                &&& r.1@ == h.act
                &&& final(self)@ == h.panel
            }),
    {
        if !text::same(q.method.as_str(), "POST") {
            return (
                Reply::new(
                    405,
                    "Method Not Allowed",
                    "{\"ok\":false,\"error\":\"method not allowed\"}",
                ),
                Act::Nothing,
            );
        }
        let found = match &self.nonce {
            None => {
                return (
                    Reply::new(
                        503,
                        "Service Unavailable",
                        "{\"ok\":false,\"error\":\"bridge not ready\"}",
                    ),
                    Act::Nothing,
                );
            },
            Some(nonce) => split_action(q.path.as_str(), nonce.as_str()),
        };
        match found {
            None => (
                Reply::new(404, "Not Found", "{\"ok\":false,\"error\":\"not found\"}"),
                Act::Nothing,
            ),
            Some((action, query)) => {
                if !origin_allowed(opt(&q.origin)) {
                    return (
                        Reply::new(403, "Forbidden", "{\"ok\":false,\"error\":\"forbidden\"}"),
                        Act::Nothing,
                    );
                }
                let version = if takes_version(action.as_str()) {
                    query_param(opt(&query), "version")
                } else {
                    None
                };
                proof {
                    lemma_version_matters_where_taken(
                        self@,
                        action@,
                        text::option_text(version),
                        param(text::option_text(query), "version"@),
                    );
                }
                self.act(action.as_str(), version)
            },
        }
    }
}

// ───────────────────────── messages ─────────────────────────

/// A message to the panel.
pub enum Message {
    Data(Catalog),
    Error(String),
    RefreshError(String),
    Notes(Note),
    /// There is no release for this version.
    NotesMissing(String),
    /// The version, and why its notes could not be had.
    NotesError(String, String),
}

impl Message {
    pub open spec fn named(self) -> Seq<char> {
        match self {
            Message::Data(_) => "data"@,
            Message::Error(_) => "error"@,
            Message::RefreshError(_) => "refresh_error"@,
            Message::Notes(_) => "notes"@,
            Message::NotesMissing(_) => "notes_missing"@,
            Message::NotesError(_, _) => "notes_error"@,
        }
    }

    /// The name by which the panel tells messages apart.
    pub fn kind(&self) -> (r: &'static str)
        ensures
            r@ == self.named(),
    {
        match self {
            Message::Data(_) => "data",
            Message::Error(_) => "error",
            Message::RefreshError(_) => "refresh_error",
            Message::Notes(_) => "notes",
            Message::NotesMissing(_) => "notes_missing",
            Message::NotesError(_, _) => "notes_error",
        }
    }
}

/// The ledger, or why there is none. The result also says whether the registry is to be asked
/// again, because the ledger is out of date.
pub fn push_data(catalog: Result<Catalog, String>) -> (r: (Message, bool))
    ensures
        match catalog {
            Ok(c) => r.0 == Message::Data(c) && r.1 == c.registry_stale,
            Err(e) => r.0 == Message::Error(e) && !r.1,
        },
{
    match catalog {
        Ok(c) => {
            let stale = c.registry_stale;
            (Message::Data(c), stale)
        },
        Err(e) => (Message::Error(e), false),
    }
}

/// The registry was asked again because the user wanted it. Where that failed the user is told
/// why, and keeps the list; else the ledger follows.
pub fn push_data_forced(refreshed: Result<(), String>) -> (r: Option<Message>)
    ensures
        match refreshed {
            Ok(_) => r is None,
            Err(e) => r == Some(Message::RefreshError(e)),
        },
{
    match refreshed {
        Ok(_) => None,
        Err(e) => Some(Message::RefreshError(e)),
    }
}

/// The notes of a version, that it has none, or why they could not be had.
pub fn push_notes(version: String, found: Result<Option<Note>, String>) -> (r: Message)
    ensures
        r == (match found {
            Ok(Some(note)) => Message::Notes(note),
            Ok(None) => Message::NotesMissing(version),
            Err(e) => Message::NotesError(version, e),
        }),
{
    match found {
        Ok(Some(note)) => Message::Notes(note),
        Ok(None) => Message::NotesMissing(version),
        Err(e) => Message::NotesError(version, e),
    }
}

// ───────────────────────── laws ─────────────────────────

/// A request that is refused changes nothing and has nothing done.
pub proof fn law_refusals_change_nothing(
    p: PanelView,
    method: Seq<char>,
    path: Seq<char>,
    origin: Option<Seq<char>>,
)
    ensures
        p.handled(method, path, origin).status != 200 ==> p.handled(method, path, origin).panel
            == p && p.handled(method, path, origin).act is Nothing,
{
}

/// Only a request that is posted, that knows the secret part of the path and that comes from a
/// page of ours is heard.
pub proof fn law_only_our_pages_are_heard(
    p: PanelView,
    method: Seq<char>,
    path: Seq<char>,
    origin: Option<Seq<char>>,
)
    ensures
        p.handled(method, path, origin).status == 200 ==> method == "POST"@ && own_origin(origin)
            && p.nonce is Some && text::starts(path, base_path(p.nonce->0)),
{
    if p.nonce is Some {
        let base = base_path(p.nonce->0);
        let (head, query) = cut_once(path, '?');
        text::lemma_first_char_from(path, '?', 0);
        if text::starts(head, base) {
            assert(path.subrange(0, base.len() as int) =~= head.subrange(0, base.len() as int));
        }
    }
}

/// A version reaches the command line of an installation only where it is acceptable there:
/// any other is refused before anything is stopped.
pub proof fn law_only_acceptable_versions_are_switched_to(
    p: PanelView,
    method: Seq<char>,
    path: Seq<char>,
    origin: Option<Seq<char>>,
)
    ensures
        p.handled(method, path, origin).act matches ActView::Switch(v) ==> installer::acceptable(v),
{
}

/// What the user cancels is forgotten, what the user confirms is kept, and either takes the
/// panel away.
pub proof fn law_cancel_forgets_and_apply_keeps(p: PanelView, version: Seq<char>)
    requires
        version.len() > 0,
    ensures
        p.acted("cancel"@, Some(version)).panel.selected is None,
        !p.acted("cancel"@, Some(version)).panel.open,
        p.acted("apply"@, Some(version)).panel.selected == Some(version),
        !p.acted("apply"@, Some(version)).panel.open,
        p.acted("cancel"@, Some(version)).act is Close,
        p.acted("apply"@, Some(version)).act is Close,
{
    reveal_strlit("ready");
    reveal_strlit("refresh");
    reveal_strlit("notes");
    reveal_strlit("cancel");
    reveal_strlit("apply");
    assert("cancel"@[0] != "ready"@[0] && "cancel"@[0] != "refresh"@[0] && "cancel"@[0]
        != "notes"@[0]);
    assert("apply"@[0] != "ready"@[0] && "apply"@[0] != "refresh"@[0] && "apply"@[0]
        != "notes"@[0] && "apply"@[0] != "cancel"@[0]);
}

/// A byte that a browser leaves as it is in the value of a parameter.
pub open spec fn unreserved(b: u8) -> bool {
    48 <= b <= 57 || 65 <= b <= 90 || 97 <= b <= 122 || b == 45 || b == 95 || b == 46 || b == 33
        || b == 126 || b == 42 || b == 39 || b == 40 || b == 41
}

/// An upper-case hexadecimal digit.
pub open spec fn digit_for(n: u8) -> u8 {
    if n < 10 {
        (n + 48) as u8
    } else {
        (n + 55) as u8
    }
}

/// Bytes as a browser writes them in the value of a parameter.
pub open spec fn component(b: Seq<u8>) -> Seq<u8>
    decreases b.len(),
{
    if b.len() == 0 {
        seq![]
    } else if unreserved(b[0]) {
        seq![b[0]] + component(b.skip(1))
    } else {
        seq![37u8, digit_for(b[0] / 16), digit_for(b[0] % 16)] + component(b.skip(1))
    }
}

/// What a browser writes in the value of a parameter is read back as it was, and can always
/// be decoded.
pub proof fn law_parameters_are_read_back(b: Seq<u8>)
    ensures
        unescaped(component(b)) == b,
        unbroken(component(b)),
    decreases b.len(),
{
    lemma_component_is_ascii(b);
    if b.len() == 0 {
        assert(unescaped(component(b)) =~= b);
    } else {
        law_parameters_are_read_back(b.skip(1));
        let rest = component(b.skip(1));
        let whole = component(b);
        if unreserved(b[0]) {
            assert(whole.skip(1) =~= rest);
        } else {
            assert(whole.skip(3) =~= rest);
            assert(nibble(digit_for(b[0] / 16)) == Some((b[0] / 16) as u8));
            assert(nibble(digit_for(b[0] % 16)) == Some((b[0] % 16) as u8));
            assert(((b[0] / 16) * 16 + b[0] % 16) as u8 == b[0]);
            assert(whole[1] == digit_for(b[0] / 16) && whole[2] == digit_for(b[0] % 16));
            assert(escape_at(whole) == Some(b[0]));
        }
        assert(seq![b[0]] + b.skip(1) =~= b);
    }
}

proof fn lemma_component_is_ascii(b: Seq<u8>)
    ensures
        forall|i: int| 0 <= i < component(b).len() ==> component(b)[i] < 0x80,
    decreases b.len(),
{
    if b.len() > 0 {
        lemma_component_is_ascii(b.skip(1));
        let rest = component(b.skip(1));
        let whole = component(b);
        let n = whole.len() - rest.len();
        assert forall|i: int| 0 <= i < whole.len() implies whole[i] < 0x80 by {
            if i >= n {
                assert(whole[i] == rest[i - n]);
            }
        }
    }
}

proof fn lemma_base_is_plain(nonce: Seq<char>)
    requires
        !nonce.contains('?'),
    ensures
        !base_path(nonce).contains('?'),
{
    reveal_strlit("/_dshell/");
    reveal_strlit("/settings/");
    let a = "/_dshell/"@;
    let c = "/settings/"@;
    let base = a + nonce + c;
    assert forall|i: int| 0 <= i < base.len() implies base[i] != '?' by {
        if i < a.len() {
            assert(base[i] == a[i]);
        } else if i < a.len() + nonce.len() {
            assert(base[i] == nonce[i - a.len()]);
        } else {
            assert(base[i] == c[i - a.len() - nonce.len()]);
        }
    }
}

proof fn lemma_joined_plain(a: Seq<char>, b: Seq<char>, c: char)
    requires
        !a.contains(c),
        !b.contains(c),
    ensures
        !(a + b).contains(c),
{
    assert forall|i: int| 0 <= i < (a + b).len() implies (a + b)[i] != c by {
        if i < a.len() {
            assert((a + b)[i] == a[i]);
        } else {
            assert((a + b)[i] == b[i - a.len()]);
        }
    }
}

/// A request at the panel's secret path is for the action that stands behind it, up to a
/// question mark, and has what follows that as its query.
pub proof fn law_actions_stand_behind_the_secret(
    nonce: Seq<char>,
    action: Seq<char>,
    query: Seq<char>,
)
    requires
        !nonce.contains('?'),
        !action.contains('?'),
        action.len() > 0,
    ensures
        action_at("/_dshell/"@ + nonce + "/settings/"@ + action, nonce) == Some(
            (action, None::<Seq<char>>),
        ),
        action_at("/_dshell/"@ + nonce + "/settings/"@ + action + seq!['?'] + query, nonce)
            == Some((action, Some(query))),
        action_at("/_dshell/"@ + nonce + "/settings/"@, nonce) is None,
{
    let base = base_path(nonce);
    let head = base + action;
    lemma_base_is_plain(nonce);
    lemma_joined_plain(base, action, '?');
    lemma_cut(head, '?', query);
    lemma_cut(base, '?', query);
    text::law_prefix_is_taken_off(base, action, Seq::empty());
    text::law_prefix_is_taken_off(base, Seq::empty(), Seq::empty());
    assert(base + Seq::<char>::empty() =~= base);
}

/// A path that does not begin with the secret one is for no action.
pub proof fn law_other_paths_are_for_no_action(nonce: Seq<char>, path: Seq<char>)
    requires
        !(("/_dshell/"@ + nonce + "/settings/"@).is_prefix_of(path)),
    ensures
        action_at(path, nonce) is None,
{
    let base = base_path(nonce);
    let h = cut_once(path, '?').0;
    text::lemma_first_char_from(path, '?', 0);
    if text::starts(h, base) {
        assert(h.subrange(0, base.len() as int) =~= base);
        assert(path.subrange(0, base.len() as int) =~= base);
    }
}

/// Only pages of the local machine and the start page are heard: `http` to 127.0.0.1 or
/// localhost with a port, or tauri.localhost itself, however they are cased.
pub proof fn law_only_local_origins_are_heard(origin: Option<&str>, r: bool)
    requires
        call_ensures(origin_allowed, (origin,), r),
    ensures
        origin is None ==> !r,
        origin matches Some(o) ==> (r <==> "http://127.0.0.1:"@.is_prefix_of(
            text::lower(text::trimmed(o@)),
        ) || "http://localhost:"@.is_prefix_of(text::lower(text::trimmed(o@))) || text::lower(
            text::trimmed(o@),
        ) == "http://tauri.localhost"@),
{
    if let Some(o) = origin {
        let t = text::lower(text::trimmed(o@));
        lemma_starts_prefix(t, "http://127.0.0.1:"@);
        lemma_starts_prefix(t, "http://localhost:"@);
    }
}

proof fn lemma_starts_prefix(s: Seq<char>, p: Seq<char>)
    ensures
        text::starts(s, p) <==> p.is_prefix_of(s),
{
    if p.is_prefix_of(s) {
        assert(s.subrange(0, p.len() as int) =~= p);
    }
    if text::starts(s, p) {
        assert(p =~= s.subrange(0, p.len() as int));
    }
}

proof fn lemma_cut(a: Seq<char>, c: char, b: Seq<char>)
    requires
        !a.contains(c),
    ensures
        cut_once(a, c) == (a, None::<Seq<char>>),
        cut_once(a + seq![c] + b, c) == (a, Some(b)),
{
    text::lemma_first_char_from(a, c, 0);
    let s = a + seq![c] + b;
    text::lemma_first_char_from(s, c, 0);
    assert(s[a.len() as int] == c);
    assert forall|i: int| 0 <= i < a.len() implies s[i] != c by {
        assert(s[i] == a[i]);
    }
    assert(text::first_char(s, c) == Some(a.len() as int));
    assert(s.take(a.len() as int) =~= a);
    assert(s.skip((a.len() + 1) as int) =~= b);
}

/// A parameter is what stands behind its name and an equals sign, up to an ampersand; one
/// without an equals sign is empty. The first of a name counts, and others do not touch it.
#[verifier::rlimit(50)]
pub proof fn law_parameters_are_found_by_name(
    key: Seq<char>,
    value: Seq<char>,
    other: Seq<char>,
    rest: Seq<char>,
)
    requires
        !key.contains('=') && !key.contains('&'),
        !value.contains('&'),
        !other.contains('&'),
        !other.contains('='),
        other != key,
    ensures
        raw_param(Some(key + seq!['='] + value), key) == Some(value),
        raw_param(Some(key + seq!['='] + value + seq!['&'] + rest), key) == Some(value),
        raw_param(Some(key), key) == Some(Seq::<char>::empty()),
        raw_param(Some(other + seq!['='] + value + seq!['&'] + rest), key) == raw_param(
            Some(rest),
            key,
        ),
        raw_param(Some(other + seq!['='] + value), key) is None,
        raw_param(None, key) is None,
{
    let a = key + seq!['='] + value;
    let b = other + seq!['='] + value;
    lemma_cut(key, '=', value);
    lemma_cut(other, '=', value);
    assert forall|i: int| 0 <= i < a.len() implies a[i] != '&' by {
        if i < key.len() {
            assert(a[i] == key[i]);
        } else if i > key.len() {
            assert(a[i] == value[i - key.len() - 1]);
        }
    }
    assert forall|i: int| 0 <= i < b.len() implies b[i] != '&' by {
        if i < other.len() {
            assert(b[i] == other[i]);
        } else if i > other.len() {
            assert(b[i] == value[i - other.len() - 1]);
        }
    }
    text::law_pieces_lie_between_the_cuts(a, '&', rest);
    text::law_pieces_lie_between_the_cuts(b, '&', rest);
    text::law_pieces_lie_between_the_cuts(key, '&', rest);
    let more = text::split(rest, '&');
    assert((seq![b] + more).skip(1) =~= more);
    assert(seq![b].skip(1) =~= Seq::<Seq<char>>::empty());
    assert(param_in(Seq::<Seq<char>>::empty(), key) is None);
    assert((seq![a] + more)[0] == a);
    assert((seq![b] + more)[0] == b);
    assert(seq![a][0] == a && seq![b][0] == b && seq![key][0] == key);
}

/// A byte that begins no escape stands for itself; a per cent sign with two hexadecimal digits
/// behind it, in capitals or not, stands for the byte that they write.
pub proof fn law_escapes_are_two_digits(b: u8, h: u8, l: u8, rest: Seq<u8>)
    requires
        h < 16,
        l < 16,
    ensures
        unescaped(Seq::<u8>::empty()) == Seq::<u8>::empty(),
        b != 37 ==> unescaped(seq![b] + rest) == seq![b] + unescaped(rest),
        unescaped(seq![37u8, digit_for(h), digit_for(l)] + rest) == seq![(h * 16 + l) as u8]
            + unescaped(rest),
        h >= 10 ==> unescaped(seq![37u8, (h + 87) as u8, digit_for(l)] + rest) == seq![
            (h * 16 + l) as u8,
        ] + unescaped(rest),
        unescaped(seq![37u8, 43u8, digit_for(l)] + rest) == seq![l] + unescaped(rest),
        nibble(b) is None && b != 43 ==> unescaped(seq![37u8, b] + rest) == seq![37u8] + unescaped(
            seq![b] + rest,
        ),
{
    let plus = seq![37u8, 43u8, digit_for(l)] + rest;
    assert(plus.skip(3) =~= rest);
    assert(plus[0] == 37 && plus[1] == 43 && plus[2] == digit_for(l));
    let odd = seq![37u8, b] + rest;
    assert(odd.skip(1) =~= seq![b] + rest);
    assert(odd[0] == 37 && odd[1] == b);
    assert((seq![b] + rest).skip(1) =~= rest);
    let s = seq![37u8, digit_for(h), digit_for(l)] + rest;
    assert(s.skip(3) =~= rest);
    assert(s[0] == 37 && s[1] == digit_for(h) && s[2] == digit_for(l));
    let t = seq![37u8, (h + 87) as u8, digit_for(l)] + rest;
    assert(t.skip(3) =~= rest);
    assert(t[0] == 37 && t[1] == (h + 87) as u8 && t[2] == digit_for(l));
}

/// What the panel may ask for: to be sent the ledger, anew or not, and the notes of a version;
/// to go away, with the picked version or without; to switch to a version. Anything else is
/// not known, and a version that is needed has to be given.
#[verifier::rlimit(50)]
pub proof fn law_panel_acts_as_asked()
    ensures
        forall|p: &mut Panel, action: &str, version: Option<String>, r: (Reply, Act)| #[trigger]
            call_ensures(Panel::act, (p, action, version), r) ==> {
                let v = text::option_text(version);
                &&& action@ == "ready"@ ==> r.0.status == 200 && r.1 is Push && final(p)@ == (
                PanelView { ready: true, ..(*p)@ })
                &&& action@ == "refresh"@ ==> r.0.status == 200 && r.1 is Refresh && final(p)@
                    == (*p)@
                &&& action@ == "notes"@ && v is Some ==> r.0.status == 200 && (r.1 matches Act::Notes(
                    x,
                ) && Some(x@) == v) && final(p)@ == (*p)@
                &&& action@ == "cancel"@ ==> r.0.status == 200 && r.1 is Close && final(p)@ == (
                PanelView { selected: None, open: false, ..(*p)@ })
                &&& action@ == "apply"@ && v is Some && v->Some_0.len() > 0 ==> r.0.status == 200
                    && r.1 is Close && final(p)@ == (PanelView { selected: v, open: false, ..(*p)@ })
                &&& action@ == "apply"@ && (v is None || v->Some_0.len() == 0) ==> r.0.status == 200
                    && r.1 is Close && final(p)@ == (PanelView {
                    selected: None,
                    open: false,
                    ..(*p)@
                })
                &&& action@ == "switch"@ && v is Some && installer::acceptable(v->Some_0)
                    ==> r.0.status == 200 && (r.1 matches Act::Switch(x) && Some(x@) == v)
                    && final(p)@ == (*p)@
                &&& action@ == "switch"@ && (v is None || !installer::acceptable(v->Some_0))
                    ==> r.0.status == 400
                &&& action@ == "notes"@ && v is None ==> r.0.status == 400
                &&& action@ != "ready"@ && action@ != "refresh"@ && action@ != "notes"@ && action@
                    != "cancel"@ && action@ != "apply"@ && action@ != "switch"@ ==> r.0.status
                    == 404
                &&& r.0.status != 200 ==> r.1 is Nothing && final(p)@ == (*p)@
            },
{
    reveal_strlit("ready");
    reveal_strlit("refresh");
    reveal_strlit("notes");
    reveal_strlit("cancel");
    reveal_strlit("apply");
    reveal_strlit("switch");
    assert("ready"@[0] != "notes"@[0] && "apply"@[0] != "notes"@[0] && "ready"@[0] != "apply"@[0]);
    assert("refresh"@.len() == 7 && "cancel"@.len() == 6 && "switch"@.len() == 6
        && "ready"@.len() == 5);
    assert("cancel"@[0] != "switch"@[0]);
}

/// A request is answered by what stands in its way first: it has to be a `POST`, the service
/// has to have a secret, the path has to be the secret one, and the page one of ours. Only
/// what passes all of these is acted on, with the version of its query.
#[verifier::rlimit(50)]
pub proof fn law_requests_pass_in_turn()
    ensures
        forall|p: &mut Panel, q: &Request, r: (Reply, Act)| #[trigger]
            call_ensures(Panel::handle, (p, q), r) && (*p)@.reads(
                q.method@,
                q.path@,
                text::option_text(q.origin),
            ) ==> {
                let n = (*p)@.nonce;
                let origin = text::option_text(q.origin);
                &&& q.method@ != "POST"@ ==> r.0.status == 405
                &&& q.method@ == "POST"@ && n is None ==> r.0.status == 503
                &&& q.method@ == "POST"@ && n is Some && action_at(q.path@, n->Some_0) is None
                    ==> r.0.status == 404
                &&& q.method@ == "POST"@ && n is Some && action_at(q.path@, n->Some_0) is Some
                    && !own_origin(origin) ==> r.0.status == 403
                &&& q.method@ == "POST"@ && n is Some && (action_at(q.path@, n->Some_0) matches
                    Some(a) && own_origin(origin) && a.0 == "ready"@) ==> r.0.status == 200
                    && final(p)@.ready
                &&& q.method@ == "POST"@ && n is Some && (action_at(q.path@, n->Some_0) matches
                    Some(a) && own_origin(origin) && a.0 == "refresh"@) ==> r.0.status == 200
                    && r.1 is Refresh
                &&& q.method@ == "POST"@ && n is Some && (action_at(q.path@, n->Some_0) matches
                    Some(a) && own_origin(origin) && a.0 == "cancel"@) ==> r.0.status == 200
                    && !final(p)@.open && final(p)@.selected is None
                &&& r.0.status == 405 || r.0.status == 503 || r.0.status == 404 || r.0.status == 403
                    ==> r.1 is Nothing && final(p)@ == (*p)@
                &&& r.1 is Switch || r.1 is Notes || r.1 is Close || r.1 is Push || r.1 is Refresh
                    ==> q.method@ == "POST"@ && n is Some && own_origin(origin) && action_at(
                    q.path@,
                    n->Some_0,
                ) is Some
                &&& r.1 matches Act::Switch(v) ==> param(
                    action_at(q.path@, n->Some_0)->Some_0.1,
                    "version"@,
                ) == Some(v@) && action_at(q.path@, n->Some_0)->Some_0.0 == "switch"@
            },
{
    reveal_strlit("ready");
    reveal_strlit("refresh");
    reveal_strlit("notes");
    reveal_strlit("cancel");
    reveal_strlit("apply");
    reveal_strlit("switch");
    assert("ready"@[0] != "notes"@[0] && "apply"@[0] != "notes"@[0] && "ready"@[0] != "apply"@[0]);
    assert("refresh"@.len() == 7 && "cancel"@.len() == 6 && "switch"@.len() == 6
        && "ready"@.len() == 5);
    assert("cancel"@[0] != "switch"@[0]);
}

/// The panel lies beside the start page: its address is that of the start page up to the last
/// slash, with its own file behind it.
pub proof fn law_panel_lies_beside_the_start_page(dir: Seq<char>, file: Seq<char>)
    requires
        !file.contains('/'),
    ensures
        panel_at(Some(dir + seq!['/'] + file)) == Some(dir + "/settings.html"@),
        panel_at(Some(file)) is None,
        panel_at(None) is None,
{
    let s = dir + seq!['/'] + file;
    let i = dir.len() as int;
    assert(s[i] == '/');
    assert forall|j: int| i < j < s.len() implies s[j] != '/' by {
        assert(s[j] == file[j - i - 1]);
    }
    lemma_last_slash(s, i, s.len() as int);
    assert(s.take(i) =~= dir);
    reveal_strlit("/");
    reveal_strlit("settings.html");
    reveal_strlit("/settings.html");
    assert(dir + "/"@ + "settings.html"@ =~= dir + "/settings.html"@);
    lemma_no_slash(file, file.len() as int);
}

proof fn lemma_last_slash(s: Seq<char>, i: int, upto: int)
    requires
        0 <= i < upto <= s.len(),
        s[i] == '/',
        forall|j: int| i < j < upto ==> s[j] != '/',
    ensures
        text::last_char_before(s, '/', upto) == Some(i),
    decreases upto - i,
{
    if upto - 1 > i {
        lemma_last_slash(s, i, upto - 1);
    }
}

proof fn lemma_no_slash(s: Seq<char>, upto: int)
    requires
        0 <= upto <= s.len(),
        !s.contains('/'),
    ensures
        text::last_char_before(s, '/', upto) is None,
    decreases upto,
{
    if upto > 0 {
        assert(s.contains(s[upto - 1]));
        lemma_no_slash(s, upto - 1);
    }
}

/// The panel is opened exactly where there is a window, the start page is known and the service
/// has a secret; it is then open and has yet to report. Else nothing changes. A panel that is
/// open and has not reported is told of, and no other.
pub proof fn law_panel_is_opened_where_it_can_be(panel: &Panel, late: Option<String>)
    requires
        call_ensures(Panel::overdue, (panel,), late),
    ensures
        late is Some <==> panel@.open && !panel@.ready,
        forall|p: &mut Panel, window: bool, splash: Option<&str>, r: Result<String, &'static str>|
            #[trigger]
            call_ensures(Panel::open, (p, window, splash), r) ==> {
                &&& r is Ok <==> window && panel_at(text::option_str(splash)) is Some
                    && (*p)@.nonce is Some
                &&& r is Ok ==> final(p)@ == (PanelView { open: true, ready: false, ..(*p)@ })
                &&& r is Err ==> final(p)@ == (*p)@
            },
        forall|p: &mut Panel, r: bool| #[trigger]
            call_ensures(Panel::reset_for_document, (p,), r) ==> final(p)@ == (PanelView {
                open: false,
                ready: false,
                ..(*p)@
            }) && r == (*p)@.open,
        forall|p: &mut Panel, port: u16, r: u16| #[trigger]
            call_ensures(Panel::start, (p, port), r) ==> r == port && final(p)@.port == port
                && final(p)@.nonce is Some && final(p)@.nonce->Some_0.len() == 32
                && final(p)@.open == (*p)@.open && final(p)@.selected == (*p)@.selected,
{
}

/// The panel is sent the ledger where there is one, and else why there is none; an old ledger
/// is followed by a new one. A forced answer is sent only where it failed.
pub proof fn law_panel_is_sent_what_was_found(
    catalog: Result<Catalog, String>,
    refreshed: Result<(), String>,
    version: String,
    found: Result<Option<Note>, String>,
    data: (Message, bool),
    forced: Option<Message>,
    noted: Message,
)
    requires
        call_ensures(push_data, (catalog,), data),
        call_ensures(push_data_forced, (refreshed,), forced),
        call_ensures(push_notes, (version, found), noted),
    ensures
        catalog matches Ok(c) ==> data.0 == Message::Data(c) && data.1 == c.registry_stale,
        catalog matches Err(e) ==> data.0 == Message::Error(e) && !data.1,
        forced is Some <==> refreshed is Err,
        refreshed matches Err(e) ==> forced == Some(Message::RefreshError(e)),
        found matches Ok(Some(n)) ==> noted == Message::Notes(n),
        found matches Ok(None) ==> noted == Message::NotesMissing(version),
        found matches Err(e) ==> noted == Message::NotesError(version, e),
{
}

/// The panel can tell the messages apart by their kind.
pub proof fn law_messages_tell_their_kind(m: &Message, k: &'static str)
    requires
        call_ensures(Message::kind, (m,), k),
    ensures
        k@ == "data"@ <==> *m is Data,
        k@ == "error"@ <==> *m is Error,
        k@ == "refresh_error"@ <==> *m is RefreshError,
        k@ == "notes"@ <==> *m is Notes,
        k@ == "notes_missing"@ <==> *m is NotesMissing,
        k@ == "notes_error"@ <==> *m is NotesError,
{
    reveal_strlit("data");
    reveal_strlit("error");
    reveal_strlit("refresh_error");
    reveal_strlit("notes");
    reveal_strlit("notes_missing");
    reveal_strlit("notes_error");
    assert("data"@.len() == 4 && "error"@.len() == 5 && "refresh_error"@.len() == 13
        && "notes"@.len() == 5 && "notes_missing"@.len() == 13 && "notes_error"@.len() == 11);
    assert("error"@[0] != "notes"@[0] && "refresh_error"@[0] != "notes_missing"@[0]);
}

/// The panel's own fields are what was last put there; taking it away keeps the pick.
pub proof fn law_pick_is_what_was_last_put(p: &Panel, s: Option<String>)
    requires
        call_ensures(Panel::selected, (p,), s),
    ensures
        text::option_text(s) == p@.selected,
        forall|q: &mut Panel, v: Option<String>| #[trigger]
            call_ensures(Panel::set_selected, (q, v), ()) ==> final(q)@ == (PanelView {
                selected: text::option_text(v),
                ..(*q)@
            }),
        forall|q: &mut Panel| #[trigger]
            call_ensures(Panel::clear_selection, (q,), ()) ==> final(q)@ == (PanelView {
                selected: None,
                ..(*q)@
            }),
        forall|q: &mut Panel| #[trigger]
            call_ensures(Panel::put_away, (q,), ()) ==> final(q)@ == (PanelView {
                open: false,
                ..(*q)@
            }),
{
}

/// A request is split and its query read as it stands; what is not escaped is read as it is.
pub proof fn law_queries_are_read_as_they_stand(
    path: &str,
    nonce: &str,
    split: Option<(String, Option<String>)>,
    query: Option<&str>,
    key: &str,
    raw: Option<String>,
    value: Option<String>,
)
    requires
        call_ensures(split_action, (path, nonce), split),
        call_ensures(find_param, (query, key), raw),
        param_reads(text::option_str(query), key@),
        call_ensures(query_param, (query, key), value),
    ensures
        asked(split) == action_at(path@, nonce@),
        text::option_text(raw) == raw_param(text::option_str(query), key@),
        value is Some <==> raw is Some,
        (raw matches Some(s)) ==> text::option_text(value) == Some(
            text::utf8_lossy(unescaped(vstd::utf8::encode_utf8(raw->Some_0@))),
        ),
{
}

/// A request that passes is acted on as its action and its version ask.
#[verifier::rlimit(50)]
pub proof fn law_passed_requests_are_acted_on()
    ensures
        forall|
            p: &mut Panel,
            q: &Request,
            r: (Reply, Act),
            t: &mut Panel,
            action: &str,
            version: Option<String>,
            s: (Reply, Act),
        |
            #![trigger call_ensures(Panel::handle, (p, q), r), call_ensures(Panel::act, (t, action, version), s)]
            call_ensures(Panel::handle, (p, q), r) && call_ensures(
                Panel::act,
                (t, action, version),
                s,
            ) && (*p)@.reads(q.method@, q.path@, text::option_text(q.origin)) && (*p)@ == (*t)@
                && q.method@ == "POST"@ && (*p)@.nonce is Some && own_origin(
                text::option_text(q.origin),
            ) && (action_at(q.path@, (*p)@.nonce->Some_0) matches Some(a) && a.0 == action@
                && param(a.1, "version"@) == text::option_text(version)) ==> r.0.status
                == s.0.status && r.0.body@ == s.0.body@ && r.1@ == s.1@ && final(p)@ == final(t)@,
{
}

/// A text cannot be decoded where a per cent sign has, three bytes behind it, a byte that
/// continues a character.
pub proof fn law_escapes_must_not_cut_characters(s: &str, r: bool, i: int)
    requires
        call_ensures(decodable, (s,), r),
        0 <= i,
        i + 3 < vstd::utf8::encode_utf8(s@).len(),
        vstd::utf8::encode_utf8(s@)[i] == 37,
        vstd::utf8::encode_utf8(s@)[i + 3] / 64 == 2,
    ensures
        !r,
{
    let b = vstd::utf8::encode_utf8(s@);
    assert(b[i] == 37);
}

/// A text in which no per cent sign has such a byte behind it can be decoded.
pub proof fn law_other_texts_can_be_decoded(s: &str, r: bool)
    requires
        call_ensures(decodable, (s,), r),
        forall|i: int|
            0 <= i < vstd::utf8::encode_utf8(s@).len() ==> #[trigger] vstd::utf8::encode_utf8(
                s@,
            )[i] != 37 || i + 3 >= vstd::utf8::encode_utf8(s@).len() || vstd::utf8::encode_utf8(
                s@,
            )[i + 3] / 64 != 2,
    ensures
        r,
{
}

} // verus!
