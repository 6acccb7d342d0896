//! Where the main window may go, and what a page that it loads changes.

use vstd::prelude::*;

use crate::settings::{Panel, PanelView, PANEL_FILE};
use crate::state;
use crate::state::{AppState, Shell};
use crate::text;

verus! {

/// A page of the shell itself.
pub open spec fn internal(scheme: Seq<char>, host: Option<Seq<char>>) -> bool {
    host == Some("tauri.localhost"@) || scheme == "tauri"@ || scheme == "asset"@ || scheme
        == "about"@ || scheme == "data"@
}

/// A page that the backend serves.
pub open spec fn of_backend(host: Option<Seq<char>>) -> bool {
    host == Some("127.0.0.1"@) || host == Some("localhost"@)
}

/// The start page, or another of the shell's files. A blank page is none of them.
pub open spec fn start_page(scheme: Seq<char>, host: Option<Seq<char>>) -> bool {
    scheme == "tauri"@ || scheme == "asset"@ || host == Some("tauri.localhost"@)
}

fn host_is(host: Option<&str>, name: &str) -> (r: bool)
    ensures
        r == (text::option_str(host) == Some(name@)),
{
    match host {
        Some(h) => text::same(h, name),
        None => false,
    }
}

/// Whether the window goes to an address itself. All others are handed to the system's
/// browser: the window could not come back from them.
pub fn on_navigation(scheme: &str, host: Option<&str>) -> (r: bool)
    ensures
        r == (internal(scheme@, text::option_str(host)) || of_backend(text::option_str(host))),
{
    host_is(host, "tauri.localhost") || text::same(scheme, "tauri") || text::same(scheme, "asset")
        || text::same(scheme, "about") || text::same(scheme, "data") || host_is(host, "127.0.0.1")
        || host_is(host, "localhost")
}

/// The window loaded a page. Another document takes the settings panel away with the one
/// before; the start page's address is remembered. The result says whether that is a new one.
pub fn on_page_load(
    shell: &mut AppState,
    panel: &mut Panel,
    scheme: &str,
    host: Option<&str>,
    path: &str,
    url: &str,
) -> (r: bool)
    ensures
        final(panel)@ == (if text::ends(path@, PANEL_FILE@) {
            old(panel)@
        } else {
            PanelView { open: false, ready: false, ..old(panel)@ }
        }),
        r == (start_page(scheme@, text::option_str(host)) && state::known(old(shell)@.splash_url)
            != Some(url@)),
        final(shell)@ == (if r {
            Shell { splash_url: url@, ..old(shell)@ }
        } else {
            old(shell)@
        }),
{
    let p = text::chars(path);
    let file = text::chars(PANEL_FILE);
    if !text::ends_with(p.as_slice(), file.as_slice()) {
        let _ = panel.reset_for_document();
    }
    if !(text::same(scheme, "tauri") || text::same(scheme, "asset") || host_is(
        host,
        "tauri.localhost",
    )) {
        return false;
    }
    let unchanged = match shell.splash_url() {
        Some(u) => text::same(u.as_str(), url),
        None => false,
    };
    if unchanged {
        return false;
    }
    shell.set_splash_url(url);
    true
}

/// The window stays on pages of the shell and of the loopback interface: whatever else it is
/// asked to go to, it does not.
pub proof fn law_window_stays_at_home(scheme: Seq<char>, host: Option<Seq<char>>)
    requires
        internal(scheme, host) || of_backend(host),
    ensures
        scheme == "http"@ || scheme == "https"@ ==> host == Some("tauri.localhost"@) || host
            == Some("127.0.0.1"@) || host == Some("localhost"@),
{
    reveal_strlit("http");
    reveal_strlit("https");
    reveal_strlit("tauri");
    reveal_strlit("asset");
    reveal_strlit("about");
    reveal_strlit("data");
    assert("http"@[0] == 'h' && "https"@[0] == 'h' && "tauri"@[0] == 't' && "asset"@[0] == 'a'
        && "about"@[0] == 'a' && "data"@[0] == 'd');
}

/// The window goes to the pages of the shell itself and to the backend on this machine, and
/// nowhere else.
pub proof fn law_window_goes_to_its_own_pages_only(scheme: &str, host: Option<&str>, r: bool)
    requires
        call_ensures(on_navigation, (scheme, host), r),
    ensures
        r <==> scheme@ == "tauri"@ || scheme@ == "asset"@ || scheme@ == "about"@ || scheme@
            == "data"@ || (host matches Some(h) && (h@ == "tauri.localhost"@ || h@ == "127.0.0.1"@
            || h@ == "localhost"@)),
{
}

/// The start page is remembered by its address when it loads, unless it is known already; any
/// document but the panel's own takes the panel away.
pub proof fn law_loaded_start_page_is_remembered()
    ensures
        forall|
            s: &mut AppState,
            p: &mut Panel,
            scheme: &str,
            host: Option<&str>,
            path: &str,
            url: &str,
            r: bool,
        | #[trigger]
            call_ensures(on_page_load, (s, p, scheme, host, path, url), r) ==> {
                &&& r ==> scheme@ == "tauri"@ || scheme@ == "asset"@ || text::option_str(host)
                    == Some("tauri.localhost"@)
                &&& scheme@ == "tauri"@ || scheme@ == "asset"@ || text::option_str(host) == Some(
                    "tauri.localhost"@,
                ) ==> (url@.len() > 0 ==> final(s)@.splash_url == url@)
                &&& r ==> final(s)@ == (Shell { splash_url: url@, ..(*s)@ })
                &&& !r ==> final(s)@ == (*s)@
                &&& text::ends(path@, "settings.html"@) ==> final(p)@ == (*p)@
                &&& !text::ends(path@, "settings.html"@) ==> final(p)@ == (PanelView {
                    open: false,
                    ready: false,
                    ..(*p)@
                })
            },
{
}

} // verus!
