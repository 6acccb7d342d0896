//! Release notes of the published dsh versions, taken from GitHub Releases.
//!
//! The text of a release is foreign: it is cut down to its Chinese section and flattened
//! to a small Markdown subset before anything shows it.

use vstd::prelude::*;
use vstd::slice::slice_subrange;

use crate::config;
use crate::config::Config;
use crate::json;
use crate::json::{Json, Tree};
use crate::proc;
use crate::proc::{Launch, Output};
use crate::table;
use crate::text;

verus! {

/// Where the releases are listed.
pub const RELEASES_API: &'static str =
    "https://api.github.com/repos/deepseek-ai/deepseek-harness/releases?per_page=100";

/// How long the cached releases count as fresh: two hours.
pub const TTL_MS: u64 = 7_200_000;

/// One release as GitHub gives it.
pub struct RawNote {
    /// The address of the release's page.
    pub url: String,
    /// The body, Markdown with inline HTML, in two languages.
    pub body: String,
}

/// The releases as they are kept on disk.
pub struct NotesCache {
    pub fetched_at_ms: u64,
    /// Version to release.
    pub notes: Vec<(String, RawNote)>,
    /// Versions that were asked for and have no release. A version that is neither here
    /// nor in `notes` has not been asked for.
    pub absent: Vec<String>,
}

/// The release note of one version, ready to be shown.
pub struct Note {
    pub version: String,
    /// The Chinese section, flattened.
    pub body: String,
    pub url: String,
    /// Whether it was taken from the cache.
    pub cached: bool,
}

// ───────────────────────── markup ─────────────────────────

pub open spec fn angle(c: char) -> bool {
    c == '<' || c == '>'
}

/// A text without its angle brackets.
pub open spec fn no_angles(s: Seq<char>) -> Seq<char>
    decreases s.len(),
{
    if s.len() == 0 {
        seq![]
    } else if angle(s.last()) {
        no_angles(s.drop_last())
    } else {
        no_angles(s.drop_last()).push(s.last())
    }
}

/// What a tag turns into, behind the text `out`: a heading opens a `### ` line, a line
/// break is a newline, any other tag is nothing.
pub open spec fn mark(out: Seq<char>, tag: Seq<char>) -> Seq<char> {
    if text::starts(tag, "<h2"@) || text::starts(tag, "<h3"@) {
        if out.len() > 0 && out.last() != '\n' {
            "\n\n### "@
        } else {
            "\n### "@
        }
    } else if text::starts(tag, "<br"@) {
        "\n"@
    } else {
        seq![]
    }
}

/// The text `out` followed by `rest` with its tags replaced by their marks.
pub open spec fn untagged(out: Seq<char>, rest: Seq<char>) -> Seq<char>
    decreases rest.len(),
{
    match text::first_char(rest, '<') {
        Some(i) => if 0 <= i < rest.len() {
            let before = out + rest.take(i);
            let tail = rest.skip(i);
            match text::first_char(tail, '>') {
                Some(j) => if 0 <= j < tail.len() {
                    untagged(
                        before + mark(before, text::lower(tail.take(j + 1))),
                        tail.skip(j + 1),
                    )
                } else {
                    before + tail
                },
                None => before + tail,
            }
        } else {
            out + rest
        },
        None => out + rest,
    }
}

pub open spec fn blank(s: Seq<char>) -> bool {
    text::trimmed(s).len() == 0
}

/// Lines without the whitespace at their ends, a run of blank lines being kept as one.
pub open spec fn squeezed(ls: Seq<Seq<char>>) -> Seq<Seq<char>>
    decreases ls.len(),
{
    if ls.len() == 0 {
        seq![]
    } else {
        let kept = squeezed(ls.drop_last());
        let t = text::rtrim(ls.last());
        if blank(t) && kept.len() > 0 && blank(kept.last()) {
            kept
        } else {
            kept.push(t)
        }
    }
}

/// A text with its runs of blank lines squeezed.
pub open spec fn collapsed(s: Seq<char>) -> Seq<char> {
    text::trimmed(text::joined(squeezed(text::lines(s)), seq!['\n']))
}

/// A text flattened to plain text with `### ` headings.
pub open spec fn flat(s: Seq<char>) -> Seq<char> {
    collapsed(no_angles(untagged(seq![], s)))
}

fn drop_angles(s: &[char]) -> (r: Vec<char>)
    ensures
        r@ == no_angles(s@),
{
    let mut out: Vec<char> = Vec::new();
    let mut i: usize = 0;
    while i < s.len()
        invariant
            i <= s.len(),
            out@ == no_angles(s@.take(i as int)),
        decreases s.len() - i,
    {
        let ghost more = s@.take(i + 1);
        assert(more.drop_last() =~= s@.take(i as int));
        if s[i] != '<' && s[i] != '>' {
            out.push(s[i]);
        }
        i = i + 1;
    }
    assert(s@.take(i as int) =~= s@);
    out
}

fn push_mark(out: &mut Vec<char>, tag: &[char])
    ensures
        final(out)@ == old(out)@ + mark(old(out)@, tag@),
{
    let h2 = text::chars("<h2");
    let h3 = text::chars("<h3");
    let br = text::chars("<br");
    if text::starts_with(tag, h2.as_slice()) || text::starts_with(tag, h3.as_slice()) {
        let open = if out.len() > 0 && out[out.len() - 1] != '\n' {
            text::chars("\n\n### ")
        } else {
            text::chars("\n### ")
        };
        text::push_all(out, open.as_slice());
    } else if text::starts_with(tag, br.as_slice()) {
        let open = text::chars("\n");
        text::push_all(out, open.as_slice());
    } else {
        assert(out@ =~= out@ + Seq::<char>::empty());
    }
}

fn untag(s: &[char]) -> (r: Vec<char>)
    ensures
        r@ == untagged(seq![], s@),
{
    let mut out: Vec<char> = Vec::new();
    let mut rest: &[char] = s;
    loop
        invariant_except_break
            untagged(out@, rest@) == untagged(seq![], s@),
        ensures
            out@ == untagged(seq![], s@),
        decreases rest@.len(),
    {
        match text::find_char(rest, '<') {
            None => {
                text::push_all(&mut out, rest);
                break;
            },
            Some(i) => {
                let head = slice_subrange(rest, 0, i);
                let tail = slice_subrange(rest, i, rest.len());
                assert(head@ =~= rest@.take(i as int));
                assert(tail@ =~= rest@.skip(i as int));
                text::push_all(&mut out, head);
                match text::find_char(tail, '>') {
                    None => {
                        text::push_all(&mut out, tail);
                        break;
                    },
                    Some(j) => {
                        let tag = slice_subrange(tail, 0, j + 1);
                        assert(tag@ =~= tail@.take(j + 1));
                        let lowered = text::to_lower(tag);
                        push_mark(&mut out, lowered.as_slice());
                        let next = slice_subrange(tail, j + 1, tail.len());
                        assert(next@ =~= tail@.skip(j + 1));
                        rest = next;
                    },
                }
            },
        }
    }
    out
}

fn is_blank(s: &[char]) -> (r: bool)
    ensures
        r == blank(s@),
{
    text::trim(s).len() == 0
}

fn collapse_blank(s: &[char]) -> (r: Vec<char>)
    ensures
        r@ == collapsed(s@),
{
    let ls = text::lines_of(s);
    let mut out: Vec<&[char]> = Vec::new();
    let mut i: usize = 0;
    while i < ls.len()
        invariant
            i <= ls.len(),
            text::pieces(ls@) == text::lines(s@),
            text::pieces(out@) == squeezed(text::lines(s@).take(i as int)),
        decreases ls.len() - i,
    {
        let ghost all = text::lines(s@);
        assert(all[i as int] == ls@[i as int]@);
        assert(all.take(i + 1).drop_last() =~= all.take(i as int));
        let t = text::trim_end(ls[i]);
        let again = out.len() > 0 && is_blank(t) && is_blank(out[out.len() - 1]);
        if !again {
            let ghost before = out@;
            out.push(t);
            assert(text::pieces(out@) =~= text::pieces(before).push(t@));
        }
        i = i + 1;
    }
    assert(text::lines(s@).take(i as int) =~= text::lines(s@));
    let whole = text::join_pieces(out.as_slice(), '\n');
    let mut r: Vec<char> = Vec::new();
    text::push_all(&mut r, text::trim(whole.as_slice()));
    assert(r@ =~= collapsed(s@));
    r
}

fn flatten(s: &[char]) -> (r: Vec<char>)
    ensures
        r@ == flat(s@),
{
    let plain = untag(s);
    let bare = drop_angles(plain.as_slice());
    collapse_blank(bare.as_slice())
}

/// Flattens the inline HTML of a release body: a heading becomes a `### ` line, `<br>` a
/// newline, any other tag is dropped and its text kept. No angle bracket is left.
pub fn normalize_markup(s: &str) -> (r: String)
    ensures
        r@ == flat(s@),
{
    let v = text::chars(s);
    let f = flatten(v.as_slice());
    text::text_of(f.as_slice())
}

// ───────────────────────── the Chinese section ─────────────────────────

/// The lesser of two positions, where there is one.
pub open spec fn sooner(a: Option<int>, b: Option<int>) -> Option<int> {
    match (a, b) {
        (Some(x), Some(y)) => if x <= y {
            a
        } else {
            b
        },
        (Some(_), None) => a,
        _ => b,
    }
}

/// Where the first anchor of a Chinese section stands.
pub open spec fn cn_anchor(s: Seq<char>) -> Option<int> {
    sooner(
        sooner(
            sooner(text::first(s, "id=\"chinese\""@), text::first(s, "id=\"cn\""@)),
            text::first(s, "id=\"cn-"@),
        ),
        text::first(s, "id=\"cn_"@),
    )
}

/// Where the first anchor of an English section stands.
pub open spec fn en_anchor(s: Seq<char>) -> Option<int> {
    sooner(
        sooner(
            sooner(text::first(s, "id=\"english\""@), text::first(s, "id=\"en\""@)),
            text::first(s, "id=\"en-"@),
        ),
        text::first(s, "id=\"en_"@),
    )
}

/// The body without the line of language links at its start.
pub open spec fn unnavigated(s: Seq<char>) -> Seq<char> {
    let t = text::ltrim(s);
    if text::starts(t, "[中文]"@) {
        match text::first_char(t, '\n') {
            Some(i) => t.skip(i + 1),
            None => seq![],
        }
    } else {
        t
    }
}

/// What follows the tag that holds position `i`, or what starts there if no tag ends.
pub open spec fn behind_tag(s: Seq<char>, i: int) -> Seq<char> {
    match text::first_char(s.skip(i), '>') {
        Some(j) => s.skip(i + j + 1),
        None => s.skip(i),
    }
}

/// What stands before the tag that holds position `j`.
pub open spec fn before_tag(s: Seq<char>, j: int) -> Seq<char> {
    match text::last_char(s.take(j), '<') {
        Some(cut) => s.take(cut),
        None => s.take(j),
    }
}

/// What stands before the first `Full Changelog`, or the whole text.
pub open spec fn before_changelog(s: Seq<char>) -> Seq<char> {
    match text::first(s, "Full Changelog"@) {
        Some(i) => s.take(i),
        None => s,
    }
}

/// The part of a release body that is shown: from the Chinese anchor up to the English
/// one, headed as the section it opens; or, without a Chinese anchor, the whole body up to
/// its change log.
pub open spec fn section(body: Seq<char>) -> Seq<char> {
    match cn_anchor(body) {
        Some(i) => {
            let rest = behind_tag(body, i);
            "### "@ + (match en_anchor(rest) {
                Some(j) => before_tag(rest, j),
                None => rest,
            })
        },
        None => before_changelog(unnavigated(body)),
    }
}

/// A line that only decorates the end of a section.
pub open spec fn decoration(line: Seq<char>) -> bool {
    let t = text::trimmed(line);
    t.len() == 0 || t == "---"@ || t == "***"@ || t == "___"@ || text::starts(t, "Full Changelog"@)
}

/// Lines without the decoration at their end.
pub open spec fn undecorated_lines(ls: Seq<Seq<char>>) -> Seq<Seq<char>>
    decreases ls.len(),
{
    if ls.len() > 0 && decoration(ls.last()) {
        undecorated_lines(ls.drop_last())
    } else {
        ls
    }
}

/// A text without the decoration at its end.
pub open spec fn undecorated(s: Seq<char>) -> Seq<char> {
    text::trimmed(text::joined(undecorated_lines(text::lines(s)), seq!['\n']))
}

/// The line of language links that a release begins with.
pub open spec fn nav_line(s: Seq<char>) -> bool {
    text::starts(s, "[中文]"@) && text::has(s, "[English]"@)
}

/// The Chinese section of a release body, flattened and without decoration.
pub open spec fn chinese(body: Seq<char>) -> Seq<char> {
    let out = undecorated(flat(section(body)));
    let cut = match text::first(out, "Full Changelog"@) {
        Some(i) => undecorated(out.take(i)),
        None => out,
    };
    if nav_line(text::trimmed(cut)) {
        seq![]
    } else {
        cut
    }
}

fn min_position(a: Option<usize>, b: Option<usize>) -> (r: Option<usize>)
    ensures
        r == (match (a, b) {
            (Some(x), Some(y)) => if x <= y {
                a
            } else {
                b
            },
            (Some(_), None) => a,
            _ => b,
        }),
{
    match (a, b) {
        (Some(x), Some(y)) => if x <= y {
            a
        } else {
            b
        },
        (Some(_), None) => a,
        _ => b,
    }
}

fn earliest(s: &[char], a: &str, b: &str, c: &str, d: &str) -> (r: Option<usize>)
    ensures
        r matches Some(i) ==> i <= s.len() && sooner(
            sooner(sooner(text::first(s@, a@), text::first(s@, b@)), text::first(s@, c@)),
            text::first(s@, d@),
        ) == Some(i as int),
        r is None <==> sooner(
            sooner(sooner(text::first(s@, a@), text::first(s@, b@)), text::first(s@, c@)),
            text::first(s@, d@),
        ) is None,
{
    let va = text::chars(a);
    let vb = text::chars(b);
    let vc = text::chars(c);
    let vd = text::chars(d);
    let pa = text::find(s, va.as_slice());
    let pb = text::find(s, vb.as_slice());
    let pc = text::find(s, vc.as_slice());
    let pd = text::find(s, vd.as_slice());
    min_position(min_position(min_position(pa, pb), pc), pd)
}

fn strip_nav(s: &[char]) -> (r: &[char])
    ensures
        r@ == unnavigated(s@),
{
    let t = text::trim_start(s);
    let nav = text::chars("[中文]");
    if text::starts_with(t, nav.as_slice()) {
        match text::find_char(t, '\n') {
            Some(i) => slice_subrange(t, i + 1, t.len()),
            None => {
                let none = slice_subrange(t, t.len(), t.len());
                assert(none@ =~= seq![]);
                none
            },
        }
    } else {
        t
    }
}

fn cut_changelog(s: &[char]) -> (r: &[char])
    ensures
        r@ == before_changelog(s@),
{
    let log = text::chars("Full Changelog");
    match text::find(s, log.as_slice()) {
        Some(i) => slice_subrange(s, 0, i),
        None => s,
    }
}

fn chinese_section(body: &[char]) -> (r: Vec<char>)
    ensures
        r@ == section(body@),
{
    let mut out: Vec<char> = Vec::new();
    match earliest(body, "id=\"chinese\"", "id=\"cn\"", "id=\"cn-", "id=\"cn_") {
        Some(i) => {
            let from_anchor = slice_subrange(body, i, body.len());
            assert(from_anchor@ =~= body@.skip(i as int));
            let rest = match text::find_char(from_anchor, '>') {
                Some(j) => slice_subrange(body, i + j + 1, body.len()),
                None => from_anchor,
            };
            assert(rest@ =~= behind_tag(body@, i as int));
            let part = match earliest(
                rest,
                "id=\"english\"",
                "id=\"en\"",
                "id=\"en-",
                "id=\"en_",
            ) {
                Some(j) => {
                    let upto = slice_subrange(rest, 0, j);
                    assert(upto@ =~= rest@.take(j as int));
                    match text::rfind_char(upto, '<') {
                        Some(cut) => {
                            let head = slice_subrange(rest, 0, cut);
                            assert(head@ =~= rest@.take(cut as int));
                            head
                        },
                        None => upto,
                    }
                },
                None => rest,
            };
            let head = text::chars("### ");
            text::push_all(&mut out, head.as_slice());
            text::push_all(&mut out, part);
            assert(out@ =~= "### "@ + part@);
        },
        None => {
            text::push_all(&mut out, cut_changelog(strip_nav(body)));
            assert(out@ =~= before_changelog(unnavigated(body@)));
        },
    }
    out
}

fn is_decoration(line: &[char]) -> (r: bool)
    ensures
        r == decoration(line@),
{
    let t = text::trim(line);
    let dashes = text::chars("---");
    let stars = text::chars("***");
    let bars = text::chars("___");
    let log = text::chars("Full Changelog");
    assert(t.len() == 0 ==> text::trimmed(line@).len() == 0);
    t.len() == 0 || text::same_chars(t, dashes.as_slice()) || text::same_chars(t, stars.as_slice())
        || text::same_chars(t, bars.as_slice()) || text::starts_with(t, log.as_slice())
}

fn trim_decoration(s: &[char]) -> (r: Vec<char>)
    ensures
        r@ == undecorated(s@),
{
    let ls = text::lines_of(s);
    let mut n: usize = ls.len();
    assert(text::lines(s@).take(n as int) =~= text::lines(s@));
    while n > 0 && is_decoration(ls[n - 1])
        invariant
            n <= ls.len(),
            text::pieces(ls@) == text::lines(s@),
            undecorated_lines(text::lines(s@)) == undecorated_lines(text::lines(s@).take(n as int)),
        decreases n,
    {
        assert(text::lines(s@)[n - 1] == ls@[n - 1]@);
        assert(text::lines(s@).take(n as int).drop_last() =~= text::lines(s@).take(n - 1));
        n = n - 1;
    }
    assert(n > 0 ==> text::lines(s@)[n - 1] == ls@[n - 1]@);
    let kept = slice_subrange(ls.as_slice(), 0, n);
    assert(text::pieces(kept@) =~= text::lines(s@).take(n as int));
    let whole = text::join_pieces(kept, '\n');
    let mut r: Vec<char> = Vec::new();
    text::push_all(&mut r, text::trim(whole.as_slice()));
    assert(r@ =~= undecorated(s@));
    r
}

fn is_nav_line(s: &[char]) -> (r: bool)
    ensures
        r == nav_line(s@),
{
    let cn = text::chars("[中文]");
    let en = text::chars("[English]");
    text::starts_with(s, cn.as_slice()) && text::contains(s, en.as_slice())
}

/// Cuts the Chinese section out of a release body.
///
/// Three layouts are in use; what they share is the prefix of the anchor's id (`cn` or
/// `chinese`, `en` or `english`). Where no Chinese anchor stands, the whole body is taken,
/// without its language links and its change log.
pub fn extract_cn(body: &str) -> (r: String)
    ensures
        r@ == chinese(body@),
{
    let v = text::chars(body);
    let part = chinese_section(v.as_slice());
    let plain = flatten(part.as_slice());
    let out = trim_decoration(plain.as_slice());
    let log = text::chars("Full Changelog");
    let cut = match text::find(out.as_slice(), log.as_slice()) {
        Some(i) => {
            let head = slice_subrange(out.as_slice(), 0, i);
            assert(head@ =~= out@.take(i as int));
            trim_decoration(head)
        },
        None => out,
    };
    if is_nav_line(text::trim(cut.as_slice())) {
        let none = String::new();
        assert(none@ =~= seq![]);
        none
    } else {
        text::text_of(cut.as_slice())
    }
}

// ───────────────────────── reading the releases ─────────────────────────

/// What the tags of dsh releases begin with.
pub const TAG_PREFIX: &'static str = "dsh-v";

/// The script that fetches an address with node: node is there in any case, as npm and dsh
/// run on it. The address is an argument, so that `cmd` never sees what stands in it.
pub const FETCH_JS: &'static str =
    "fetch(process.argv[1],{headers:{'user-agent':'DShell','accept':'application/vnd.github+json'}}).then(r=>{if(!r.ok)throw new Error('HTTP '+r.status);return r.text()}).then(t=>process.stdout.write(t)).catch(e=>{process.stderr.write(String(e&&e.message||e));process.exit(1)});";

/// The address and the body of a release.
pub open spec fn raw_text(n: RawNote) -> (Seq<char>, Seq<char>) {
    (n.url@, n.body@)
}

/// The text of a member, empty where there is none.
pub open spec fn text_or_empty(item: Tree, key: Seq<char>) -> Seq<char> {
    match json::str_of(json::get(item, key)) {
        Some(s) => s,
        None => seq![],
    }
}

/// The version and the release that an entry of the list stands for: only a published
/// release whose tag is `dsh-v` and a version counts.
pub open spec fn release_entry(item: Tree) -> Option<(Seq<char>, (Seq<char>, Seq<char>))> {
    match json::str_of(json::get(item, "tag_name"@)) {
        Some(tag) => match text::behind_prefix(tag, TAG_PREFIX@) {
            Some(version) => if json::bool_of(json::get(item, "draft"@)) == Some(true) {
                None
            } else {
                Some(
                    (
                        version,
                        (text_or_empty(item, "html_url"@), text_or_empty(item, "body"@)),
                    ),
                )
            },
            None => None,
        },
        None => None,
    }
}

/// The release of a version: where several entries have its tag, the last of them.
pub open spec fn release_at(items: Seq<Tree>, version: Seq<char>) -> Option<
    (Seq<char>, Seq<char>),
>
    decreases items.len(),
{
    if items.len() == 0 {
        None
    } else {
        match release_entry(items.last()) {
            Some(e) => if e.0 == version {
                Some(e.1)
            } else {
                release_at(items.drop_last(), version)
            },
            None => release_at(items.drop_last(), version),
        }
    }
}

/// What a table of releases holds under a version.
pub open spec fn noted(notes: Seq<(String, RawNote)>, version: Seq<char>) -> Option<
    (Seq<char>, Seq<char>),
> {
    match table::at(notes, version) {
        Some(n) => Some(raw_text(n)),
        None => None,
    }
}

/// A table that holds the releases of a list of entries.
pub open spec fn holds_releases(notes: Seq<(String, RawNote)>, items: Seq<Tree>) -> bool {
    &&& table::unique(notes)
    &&& forall|v: Seq<char>| #[trigger] noted(notes, v) == release_at(items, v)
}

fn text_member(item: &Json, key: &str) -> (r: String)
    ensures
        r@ == text_or_empty(item.tree(), key@),
{
    match json::text_of(item.get(key)) {
        Some(s) => s,
        None => {
            let none = String::new();
            assert(none@ =~= seq![]);
            none
        },
    }
}

fn entry_of(item: &Json) -> (r: Option<(String, RawNote)>)
    ensures
        r matches Some(e) ==> release_entry(item.tree()) == Some((e.0@, raw_text(e.1))),
        r is None <==> release_entry(item.tree()) is None,
{
    let tag = match json::text_of(item.get("tag_name")) {
        Some(t) => t,
        None => {
            return None;
        },
    };
    let version = match text::strip_prefix(tag.as_str(), TAG_PREFIX) {
        Some(v) => v,
        None => {
            return None;
        },
    };
    match json::truth_of(item.get("draft")) {
        Some(true) => {
            return None;
        },
        _ => {},
    }
    let url = text_member(item, "html_url");
    let body = text_member(item, "body");
    Some((version, RawNote { url, body }))
}

/// The releases of a document: `None` where the document is no list.
pub fn releases_of(doc: &Json) -> (r: Option<Vec<(String, RawNote)>>)
    ensures
        r matches Some(notes) ==> doc.tree() matches Tree::Arr(items) && holds_releases(
            notes@,
            items,
        ),
        r is None <==> !(doc.tree() is Arr),
{
    proof {
        json::lemma_tree(*doc);
    }
    match doc {
        Json::Arr(items) => {
            let ghost said = json::items(items@);
            let mut notes: Vec<(String, RawNote)> = Vec::new();
            let mut i: usize = 0;
            while i < items.len()
                invariant
                    i <= items.len(),
                    said == json::items(items@),
                    holds_releases(notes@, said.take(i as int)),
                decreases items.len() - i,
            {
                let ghost before = notes@;
                let ghost more = said.take(i + 1);
                assert(more.drop_last() =~= said.take(i as int));
                assert(more.last() == items@[i as int].tree());
                match entry_of(&items[i]) {
                    Some((version, raw)) => {
                        table::put(&mut notes, version, raw);
                        assert forall|v: Seq<char>| #[trigger]
                            noted(notes@, v) == release_at(more, v) by {
                            assert(noted(before, v) == release_at(more.drop_last(), v));
                            assert(table::at(notes@, v) == if v == version@ {
                                Some(raw)
                            } else {
                                table::at(before, v)
                            });
                        }
                    },
                    None => {
                        assert forall|v: Seq<char>| #[trigger]
                            noted(notes@, v) == release_at(more, v) by {
                            assert(noted(before, v) == release_at(more.drop_last(), v));
                        }
                    },
                }
                i = i + 1;
            }
            assert(said.take(i as int) =~= said);
            Some(notes)
        },
        _ => None,
    }
}

/// Reads GitHub's list of releases: `None` where the text is no JSON list.
pub fn parse_releases(s: &str) -> (r: Option<Vec<(String, RawNote)>>)
    ensures
        r matches Some(notes) ==> json::json_read(s@) matches Ok(Tree::Arr(items)) && holds_releases(
            notes@,
            items,
        ),
        r is None <==> !(json::json_read(s@) matches Ok(Tree::Arr(_))),
{
    match json::parse_json(s) {
        Ok(doc) => releases_of(&doc),
        Err(_) => None,
    }
}

/// The releases that a reply holds, or why it holds none.
pub fn releases_from(parsed: Option<Vec<(String, RawNote)>>) -> (r: Result<
    Vec<(String, RawNote)>,
    String,
>)
    ensures
        match r {
            Ok(notes) => parsed == Some(notes) && notes.len() > 0,
            Err(e) => match parsed {
                None => e@ == "无法解析 GitHub Releases 的返回"@,
                Some(notes) => notes.len() == 0 && e@
                    == "GitHub Releases 里没有任何 dsh-* 的发布记录"@,
            },
        },
{
    match parsed {
        None => Err(text::copy("无法解析 GitHub Releases 的返回")),
        Some(notes) => if notes.len() == 0 {
            Err(text::copy("GitHub Releases 里没有任何 dsh-* 的发布记录"))
        } else {
            Ok(notes)
        },
    }
}

/// The command that fetches the releases, with the node that the user named, if any.
pub fn fetch_query(node: Option<&str>) -> (r: Launch)
    ensures
        ({
            let exe = match node {
                Some(n) => n@,
                None => "node"@,
            };
            proc::launches(
                r,
                proc::real_program(exe),
                proc::real_args(exe, seq!["-e"@, FETCH_JS@, RELEASES_API@]),
                None,
                30_000,
            )
        }),
{
    let exe: &str = match node {
        Some(n) => n,
        None => "node",
    };
    let args: [&str; 3] = ["-e", FETCH_JS, RELEASES_API];
    let r = proc::run_path(exe, args.as_slice(), 30_000);
    assert(text::slices(args@) =~= seq!["-e"@, FETCH_JS@, RELEASES_API@]);
    r
}

/// What the fetching command fetched, or why it failed. `ran` is what it left behind, or
/// why it could not be started.
pub fn fetched(ran: Result<Output, String>) -> (r: Result<String, String>)
    requires
        ran matches Ok(out) ==> out.succeeded() || out.can_diagnose(),
    ensures
        match ran {
            Ok(out) => if out.succeeded() {
                r matches Ok(s) && s@ == out.stdout@
            } else {
                r matches Err(e) && e@ == "拉取发布说明失败："@ + out.diagnosis()
            },
            Err(why) => r matches Err(e) && e@ == "无法执行 node 去拉取发布说明："@ + why@,
        },
{
    match ran {
        Ok(out) => if out.ok() {
            Ok(out.stdout)
        } else {
            let why = out.diagnose();
            Err(text::cat2("拉取发布说明失败：", why.as_str()))
        },
        Err(why) => Err(text::cat2("无法执行 node 去拉取发布说明：", why.as_str())),
    }
}

// ───────────────────────── asking for a note ─────────────────────────

/// How a question for a note is answered.
#[derive(Clone, Copy, PartialEq, Eq, Structural)]
pub enum Answer {
    /// From the cache.
    Cached,
    /// The version was asked for before and has no release.
    Absent,
    /// The releases have to be fetched.
    Fetch,
}

/// A cache that counts: one without a release counts as none.
pub open spec fn usable(cache: NotesCache) -> bool {
    cache.notes.len() > 0
}

/// How old a cache is.
pub open spec fn age(cache: NotesCache, now_ms: u64) -> int {
    if now_ms >= cache.fetched_at_ms {
        now_ms - cache.fetched_at_ms
    } else {
        0
    }
}

/// How a question for `version` is answered. A fresh cache answers for what it holds and for
/// what it knows to be absent; a version that was never asked for may have been published
/// since, and is looked up.
pub open spec fn answer(cache: Option<NotesCache>, version: Seq<char>, now_ms: u64) -> Answer {
    match cache {
        Some(c) => if usable(c) && age(c, now_ms) < TTL_MS {
            if noted(c.notes@, version) is Some {
                Answer::Cached
            } else if text::texts(c.absent@).contains(version) {
                Answer::Absent
            } else {
                Answer::Fetch
            }
        } else {
            Answer::Fetch
        },
        None => Answer::Fetch,
    }
}

/// A note that shows a release.
pub open spec fn shows(
    n: Note,
    version: Seq<char>,
    raw: (Seq<char>, Seq<char>),
    cached: bool,
) -> bool {
    n.version@ == version && n.url@ == raw.0 && n.body@ == chinese(raw.1) && n.cached == cached
}

/// The note of a version, from its release.
pub fn build(version: &str, raw: &RawNote, cached: bool) -> (r: Note)
    ensures
        shows(r, version@, raw_text(*raw), cached),
{
    Note {
        version: text::copy(version),
        body: extract_cn(raw.body.as_str()),
        url: text::copy(raw.url.as_str()),
        cached,
    }
}

/// The file in which the releases are kept.
pub fn cache_path(home: Option<&str>) -> (r: String)
    ensures
        r@ == config::within(Config::dir_in(text::option_str(home)), "dsh-releases.json"@),
{
    let dir = Config::dir(home);
    config::join(dir.as_str(), "dsh-releases.json")
}

/// What to do about a question for a note.
pub enum Lookup {
    Found(Note),
    Missing,
    Fetch,
}

/// Looks for the note of a version in the cache: no command runs while a fresh cache can
/// answer.
pub fn notes(version: &str, cache: Option<&NotesCache>, now_ms: u64) -> (r: Lookup)
    ensures
        ({
            let held = match cache {
                Some(c) => Some(*c),
                None => None,
            };
            match answer(held, version@, now_ms) {
                Answer::Cached => r matches Lookup::Found(n) && shows(
                    n,
                    version@,
                    noted(held->0.notes@, version@)->0,
                    true,
                ),
                Answer::Absent => r is Missing,
                Answer::Fetch => r is Fetch,
            }
        }),
{
    match cache {
        Some(c) => {
            let old: u64 = if now_ms >= c.fetched_at_ms {
                now_ms - c.fetched_at_ms
            } else {
                0
            };
            if c.notes.len() > 0 && old < TTL_MS {
                match table::lookup(&c.notes, version) {
                    Some(raw) => {
                        return Lookup::Found(build(version, raw, true));
                    },
                    None => {},
                }
                if text::among(c.absent.as_slice(), version) {
                    return Lookup::Missing;
                }
            }
            Lookup::Fetch
        },
        None => Lookup::Fetch,
    }
}

/// The versions that a cache knows to be absent.
pub open spec fn known_absent(cache: Option<NotesCache>) -> Seq<Seq<char>> {
    match cache {
        Some(c) => if usable(c) {
            text::texts(c.absent@)
        } else {
            seq![]
        },
        None => seq![],
    }
}

/// The absent versions once `version` was looked for in `fresh`.
pub open spec fn absent_after(
    cache: Option<NotesCache>,
    fresh: Seq<(String, RawNote)>,
    version: Seq<char>,
) -> Seq<Seq<char>> {
    if noted(fresh, version) is None && !known_absent(cache).contains(version) {
        known_absent(cache).push(version)
    } else {
        known_absent(cache)
    }
}

/// The cache once `version` was looked for in the fetched releases.
pub open spec fn cache_after(
    after: NotesCache,
    cache: Option<NotesCache>,
    fresh: Seq<(String, RawNote)>,
    version: Seq<char>,
    now_ms: u64,
) -> bool {
    after.fetched_at_ms == now_ms && after.notes@ == fresh && text::texts(after.absent@)
        == absent_after(cache, fresh, version)
}

/// Answers a question for a note from releases that were just fetched: the cache to keep,
/// and the note, if the version has a release.
pub fn notes_fetched(
    version: &str,
    fresh: Vec<(String, RawNote)>,
    cache: Option<NotesCache>,
    now_ms: u64,
) -> (r: (NotesCache, Option<Note>))
    ensures
        cache_after(r.0, cache, fresh@, version@, now_ms),
        match noted(fresh@, version@) {
            Some(raw) => r.1 matches Some(n) && shows(n, version@, raw, false),
            None => r.1 is None,
        },
{
    let note = match table::lookup(&fresh, version) {
        Some(raw) => Some(build(version, raw, false)),
        None => None,
    };
    let mut absent: Vec<String> = Vec::new();
    let ghost before = cache;
    match cache {
        Some(c) => {
            if c.notes.len() > 0 {
                absent = c.absent;
            }
        },
        None => {},
    }
    assert(text::texts(absent@) =~= known_absent(before));
    if note.is_none() && !text::among(absent.as_slice(), version) {
        let ghost kept = absent@;
        absent.push(text::copy(version));
        assert(text::texts(absent@) =~= text::texts(kept).push(version@));
    }
    (NotesCache { fetched_at_ms: now_ms, notes: fresh, absent }, note)
}

/// A version that the releases were just fetched for is answered without another fetch while
/// the cache is fresh, whether it has a release or not.
pub proof fn law_asked_once(
    after: NotesCache,
    cache: Option<NotesCache>,
    fresh: Seq<(String, RawNote)>,
    version: Seq<char>,
    fetched_ms: u64,
    now_ms: u64,
)
    requires
        cache_after(after, cache, fresh, version, fetched_ms),
        fresh.len() > 0,
        now_ms - fetched_ms < TTL_MS,
    ensures
        answer(Some(after), version, now_ms) == if noted(fresh, version) is Some {
            Answer::Cached
        } else {
            Answer::Absent
        },
{
    let gone = absent_after(cache, fresh, version);
    if noted(fresh, version) is None && !known_absent(cache).contains(version) {
        assert(gone[gone.len() - 1] == version);
    }
}

/// A version that nobody asked for, such as one published a moment ago, is looked up, however
/// fresh the cache is.
pub proof fn law_unasked_versions_are_fetched(cache: NotesCache, version: Seq<char>, now_ms: u64)
    requires
        noted(cache.notes@, version) is None,
        !text::texts(cache.absent@).contains(version),
    ensures
        answer(Some(cache), version, now_ms) == Answer::Fetch,
{
}

// ───────────────────────── what holds of every body ─────────────────────────

pub open spec fn plain_char(c: char) -> bool {
    !angle(c)
}

proof fn lemma_no_angles(s: Seq<char>)
    ensures
        text::every(no_angles(s), |c: char| plain_char(c)),
    decreases s.len(),
{
    if s.len() > 0 {
        lemma_no_angles(s.drop_last());
    }
}

proof fn lemma_squeezed_every(ls: Seq<Seq<char>>, p: spec_fn(char) -> bool)
    requires
        text::every_line(ls, p),
    ensures
        text::every_line(squeezed(ls), p),
    decreases ls.len(),
{
    if ls.len() > 0 {
        let less = ls.drop_last();
        assert forall|k: int| 0 <= k < less.len() implies text::every(#[trigger] less[k], p) by {
            assert(less[k] == ls[k]);
        }
        lemma_squeezed_every(less, p);
        assert(text::every(ls[ls.len() - 1], p));
        text::lemma_rtrim_every(ls.last(), p);
    }
}

proof fn lemma_undecorated_lines(ls: Seq<Seq<char>>)
    ensures
        undecorated_lines(ls).len() <= ls.len(),
        undecorated_lines(ls) == ls.take(undecorated_lines(ls).len() as int),
    decreases ls.len(),
{
    if ls.len() > 0 && decoration(ls.last()) {
        lemma_undecorated_lines(ls.drop_last());
        assert(ls.drop_last().take(undecorated_lines(ls).len() as int) =~= ls.take(
            undecorated_lines(ls).len() as int,
        ));
    } else {
        assert(ls.take(ls.len() as int) =~= ls);
    }
}

proof fn lemma_undecorated_every(s: Seq<char>, p: spec_fn(char) -> bool)
    requires
        text::every(s, p),
        p('\n'),
    ensures
        text::every(undecorated(s), p),
{
    let ls = text::lines(s);
    text::lemma_lines_every(s, p);
    lemma_undecorated_lines(ls);
    let kept = undecorated_lines(ls);
    assert forall|k: int| 0 <= k < kept.len() implies text::every(#[trigger] kept[k], p) by {
        assert(kept[k] == ls[k]);
    }
    text::lemma_joined_every(kept, seq!['\n'], p);
    text::lemma_trimmed_every(text::joined(kept, seq!['\n']), p);
}

/// No angle bracket is left in a flattened text: nothing that shows it can take a part of
/// it for a tag.
pub proof fn law_flat_text_has_no_tags(s: Seq<char>)
    ensures
        !flat(s).contains('<'),
        !flat(s).contains('>'),
{
    let p = |c: char| plain_char(c);
    let bare = no_angles(untagged(seq![], s));
    lemma_no_angles(untagged(seq![], s));
    text::lemma_lines_every(bare, p);
    lemma_squeezed_every(text::lines(bare), p);
    text::lemma_joined_every(squeezed(text::lines(bare)), seq!['\n'], p);
    text::lemma_trimmed_every(text::joined(squeezed(text::lines(bare)), seq!['\n']), p);
    assert(text::every(flat(s), p));
    assert forall|i: int| 0 <= i < flat(s).len() implies !angle(#[trigger] flat(s)[i]) by {
        assert(p(flat(s)[i]));
    }
}

/// No angle bracket is left in an extracted section.
pub proof fn law_section_has_no_tags(body: Seq<char>)
    ensures
        !chinese(body).contains('<'),
        !chinese(body).contains('>'),
{
    let p = |c: char| plain_char(c);
    let plain = flat(section(body));
    law_flat_text_has_no_tags(section(body));
    assert forall|i: int| 0 <= i < plain.len() implies p(#[trigger] plain[i]) by {
        assert(plain.contains(plain[i]));
    }
    lemma_undecorated_every(plain, p);
    let out = undecorated(plain);
    match text::first(out, "Full Changelog"@) {
        Some(i) => {
            text::lemma_first_from(out, "Full Changelog"@, 0);
            assert(text::every(out.take(i), p));
            lemma_undecorated_every(out.take(i), p);
        },
        None => {},
    }
    assert(text::every(chinese(body), p));
    assert forall|i: int| 0 <= i < chinese(body).len() implies !angle(
        #[trigger] chinese(body)[i],
    ) by {
        assert(p(chinese(body)[i]));
    }
}

proof fn lemma_undecorated_has(s: Seq<char>, n: Seq<char>)
    requires
        n.len() > 0,
        !n.contains('\n'),
        text::has(undecorated(s), n),
    ensures
        text::has(s, n),
{
    let ls = text::lines(s);
    lemma_undecorated_lines(ls);
    let kept = undecorated_lines(ls);
    text::lemma_trimmed_has(text::joined(kept, seq!['\n']), n);
    text::lemma_joined_has(kept, n);
    let k = choose|k: int| 0 <= k < kept.len() && text::has(#[trigger] kept[k], n);
    assert(kept[k] == ls[k]);
    text::lemma_line_has(s, n, k);
}

/// An extracted section never holds the link to the full change log, wherever in the body
/// that link stands.
pub proof fn law_section_has_no_changelog(body: Seq<char>)
    ensures
        !text::has(chinese(body), "Full Changelog"@),
{
    let log = "Full Changelog"@;
    reveal_strlit("Full Changelog");
    let out = undecorated(flat(section(body)));
    text::lemma_first_from(out, log, 0);
    match text::first(out, log) {
        Some(i) => {
            if text::has(undecorated(out.take(i)), log) {
                lemma_undecorated_has(out.take(i), log);
                let j = choose|j: int| text::occurs_at(out.take(i), log, j);
                assert(out.subrange(j, j + log.len()) =~= out.take(i).subrange(j, j + log.len()));
                assert(text::occurs_at(out, log, j));
            }
        },
        None => {
            if text::has(out, log) {
                let j = choose|j: int| text::occurs_at(out, log, j);
            }
        },
    }
    if text::has(chinese(body), log) {
        let j = choose|j: int| text::occurs_at(chinese(body), log, j);
    }
}

/// The last line of a text.
pub open spec fn last_line(s: Seq<char>) -> Seq<char> {
    match text::last_char(s, '\n') {
        Some(i) => s.skip(i + 1),
        None => s,
    }
}

/// What follows the last newline is the last line, whatever stands before.
proof fn lemma_last_line(head: Seq<char>, line: Seq<char>)
    requires
        !line.contains('\n'),
    ensures
        last_line(line) == line,
        last_line(head + seq!['\n'] + line) == line,
{
    lemma_no_newline_behind(line, line.len() as int, 0);
    let s = head + seq!['\n'] + line;
    assert forall|i: int| head.len() < i < s.len() implies s[i] != '\n' by {
        assert(s[i] == line[i - head.len() - 1]);
        assert(line.contains(line[i - head.len() - 1]));
    }
    let at = head.len() as int;
    lemma_no_newline_behind(s, s.len() as int, at + 1);
    assert(s[at] == '\n');
    assert(s.skip(at + 1) =~= line);
}

proof fn lemma_no_newline_behind(s: Seq<char>, upto: int, from: int)
    requires
        0 <= from <= upto <= s.len(),
        forall|i: int| from <= i < upto ==> s[i] != '\n',
    ensures
        text::last_char_before(s, '\n', upto) == text::last_char_before(s, '\n', from),
    decreases upto - from,
{
    if from < upto {
        lemma_no_newline_behind(s, upto - 1, from);
    }
}

/// A text that ends in something other than whitespace is not shortened there.
proof fn lemma_rtrim_behind(head: Seq<char>, line: Seq<char>)
    requires
        text::rtrim(line).len() > 0,
    ensures
        text::rtrim(head + line) == head + text::rtrim(line),
    decreases line.len(),
{
    let s = head + line;
    assert(s.last() == line.last());
    if text::space(line.last()) {
        assert(s.drop_last() =~= head + line.drop_last());
        lemma_rtrim_behind(head, line.drop_last());
    }
}

/// What is cut off at the start of a text leaves its end as it was, or cuts into it.
proof fn lemma_ltrim_ahead(head: Seq<char>, line: Seq<char>)
    ensures
        text::ltrim(head + line) == text::ltrim(head) + line && text::ltrim(head).len() > 0
            || text::ltrim(head).len() == 0 && text::ltrim(head + line) == text::ltrim(line),
    decreases head.len(),
{
    let s = head + line;
    if head.len() == 0 {
        assert(s =~= line);
    } else {
        assert(s[0] == head[0]);
        if text::space(head[0]) {
            assert(s.drop_first() =~= head.drop_first() + line);
            lemma_ltrim_ahead(head.drop_first(), line);
        }
    }
}

/// A trimmed text has nothing more to trim.
proof fn lemma_trimmed_once(s: Seq<char>)
    ensures
        text::trimmed(text::trimmed(s)) == text::trimmed(s),
        text::rtrim(text::trimmed(s)) == text::trimmed(s),
{
    let r = text::rtrim(s);
    lemma_rtrim_end(s);
    text::lemma_ltrim_suffix(r);
    lemma_ltrim_start(r);
    let t = text::ltrim(r);
    if t.len() > 0 {
        assert(t.last() == r.last());
    }
}

proof fn lemma_rtrim_end(s: Seq<char>)
    ensures
        text::rtrim(s).len() > 0 ==> !text::space(text::rtrim(s).last()),
        text::rtrim(text::rtrim(s)) == text::rtrim(s),
    decreases s.len(),
{
    if s.len() > 0 && text::space(s.last()) {
        lemma_rtrim_end(s.drop_last());
    }
}

proof fn lemma_ltrim_start(s: Seq<char>)
    ensures
        text::ltrim(s).len() > 0 ==> !text::space(text::ltrim(s)[0]),
        text::ltrim(text::ltrim(s)) == text::ltrim(s),
    decreases s.len(),
{
    if s.len() > 0 && text::space(s[0]) {
        lemma_ltrim_start(s.drop_first());
    }
}

/// The lines of a text have no newline in them.
proof fn lemma_lines_are_single(s: Seq<char>)
    ensures
        forall|k: int| 0 <= k < text::lines(s).len() ==> !(#[trigger] text::lines(s)[k]).contains('\n'),
    decreases s.len(),
{
    if s.len() > 0 {
        text::lemma_first_char_from(s, '\n', 0);
        match text::first_char(s, '\n') {
            None => {},
            Some(i) => {
                let rest = s.skip(i + 1);
                lemma_lines_are_single(rest);
                let all = text::lines(s);
                assert forall|k: int| 0 <= k < all.len() implies !(#[trigger] all[k]).contains(
                    '\n',
                ) by {
                    if k > 0 {
                        assert(all[k] == text::lines(rest)[k - 1]);
                    } else {
                        let line = text::chomp(s.take(i));
                        assert(all[0] == line);
                        if line.contains('\n') {
                            let j = choose|j: int| 0 <= j < line.len() && line[j] == '\n';
                            assert(s[j] == '\n');
                        }
                    }
                }
            },
        }
    }
}

proof fn lemma_undecorated_end(s: Seq<char>)
    ensures
        text::trimmed(undecorated(s)) == undecorated(s),
        undecorated(s).len() > 0 ==> !decoration(last_line(undecorated(s))),
{
    let ls = text::lines(s);
    let kept = undecorated_lines(ls);
    let whole = text::joined(kept, seq!['\n']);
    lemma_trimmed_once(whole);
    lemma_undecorated_lines(ls);
    lemma_lines_are_single(s);
    if undecorated(s).len() > 0 {
        if kept.len() == 0 {
            assert(text::rtrim(whole) =~= seq![]);
            assert(false);
        }
        lemma_kept_end(ls);
        let line = kept.last();
        assert(line == ls[kept.len() - 1]);
        let cut = text::rtrim(line);
        text::lemma_ltrim_len(cut);
        assert(cut.len() > 0);
        text::lemma_rtrim_prefix(line);
        assert(!cut.contains('\n')) by {
            if cut.contains('\n') {
                let j = choose|j: int| 0 <= j < cut.len() && cut[j] == '\n';
                assert(line[j] == '\n');
            }
        }
        let inner = text::ltrim(cut);
        text::lemma_ltrim_suffix(cut);
        assert(!inner.contains('\n')) by {
            if inner.contains('\n') {
                let j = choose|j: int| 0 <= j < inner.len() && inner[j] == '\n';
                assert(cut[cut.len() - inner.len() + j] == '\n');
            }
        }
        lemma_trimmed_once(line);
        lemma_rtrim_end(line);
        if kept.len() == 1 {
            assert(whole == line);
            lemma_last_line(seq![], inner);
        } else {
            let head = text::joined(kept.drop_last(), seq!['\n']) + seq!['\n'];
            assert(whole == head + line);
            lemma_rtrim_behind(head, line);
            lemma_ltrim_ahead(head, cut);
            if text::ltrim(head).len() > 0 {
                text::lemma_ltrim_suffix(head);
                let h = text::ltrim(head);
                assert(h.last() == '\n');
                assert(h =~= h.drop_last() + seq!['\n']);
                assert(undecorated(s) == h.drop_last() + seq!['\n'] + cut);
                lemma_last_line(h.drop_last(), cut);
                assert(text::trimmed(cut) == inner);
            } else {
                lemma_last_line(seq![], inner);
            }
        }
    }
}

proof fn lemma_kept_end(ls: Seq<Seq<char>>)
    ensures
        undecorated_lines(ls).len() > 0 ==> !decoration(undecorated_lines(ls).last()),
    decreases ls.len(),
{
    if ls.len() > 0 && decoration(ls.last()) {
        lemma_kept_end(ls.drop_last());
    }
}

/// An extracted section has no whitespace at its ends, and its last line is none that only
/// decorates: not `---`, `***` or `___`, and no link to the change log.
pub proof fn law_section_ends_undecorated(body: Seq<char>)
    ensures
        text::trimmed(chinese(body)) == chinese(body),
        chinese(body).len() > 0 ==> !decoration(last_line(chinese(body))),
{
    let out = undecorated(flat(section(body)));
    lemma_undecorated_end(flat(section(body)));
    match text::first(out, "Full Changelog"@) {
        Some(i) => {
            lemma_undecorated_end(out.take(i));
        },
        None => {},
    }
}

/// The anchors of an English section.
pub open spec fn english_anchor(a: Seq<char>) -> bool {
    a == "id=\"english\""@ || a == "id=\"en\""@ || a == "id=\"en-"@ || a == "id=\"en_"@
}

/// What is taken of a body with a Chinese anchor ends before the English section: no anchor of
/// one stands in it.
pub proof fn law_section_ends_before_the_english_one(body: Seq<char>, anchor: Seq<char>)
    requires
        cn_anchor(body) is Some,
        english_anchor(anchor),
    ensures
        !text::has(section(body), anchor),
{
    reveal_strlit("id=\"english\"");
    reveal_strlit("id=\"en\"");
    reveal_strlit("id=\"en-");
    reveal_strlit("id=\"en_");
    reveal_strlit("### ");
    let rest = behind_tag(body, cn_anchor(body)->0);
    text::lemma_first_from(rest, "id=\"english\""@, 0);
    text::lemma_first_from(rest, "id=\"en\""@, 0);
    text::lemma_first_from(rest, "id=\"en-"@, 0);
    text::lemma_first_from(rest, "id=\"en_"@, 0);
    let part = match en_anchor(rest) {
        Some(j) => before_tag(rest, j),
        None => rest,
    };
    if en_anchor(rest) is Some {
        text::lemma_last_char_before(
            rest.take(en_anchor(rest)->0),
            '<',
            en_anchor(rest)->0,
        );
    }
    assert(part =~= rest.take(part.len() as int));
    let whole = section(body);
    assert(whole == "### "@ + part);
    if text::has(whole, anchor) {
        let k = choose|k: int| text::occurs_at(whole, anchor, k);
        assert(whole[k] == whole.subrange(k, k + anchor.len())[0]);
        assert(anchor[0] == 'i');
        assert(k >= 4);
        assert(rest.subrange(k - 4, k - 4 + anchor.len()) =~= whole.subrange(k, k + anchor.len()));
        assert(text::occurs_at(rest, anchor, k - 4));
        assert(text::first(rest, anchor) is Some);
        assert(text::first(rest, anchor)->0 <= k - 4);
        assert(en_anchor(rest) is Some && en_anchor(rest)->0 <= k - 4);
    }
}

/// A release that is published, under a tag that is `dsh-v` and a version, is read with its
/// page and its body, whatever else is said of it.
pub proof fn law_published_release_is_read(item: Tree, v: Seq<char>)
    requires
        json::str_of(json::get(item, "tag_name"@)) == Some("dsh-v"@ + v),
        json::bool_of(json::get(item, "draft"@)) != Some(true),
    ensures
        release_entry(item) is Some,
        release_entry(item)->Some_0.0 == v,
        json::get(item, "html_url"@) matches Some(Tree::Str(u)) ==> release_entry(item)->Some_0.1.0
            == u,
        json::get(item, "body"@) matches Some(Tree::Str(b)) ==> release_entry(item)->Some_0.1.1
            == b,
        !(json::get(item, "html_url"@) matches Some(Tree::Str(_))) ==> release_entry(
            item,
        )->Some_0.1.0.len() == 0,
        !(json::get(item, "body"@) matches Some(Tree::Str(_))) ==> release_entry(
            item,
        )->Some_0.1.1.len() == 0,
{
    text::law_prefix_is_taken_off("dsh-v"@, v, Seq::empty());
}

/// A draft is no release of dsh, nor is anything under a tag that does not begin with `dsh-v`.
pub proof fn law_drafts_and_other_tags_are_left_out(item: Tree)
    ensures
        json::bool_of(json::get(item, "draft"@)) == Some(true) ==> release_entry(item) is None,
        json::str_of(json::get(item, "tag_name"@)) is None ==> release_entry(item) is None,
        json::str_of(json::get(item, "tag_name"@)) matches Some(tag) ==> !("dsh-v"@.is_prefix_of(
            tag,
        )) ==> release_entry(item) is None,
{
    if let Some(tag) = json::str_of(json::get(item, "tag_name"@)) {
        if text::starts(tag, "dsh-v"@) {
            assert(tag.subrange(0, "dsh-v"@.len() as int) =~= "dsh-v"@);
        }
    }
}

/// Of the releases of a version the last one counts; others do not touch it.
pub proof fn law_last_release_of_a_version_counts(items: Seq<Tree>, item: Tree, v: Seq<char>)
    ensures
        release_at(Seq::<Tree>::empty(), v) is None,
        json::str_of(json::get(item, "tag_name"@)) == Some("dsh-v"@ + v) && json::bool_of(
            json::get(item, "draft"@),
        ) != Some(true) ==> release_at(items.push(item), v) is Some && release_at(
            items.push(item),
            v,
        ) == Some(release_entry(item)->Some_0.1),
        json::str_of(json::get(item, "tag_name"@)) != Some("dsh-v"@ + v) || json::bool_of(
            json::get(item, "draft"@),
        ) == Some(true) ==> release_at(items.push(item), v) == release_at(items, v),
{
    assert(items.push(item).drop_last() =~= items);
    law_drafts_and_other_tags_are_left_out(item);
    if json::str_of(json::get(item, "tag_name"@)) == Some("dsh-v"@ + v) && json::bool_of(
        json::get(item, "draft"@),
    ) != Some(true) {
        law_published_release_is_read(item, v);
    } else if let Some(tag) = json::str_of(json::get(item, "tag_name"@)) {
        text::law_prefix_is_taken_off("dsh-v"@, Seq::empty(), tag);
    }
}

/// A list of releases is read into a table in which each version has its release; an answer
/// that is no list is refused, and so is one without a release.
pub proof fn law_releases_are_found_by_version(
    raw: &str,
    v: Seq<char>,
    r: Option<Vec<(String, RawNote)>>,
    from: Result<Vec<(String, RawNote)>, String>,
)
    requires
        call_ensures(parse_releases, (raw,), r),
        call_ensures(releases_from, (r,), from),
    ensures
        r is Some <==> (json::json_read(raw@) matches Ok(t) && t is Arr),
        r matches Some(notes) ==> {
            let items = json::json_read(raw@)->Ok_0->Arr_0;
            &&& noted(notes@, v) == release_at(items, v)
            &&& table::unique(notes@)
        },
        from is Ok <==> r is Some && r->Some_0@.len() > 0,
        from matches Ok(notes) ==> Some(notes) == r,
{
}

/// The notes of a version are shown from what was kept for two hours; a version that was asked
/// for and has none is not asked for again meanwhile. All else is fetched.
pub proof fn law_kept_notes_last_two_hours(
    version: &str,
    cache: &NotesCache,
    now_ms: u64,
    r: Lookup,
    without: Lookup,
)
    requires
        call_ensures(notes, (version, Some(cache), now_ms), r),
        call_ensures(notes, (version, None::<&NotesCache>, now_ms), without),
    ensures
        without is Fetch,
        r is Fetch <==> cache.notes@.len() == 0 || now_ms - cache.fetched_at_ms >= 2 * 60 * 60
            * 1000 || (noted(cache.notes@, version@) is None && !text::texts(
            cache.absent@,
        ).contains(version@)),
        r matches Lookup::Found(n) ==> {
            &&& noted(cache.notes@, version@) is Some
            &&& n.version@ == version@
            &&& n.url@ == noted(cache.notes@, version@)->Some_0.0
            &&& n.body@ == chinese(noted(cache.notes@, version@)->Some_0.1)
            &&& n.cached
        },
        r is Missing ==> noted(cache.notes@, version@) is None,
{
}

/// Notes that were fetched are shown as fetched and are kept as of now, all of them. A version
/// without notes is kept as such, beside those that were before.
pub proof fn law_fetched_notes_are_kept(
    version: &str,
    fresh: Vec<(String, RawNote)>,
    cache: Option<NotesCache>,
    now_ms: u64,
    r: (NotesCache, Option<Note>),
    w: Seq<char>,
)
    requires
        call_ensures(notes_fetched, (version, fresh, cache, now_ms), r),
    ensures
        r.1 is Some <==> noted(fresh@, version@) is Some,
        r.1 matches Some(n) ==> n.version@ == version@ && !n.cached && n.url@ == noted(
            fresh@,
            version@,
        )->Some_0.0 && n.body@ == chinese(noted(fresh@, version@)->Some_0.1),
        r.0.notes@ == fresh@ && r.0.fetched_at_ms == now_ms,
        r.1 is None ==> text::texts(r.0.absent@).contains(version@),
        (cache matches Some(c) && c.notes@.len() > 0 && text::texts(c.absent@).contains(w))
            ==> text::texts(r.0.absent@).contains(w),
        text::texts(r.0.absent@).contains(w) ==> (w == version@ && r.1 is None) || (cache matches
            Some(c) && text::texts(c.absent@).contains(w)),
{
    let known = known_absent(cache);
    let after = text::texts(r.0.absent@);
    if r.1 is None && !known.contains(version@) {
        assert(after =~= known.push(version@));
        assert(after[known.len() as int] == version@);
        if known.contains(w) {
            let i = choose|i: int| 0 <= i < known.len() && known[i] == w;
            assert(after[i] == w);
        }
        if after.contains(w) {
            let i = choose|i: int| 0 <= i < after.len() && after[i] == w;
            if i < known.len() {
                assert(known[i] == w);
            }
        }
    }
}

/// What node fetched is what it printed where it ended well; else it is a failure that ends in
/// the reason.
pub proof fn law_fetch_is_what_node_prints(ran: Result<Output, String>, r: Result<String, String>)
    requires
        ran matches Ok(out) ==> out.succeeded() || out.can_diagnose(),
        call_ensures(fetched, (ran,), r),
    ensures
        r is Ok <==> (ran matches Ok(out) && !out.timed_out && out.code == Some(0i32)),
        r matches Ok(s) ==> s@ == ran->Ok_0.stdout@,
        ran matches Err(why) ==> text::ends(r->Err_0@, why@),
        ran is Ok && r is Err ==> text::ends(r->Err_0@, ran->Ok_0.diagnosis()),
{
    if r is Err {
        let e = r->Err_0@;
        let why = match ran {
            Err(w) => w@,
            Ok(out) => out.diagnosis(),
        };
        assert(e.subrange(e.len() - why.len(), e.len() as int) =~= why);
    }
}

proof fn lemma_first_from_behind(s: Seq<char>, c: char, i: int)
    requires
        0 <= i < s.len(),
        s[i] == c,
        forall|j: int| 0 <= j < i ==> s[j] != c,
    ensures
        text::first_char(s, c) == Some(i),
{
    text::lemma_first_char_from(s, c, 0);
}

/// A tag is dropped with all that stands in it, and the text before it stays. In place of a
/// second or third heading stands its mark, on a line of its own, and in place of a break a
/// newline; a `<` without a `>` behind it is no tag.
#[verifier::rlimit(50)]
pub proof fn law_tags_are_dropped(out: Seq<char>, a: Seq<char>, t: Seq<char>, b: Seq<char>)
    requires
        !a.contains('<'),
        !t.contains('>'),
    ensures
        untagged(out, a) == out + a,
        untagged(out, a + seq!['<'] + t) == out + a + seq!['<'] + t,
        !("<h2"@.is_prefix_of(text::lower(seq!['<'] + t + seq!['>'])))
            && !("<h3"@.is_prefix_of(text::lower(seq!['<'] + t + seq!['>'])))
            && !("<br"@.is_prefix_of(text::lower(seq!['<'] + t + seq!['>']))) ==> untagged(
            out,
            a + seq!['<'] + t + seq!['>'] + b,
        ) == untagged(out + a, b),
        "<br"@.is_prefix_of(text::lower(seq!['<'] + t + seq!['>'])) ==> untagged(
            out,
            a + seq!['<'] + t + seq!['>'] + b,
        ) == untagged(out + a + "\n"@, b),
        ("<h2"@.is_prefix_of(text::lower(seq!['<'] + t + seq!['>'])) || "<h3"@.is_prefix_of(
            text::lower(seq!['<'] + t + seq!['>']),
        )) && (out + a).len() > 0 && (out + a).last() != '\n' ==> untagged(
            out,
            a + seq!['<'] + t + seq!['>'] + b,
        ) == untagged(out + a + "\n\n### "@, b),
        ("<h2"@.is_prefix_of(text::lower(seq!['<'] + t + seq!['>'])) || "<h3"@.is_prefix_of(
            text::lower(seq!['<'] + t + seq!['>']),
        )) && ((out + a).len() == 0 || (out + a).last() == '\n') ==> untagged(
            out,
            a + seq!['<'] + t + seq!['>'] + b,
        ) == untagged(out + a + "\n### "@, b),
{
    let tag = seq!['<'] + t + seq!['>'];
    let s = a + seq!['<'] + t + seq!['>'] + b;
    text::lemma_first_char_from(a, '<', 0);
    assert(s[a.len() as int] == '<');
    assert forall|j: int| 0 <= j < a.len() implies s[j] != '<' by {
        assert(s[j] == a[j]);
    }
    lemma_first_from_behind(s, '<', a.len() as int);
    assert(s.take(a.len() as int) =~= a);
    let tail = s.skip(a.len() as int);
    assert(tail =~= tag + b);
    let e = (t.len() + 1) as int;
    assert forall|j: int| 0 <= j < e implies tail[j] != '>' by {
        if j > 0 {
            assert(tail[j] == t[j - 1]);
        }
    }
    assert(tail[e] == '>');
    lemma_first_from_behind(tail, '>', e);
    assert(tail.take(e + 1) =~= tag);
    assert(tail.skip(e + 1) =~= b);
    assert(untagged(out, s) == untagged(out + a + mark(out + a, text::lower(tag)), b));
    lemma_prefix_starts(text::lower(tag), "<h2"@);
    lemma_prefix_starts(text::lower(tag), "<h3"@);
    lemma_prefix_starts(text::lower(tag), "<br"@);
    assert(out + a + Seq::<char>::empty() =~= out + a);
    reveal_strlit("<h2");
    reveal_strlit("<h3");
    reveal_strlit("<br");
    if text::starts(text::lower(tag), "<br"@) {
        assert(text::lower(tag).subrange(0, 3)[1] == 'b');
        if text::starts(text::lower(tag), "<h2"@) {
            assert(text::lower(tag).subrange(0, 3)[1] == 'h');
        }
        if text::starts(text::lower(tag), "<h3"@) {
            assert(text::lower(tag).subrange(0, 3)[1] == 'h');
        }
    }
    let open = a + seq!['<'] + t;
    assert(open[a.len() as int] == '<');
    assert forall|j: int| 0 <= j < a.len() implies open[j] != '<' by {
        assert(open[j] == a[j]);
    }
    lemma_first_from_behind(open, '<', a.len() as int);
    assert(open.take(a.len() as int) =~= a);
    let rest = open.skip(a.len() as int);
    assert(rest =~= seq!['<'] + t);
    text::lemma_first_char_from(rest, '>', 0);
    assert forall|j: int| 0 <= j < rest.len() implies rest[j] != '>' by {
        if j > 0 {
            assert(rest[j] == t[j - 1]);
        }
    }
    assert(out + a + rest =~= out + a + seq!['<'] + t);
}

proof fn lemma_prefix_starts(s: Seq<char>, p: Seq<char>)
    ensures
        text::starts(s, p) <==> p.is_prefix_of(s),
{
    if p.is_prefix_of(s) {
        assert(s.subrange(0, p.len() as int) =~= p);
    }
    if text::starts(s, p) {
        assert(p =~= s.subrange(0, p.len() as int));
    }
}

/// Of a flattened text only the angle brackets go; every other character stays, in its order.
pub proof fn law_only_angle_brackets_go(a: Seq<char>, b: Seq<char>, c: char)
    ensures
        no_angles(a + b) == no_angles(a) + no_angles(b),
        c != '<' && c != '>' ==> no_angles(seq![c]) == seq![c],
        no_angles(seq!['<']) == Seq::<char>::empty() && no_angles(seq!['>']) == Seq::<
            char,
        >::empty(),
    decreases b.len(),
{
    assert(seq![c].drop_last() =~= Seq::<char>::empty());
    assert(seq!['<'].drop_last() =~= Seq::<char>::empty());
    assert(seq!['>'].drop_last() =~= Seq::<char>::empty());
    assert(no_angles(Seq::<char>::empty()) =~= Seq::<char>::empty());
    assert(Seq::<char>::empty().push(c) =~= seq![c]);
    if b.len() == 0 {
        assert(a + b =~= a);
    } else {
        assert((a + b).drop_last() =~= a + b.drop_last());
        assert((a + b).last() == b.last());
        law_only_angle_brackets_go(a, b.drop_last(), c);
    }
}

/// Of several blank lines in a row one stays; every line that is not blank stays, without the
/// whitespace at its end, in its order.
pub proof fn law_blank_lines_are_squeezed(ls: Seq<Seq<char>>, line: Seq<char>, i: int)
    ensures
        squeezed(Seq::<Seq<char>>::empty()) == Seq::<Seq<char>>::empty(),
        text::trimmed(text::rtrim(line)).len() > 0 ==> squeezed(ls.push(line)) == squeezed(ls).push(
            text::rtrim(line),
        ),
        text::trimmed(text::rtrim(line)).len() == 0 && (squeezed(ls).len() == 0 || text::trimmed(
            squeezed(ls).last(),
        ).len() > 0) ==> squeezed(ls.push(line)) == squeezed(ls).push(text::rtrim(line)),
        text::trimmed(text::rtrim(line)).len() == 0 && squeezed(ls).len() > 0 && text::trimmed(
            squeezed(ls).last(),
        ).len() == 0 ==> squeezed(ls.push(line)) == squeezed(ls),
        0 <= i < squeezed(ls).len() - 1 ==> text::trimmed(squeezed(ls)[i]).len() > 0
            || text::trimmed(squeezed(ls)[i + 1]).len() > 0,
    decreases ls.len(),
{
    assert(ls.push(line).drop_last() =~= ls);
    if ls.len() > 0 {
        law_blank_lines_are_squeezed(ls.drop_last(), line, i);
    }
}

/// A text of one line without angle brackets, and without whitespace around it, is flat
/// already.
pub proof fn law_plain_text_stays(s: Seq<char>, r: String, raw: &str)
    requires
        call_ensures(normalize_markup, (raw,), r),
        raw@ == s,
        s.len() > 0,
        !s.contains('<'),
        !s.contains('>'),
        !s.contains('\n'),
        !text::space(s[0]) && !text::space(s.last()),
    ensures
        r@ == s,
{
    lemma_flat_plain(s);
}

/// A text of one line without angle brackets and without whitespace around it.
pub open spec fn plain_line(s: Seq<char>) -> bool {
    &&& s.len() > 0
    &&& !s.contains('<') && !s.contains('>') && !s.contains('\n')
    &&& !text::space(s[0]) && !text::space(s.last())
}

proof fn lemma_flat_plain(s: Seq<char>)
    requires
        plain_line(s),
    ensures
        flat(s) == s,
{
    let none = Seq::<char>::empty();
    law_tags_are_dropped(none, s, none, none);
    assert(none + s =~= s);
    lemma_no_angles_same(s);
    text::law_lines_end_at_newlines(s, none);
    assert(seq![s].drop_last() =~= Seq::<Seq<char>>::empty());
    assert(seq![s].last() == s);
    assert(text::rtrim(s) == s);
    text::law_trimming_takes_whitespace_only(none, s, none);
    assert(none + s + none =~= s);
    assert(squeezed(Seq::<Seq<char>>::empty()) =~= Seq::<Seq<char>>::empty());
    assert(squeezed(seq![s]) =~= seq![s]);
    text::law_joining_puts_the_separator_between(seq![s], seq![s], seq!['\n']);
}

proof fn lemma_no_angles_same(s: Seq<char>)
    requires
        !s.contains('<'),
        !s.contains('>'),
    ensures
        no_angles(s) == s,
    decreases s.len(),
{
    if s.len() > 0 {
        let h = s.drop_last();
        assert(s.contains(s[s.len() - 1]));
        assert forall|i: int| 0 <= i < h.len() implies h[i] != '<' && h[i] != '>' by {
            assert(s.contains(s[i]));
            assert(h[i] == s[i]);
        }
        lemma_no_angles_same(h);
        assert(s =~= h.push(s.last()));
    }
}

/// One of the anchors of the Chinese section.
pub open spec fn chinese_anchor(a: Seq<char>) -> bool {
    a == "id=\"chinese\""@ || a == "id=\"cn\""@ || a == "id=\"cn-"@ || a == "id=\"cn_"@
}

proof fn lemma_first_means(s: Seq<char>, n: Seq<char>)
    ensures
        text::first(s, n) matches Some(i) ==> 0 <= i && text::occurs_at(s, n, i) && forall|j: int|
            0 <= j < i ==> !text::occurs_at(s, n, j),
        text::first(s, n) is None ==> !text::has(s, n),
{
    text::lemma_first_from(s, n, 0);
}

/// The Chinese section is found by the first of its anchors, whichever that is, and the
/// English one likewise.
pub proof fn law_sections_begin_at_the_first_anchor(s: Seq<char>, a: Seq<char>, j: int)
    ensures
        chinese_anchor(a) && text::occurs_at(s, a, j) ==> cn_anchor(s) is Some
            && cn_anchor(s)->Some_0 <= j,
        cn_anchor(s) matches Some(i) ==> exists|b: Seq<char>| #[trigger]
            chinese_anchor(b) && text::occurs_at(s, b, i),
        english_anchor(a) && text::occurs_at(s, a, j) ==> en_anchor(s) is Some
            && en_anchor(s)->Some_0 <= j,
        en_anchor(s) matches Some(i) ==> exists|b: Seq<char>| #[trigger]
            english_anchor(b) && text::occurs_at(s, b, i),
{
    lemma_first_means(s, "id=\"chinese\""@);
    lemma_first_means(s, "id=\"cn\""@);
    lemma_first_means(s, "id=\"cn-"@);
    lemma_first_means(s, "id=\"cn_"@);
    lemma_first_means(s, "id=\"english\""@);
    lemma_first_means(s, "id=\"en\""@);
    lemma_first_means(s, "id=\"en-"@);
    lemma_first_means(s, "id=\"en_"@);
    assert(chinese_anchor("id=\"chinese\""@) && chinese_anchor("id=\"cn\""@) && chinese_anchor(
        "id=\"cn-"@,
    ) && chinese_anchor("id=\"cn_"@));
    assert(english_anchor("id=\"english\""@) && english_anchor("id=\"en\""@) && english_anchor(
        "id=\"en-"@,
    ) && english_anchor("id=\"en_"@));
}

/// The Chinese section reaches from behind the tag that holds its anchor to before the tag
/// that holds the next English anchor, or to the end where there is none.
pub proof fn law_section_lies_between_the_anchors(
    head: Seq<char>,
    attributes: Seq<char>,
    mid: Seq<char>,
    tag: Seq<char>,
    rest: Seq<char>,
)
    requires
        cn_anchor(head + attributes + seq!['>'] + mid + seq!['<'] + tag + rest) == Some(
            head.len() as int,
        ),
        !attributes.contains('>'),
        !tag.contains('<'),
        en_anchor(mid + seq!['<'] + tag + rest) == Some((mid.len() + 1 + tag.len()) as int),
    ensures
        section(head + attributes + seq!['>'] + mid + seq!['<'] + tag + rest) == "### "@ + mid,
{
    let body = head + attributes + seq!['>'] + mid + seq!['<'] + tag + rest;
    let i = head.len() as int;
    let s = body.skip(i);
    let n = attributes.len() as int;
    assert(s[n] == '>');
    assert forall|j: int| 0 <= j < n implies s[j] != '>' by {
        assert(s[j] == attributes[j]);
    }
    lemma_first_from_behind(s, '>', n);
    let behind = mid + seq!['<'] + tag + rest;
    assert(body.skip(i + n + 1) =~= behind);
    let j = (mid.len() + 1 + tag.len()) as int;
    let upto = behind.take(j);
    assert(upto =~= mid + seq!['<'] + tag);
    lemma_last_is(upto, '<', mid.len() as int, j);
    assert(behind.take(mid.len() as int) =~= mid);
}

/// Without an English anchor behind it the Chinese section reaches to the end.
pub proof fn law_section_reaches_to_the_end(head: Seq<char>, attributes: Seq<char>, mid: Seq<char>)
    requires
        cn_anchor(head + attributes + seq!['>'] + mid) == Some(head.len() as int),
        !attributes.contains('>'),
        en_anchor(mid) is None,
    ensures
        section(head + attributes + seq!['>'] + mid) == "### "@ + mid,
{
    let body = head + attributes + seq!['>'] + mid;
    let i = head.len() as int;
    let s = body.skip(i);
    let n = attributes.len() as int;
    assert(s[n] == '>');
    assert forall|j: int| 0 <= j < n implies s[j] != '>' by {
        assert(s[j] == attributes[j]);
    }
    lemma_first_from_behind(s, '>', n);
    assert(body.skip(i + n + 1) =~= mid);
}

proof fn lemma_last_is(s: Seq<char>, c: char, i: int, upto: int)
    requires
        0 <= i < upto <= s.len(),
        s[i] == c,
        forall|j: int| i < j < upto ==> s[j] != c,
    ensures
        text::last_char_before(s, c, upto) == Some(i),
    decreases upto - i,
{
    if upto - 1 > i {
        lemma_last_is(s, c, i, upto - 1);
    }
}

/// A body without an anchor is taken whole, from the first character that is no whitespace on,
/// up to a `Full Changelog`; a line that switches between the languages at its start is left
/// out.
pub proof fn law_body_without_anchors_is_taken_whole(
    w: Seq<char>,
    nav: Seq<char>,
    s: Seq<char>,
)
    requires
        text::every(w, |c: char| text::space(c)),
        s.len() > 0 && !text::space(s[0]),
        !("[中文]"@.is_prefix_of(s)),
        !text::has(s, "Full Changelog"@),
        !nav.contains('\n'),
    ensures
        cn_anchor(w + s) is None ==> section(w + s) == s,
        cn_anchor("[中文]"@ + nav + seq!['\n'] + s) is None ==> section(
            "[中文]"@ + nav + seq!['\n'] + s,
        ) == s,
{
    text::lemma_trimmed_spaces(w, s);
    lemma_prefix_starts(s, "[中文]"@);
    lemma_first_means(s, "Full Changelog"@);
    text::lemma_first_from(s, "Full Changelog"@, 0);
    if let Some(i) = text::first(s, "Full Changelog"@) {
        assert(text::has(s, "Full Changelog"@));
    }
    reveal_strlit("[中文]");
    let m = "[中文]"@;
    let line = m + nav;
    let body = m + nav + seq!['\n'] + s;
    assert(body[0] == '[');
    assert(text::ltrim(body) == body);
    assert(body.subrange(0, m.len() as int) =~= m);
    assert forall|j: int| 0 <= j < line.len() implies body[j] != '\n' by {
        if j >= m.len() {
            assert(body[j] == nav[j - m.len()]);
        }
    }
    lemma_first_from_behind(body, '\n', line.len() as int);
    assert(body.skip((line.len() + 1) as int) =~= s);
}

/// At the end of a section blank lines, rules and the changelog go; a line that is none of
/// these ends it, and all before it stays.
pub proof fn law_only_decoration_is_cut_off(ls: Seq<Seq<char>>, line: Seq<char>)
    ensures
        text::trimmed(line).len() == 0 || text::trimmed(line) == "---"@ || text::trimmed(line)
            == "***"@ || text::trimmed(line) == "___"@ || "Full Changelog"@.is_prefix_of(
            text::trimmed(line),
        ) ==> undecorated_lines(ls.push(line)) == undecorated_lines(ls),
        !(text::trimmed(line).len() == 0 || text::trimmed(line) == "---"@ || text::trimmed(line)
            == "***"@ || text::trimmed(line) == "___"@ || "Full Changelog"@.is_prefix_of(
            text::trimmed(line),
        )) ==> undecorated_lines(ls.push(line)) == ls.push(line),
{
    assert(ls.push(line).drop_last() =~= ls);
    lemma_prefix_starts(text::trimmed(line), "Full Changelog"@);
}

proof fn lemma_chinese_plain(body: Seq<char>, s: Seq<char>)
    requires
        section(body) == s,
        plain_line(s),
        !text::has(s, "Full Changelog"@),
        !("[中文]"@.is_prefix_of(s)),
        s != "---"@ && s != "***"@ && s != "___"@,
    ensures
        chinese(body) == s,
{
    let none = Seq::<char>::empty();
    lemma_flat_plain(s);
    text::law_lines_end_at_newlines(s, none);
    text::law_trimming_takes_whitespace_only(none, s, none);
    assert(none + s + none =~= s);
    lemma_first_means(s, "Full Changelog"@);
    if let Some(i) = text::first(s, "Full Changelog"@) {
        assert(text::has(s, "Full Changelog"@));
    }
    if text::starts(s, "Full Changelog"@) {
        assert(text::occurs_at(s, "Full Changelog"@, 0));
        assert(text::has(s, "Full Changelog"@));
    }
    assert(seq![s].last() == s);
    assert(undecorated_lines(seq![s]) == seq![s]);
    text::law_joining_puts_the_separator_between(seq![s], seq![s], seq!['\n']);
    lemma_prefix_starts(s, "[中文]"@);
}

/// Notes of one line that have nothing to take away are shown as they are.
pub proof fn law_plain_notes_are_shown_whole(body: &str, r: String)
    requires
        call_ensures(extract_cn, (body,), r),
        plain_line(body@),
        cn_anchor(body@) is None,
        !text::has(body@, "Full Changelog"@),
        !("[中文]"@.is_prefix_of(body@)),
        body@ != "---"@ && body@ != "***"@ && body@ != "___"@,
    ensures
        r@ == body@,
{
    let none = Seq::<char>::empty();
    law_body_without_anchors_is_taken_whole(none, none, body@);
    assert(none + body@ =~= body@);
    lemma_chinese_plain(body@, body@);
}

/// Of notes in two languages the Chinese line between the anchors is shown, under its heading.
pub proof fn law_chinese_line_is_shown(
    body: &str,
    head: Seq<char>,
    attributes: Seq<char>,
    mid: Seq<char>,
    tag: Seq<char>,
    rest: Seq<char>,
    r: String,
)
    requires
        call_ensures(extract_cn, (body,), r),
        body@ == head + attributes + seq!['>'] + mid + seq!['<'] + tag + rest,
        cn_anchor(body@) == Some(head.len() as int),
        !attributes.contains('>'),
        !tag.contains('<'),
        en_anchor(mid + seq!['<'] + tag + rest) == Some((mid.len() + 1 + tag.len()) as int),
        plain_line(mid),
        !text::has("### "@ + mid, "Full Changelog"@),
    ensures
        r@ == "### "@ + mid,
{
    law_section_lies_between_the_anchors(head, attributes, mid, tag, rest);
    reveal_strlit("### ");
    reveal_strlit("[中文]");
    reveal_strlit("---");
    reveal_strlit("***");
    reveal_strlit("___");
    let s = "### "@ + mid;
    assert(s[0] == '#');
    assert(s.last() == mid.last());
    assert forall|i: int| 0 <= i < s.len() implies s[i] != '<' && s[i] != '>' && s[i] != '\n' by {
        if i >= 4 {
            assert(s[i] == mid[i - 4]);
            assert(mid.contains(mid[i - 4]));
        }
    }
    assert("---"@[0] != '#' && "***"@[0] != '#' && "___"@[0] != '#' && "[中文]"@[0] != '#');
    lemma_chinese_plain(body@, s);
}

/// A line that only switches between the languages is nothing to show.
pub proof fn law_language_switch_is_no_note(line: Seq<char>)
    ensures
        nav_line(line) <==> "[中文]"@.is_prefix_of(line) && text::has(line, "[English]"@),
{
    lemma_prefix_starts(line, "[中文]"@);
}

#[verifier::rlimit(50)]
proof fn lemma_plain_lines(ls: Seq<Seq<char>>)
    requires
        ls.len() > 0,
        forall|k: int| 0 <= k < ls.len() ==> plain_line(#[trigger] ls[k]),
    ensures
        text::lines(text::joined(ls, seq!['\n'])) == ls,
        !text::joined(ls, seq!['\n']).contains('<'),
        !text::joined(ls, seq!['\n']).contains('>'),
        text::joined(ls, seq!['\n']).len() > 0,
        !text::space(text::joined(ls, seq!['\n'])[0]),
        !text::space(text::joined(ls, seq!['\n']).last()),
        squeezed(ls) == ls,
    decreases ls.len(),
{
    let a = ls[0];
    let nl = seq!['\n'];
    assert(plain_line(ls[0]));
    lemma_squeezed_plain(ls);
    if ls.len() == 1 {
        assert(ls =~= seq![a]);
        text::law_joining_puts_the_separator_between(seq![a], seq![a], nl);
        text::law_lines_end_at_newlines(a, Seq::empty());
    } else {
        let rest = ls.drop_first();
        assert forall|k: int| 0 <= k < rest.len() implies plain_line(#[trigger] rest[k]) by {
            assert(rest[k] == ls[k + 1]);
        }
        lemma_plain_lines(rest);
        assert(ls =~= seq![a] + rest);
        text::law_joining_puts_the_separator_between(seq![a], rest, nl);
        let b = text::joined(rest, nl);
        let s = a + nl + b;
        assert(text::joined(ls, nl) == s);
        assert(!(a.last() == '\r')) by {
            assert(text::space('\r'));
        }
        text::law_lines_end_at_newlines(a, b);
        assert(s[0] == a[0]);
        assert(s.last() == b.last());
        assert forall|i: int| 0 <= i < s.len() implies s[i] != '<' && s[i] != '>' by {
            if i < a.len() {
                assert(s[i] == a[i]);
                assert(a.contains(a[i]));
            } else if i > a.len() {
                assert(s[i] == b[i - a.len() - 1]);
                assert(b.contains(b[i - a.len() - 1]));
            }
        }
    }
}

proof fn lemma_squeezed_plain(ls: Seq<Seq<char>>)
    requires
        forall|k: int| 0 <= k < ls.len() ==> plain_line(#[trigger] ls[k]),
    ensures
        squeezed(ls) == ls,
    decreases ls.len(),
{
    if ls.len() > 0 {
        let less = ls.drop_last();
        assert forall|k: int| 0 <= k < less.len() implies plain_line(#[trigger] less[k]) by {
            assert(less[k] == ls[k]);
        }
        lemma_squeezed_plain(less);
        let t = ls[ls.len() - 1];
        let none = Seq::<char>::empty();
        assert(text::rtrim(t) == t);
        text::law_trimming_takes_whitespace_only(none, t, none);
        assert(none + t + none =~= t);
        assert(ls =~= less.push(t));
    }
}

/// Lines that have nothing to take away are shown as they are, each on a line of its own.
#[verifier::rlimit(50)]
pub proof fn law_plain_lines_are_shown_whole(
    ls: Seq<Seq<char>>,
    body: &str,
    markup: String,
    r: String,
)
    requires
        call_ensures(normalize_markup, (body,), markup),
        call_ensures(extract_cn, (body,), r),
        ls.len() > 0,
        forall|k: int| 0 <= k < ls.len() ==> plain_line(#[trigger] ls[k]),
        body@ == text::joined(ls, seq!['\n']),
        cn_anchor(body@) is None,
        !text::has(body@, "Full Changelog"@),
        !("[中文]"@.is_prefix_of(body@)),
        ls.last() != "---"@ && ls.last() != "***"@ && ls.last() != "___"@,
    ensures
        markup@ == body@,
        r@ == body@,
{
    let s = body@;
    let none = Seq::<char>::empty();
    lemma_plain_lines(ls);
    law_tags_are_dropped(none, s, none, none);
    assert(none + s =~= s);
    lemma_no_angles_same(s);
    text::law_trimming_takes_whitespace_only(none, s, none);
    assert(none + s + none =~= s);
    assert(flat(s) == s);
    law_body_without_anchors_is_taken_whole(none, none, s);
    let t = ls[ls.len() - 1];
    assert(plain_line(t));
    text::law_trimming_takes_whitespace_only(none, t, none);
    assert(none + t + none =~= t);
    if text::starts(t, "Full Changelog"@) {
        assert(text::occurs_at(t, "Full Changelog"@, 0));
        assert(text::has(t, "Full Changelog"@));
        text::lemma_line_has(s, "Full Changelog"@, ls.len() - 1);
    }
    assert(!decoration(ls.last()));
    assert(undecorated_lines(ls) == ls);
    lemma_first_means(s, "Full Changelog"@);
    if let Some(i) = text::first(s, "Full Changelog"@) {
        assert(text::has(s, "Full Changelog"@));
    }
    lemma_prefix_starts(s, "[中文]"@);
}

/// A note is made of its version, its page and the Chinese part of its body.
pub proof fn law_note_is_made_of_its_release(
    version: &str,
    raw: &RawNote,
    cached: bool,
    r: Note,
    text: &str,
    body: String,
    doc: &Json,
    table: Option<Vec<(String, RawNote)>>,
    v: Seq<char>,
)
    requires
        call_ensures(build, (version, raw, cached), r),
        call_ensures(extract_cn, (text,), body),
        text@ == raw.body@,
        call_ensures(releases_of, (doc,), table),
    ensures
        r.version@ == version@ && r.url@ == raw.url@ && r.cached == cached,
        r.body@ == body@,
        table is Some <==> doc.tree() is Arr,
        table matches Some(t) ==> noted(t@, v) == release_at(doc.tree()->Arr_0, v),
{
}

proof fn lemma_plain_trim(a: Seq<char>)
    requires
        plain_line(a),
    ensures
        text::rtrim(a) == a,
        text::trimmed(a) == a,
        a.last() != '\r',
{
    let none = Seq::<char>::empty();
    text::law_trimming_takes_whitespace_only(none, a, none);
    assert(none + a + none =~= a);
    assert(text::space('\r'));
}

proof fn lemma_squeeze_between(a: Seq<char>, b: Seq<char>)
    requires
        plain_line(a),
        plain_line(b),
    ensures
        squeezed(seq![a, b]) == seq![a, b],
        squeezed(seq![a, Seq::<char>::empty(), b]) == seq![a, Seq::<char>::empty(), b],
        squeezed(seq![a, Seq::<char>::empty(), Seq::<char>::empty(), b]) == seq![
            a,
            Seq::<char>::empty(),
            b,
        ],
{
    let e = Seq::<char>::empty();
    let none = Seq::<Seq<char>>::empty();
    lemma_plain_trim(a);
    lemma_plain_trim(b);
    assert(text::rtrim(e) == e && text::trimmed(e) == e);
    law_blank_lines_are_squeezed(none, a, 0);
    assert(none.push(a) =~= seq![a]);
    law_blank_lines_are_squeezed(seq![a], b, 0);
    assert(seq![a].push(b) =~= seq![a, b]);
    law_blank_lines_are_squeezed(seq![a], e, 0);
    assert(seq![a].push(e) =~= seq![a, e]);
    law_blank_lines_are_squeezed(seq![a, e], b, 0);
    assert(seq![a, e].push(b) =~= seq![a, e, b]);
    law_blank_lines_are_squeezed(seq![a, e], e, 0);
    assert(seq![a, e].push(e) =~= seq![a, e, e]);
    law_blank_lines_are_squeezed(seq![a, e, e], b, 0);
    assert(seq![a, e, e].push(b) =~= seq![a, e, e, b]);
}

#[verifier::rlimit(50)]
proof fn lemma_lines_between(a: Seq<char>, b: Seq<char>)
    requires
        plain_line(a),
        plain_line(b),
    ensures
        text::lines(a + seq!['\n'] + b) == seq![a, b],
        text::lines(a + seq!['\n', '\n'] + b) == seq![a, Seq::<char>::empty(), b],
        text::lines(a + seq!['\n', '\n', '\n'] + b) == seq![
            a,
            Seq::<char>::empty(),
            Seq::<char>::empty(),
            b,
        ],
{
    let e = Seq::<char>::empty();
    let nl = seq!['\n'];
    lemma_plain_trim(a);
    text::law_lines_end_at_newlines(b, e);
    let one = nl + b;
    let two = nl + one;
    text::law_lines_end_at_newlines(e, b);
    assert(e + nl + b =~= one);
    text::law_lines_end_at_newlines(e, one);
    assert(e + nl + one =~= two);
    text::law_lines_end_at_newlines(a, b);
    text::law_lines_end_at_newlines(a, one);
    text::law_lines_end_at_newlines(a, two);
    assert(a + seq!['\n', '\n'] + b =~= a + nl + one);
    assert(a + seq!['\n', '\n', '\n'] + b =~= a + nl + two);
    assert(seq![a] + seq![b] =~= seq![a, b]);
    assert(seq![a] + (seq![e] + seq![b]) =~= seq![a, e, b]);
    assert(seq![a] + (seq![e] + (seq![e] + seq![b])) =~= seq![a, e, e, b]);
}

#[verifier::rlimit(50)]
proof fn lemma_joined_between(a: Seq<char>, b: Seq<char>)
    requires
        plain_line(a),
        plain_line(b),
    ensures
        text::trimmed(text::joined(seq![a, b], seq!['\n'])) == a + seq!['\n'] + b,
        text::trimmed(text::joined(seq![a, Seq::<char>::empty(), b], seq!['\n'])) == a + seq![
            '\n',
            '\n',
        ] + b,
{
    let e = Seq::<char>::empty();
    let nl = seq!['\n'];
    text::law_joining_puts_the_separator_between(seq![a], seq![b], nl);
    assert(seq![a] + seq![b] =~= seq![a, b]);
    text::law_joining_puts_the_separator_between(seq![a], seq![e], nl);
    assert(seq![a] + seq![e] =~= seq![a, e]);
    text::law_joining_puts_the_separator_between(seq![a, e], seq![b], nl);
    assert(seq![a, e] + seq![b] =~= seq![a, e, b]);
    let x = a + nl + b;
    let y = a + seq!['\n', '\n'] + b;
    assert(a + nl + e + nl + b =~= y);
    text::law_trimming_takes_whitespace_only(e, x, e);
    assert(e + x + e =~= x);
    text::law_trimming_takes_whitespace_only(e, y, e);
    assert(e + y + e =~= y);
}

proof fn lemma_collapsed_lines(a: Seq<char>, b: Seq<char>)
    requires
        plain_line(a),
        plain_line(b),
    ensures
        collapsed(a + "\n"@ + b) == a + "\n"@ + b,
        collapsed(a + "\n\n"@ + b) == a + "\n\n"@ + b,
        collapsed(a + "\n\n\n"@ + b) == a + "\n\n"@ + b,
{
    reveal_strlit("\n");
    reveal_strlit("\n\n");
    reveal_strlit("\n\n\n");
    assert("\n"@ =~= seq!['\n']);
    assert("\n\n"@ =~= seq!['\n', '\n']);
    assert("\n\n\n"@ =~= seq!['\n', '\n', '\n']);
    lemma_lines_between(a, b);
    lemma_squeeze_between(a, b);
    lemma_joined_between(a, b);
}

#[verifier::rlimit(50)]
proof fn lemma_collapsed_frame(a: Seq<char>)
    requires
        plain_line(a),
    ensures
        collapsed("\n"@ + a + "\n"@) == a,
{
    reveal_strlit("\n");
    let e = Seq::<char>::empty();
    let nl = seq!['\n'];
    let none = Seq::<Seq<char>>::empty();
    let f = "\n"@ + a + "\n"@;
    lemma_plain_trim(a);
    text::law_lines_end_at_newlines(e, a + nl);
    text::law_lines_end_at_newlines(a, e);
    assert(a + nl + e =~= a + nl);
    assert(e + nl + (a + nl) =~= f);
    assert(seq![e] + (seq![a] + none) =~= seq![e, a]);
    law_blank_lines_are_squeezed(none, e, 0);
    assert(none.push(e) =~= seq![e]);
    law_blank_lines_are_squeezed(seq![e], a, 0);
    assert(seq![e].push(a) =~= seq![e, a]);
    assert(text::rtrim(e) == e && text::trimmed(e) == e);
    text::law_joining_puts_the_separator_between(seq![e], seq![a], nl);
    assert(seq![e] + seq![a] =~= seq![e, a]);
    assert(e + nl + a =~= nl + a);
    assert(text::every(nl, |c: char| text::space(c)));
    text::law_trimming_takes_whitespace_only(nl, a, e);
    assert(nl + a + e =~= nl + a);
}

proof fn lemma_no_angles_between(a: Seq<char>, m: Seq<char>, b: Seq<char>)
    requires
        plain_line(a),
        plain_line(b),
        !m.contains('<'),
        !m.contains('>'),
    ensures
        no_angles(a + m + b) == a + m + b,
        !(a + m + b).contains('<'),
        !(a + m + b).contains('>'),
{
    let s = a + m + b;
    assert forall|i: int| 0 <= i < s.len() implies s[i] != '<' && s[i] != '>' by {
        if i < a.len() {
            assert(a.contains(a[i]) && s[i] == a[i]);
        } else if i < a.len() + m.len() {
            assert(m.contains(m[i - a.len()]) && s[i] == m[i - a.len()]);
        } else {
            assert(b.contains(b[i - a.len() - m.len()]) && s[i] == b[i - a.len() - m.len()]);
        }
    }
    lemma_no_angles_same(s);
}

/// Blank lines between two lines come to one, and those around a text go.
pub proof fn law_blank_lines_come_to_one(
    a: Seq<char>,
    b: Seq<char>,
    gap: &str,
    r: String,
    framed: &str,
    q: String,
)
    requires
        call_ensures(normalize_markup, (gap,), r),
        call_ensures(normalize_markup, (framed,), q),
        plain_line(a),
        plain_line(b),
        gap@ == a + "\n\n\n"@ + b,
        framed@ == "\n"@ + a + "\n"@,
    ensures
        r@ == a + "\n\n"@ + b,
        q@ == a,
{
    reveal_strlit("\n");
    reveal_strlit("\n\n\n");
    let none = Seq::<char>::empty();
    lemma_no_angles_between(a, "\n\n\n"@, b);
    law_tags_are_dropped(none, gap@, none, none);
    assert(none + gap@ =~= gap@);
    lemma_collapsed_lines(a, b);
    lemma_collapsed_frame(a);
    let f = framed@;
    assert forall|i: int| 0 <= i < f.len() implies f[i] != '<' && f[i] != '>' by {
        if 0 < i < f.len() - 1 {
            assert(a.contains(a[i - 1]) && f[i] == a[i - 1]);
        }
    }
    lemma_no_angles_same(f);
    law_tags_are_dropped(none, f, none, none);
    assert(none + f =~= f);
}

/// A heading stands on a line of its own, behind a blank one and its mark; a break begins a
/// new line.
#[verifier::rlimit(50)]
pub proof fn law_headings_and_breaks_begin_lines(
    a: Seq<char>,
    b: Seq<char>,
    heading: &str,
    r: String,
    broken: &str,
    q: String,
)
    requires
        call_ensures(normalize_markup, (heading,), r),
        call_ensures(normalize_markup, (broken,), q),
        plain_line(a),
        plain_line(b),
        heading@ == a + seq!['<'] + "h2"@ + seq!['>'] + b,
        broken@ == a + seq!['<'] + "br"@ + seq!['>'] + b,
    ensures
        r@ == a + "\n\n"@ + ("### "@ + b),
        q@ == a + "\n"@ + b,
{
    reveal_strlit("h2");
    reveal_strlit("br");
    reveal_strlit("<h2");
    reveal_strlit("<h3");
    reveal_strlit("<br");
    reveal_strlit("\n");
    reveal_strlit("\n\n");
    reveal_strlit("\n\n### ");
    reveal_strlit("### ");
    let none = Seq::<char>::empty();
    let h = text::lower(seq!['<'] + "h2"@ + seq!['>']);
    assert(h =~= seq!['<', 'h', '2', '>']);
    assert(h.subrange(0, 3) =~= "<h2"@);
    assert("<h2"@.is_prefix_of(h));
    let k = text::lower(seq!['<'] + "br"@ + seq!['>']);
    assert(k =~= seq!['<', 'b', 'r', '>']);
    assert(k.subrange(0, 3) =~= "<br"@);
    assert("<br"@.is_prefix_of(k));
    law_tags_are_dropped(none, a, "h2"@, b);
    law_tags_are_dropped(none, a, "br"@, b);
    assert(none + a =~= a);
    law_tags_are_dropped(a + "\n\n### "@, b, none, none);
    law_tags_are_dropped(a + "\n"@, b, none, none);
    let m = "### "@ + b;
    assert(plain_line(m)) by {
        assert(m[0] == '#' && m.last() == b.last());
        assert forall|i: int| 0 <= i < m.len() implies m[i] != '<' && m[i] != '>' && m[i]
            != '\n' by {
            if i >= 4 {
                assert(b.contains(b[i - 4]) && m[i] == b[i - 4]);
            }
        }
    }
    assert(a + "\n\n### "@ + b =~= a + "\n\n"@ + m);
    lemma_no_angles_between(a, "\n\n"@, m);
    lemma_no_angles_between(a, "\n"@, b);
    lemma_collapsed_lines(a, m);
    lemma_collapsed_lines(a, b);
}

/// Any other tag goes without a trace.
pub proof fn law_other_tags_leave_no_trace(
    a: Seq<char>,
    t: Seq<char>,
    b: Seq<char>,
    tagged: &str,
    r: String,
)
    requires
        call_ensures(normalize_markup, (tagged,), r),
        plain_line(a),
        plain_line(b),
        !t.contains('>'),
        tagged@ == a + seq!['<'] + t + seq!['>'] + b,
        !("<h2"@.is_prefix_of(text::lower(seq!['<'] + t + seq!['>']))),
        !("<h3"@.is_prefix_of(text::lower(seq!['<'] + t + seq!['>']))),
        !("<br"@.is_prefix_of(text::lower(seq!['<'] + t + seq!['>']))),
    ensures
        r@ == a + b,
{
    let none = Seq::<char>::empty();
    law_tags_are_dropped(none, a, t, b);
    assert(none + a =~= a);
    law_tags_are_dropped(a, b, none, none);
    let s = a + b;
    assert(plain_line(s)) by {
        assert(s[0] == a[0] && s.last() == b.last());
        assert forall|i: int| 0 <= i < s.len() implies s[i] != '<' && s[i] != '>' && s[i]
            != '\n' by {
            if i < a.len() {
                assert(a.contains(a[i]) && s[i] == a[i]);
            } else {
                assert(b.contains(b[i - a.len()]) && s[i] == b[i - a.len()]);
            }
        }
    }
    lemma_flat_plain(s);
    law_tags_are_dropped(none, s, none, none);
    assert(none + s =~= s);
}

/// The changelog is cut off with all that follows it, and what stands before it stays.
pub proof fn law_changelog_is_cut_off(s: Seq<char>, t: Seq<char>)
    requires
        s.len() > 0 && !text::space(s[0]),
        !("[中文]"@.is_prefix_of(s + "Full Changelog"@ + t)),
        !text::has(s, "Full Changelog"@),
        text::first(s + "Full Changelog"@ + t, "Full Changelog"@) == Some(s.len() as int),
        cn_anchor(s + "Full Changelog"@ + t) is None,
    ensures
        section(s + "Full Changelog"@ + t) == s,
{
    let body = s + "Full Changelog"@ + t;
    assert(body[0] == s[0]);
    assert(text::ltrim(body) == body);
    lemma_prefix_starts(body, "[中文]"@);
    assert(body.take(s.len() as int) =~= s);
}

/// An anchor whose tag does not end begins the section itself; an English anchor without a tag
/// before it ends the section where it stands.
pub proof fn law_anchors_without_tags_bound_the_section(
    head: Seq<char>,
    open: Seq<char>,
    attributes: Seq<char>,
    mid: Seq<char>,
    rest: Seq<char>,
)
    requires
        !open.contains('>'),
        !attributes.contains('>'),
        !mid.contains('<'),
    ensures
        cn_anchor(head + open) == Some(head.len() as int) && en_anchor(open) is None ==> section(
            head + open,
        ) == "### "@ + open,
        cn_anchor(head + attributes + seq!['>'] + mid + rest) == Some(head.len() as int)
            && en_anchor(mid + rest) == Some(mid.len() as int) ==> section(
            head + attributes + seq!['>'] + mid + rest,
        ) == "### "@ + mid,
{
    let i = head.len() as int;
    assert((head + open).skip(i) =~= open);
    text::lemma_first_char_from(open, '>', 0);
    let body = head + attributes + seq!['>'] + mid + rest;
    let s = body.skip(i);
    let n = attributes.len() as int;
    assert(s[n] == '>');
    assert forall|j: int| 0 <= j < n implies s[j] != '>' by {
        assert(s[j] == attributes[j]);
    }
    lemma_first_from_behind(s, '>', n);
    let behind = mid + rest;
    assert(body.skip(i + n + 1) =~= behind);
    assert(behind.take(mid.len() as int) =~= mid);
    lemma_none_before(mid, '<', mid.len() as int);
}

proof fn lemma_none_before(s: Seq<char>, c: char, upto: int)
    requires
        0 <= upto <= s.len(),
        !s.contains(c),
    ensures
        text::last_char_before(s, c, upto) is None,
    decreases upto,
{
    if upto > 0 {
        assert(s.contains(s[upto - 1]));
        lemma_none_before(s, c, upto - 1);
    }
}

/// A changelog within the Chinese section is cut off there, and what stands before it is shown.
pub proof fn law_changelog_in_the_section_is_cut_off(
    body: &str,
    p: Seq<char>,
    y: Seq<char>,
    r: String,
)
    requires
        call_ensures(extract_cn, (body,), r),
        section(body@) == p + "Full Changelog"@ + y,
        plain_line(p),
        plain_line(p + "Full Changelog"@ + y),
        text::first(p + "Full Changelog"@ + y, "Full Changelog"@) == Some(p.len() as int),
        !text::has(p, "Full Changelog"@),
        !("[中文]"@.is_prefix_of(p)),
        p != "---"@ && p != "***"@ && p != "___"@,
    ensures
        r@ == p,
{
    let f = "Full Changelog"@;
    let s = p + f + y;
    let none = Seq::<char>::empty();
    lemma_flat_plain(s);
    lemma_undecorated_line(p);
    if text::starts(s, f) {
        text::lemma_first_from(s, f, 0);
        assert(text::occurs_at(s, f, 0));
    }
    reveal_strlit("Full Changelog");
    reveal_strlit("---");
    reveal_strlit("***");
    reveal_strlit("___");
    assert(s.len() > 3);
    lemma_undecorated_line(s);
    assert(s.take(p.len() as int) =~= p);
    lemma_plain_trim(p);
    lemma_prefix_starts(p, "[中文]"@);
    if text::starts(p, f) {
        assert(text::occurs_at(p, f, 0));
        assert(text::has(p, f));
    }
}

proof fn lemma_undecorated_line(s: Seq<char>)
    requires
        plain_line(s),
    ensures
        s != "---"@ && s != "***"@ && s != "___"@ && !text::starts(s, "Full Changelog"@)
            ==> undecorated(s) == s,
{
    let none = Seq::<char>::empty();
    lemma_plain_trim(s);
    text::law_lines_end_at_newlines(s, none);
    assert(seq![s].last() == s);
    text::law_joining_puts_the_separator_between(seq![s], seq![s], seq!['\n']);
}

} // verus!
