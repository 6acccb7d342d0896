//! The configuration: the paths that the user named.
//!
//! Paths are kept as text, in the notation of Windows.

use vstd::prelude::*;

use crate::text;

verus! {

/// The configuration. Whatever cannot be read of it counts as not set.
pub struct Config {
    pub node: Option<String>,
    pub npm: Option<String>,
    pub dsh: Option<String>,
    /// npm's global directory, where `dsh.cmd` is found after an installation.
    pub npm_prefix: Option<String>,
}

impl Default for Config {
    fn default() -> (r: Self)
        ensures
            r.node is None && r.npm is None && r.dsh is None && r.npm_prefix is None,
    {
        Config { node: None, npm: None, dsh: None, npm_prefix: None }
    }
}

// ───────────────────────── paths ─────────────────────────

/// A character that separates the components of a path in some notation.
pub open spec fn separator(c: char) -> bool {
    c == '/' || c == '\\'
}

/// A path begins with a drive.
pub open spec fn drive(path: Seq<char>) -> bool {
    path.len() >= 2 && path[1] == ':' && text::alnum(path[0]) && !text::digit(path[0])
}

/// Whether a path begins with a drive.
pub(crate) fn has_drive(v: &[char]) -> (r: bool)
    ensures
        r == drive(v@),
{
    v.len() >= 2 && v[1] == ':' && text::is_alnum(v[0]) && !text::is_digit(v[0])
}

/// A path to which a name is appended without a separator: it is empty, ends in one, or is
/// a drive.
pub open spec fn ends_open(dir: Seq<char>) -> bool {
    dir.len() == 0 || separator(dir.last()) || (dir.len() == 2 && drive(dir))
}

/// The path of the entry `name` in a directory.
pub open spec fn within(dir: Seq<char>, name: Seq<char>) -> Seq<char> {
    if ends_open(dir) {
        dir + name
    } else {
        dir.push('\\') + name
    }
}

/// The path of the entry `name` in a directory.
pub fn join(dir: &str, name: &str) -> (r: String)
    ensures
        r@ == within(dir@, name@),
{
    let v = text::chars(dir);
    let n = v.len();
    let mut out = text::copy(dir);
    if !(n == 0 || v[n - 1] == '\\' || v[n - 1] == '/' || (n == 2 && has_drive(v.as_slice()))) {
        out.push('\\');
    }
    out.push_str(name);
    out
}

/// A path begins with two separators. In the notation with backslashes it may then be a share
/// or a device, whose name is no component.
pub open spec fn doubly_rooted(path: Seq<char>) -> bool {
    path.len() > 1 && separator(path[0]) && separator(path[1])
}

/// In every notation this path has more to it than a root or a drive.
pub open spec fn has_name(path: Seq<char>) -> bool {
    !doubly_rooted(path) && exists|i: int|
        0 <= i < path.len() && !separator(#[trigger] path[i]) && path[i] != '.' && !(i < 2
            && drive(path))
}

/// The component that starts at `i` is a single dot.
pub open spec fn dot_at(path: Seq<char>, i: int) -> bool {
    &&& 0 <= i < path.len()
    &&& path[i] == '.'
    &&& i == 0 || separator(path[i - 1])
    &&& i + 1 == path.len() || separator(path[i + 1])
}

/// No component of a path is a single dot.
pub open spec fn undotted(path: Seq<char>) -> bool {
    forall|i: int| !#[trigger] dot_at(path, i)
}

/// A text is a shorter beginning of a path and stops between two of its components.
pub open spec fn encloses(d: Seq<char>, path: Seq<char>) -> bool {
    &&& d.len() < path.len()
    &&& d == path.take(d.len() as int)
    &&& d.len() == 0 || separator(d.last()) || d.last() == ':' || separator(path[d.len() as int])
}

/// A character separates components, the backslash only where `back` says so.
pub open spec fn parts(c: char, back: bool) -> bool {
    c == '/' || (back && c == '\\')
}

/// A text is a drive, which only the notation with backslashes knows.
pub open spec fn is_drive(d: Seq<char>, back: bool) -> bool {
    back && d.len() == 2 && drive(d)
}

/// A text is a share, which only the notation with backslashes knows: two separators and two
/// names with one more between them.
pub open spec fn is_share(d: Seq<char>, back: bool) -> bool {
    back && doubly_rooted(d) && exists|m: int|
        {
            &&& 2 < m < d.len() - 1
            &&& separator(#[trigger] d[m])
            &&& forall|i: int| 2 <= i < d.len() && i != m ==> !separator(#[trigger] d[i])
        }
}

/// A text is a root: a separator, with or without a drive or a share before it.
pub open spec fn is_root(d: Seq<char>, back: bool) -> bool {
    d.len() > 0 && parts(d.last(), back) && (d.len() == 1 || is_drive(d.drop_last(), back)
        || is_share(d.drop_last(), back))
}

/// A path begins with two separators and a question mark: separators may mean nothing in it.
pub open spec fn verbatim(path: Seq<char>) -> bool {
    doubly_rooted(path) && path.len() > 2 && path[2] == '?'
}

/// Between `d` and position `k` of a path there are only separators, and they part the two.
/// There need not be any where `d` is empty, a drive or a root; and but for a root, `d` does
/// not end in one.
pub open spec fn behind_separators(d: Seq<char>, path: Seq<char>, back: bool, k: int) -> bool {
    &&& d.len() <= k < path.len()
    &&& forall|i: int| d.len() <= i < k ==> parts(#[trigger] path[i], back)
    &&& if d.len() == 0 || is_drive(d, back) {
        d.len() == k
    } else {
        is_root(d, back) || (d.len() < k && !parts(d.last(), back))
    }
}

/// One name follows `d` in a path, and nothing else but separators on both sides of it.
pub open spec fn one_name_behind(d: Seq<char>, path: Seq<char>, back: bool) -> bool {
    exists|k: int, e: int|
        {
            &&& #[trigger] behind_separators(d, path, back, k)
            &&& #[trigger] before_separators(path, back, e)
            &&& k < e
            &&& forall|i: int| k <= i < e ==> !parts(#[trigger] path[i], back)
        }
}

/// From position `e` on a path has only separators.
pub open spec fn before_separators(path: Seq<char>, back: bool, e: int) -> bool {
    e <= path.len() && forall|i: int| e <= i < path.len() ==> parts(#[trigger] path[i], back)
}

/// `d` is the directory of a path: a beginning of it that stops between two components. Where
/// the path has no component that is a single dot and is not verbatim, the last component is
/// all that `d` lacks, in the notation that knows the slash alone or in the one that knows the
/// backslash too.
pub open spec fn parent(d: Seq<char>, path: Seq<char>) -> bool {
    &&& encloses(d, path)
    &&& undotted(path) && !verbatim(path) ==> one_name_behind(d, path, false)
        || one_name_behind(d, path, true)
}

/// What is found for the directory of a path: none only where the path may be no more than a
/// root, a drive or a share.
pub open spec fn found_parent(d: Option<Seq<char>>, path: Option<Seq<char>>) -> bool {
    match (d, path) {
        (Some(x), Some(p)) => parent(x, p),
        (None, Some(p)) => !has_name(p),
        (Some(_), None) => false,
        (None, None) => true,
    }
}

/// The components of a path: what stands between its separators, without those that are a
/// single dot. Where there are drives, the case of their letters makes no difference.
pub open spec fn components(s: Seq<char>, back: bool) -> Seq<Seq<char>> {
    text::split(
        s.map_values(
            |c: char|
                if parts(c, back) {
                    '/'
                } else {
                    c
                },
        ),
        '/',
    ).filter(|p: Seq<char>| p.len() > 0 && p != seq!['.']).map_values(
        |p: Seq<char>|
            if back && drive(p) {
                p.update(0, text::low(p[0]))
            } else {
                p
            },
    )
}

/// A path begins at a root, or its drive does.
pub open spec fn rooted(s: Seq<char>, back: bool) -> bool {
    ||| s.len() > 0 && parts(s[0], back)
    ||| back && drive(s) && s.len() > 2 && parts(s[2], back)
}

/// Two texts may name the same path in a notation: they have the same components and begin at
/// a root both or neither.
pub open spec fn same_in(a: Seq<char>, b: Seq<char>, back: bool) -> bool {
    components(a, back) == components(b, back) && rooted(a, back) == rooted(b, back)
}

/// Two texts may name the same path, in the notation that knows the slash alone or in the one
/// that knows the backslash too.
pub open spec fn alike(a: Seq<char>, b: Seq<char>) -> bool {
    same_in(a, b, false) || same_in(a, b, true)
}

/// Two texts name the same path in every notation: they differ in nothing but repeated
/// separators and separators at the end.
pub open spec fn surely_same(a: Seq<char>, b: Seq<char>) -> bool {
    &&& same_in(a, b, false) && same_in(a, b, true)
    &&& undotted(a) && undotted(b)
    &&& !doubly_rooted(a) && !doubly_rooted(b)
}

/// No path stands in a list twice, in whichever spelling.
pub open spec fn untwinned(list: Seq<Seq<char>>) -> bool {
    forall|i: int, j: int|
        0 <= i < j < list.len() ==> !surely_same(#[trigger] list[i], #[trigger] list[j])
}

/// Some path of a list may be the same as `d`.
pub open spec fn has_like(list: Seq<Seq<char>>, d: Seq<char>) -> bool {
    exists|j: int| 0 <= j < list.len() && alike(#[trigger] list[j], d)
}

/// A component of a path starts at `i`.
pub open spec fn starts_at(path: Seq<char>, i: int) -> bool {
    i == 0 || separator(path[i - 1]) || (i == 2 && drive(path))
}

/// A component of a path ends before `i`.
pub open spec fn ends_at(path: Seq<char>, i: int) -> bool {
    i == path.len() || separator(path[i])
}

/// A component of one or two dots starts at `i`.
pub open spec fn dots_at(path: Seq<char>, i: int) -> bool {
    &&& 0 <= i < path.len()
    &&& starts_at(path, i)
    &&& path[i] == '.'
    &&& ends_at(path, i + 1) || (path[i + 1] == '.' && ends_at(path, i + 2))
}

/// Nothing but the names of a path decides on its place among others: it has no component of
/// one or two dots, does not begin with two separators and does not end in one.
pub open spec fn plain(path: Seq<char>) -> bool {
    &&& !doubly_rooted(path)
    &&& path.len() > 0 ==> !separator(path.last())
    &&& forall|i: int| !#[trigger] dots_at(path, i)
}

/// Up to `k` two paths are the same text, and what follows puts the first before the second in
/// every notation: it ends there, or goes on with the lesser character of the same name.
pub open spec fn parts_ways(a: Seq<char>, b: Seq<char>, k: int) -> bool {
    &&& 0 <= k <= a.len() && k < b.len()
    &&& a.take(k) == b.take(k)
    &&& k == a.len() || {
        &&& a[k] < b[k]
        &&& !separator(a[k]) && !separator(b[k])
        &&& k == 0 && drive(a) ==> text::low(a[0]) < text::low(b[0])
    }
}

/// In every notation one path stands before another in the order of paths, which is that of
/// their components one after the other.
pub open spec fn stands_before(a: Seq<char>, b: Seq<char>) -> bool {
    &&& plain(a) && plain(b)
    &&& drive(a) == drive(b)
    &&& exists|k: int| #[trigger] parts_ways(a, b, k)
}

/// No path of a list stands before an earlier one in every notation.
pub open spec fn ascending(list: Seq<Seq<char>>) -> bool {
    forall|i: int, j: int|
        0 <= i < j < list.len() ==> !stands_before(#[trigger] list[j], #[trigger] list[i])
}

/// `picks` are the positions at which the entries of a list stand in another one, in its order.
pub open spec fn picked(picks: Seq<int>, list: Seq<Seq<char>>, from: Seq<Seq<char>>) -> bool {
    &&& picks.len() == list.len()
    &&& forall|i: int|
        0 <= i < picks.len() ==> 0 <= #[trigger] picks[i] < from.len() && list[i] == from[picks[i]]
    &&& forall|i: int, j: int|
        0 <= i < j < picks.len() ==> #[trigger] picks[i] < #[trigger] picks[j]
}

/// `std::path::Path::parent`: the path without its last component. There is none for the empty
/// path and for one that ends in a root or in a prefix such as a drive. Whether the backslash
/// separates components depends on the system, so what is claimed is what holds either way.
#[verifier::external_body]
pub(crate) fn parent_dir(path: &str) -> (r: Option<String>)
    ensures
        found_parent(text::option_text(r), Some(path@)),
{
    std::path::Path::new(path).parent().map(|p| p.to_string_lossy().into_owned())
}

/// `sort` on a list of `std::path::PathBuf`: the same paths in ascending order, which is that of
/// their components one after the other. Where the notations of the systems do not agree on the
/// place of a path, its place is left unsaid. Whatever stands between two equal texts is the
/// same path.
#[verifier::external_body]
fn sort_paths(v: Vec<String>) -> (r: Vec<String>)
    ensures
        text::texts(r@).to_multiset() == text::texts(v@).to_multiset(),
        ascending(text::texts(r@)),
        grouped(text::texts(r@)),
{
    let mut p: Vec<std::path::PathBuf> = v.into_iter().map(std::path::PathBuf::from).collect();
    p.sort();
    p.into_iter().map(|x| x.to_string_lossy().into_owned()).collect()
}

/// Between two equal texts of a list there is nothing but texts of the same path.
pub open spec fn grouped(list: Seq<Seq<char>>) -> bool {
    forall|i: int, k: int, j: int|
        #![trigger list[i], list[k], list[j]]
        0 <= i <= k <= j < list.len() && list[i] == list[j] ==> alike(list[k], list[i])
}

/// `==` on two `std::path::Path`: whether two texts name the same path. Equal texts do, and so
/// do texts that differ only in repeated separators and in separators at the end, which make no
/// difference. Texts that do have the same components. Which other characters separate
/// components depends on the system's notation and is left unsaid.
#[verifier::external_body]
fn same_path(a: &str, b: &str) -> (r: bool)
    ensures
        a@ == b@ ==> r,
        surely_same(a@, b@) ==> r,
        r ==> alike(a@, b@),
{
    std::path::Path::new(a) == std::path::Path::new(b)
}

/// Whether a list has a text of the same path.
fn knows(list: &Vec<String>, path: &str) -> (r: bool)
    ensures
        r ==> has_like(text::texts(list@), path@),
        !r ==> !text::texts(list@).contains(path@) && forall|k: int|
            0 <= k < list.len() ==> !surely_same(#[trigger] text::texts(list@)[k], path@),
{
    let mut i: usize = 0;
    while i < list.len()
        invariant
            i <= list.len(),
            forall|k: int|
                0 <= k < i ==> #[trigger] list@[k]@ != path@ && !surely_same(list@[k]@, path@),
        decreases list.len() - i,
    {
        if same_path(list[i].as_str(), path) {
            assert(text::texts(list@)[i as int] == list@[i as int]@);
            return true;
        }
        i = i + 1;
    }
    proof {
        if text::texts(list@).contains(path@) {
            let k = text::texts(list@).index_of(path@);
            assert(text::texts(list@)[k] == list@[k]@);
        }
        assert forall|k: int| 0 <= k < list.len() implies !surely_same(
            #[trigger] text::texts(list@)[k],
            path@,
        ) by {
            assert(text::texts(list@)[k] == list@[k]@);
        }
    }
    false
}

/// A list of paths without those that an earlier one of it already names.
pub fn dedup_paths(v: Vec<String>) -> (r: Vec<String>)
    ensures
        text::texts(r@).no_duplicates(),
        untwinned(text::texts(r@)),
        exists|picks: Seq<int>| #[trigger] picked(picks, text::texts(r@), text::texts(v@)),
        forall|i: int|
            0 <= i < v.len() ==> has_like(text::texts(r@), #[trigger] text::texts(v@)[i]),
{
    let mut out: Vec<String> = Vec::new();
    let mut i: usize = 0;
    let ghost mut picks: Seq<int> = seq![];
    while i < v.len()
        invariant
            i <= v.len(),
            text::texts(out@).no_duplicates(),
            untwinned(text::texts(out@)),
            picked(picks, text::texts(out@), text::texts(v@)),
            forall|k: int| 0 <= k < picks.len() ==> #[trigger] picks[k] < i,
            forall|k: int|
                0 <= k < i ==> has_like(text::texts(out@), #[trigger] text::texts(v@)[k]),
        decreases v.len() - i,
    {
        let ghost before = text::texts(out@);
        let ghost all = text::texts(v@);
        assert(all[i as int] == v@[i as int]@);
        if !knows(&out, v[i].as_str()) {
            out.push(text::copy(v[i].as_str()));
            let ghost after = text::texts(out@);
            assert(after =~= before.push(all[i as int]));
            assert(after[before.len() as int] == all[i as int]);
            assert(after.no_duplicates()) by {
                assert forall|a: int, b: int|
                    0 <= a < after.len() && 0 <= b < after.len() && a != b implies after[a]
                    != after[b] by {
                    if a < before.len() {
                        assert(before.contains(before[a]));
                    }
                    if b < before.len() {
                        assert(before.contains(before[b]));
                    }
                }
            }
            assert forall|a: int, b: int| 0 <= a < b < after.len() implies !surely_same(
                #[trigger] after[a],
                #[trigger] after[b],
            ) by {
                assert(after[a] == before[a]);
                if b < before.len() {
                    assert(after[b] == before[b]);
                }
            }
            proof {
                picks = picks.push(i as int);
            }
            assert(picked(picks, after, all));
            assert forall|k: int| 0 <= k < i implies has_like(after, #[trigger] all[k]) by {
                assert(has_like(before, all[k]));
                let j = choose|j: int|
                    0 <= j < before.len() && alike(#[trigger] before[j], all[k]);
                assert(after[j] == before[j]);
            }
        }
        i = i + 1;
    }
    assert(picked(picks, text::texts(out@), text::texts(v@)));
    out
}

// ───────────────────────── what is configured ─────────────────────────

impl Config {
    /// The path that is configured for a program.
    pub open spec fn named(self, id: Seq<char>) -> Option<Seq<char>> {
        if id == "node"@ {
            text::option_text(self.node)
        } else if id == "npm"@ {
            text::option_text(self.npm)
        } else if id == "dsh"@ {
            text::option_text(self.dsh)
        } else {
            None
        }
    }

    /// This is the configuration `before` once `path` was named for the program `id`.
    pub open spec fn is_set(self, before: Config, id: Seq<char>, path: Seq<char>) -> bool {
        &&& self.npm_prefix == before.npm_prefix
        &&& if id == "node"@ {
            text::option_text(self.node) == Some(path)
        } else {
            self.node == before.node
        }
        &&& if id == "npm"@ {
            text::option_text(self.npm) == Some(path)
        } else {
            self.npm == before.npm
        }
        &&& if id == "dsh"@ {
            text::option_text(self.dsh) == Some(path)
        } else {
            self.dsh == before.dsh
        }
    }

    /// The directory of the configuration in the user's home; where the home is not known,
    /// in the current directory.
    pub open spec fn dir_in(home: Option<Seq<char>>) -> Seq<char> {
        match home {
            Some(h) => within(h, ".dshell"@),
            None => within("."@, ".dshell"@),
        }
    }

    pub fn dir(home: Option<&str>) -> (r: String)
        ensures
            r@ == Self::dir_in(text::option_str(home)),
    {
        match home {
            Some(h) => join(h, ".dshell"),
            None => join(".", ".dshell"),
        }
    }

    /// The file of the configuration.
    pub fn path(home: Option<&str>) -> (r: String)
        ensures
            r@ == within(Self::dir_in(text::option_str(home)), "config.json"@),
    {
        let dir = Self::dir(home);
        join(dir.as_str(), "config.json")
    }

    /// Names the path of a program. Only node, npm and dsh have one.
    pub fn set(&mut self, id: &str, path: &str)
        ensures
            final(self).is_set(*old(self), id@, path@),
    {
        proof {
            reveal_strlit("node");
            reveal_strlit("npm");
            reveal_strlit("dsh");
            assert("npm"@[0] != "dsh"@[0]);
            assert("node"@.len() != "npm"@.len());
        }
        if text::same(id, "node") {
            self.node = Some(text::copy(path));
        } else if text::same(id, "npm") {
            self.npm = Some(text::copy(path));
        } else if text::same(id, "dsh") {
            self.dsh = Some(text::copy(path));
        }
    }

    /// The path that is configured for a program, whether or not it still exists.
    pub fn configured(&self, id: &str) -> (r: Option<String>)
        ensures
            text::option_text(r) == self.named(id@),
    {
        if text::same(id, "node") {
            text::copy_option(&self.node)
        } else if text::same(id, "npm") {
            text::copy_option(&self.npm)
        } else if text::same(id, "dsh") {
            text::copy_option(&self.dsh)
        } else {
            None
        }
    }

    /// The path that is configured for a program. `is_file` says whether it is an existing
    /// file: a path that is gone counts as not configured.
    pub fn get(&self, id: &str, is_file: bool) -> (r: Option<String>)
        ensures
            text::option_text(r) == if is_file {
                self.named(id@)
            } else {
                None
            },
    {
        if is_file {
            self.configured(id)
        } else {
            None
        }
    }

    /// npm's global directory, from the user's application data directory.
    pub fn npm_global_dir(appdata: Option<&str>) -> (r: Option<String>)
        ensures
            text::option_text(r) == (match appdata {
                Some(a) => Some(within(a@, "npm"@)),
                None => None,
            }),
    {
        match appdata {
            Some(a) => Some(join(a, "npm")),
            None => None,
        }
    }

    /// A directory that belongs in front of the `PATH`: that of a configured program, npm's
    /// global directory as it was found, or as it is by default.
    pub open spec fn prelude(self, appdata: Option<Seq<char>>, d: Seq<char>) -> bool {
        ||| text::option_text(self.npm_prefix) == Some(d)
        ||| appdata matches Some(a) && d == within(a, "npm"@)
        ||| text::option_text(self.node) matches Some(p) && parent(d, p)
        ||| text::option_text(self.npm) matches Some(p) && parent(d, p)
        ||| text::option_text(self.dsh) matches Some(p) && parent(d, p)
    }

    /// A list of directories has that of every program that is configured by more than a root
    /// or a drive, and npm's global directories.
    pub open spec fn covered(self, appdata: Option<Seq<char>>, list: Seq<Seq<char>>) -> bool {
        &&& has_parent(list, text::option_text(self.node))
        &&& has_parent(list, text::option_text(self.npm))
        &&& has_parent(list, text::option_text(self.dsh))
        &&& text::option_text(self.npm_prefix) matches Some(d) ==> has_like(list, d)
        &&& appdata matches Some(a) ==> has_like(list, within(a, "npm"@))
    }

    /// The directories that go in front of a child's `PATH`: all that belong there, nothing
    /// else, none twice, and in the order of paths.
    pub open spec fn is_prelude(self, appdata: Option<Seq<char>>, list: Seq<Seq<char>>) -> bool {
        &&& list.no_duplicates()
        &&& untwinned(list)
        &&& ascending(list)
        &&& forall|i: int| 0 <= i < list.len() ==> self.prelude(appdata, #[trigger] list[i])
        &&& self.covered(appdata, list)
    }

    /// The directories that go in front of a child's `PATH`, so that the programs that the
    /// user named are the ones that are found.
    pub fn prelude_dirs(&self, appdata: Option<&str>) -> (r: Vec<String>)
        ensures
            self.is_prelude(text::option_str(appdata), text::texts(r@)),
    {
        let node = dir_of(&self.node);
        let npm = dir_of(&self.npm);
        let dsh = dir_of(&self.dsh);
        let global = Self::npm_global_dir(appdata);
        let all = dir_list(&node, &npm, &dsh, &self.npm_prefix, &global);
        let ghost given = text::texts(all@);
        assert forall|i: int| 0 <= i < given.len() implies self.prelude(
            text::option_str(appdata),
            #[trigger] given[i],
        ) by {
            assert(given.contains(given[i]));
        }
        let sorted = sort_paths(all);
        let ghost ordered = text::texts(sorted@);
        let r = dedup_paths(sorted);
        proof {
            let list = text::texts(r@);
            let picks = choose|picks: Seq<int>| #[trigger] picked(picks, list, ordered);
            assert forall|i: int, j: int| 0 <= i < j < list.len() implies !stands_before(
                #[trigger] list[j],
                #[trigger] list[i],
            ) by {
                assert(picks[i] < picks[j]);
                assert(list[i] == ordered[picks[i]] && list[j] == ordered[picks[j]]);
            }
            assert forall|i: int| 0 <= i < r.len() implies self.prelude(
                text::option_str(appdata),
                #[trigger] text::texts(r@)[i],
            ) by {
                let d = text::texts(r@)[i];
                assert(d == ordered[picks[i]]);
                assert(ordered.contains(d));
                broadcast use vstd::seq_lib::to_multiset_contains;

                assert(ordered.to_multiset().count(d) > 0);
                assert(given.to_multiset().count(d) > 0);
                assert(given.contains(d));
            }
            assert forall|i: int| 0 <= i < given.len() implies has_like(
                text::texts(r@),
                #[trigger] given[i],
            ) by {
                broadcast use vstd::seq_lib::to_multiset_contains;

                assert(given.contains(given[i]));
                assert(given.to_multiset().count(given[i]) > 0);
                assert(ordered.to_multiset().count(given[i]) > 0);
                assert(ordered.contains(given[i]));
                let k = ordered.index_of(given[i]);
                assert(has_like(text::texts(r@), ordered[k]));
            }
            let n1 = maybe(node).len() as int;
            let n2 = n1 + maybe(npm).len();
            let n3 = n2 + maybe(dsh).len();
            let n4 = n3 + maybe(self.npm_prefix).len();
            assert(node is Some ==> given[0] == node->0@);
            assert(npm is Some ==> given[n1] == npm->0@);
            assert(dsh is Some ==> given[n2] == dsh->0@);
            assert(self.npm_prefix is Some ==> given[n3] == self.npm_prefix->0@);
            assert(global is Some ==> given[n4] == global->0@);
        }
        r
    }

    /// A child's `PATH`, so that the programs that the user named are the ones that are found.
    /// `path` is our own.
    pub fn child_path_env(&self, appdata: Option<&str>, path: Option<&str>) -> (r: String)
        ensures
            exists|list: Seq<Seq<char>>| #[trigger]
                self.is_prelude(text::option_str(appdata), list) && r@ == in_front(
                    list,
                    text::option_str(path),
                ),
    {
        let dirs = self.prelude_dirs(appdata);
        let r = path_with(&dirs, path);
        assert(self.is_prelude(text::option_str(appdata), text::texts(dirs@)) && r@ == in_front(
            text::texts(dirs@),
            text::option_str(path),
        ));
        r
    }
}

/// A `PATH` with directories in front of it.
pub open spec fn in_front(dirs: Seq<Seq<char>>, path: Option<Seq<char>>) -> Seq<char> {
    text::joined(
        dirs.push(
            match path {
                Some(p) => p,
                None => seq![],
            },
        ),
        ";"@,
    )
}

/// A `PATH` with the given directories in front of it.
pub fn path_with(dirs: &Vec<String>, path: Option<&str>) -> (r: String)
    ensures
        r@ == in_front(text::texts(dirs@), text::option_str(path)),
{
    let mut parts = text::copies(dirs.as_slice());
    let ghost before = parts@;
    match path {
        Some(p) => {
            parts.push(text::copy(p));
            assert(text::texts(parts@) =~= text::texts(before).push(p@));
        },
        None => {
            let none = String::new();
            assert(none@ =~= seq![]);
            parts.push(none);
            assert(text::texts(parts@) =~= text::texts(before).push(seq![]));
        },
    }
    text::join(parts.as_slice(), ";")
}

/// A list has the directory of a path, if there is a path and it is more than a root or a
/// drive.
pub open spec fn has_parent(list: Seq<Seq<char>>, path: Option<Seq<char>>) -> bool {
    match path {
        Some(p) => has_name(p) ==> exists|d: Seq<char>| #[trigger]
            parent(d, p) && has_like(list, d),
        None => true,
    }
}

/// The directory of a program that may be configured.
pub fn dir_of(path: &Option<String>) -> (r: Option<String>)
    ensures
        found_parent(text::option_text(r), text::option_text(*path)),
{
    match path {
        Some(p) => parent_dir(p.as_str()),
        None => None,
    }
}

/// A text that may be missing, as a list.
pub open spec fn maybe(s: Option<String>) -> Seq<Seq<char>> {
    match s {
        Some(t) => seq![t@],
        None => seq![],
    }
}

fn push_maybe(v: &mut Vec<String>, s: &Option<String>)
    ensures
        text::texts(final(v)@) == text::texts(old(v)@) + maybe(*s),
{
    match s {
        Some(t) => {
            let ghost before = v@;
            v.push(text::copy(t.as_str()));
            assert(text::texts(v@) =~= text::texts(before) + seq![t@]);
        },
        None => {
            assert(text::texts(v@) =~= text::texts(v@) + Seq::<Seq<char>>::empty());
        },
    }
}

/// The directories of the programs, then npm's global directory as it was found and as it is
/// by default; those that are not known are left out.
pub fn dir_list(
    node: &Option<String>,
    npm: &Option<String>,
    dsh: &Option<String>,
    npm_prefix: &Option<String>,
    global: &Option<String>,
) -> (r: Vec<String>)
    ensures
        text::texts(r@) == maybe(*node) + maybe(*npm) + maybe(*dsh) + maybe(*npm_prefix) + maybe(
            *global,
        ),
{
    let mut v: Vec<String> = Vec::new();
    assert(text::texts(v@) =~= seq![]);
    push_maybe(&mut v, node);
    push_maybe(&mut v, npm);
    push_maybe(&mut v, dsh);
    push_maybe(&mut v, npm_prefix);
    push_maybe(&mut v, global);
    assert(text::texts(v@) =~= maybe(*node) + maybe(*npm) + maybe(*dsh) + maybe(*npm_prefix)
        + maybe(*global));
    v
}

/// A path that was named for a program is the one that is configured for it, and naming it
/// changes nothing for another.
pub proof fn law_named_path_is_configured(
    before: Config,
    after: Config,
    id: Seq<char>,
    other: Seq<char>,
    path: Seq<char>,
)
    requires
        id == "node"@ || id == "npm"@ || id == "dsh"@,
        after.is_set(before, id, path),
    ensures
        after.named(id) == Some(path),
        other != id ==> after.named(other) == before.named(other),
{
}

/// A name is put behind a directory with a backslash between them, unless the directory is
/// empty, ends in a slash of either kind, or is a drive alone.
pub proof fn law_names_are_put_behind_a_backslash(dir: &str, name: &str, r: String)
    requires
        call_ensures(join, (dir, name), r),
    ensures
        dir@.len() == 0 || dir@.last() == '/' || dir@.last() == '\\' ==> r@ == dir@ + name@,
        dir@.len() > 0 && dir@.last() != '/' && dir@.last() != '\\' && dir@.last() != ':' ==> r@
            == dir@ + seq!['\\'] + name@,
        dir@.len() == 2 && dir@[1] == ':' && ('a' <= dir@[0] <= 'z' || 'A' <= dir@[0] <= 'Z')
            ==> r@ == dir@ + name@,
        text::ends(r@, name@),
{
    assert(dir@.push('\\') + name@ =~= dir@ + seq!['\\'] + name@);
    assert(r@.subrange(r@.len() - name@.len(), r@.len() as int) =~= name@);
}

/// A path that was set is the one that is configured afterwards, and it is used only while
/// there is a file; the paths of the other programs stay as they were.
pub proof fn law_set_path_is_used_while_it_is_a_file(
    cfg: &Config,
    id: &str,
    is_file: bool,
    named: Option<String>,
    used: Option<String>,
)
    requires
        call_ensures(Config::configured, (cfg, id), named),
        call_ensures(Config::get, (cfg, id, is_file), used),
    ensures
        id@ == "node"@ ==> text::option_text(named) == text::option_text(cfg.node),
        id@ == "npm"@ ==> text::option_text(named) == text::option_text(cfg.npm),
        id@ == "dsh"@ ==> text::option_text(named) == text::option_text(cfg.dsh),
        id@ != "node"@ && id@ != "npm"@ && id@ != "dsh"@ ==> named is None,
        is_file ==> text::option_text(used) == text::option_text(named),
        !is_file ==> used is None,
        forall|c: &mut Config, path: &str| #[trigger]
            call_ensures(Config::set, (c, id, path), ()) ==> {
                &&& id@ == "node"@ ==> text::option_text(final(c).node) == Some(path@)
                &&& id@ != "node"@ ==> final(c).node == (*c).node
                &&& id@ == "npm"@ ==> text::option_text(final(c).npm) == Some(path@)
                &&& id@ != "npm"@ ==> final(c).npm == (*c).npm
                &&& id@ == "dsh"@ ==> text::option_text(final(c).dsh) == Some(path@)
                &&& id@ != "dsh"@ ==> final(c).dsh == (*c).dsh
                &&& final(c).npm_prefix == (*c).npm_prefix
            },
{
    reveal_strlit("node");
    reveal_strlit("npm");
    reveal_strlit("dsh");
    assert("npm"@[0] != "dsh"@[0]);
    assert("node"@.len() != "npm"@.len());
}

/// The directories that are put before a search path stand there in their order, with
/// semicolons between them, and what was there before follows them.
pub proof fn law_search_path_is_only_extended(dirs: &Vec<String>, path: Option<&str>, r: String)
    requires
        call_ensures(path_with, (dirs, path), r),
    ensures
        dirs@.len() == 0 && path is Some ==> r@ == path->Some_0@,
        dirs@.len() > 0 && path is Some ==> r@ == text::joined(text::texts(dirs@), ";"@) + ";"@
            + path->Some_0@,
        dirs@.len() > 0 && path is None ==> r@ == text::joined(text::texts(dirs@), ";"@) + ";"@,
{
    let t = text::texts(dirs@);
    let p = match path {
        Some(p) => p@,
        None => Seq::<char>::empty(),
    };
    assert(t.len() == dirs@.len());
    assert(t.push(p) =~= t + seq![p]);
    if t.len() > 0 {
        text::law_joining_puts_the_separator_between(t, seq![p], ";"@);
        assert(text::joined(t, ";"@) + ";"@ + Seq::<char>::empty() =~= text::joined(t, ";"@)
            + ";"@);
    } else {
        assert(t.push(p) =~= seq![p]);
        text::law_joining_puts_the_separator_between(seq![p], seq![p], ";"@);
    }
}

/// The search path for children has the directory of npm's global programs before all that was
/// in it, and ends in what it was.
pub proof fn law_children_find_what_was_installed(
    cfg: &Config,
    appdata: Option<&str>,
    path: &str,
    r: String,
    dirs: Vec<String>,
)
    requires
        call_ensures(Config::child_path_env, (cfg, appdata, Some(path)), r),
        call_ensures(Config::prelude_dirs, (cfg, appdata), dirs),
    ensures
        text::ends(r@, path@),
        cfg.npm_prefix matches Some(p) ==> has_like(text::texts(dirs@), p@),
        appdata matches Some(a) ==> has_like(text::texts(dirs@), within(a@, "npm"@)),
        text::texts(dirs@).no_duplicates(),
{
    let list = choose|list: Seq<Seq<char>>| #[trigger]
        cfg.is_prelude(text::option_str(appdata), list) && r@ == in_front(list, Some(path@));
    assert(cfg.is_prelude(text::option_str(appdata), list) && r@ == in_front(list, Some(path@)));
    assert(list.push(path@) =~= list + seq![path@]);
    if list.len() > 0 {
        text::law_joining_puts_the_separator_between(list, seq![path@], ";"@);
    } else {
        assert(list.push(path@) =~= seq![path@]);
        text::law_joining_puts_the_separator_between(seq![path@], seq![path@], ";"@);
    }
    assert(r@.subrange(r@.len() - path@.len(), r@.len() as int) =~= path@);
}

/// The shell keeps its files in `.dshell` in the user's directory, or in the current one where
/// that is not known; npm keeps its programs in `npm` below the application data.
pub proof fn law_files_are_kept_in_the_users_directory(
    home: Option<&str>,
    path: String,
    appdata: Option<&str>,
    npm: Option<String>,
)
    requires
        call_ensures(Config::path, (home,), path),
        call_ensures(Config::npm_global_dir, (appdata,), npm),
    ensures
        home matches Some(h) ==> path@ == within(within(h@, ".dshell"@), "config.json"@),
        home is None ==> path@ == within(within("."@, ".dshell"@), "config.json"@),
        npm is Some <==> appdata is Some,
        appdata matches Some(a) ==> text::option_text(npm) == Some(within(a@, "npm"@)),
{
}

/// Each directory that is known is listed once, in the order of the programs.
pub proof fn law_known_directories_are_listed(
    node: &Option<String>,
    npm: &Option<String>,
    dsh: &Option<String>,
    npm_prefix: &Option<String>,
    global: &Option<String>,
    r: Vec<String>,
)
    requires
        call_ensures(dir_list, (node, npm, dsh, npm_prefix, global), r),
    ensures
        *node is Some ==> r@.len() > 0 && text::texts(r@)[0] == node->Some_0@,
        *node is Some && *npm is Some && *dsh is Some && *npm_prefix is Some && *global is Some
            ==> text::texts(r@) == seq![
            node->Some_0@,
            npm->Some_0@,
            dsh->Some_0@,
            npm_prefix->Some_0@,
            global->Some_0@,
        ],
        *node is None && *npm is None && *dsh is None && *npm_prefix is None ==> text::texts(r@)
            == maybe(*global),
        *global matches Some(g) ==> text::texts(r@).len() > 0 && text::texts(r@).last() == g@,
        r@.len() == maybe(*node).len() + maybe(*npm).len() + maybe(*dsh).len() + maybe(
            *npm_prefix,
        ).len() + maybe(*global).len(),
{
    assert(text::texts(r@).len() == r@.len());
    assert(maybe(*node).len() <= 1);
    if *node is None && *npm is None && *dsh is None && *npm_prefix is None {
        assert(text::texts(r@) =~= maybe(*global));
    }
}

/// Of some paths each stays once: none of them is lost but to one like it, none is new, and no
/// two of those that stay are the same.
pub proof fn law_paths_stay_once(v: Vec<String>, r: Vec<String>, i: int)
    requires
        call_ensures(dedup_paths, (v,), r),
        0 <= i < v@.len(),
    ensures
        text::texts(r@).no_duplicates(),
        has_like(text::texts(r@), v@[i]@),
        forall|p: Seq<char>| #[trigger]
            text::texts(r@).contains(p) ==> text::texts(v@).contains(p),
{
    let t = text::texts(r@);
    let f = text::texts(v@);
    assert(f[i] == v@[i]@);
    let picks = choose|picks: Seq<int>| #[trigger] picked(picks, t, f);
    assert(picked(picks, t, f));
    assert forall|p: Seq<char>| #[trigger] t.contains(p) implies f.contains(p) by {
        let k = choose|k: int| 0 <= k < t.len() && t[k] == p;
        assert(f[picks[k]] == p);
    }
}

/// Of each program whose path is configured the directory is put before the search path.
pub proof fn law_configured_programs_are_found(
    cfg: &Config,
    appdata: Option<&str>,
    dirs: Vec<String>,
)
    requires
        call_ensures(Config::prelude_dirs, (cfg, appdata), dirs),
    ensures
        (cfg.node matches Some(p) && has_name(p@)) ==> exists|d: Seq<char>| #[trigger]
            parent(d, cfg.node->Some_0@) && has_like(text::texts(dirs@), d),
        (cfg.npm matches Some(p) && has_name(p@)) ==> exists|d: Seq<char>| #[trigger]
            parent(d, cfg.npm->Some_0@) && has_like(text::texts(dirs@), d),
        (cfg.dsh matches Some(p) && has_name(p@)) ==> exists|d: Seq<char>| #[trigger]
            parent(d, cfg.dsh->Some_0@) && has_like(text::texts(dirs@), d),
{
}

/// Nothing is put before the search path but npm's global directory, npm's own, and those of
/// the configured programs.
pub proof fn law_only_known_directories_are_put_first(
    cfg: &Config,
    appdata: Option<&str>,
    dirs: Vec<String>,
    i: int,
)
    requires
        call_ensures(Config::prelude_dirs, (cfg, appdata), dirs),
        0 <= i < dirs@.len(),
    ensures
        ({
            ||| text::option_text(cfg.npm_prefix) == Some(dirs@[i]@)
            ||| (appdata is Some && dirs@[i]@ == within(appdata->Some_0@, "npm"@))
            ||| (cfg.node is Some && parent(dirs@[i]@, cfg.node->Some_0@))
            ||| (cfg.npm is Some && parent(dirs@[i]@, cfg.npm->Some_0@))
            ||| (cfg.dsh is Some && parent(dirs@[i]@, cfg.dsh->Some_0@))
        }),
{
    let t = text::texts(dirs@);
    assert(t[i] == dirs@[i]@);
    assert(cfg.prelude(text::option_str(appdata), t[i]));
}

/// The directory of a path begins it, and is shorter than it; a path with a name has one.
pub proof fn law_directory_begins_the_path(path: &Option<String>, r: Option<String>)
    requires
        call_ensures(dir_of, (path,), r),
    ensures
        *path is None ==> r is None,
        (*path is Some && has_name(path->Some_0@)) ==> r is Some,
        r is Some ==> r->Some_0@.len() < path->Some_0@.len() && r->Some_0@.is_prefix_of(
            path->Some_0@,
        ),
{
    if r is Some {
        assert(r->Some_0@ =~= path->Some_0@.subrange(0, r->Some_0@.len() as int));
    }
}

} // verus!
