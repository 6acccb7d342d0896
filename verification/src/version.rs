//! Semantic versions: how they are written and which of two comes first.

use vstd::prelude::*;

use crate::text;

verus! {

/// A semantic version.
pub struct SemVer {
    pub major: u64,
    pub minor: u64,
    pub patch: u64,
    /// The pre-release, empty for a release.
    pub pre: String,
    /// The build metadata, mostly empty.
    pub build: String,
}

/// What a semantic version says.
#[verifier::ext_equal]
pub struct Numbered {
    pub major: nat,
    pub minor: nat,
    pub patch: nat,
    pub pre: Seq<char>,
    pub build: Seq<char>,
}

impl View for SemVer {
    type V = Numbered;

    open spec fn view(&self) -> Numbered {
        Numbered {
            major: self.major as nat,
            minor: self.minor as nat,
            patch: self.patch as nat,
            pre: self.pre@,
            build: self.build@,
        }
    }
}

// ───────────────────────── how versions are written ─────────────────────────

/// A character of a pre-release or of build metadata.
pub open spec fn tail_char(c: char) -> bool {
    text::alnum(c) || c == '-' || c == '.'
}

/// Identifiers with dots between them, none of them empty.
pub open spec fn identifiers(s: Seq<char>) -> bool {
    text::every(s, |c: char| tail_char(c)) && forall|k: int|
        0 <= k < text::split(s, '.').len() ==> (#[trigger] text::split(s, '.')[k]).len() > 0
}

/// No identifier is a number with a leading zero.
pub open spec fn no_leading_zeros(s: Seq<char>) -> bool {
    forall|k: int|
        0 <= k < text::split(s, '.').len() && text::all_digits(#[trigger] text::split(s, '.')[k])
            && text::split(s, '.')[k].len() > 1 ==> text::split(s, '.')[k][0] != '0'
}

/// A version that can be written.
pub open spec fn valid(v: Numbered) -> bool {
    &&& v.major <= u64::MAX && v.minor <= u64::MAX && v.patch <= u64::MAX
    &&& v.pre.len() > 0 ==> identifiers(v.pre) && no_leading_zeros(v.pre)
    &&& v.build.len() > 0 ==> identifiers(v.build)
}

/// What stands behind the three numbers.
pub open spec fn tail(v: Numbered) -> Seq<char> {
    let build = if v.build.len() > 0 {
        seq!['+'] + v.build
    } else {
        seq![]
    };
    if v.pre.len() > 0 {
        seq!['-'] + (v.pre + build)
    } else {
        build
    }
}

/// A version as it is written.
pub open spec fn spelled(v: Numbered) -> Seq<char> {
    text::decimal(v.major) + (seq!['.'] + (text::decimal(v.minor) + (seq!['.'] + (text::decimal(
        v.patch,
    ) + tail(v)))))
}

/// The version that a text writes, if it writes one.
pub open spec fn parsed(s: Seq<char>) -> Option<Numbered> {
    if exists|v: Numbered| valid(v) && s == #[trigger] spelled(v) {
        Some(choose|v: Numbered| valid(v) && s == #[trigger] spelled(v))
    } else {
        None
    }
}

/// Where the characters up to a point have a property that the next one lacks, that point is
/// the same in equal texts.
proof fn lemma_same_run(
    a: Seq<char>,
    x: Seq<char>,
    b: Seq<char>,
    y: Seq<char>,
    p: spec_fn(char) -> bool,
)
    requires
        a + x == b + y,
        text::every(a, p),
        text::every(b, p),
        x.len() > 0 ==> !p(x[0]),
        y.len() > 0 ==> !p(y[0]),
    ensures
        a == b,
        x == y,
{
    let whole = a + x;
    assert(whole.len() == a.len() + x.len() == b.len() + y.len());
    if a.len() < b.len() {
        assert(whole[a.len() as int] == x[0]);
        assert((b + y)[a.len() as int] == b[a.len() as int]);
    } else if b.len() < a.len() {
        assert((b + y)[b.len() as int] == y[0]);
        assert(whole[b.len() as int] == a[b.len() as int]);
    }
    assert(a.len() == b.len());
    assert forall|i: int| 0 <= i < a.len() implies a[i] == b[i] by {
        assert(whole[i] == a[i]);
        assert((b + y)[i] == b[i]);
    }
    assert(a =~= b);
    assert forall|i: int| 0 <= i < x.len() implies x[i] == y[i] by {
        assert(whole[a.len() + i] == x[i]);
        assert((b + y)[b.len() + i] == y[i]);
    }
    assert(x =~= y);
}

proof fn lemma_number_first(m: nat, x: Seq<char>, n: nat, y: Seq<char>)
    requires
        text::decimal(m) + x == text::decimal(n) + y,
        x.len() > 0 ==> !text::digit(x[0]),
        y.len() > 0 ==> !text::digit(y[0]),
    ensures
        m == n,
        x == y,
{
    text::lemma_decimal(m);
    text::lemma_decimal(n);
    lemma_same_run(text::decimal(m), x, text::decimal(n), y, |c: char| text::digit(c));
}

proof fn lemma_dot_first(x: Seq<char>, y: Seq<char>)
    requires
        seq!['.'] + x == seq!['.'] + y,
    ensures
        x == y,
{
    assert((seq!['.'] + x).skip(1) =~= x);
    assert((seq!['.'] + y).skip(1) =~= y);
}

/// A text writes at most one version.
pub proof fn lemma_spelled_once(a: Numbered, b: Numbered)
    requires
        valid(a),
        valid(b),
        spelled(a) == spelled(b),
    ensures
        a == b,
{
    let a3 = text::decimal(a.patch) + tail(a);
    let b3 = text::decimal(b.patch) + tail(b);
    let a2 = text::decimal(a.minor) + (seq!['.'] + a3);
    let b2 = text::decimal(b.minor) + (seq!['.'] + b3);
    lemma_number_first(a.major, seq!['.'] + a2, b.major, seq!['.'] + b2);
    lemma_dot_first(a2, b2);
    lemma_number_first(a.minor, seq!['.'] + a3, b.minor, seq!['.'] + b3);
    lemma_dot_first(a3, b3);
    lemma_number_first(a.patch, tail(a), b.patch, tail(b));
    let ab = if a.build.len() > 0 {
        seq!['+'] + a.build
    } else {
        seq![]
    };
    let bb = if b.build.len() > 0 {
        seq!['+'] + b.build
    } else {
        seq![]
    };
    if a.pre.len() > 0 {
        assert(tail(a)[0] == '-');
        assert(b.pre.len() > 0);
        assert(tail(a).skip(1) =~= a.pre + ab);
        assert(tail(b).skip(1) =~= b.pre + bb);
        assert forall|i: int| 0 <= i < a.pre.len() implies #[trigger] a.pre[i] != '+' by {
            assert(tail_char(a.pre[i]));
        }
        assert forall|i: int| 0 <= i < b.pre.len() implies #[trigger] b.pre[i] != '+' by {
            assert(tail_char(b.pre[i]));
        }
        lemma_same_run(a.pre, ab, b.pre, bb, |c: char| c != '+');
    } else {
        if b.pre.len() > 0 {
            assert(tail(b)[0] == '-');
        }
        assert(a.pre =~= b.pre);
        assert(ab == bb);
    }
    if a.build.len() > 0 {
        assert(ab[0] == '+');
        assert(b.build.len() > 0);
        assert(ab.skip(1) =~= a.build);
        assert(bb.skip(1) =~= b.build);
    } else {
        assert(a.build =~= b.build);
    }
}

/// `semver::Version::parse`, with the version's parts taken over one by one. It accepts
/// exactly the texts that write a version by the rules of the crate's documentation: three
/// numbers of at most 64 bits without leading zeros, a pre-release of non-empty identifiers
/// whose numbers have no leading zeros, build metadata of non-empty identifiers.
#[verifier::external_body]
fn semver_parse(s: &str) -> (r: Option<SemVer>)
    ensures
        r matches Some(v) ==> valid(v@) && s@ == spelled(v@),
        r is None ==> forall|v: Numbered| valid(v) ==> s@ != #[trigger] spelled(v),
{
    let v = semver::Version::parse(s).ok()?;
    Some(SemVer {
        major: v.major,
        minor: v.minor,
        patch: v.patch,
        pre: v.pre.to_string(),
        build: v.build.to_string(),
    })
}

/// The version that a text writes, if it writes one.
pub fn parse(s: &str) -> (r: Option<SemVer>)
    ensures
        r matches Some(v) ==> parsed(s@) == Some(v@),
        r is None <==> parsed(s@) is None,
{
    let r = semver_parse(s);
    proof {
        if r is Some {
            let v = r->0@;
            assert(valid(v) && s@ == spelled(v));
            let w = choose|w: Numbered| valid(w) && s@ == #[trigger] spelled(w);
            lemma_spelled_once(v, w);
        }
    }
    r
}

/// Whether a text writes a version.
pub fn is_version(s: &str) -> (r: bool)
    ensures
        r == parsed(s@) is Some,
{
    match parse(s) {
        Some(_) => true,
        None => false,
    }
}

// ───────────────────────── which version comes first ─────────────────────────

/// The dictionary order of sequences of numbers.
pub open spec fn lex(a: Seq<int>, b: Seq<int>) -> bool
    decreases a.len(),
{
    if b.len() == 0 {
        false
    } else if a.len() == 0 {
        true
    } else {
        a[0] < b[0] || (a[0] == b[0] && lex(a.drop_first(), b.drop_first()))
    }
}

/// The place of an identifier: a number comes before a word; numbers go by their value and
/// then by their length, words by their characters.
pub open spec fn identifier_key(p: Seq<char>) -> Seq<int> {
    if text::all_digits(p) {
        seq![1int, text::value(p) as int, p.len() as int]
    } else {
        seq![2int] + p.map_values(|c: char| c as int + 1) + seq![0int]
    }
}

/// The place of a list of identifiers: the first difference decides, and a list comes before
/// its continuations.
pub open spec fn identifiers_key(parts: Seq<Seq<char>>) -> Seq<int>
    decreases parts.len(),
{
    if parts.len() == 0 {
        seq![0int]
    } else {
        identifier_key(parts[0]) + identifiers_key(parts.drop_first())
    }
}

/// The place of a version: by its three numbers, then a pre-release before the release and
/// by its identifiers, then by its build metadata.
pub open spec fn key(v: Numbered) -> Seq<int> {
    let pre = if v.pre.len() == 0 {
        seq![1int]
    } else {
        seq![0int] + identifiers_key(text::split(v.pre, '.'))
    };
    seq![v.major as int, v.minor as int, v.patch as int] + pre + identifiers_key(
        text::split(v.build, '.'),
    )
}

/// One version is less than another.
pub open spec fn older(a: Numbered, b: Numbered) -> bool {
    lex(key(a), key(b))
}

pub proof fn lemma_lex_irreflexive(a: Seq<int>)
    ensures
        !lex(a, a),
    decreases a.len(),
{
    if a.len() > 0 {
        lemma_lex_irreflexive(a.drop_first());
    }
}

pub proof fn lemma_lex_transitive(a: Seq<int>, b: Seq<int>, c: Seq<int>)
    requires
        lex(a, b),
        lex(b, c),
    ensures
        lex(a, c),
    decreases a.len(),
{
    if a.len() > 0 {
        if a[0] == b[0] && b[0] == c[0] {
            lemma_lex_transitive(a.drop_first(), b.drop_first(), c.drop_first());
        }
    }
}

pub proof fn lemma_lex_total(a: Seq<int>, b: Seq<int>)
    ensures
        lex(a, b) || a == b || lex(b, a),
    decreases a.len(),
{
    if a.len() == 0 || b.len() == 0 {
        if a.len() == 0 && b.len() == 0 {
            assert(a =~= b);
        }
    } else if a[0] == b[0] {
        lemma_lex_total(a.drop_first(), b.drop_first());
        if a.drop_first() == b.drop_first() {
            assert(a =~= seq![a[0]] + a.drop_first());
            assert(b =~= seq![b[0]] + b.drop_first());
        }
    }
}

/// The numbers of a text's characters.
pub open spec fn codes(s: Seq<char>) -> Seq<int> {
    s.map_values(|c: char| c as int)
}

/// One text comes before another in the order of their characters.
pub open spec fn text_before(a: Seq<char>, b: Seq<char>) -> bool {
    lex(codes(a), codes(b))
}

/// Whether one text comes before another.
pub fn comes_before(a: &str, b: &str) -> (r: bool)
    ensures
        r == text_before(a@, b@),
{
    let x = text::chars(a);
    let y = text::chars(b);
    let mut i: usize = 0;
    assert(codes(x@).skip(0) =~= codes(x@));
    assert(codes(y@).skip(0) =~= codes(y@));
    while i < x.len() && i < y.len()
        invariant
            i <= x.len(),
            i <= y.len(),
            x@ == a@,
            y@ == b@,
            text_before(a@, b@) == lex(codes(x@).skip(i as int), codes(y@).skip(i as int)),
        decreases x.len() - i,
    {
        let ghost p = codes(x@).skip(i as int);
        let ghost q = codes(y@).skip(i as int);
        assert(p[0] == x@[i as int] as int);
        assert(q[0] == y@[i as int] as int);
        if x[i] != y[i] {
            return x[i] < y[i];
        }
        assert(p.drop_first() =~= codes(x@).skip(i + 1));
        assert(q.drop_first() =~= codes(y@).skip(i + 1));
        i = i + 1;
    }
    i < y.len()
}

/// `semver::Version`'s `<`: the total order of the crate's documentation. It is claimed of
/// texts that write versions only.
#[verifier::external_body]
fn semver_less(a: &str, b: &str) -> (r: bool)
    ensures
        parsed(a@) is Some && parsed(b@) is Some ==> r == older(parsed(a@)->0, parsed(b@)->0),
{
    semver::Version::parse(a).ok() < semver::Version::parse(b).ok()
}

/// Whether two texts both write versions and the first is less.
pub fn is_older(a: &str, b: &str) -> (r: bool)
    ensures
        r == (parsed(a@) is Some && parsed(b@) is Some && older(parsed(a@)->0, parsed(b@)->0)),
{
    is_version(a) && is_version(b) && semver_less(a, b)
}

/// A release is newer than every pre-release of it.
pub proof fn law_release_is_newer_than_its_prereleases(v: Numbered, pre: Seq<char>, build: Seq<char>)
    requires
        v.pre.len() == 0,
        pre.len() > 0,
    ensures
        older(Numbered { pre, build, ..v }, v),
        !older(v, Numbered { pre, build, ..v }),
{
    let w = Numbered { pre, build, ..v };
    reveal_with_fuel(lex, 5);
    let a = key(w);
    let b = key(v);
    assert(a[0] == b[0] && a[1] == b[1] && a[2] == b[2]);
    assert(a[3] == 0 && b[3] == 1);
    assert(a.drop_first()[0] == a[1] && b.drop_first()[0] == b[1]);
    assert(a.drop_first().drop_first()[0] == a[2] && b.drop_first().drop_first()[0] == b[2]);
    assert(a.drop_first().drop_first().drop_first()[0] == a[3]);
    assert(b.drop_first().drop_first().drop_first()[0] == b[3]);
}

proof fn lemma_lex_common(p: Seq<int>, a: Seq<int>, b: Seq<int>)
    ensures
        lex(p + a, p + b) == lex(a, b),
    decreases p.len(),
{
    if p.len() == 0 {
        assert(p + a =~= a);
        assert(p + b =~= b);
    } else {
        let q = p.drop_first();
        lemma_lex_common(q, a, b);
        assert((p + a).drop_first() =~= q + a);
        assert((p + b).drop_first() =~= q + b);
    }
}

proof fn lemma_identifiers_key_add(a: Seq<Seq<char>>, b: Seq<Seq<char>>)
    ensures
        exists|p: Seq<int>|
            identifiers_key(a + b) == p + identifiers_key(b) && #[trigger] prefix_of_key(p, a),
    decreases a.len(),
{
    if a.len() == 0 {
        assert(a + b =~= b);
        let p = Seq::<int>::empty();
        assert(identifiers_key(a + b) =~= p + identifiers_key(b));
        assert(prefix_of_key(p, a));
    } else {
        let less = a.drop_first();
        lemma_identifiers_key_add(less, b);
        let p = choose|p: Seq<int>|
            identifiers_key(less + b) == p + identifiers_key(b) && #[trigger] prefix_of_key(p, less);
        assert((a + b).drop_first() =~= less + b);
        assert((a + b)[0] == a[0]);
        let q = identifier_key(a[0]) + p;
        assert(identifiers_key(a + b) =~= q + identifiers_key(b));
        assert(prefix_of_key(q, a)) by {
            assert(q + seq![0int] =~= identifier_key(a[0]) + (p + seq![0int]));
        }
    }
}

spec fn prefix_of_key(p: Seq<int>, a: Seq<Seq<char>>) -> bool {
    p + seq![0int] == identifiers_key(a)
}

/// Of two pre-releases whose identifiers first differ in a number, the greater number is
/// newer: `rc.10` is newer than `rc.2`.
pub proof fn law_prerelease_numbers_compare_by_value(
    v: Numbered,
    w: Numbered,
    shared: Seq<Seq<char>>,
    m: Seq<char>,
    n: Seq<char>,
    more: Seq<Seq<char>>,
    rest: Seq<Seq<char>>,
)
    requires
        v.major == w.major,
        v.minor == w.minor,
        v.patch == w.patch,
        v.pre.len() > 0,
        w.pre.len() > 0,
        text::split(v.pre, '.') == shared + (seq![m] + more),
        text::split(w.pre, '.') == shared + (seq![n] + rest),
        text::all_digits(m),
        text::all_digits(n),
        text::value(m) < text::value(n),
    ensures
        older(v, w),
        !older(w, v),
{
    let a = seq![m] + more;
    let b = seq![n] + rest;
    lemma_identifiers_key_add(shared, a);
    lemma_identifiers_key_add(shared, b);
    let p = choose|p: Seq<int>|
        identifiers_key(shared + a) == p + identifiers_key(a) && #[trigger] prefix_of_key(p, shared);
    let q = choose|q: Seq<int>|
        identifiers_key(shared + b) == q + identifiers_key(b) && #[trigger] prefix_of_key(q, shared);
    assert(p =~= (p + seq![0int]).drop_last());
    assert(q =~= (q + seq![0int]).drop_last());
    assert(p == q);
    let head = seq![v.major as int, v.minor as int, v.patch as int] + seq![0int] + p;
    let ta = identifiers_key(a) + identifiers_key(text::split(v.build, '.'));
    let tb = identifiers_key(b) + identifiers_key(text::split(w.build, '.'));
    assert(key(v) =~= head + ta);
    assert(key(w) =~= head + tb);
    lemma_lex_common(head, ta, tb);
    lemma_lex_common(head, tb, ta);
    reveal_with_fuel(lex, 3);
    assert(a[0] == m && b[0] == n);
    assert(ta[0] == 1 && tb[0] == 1);
    assert(ta[1] == text::value(m) && tb[1] == text::value(n));
    assert(ta.drop_first()[0] == ta[1] && tb.drop_first()[0] == tb[1]);
}

/// Three numbers with dots between them are a version, whatever pre-release and build metadata
/// follow it, and are read as those numbers.
#[verifier::rlimit(50)]
pub proof fn law_versions_are_read_as_written(v: Numbered)
    requires
        valid(v),
    ensures
        parsed(spelled(v)) == Some(v),
        v.pre.len() == 0 && v.build.len() == 0 ==> spelled(v) == text::decimal(v.major) + seq!['.']
            + text::decimal(v.minor) + seq!['.'] + text::decimal(v.patch),
        v.pre.len() > 0 && v.build.len() == 0 ==> spelled(v) == text::decimal(v.major) + seq!['.']
            + text::decimal(v.minor) + seq!['.'] + text::decimal(v.patch) + seq!['-'] + v.pre,
        v.pre.len() == 0 && v.build.len() > 0 ==> spelled(v) == text::decimal(v.major) + seq!['.']
            + text::decimal(v.minor) + seq!['.'] + text::decimal(v.patch) + seq!['+'] + v.build,
{
    let w = choose|w: Numbered| valid(w) && spelled(v) == #[trigger] spelled(w);
    assert(valid(w) && spelled(v) == spelled(w));
    lemma_spelled_once(v, w);
    let m = text::decimal(v.major) + seq!['.'] + text::decimal(v.minor) + seq!['.']
        + text::decimal(v.patch);
    assert(spelled(v) =~= m + tail(v));
    assert(m + Seq::<char>::empty() =~= m);
    assert(seq!['-'] + (v.pre + Seq::<char>::empty()) =~= seq!['-'] + v.pre);
    if v.pre.len() > 0 {
        assert(m + (seq!['-'] + v.pre) =~= m + seq!['-'] + v.pre);
    } else if v.build.len() > 0 {
        assert(m + (seq!['+'] + v.build) =~= m + seq!['+'] + v.build);
    }
}

/// Of two versions the one with the lesser first number is the older; where that is the same
/// the second decides, and then the third.
pub proof fn law_lesser_numbers_are_older(a: Numbered, b: Numbered)
    ensures
        a.major < b.major ==> older(a, b) && !older(b, a),
        a.major == b.major && a.minor < b.minor ==> older(a, b) && !older(b, a),
        a.major == b.major && a.minor == b.minor && a.patch < b.patch ==> older(a, b) && !older(
            b,
            a,
        ),
        !older(a, a),
{
    let x = key(a);
    let y = key(b);
    reveal_with_fuel(lex, 4);
    assert(x[0] == a.major && x[1] == a.minor && x[2] == a.patch);
    assert(y[0] == b.major && y[1] == b.minor && y[2] == b.patch);
    assert(x.drop_first()[0] == x[1] && x.drop_first().drop_first()[0] == x[2]);
    assert(y.drop_first()[0] == y[1] && y.drop_first().drop_first()[0] == y[2]);
    lemma_lex_irreflexive(x);
}

/// No version is older than another that is older than it, and age is handed on.
pub proof fn law_age_is_an_order(a: Numbered, b: Numbered, c: Numbered)
    ensures
        older(a, b) ==> !older(b, a),
        older(a, b) && older(b, c) ==> older(a, c),
{
    if older(a, b) && older(b, a) {
        lemma_lex_transitive(key(a), key(b), key(a));
        lemma_lex_irreflexive(key(a));
    }
    if older(a, b) && older(b, c) {
        lemma_lex_transitive(key(a), key(b), key(c));
    }
}

/// Texts are ordered by their first difference, and a text stands before what it begins.
pub proof fn law_first_different_character_decides(
    p: Seq<char>,
    c: char,
    a: Seq<char>,
    d: char,
    b: Seq<char>,
)
    ensures
        (c as int) < d as int ==> text_before(p + seq![c] + a, p + seq![d] + b) && !text_before(
            p + seq![d] + b,
            p + seq![c] + a,
        ),
        text_before(p, p + seq![c] + a),
        !text_before(p, p),
{
    let x = codes(seq![c] + a);
    let y = codes(seq![d] + b);
    assert(codes(p + seq![c] + a) =~= codes(p) + x);
    assert(codes(p + seq![d] + b) =~= codes(p) + y);
    assert(codes(p) =~= codes(p) + Seq::<int>::empty());
    lemma_lex_common(codes(p), x, y);
    lemma_lex_common(codes(p), y, x);
    lemma_lex_common(codes(p), Seq::empty(), x);
    lemma_lex_irreflexive(codes(p));
    assert(x[0] == c as int && y[0] == d as int);
}

/// What writes no version is neither older nor newer than anything.
pub proof fn law_only_versions_have_an_age(
    a: &str,
    b: &str,
    r: bool,
    is: bool,
    before: bool,
)
    requires
        call_ensures(is_older, (a, b), r),
        call_ensures(is_version, (a,), is),
        call_ensures(comes_before, (a, b), before),
    ensures
        r ==> is && parsed(b@) is Some && a@ != b@,
        is <==> exists|v: Numbered| valid(v) && a@ == #[trigger] spelled(v),
        forall|v: Numbered, w: Numbered|
            valid(v) && valid(w) && a@ == #[trigger] spelled(v) && b@ == #[trigger] spelled(w) ==> r
                == older(v, w),
        before == text_before(a@, b@),
{
    if r && a@ == b@ {
        lemma_lex_irreflexive(key(parsed(a@)->0));
    }
    assert forall|v: Numbered, w: Numbered|
        valid(v) && valid(w) && a@ == #[trigger] spelled(v) && b@
            == #[trigger] spelled(w) implies r == older(v, w) by {
        law_versions_are_read_as_written(v);
        law_versions_are_read_as_written(w);
    }
}

} // verus!
