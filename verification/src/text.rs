//! Text: the handful of string operations that the rest of the library is stated in.
//!
//! A text is modelled by its characters (`Seq<char>`). Each executable helper has a
//! spec function of the same meaning next to it.

use vstd::prelude::*;
use vstd::slice::slice_subrange;

verus! {

// ───────────────────────── building strings ─────────────────────────

/// `String::push` appends one character.
pub assume_specification[ String::push ](s: &mut String, ch: char)
    ensures
        final(s)@ == old(s)@.push(ch),
;

/// `String::push_str` appends the characters of another text.
pub assume_specification[ String::push_str ](s: &mut String, string: &str)
    ensures
        final(s)@ == old(s)@ + string@,
;

/// The characters of a text.
pub fn chars(s: &str) -> (r: Vec<char>)
    ensures
        r@ == s@,
{
    let mut out: Vec<char> = Vec::new();
    for c in it: s.chars()
        invariant
            it.seq() == s@,
            out@ == s@.take(it.index()),
    {
        out.push(c);
        assert(out@ =~= s@.take(it.index() + 1));
    }
    assert(out@ =~= s@);
    out
}

/// The text with the given characters.
pub fn text_of(v: &[char]) -> (r: String)
    ensures
        r@ == v@,
{
    let mut out = String::new();
    let mut i: usize = 0;
    while i < v.len()
        invariant
            i <= v.len(),
            out@ == v@.take(i as int),
        decreases v.len() - i,
    {
        out.push(v[i]);
        i = i + 1;
        assert(out@ =~= v@.take(i as int));
    }
    assert(out@ =~= v@);
    out
}

/// A copy of a text.
pub fn copy(s: &str) -> (r: String)
    ensures
        r@ == s@,
{
    let mut out = String::new();
    out.push_str(s);
    assert(out@ =~= s@);
    out
}

/// Two texts one after the other.
pub fn cat2(a: &str, b: &str) -> (r: String)
    ensures
        r@ == a@ + b@,
{
    let mut out = copy(a);
    out.push_str(b);
    out
}

/// Three texts one after the other.
pub fn cat3(a: &str, b: &str, c: &str) -> (r: String)
    ensures
        r@ == a@ + b@ + c@,
{
    let mut out = cat2(a, b);
    out.push_str(c);
    out
}

/// Four texts one after the other.
pub fn cat4(a: &str, b: &str, c: &str, d: &str) -> (r: String)
    ensures
        r@ == a@ + b@ + c@ + d@,
{
    let mut out = cat3(a, b, c);
    out.push_str(d);
    out
}

/// Five texts one after the other.
pub fn cat5(a: &str, b: &str, c: &str, d: &str, e: &str) -> (r: String)
    ensures
        r@ == a@ + b@ + c@ + d@ + e@,
{
    let mut out = cat4(a, b, c, d);
    out.push_str(e);
    out
}

// ───────────────────────── equality ─────────────────────────

/// Whether two character slices hold the same characters.
pub fn same_chars(a: &[char], b: &[char]) -> (r: bool)
    ensures
        r == (a@ == b@),
{
    if a.len() != b.len() {
        return false;
    }
    let mut i: usize = 0;
    while i < a.len()
        invariant
            i <= a.len(),
            a.len() == b.len(),
            a@.take(i as int) == b@.take(i as int),
        decreases a.len() - i,
    {
        if a[i] != b[i] {
            assert(a@[i as int] != b@[i as int]);
            return false;
        }
        i = i + 1;
        assert(a@.take(i as int) =~= a@.take(i - 1).push(a@[i - 1]));
        assert(b@.take(i as int) =~= b@.take(i - 1).push(b@[i - 1]));
    }
    assert(a@ =~= a@.take(i as int));
    assert(b@ =~= b@.take(i as int));
    true
}

/// Whether two texts are equal.
pub fn same(a: &str, b: &str) -> (r: bool)
    ensures
        r == (a@ == b@),
{
    let x = chars(a);
    let y = chars(b);
    same_chars(x.as_slice(), y.as_slice())
}

// ───────────────────────── searching ─────────────────────────

/// `n` stands in `s` at position `i`.
pub open spec fn occurs_at(s: Seq<char>, n: Seq<char>, i: int) -> bool {
    0 <= i && i + n.len() <= s.len() && s.subrange(i, i + n.len()) == n
}

/// `n` stands somewhere in `s`.
pub open spec fn has(s: Seq<char>, n: Seq<char>) -> bool {
    exists|i: int| occurs_at(s, n, i)
}

/// The first position from `from` on at which `n` stands in `s`.
pub open spec fn first_from(s: Seq<char>, n: Seq<char>, from: int) -> Option<int>
    decreases s.len() + 1 - from,
{
    if from < 0 || from + n.len() > s.len() {
        None
    } else if occurs_at(s, n, from) {
        Some(from)
    } else {
        first_from(s, n, from + 1)
    }
}

/// The first position at which `n` stands in `s`.
pub open spec fn first(s: Seq<char>, n: Seq<char>) -> Option<int> {
    first_from(s, n, 0)
}

/// What `first_from` means: the least position, if there is one.
pub proof fn lemma_first_from(s: Seq<char>, n: Seq<char>, from: int)
    requires
        0 <= from,
    ensures
        first_from(s, n, from) matches Some(i) ==> from <= i && occurs_at(s, n, i) && (forall|j: int|
            from <= j < i ==> !occurs_at(s, n, j)),
        first_from(s, n, from) is None ==> forall|j: int| from <= j ==> !occurs_at(s, n, j),
    decreases s.len() + 1 - from,
{
    if from + n.len() <= s.len() && !occurs_at(s, n, from) {
        lemma_first_from(s, n, from + 1);
    }
}

pub open spec fn starts(s: Seq<char>, p: Seq<char>) -> bool {
    occurs_at(s, p, 0)
}

pub open spec fn ends(s: Seq<char>, p: Seq<char>) -> bool {
    occurs_at(s, p, s.len() - p.len())
}

fn matches_at(s: &[char], n: &[char], i: usize) -> (r: bool)
    requires
        i + n.len() <= s.len(),
    ensures
        r == occurs_at(s@, n@, i as int),
{
    same_chars(slice_subrange(s, i, i + n.len()), n)
}

/// The first position at which `n` stands in `s`, if any.
pub fn find(s: &[char], n: &[char]) -> (r: Option<usize>)
    ensures
        r matches Some(i) ==> first(s@, n@) == Some(i as int) && i + n.len() <= s.len(),
        r is None <==> first(s@, n@) is None,
{
    let mut i: usize = 0;
    while n.len() <= s.len() && i <= s.len() - n.len()
        invariant
            i <= s.len() + 1,
            first(s@, n@) == first_from(s@, n@, i as int),
        decreases s.len() + 1 - i,
    {
        if i == usize::MAX {
            assert(n.len() == 0);
            assert(s@.subrange(i as int, i as int) =~= n@);
            assert(occurs_at(s@, n@, i as int));
        }
        if matches_at(s, n, i) {
            return Some(i);
        }
        i = i + 1;
    }
    None
}

/// Whether `n` stands somewhere in `s`.
pub fn contains(s: &[char], n: &[char]) -> (r: bool)
    ensures
        r == has(s@, n@),
{
    proof {
        lemma_first_from(s@, n@, 0);
    }
    match find(s, n) {
        Some(_) => true,
        None => {
            assert forall|j: int| !occurs_at(s@, n@, j) by {
                if j < 0 {
                }
            }
            false
        },
    }
}

/// Whether `s` begins with `p`.
pub fn starts_with(s: &[char], p: &[char]) -> (r: bool)
    ensures
        r == starts(s@, p@),
{
    p.len() <= s.len() && matches_at(s, p, 0)
}

/// Whether `s` ends with `p`.
pub fn ends_with(s: &[char], p: &[char]) -> (r: bool)
    ensures
        r == ends(s@, p@),
{
    p.len() <= s.len() && matches_at(s, p, s.len() - p.len())
}

/// The first position from `from` on that holds the character `c`.
pub open spec fn first_char_from(s: Seq<char>, c: char, from: int) -> Option<int>
    decreases s.len() - from,
{
    if from < 0 || from >= s.len() {
        None
    } else if s[from] == c {
        Some(from)
    } else {
        first_char_from(s, c, from + 1)
    }
}

/// The first position that holds the character `c`.
pub open spec fn first_char(s: Seq<char>, c: char) -> Option<int> {
    first_char_from(s, c, 0)
}

/// What `first_char_from` means: the least position, if there is one.
pub proof fn lemma_first_char_from(s: Seq<char>, c: char, from: int)
    requires
        0 <= from,
    ensures
        first_char_from(s, c, from) matches Some(i) ==> from <= i < s.len() && s[i] == c && (forall|
            j: int,
        |
            from <= j < i ==> s[j] != c),
        first_char_from(s, c, from) is None ==> forall|j: int| from <= j < s.len() ==> s[j] != c,
    decreases s.len() - from,
{
    if from < s.len() && s[from] != c {
        lemma_first_char_from(s, c, from + 1);
    }
}

/// The first position that holds the character `c`, if any.
pub fn find_char(s: &[char], c: char) -> (r: Option<usize>)
    ensures
        r matches Some(i) ==> i < s.len() && first_char(s@, c) == Some(i as int),
        r is None <==> first_char(s@, c) is None,
{
    let mut i: usize = 0;
    while i < s.len()
        invariant
            i <= s.len(),
            first_char(s@, c) == first_char_from(s@, c, i as int),
        decreases s.len() - i,
    {
        if s[i] == c {
            return Some(i);
        }
        i = i + 1;
    }
    None
}

/// The last position before `upto` that holds the character `c`.
pub open spec fn last_char_before(s: Seq<char>, c: char, upto: int) -> Option<int>
    decreases upto,
{
    if upto <= 0 || upto > s.len() {
        None
    } else if s[upto - 1] == c {
        Some(upto - 1)
    } else {
        last_char_before(s, c, upto - 1)
    }
}

pub proof fn lemma_last_char_before(s: Seq<char>, c: char, upto: int)
    ensures
        last_char_before(s, c, upto) matches Some(i) ==> 0 <= i < upto && i < s.len() && s[i] == c,
    decreases upto,
{
    if 0 < upto <= s.len() && s[upto - 1] != c {
        lemma_last_char_before(s, c, upto - 1);
    }
}

/// The last position that holds the character `c`.
pub open spec fn last_char(s: Seq<char>, c: char) -> Option<int> {
    last_char_before(s, c, s.len() as int)
}

/// The last position that holds the character `c`, if any.
pub fn rfind_char(s: &[char], c: char) -> (r: Option<usize>)
    ensures
        r matches Some(i) ==> i < s.len() && last_char(s@, c) == Some(i as int),
        r is None <==> last_char(s@, c) is None,
{
    let mut i: usize = s.len();
    while i > 0
        invariant
            i <= s.len(),
            last_char(s@, c) == last_char_before(s@, c, i as int),
        decreases i,
    {
        if s[i - 1] == c {
            return Some(i - 1);
        }
        i = i - 1;
    }
    None
}

/// Whether some character of `s` is `c`.
pub fn has_char(s: &[char], c: char) -> (r: bool)
    ensures
        r == s@.contains(c),
{
    proof {
        lemma_first_char_from(s@, c, 0);
    }
    match find_char(s, c) {
        Some(_) => true,
        None => false,
    }
}

// ───────────────────────── characters ─────────────────────────

/// Unicode's `White_Space` property.
pub open spec fn space(c: char) -> bool {
    ||| '\u{9}' <= c <= '\u{d}'
    ||| c == ' '
    ||| c == '\u{85}'
    ||| c == '\u{a0}'
    ||| c == '\u{1680}'
    ||| '\u{2000}' <= c <= '\u{200a}'
    ||| c == '\u{2028}'
    ||| c == '\u{2029}'
    ||| c == '\u{202f}'
    ||| c == '\u{205f}'
    ||| c == '\u{3000}'
}

pub fn is_space(c: char) -> (r: bool)
    ensures
        r == space(c),
{
    ('\u{9}' <= c && c <= '\u{d}') || c == ' ' || c == '\u{85}' || c == '\u{a0}' || c == '\u{1680}'
        || ('\u{2000}' <= c && c <= '\u{200a}') || c == '\u{2028}' || c == '\u{2029}' || c
        == '\u{202f}' || c == '\u{205f}' || c == '\u{3000}'
}

pub open spec fn digit(c: char) -> bool {
    '0' <= c <= '9'
}

pub fn is_digit(c: char) -> (r: bool)
    ensures
        r == digit(c),
{
    '0' <= c && c <= '9'
}

/// An ASCII letter or digit.
pub open spec fn alnum(c: char) -> bool {
    digit(c) || 'a' <= c <= 'z' || 'A' <= c <= 'Z'
}

pub fn is_alnum(c: char) -> (r: bool)
    ensures
        r == alnum(c),
{
    is_digit(c) || ('a' <= c && c <= 'z') || ('A' <= c && c <= 'Z')
}

/// The ASCII lower case of a character; any other character is itself.
pub open spec fn low(c: char) -> char {
    if 'A' <= c <= 'Z' {
        ((c as u32) + 32) as char
    } else {
        c
    }
}

fn lower_char(c: char) -> (r: char)
    ensures
        r == low(c),
{
    if 'A' <= c && c <= 'Z' {
        ((c as u8) + 32) as char
    } else {
        c
    }
}

/// A text with its ASCII letters in lower case.
pub open spec fn lower(s: Seq<char>) -> Seq<char> {
    s.map_values(|c: char| low(c))
}

pub fn to_lower(s: &[char]) -> (r: Vec<char>)
    ensures
        r@ == lower(s@),
{
    let mut out: Vec<char> = Vec::new();
    let mut i: usize = 0;
    while i < s.len()
        invariant
            i <= s.len(),
            out@ == lower(s@).take(i as int),
        decreases s.len() - i,
    {
        out.push(lower_char(s[i]));
        i = i + 1;
        assert(out@ =~= lower(s@).take(i as int));
    }
    assert(out@ =~= lower(s@));
    out
}

// ───────────────────────── trimming ─────────────────────────

/// A text without the whitespace at its start.
pub open spec fn ltrim(s: Seq<char>) -> Seq<char>
    decreases s.len(),
{
    if s.len() > 0 && space(s[0]) {
        ltrim(s.drop_first())
    } else {
        s
    }
}

/// A text without the whitespace at its end.
pub open spec fn rtrim(s: Seq<char>) -> Seq<char>
    decreases s.len(),
{
    if s.len() > 0 && space(s.last()) {
        rtrim(s.drop_last())
    } else {
        s
    }
}

/// A text without the whitespace at both ends.
pub open spec fn trimmed(s: Seq<char>) -> Seq<char> {
    ltrim(rtrim(s))
}

pub fn trim_start(s: &[char]) -> (r: &[char])
    ensures
        r@ == ltrim(s@),
{
    let mut i: usize = 0;
    assert(s@.skip(0) =~= s@);
    while i < s.len() && is_space(s[i])
        invariant
            i <= s.len(),
            ltrim(s@) == ltrim(s@.skip(i as int)),
        decreases s.len() - i,
    {
        assert(s@.skip(i as int).drop_first() =~= s@.skip(i + 1));
        i = i + 1;
    }
    slice_subrange(s, i, s.len())
}

pub fn trim_end(s: &[char]) -> (r: &[char])
    ensures
        r@ == rtrim(s@),
{
    let mut i: usize = s.len();
    assert(s@.take(i as int) =~= s@);
    while i > 0 && is_space(s[i - 1])
        invariant
            i <= s.len(),
            rtrim(s@) == rtrim(s@.take(i as int)),
        decreases i,
    {
        assert(s@.take(i as int).drop_last() =~= s@.take(i - 1));
        i = i - 1;
    }
    slice_subrange(s, 0, i)
}

pub fn trim(s: &[char]) -> (r: &[char])
    ensures
        r@ == trimmed(s@),
{
    trim_start(trim_end(s))
}

/// A trimmed text, as a string of its own.
pub fn trim_text(s: &str) -> (r: String)
    ensures
        r@ == trimmed(s@),
{
    let v = chars(s);
    text_of(trim(v.as_slice()))
}

// ───────────────────────── splitting and joining ─────────────────────────

/// The texts of a list of strings.
pub open spec fn texts(v: Seq<String>) -> Seq<Seq<char>> {
    v.map_values(|s: String| s@)
}

/// The texts of a list of string slices.
pub open spec fn slices(v: Seq<&str>) -> Seq<Seq<char>> {
    v.map_values(|s: &str| s@)
}

/// A list of strings with the given texts.
pub fn strings(v: &[&str]) -> (r: Vec<String>)
    ensures
        texts(r@) == slices(v@),
{
    let mut out: Vec<String> = Vec::new();
    let mut i: usize = 0;
    while i < v.len()
        invariant
            i <= v.len(),
            texts(out@) == slices(v@).take(i as int),
        decreases v.len() - i,
    {
        let ghost before = out@;
        out.push(copy(v[i]));
        i = i + 1;
        assert(texts(out@) =~= texts(before).push(v@[i - 1]@));
        assert(texts(out@) =~= slices(v@).take(i as int));
    }
    assert(texts(out@) =~= slices(v@));
    out
}

/// A copy of a list of strings.
pub fn copies(v: &[String]) -> (r: Vec<String>)
    ensures
        texts(r@) == texts(v@),
{
    let mut out: Vec<String> = Vec::new();
    let mut i: usize = 0;
    while i < v.len()
        invariant
            i <= v.len(),
            texts(out@) == texts(v@).take(i as int),
        decreases v.len() - i,
    {
        let ghost before = out@;
        out.push(copy(v[i].as_str()));
        i = i + 1;
        assert(texts(out@) =~= texts(before).push(v@[i - 1]@));
        assert(texts(out@) =~= texts(v@).take(i as int));
    }
    assert(texts(out@) =~= texts(v@));
    out
}

/// Whether a list of strings holds a text.
pub fn among(v: &[String], s: &str) -> (r: bool)
    ensures
        r == texts(v@).contains(s@),
{
    let mut i: usize = 0;
    while i < v.len()
        invariant
            i <= v.len(),
            forall|j: int| 0 <= j < i ==> texts(v@)[j] != s@,
        decreases v.len() - i,
    {
        if same(v[i].as_str(), s) {
            assert(texts(v@)[i as int] == s@);
            return true;
        }
        i = i + 1;
    }
    false
}

/// A copy of a text that may be missing.
pub fn copy_option(s: &Option<String>) -> (r: Option<String>)
    ensures
        option_text(r) == option_text(*s),
{
    match s {
        Some(t) => Some(copy(t.as_str())),
        None => None,
    }
}

/// The text of a string that may be missing.
pub open spec fn option_text(s: Option<String>) -> Option<Seq<char>> {
    match s {
        Some(t) => Some(t@),
        None => None,
    }
}

/// The text of a string slice that may be missing.
pub open spec fn option_str(s: Option<&str>) -> Option<Seq<char>> {
    match s {
        Some(t) => Some(t@),
        None => None,
    }
}

/// The texts of a list of character slices.
pub open spec fn pieces(v: Seq<&[char]>) -> Seq<Seq<char>> {
    v.map_values(|s: &[char]| s@)
}

/// A text cut at every character `c`; the cuts themselves are dropped.
pub open spec fn split(s: Seq<char>, c: char) -> Seq<Seq<char>>
    decreases s.len(),
{
    match first_char(s, c) {
        None => seq![s],
        Some(i) => if 0 <= i < s.len() {
            seq![s.take(i)] + split(s.skip(i + 1), c)
        } else {
            seq![s]
        },
    }
}

/// Cuts a text at every character `c`.
pub fn split_char(s: &[char], c: char) -> (r: Vec<&[char]>)
    ensures
        pieces(r@) == split(s@, c),
        r@.len() > 0,
{
    let mut out: Vec<&[char]> = Vec::new();
    let mut rest: &[char] = s;
    assert(pieces(out@) + split(rest@, c) =~= split(s@, c));
    loop
        invariant_except_break
            pieces(out@) + split(rest@, c) == split(s@, c),
        ensures
            pieces(out@) == split(s@, c),
            out@.len() > 0,
        decreases rest@.len(),
    {
        match find_char(rest, c) {
            None => {
                let ghost before = out@;
                out.push(rest);
                assert(pieces(out@) =~= pieces(before) + seq![rest@]);
                break;
            },
            Some(i) => {
                let head = slice_subrange(rest, 0, i);
                let tail = slice_subrange(rest, i + 1, rest.len());
                let ghost before = out@;
                out.push(head);
                assert(head@ =~= rest@.take(i as int));
                assert(tail@ =~= rest@.skip(i + 1));
                assert(pieces(out@) + split(tail@, c) =~= pieces(before) + (seq![head@] + split(
                    tail@,
                    c,
                )));
                rest = tail;
            },
        }
    }
    out
}

/// A text cut at every occurrence of `sep`; the cuts themselves are dropped.
pub open spec fn split_at(s: Seq<char>, sep: Seq<char>) -> Seq<Seq<char>>
    decreases s.len(),
{
    match first(s, sep) {
        None => seq![s],
        Some(i) => if 0 <= i && sep.len() > 0 && i + sep.len() <= s.len() {
            seq![s.take(i)] + split_at(s.skip(i + sep.len()), sep)
        } else {
            seq![s]
        },
    }
}

/// Cuts a text at every occurrence of `sep`.
pub fn split_text<'a>(s: &'a [char], sep: &[char]) -> (r: Vec<&'a [char]>)
    requires
        sep@.len() > 0,
    ensures
        pieces(r@) == split_at(s@, sep@),
        r@.len() > 0,
{
    let mut out: Vec<&'a [char]> = Vec::new();
    let mut rest: &'a [char] = s;
    assert(pieces(out@) + split_at(rest@, sep@) =~= split_at(s@, sep@));
    loop
        invariant_except_break
            sep@.len() > 0,
            pieces(out@) + split_at(rest@, sep@) == split_at(s@, sep@),
        ensures
            pieces(out@) == split_at(s@, sep@),
            out@.len() > 0,
        decreases rest@.len(),
    {
        match find(rest, sep) {
            None => {
                let ghost before = out@;
                out.push(rest);
                assert(pieces(out@) =~= pieces(before) + seq![rest@]);
                break;
            },
            Some(i) => {
                let head = slice_subrange(rest, 0, i);
                let tail = slice_subrange(rest, i + sep.len(), rest.len());
                let ghost before = out@;
                out.push(head);
                assert(head@ =~= rest@.take(i as int));
                assert(tail@ =~= rest@.skip(i + sep@.len()));
                assert(pieces(out@) + split_at(tail@, sep@) =~= pieces(before) + (seq![head@]
                    + split_at(tail@, sep@)));
                rest = tail;
            },
        }
    }
    out
}

/// What is left of a line when a carriage return at its end is dropped.
pub open spec fn chomp(s: Seq<char>) -> Seq<char> {
    if s.len() > 0 && s.last() == '\r' {
        s.drop_last()
    } else {
        s
    }
}

/// The lines of a text: cut after every newline, each without its `\n` or `\r\n`. A text
/// that ends in a newline has no empty line behind it.
pub open spec fn lines(s: Seq<char>) -> Seq<Seq<char>>
    decreases s.len(),
{
    if s.len() == 0 {
        seq![]
    } else {
        match first_char(s, '\n') {
            None => seq![s],
            Some(i) => if 0 <= i < s.len() {
                seq![chomp(s.take(i))] + lines(s.skip(i + 1))
            } else {
                seq![s]
            },
        }
    }
}

/// The lines of a text.
pub fn lines_of(s: &[char]) -> (r: Vec<&[char]>)
    ensures
        pieces(r@) == lines(s@),
{
    let mut out: Vec<&[char]> = Vec::new();
    let mut rest: &[char] = s;
    assert(pieces(out@) + lines(rest@) =~= lines(s@));
    while rest.len() > 0
        invariant
            pieces(out@) + lines(rest@) == lines(s@),
        decreases rest@.len(),
    {
        match find_char(rest, '\n') {
            None => {
                let ghost before = out@;
                out.push(rest);
                let none = slice_subrange(rest, rest.len(), rest.len());
                assert(pieces(out@) + lines(none@) =~= pieces(before) + seq![rest@]);
                rest = none;
            },
            Some(i) => {
                let end: usize = if i > 0 && rest[i - 1] == '\r' {
                    i - 1
                } else {
                    i
                };
                let head = slice_subrange(rest, 0, end);
                let tail = slice_subrange(rest, i + 1, rest.len());
                let ghost before = out@;
                out.push(head);
                assert(head@ =~= chomp(rest@.take(i as int)));
                assert(tail@ =~= rest@.skip(i + 1));
                assert(pieces(out@) + lines(tail@) =~= pieces(before) + (seq![head@] + lines(
                    tail@,
                )));
                rest = tail;
            },
        }
    }
    assert(lines(rest@) =~= seq![]);
    assert(pieces(out@) =~= lines(s@));
    out
}

/// The length of the run of non-space characters at the start of a text.
pub open spec fn word_len(s: Seq<char>) -> int
    decreases s.len(),
{
    if s.len() > 0 && !space(s[0]) {
        1 + word_len(s.drop_first())
    } else {
        0
    }
}

pub proof fn lemma_ltrim_len(s: Seq<char>)
    ensures
        ltrim(s).len() <= s.len(),
        ltrim(s).len() > 0 ==> !space(ltrim(s)[0]),
    decreases s.len(),
{
    if s.len() > 0 && space(s[0]) {
        lemma_ltrim_len(s.drop_first());
    }
}

/// The words of a text: the runs of characters between whitespace.
pub open spec fn words(s: Seq<char>) -> Seq<Seq<char>>
    decreases s.len(),
{
    let t = ltrim(s);
    let n = word_len(t);
    if t.len() > 0 && 0 < n <= t.len() && t.len() <= s.len() {
        seq![t.take(n)] + words(t.skip(n))
    } else {
        seq![]
    }
}

/// The words of a text.
pub fn words_of(s: &[char]) -> (r: Vec<&[char]>)
    ensures
        pieces(r@) == words(s@),
{
    let mut out: Vec<&[char]> = Vec::new();
    let mut rest: &[char] = s;
    assert(pieces(out@) + words(rest@) =~= words(s@));
    loop
        invariant
            pieces(out@) + words(rest@) == words(s@),
        ensures
            pieces(out@) == words(s@),
        decreases rest@.len(),
    {
        proof {
            lemma_ltrim_len(rest@);
        }
        let t = trim_start(rest);
        if t.len() == 0 {
            assert(words(rest@) =~= seq![]);
            assert(pieces(out@) =~= words(s@));
            break;
        }
        let mut n: usize = 0;
        assert(t@.skip(0) =~= t@);
        while n < t.len() && !is_space(t[n])
            invariant
                n <= t.len(),
                word_len(t@) == n + word_len(t@.skip(n as int)),
            decreases t.len() - n,
        {
            assert(t@.skip(n as int).drop_first() =~= t@.skip(n + 1));
            n = n + 1;
        }
        let head = slice_subrange(t, 0, n);
        let tail = slice_subrange(t, n, t.len());
        let ghost before = out@;
        out.push(head);
        assert(head@ =~= t@.take(n as int));
        assert(tail@ =~= t@.skip(n as int));
        assert(pieces(out@) + words(tail@) =~= pieces(before) + (seq![head@] + words(tail@)));
        rest = tail;
    }
    out
}

/// The end of a list that is at most `n` long.
pub open spec fn last_of(v: Seq<Seq<char>>, n: int) -> Seq<Seq<char>> {
    if v.len() > n {
        v.skip(v.len() - n)
    } else {
        v
    }
}

/// Texts one after the other, with `sep` between them.
pub open spec fn joined(parts: Seq<Seq<char>>, sep: Seq<char>) -> Seq<char>
    decreases parts.len(),
{
    if parts.len() == 0 {
        seq![]
    } else if parts.len() == 1 {
        parts[0]
    } else {
        joined(parts.drop_last(), sep) + sep + parts.last()
    }
}

/// Joins strings with `sep` between them.
pub fn join(parts: &[String], sep: &str) -> (r: String)
    ensures
        r@ == joined(texts(parts@), sep@),
{
    let mut out = String::new();
    let mut i: usize = 0;
    while i < parts.len()
        invariant
            i <= parts.len(),
            out@ == joined(texts(parts@.take(i as int)), sep@),
        decreases parts.len() - i,
    {
        let ghost done = texts(parts@.take(i as int));
        let ghost more = texts(parts@.take(i + 1));
        assert(more.drop_last() =~= done);
        assert(more.last() == parts@[i as int]@);
        if i > 0 {
            out.push_str(sep);
        }
        out.push_str(parts[i].as_str());
        i = i + 1;
        assert(out@ =~= joined(more, sep@));
    }
    assert(parts@.take(i as int) =~= parts@);
    out
}

/// A text with every occurrence of `from` replaced by `to`.
pub open spec fn replaced(s: Seq<char>, from: Seq<char>, to: Seq<char>) -> Seq<char> {
    joined(split_at(s, from), to)
}

/// Replaces every occurrence of `from` by `to`.
pub fn replace(s: &str, from: &str, to: &str) -> (r: String)
    requires
        from@.len() > 0,
    ensures
        r@ == replaced(s@, from@, to@),
{
    let v = chars(s);
    let f = chars(from);
    let parts = split_text(v.as_slice(), f.as_slice());
    let mut owned: Vec<String> = Vec::new();
    let mut i: usize = 0;
    assert(texts(owned@) =~= pieces(parts@).take(0));
    while i < parts.len()
        invariant
            i <= parts.len(),
            texts(owned@) == pieces(parts@).take(i as int),
        decreases parts.len() - i,
    {
        let ghost before = owned@;
        owned.push(text_of(parts[i]));
        assert(texts(owned@) =~= texts(before).push(parts@[i as int]@));
        i = i + 1;
        assert(texts(owned@) =~= pieces(parts@).take(i as int));
    }
    assert(pieces(parts@).take(i as int) =~= pieces(parts@));
    join(owned.as_slice(), to)
}

/// Joins character slices with `sep` between them.
pub fn join_pieces(parts: &[&[char]], sep: char) -> (r: Vec<char>)
    ensures
        r@ == joined(pieces(parts@), seq![sep]),
{
    let mut out: Vec<char> = Vec::new();
    let mut i: usize = 0;
    while i < parts.len()
        invariant
            i <= parts.len(),
            out@ == joined(pieces(parts@.take(i as int)), seq![sep]),
        decreases parts.len() - i,
    {
        let ghost done = pieces(parts@.take(i as int));
        let ghost more = pieces(parts@.take(i + 1));
        assert(more.drop_last() =~= done);
        assert(more.last() == parts@[i as int]@);
        let ghost start = out@;
        if i > 0 {
            out.push(sep);
        }
        let ghost mid = out@;
        push_all(&mut out, parts[i]);
        i = i + 1;
        assert(out@ =~= joined(more, seq![sep]));
    }
    assert(parts@.take(i as int) =~= parts@);
    out
}

/// Appends characters to a list of characters.
pub fn push_all(out: &mut Vec<char>, more: &[char])
    ensures
        final(out)@ == old(out)@ + more@,
{
    let mut i: usize = 0;
    assert(out@ =~= out@ + more@.take(0));
    while i < more.len()
        invariant
            i <= more.len(),
            out@ == old(out)@ + more@.take(i as int),
        decreases more.len() - i,
    {
        out.push(more[i]);
        i = i + 1;
        assert(out@ =~= old(out)@ + more@.take(i as int));
    }
    assert(out@ =~= old(out)@ + more@);
}

// ───────────────────────── numbers ─────────────────────────

/// The character of a decimal digit.
pub open spec fn digit_of(d: nat) -> char {
    ((('0' as u32) + d) as u32) as char
}

/// A number in decimal notation.
pub open spec fn decimal(n: nat) -> Seq<char>
    decreases n,
{
    if n < 10 {
        seq![digit_of(n)]
    } else {
        decimal(n / 10).push(digit_of(n % 10))
    }
}

/// The number that a run of decimal digits writes.
pub open spec fn value(s: Seq<char>) -> nat
    decreases s.len(),
{
    if s.len() == 0 {
        0
    } else {
        value(s.drop_last()) * 10 + ((s.last() as u32 - '0' as u32) as nat)
    }
}

pub open spec fn all_digits(s: Seq<char>) -> bool {
    forall|i: int| 0 <= i < s.len() ==> digit(#[trigger] s[i])
}

/// Decimal notation is made of digits, is not empty and is read back by `value`.
pub proof fn lemma_decimal(n: nat)
    ensures
        decimal(n).len() > 0,
        all_digits(decimal(n)),
        value(decimal(n)) == n,
        decimal(n)[0] == '0' ==> n == 0,
    decreases n,
{
    reveal_with_fuel(value, 2);
    if n < 10 {
        assert(decimal(n).drop_last() =~= seq![]);
    } else {
        lemma_decimal(n / 10);
        assert(decimal(n).drop_last() =~= decimal(n / 10));
        assert(decimal(n)[0] == decimal(n / 10)[0]);
    }
}

/// A number in decimal notation.
pub fn decimal_text(n: u64) -> (r: String)
    ensures
        r@ == decimal(n as nat),
    decreases n,
{
    let d = ((n % 10) as u8 + 48) as char;
    if n < 10 {
        let mut out = String::new();
        out.push(d);
        assert(out@ =~= decimal(n as nat));
        out
    } else {
        let mut out = decimal_text(n / 10);
        out.push(d);
        out
    }
}

/// What follows the prefix `p` of a text, if it begins with it.
pub open spec fn behind_prefix(s: Seq<char>, p: Seq<char>) -> Option<Seq<char>> {
    if starts(s, p) {
        Some(s.skip(p.len() as int))
    } else {
        None
    }
}

/// What follows the prefix `p` of a text, if it begins with it.
pub fn strip_prefix(s: &str, p: &str) -> (r: Option<String>)
    ensures
        option_text(r) == behind_prefix(s@, p@),
{
    let v = chars(s);
    let w = chars(p);
    if starts_with(v.as_slice(), w.as_slice()) {
        let rest = slice_subrange(v.as_slice(), w.len(), v.len());
        assert(rest@ =~= s@.skip(p@.len() as int));
        Some(text_of(rest))
    } else {
        None
    }
}

/// An integer in decimal notation, with its sign.
pub open spec fn signed_decimal(n: int) -> Seq<char> {
    if n < 0 {
        "-"@ + decimal((-n) as nat)
    } else {
        decimal(n as nat)
    }
}

/// An integer in decimal notation.
pub fn signed_text(n: i32) -> (r: String)
    ensures
        r@ == signed_decimal(n as int),
{
    if n < 0 {
        let d = decimal_text((-(n as i64)) as u64);
        cat2("-", d.as_str())
    } else {
        decimal_text(n as u64)
    }
}

// ───────────────────────── bytes ─────────────────────────

/// The length of a text in UTF-8.
pub open spec fn utf8_len(s: Seq<char>) -> nat {
    vstd::utf8::encode_utf8(s).len()
}

/// The length of a character in UTF-8.
pub open spec fn width(c: char) -> int {
    vstd::utf8::encode_scalar(c as u32).len() as int
}

/// How many characters at the start of a text take up `n` bytes: `None` where byte `n`
/// falls inside a character or behind the end.
pub open spec fn chars_in(s: Seq<char>, n: int) -> Option<int>
    decreases s.len(),
{
    if n == 0 {
        Some(0)
    } else if n < 0 || s.len() == 0 {
        None
    } else {
        match chars_in(s.drop_first(), n - width(s[0])) {
            Some(k) => Some(k + 1),
            None => None,
        }
    }
}

/// The UTF-8 length of a text.
pub fn byte_len(s: &str) -> (r: usize)
    ensures
        r == utf8_len(s@),
{
    s.as_bytes().len()
}

fn char_width(c: char) -> (r: usize)
    ensures
        r == width(c),
        1 <= r <= 4,
{
    if c <= '\u{7f}' {
        1
    } else if c <= '\u{7ff}' {
        2
    } else if c <= '\u{ffff}' {
        3
    } else {
        4
    }
}

/// How many characters at the start of a text take up `n` bytes.
pub fn chars_within(s: &[char], n: usize) -> (r: Option<usize>)
    ensures
        r matches Some(k) ==> k <= s.len() && chars_in(s@, n as int) == Some(k as int),
        r is None <==> chars_in(s@, n as int) is None,
{
    let mut i: usize = 0;
    let mut left: usize = n;
    assert(s@.skip(0) =~= s@);
    while left > 0
        invariant
            i <= s.len(),
            left <= n,
            chars_in(s@, n as int) == (match chars_in(s@.skip(i as int), left as int) {
                Some(k) => Some(k + i),
                None => None,
            }),
        decreases left,
    {
        if i >= s.len() {
            return None;
        }
        let w = char_width(s[i]);
        assert(s@.skip(i as int).drop_first() =~= s@.skip(i + 1));
        if w > left {
            assert(chars_in(s@.skip(i + 1), left - w) is None);
            return None;
        }
        left = left - w;
        i = i + 1;
    }
    Some(i)
}

/// What `String::from_utf8_lossy` makes of bytes.
pub uninterp spec fn utf8_lossy(bytes: Seq<u8>) -> Seq<char>;

/// `String::from_utf8_lossy`: valid UTF-8 is decoded as it stands. What replaces an invalid
/// sequence is left to the named result.
#[verifier::external_body]
pub(crate) fn decode_lossy(bytes: &[u8]) -> (r: String)
    ensures
        r@ == utf8_lossy(bytes@),
        vstd::utf8::valid_utf8(bytes@) ==> r@ == vstd::utf8::decode_utf8(bytes@),
{
    String::from_utf8_lossy(bytes).into_owned()
}

// ───────────────────────── what the operations keep ─────────────────────────

/// Every character of a text has the property `p`.
pub open spec fn every(s: Seq<char>, p: spec_fn(char) -> bool) -> bool {
    forall|i: int| 0 <= i < s.len() ==> p(#[trigger] s[i])
}

/// Every character of every text in a list has the property `p`.
pub open spec fn every_line(ls: Seq<Seq<char>>, p: spec_fn(char) -> bool) -> bool {
    forall|k: int| 0 <= k < ls.len() ==> every(#[trigger] ls[k], p)
}

pub proof fn lemma_rtrim_every(s: Seq<char>, p: spec_fn(char) -> bool)
    requires
        every(s, p),
    ensures
        every(rtrim(s), p),
    decreases s.len(),
{
    if s.len() > 0 && space(s.last()) {
        assert(every(s.drop_last(), p));
        lemma_rtrim_every(s.drop_last(), p);
    }
}

pub proof fn lemma_ltrim_every(s: Seq<char>, p: spec_fn(char) -> bool)
    requires
        every(s, p),
    ensures
        every(ltrim(s), p),
    decreases s.len(),
{
    if s.len() > 0 && space(s[0]) {
        assert(every(s.drop_first(), p));
        lemma_ltrim_every(s.drop_first(), p);
    }
}

pub proof fn lemma_trimmed_every(s: Seq<char>, p: spec_fn(char) -> bool)
    requires
        every(s, p),
    ensures
        every(trimmed(s), p),
{
    lemma_rtrim_every(s, p);
    lemma_ltrim_every(rtrim(s), p);
}

pub proof fn lemma_lines_every(s: Seq<char>, p: spec_fn(char) -> bool)
    requires
        every(s, p),
    ensures
        every_line(lines(s), p),
    decreases s.len(),
{
    if s.len() > 0 {
        match first_char(s, '\n') {
            None => {
                assert forall|k: int| 0 <= k < lines(s).len() implies every(
                    #[trigger] lines(s)[k],
                    p,
                ) by {
                    assert(lines(s)[k] == s);
                }
            },
            Some(i) => {
                if 0 <= i < s.len() {
                    let head = chomp(s.take(i));
                    let tail = s.skip(i + 1);
                    assert(every(tail, p));
                    lemma_lines_every(tail, p);
                    assert(every(head, p));
                    assert forall|k: int| 0 <= k < lines(s).len() implies every(
                        #[trigger] lines(s)[k],
                        p,
                    ) by {
                        if k > 0 {
                            assert(lines(s)[k] == lines(tail)[k - 1]);
                        } else {
                            assert(lines(s)[k] == head);
                        }
                    }
                } else {
                    assert forall|k: int| 0 <= k < lines(s).len() implies every(
                        #[trigger] lines(s)[k],
                        p,
                    ) by {
                        assert(lines(s)[k] == s);
                    }
                }
            },
        }
    }
}

pub proof fn lemma_joined_every(parts: Seq<Seq<char>>, sep: Seq<char>, p: spec_fn(char) -> bool)
    requires
        every_line(parts, p),
        every(sep, p),
    ensures
        every(joined(parts, sep), p),
    decreases parts.len(),
{
    if parts.len() > 1 {
        let less = parts.drop_last();
        assert forall|k: int| 0 <= k < less.len() implies every(#[trigger] less[k], p) by {
            assert(less[k] == parts[k]);
        }
        lemma_joined_every(less, sep, p);
        assert(every(parts[parts.len() - 1], p));
    } else if parts.len() == 1 {
        assert(every(parts[0], p));
    }
}

/// What stands in a part of a text stands in the text.
pub proof fn lemma_has_subrange(s: Seq<char>, n: Seq<char>, a: int, b: int)
    requires
        0 <= a <= b <= s.len(),
        has(s.subrange(a, b), n),
    ensures
        has(s, n),
{
    let part = s.subrange(a, b);
    let i = choose|i: int| occurs_at(part, n, i);
    assert(s.subrange(a + i, a + i + n.len()) =~= part.subrange(i, i + n.len()));
    assert(occurs_at(s, n, a + i));
}

pub proof fn lemma_rtrim_prefix(s: Seq<char>)
    ensures
        rtrim(s).len() <= s.len(),
        rtrim(s) == s.take(rtrim(s).len() as int),
    decreases s.len(),
{
    if s.len() > 0 && space(s.last()) {
        lemma_rtrim_prefix(s.drop_last());
        assert(s.drop_last().take(rtrim(s).len() as int) =~= s.take(rtrim(s).len() as int));
    } else {
        assert(s.take(s.len() as int) =~= s);
    }
}

pub proof fn lemma_ltrim_suffix(s: Seq<char>)
    ensures
        ltrim(s).len() <= s.len(),
        ltrim(s) == s.skip(s.len() - ltrim(s).len()),
    decreases s.len(),
{
    if s.len() > 0 && space(s[0]) {
        let t = s.drop_first();
        lemma_ltrim_suffix(t);
        assert(t.skip(t.len() - ltrim(t).len()) =~= s.skip(s.len() - ltrim(s).len()));
    } else {
        assert(s.skip(0) =~= s);
    }
}

/// What stands in a trimmed text stands in the text.
pub proof fn lemma_trimmed_has(s: Seq<char>, n: Seq<char>)
    requires
        has(trimmed(s), n),
    ensures
        has(s, n),
{
    let r = rtrim(s);
    lemma_rtrim_prefix(s);
    lemma_ltrim_suffix(r);
    lemma_has_subrange(r, n, r.len() - ltrim(r).len(), r.len() as int);
    lemma_has_subrange(s, n, 0, r.len() as int);
}

/// What stands in a line of a text stands in the text.
pub proof fn lemma_line_has(s: Seq<char>, n: Seq<char>, k: int)
    requires
        0 <= k < lines(s).len(),
        has(lines(s)[k], n),
    ensures
        has(s, n),
    decreases s.len(),
{
    match first_char(s, '\n') {
        None => {
            assert(lines(s)[k] == s);
        },
        Some(i) => {
            if 0 <= i < s.len() {
                if k == 0 {
                    let head = s.take(i);
                    assert(lines(s)[0] == chomp(head));
                    assert(chomp(head) =~= s.subrange(0, chomp(head).len() as int));
                    lemma_has_subrange(s, n, 0, chomp(head).len() as int);
                } else {
                    let tail = s.skip(i + 1);
                    assert(lines(s)[k] == lines(tail)[k - 1]);
                    lemma_line_has(tail, n, k - 1);
                    lemma_has_subrange(s, n, i + 1, s.len() as int);
                }
            } else {
                assert(lines(s)[k] == s);
            }
        },
    }
}

/// A text without a newline that stands in joined lines stands in one of them.
pub proof fn lemma_joined_has(parts: Seq<Seq<char>>, n: Seq<char>)
    requires
        n.len() > 0,
        !n.contains('\n'),
        has(joined(parts, seq!['\n']), n),
    ensures
        exists|k: int| 0 <= k < parts.len() && has(#[trigger] parts[k], n),
    decreases parts.len(),
{
    let whole = joined(parts, seq!['\n']);
    let i = choose|i: int| occurs_at(whole, n, i);
    if parts.len() == 1 {
        assert(has(parts[0], n));
    } else if parts.len() > 1 {
        let less = parts.drop_last();
        let head = joined(less, seq!['\n']);
        let last = parts.last();
        assert(whole == head + seq!['\n'] + last);
        if i + n.len() <= head.len() {
            assert(head.subrange(i, i + n.len()) =~= whole.subrange(i, i + n.len()));
            assert(occurs_at(head, n, i));
            lemma_joined_has(less, n);
            let k = choose|k: int| 0 <= k < less.len() && has(#[trigger] less[k], n);
            assert(parts[k] == less[k]);
        } else if i > head.len() {
            let j = i - head.len() - 1;
            assert(last.subrange(j, j + n.len()) =~= whole.subrange(i, i + n.len()));
            assert(occurs_at(last, n, j));
            assert(has(parts[parts.len() - 1], n));
        } else {
            assert(whole[head.len() as int] == '\n');
            assert(whole.subrange(i, i + n.len())[head.len() - i] == '\n');
            assert(n.contains(n[head.len() - i]));
        }
    }
}

proof fn lemma_word_len(u: Seq<char>, t: Seq<char>)
    requires
        every(u, |c: char| !space(c)),
        t.len() == 0 || space(t[0]),
    ensures
        word_len(u + t) == u.len(),
    decreases u.len(),
{
    let p = |c: char| !space(c);
    if u.len() > 0 {
        assert(p(u[0]));
        assert((u + t).drop_first() =~= u.drop_first() + t);
        assert forall|i: int| 0 <= i < u.drop_first().len() implies p(
            #[trigger] u.drop_first()[i],
        ) by {
            assert(u.drop_first()[i] == u[i + 1]);
            assert(p(u[i + 1]));
        }
        lemma_word_len(u.drop_first(), t);
    } else {
        assert(u + t =~= t);
    }
}

/// A text that begins with a word, up to whitespace or its end, has that word first, and
/// behind it the words of the rest.
pub proof fn law_words_begin_with_the_first(u: Seq<char>, t: Seq<char>)
    requires
        u.len() > 0,
        every(u, |c: char| !space(c)),
        t.len() == 0 || space(t[0]),
    ensures
        words(u + t) == seq![u] + words(t),
{
    let p = |c: char| !space(c);
    assert(p(u[0]));
    assert((u + t)[0] == u[0]);
    assert(ltrim(u + t) == u + t);
    lemma_word_len(u, t);
    assert((u + t).take(u.len() as int) =~= u);
    assert((u + t).skip(u.len() as int) =~= t);
}

/// Whitespace before a text adds no word to it; a text of whitespace alone has no word.
pub proof fn law_whitespace_is_no_word(w: Seq<char>, s: Seq<char>)
    requires
        every(w, |c: char| space(c)),
    ensures
        words(w + s) == words(s),
        words(w) == Seq::<Seq<char>>::empty(),
    decreases w.len(),
{
    lemma_ltrim_spaces(w, s);
    lemma_ltrim_spaces(w, seq![]);
    assert(w + Seq::<char>::empty() =~= w);
    lemma_ltrim_len(s);
    lemma_ltrim_len(w + s);
}

proof fn lemma_ltrim_spaces(w: Seq<char>, s: Seq<char>)
    requires
        every(w, |c: char| space(c)),
    ensures
        ltrim(w + s) == ltrim(s),
    decreases w.len(),
{
    let p = |c: char| space(c);
    if w.len() > 0 {
        assert(p(w[0]));
        assert((w + s).drop_first() =~= w.drop_first() + s);
        assert forall|i: int| 0 <= i < w.drop_first().len() implies p(
            #[trigger] w.drop_first()[i],
        ) by {
            assert(w.drop_first()[i] == w[i + 1]);
            assert(p(w[i + 1]));
        }
        lemma_ltrim_spaces(w.drop_first(), s);
    } else {
        assert(w + s =~= s);
    }
}

proof fn lemma_rtrim_spaces(s: Seq<char>, w: Seq<char>)
    requires
        every(w, |c: char| space(c)),
    ensures
        rtrim(s + w) == rtrim(s),
    decreases w.len(),
{
    let p = |c: char| space(c);
    if w.len() > 0 {
        assert(p(w[w.len() - 1]));
        assert((s + w).drop_last() =~= s + w.drop_last());
        assert forall|i: int| 0 <= i < w.drop_last().len() implies p(
            #[trigger] w.drop_last()[i],
        ) by {
            assert(w.drop_last()[i] == w[i]);
            assert(p(w[i]));
        }
        lemma_rtrim_spaces(s, w.drop_last());
    } else {
        assert(s + w =~= s);
    }
}

/// Whitespace before a text that begins with none is what `ltrim` takes away.
pub proof fn lemma_trimmed_spaces(w: Seq<char>, s: Seq<char>)
    requires
        every(w, |c: char| space(c)),
        s.len() > 0 ==> !space(s[0]),
    ensures
        ltrim(w + s) == s,
        ltrim(s) == s,
{
    lemma_ltrim_spaces(w, s);
}

/// Trimming takes away the whitespace at both ends and nothing else.
pub proof fn law_trimming_takes_whitespace_only(a: Seq<char>, m: Seq<char>, b: Seq<char>)
    requires
        every(a, |c: char| space(c)),
        every(b, |c: char| space(c)),
        m.len() > 0 ==> !space(m[0]) && !space(m[m.len() - 1]),
    ensures
        trimmed(a + m + b) == m,
{
    lemma_rtrim_spaces(a + m, b);
    if m.len() > 0 {
        assert(rtrim(a + m) == a + m);
        lemma_ltrim_spaces(a, m);
    } else {
        assert(a + m =~= Seq::<char>::empty() + a);
        lemma_rtrim_spaces(seq![], a);
    }
}

/// What counts as whitespace: exactly the characters that Unicode says are.
pub proof fn law_whitespace_is_that_of_unicode(c: char)
    ensures
        space(c) <==> seq![
            0x9int,
            0xa,
            0xb,
            0xc,
            0xd,
            0x20,
            0x85,
            0xa0,
            0x1680,
            0x2000,
            0x2001,
            0x2002,
            0x2003,
            0x2004,
            0x2005,
            0x2006,
            0x2007,
            0x2008,
            0x2009,
            0x200a,
            0x2028,
            0x2029,
            0x202f,
            0x205f,
            0x3000,
        ].contains(c as int),
{
    let l = seq![
        0x9int,
        0xa,
        0xb,
        0xc,
        0xd,
        0x20,
        0x85,
        0xa0,
        0x1680,
        0x2000,
        0x2001,
        0x2002,
        0x2003,
        0x2004,
        0x2005,
        0x2006,
        0x2007,
        0x2008,
        0x2009,
        0x200a,
        0x2028,
        0x2029,
        0x202f,
        0x205f,
        0x3000,
    ];
    let n = c as int;
    if space(c) {
        if 0x9 <= n <= 0xd {
            assert(l[n - 9] == n);
        } else if n == 0x20 {
            assert(l[5] == n);
        } else if n == 0x85 {
            assert(l[6] == n);
        } else if n == 0xa0 {
            assert(l[7] == n);
        } else if n == 0x1680 {
            assert(l[8] == n);
        } else if 0x2000 <= n <= 0x200a {
            assert(l[n - 0x2000 + 9] == n);
        } else if n == 0x2028 {
            assert(l[20] == n);
        } else if n == 0x2029 {
            assert(l[21] == n);
        } else if n == 0x202f {
            assert(l[22] == n);
        } else if n == 0x205f {
            assert(l[23] == n);
        } else {
            assert(l[24] == n);
        }
    }
}

proof fn lemma_first_char_behind(a: Seq<char>, c: char, b: Seq<char>)
    requires
        !a.contains(c),
    ensures
        first_char(a, c) is None,
        first_char(a + seq![c] + b, c) == Some(a.len() as int),
{
    lemma_first_char_from(a, c, 0);
    lemma_first_char_from(a + seq![c] + b, c, 0);
    let s = a + seq![c] + b;
    assert(s[a.len() as int] == c);
    if let Some(i) = first_char(s, c) {
        if i < a.len() {
            assert(s[i] == a[i]);
        }
    }
}

/// A text cut at a character has first what stands before the first of them, and then the
/// pieces of what stands behind it; one without that character is one piece.
pub proof fn law_pieces_lie_between_the_cuts(a: Seq<char>, c: char, b: Seq<char>)
    requires
        !a.contains(c),
    ensures
        split(a, c) == seq![a],
        split(a + seq![c] + b, c) == seq![a] + split(b, c),
{
    lemma_first_char_behind(a, c, b);
    let s = a + seq![c] + b;
    assert(s.take(a.len() as int) =~= a);
    assert(s.skip((a.len() + 1) as int) =~= b);
}

/// A text that is cut at a character and joined with it again is the same text.
pub proof fn law_pieces_join_to_the_whole(s: Seq<char>, c: char)
    ensures
        joined(split(s, c), seq![c]) == s,
    decreases s.len(),
{
    lemma_first_char_from(s, c, 0);
    match first_char(s, c) {
        None => {},
        Some(i) => {
            let rest = s.skip(i + 1);
            law_pieces_join_to_the_whole(rest, c);
            lemma_joined_first(s.take(i), split(rest, c), seq![c]);
            assert(s =~= s.take(i) + seq![c] + rest);
            lemma_split_some(rest, c);
        },
    }
}

proof fn lemma_split_some(s: Seq<char>, c: char)
    ensures
        split(s, c).len() > 0,
{
}

proof fn lemma_joined_first(p: Seq<char>, parts: Seq<Seq<char>>, sep: Seq<char>)
    ensures
        parts.len() == 0 ==> joined(seq![p] + parts, sep) == p,
        parts.len() > 0 ==> joined(seq![p] + parts, sep) == p + sep + joined(parts, sep),
    decreases parts.len(),
{
    let all = seq![p] + parts;
    if parts.len() == 0 {
        assert(all =~= seq![p]);
    } else if parts.len() == 1 {
        assert(all.drop_last() =~= seq![p]);
        assert(joined(seq![p], sep) == p);
        assert(all.last() == parts[0]);
    } else {
        lemma_joined_first(p, parts.drop_last(), sep);
        assert(all.drop_last() =~= seq![p] + parts.drop_last());
        assert(all.last() == parts.last());
        assert(p + sep + joined(parts.drop_last(), sep) + sep + parts.last() =~= p + sep + (joined(
            parts.drop_last(),
            sep,
        ) + sep + parts.last()));
    }
}

/// A line ends at its newline, with or without a carriage return before it; what follows the
/// newline are the lines of the rest. A rest without a newline is a line, unless it is empty.
pub proof fn law_lines_end_at_newlines(a: Seq<char>, b: Seq<char>)
    requires
        !a.contains('\n'),
    ensures
        a.len() > 0 ==> lines(a) == seq![a],
        lines(Seq::<char>::empty()) == Seq::<Seq<char>>::empty(),
        lines(a + seq!['\r', '\n'] + b) == seq![a] + lines(b),
        a.len() == 0 || a.last() != '\r' ==> lines(a + seq!['\n'] + b) == seq![a] + lines(b),
{
    lemma_first_char_behind(a, '\n', b);
    let s = a + seq!['\n'] + b;
    assert(s.take(a.len() as int) =~= a);
    assert(s.skip((a.len() + 1) as int) =~= b);
    let ar = a.push('\r');
    assert(!ar.contains('\n')) by {
        assert forall|i: int| 0 <= i < ar.len() implies ar[i] != '\n' by {
            if i < a.len() {
                assert(ar[i] == a[i]);
            }
        }
    }
    lemma_first_char_behind(ar, '\n', b);
    let t = a + seq!['\r', '\n'] + b;
    assert(t =~= ar + seq!['\n'] + b);
    assert(t.take(ar.len() as int) =~= ar);
    assert(t.skip((ar.len() + 1) as int) =~= b);
    assert(ar.drop_last() =~= a);
}

/// Texts are joined in their order, with what separates them between each two.
pub proof fn law_joining_puts_the_separator_between(
    a: Seq<Seq<char>>,
    b: Seq<Seq<char>>,
    sep: Seq<char>,
)
    requires
        a.len() > 0,
        b.len() > 0,
    ensures
        joined(a + b, sep) == joined(a, sep) + sep + joined(b, sep),
        forall|t: Seq<char>| #[trigger] joined(seq![t], sep) == t,
        joined(Seq::<Seq<char>>::empty(), sep) == Seq::<char>::empty(),
    decreases a.len(),
{
    if a.len() == 1 {
        assert(a =~= seq![a[0]]);
        lemma_joined_first(a[0], b, sep);
    } else {
        let rest = a.drop_first();
        assert(a =~= seq![a[0]] + rest);
        assert(a + b =~= seq![a[0]] + (rest + b));
        lemma_joined_first(a[0], rest, sep);
        lemma_joined_first(a[0], rest + b, sep);
        law_joining_puts_the_separator_between(rest, b, sep);
        assert(a[0] + sep + (joined(rest, sep) + sep + joined(b, sep)) =~= (a[0] + sep + joined(
            rest,
            sep,
        )) + sep + joined(b, sep));
    }
}

/// A text cut at another has first what stands before its first occurrence, and then the pieces
/// of what stands behind that; one in which it does not occur is one piece.
pub proof fn law_pieces_lie_between_the_separators(a: Seq<char>, sep: Seq<char>, b: Seq<char>)
    requires
        sep.len() > 0,
        !(has(a, sep)),
        forall|j: int| 0 <= j < a.len() ==> !occurs_at(a + sep + b, sep, j),
    ensures
        split_at(a, sep) == seq![a],
        split_at(a + sep + b, sep) == seq![a] + split_at(b, sep),
{
    let s = a + sep + b;
    lemma_first_from(a, sep, 0);
    lemma_first_from(s, sep, 0);
    assert(s.subrange(a.len() as int, (a.len() + sep.len()) as int) =~= sep);
    assert(occurs_at(s, sep, a.len() as int));
    assert(s.take(a.len() as int) =~= a);
    assert(s.skip((a.len() + sep.len()) as int) =~= b);
}

/// The first occurrence of a text is replaced, and then those in what follows it; a text in
/// which it does not occur stays as it is.
pub proof fn law_every_occurrence_is_replaced(
    a: Seq<char>,
    from: Seq<char>,
    b: Seq<char>,
    to: Seq<char>,
)
    requires
        from.len() > 0,
        !(has(a, from)),
        forall|j: int| 0 <= j < a.len() ==> !occurs_at(a + from + b, from, j),
    ensures
        replaced(a, from, to) == a,
        replaced(a + from + b, from, to) == a + to + replaced(b, from, to),
{
    let s = a + from + b;
    lemma_first_from(a, from, 0);
    lemma_first_from(s, from, 0);
    assert(s.subrange(a.len() as int, (a.len() + from.len()) as int) =~= from);
    assert(occurs_at(s, from, a.len() as int));
    assert(s.take(a.len() as int) =~= a);
    assert(s.skip((a.len() + from.len()) as int) =~= b);
    assert(split_at(s, from) == seq![a] + split_at(b, from));
    lemma_joined_first(a, split_at(b, from), to);
    lemma_split_at_some(b, from);
}

proof fn lemma_split_at_some(s: Seq<char>, sep: Seq<char>)
    ensures
        split_at(s, sep).len() > 0,
{
}

/// What follows a prefix is what was put behind it; there is nothing to be had where the text
/// does not begin with it.
pub proof fn law_prefix_is_taken_off(p: Seq<char>, t: Seq<char>, s: Seq<char>)
    ensures
        behind_prefix(p + t, p) == Some(t),
        starts(p + t, p),
        ends(t + p, p),
        has(t + p + s, p),
        behind_prefix(s, p) matches Some(r) ==> s == p + r,
{
    assert((p + t).subrange(0, p.len() as int) =~= p);
    assert((p + t).skip(p.len() as int) =~= t);
    assert((t + p).subrange(t.len() as int, (t.len() + p.len()) as int) =~= p);
    assert((t + p + s).subrange(t.len() as int, (t.len() + p.len()) as int) =~= p);
    assert(occurs_at(t + p + s, p, t.len() as int));
    if starts(s, p) {
        assert(s =~= s.subrange(0, p.len() as int) + s.skip(p.len() as int));
    }
}

proof fn lemma_width(c: char)
    ensures
        1 <= width(c) <= 4,
{
}

/// A number of bytes is so many characters of a text exactly where the text has that many bytes
/// before the next character.
pub proof fn law_bytes_are_counted_in_characters(a: Seq<char>, b: Seq<char>, n: int)
    ensures
        chars_in(a + b, utf8_len(a) as int) == Some(a.len() as int),
        chars_in(a, n) matches Some(k) ==> 0 <= k <= a.len() && utf8_len(a.take(k)) == n,
    decreases a.len(),
{
    assert(a.take(0) =~= Seq::<char>::empty());
    if a.len() == 0 {
        assert(a + b =~= b);
    } else {
        lemma_width(a[0]);
        assert((a + b).drop_first() =~= a.drop_first() + b);
        law_bytes_are_counted_in_characters(a.drop_first(), b, n - width(a[0]));
        assert(utf8_len(a) == width(a[0]) + utf8_len(a.drop_first()));
        if let Some(k) = chars_in(a, n) {
            if n != 0 {
                let t = a.take(k);
                assert(t.drop_first() =~= a.drop_first().take(k - 1));
                assert(t[0] == a[0]);
            }
        }
    }
}

/// The letters of ASCII are put in lower case, one for one; every other character stays.
pub proof fn law_only_letters_change_case(s: Seq<char>, i: int)
    requires
        0 <= i < s.len(),
    ensures
        lower(s).len() == s.len(),
        'A' <= s[i] <= 'Z' ==> lower(s)[i] as int == s[i] as int + 32,
        !('A' <= s[i] <= 'Z') ==> lower(s)[i] == s[i],
        lower(lower(s)) == lower(s),
{
    assert(lower(lower(s)) =~= lower(s));
}

/// A text stands in another exactly where something before it and something behind it make up
/// the whole.
pub proof fn law_occurrences_are_parts(a: Seq<char>, n: Seq<char>, b: Seq<char>, s: Seq<char>, i: int)
    ensures
        occurs_at(a + n + b, n, a.len() as int),
        occurs_at(s, n, i) ==> s == s.take(i) + n + s.skip((i + n.len()) as int),
        starts(s, n) ==> n.is_prefix_of(s),
        ends(s, n) ==> n.is_suffix_of(s),
        n.is_prefix_of(s) ==> starts(s, n),
        n.is_suffix_of(s) ==> ends(s, n),
{
    assert((a + n + b).subrange(a.len() as int, (a.len() + n.len()) as int) =~= n);
    if occurs_at(s, n, i) {
        assert(s =~= s.take(i) + s.subrange(i, i + n.len()) + s.skip((i + n.len()) as int));
    }
    if starts(s, n) {
        assert(n =~= s.subrange(0, n.len() as int));
    }
    if ends(s, n) {
        assert(n =~= s.subrange(s.len() - n.len(), s.len() as int));
    }
    if n.is_prefix_of(s) {
        assert(s.subrange(0, n.len() as int) =~= n);
    }
    if n.is_suffix_of(s) {
        assert(s.subrange(s.len() - n.len(), s.len() as int) =~= n);
    }
}

} // verus!
