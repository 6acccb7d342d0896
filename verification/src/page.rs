//! Text on its way into a page: base64 for scripts, escaping for markup.

use vstd::prelude::*;

use crate::text;

verus! {

// ───────────────────────── base64 ─────────────────────────

/// The character for six bits.
pub open spec fn sextet(n: int) -> char {
    if n < 26 {
        (('A' as u32) + n) as char
    } else if n < 52 {
        (('a' as u32) + n - 26) as char
    } else if n < 62 {
        (('0' as u32) + n - 52) as char
    } else if n == 62 {
        '+'
    } else {
        '/'
    }
}

/// The four characters for three bytes.
pub open spec fn quad(a: u8, b: u8, c: u8) -> Seq<char> {
    seq![
        sextet(a as int / 4),
        sextet((a as int % 4) * 16 + b as int / 16),
        sextet((b as int % 16) * 4 + c as int / 64),
        sextet(c as int % 64),
    ]
}

/// Bytes in base64.
pub open spec fn base64(b: Seq<u8>) -> Seq<char>
    decreases b.len(),
{
    if b.len() == 0 {
        seq![]
    } else if b.len() == 1 {
        quad(b[0], 0, 0).take(2) + seq!['=', '=']
    } else if b.len() == 2 {
        quad(b[0], b[1], 0).take(3) + seq!['=']
    } else {
        quad(b[0], b[1], b[2]) + base64(b.skip(3))
    }
}

/// The six bits of a character.
pub open spec fn bits(c: char) -> int {
    if 'A' <= c <= 'Z' {
        c as int - 'A' as int
    } else if 'a' <= c <= 'z' {
        c as int - 'a' as int + 26
    } else if '0' <= c <= '9' {
        c as int - '0' as int + 52
    } else if c == '+' {
        62
    } else {
        63
    }
}

/// The bytes that a text in base64 stands for.
pub open spec fn unbase64(s: Seq<char>) -> Seq<u8>
    decreases s.len(),
{
    if s.len() < 4 {
        seq![]
    } else {
        let a = (bits(s[0]) * 4 + bits(s[1]) / 16) as u8;
        let b = ((bits(s[1]) % 16) * 16 + bits(s[2]) / 4) as u8;
        let c = ((bits(s[2]) % 4) * 64 + bits(s[3])) as u8;
        if s[2] == '=' {
            seq![a]
        } else if s[3] == '=' {
            seq![a, b]
        } else {
            seq![a, b, c] + unbase64(s.skip(4))
        }
    }
}

fn sextet_of(n: u8) -> (r: char)
    requires
        n < 64,
    ensures
        r == sextet(n as int),
{
    if n < 26 {
        (65u8 + n) as char
    } else if n < 52 {
        (97u8 + (n - 26)) as char
    } else if n < 62 {
        (48u8 + (n - 52)) as char
    } else if n == 62 {
        '+'
    } else {
        '/'
    }
}

fn push_quad(out: &mut String, a: u8, b: u8, c: u8, n: usize)
    requires
        1 <= n <= 3,
    ensures
        final(out)@ == old(out)@ + (if n == 1 {
            quad(a, b, c).take(2) + seq!['=', '=']
        } else if n == 2 {
            quad(a, b, c).take(3) + seq!['=']
        } else {
            quad(a, b, c)
        }),
{
    out.push(sextet_of(a / 4));
    out.push(sextet_of((a % 4) * 16 + b / 16));
    if n > 1 {
        out.push(sextet_of((b % 16) * 4 + c / 64));
    } else {
        out.push('=');
    }
    if n > 2 {
        out.push(sextet_of(c % 64));
    } else {
        out.push('=');
    }
    assert(out@ =~= old(out)@ + (if n == 1 {
        quad(a, b, c).take(2) + seq!['=', '=']
    } else if n == 2 {
        quad(a, b, c).take(3) + seq!['=']
    } else {
        quad(a, b, c)
    }));
}

/// The UTF-8 bytes of a text in base64. A text passes through a script's string literal and
/// then through markup; in base64 it means nothing in either.
pub fn b64(s: &str) -> (r: String)
    ensures
        r@ == base64(vstd::utf8::encode_utf8(s@)),
{
    let bytes = s.as_bytes();
    let mut out = String::new();
    let mut i: usize = 0;
    assert(bytes@.skip(0) =~= bytes@);
    assert(out@ + base64(bytes@.skip(0)) =~= base64(bytes@));
    while i < bytes.len()
        invariant
            i <= bytes.len(),
            out@ + base64(bytes@.skip(i as int)) == base64(bytes@),
        decreases bytes.len() - i,
    {
        let ghost rest = bytes@.skip(i as int);
        let ghost before = out@;
        let left = bytes.len() - i;
        if left == 1 {
            push_quad(&mut out, bytes[i], 0, 0, 1);
            i = i + 1;
        } else if left == 2 {
            push_quad(&mut out, bytes[i], bytes[i + 1], 0, 2);
            i = i + 2;
        } else {
            push_quad(&mut out, bytes[i], bytes[i + 1], bytes[i + 2], 3);
            assert(rest.skip(3) =~= bytes@.skip(i + 3));
            i = i + 3;
        }
        assert(out@ + base64(bytes@.skip(i as int)) =~= before + base64(rest));
    }
    assert(base64(bytes@.skip(i as int)) =~= seq![]);
    assert(out@ =~= base64(bytes@));
    out
}

/// A character that base64 uses.
pub open spec fn inert(c: char) -> bool {
    text::alnum(c) || c == '+' || c == '/' || c == '='
}

proof fn lemma_sextet(n: int)
    requires
        0 <= n < 64,
    ensures
        bits(sextet(n)) == n,
        inert(sextet(n)),
        sextet(n) != '=',
{
}

proof fn lemma_quad(a: u8, b: u8, c: u8)
    ensures
        bits(quad(a, b, c)[0]) == a as int / 4,
        bits(quad(a, b, c)[1]) == (a as int % 4) * 16 + b as int / 16,
        bits(quad(a, b, c)[2]) == (b as int % 16) * 4 + c as int / 64,
        bits(quad(a, b, c)[3]) == c as int % 64,
        forall|i: int|
            0 <= i < 4 ==> inert(#[trigger] quad(a, b, c)[i]) && quad(a, b, c)[i] != '=',
{
    lemma_sextet(a as int / 4);
    lemma_sextet((a as int % 4) * 16 + b as int / 16);
    lemma_sextet((b as int % 16) * 4 + c as int / 64);
    lemma_sextet(c as int % 64);
}

/// Base64 is read back to the bytes that it was made from.
pub proof fn law_base64_is_read_back(b: Seq<u8>)
    ensures
        unbase64(base64(b)) == b,
    decreases b.len(),
{
    let s = base64(b);
    if b.len() == 0 {
        assert(unbase64(s) =~= b);
    } else if b.len() == 1 {
        lemma_quad(b[0], 0, 0);
        assert(s[0] == quad(b[0], 0, 0)[0] && s[1] == quad(b[0], 0, 0)[1]);
        assert(unbase64(s) =~= b);
    } else if b.len() == 2 {
        lemma_quad(b[0], b[1], 0);
        let q = quad(b[0], b[1], 0);
        assert(s[0] == q[0] && s[1] == q[1] && s[2] == q[2] && s[3] == '=');
        assert(unbase64(s) =~= b);
    } else {
        let q = quad(b[0], b[1], b[2]);
        lemma_quad(b[0], b[1], b[2]);
        law_base64_is_read_back(b.skip(3));
        assert(s[0] == q[0] && s[1] == q[1] && s[2] == q[2] && s[3] == q[3]);
        assert(s.skip(4) =~= base64(b.skip(3)));
        assert(unbase64(s) =~= b);
    }
}

/// A page that undoes base64 and reads the bytes as UTF-8 gets the text that was sent, in any
/// language.
pub proof fn law_text_survives_the_way(s: Seq<char>)
    ensures
        vstd::utf8::decode_utf8(unbase64(base64(vstd::utf8::encode_utf8(s)))) == s,
{
    law_base64_is_read_back(vstd::utf8::encode_utf8(s));
    vstd::utf8::encode_utf8_decode_utf8(s);
}

/// Base64 is made of letters, digits, `+`, `/` and `=` only, and of a multiple of four of
/// them: it closes no string literal and opens no tag.
pub proof fn law_base64_is_inert(b: Seq<u8>)
    ensures
        text::every(base64(b), |c: char| inert(c)),
        base64(b).len() == 4 * ((b.len() + 2) / 3),
    decreases b.len(),
{
    let s = base64(b);
    if b.len() == 0 {
    } else if b.len() == 1 {
        lemma_quad(b[0], 0, 0);
        assert forall|i: int| 0 <= i < s.len() implies inert(#[trigger] s[i]) by {
            if i < 2 {
                assert(s[i] == quad(b[0], 0, 0)[i]);
            }
        }
    } else if b.len() == 2 {
        lemma_quad(b[0], b[1], 0);
        assert forall|i: int| 0 <= i < s.len() implies inert(#[trigger] s[i]) by {
            if i < 3 {
                assert(s[i] == quad(b[0], b[1], 0)[i]);
            }
        }
    } else {
        lemma_quad(b[0], b[1], b[2]);
        law_base64_is_inert(b.skip(3));
        let rest = base64(b.skip(3));
        assert forall|i: int| 0 <= i < s.len() implies inert(#[trigger] s[i]) by {
            if i < 4 {
                assert(s[i] == quad(b[0], b[1], b[2])[i]);
            } else {
                assert(s[i] == rest[i - 4]);
            }
        }
    }
}

// ───────────────────────── markup ─────────────────────────

/// A character as it stands in markup.
pub open spec fn escaped_char(c: char) -> Seq<char> {
    if c == '&' {
        "&amp;"@
    } else if c == '<' {
        "&lt;"@
    } else if c == '>' {
        "&gt;"@
    } else {
        seq![c]
    }
}

/// A text as it stands in markup.
pub open spec fn escaped(s: Seq<char>) -> Seq<char>
    decreases s.len(),
{
    if s.len() == 0 {
        seq![]
    } else {
        escaped(s.drop_last()) + escaped_char(s.last())
    }
}

/// A foreign text as it stands in markup.
pub fn esc(s: &str) -> (r: String)
    ensures
        r@ == escaped(s@),
{
    let v = text::chars(s);
    let mut out = String::new();
    let mut i: usize = 0;
    assert(out@ =~= escaped(v@.take(0)));
    while i < v.len()
        invariant
            i <= v.len(),
            out@ == escaped(v@.take(i as int)),
        decreases v.len() - i,
    {
        assert(v@.take(i + 1).drop_last() =~= v@.take(i as int));
        let c = v[i];
        let ghost before = out@;
        if c == '&' {
            out.push_str("&amp;");
        } else if c == '<' {
            out.push_str("&lt;");
        } else if c == '>' {
            out.push_str("&gt;");
        } else {
            out.push(c);
            assert(out@ =~= before + seq![c]);
        }
        i = i + 1;
    }
    assert(v@.take(i as int) =~= v@);
    out
}

/// An escaped text opens and closes no tag.
pub proof fn law_escaped_text_has_no_tags(s: Seq<char>)
    ensures
        !escaped(s).contains('<'),
        !escaped(s).contains('>'),
    decreases s.len(),
{
    reveal_strlit("&amp;");
    reveal_strlit("&lt;");
    reveal_strlit("&gt;");
    if s.len() > 0 {
        law_escaped_text_has_no_tags(s.drop_last());
        let head = escaped(s.drop_last());
        let whole = escaped(s);
        assert forall|i: int| 0 <= i < whole.len() implies whole[i] != '<' && whole[i] != '>' by {
            if i < head.len() {
                assert(whole[i] == head[i]);
                assert(head.contains(head[i]));
            } else {
                assert(whole[i] == escaped_char(s.last())[i - head.len()]);
            }
        }
    }
}

/// The lines that a program wrote to its error channel, each on a line of its own.
pub open spec fn tail_items(lines: Seq<Seq<char>>) -> Seq<char>
    decreases lines.len(),
{
    if lines.len() == 0 {
        seq![]
    } else {
        tail_items(lines.drop_last()) + "· "@ + escaped(lines.last()) + "\n"@
    }
}

/// What a program wrote to its error channel, as it is shown: nothing where it wrote nothing.
pub open spec fn tail_shown(lines: Seq<Seq<char>>) -> Seq<char> {
    if lines.len() == 0 {
        seq![]
    } else {
        "\n\n<b>dsh 的原始输出：</b>\n"@ + tail_items(lines)
    }
}

/// What a program wrote to its error channel, as it is shown.
pub fn err_tail_html(lines: &Vec<String>) -> (r: String)
    ensures
        r@ == tail_shown(text::texts(lines@)),
{
    if lines.len() == 0 {
        let none = String::new();
        assert(none@ =~= seq![]);
        return none;
    }
    let mut out = text::copy("\n\n<b>dsh 的原始输出：</b>\n");
    let ghost head = out@;
    let ghost all = text::texts(lines@);
    let mut i: usize = 0;
    assert(out@ =~= head + tail_items(all.take(0)));
    while i < lines.len()
        invariant
            i <= lines.len(),
            all == text::texts(lines@),
            out@ == head + tail_items(all.take(i as int)),
        decreases lines.len() - i,
    {
        assert(all.take(i + 1).drop_last() =~= all.take(i as int));
        let l = esc(lines[i].as_str());
        out.push_str("· ");
        out.push_str(l.as_str());
        out.push_str("\n");
        i = i + 1;
        assert(out@ =~= head + tail_items(all.take(i as int)));
    }
    assert(all.take(i as int) =~= all);
    out
}

// ───────────────────────── scripts ─────────────────────────

/// A script that hands a text to a function of the page.
pub open spec fn call_with(function: Seq<char>, s: Seq<char>) -> Seq<char> {
    function + "('"@ + base64(vstd::utf8::encode_utf8(s)) + "')"@
}

fn script(function: &str, s: &str) -> (r: String)
    ensures
        r@ == call_with(function@, s@),
{
    let payload = b64(s);
    text::cat4(function, "('", payload.as_str(), "')")
}

/// Shows a line of status on the start page.
pub fn splash_status(s: &str) -> (r: String)
    ensures
        r@ == call_with("window.__dshell&&window.__dshell.statusB64"@, s@),
{
    script("window.__dshell&&window.__dshell.statusB64", s)
}

/// Shows a failure on the start page.
pub fn splash_fail(html: &str) -> (r: String)
    ensures
        r@ == call_with("window.__dshell&&window.__dshell.failB64"@, html@),
{
    script("window.__dshell&&window.__dshell.failB64", html)
}

/// Hands a message to the settings panel.
pub fn panel_push(message: &str) -> (r: String)
    ensures
        r@ == call_with("window.__dshellSettings&&window.__dshellSettings.push"@, message@),
{
    script("window.__dshellSettings&&window.__dshellSettings.push", message)
}

/// Shows a line in place of a settings panel that did not come up.
pub fn panel_status(s: &str) -> (r: String)
    ensures
        r@ == call_with("window.__dshellSettings&&window.__dshellSettings.status"@, s@),
{
    script("window.__dshellSettings&&window.__dshellSettings.status", s)
}

/// Text is escaped character by character: the three that mean something in HTML are written as
/// what stands for them, and every other one stays.
pub proof fn law_text_is_escaped_character_by_character(a: Seq<char>, b: Seq<char>, c: char)
    ensures
        escaped(a + b) == escaped(a) + escaped(b),
        escaped(seq!['&']) == "&amp;"@,
        escaped(seq!['<']) == "&lt;"@,
        escaped(seq!['>']) == "&gt;"@,
        c != '&' && c != '<' && c != '>' ==> escaped(seq![c]) == seq![c],
    decreases b.len(),
{
    lemma_escaped_one('&');
    lemma_escaped_one('<');
    lemma_escaped_one('>');
    lemma_escaped_one(c);
    if b.len() == 0 {
        assert(a + b =~= a);
    } else {
        assert((a + b).drop_last() =~= a + b.drop_last());
        assert((a + b).last() == b.last());
        law_text_is_escaped_character_by_character(a, b.drop_last(), c);
    }
}

proof fn lemma_escaped_one(c: char)
    ensures
        escaped(seq![c]) == escaped_char(c),
{
    assert(seq![c].drop_last() =~= Seq::<char>::empty());
    assert(seq![c].last() == c);
    assert(escaped(Seq::<char>::empty()) =~= Seq::<char>::empty());
    assert(Seq::<char>::empty() + escaped_char(c) =~= escaped_char(c));
}

/// Every line is shown, escaped, on a line of its own behind a dot, in its order; where there
/// is none nothing is shown.
pub proof fn law_every_error_line_is_shown(a: Seq<Seq<char>>, b: Seq<Seq<char>>, line: Seq<char>)
    ensures
        tail_shown(Seq::<Seq<char>>::empty()) == Seq::<char>::empty(),
        tail_items(a + b) == tail_items(a) + tail_items(b),
        tail_items(seq![line]) == "· "@ + escaped(line) + "\n"@,
        a.len() > 0 ==> text::ends(tail_shown(a), tail_items(a)),
    decreases b.len(),
{
    assert(seq![line].drop_last() =~= Seq::<Seq<char>>::empty());
    assert(tail_items(Seq::<Seq<char>>::empty()) =~= Seq::<char>::empty());
    assert(Seq::<char>::empty() + "· "@ + escaped(line) + "\n"@ =~= "· "@ + escaped(line)
        + "\n"@);
    if a.len() > 0 {
        let s = tail_shown(a);
        let t = tail_items(a);
        assert(s.subrange(s.len() - t.len(), s.len() as int) =~= t);
    }
    if b.len() == 0 {
        assert(a + b =~= a);
    } else {
        assert((a + b).drop_last() =~= a + b.drop_last());
        assert((a + b).last() == b.last());
        law_every_error_line_is_shown(a, b.drop_last(), line);
        assert((tail_items(a) + tail_items(b.drop_last())) + "· "@ + escaped(b.last()) + "\n"@
            =~= tail_items(a) + (tail_items(b.drop_last()) + "· "@ + escaped(b.last()) + "\n"@));
    }
}

/// What is told to a page is a call of the function for it with the text as its argument: the
/// page, which decodes it, reads the text that was meant.
pub proof fn law_pages_are_told_what_was_meant(
    s: &str,
    status: String,
    fail: String,
    push: String,
    note: String,
    b: Seq<char>,
)
    requires
        call_ensures(splash_status, (s,), status),
        call_ensures(splash_fail, (s,), fail),
        call_ensures(panel_push, (s,), push),
        call_ensures(panel_status, (s,), note),
        b == base64(vstd::utf8::encode_utf8(s@)),
    ensures
        vstd::utf8::decode_utf8(unbase64(b)) == s@,
        status@ == "window.__dshell&&window.__dshell.statusB64"@ + "('"@ + b + "')"@,
        fail@ == "window.__dshell&&window.__dshell.failB64"@ + "('"@ + b + "')"@,
        push@ == "window.__dshellSettings&&window.__dshellSettings.push"@ + "('"@ + b + "')"@,
        note@ == "window.__dshellSettings&&window.__dshellSettings.status"@ + "('"@ + b + "')"@,
{
    law_text_survives_the_way(s@);
}

/// Escaping, encoding and showing are what they say of every text.
pub proof fn law_texts_are_written_for_the_page(
    s: &str,
    e: String,
    b: String,
    lines: &Vec<String>,
    t: String,
)
    requires
        call_ensures(esc, (s,), e),
        call_ensures(b64, (s,), b),
        call_ensures(err_tail_html, (lines,), t),
    ensures
        e@ == escaped(s@),
        vstd::utf8::decode_utf8(unbase64(b@)) == s@,
        t@.len() == 0 <==> lines@.len() == 0,
        lines@.len() > 0 ==> text::ends(t@, tail_items(text::texts(lines@))),
{
    law_text_survives_the_way(s@);
    let ls = text::texts(lines@);
    assert(ls.len() == lines@.len());
    law_every_error_line_is_shown(ls, Seq::empty(), Seq::empty());
    reveal_strlit("\n\n<b>dsh 的原始输出：</b>\n");
}

} // verus!
