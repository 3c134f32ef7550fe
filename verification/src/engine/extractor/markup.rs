//! Office XML to plain text: paragraph and cell boundaries become line
//! breaks and spaces, tags are stripped, the common entities decoded.
use vstd::prelude::*;
use crate::text::{chars_of, index_from, lemma_index_from, string_of, trim_end, trim_range, trim_start, trim_ws};

verus! {

/// `s` with every occurrence of `pat` replaced by `rep`, scanning left to
/// right without overlaps (what `str::replace` does).
pub open spec fn replace_lit(s: Seq<char>, pat: Seq<char>, rep: Seq<char>) -> Seq<char>
    decreases s.len(),
{
    if pat.len() == 0 || s.len() < pat.len() {
        s
    } else if s.take(pat.len() as int) == pat {
        rep + replace_lit(s.skip(pat.len() as int), pat, rep)
    } else {
        seq![s[0]] + replace_lit(s.drop_first(), pat, rep)
    }
}

/// `pat` occurs in `v` at `i`.
fn matches_at(v: &Vec<char>, i: usize, pat: &Vec<char>) -> (b: bool)
    requires
        i <= v.len(),
    ensures
        b == (i + pat.len() <= v.len() && v@.subrange(i as int, i + pat.len()) == pat@),
{
    if pat.len() > v.len() - i {
        return false;
    }
    let mut k: usize = 0;
    while k < pat.len()
        invariant
            i + pat.len() <= v.len(),
            k <= pat.len(),
            forall|q: int| 0 <= q < k ==> v@[i + q] == pat@[q],
        decreases pat.len() - k,
    {
        if v[i + k] != pat[k] {
            proof {
                assert(v@.subrange(i as int, i + pat.len())[k as int] != pat@[k as int]);
            }
            return false;
        }
        k = k + 1;
    }
    proof {
        assert(v@.subrange(i as int, i + pat.len()) =~= pat@);
    }
    true
}

/// Replace every occurrence of `pat` in `v` by `rep`.
pub fn replace_all(v: &Vec<char>, pat: &str, rep: &str) -> (r: Vec<char>)
    ensures
        r@ == replace_lit(v@, pat@, rep@),
{
    let p = chars_of(pat);
    let q = chars_of(rep);
    let mut out: Vec<char> = Vec::new();
    let mut i: usize = 0;
    proof {
        assert(v@.skip(0) =~= v@);
    }
    if p.len() == 0 {
        while i < v.len()
            invariant
                i <= v.len(),
                out@ == v@.take(i as int),
            decreases v.len() - i,
        {
            out.push(v[i]);
            i = i + 1;
            proof {
                assert(v@.take(i as int) =~= v@.take(i - 1).push(v@[i - 1]));
            }
        }
        proof {
            assert(v@.take(i as int) =~= v@);
        }
        return out;
    }
    while i < v.len()
        invariant
            i <= v.len(),
            p@ == pat@,
            q@ == rep@,
            p@.len() > 0,
            out@ + replace_lit(v@.skip(i as int), p@, q@) == replace_lit(v@, p@, q@),
        decreases v.len() - i,
    {
        let ghost s = v@.skip(i as int);
        if matches_at(v, i, &p) {
            proof {
                assert(s.take(p.len() as int) =~= v@.subrange(i as int, i + p.len()));
                assert(s.skip(p.len() as int) =~= v@.skip(i + p.len()));
                assert(out@ + replace_lit(s, p@, q@) =~= (out@ + q@) + replace_lit(
                    v@.skip(i + p.len()),
                    p@,
                    q@,
                ));
            }
            let mut k: usize = 0;
            let ghost base = out@;
            while k < q.len()
                invariant
                    k <= q.len(),
                    out@ == base + q@.take(k as int),
                decreases q.len() - k,
            {
                out.push(q[k]);
                k = k + 1;
                proof {
                    assert(q@.take(k as int) =~= q@.take(k - 1).push(q@[k - 1]));
                }
            }
            proof {
                assert(q@.take(q.len() as int) =~= q@);
            }
            i = i + p.len();
        } else {
            proof {
                if s.len() >= p@.len() {
                    assert(s.take(p.len() as int) =~= v@.subrange(i as int, i + p.len()));
                }
                assert(s.drop_first() =~= v@.skip(i + 1));
                assert(out@ + replace_lit(s, p@, q@) =~= out@.push(v@[i as int]) + replace_lit(
                    v@.skip(i + 1),
                    p@,
                    q@,
                ));
            }
            out.push(v[i]);
            i = i + 1;
        }
    }
    proof {
        assert(v@.skip(i as int) =~= Seq::<char>::empty());
    }
    out
}

/// Index of the first `>` at or after `k`, or the length of `s`.
pub open spec fn next_close(s: Seq<char>, k: int) -> int {
    match index_from(s, '>', k) {
        Some(j) => j,
        None => s.len() as int,
    }
}

/// `s` with every tag removed: a `<`, at least one character that is not
/// `>`, and the first `>` after it (what replacing the pattern `<[^>]+>` by
/// nothing gives). A `<` that no such tag starts at stays.
pub open spec fn strip_tags(s: Seq<char>) -> Seq<char>
    decreases s.len(),
{
    if s.len() == 0 {
        s
    } else {
        let j = next_close(s, 1);
        if s[0] == '<' && 1 < j < s.len() {
            strip_tags(s.skip(j + 1))
        } else {
            seq![s[0]] + strip_tags(s.drop_first())
        }
    }
}

proof fn lemma_next_close_shift(v: Seq<char>, i: int)
    requires
        0 <= i < v.len(),
    ensures
        next_close(v.skip(i), 1) == next_close(v, i + 1) - i,
    decreases v.len() - i,
{
    lemma_index_close_shift(v, i, i + 1);
}

proof fn lemma_index_close_shift(v: Seq<char>, i: int, k: int)
    requires
        0 <= i < k <= v.len(),
    ensures
        next_close(v.skip(i), k - i) == next_close(v, k) - i,
    decreases v.len() - k,
{
    let s = v.skip(i);
    if k < v.len() {
        assert(s[k - i] == v[k]);
        if v[k] != '>' {
            lemma_index_close_shift(v, i, k + 1);
        }
    }
}

/// Index of the first `>` at or after `k` in `v`, or `v.len()`.
fn find_close(v: &Vec<char>, k: usize) -> (j: usize)
    requires
        k <= v.len(),
    ensures
        j == next_close(v@, k as int),
        k <= j <= v.len(),
{
    let mut j = k;
    while j < v.len() && v[j] != '>'
        invariant
            k <= j <= v.len(),
            next_close(v@, k as int) == next_close(v@, j as int),
        decreases v.len() - j,
    {
        j = j + 1;
    }
    proof {
        lemma_index_from(v@, '>', j as int);
    }
    j
}

/// Remove every tag from `v`.
pub fn strip_tags_exec(v: &Vec<char>) -> (r: Vec<char>)
    ensures
        r@ == strip_tags(v@),
{
    let n = v.len();
    let mut out: Vec<char> = Vec::new();
    let mut i: usize = 0;
    // `close` caches the first `>` after the current `<`; once it lies past
    // `i` it is still the first `>` after `i`.
    let mut close: usize = 0;
    proof {
        assert(v@.skip(0) =~= v@);
    }
    while i < n
        invariant
            n == v.len(),
            i <= n,
            close <= n,
            close > i ==> close == next_close(v@, i + 1),
            out@ + strip_tags(v@.skip(i as int)) == strip_tags(v@),
        decreases n - i,
    {
        let ghost s = v@.skip(i as int);
        proof {
            lemma_next_close_shift(v@, i as int);
            assert(s[0] == v@[i as int]);
            assert(s.drop_first() =~= v@.skip(i + 1));
        }
        if v[i] == '<' {
            if close <= i {
                close = find_close(v, i + 1);
            }
            if close < n && close > i + 1 {
                proof {
                    assert(s.skip(close - i + 1) =~= v@.skip(close + 1));
                }
                i = close + 1;
            } else {
                out.push('<');
                i = i + 1;
            }
        } else {
            out.push(v[i]);
            i = i + 1;
        }
    }
    proof {
        assert(v@.skip(i as int) =~= Seq::<char>::empty());
    }
    out
}

/// Paragraph, row and cell boundaries of Word and PowerPoint XML turned
/// into line breaks and spaces.
pub open spec fn mark_breaks(x: Seq<char>) -> Seq<char> {
    let s = replace_lit(x, "</w:p>"@, "\n"@);
    let s = replace_lit(s, "</a:p>"@, "\n"@);
    let s = replace_lit(s, "</w:tc>"@, " "@);
    let s = replace_lit(s, "</w:tr>"@, "\n"@);
    replace_lit(s, "</a:tr>"@, "\n"@)
}

/// `s` begins with `p`.
pub open spec fn begins_with(s: Seq<char>, p: Seq<char>) -> bool {
    p.len() <= s.len() && s.take(p.len() as int) == p
}

/// The entity `s` begins with, as its length and the character it stands
/// for: `&lt;` `&gt;` `&amp;` `&quot;` `&apos;` `&#39;` `&nbsp;`.
pub open spec fn entity_at(s: Seq<char>) -> Option<(int, char)> {
    if begins_with(s, "&lt;"@) {
        Some((4, '<'))
    } else if begins_with(s, "&gt;"@) {
        Some((4, '>'))
    } else if begins_with(s, "&amp;"@) {
        Some((5, '&'))
    } else if begins_with(s, "&quot;"@) {
        Some((6, '"'))
    } else if begins_with(s, "&apos;"@) {
        Some((6, '\''))
    } else if begins_with(s, "&#39;"@) {
        Some((5, '\''))
    } else if begins_with(s, "&nbsp;"@) {
        Some((6, ' '))
    } else {
        None
    }
}

/// The XML/HTML entities found in Office files decoded in one pass from
/// left to right: each entity is replaced once, and what a replacement
/// produces is not decoded again (`&amp;quot;` gives `&quot;`).
pub open spec fn decode_entities(s: Seq<char>) -> Seq<char>
    decreases s.len(),
{
    if s.len() == 0 {
        s
    } else {
        match entity_at(s) {
            Some((n, c)) => if 0 < n <= s.len() {
                seq![c] + decode_entities(s.skip(n))
            } else {
                s
            },
            None => seq![s[0]] + decode_entities(s.drop_first()),
        }
    }
}

/// The entity at position `i` of `v`, if one begins there.
fn entity_at_exec(v: &Vec<char>, i: usize) -> (r: Option<(usize, char)>)
    requires
        i <= v.len(),
    ensures
        match r {
            Some((n, c)) => entity_at(v@.skip(i as int)) == Some((n as int, c)) && 0 < n
                && i + n <= v.len(),
            None => entity_at(v@.skip(i as int)) is None,
        },
{
    let ghost s = v@.skip(i as int);
    let p0 = chars_of("&lt;");
    let p1 = chars_of("&gt;");
    let p2 = chars_of("&amp;");
    let p3 = chars_of("&quot;");
    let p4 = chars_of("&apos;");
    let p5 = chars_of("&#39;");
    let p6 = chars_of("&nbsp;");
    proof {
        reveal_strlit("&lt;");
        reveal_strlit("&gt;");
        reveal_strlit("&amp;");
        reveal_strlit("&quot;");
        reveal_strlit("&apos;");
        reveal_strlit("&#39;");
        reveal_strlit("&nbsp;");
        assert forall|p: Seq<char>| p.len() <= s.len() implies #[trigger] s.take(p.len() as int)
            == v@.subrange(i as int, i + p.len()) by {
            assert(s.take(p.len() as int) =~= v@.subrange(i as int, i + p.len()));
        }
    }
    if matches_at(v, i, &p0) {
        Some((4, '<'))
    } else if matches_at(v, i, &p1) {
        Some((4, '>'))
    } else if matches_at(v, i, &p2) {
        Some((5, '&'))
    } else if matches_at(v, i, &p3) {
        Some((6, '"'))
    } else if matches_at(v, i, &p4) {
        Some((6, '\''))
    } else if matches_at(v, i, &p5) {
        Some((5, '\''))
    } else if matches_at(v, i, &p6) {
        Some((6, ' '))
    } else {
        None
    }
}

/// Decode the entities of `v` in one left-to-right pass.
pub fn decode_entities_exec(v: &Vec<char>) -> (r: Vec<char>)
    ensures
        r@ == decode_entities(v@),
{
    let mut out: Vec<char> = Vec::new();
    let mut i: usize = 0;
    proof {
        assert(v@.skip(0) =~= v@);
    }
    while i < v.len()
        invariant
            i <= v.len(),
            out@ + decode_entities(v@.skip(i as int)) == decode_entities(v@),
        decreases v.len() - i,
    {
        let ghost s = v@.skip(i as int);
        match entity_at_exec(v, i) {
            Some((n, c)) => {
                proof {
                    assert(s.skip(n as int) =~= v@.skip(i + n));
                    assert(out@.push(c) + decode_entities(v@.skip(i + n)) =~= out@ + (seq![c]
                        + decode_entities(s.skip(n as int))));
                }
                out.push(c);
                i = i + n;
            },
            None => {
                proof {
                    assert(s[0] == v@[i as int]);
                    assert(s.drop_first() =~= v@.skip(i + 1));
                    assert(out@.push(v@[i as int]) + decode_entities(v@.skip(i + 1)) =~= out@ + (
                    seq![s[0]] + decode_entities(s.drop_first())));
                }
                out.push(v[i]);
                i = i + 1;
            },
        }
    }
    proof {
        assert(v@.skip(i as int) =~= Seq::<char>::empty());
    }
    out
}

/// The plain text of document XML: breaks marked, tags stripped, entities
/// decoded, surrounding whitespace trimmed; `None` when nothing is left (or
/// there was nothing to begin with).
pub open spec fn clean_spec(xml: Seq<char>) -> Option<Seq<char>> {
    if xml.len() == 0 {
        None
    } else {
        let t = trim_ws(decode_entities(strip_tags(mark_breaks(xml))));
        if t.len() == 0 {
            None
        } else {
            Some(t)
        }
    }
}

/// Strip XML markup from document XML, turning paragraph boundaries into
/// newlines and decoding the usual entities once each.
pub fn clean(xml: &str) -> (r: Option<String>)
    ensures
        r matches Some(t) ==> clean_spec(xml@) == Some(t@),
        r is None ==> clean_spec(xml@) is None,
{
    let v = chars_of(xml);
    if v.len() == 0 {
        return None;
    }
    let v = replace_all(&v, "</w:p>", "\n");
    let v = replace_all(&v, "</a:p>", "\n");
    let v = replace_all(&v, "</w:tc>", " ");
    let v = replace_all(&v, "</w:tr>", "\n");
    let v = replace_all(&v, "</a:tr>", "\n");
    let v = strip_tags_exec(&v);
    let v = decode_entities_exec(&v);
    let t = trim_range(&v, 0, v.len());
    proof {
        assert(v@.subrange(0, v@.len() as int) =~= v@);
    }
    if t.len() == 0 {
        None
    } else {
        Some(string_of(t.as_slice()))
    }
}

/// `c` as it may be written in document XML: `<`, `>`, `&` and `"` as
/// `&lt;` `&gt;` `&amp;` `&quot;`, and `'` as `&apos;`; with `alt`, `'` as
/// `&#39;` and a space as `&nbsp;` instead.
pub open spec fn escape_char(c: char, alt: bool) -> Seq<char> {
    if c == '<' {
        seq!['&', 'l', 't', ';']
    } else if c == '>' {
        seq!['&', 'g', 't', ';']
    } else if c == '&' {
        seq!['&', 'a', 'm', 'p', ';']
    } else if c == '"' {
        seq!['&', 'q', 'u', 'o', 't', ';']
    } else if c == '\'' && !alt {
        seq!['&', 'a', 'p', 'o', 's', ';']
    } else if c == '\'' && alt {
        seq!['&', '#', '3', '9', ';']
    } else if c == ' ' && alt {
        seq!['&', 'n', 'b', 's', 'p', ';']
    } else {
        seq![c]
    }
}

/// `t` with every character written as [`escape_char`] gives it.
pub open spec fn escape_text(t: Seq<char>, alt: bool) -> Seq<char>
    decreases t.len(),
{
    if t.len() == 0 {
        t
    } else {
        escape_char(t[0], alt) + escape_text(t.drop_first(), alt)
    }
}

proof fn lemma_not_begins(s: Seq<char>, p: Seq<char>, k: int)
    requires
        0 <= k < p.len(),
        k < s.len(),
        s[k] != p[k],
    ensures
        !begins_with(s, p),
{
    if begins_with(s, p) {
        assert(s.take(p.len() as int)[k] == s[k]);
    }
}

proof fn lemma_decode_escaped_char(c: char, alt: bool, rest: Seq<char>)
    ensures
        decode_entities(escape_char(c, alt) + rest) == seq![c] + decode_entities(rest),
{
    reveal_strlit("&lt;");
    reveal_strlit("&gt;");
    reveal_strlit("&amp;");
    reveal_strlit("&quot;");
    reveal_strlit("&apos;");
    reveal_strlit("&#39;");
    reveal_strlit("&nbsp;");
    let e = escape_char(c, alt);
    let s = e + rest;
    assert(s.len() > 0);
    if e.len() == 1 {
        assert(s[0] == c);
        assert(c != '&');
        lemma_not_begins(s, "&lt;"@, 0);
        lemma_not_begins(s, "&gt;"@, 0);
        lemma_not_begins(s, "&amp;"@, 0);
        lemma_not_begins(s, "&quot;"@, 0);
        lemma_not_begins(s, "&apos;"@, 0);
        lemma_not_begins(s, "&#39;"@, 0);
        lemma_not_begins(s, "&nbsp;"@, 0);
        assert(s.drop_first() =~= rest);
    } else {
        assert(s.take(e.len() as int) =~= e);
        assert(s.skip(e.len() as int) =~= rest);
        if c == '<' {
            assert("&lt;"@ =~= e);
            assert(begins_with(s, "&lt;"@));
        } else if c == '>' {
            lemma_not_begins(s, "&lt;"@, 1);
            assert("&gt;"@ =~= e);
            assert(begins_with(s, "&gt;"@));
        } else if c == '&' {
            lemma_not_begins(s, "&lt;"@, 1);
            lemma_not_begins(s, "&gt;"@, 1);
            assert("&amp;"@ =~= e);
            assert(begins_with(s, "&amp;"@));
        } else if c == '"' {
            lemma_not_begins(s, "&lt;"@, 1);
            lemma_not_begins(s, "&gt;"@, 1);
            lemma_not_begins(s, "&amp;"@, 1);
            assert("&quot;"@ =~= e);
            assert(begins_with(s, "&quot;"@));
        } else if c == '\'' && !alt {
            lemma_not_begins(s, "&lt;"@, 1);
            lemma_not_begins(s, "&gt;"@, 1);
            lemma_not_begins(s, "&amp;"@, 2);
            lemma_not_begins(s, "&quot;"@, 1);
            assert("&apos;"@ =~= e);
            assert(begins_with(s, "&apos;"@));
        } else if c == '\'' && alt {
            lemma_not_begins(s, "&lt;"@, 1);
            lemma_not_begins(s, "&gt;"@, 1);
            lemma_not_begins(s, "&amp;"@, 1);
            lemma_not_begins(s, "&quot;"@, 1);
            lemma_not_begins(s, "&apos;"@, 1);
            assert("&#39;"@ =~= e);
            assert(begins_with(s, "&#39;"@));
        } else {
            lemma_not_begins(s, "&lt;"@, 1);
            lemma_not_begins(s, "&gt;"@, 1);
            lemma_not_begins(s, "&amp;"@, 1);
            lemma_not_begins(s, "&quot;"@, 1);
            lemma_not_begins(s, "&apos;"@, 1);
            lemma_not_begins(s, "&#39;"@, 1);
            assert("&nbsp;"@ =~= e);
            assert(begins_with(s, "&nbsp;"@));
        }
    }
}

proof fn lemma_decode_escaped(t: Seq<char>, alt: bool)
    ensures
        decode_entities(escape_text(t, alt)) == t,
        escape_text(t, alt).len() >= t.len(),
        forall|k: int| 0 <= k < escape_text(t, alt).len() ==> #[trigger] escape_text(t, alt)[k] != '<',
    decreases t.len(),
{
    if t.len() > 0 {
        let e = escape_char(t[0], alt);
        let r = escape_text(t.drop_first(), alt);
        lemma_decode_escaped(t.drop_first(), alt);
        lemma_decode_escaped_char(t[0], alt, r);
        assert(seq![t[0]] + t.drop_first() =~= t);
        assert forall|k: int| 0 <= k < (e + r).len() implies #[trigger] (e + r)[k] != '<' by {
            if k >= e.len() {
                assert((e + r)[k] == r[k - e.len()]);
            }
        }
    }
}

proof fn lemma_no_open_replace(s: Seq<char>, pat: Seq<char>, rep: Seq<char>)
    requires
        pat.len() > 0,
        pat[0] == '<',
        forall|k: int| 0 <= k < s.len() ==> s[k] != '<',
    ensures
        replace_lit(s, pat, rep) == s,
    decreases s.len(),
{
    if s.len() >= pat.len() {
        assert(s.take(pat.len() as int)[0] == s[0]);
        lemma_no_open_replace(s.drop_first(), pat, rep);
        assert(seq![s[0]] + s.drop_first() =~= s);
    }
}

proof fn lemma_no_open_strip(s: Seq<char>)
    requires
        forall|k: int| 0 <= k < s.len() ==> s[k] != '<',
    ensures
        strip_tags(s) == s,
    decreases s.len(),
{
    if s.len() > 0 {
        lemma_no_open_strip(s.drop_first());
        assert(seq![s[0]] + s.drop_first() =~= s);
    }
}

/// Decoding undoes writing characters as entities: text whose `<`, `>`,
/// `&`, `"` and `'` (and, in the other spelling, spaces) are written as
/// their entities comes out of `clean` as the text itself, trimmed, each
/// entity standing for its character.
pub proof fn law_clean_decodes_entities(t: Seq<char>, alt: bool)
    ensures
        clean_spec(escape_text(t, alt)) == (if trim_ws(t).len() == 0 {
            None
        } else {
            Some(trim_ws(t))
        }),
{
    let x = escape_text(t, alt);
    lemma_decode_escaped(t, alt);
    reveal_strlit("</w:p>");
    reveal_strlit("</a:p>");
    reveal_strlit("</w:tc>");
    reveal_strlit("</w:tr>");
    reveal_strlit("</a:tr>");
    lemma_no_open_replace(x, "</w:p>"@, "\n"@);
    lemma_no_open_replace(x, "</a:p>"@, "\n"@);
    lemma_no_open_replace(x, "</w:tc>"@, " "@);
    lemma_no_open_replace(x, "</w:tr>"@, "\n"@);
    lemma_no_open_replace(x, "</a:tr>"@, "\n"@);
    assert(mark_breaks(x) == x);
    lemma_no_open_strip(x);
    if t.len() == 0 {
        assert(trim_start(t) == t);
        assert(trim_end(t) == t);
    }
}


/// No character of `s` is `<`, `>` or `&`: plain text with no markup.
pub open spec fn plain_text(s: Seq<char>) -> bool {
    forall|k: int| 0 <= k < s.len() ==> #[trigger] s[k] != '<' && s[k] != '>' && s[k] != '&'
}

proof fn lemma_replace_one(a: Seq<char>, pat: Seq<char>, rep: Seq<char>, b: Seq<char>)
    requires
        pat.len() > 0,
        pat[0] == '<',
        plain_text(a),
        plain_text(b),
    ensures
        replace_lit(a + pat + b, pat, rep) == a + rep + b,
    decreases a.len(),
{
    let s = a + pat + b;
    if a.len() == 0 {
        assert(s =~= pat + b);
        assert(s.take(pat.len() as int) =~= pat);
        assert(s.skip(pat.len() as int) =~= b);
        lemma_no_open_replace(b, pat, rep);
        assert(a + rep + b =~= rep + b);
    } else {
        assert(s[0] == a[0]);
        assert(s.take(pat.len() as int)[0] == a[0]);
        assert(plain_text(a.drop_first())) by {
            assert forall|k: int| 0 <= k < a.drop_first().len() implies #[trigger] a.drop_first()[k] != '<'
                && a.drop_first()[k] != '>' && a.drop_first()[k] != '&' by {
                assert(a.drop_first()[k] == a[k + 1]);
            }
        }
        lemma_replace_one(a.drop_first(), pat, rep, b);
        assert(s.drop_first() =~= a.drop_first() + pat + b);
        assert(seq![a[0]] + (a.drop_first() + rep + b) =~= a + rep + b);
    }
}

proof fn lemma_plain_no_open(s: Seq<char>)
    requires
        plain_text(s),
    ensures
        forall|k: int| 0 <= k < s.len() ==> s[k] != '<',
        decode_entities(s) == s,
{
    lemma_plain_decode(s);
}

proof fn lemma_plain_decode(s: Seq<char>)
    requires
        plain_text(s),
    ensures
        decode_entities(s) == s,
    decreases s.len(),
{
    reveal_strlit("&lt;");
    reveal_strlit("&gt;");
    reveal_strlit("&amp;");
    reveal_strlit("&quot;");
    reveal_strlit("&apos;");
    reveal_strlit("&#39;");
    reveal_strlit("&nbsp;");
    if s.len() > 0 {
        assert(s[0] != '&');
        lemma_not_begins(s, "&lt;"@, 0);
        lemma_not_begins(s, "&gt;"@, 0);
        lemma_not_begins(s, "&amp;"@, 0);
        lemma_not_begins(s, "&quot;"@, 0);
        lemma_not_begins(s, "&apos;"@, 0);
        lemma_not_begins(s, "&#39;"@, 0);
        lemma_not_begins(s, "&nbsp;"@, 0);
        assert(plain_text(s.drop_first())) by {
            assert forall|k: int| 0 <= k < s.drop_first().len() implies #[trigger] s.drop_first()[k] != '<'
                && s.drop_first()[k] != '>' && s.drop_first()[k] != '&' by {
                assert(s.drop_first()[k] == s[k + 1]);
            }
        }
        lemma_plain_decode(s.drop_first());
        assert(seq![s[0]] + s.drop_first() =~= s);
    }
}

proof fn lemma_plain_concat(a: Seq<char>, b: Seq<char>)
    requires
        plain_text(a),
        plain_text(b),
    ensures
        plain_text(a + b),
{
    assert forall|k: int| 0 <= k < (a + b).len() implies #[trigger] (a + b)[k] != '<' && (a + b)[k]
        != '>' && (a + b)[k] != '&' by {
        if k >= a.len() {
            assert((a + b)[k] == b[k - a.len()]);
        }
    }
}

/// The document text of `x` once breaks are marked, when `x` holds no
/// markup at all.
proof fn lemma_clean_plain(x: Seq<char>)
    requires
        plain_text(x),
    ensures
        clean_spec(x) == (if x.len() == 0 || trim_ws(x).len() == 0 {
            None
        } else {
            Some(trim_ws(x))
        }),
{
    lemma_plain_no_open(x);
    reveal_strlit("</w:p>");
    reveal_strlit("</a:p>");
    reveal_strlit("</w:tc>");
    reveal_strlit("</w:tr>");
    reveal_strlit("</a:tr>");
    lemma_no_open_replace(x, "</w:p>"@, "\n"@);
    lemma_no_open_replace(x, "</a:p>"@, "\n"@);
    lemma_no_open_replace(x, "</w:tc>"@, " "@);
    lemma_no_open_replace(x, "</w:tr>"@, "\n"@);
    lemma_no_open_replace(x, "</a:tr>"@, "\n"@);
    lemma_no_open_strip(x);
}

proof fn lemma_other_pattern_kept(a: Seq<char>, w: Seq<char>, b: Seq<char>, p: Seq<char>, r: Seq<char>, i: int)
    requires
        plain_text(a),
        plain_text(b),
        w.len() > 0,
        w[0] == '<',
        forall|q: int| 1 <= q < w.len() ==> w[q] != '<',
        p.len() > 0,
        p[0] == '<',
        0 <= i < w.len(),
        i < p.len(),
        w[i] != p[i],
    ensures
        replace_lit(a + w + b, p, r) == a + w + b,
    decreases a.len(),
{
    let s = a + w + b;
    lemma_plain_no_open(b);
    if a.len() == 0 {
        assert(s =~= w + b);
        let t = s.drop_first();
        assert(t =~= w.drop_first() + b);
        assert forall|q: int| 0 <= q < t.len() implies t[q] != '<' by {
            if q < w.len() - 1 {
                assert(t[q] == w[q + 1]);
            } else {
                assert(t[q] == b[q - (w.len() - 1)]);
            }
        }
        lemma_no_open_replace(t, p, r);
        if s.len() >= p.len() {
            assert(s.take(p.len() as int)[i] == w[i]);
        }
        assert(seq![s[0]] + t =~= s);
    } else {
        assert(s[0] == a[0]);
        assert(plain_text(a.drop_first())) by {
            assert forall|q: int| 0 <= q < a.drop_first().len() implies #[trigger] a.drop_first()[q] != '<'
                && a.drop_first()[q] != '>' && a.drop_first()[q] != '&' by {
                assert(a.drop_first()[q] == a[q + 1]);
            }
        }
        lemma_other_pattern_kept(a.drop_first(), w, b, p, r, i);
        assert(s.drop_first() =~= a.drop_first() + w + b);
        if s.len() >= p.len() {
            assert(s.take(p.len() as int)[0] == a[0]);
        }
        assert(seq![a[0]] + (a.drop_first() + w + b) =~= s);
    }
}


/// The end of a paragraph (`</w:p>`, `</a:p>`) or table row (`</w:tr>`,
/// `</a:tr>`) becomes a line break and the end of a table cell (`</w:tc>`)
/// a space: between plain text, `clean` reads the closing tag as that
/// character.
pub proof fn law_clean_marks_breaks(a: Seq<char>, b: Seq<char>, k: int)
    requires
        plain_text(a),
        plain_text(b),
        0 <= k < 5,
    ensures
        clean_spec(a + seq![
            seq!['<', '/', 'w', ':', 'p', '>'],
            seq!['<', '/', 'a', ':', 'p', '>'],
            seq!['<', '/', 'w', ':', 't', 'c', '>'],
            seq!['<', '/', 'w', ':', 't', 'r', '>'],
            seq!['<', '/', 'a', ':', 't', 'r', '>'],
        ][k] + b) == clean_spec(a + seq![seq!['\n'], seq!['\n'], seq![' '], seq!['\n'], seq!['\n']][k] + b),
{
    reveal_strlit("</w:p>");
    reveal_strlit("</a:p>");
    reveal_strlit("</w:tc>");
    reveal_strlit("</w:tr>");
    reveal_strlit("</a:tr>");
    reveal_strlit("\n");
    reveal_strlit(" ");
    lemma_plain_no_open(a);
    lemma_plain_no_open(b);
    if k == 0 {
        let w = "</w:p>"@;
        let r = "\n"@;
        assert(w =~= seq!['<', '/', 'w', ':', 'p', '>']);
        assert(r =~= seq!['\n']);
        let x = a + w + b;
        let y = a + r + b;
        assert(plain_text(r));
        lemma_plain_concat(a, r);
        lemma_plain_concat(a + r, b);
        lemma_plain_no_open(y);
        lemma_clean_plain(y);
        assert(forall|q: int| 1 <= q < w.len() ==> w[q] != '<');
        lemma_replace_one(a, w, r, b);
        assert("</a:p>"@ =~= seq!['<', '/', 'a', ':', 'p', '>']);
        lemma_no_open_replace(y, "</a:p>"@, "\n"@);
        assert("</w:tc>"@ =~= seq!['<', '/', 'w', ':', 't', 'c', '>']);
        lemma_no_open_replace(y, "</w:tc>"@, " "@);
        assert("</w:tr>"@ =~= seq!['<', '/', 'w', ':', 't', 'r', '>']);
        lemma_no_open_replace(y, "</w:tr>"@, "\n"@);
        assert("</a:tr>"@ =~= seq!['<', '/', 'a', ':', 't', 'r', '>']);
        lemma_no_open_replace(y, "</a:tr>"@, "\n"@);
        assert(mark_breaks(x) == y);
        lemma_no_open_strip(y);
        lemma_plain_decode(y);
        assert(x.len() > 0);
        assert(seq!['<', '/', 'w', ':', 'p', '>'] =~= seq![seq!['<', '/', 'w', ':', 'p', '>'], seq!['<', '/', 'a', ':', 'p', '>'], seq!['<', '/', 'w', ':', 't', 'c', '>'], seq!['<', '/', 'w', ':', 't', 'r', '>'], seq!['<', '/', 'a', ':', 't', 'r', '>']][k]);
        assert(seq!['\n'] =~= seq![seq!['\n'], seq!['\n'], seq![' '], seq!['\n'], seq!['\n']][k]);
    } else if k == 1 {
        let w = "</a:p>"@;
        let r = "\n"@;
        assert(w =~= seq!['<', '/', 'a', ':', 'p', '>']);
        assert(r =~= seq!['\n']);
        let x = a + w + b;
        let y = a + r + b;
        assert(plain_text(r));
        lemma_plain_concat(a, r);
        lemma_plain_concat(a + r, b);
        lemma_plain_no_open(y);
        lemma_clean_plain(y);
        assert(forall|q: int| 1 <= q < w.len() ==> w[q] != '<');
        assert("</w:p>"@ =~= seq!['<', '/', 'w', ':', 'p', '>']);
        lemma_other_pattern_kept(a, w, b, "</w:p>"@, "\n"@, 2);
        lemma_replace_one(a, w, r, b);
        assert("</w:tc>"@ =~= seq!['<', '/', 'w', ':', 't', 'c', '>']);
        lemma_no_open_replace(y, "</w:tc>"@, " "@);
        assert("</w:tr>"@ =~= seq!['<', '/', 'w', ':', 't', 'r', '>']);
        lemma_no_open_replace(y, "</w:tr>"@, "\n"@);
        assert("</a:tr>"@ =~= seq!['<', '/', 'a', ':', 't', 'r', '>']);
        lemma_no_open_replace(y, "</a:tr>"@, "\n"@);
        assert(mark_breaks(x) == y);
        lemma_no_open_strip(y);
        lemma_plain_decode(y);
        assert(x.len() > 0);
        assert(seq!['<', '/', 'a', ':', 'p', '>'] =~= seq![seq!['<', '/', 'w', ':', 'p', '>'], seq!['<', '/', 'a', ':', 'p', '>'], seq!['<', '/', 'w', ':', 't', 'c', '>'], seq!['<', '/', 'w', ':', 't', 'r', '>'], seq!['<', '/', 'a', ':', 't', 'r', '>']][k]);
        assert(seq!['\n'] =~= seq![seq!['\n'], seq!['\n'], seq![' '], seq!['\n'], seq!['\n']][k]);
    } else if k == 2 {
        let w = "</w:tc>"@;
        let r = " "@;
        assert(w =~= seq!['<', '/', 'w', ':', 't', 'c', '>']);
        assert(r =~= seq![' ']);
        let x = a + w + b;
        let y = a + r + b;
        assert(plain_text(r));
        lemma_plain_concat(a, r);
        lemma_plain_concat(a + r, b);
        lemma_plain_no_open(y);
        lemma_clean_plain(y);
        assert(forall|q: int| 1 <= q < w.len() ==> w[q] != '<');
        assert("</w:p>"@ =~= seq!['<', '/', 'w', ':', 'p', '>']);
        lemma_other_pattern_kept(a, w, b, "</w:p>"@, "\n"@, 4);
        assert("</a:p>"@ =~= seq!['<', '/', 'a', ':', 'p', '>']);
        lemma_other_pattern_kept(a, w, b, "</a:p>"@, "\n"@, 2);
        lemma_replace_one(a, w, r, b);
        assert("</w:tr>"@ =~= seq!['<', '/', 'w', ':', 't', 'r', '>']);
        lemma_no_open_replace(y, "</w:tr>"@, "\n"@);
        assert("</a:tr>"@ =~= seq!['<', '/', 'a', ':', 't', 'r', '>']);
        lemma_no_open_replace(y, "</a:tr>"@, "\n"@);
        assert(mark_breaks(x) == y);
        lemma_no_open_strip(y);
        lemma_plain_decode(y);
        assert(x.len() > 0);
        assert(seq!['<', '/', 'w', ':', 't', 'c', '>'] =~= seq![seq!['<', '/', 'w', ':', 'p', '>'], seq!['<', '/', 'a', ':', 'p', '>'], seq!['<', '/', 'w', ':', 't', 'c', '>'], seq!['<', '/', 'w', ':', 't', 'r', '>'], seq!['<', '/', 'a', ':', 't', 'r', '>']][k]);
        assert(seq![' '] =~= seq![seq!['\n'], seq!['\n'], seq![' '], seq!['\n'], seq!['\n']][k]);
    } else if k == 3 {
        let w = "</w:tr>"@;
        let r = "\n"@;
        assert(w =~= seq!['<', '/', 'w', ':', 't', 'r', '>']);
        assert(r =~= seq!['\n']);
        let x = a + w + b;
        let y = a + r + b;
        assert(plain_text(r));
        lemma_plain_concat(a, r);
        lemma_plain_concat(a + r, b);
        lemma_plain_no_open(y);
        lemma_clean_plain(y);
        assert(forall|q: int| 1 <= q < w.len() ==> w[q] != '<');
        assert("</w:p>"@ =~= seq!['<', '/', 'w', ':', 'p', '>']);
        lemma_other_pattern_kept(a, w, b, "</w:p>"@, "\n"@, 4);
        assert("</a:p>"@ =~= seq!['<', '/', 'a', ':', 'p', '>']);
        lemma_other_pattern_kept(a, w, b, "</a:p>"@, "\n"@, 2);
        assert("</w:tc>"@ =~= seq!['<', '/', 'w', ':', 't', 'c', '>']);
        lemma_other_pattern_kept(a, w, b, "</w:tc>"@, " "@, 5);
        lemma_replace_one(a, w, r, b);
        assert("</a:tr>"@ =~= seq!['<', '/', 'a', ':', 't', 'r', '>']);
        lemma_no_open_replace(y, "</a:tr>"@, "\n"@);
        assert(mark_breaks(x) == y);
        lemma_no_open_strip(y);
        lemma_plain_decode(y);
        assert(x.len() > 0);
        assert(seq!['<', '/', 'w', ':', 't', 'r', '>'] =~= seq![seq!['<', '/', 'w', ':', 'p', '>'], seq!['<', '/', 'a', ':', 'p', '>'], seq!['<', '/', 'w', ':', 't', 'c', '>'], seq!['<', '/', 'w', ':', 't', 'r', '>'], seq!['<', '/', 'a', ':', 't', 'r', '>']][k]);
        assert(seq!['\n'] =~= seq![seq!['\n'], seq!['\n'], seq![' '], seq!['\n'], seq!['\n']][k]);
    } else if k == 4 {
        let w = "</a:tr>"@;
        let r = "\n"@;
        assert(w =~= seq!['<', '/', 'a', ':', 't', 'r', '>']);
        assert(r =~= seq!['\n']);
        let x = a + w + b;
        let y = a + r + b;
        assert(plain_text(r));
        lemma_plain_concat(a, r);
        lemma_plain_concat(a + r, b);
        lemma_plain_no_open(y);
        lemma_clean_plain(y);
        assert(forall|q: int| 1 <= q < w.len() ==> w[q] != '<');
        assert("</w:p>"@ =~= seq!['<', '/', 'w', ':', 'p', '>']);
        lemma_other_pattern_kept(a, w, b, "</w:p>"@, "\n"@, 2);
        assert("</a:p>"@ =~= seq!['<', '/', 'a', ':', 'p', '>']);
        lemma_other_pattern_kept(a, w, b, "</a:p>"@, "\n"@, 4);
        assert("</w:tc>"@ =~= seq!['<', '/', 'w', ':', 't', 'c', '>']);
        lemma_other_pattern_kept(a, w, b, "</w:tc>"@, " "@, 2);
        assert("</w:tr>"@ =~= seq!['<', '/', 'w', ':', 't', 'r', '>']);
        lemma_other_pattern_kept(a, w, b, "</w:tr>"@, "\n"@, 2);
        lemma_replace_one(a, w, r, b);
        assert(mark_breaks(x) == y);
        lemma_no_open_strip(y);
        lemma_plain_decode(y);
        assert(x.len() > 0);
        assert(seq!['<', '/', 'a', ':', 't', 'r', '>'] =~= seq![seq!['<', '/', 'w', ':', 'p', '>'], seq!['<', '/', 'a', ':', 'p', '>'], seq!['<', '/', 'w', ':', 't', 'c', '>'], seq!['<', '/', 'w', ':', 't', 'r', '>'], seq!['<', '/', 'a', ':', 't', 'r', '>']][k]);
        assert(seq!['\n'] =~= seq![seq!['\n'], seq!['\n'], seq![' '], seq!['\n'], seq!['\n']][k]);
    }
}


proof fn lemma_strip_one_tag(a: Seq<char>, w: Seq<char>, b: Seq<char>)
    requires
        plain_text(a),
        plain_text(w),
        plain_text(b),
        w.len() > 0,
    ensures
        strip_tags(a + seq!['<'] + w + seq!['>'] + b) == a + b,
    decreases a.len(),
{
    let s = a + seq!['<'] + w + seq!['>'] + b;
    lemma_plain_no_open(b);
    if a.len() == 0 {
        let j: int = w.len() as int + 1;
        assert(s[0] == '<');
        assert(s[j] == '>');
        assert forall|q: int| 1 <= q < j implies s[q] != '>' by {
            assert(s[q] == w[q - 1]);
        }
        lemma_index_from(s, '>', 1);
        assert(next_close(s, 1) == j);
        assert(s.skip(j + 1) =~= b);
        lemma_no_open_strip(b);
        assert(a + b =~= b);
    } else {
        assert(s[0] == a[0]);
        assert(plain_text(a.drop_first())) by {
            assert forall|q: int| 0 <= q < a.drop_first().len() implies #[trigger] a.drop_first()[q] != '<'
                && a.drop_first()[q] != '>' && a.drop_first()[q] != '&' by {
                assert(a.drop_first()[q] == a[q + 1]);
            }
        }
        lemma_strip_one_tag(a.drop_first(), w, b);
        assert(s.drop_first() =~= a.drop_first() + seq!['<'] + w + seq!['>'] + b);
        assert(seq![a[0]] + (a.drop_first() + b) =~= a + b);
    }
}

/// Tags are removed: between plain text, a tag `<w>` (any name `w` that is
/// not empty, holds no markup characters and is not a closing tag) leaves
/// nothing behind in the document text.
pub proof fn law_clean_strips_tags(a: Seq<char>, w: Seq<char>, b: Seq<char>)
    requires
        plain_text(a),
        plain_text(w),
        plain_text(b),
        w.len() > 0,
        w[0] != '/',
    ensures
        clean_spec(a + seq!['<'] + w + seq!['>'] + b) == clean_spec(a + b),
{
    let t = seq!['<'] + w + seq!['>'];
    let x = a + seq!['<'] + w + seq!['>'] + b;
    assert(x =~= a + t + b);
    assert(t[0] == '<');
    assert(t[1] == w[0]);
    assert forall|q: int| 1 <= q < t.len() implies t[q] != '<' by {
        if q <= w.len() {
            assert(t[q] == w[q - 1]);
        }
    }
    reveal_strlit("</w:p>");
    reveal_strlit("</a:p>");
    reveal_strlit("</w:tc>");
    reveal_strlit("</w:tr>");
    reveal_strlit("</a:tr>");
    lemma_other_pattern_kept(a, t, b, "</w:p>"@, "\n"@, 1);
    lemma_other_pattern_kept(a, t, b, "</a:p>"@, "\n"@, 1);
    lemma_other_pattern_kept(a, t, b, "</w:tc>"@, " "@, 1);
    lemma_other_pattern_kept(a, t, b, "</w:tr>"@, "\n"@, 1);
    lemma_other_pattern_kept(a, t, b, "</a:tr>"@, "\n"@, 1);
    assert(mark_breaks(x) == x);
    lemma_strip_one_tag(a, w, b);
    lemma_plain_concat(a, b);
    lemma_plain_decode(a + b);
    lemma_clean_plain(a + b);
    assert(x.len() > 0);
}

} // verus!
