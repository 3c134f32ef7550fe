//! Query engine: query rewriting, the terms a result snippet highlights and
//! the snippet itself.
pub mod parser;

use vstd::prelude::*;
use crate::engine::paths::{file_name_on, name_on, Platform};
use crate::engine::indexer::writer::{cjk_tokens, CjkTokenizer, SpecToken};
use crate::text::{
    collapse_whitespace, collapse_ws, first_occurrence, floor_boundary, floor_char_boundary,
    lemma_floor_mono, lemma_occurrence_from, push_char, push_str, slice_bytes, str_find,
    str_lowercase, str_to_lowercase, utf8,
};

verus! {

/// The string views of a list of strings.
pub open spec fn views_of(v: Seq<String>) -> Seq<Seq<char>> {
    v.map_values(|t: String| t@)
}

/// The highlight terms of a raw query: the texts of the tokens the index
/// makes of it, that is lowercased ASCII alphanumeric runs and each CJK
/// character (at or above U+2E80, not whitespace) on its own.
pub open spec fn highlight_terms(raw: Seq<char>) -> Seq<Seq<char>> {
    cjk_tokens(raw).map_values(|t: SpecToken| t.2)
}

/// Extract the terms a snippet should show from a raw query: lowercased
/// ASCII runs and CJK unigrams, as the index tokenizes them.
pub fn extract_highlight_terms(raw: &str) -> (r: Vec<String>)
    ensures
        views_of(r@) == highlight_terms(raw@),
{
    let ghost all = cjk_tokens(raw@);
    let mut tk = CjkTokenizer;
    let mut st = tk.token_stream(raw);
    let mut terms: Vec<String> = Vec::new();
    proof {
        assert(st.consumed() + st.remaining() =~= all);
        assert(views_of(terms@) =~= st.consumed().map_values(|t: SpecToken| t.2));
    }
    loop
        invariant
            st.wf(),
            st.consumed() + st.remaining() == all,
            views_of(terms@) == st.consumed().map_values(|t: SpecToken| t.2),
        ensures
            views_of(terms@) == all.map_values(|t: SpecToken| t.2),
        decreases st.remaining().len(),
    {
        let ghost before = st.consumed();
        let ghost rest = st.remaining();
        let more = st.advance();
        if !more {
            proof {
                assert(st.consumed() + st.remaining() =~= st.consumed());
            }
            break;
        }
        let t = st.token();
        let text = t.text.clone();
        proof {
            assert(text@ == rest[0].2);
            assert(st.consumed() + st.remaining() =~= before + rest);
            assert(views_of(terms@.push(text)) =~= views_of(terms@).push(text@));
            assert(st.consumed().map_values(|t: SpecToken| t.2) =~= before.map_values(
                |t: SpecToken| t.2,
            ).push(rest[0].2));
        }
        terms.push(text);
    }
    terms
}

/// The batch a search is limited to: a non-empty batch id, else none (the
/// whole index).
pub open spec fn batch_scope_spec(batch_id: Option<Seq<char>>) -> Option<Seq<char>> {
    match batch_id {
        Some(b) => if b.len() > 0 {
            Some(b)
        } else {
            None
        },
        None => None,
    }
}

/// The batch a search is limited to, if any.
pub fn batch_scope(batch_id: Option<&str>) -> (r: Option<&str>)
    ensures
        opt_view(r) == batch_scope_spec(opt_view(batch_id)),
{
    match batch_id {
        Some(b) => if b.is_empty() {
            None
        } else {
            Some(b)
        },
        None => None,
    }
}

/// Bytes of context kept on each side of the first highlighted match.
pub const SNIPPET_HALF_WINDOW: usize = 80;

/// The byte range `[start, end)` of the first term (in the order given)
/// whose lowercase form occurs in `lower`, looking from the `k`-th term on.
pub open spec fn first_term_hit(lower: Seq<u8>, terms: Seq<Seq<char>>, k: int) -> Option<(int, int)>
    decreases terms.len() - k,
{
    if k < 0 || k >= terms.len() {
        None
    } else {
        let t = utf8(str_lowercase(terms[k]));
        match first_occurrence(lower, t) {
            Some(p) => Some((p, p + t.len())),
            None => first_term_hit(lower, terms, k + 1),
        }
    }
}

/// The window of `b` (UTF-8 of the collapsed text) around `[start, end)`:
/// 80 bytes on each side, clamped to the text, both ends moved down to
/// character boundaries, with `…` where the window cuts the text.
pub open spec fn window_spec(b: Seq<u8>, start: int, end: int) -> Seq<char> {
    let len = b.len() as int;
    let from_raw = if start >= 80 { start - 80 } else { 0 };
    let from = floor_boundary(b, if from_raw < len { from_raw } else { len });
    let to_raw = end + 80;
    let to = floor_boundary(b, if to_raw < len { to_raw } else { len });
    (if from > 0 { seq!['…'] } else { Seq::empty() }) + vstd::utf8::decode_utf8(
        b.subrange(from, to),
    ) + (if to < len { seq!['…'] } else { Seq::empty() })
}

/// The snippet of a search result: nothing without terms or text; else the
/// window around the first term found in the whitespace-collapsed text; else
/// the file name of `path` (or nothing).
pub open spec fn snippet_spec(
    text: Option<Seq<char>>,
    path: Seq<char>,
    terms: Seq<Seq<char>>,
    platform: Platform,
) -> Seq<char> {
    if terms.len() == 0 {
        Seq::empty()
    } else {
        match text {
            None => Seq::empty(),
            Some(raw) => {
                let c = collapse_ws(raw);
                match first_term_hit(utf8(str_lowercase(c)), terms, 0) {
                    Some((start, end)) => window_spec(utf8(c), start, end),
                    None => match name_on(path, platform) {
                        Some(n) => n,
                        None => Seq::empty(),
                    },
                }
            },
        }
    }
}

/// The view of an optional string slice.
pub open spec fn opt_view(t: Option<&str>) -> Option<Seq<char>> {
    match t {
        Some(s) => Some(s@),
        None => None,
    }
}

/// The first term that occurs in `lower`, as a byte range of `lower`.
fn find_first_term(lower: &str, highlight: &[String]) -> (r: Option<(usize, usize)>)
    ensures
        r matches Some((a, b)) ==> first_term_hit(utf8(lower@), views_of(highlight@), 0) == Some(
            (a as int, b as int),
        ) && a <= b,
        r is None ==> first_term_hit(utf8(lower@), views_of(highlight@), 0) is None,
{
    let ghost terms = views_of(highlight@);
    let lower_len = lower.as_bytes().len();
    let mut k: usize = 0;
    while k < highlight.len()
        invariant
            k <= highlight.len(),
            terms == views_of(highlight@),
            lower_len == utf8(lower@).len(),
            first_term_hit(utf8(lower@), terms, 0) == first_term_hit(utf8(lower@), terms, k as int),
        decreases highlight.len() - k,
    {
        let t = str_to_lowercase(highlight[k].as_str());
        proof {
            assert(terms[k as int] == highlight@[k as int]@);
        }
        match str_find(lower, t.as_str()) {
            Some(pos) => {
                let tlen = t.as_str().as_bytes().len();
                proof {
                    lemma_occurrence_from(utf8(lower@), utf8(t@), 0);
                }
                return Some((pos, pos + tlen));
            },
            None => {
                k = k + 1;
            },
        }
    }
    None
}

/// The window of `text` around bytes `[start, end)`.
fn window_of(text: &str, start: usize, end: usize) -> (s: String)
    requires
        start <= end,
    ensures
        s@ == window_spec(utf8(text@), start as int, end as int),
{
    let ghost b = utf8(text@);
    let len = text.as_bytes().len();
    proof {
        vstd::utf8::encode_utf8_valid_utf8(text@);
    }
    let from_raw = if start >= SNIPPET_HALF_WINDOW {
        start - SNIPPET_HALF_WINDOW
    } else {
        0
    };
    let from = floor_char_boundary(text, if from_raw < len {
        from_raw
    } else {
        len
    });
    let to_raw: usize = if end > usize::MAX - SNIPPET_HALF_WINDOW {
        usize::MAX
    } else {
        end + SNIPPET_HALF_WINDOW
    };
    let to = floor_char_boundary(text, if to_raw < len {
        to_raw
    } else {
        len
    });
    proof {
        let fa = if from_raw < len { from_raw as int } else { len as int };
        let ta = if to_raw < len { to_raw as int } else { len as int };
        assert(fa <= ta);
        lemma_floor_mono(b, fa, ta);
    }
    let mid = slice_bytes(text, from, to);
    let mut s = String::new();
    if from > 0 {
        push_char(&mut s, '…');
    }
    push_str(&mut s, mid.as_str());
    if to < len {
        push_char(&mut s, '…');
    }
    proof {
        let pre: Seq<char> = if from > 0 { seq!['…'] } else { Seq::empty() };
        let post: Seq<char> = if to < len { seq!['…'] } else { Seq::empty() };
        assert(s@ =~= pre + mid@ + post);
    }
    s
}

/// A result snippet: the whitespace-collapsed `text` of the file around the
/// first highlight term found in it (case-insensitively), or the file name
/// of `path` when no term occurs. Empty without terms or without text.
pub fn make_snippet(
    text: Option<&str>,
    path: &str,
    highlight: &[String],
    platform: Platform,
) -> (s: String)
    ensures
        s@ == snippet_spec(opt_view(text), path@, views_of(highlight@), platform),
{
    if highlight.len() == 0 {
        return String::new();
    }
    let raw = match text {
        Some(t) => t,
        None => {
            return String::new();
        },
    };
    let text = collapse_whitespace(raw);
    let lower = str_to_lowercase(text.as_str());
    match find_first_term(lower.as_str(), highlight) {
        Some((start, end)) => window_of(text.as_str(), start, end),
        None => match file_name_on(path, platform) {
            Some(n) => n,
            None => String::new(),
        },
    }
}

} // verus!
