//! The unigram, CJK-aware tokenizer. Text is chopped into ASCII alphanumeric
//! runs (lowercased) plus each CJK character (code point `>= U+2E80`, not
//! whitespace) as a token of its own; everything else separates tokens.
//! Tokens are produced one at a time: the stream keeps exactly one token and
//! reuses its text buffer.
use sha2::Digest;
use vstd::prelude::*;
use crate::engine::scanner::FileEntry;
use crate::text::{str_prefix, ascii_lower, ascii_lower_exec, byte_len, char_at_byte, char_lowercase, is_whitespace, is_ws, lemma_byte_len_mono, lemma_byte_len_step, push_char, push_lowercase, utf8_width_exec};

verus! {

/// An ASCII letter or digit.
pub open spec fn is_ascii_alnum(c: char) -> bool {
    let u = c as u32;
    (48 <= u <= 57) || (65 <= u <= 90) || (97 <= u <= 122)
}

fn is_ascii_alnum_exec(c: char) -> (b: bool)
    ensures
        b == is_ascii_alnum(c),
{
    let u = c as u32;
    (48 <= u && u <= 57) || (65 <= u && u <= 90) || (97 <= u && u <= 122)
}

/// A character that forms a token on its own.
pub open spec fn is_cjk(c: char) -> bool {
    (c as u32) >= 0x2e80 && !is_ws(c)
}

/// End of the ASCII alphanumeric run starting at `i`.
pub open spec fn alnum_end(s: Seq<char>, i: int) -> int
    decreases s.len() - i,
{
    if 0 <= i < s.len() && is_ascii_alnum(s[i]) {
        alnum_end(s, i + 1)
    } else {
        i
    }
}

/// A token: byte range `[from, to)` in the text and its (lowercased) text.
pub type SpecToken = (int, int, Seq<char>);

/// ASCII lowercase of a run.
pub open spec fn lower_run(r: Seq<char>) -> Seq<char> {
    r.map_values(|c: char| ascii_lower(c))
}

pub proof fn lemma_alnum_end(s: Seq<char>, i: int)
    requires
        0 <= i <= s.len(),
    ensures
        i <= alnum_end(s, i) <= s.len(),
        forall|k: int| i <= k < alnum_end(s, i) ==> is_ascii_alnum(#[trigger] s[k]),
        alnum_end(s, i) < s.len() ==> !is_ascii_alnum(s[alnum_end(s, i)]),
    decreases s.len() - i,
{
    if i < s.len() && is_ascii_alnum(s[i]) {
        lemma_alnum_end(s, i + 1);
    }
}

/// The tokens of `s[i..]`, in order.
pub open spec fn tokens_from(s: Seq<char>, i: int) -> Seq<SpecToken>
    decreases s.len() - i,
{
    if 0 <= i < s.len() {
        if is_ascii_alnum(s[i]) {
            let j = alnum_end(s, i);
            proof {
                lemma_alnum_end(s, i);
            }
            if j > i {
                seq![(byte_len(s.take(i)) as int, byte_len(s.take(j)) as int, lower_run(s.subrange(i, j)))]
                    + tokens_from(s, j)
            } else {
                Seq::empty()
            }
        } else if is_cjk(s[i]) {
            seq![(byte_len(s.take(i)) as int, byte_len(s.take(i + 1)) as int, char_lowercase(s[i]))]
                + tokens_from(s, i + 1)
        } else {
            tokens_from(s, i + 1)
        }
    } else {
        Seq::empty()
    }
}

/// The tokens of a whole text.
pub open spec fn cjk_tokens(s: Seq<char>) -> Seq<SpecToken> {
    tokens_from(s, 0)
}

proof fn lemma_tokens_len(s: Seq<char>, i: int)
    requires
        0 <= i <= s.len(),
    ensures
        tokens_from(s, i).len() <= s.len() - i,
    decreases s.len() - i,
{
    if i < s.len() {
        if is_ascii_alnum(s[i]) {
            lemma_alnum_end(s, i);
            lemma_tokens_len(s, alnum_end(s, i));
        } else {
            lemma_tokens_len(s, i + 1);
        }
    }
}

/// One token as handed to the index: byte offsets, position in the token
/// sequence, and lowercased text.
pub struct Token {
    pub offset_from: usize,
    pub offset_to: usize,
    pub position: usize,
    pub position_length: usize,
    pub text: String,
}

/// The tokenizer itself holds no state; it makes streams.
pub struct CjkTokenizer;

/// Streaming tokenizer state over one text.
pub struct CjkTokenStream<'a> {
    text: &'a str,
    byte_idx: usize,
    position: usize,
    token: Token,
    char_idx: Ghost<int>,
    consumed: Ghost<Seq<SpecToken>>,
}

impl CjkTokenizer {
    /// Start tokenizing `text`.
    pub fn token_stream<'a>(&mut self, text: &'a str) -> (st: CjkTokenStream<'a>)
        ensures
            st.wf(),
            st.chars() == text@,
            st.consumed() == Seq::<SpecToken>::empty(),
            st.remaining() == cjk_tokens(text@),
    {
        proof {
            assert(text@.take(0) =~= Seq::<char>::empty());
        }
        CjkTokenStream {
            text,
            byte_idx: 0,
            position: 0,
            token: Token {
                offset_from: 0,
                offset_to: 0,
                position: 0,
                position_length: 1,
                text: String::new(),
            },
            char_idx: Ghost(0),
            consumed: Ghost(Seq::empty()),
        }
    }
}

impl<'a> CjkTokenStream<'a> {
    /// The characters being tokenized.
    pub closed spec fn chars(&self) -> Seq<char> {
        self.text@
    }

    /// Tokens handed out so far, in order.
    pub closed spec fn consumed(&self) -> Seq<SpecToken> {
        self.consumed@
    }

    /// Tokens still to come.
    pub closed spec fn remaining(&self) -> Seq<SpecToken> {
        tokens_from(self.text@, self.char_idx@)
    }

    /// The current token, as the spec sees it.
    pub closed spec fn current(&self) -> (SpecToken, int) {
        (
            (
                self.token.offset_from as int,
                self.token.offset_to as int,
                self.token.text@,
            ),
            self.token.position as int,
        )
    }

    /// Stream invariant: what was handed out followed by what remains is the
    /// whole tokenization, the cursor sits on a character boundary, and every
    /// token spans one position.
    pub closed spec fn wf(&self) -> bool {
        &&& 0 <= self.char_idx@ <= self.text@.len()
        &&& self.byte_idx == byte_len(self.text@.take(self.char_idx@))
        &&& self.consumed@ + tokens_from(self.text@, self.char_idx@) == cjk_tokens(self.text@)
        &&& self.position == self.consumed@.len()
        &&& self.token.position_length == 1
    }

    /// The current token.
    pub fn token(&self) -> (t: &Token)
        requires
            self.wf(),
        ensures
            ((t.offset_from as int, t.offset_to as int, t.text@), t.position as int)
                == self.current(),
            t.position_length == 1,
    {
        &self.token
    }

    /// Move to the next token. Returns `false` once the text is exhausted.
    pub fn advance(&mut self) -> (more: bool)
        requires
            old(self).wf(),
        ensures
            final(self).wf(),
            final(self).chars() == old(self).chars(),
            more == (old(self).remaining().len() > 0),
            more ==> final(self).current() == (
                old(self).remaining()[0],
                old(self).consumed().len() as int,
            ),
            more ==> final(self).consumed() == old(self).consumed().push(
                old(self).remaining()[0],
            ),
            !more ==> final(self).consumed() == old(self).consumed(),
            more ==> final(self).remaining() == old(self).remaining().drop_first(),
            !more ==> final(self).remaining().len() == 0,
    {
        let ghost s = self.text@;
        let n = self.text.as_bytes().len();
        proof {
            lemma_byte_len_mono(s, 0, s.len() as int);
            assert(s.take(0) =~= Seq::<char>::empty());
            lemma_byte_len_mono(s, self.char_idx@, s.len() as int);
            lemma_tokens_len(s, 0);
            assert(s.take(s.len() as int) =~= s);
        }
        while self.byte_idx < n
            invariant
                self.text@ == s,
                n == byte_len(s),
                0 <= self.char_idx@ <= s.len(),
                self.byte_idx == byte_len(s.take(self.char_idx@)),
                tokens_from(s, self.char_idx@) == tokens_from(s, old(self).char_idx@),
                self.consumed@ == old(self).consumed@,
                self.position == old(self).position,
                self.token == old(self).token,
                old(self).wf(),
                old(self).text@ == s,
                cjk_tokens(s).len() <= s.len() <= n,
            decreases n - self.byte_idx,
        {
            let ghost ci = self.char_idx@;
            proof {
                if ci == s.len() {
                    assert(s.take(ci) =~= s);
                }
                lemma_byte_len_step(s, ci);
                lemma_byte_len_mono(s, ci + 1, s.len() as int);
            }
            let ch = char_at_byte(self.text, Ghost(ci), self.byte_idx);
            let len = utf8_width_exec(ch);
            let start = self.byte_idx;
            if is_ascii_alnum_exec(ch) {
                proof {
                    lemma_alnum_end(s, ci);
                }
                self.token.text = String::new();
                let mut j = start + len;
                let ghost mut cj = ci + 1;
                push_char(&mut self.token.text, ascii_lower_exec(ch));
                proof {
                    assert(s.subrange(ci, cj) =~= seq![ch]);
                    assert(lower_run(s.subrange(ci, cj)) =~= self.token.text@);
                    if cj == s.len() {
                        assert(s.take(cj) =~= s);
                    }
                }
                while j < n && is_ascii_alnum_exec(char_at_byte(self.text, Ghost(cj), j))
                    invariant
                        self.text@ == s,
                        n == byte_len(s),
                        ci < cj <= alnum_end(s, ci),
                        alnum_end(s, ci) <= s.len(),
                        forall|k: int| ci <= k < alnum_end(s, ci) ==> is_ascii_alnum(#[trigger] s[k]),
                        alnum_end(s, ci) < s.len() ==> !is_ascii_alnum(s[alnum_end(s, ci)]),
                        j == byte_len(s.take(cj)),
                        j - start == cj - ci,
                        start == byte_len(s.take(ci)),
                        j < n ==> cj < s.len(),
                        self.token.text@ == lower_run(s.subrange(ci, cj)),
                        self.consumed@ == old(self).consumed@,
                        self.position == old(self).position,
                        self.char_idx@ == ci,
                        self.byte_idx == start,
                        old(self).wf(),
                        old(self).text@ == s,
                        cjk_tokens(s).len() <= s.len() <= n,
                        tokens_from(s, ci) == tokens_from(s, old(self).char_idx@),
                        0 <= ci < s.len(),
                    decreases n - j,
                {
                    proof {
                        lemma_byte_len_step(s, cj);
                        assert((s[cj] as u32) < 0x80);
                    }
                    push_char(&mut self.token.text, ascii_lower_exec(char_at_byte(self.text, Ghost(cj), j)));
                    proof {
                        assert(s.subrange(ci, cj + 1) =~= s.subrange(ci, cj).push(s[cj]));
                        assert(lower_run(s.subrange(ci, cj + 1)) =~= lower_run(s.subrange(ci, cj)).push(ascii_lower(s[cj])));
                    }
                    j = j + 1;
                    proof {
                        cj = cj + 1;
                        if cj < s.len() {
                            lemma_byte_len_step(s, cj);
                            lemma_byte_len_mono(s, cj + 1, s.len() as int);
                        } else {
                            assert(s.take(cj) =~= s);
                        }
                    }
                }
                proof {
                    if cj < alnum_end(s, ci) {
                        if j >= n {
                            lemma_byte_len_mono(s, cj, s.len() as int);
                            lemma_byte_len_step(s, cj);
                        }
                        assert(false);
                    }
                    assert(cj == alnum_end(s, ci));
                }
                self.token.offset_from = start;
                self.token.offset_to = j;
                self.token.position = self.position;
                self.token.position_length = 1;
                self.byte_idx = j;
                proof {
                    self.char_idx = Ghost(cj);
                    let t: SpecToken = (start as int, j as int, lower_run(s.subrange(ci, cj)));
                    assert(tokens_from(s, ci) == seq![t] + tokens_from(s, cj));
                    self.consumed = Ghost(self.consumed@.push(t));
                    assert(old(self).consumed@ + tokens_from(s, ci) == cjk_tokens(s));
                    assert(self.consumed@ + tokens_from(s, cj) =~= old(self).consumed@ + tokens_from(s, ci));
                    lemma_tokens_len(s, ci);
                    assert(self.consumed@.len() <= cjk_tokens(s).len());
                    assert(tokens_from(s, cj) =~= tokens_from(s, ci).drop_first());
                }
                self.position = self.position + 1;
                return true;
            } else if (ch as u32) >= 0x2e80 && !is_whitespace(ch) {
                self.token.text = String::new();
                push_lowercase(&mut self.token.text, ch);
                self.token.offset_from = start;
                self.token.offset_to = start + len;
                self.token.position = self.position;
                self.token.position_length = 1;
                self.byte_idx = start + len;
                proof {
                    self.char_idx = Ghost(ci + 1);
                    let t: SpecToken = (start as int, (start + len) as int, char_lowercase(ch));
                    assert(self.token.text@ =~= char_lowercase(ch));
                    assert(tokens_from(s, ci) == seq![t] + tokens_from(s, ci + 1));
                    self.consumed = Ghost(self.consumed@.push(t));
                    assert(self.consumed@ + tokens_from(s, ci + 1) =~= old(self).consumed@ + tokens_from(s, ci));
                    lemma_tokens_len(s, ci);
                    assert(self.consumed@.len() <= cjk_tokens(s).len());
                    assert(tokens_from(s, ci + 1) =~= tokens_from(s, ci).drop_first());
                }
                self.position = self.position + 1;
                return true;
            } else {
                self.byte_idx = start + len;
                proof {
                    self.char_idx = Ghost(ci + 1);
                    assert(tokens_from(s, ci) == tokens_from(s, ci + 1));
                }
            }
        }
        proof {
            lemma_byte_len_mono(s, self.char_idx@, s.len() as int);
            if self.char_idx@ < s.len() {
                lemma_byte_len_step(s, self.char_idx@);
                lemma_byte_len_mono(s, self.char_idx@ + 1, s.len() as int);
            }
            assert(tokens_from(s, self.char_idx@) == Seq::<SpecToken>::empty());
        }
        false
    }
}

proof fn lemma_tokens_ordered_from(s: Seq<char>, i: int)
    requires
        0 <= i <= s.len(),
    ensures
        forall|k: int|
            0 <= k < tokens_from(s, i).len() ==> byte_len(s.take(i)) <= (
            #[trigger] tokens_from(s, i)[k]).0 < tokens_from(s, i)[k].1 <= byte_len(s),
        forall|k: int, l: int|
            0 <= k < l < tokens_from(s, i).len() ==> (#[trigger] tokens_from(s, i)[k]).1
                <= (#[trigger] tokens_from(s, i)[l]).0,
    decreases s.len() - i,
{
    if i < s.len() {
        let t = tokens_from(s, i);
        if is_ascii_alnum(s[i]) {
            lemma_alnum_end(s, i);
            let j = alnum_end(s, i);
            lemma_tokens_ordered_from(s, j);
            lemma_byte_len_mono(s, i, j);
            lemma_byte_len_mono(s, j, s.len() as int);
            assert(s.take(s.len() as int) =~= s);
            let rest = tokens_from(s, j);
            assert(t == seq![t[0]] + rest);
            assert forall|k: int| 1 <= k < t.len() implies #[trigger] t[k] == rest[k - 1] by {}
        } else {
            lemma_tokens_ordered_from(s, i + 1);
            lemma_byte_len_mono(s, i, i + 1);
            lemma_byte_len_mono(s, i + 1, s.len() as int);
            assert(s.take(s.len() as int) =~= s);
            let rest = tokens_from(s, i + 1);
            if is_cjk(s[i]) {
                assert(t == seq![t[0]] + rest);
                assert forall|k: int| 1 <= k < t.len() implies #[trigger] t[k] == rest[k - 1] by {}
            }
        }
    }
}

/// Tokens come in text order, do not overlap, and each covers a non-empty
/// byte range inside the text.
pub proof fn law_tokens_ordered(s: Seq<char>)
    ensures
        forall|k: int|
            0 <= k < cjk_tokens(s).len() ==> 0 <= (#[trigger] cjk_tokens(s)[k]).0 < cjk_tokens(
                s,
            )[k].1 <= byte_len(s),
        forall|k: int, l: int|
            0 <= k < l < cjk_tokens(s).len() ==> (#[trigger] cjk_tokens(s)[k]).1 <= (
            #[trigger] cjk_tokens(s)[l]).0,
{
    lemma_tokens_ordered_from(s, 0);
}

/// `c` is an ASCII letter or digit.
pub open spec fn letter_or_digit(c: char) -> bool {
    let u = c as u32;
    ||| 48 <= u <= 57
    ||| 65 <= u <= 90
    ||| 97 <= u <= 122
}

/// `c` in lower case if it is an ASCII capital.
pub open spec fn ascii_downcase(c: char) -> char {
    let u = c as u32;
    if 65 <= u <= 90 {
        (u + 32) as char
    } else {
        c
    }
}

proof fn lemma_alnum_end_is(s: Seq<char>, i: int, j: int)
    requires
        0 <= i <= j <= s.len(),
        forall|k: int| i <= k < j ==> letter_or_digit(#[trigger] s[k]),
        j == s.len() || !letter_or_digit(s[j]),
    ensures
        alnum_end(s, i) == j,
    decreases j - i,
{
    if i < j {
        lemma_alnum_end_is(s, i + 1, j);
    }
}

/// A token starts at `i`: a run of letters and digits begins there, or a
/// character of its own stands there.
pub open spec fn token_start(s: Seq<char>, i: int) -> bool {
    &&& 0 <= i < s.len()
    &&& {
        ||| letter_or_digit(s[i]) && (i == 0 || !letter_or_digit(s[i - 1]))
        ||| (s[i] as u32) >= 0x2e80 && !is_ws(s[i])
    }
}

proof fn lemma_run_token_reached(s: Seq<char>, p: int, i: int)
    requires
        0 <= p <= i,
        token_start(s, i),
    ensures
        exists|k: int| 0 <= k < tokens_from(s, p).len() && #[trigger] tokens_from(s, p)[k] == tokens_from(s, i)[0],
        tokens_from(s, i).len() > 0,
    decreases i - p,
{
    lemma_alnum_end(s, i);
    if p == i {
        assert(tokens_from(s, p)[0] == tokens_from(s, i)[0]);
    } else {
        let t = tokens_from(s, p);
        if is_ascii_alnum(s[p]) {
            lemma_alnum_end(s, p);
            let e = alnum_end(s, p);
            if e > i {
                assert(is_ascii_alnum(s[i]));
                assert(is_ascii_alnum(s[i - 1]));
            }
            lemma_run_token_reached(s, e, i);
            let rest = tokens_from(s, e);
            let k = choose|k: int| 0 <= k < rest.len() && #[trigger] rest[k] == tokens_from(s, i)[0];
            assert(t[k + 1] == rest[k]);
        } else if is_cjk(s[p]) {
            lemma_run_token_reached(s, p + 1, i);
            let rest = tokens_from(s, p + 1);
            let k = choose|k: int| 0 <= k < rest.len() && #[trigger] rest[k] == tokens_from(s, i)[0];
            assert(t[k + 1] == rest[k]);
        } else {
            lemma_run_token_reached(s, p + 1, i);
        }
    }
}

/// Every maximal run of ASCII letters and digits, whatever its first
/// character, is a token: its byte range is the run's and its text is the
/// run with capitals lowered.
pub proof fn law_alnum_run_is_a_token(s: Seq<char>, i: int, j: int)
    requires
        0 <= i < j <= s.len(),
        forall|k: int| i <= k < j ==> letter_or_digit(#[trigger] s[k]),
        i == 0 || !letter_or_digit(s[i - 1]),
        j == s.len() || !letter_or_digit(s[j]),
    ensures
        exists|k: int|
            0 <= k < cjk_tokens(s).len() && {
                let t = #[trigger] cjk_tokens(s)[k];
                &&& t.0 == byte_len(s.take(i))
                &&& t.1 == byte_len(s.take(j))
                &&& t.2.len() == j - i
                &&& forall|q: int| 0 <= q < j - i ==> t.2[q] == ascii_downcase(s[i + q])
            },
{
    lemma_alnum_end_is(s, i, j);
    assert(token_start(s, i));
    lemma_run_token_reached(s, 0, i);
    let t0 = tokens_from(s, i)[0];
    assert(t0.2 == lower_run(s.subrange(i, j)));
    assert forall|q: int| 0 <= q < j - i implies t0.2[q] == ascii_downcase(s[i + q]) by {
        assert(s.subrange(i, j)[q] == s[i + q]);
    }
    let k = choose|k: int| 0 <= k < tokens_from(s, 0).len() && #[trigger] tokens_from(s, 0)[k] == tokens_from(s, i)[0];
    assert(cjk_tokens(s)[k] == t0);
}

/// Every character from U+2E80 on that is not whitespace (the CJK range) is
/// a token of its own: its byte range is the character's and its text the
/// character in lower case.
pub proof fn law_cjk_char_is_a_token(s: Seq<char>, i: int)
    requires
        0 <= i < s.len(),
        (s[i] as u32) >= 0x2e80,
        !is_ws(s[i]),
    ensures
        exists|k: int|
            0 <= k < cjk_tokens(s).len() && #[trigger] cjk_tokens(s)[k] == (
                byte_len(s.take(i)) as int,
                byte_len(s.take(i + 1)) as int,
                char_lowercase(s[i]),
            ),
{
    assert(token_start(s, i));
    lemma_run_token_reached(s, 0, i);
    let k = choose|k: int| 0 <= k < tokens_from(s, 0).len() && #[trigger] tokens_from(s, 0)[k] == tokens_from(s, i)[0];
    assert(cjk_tokens(s)[k] == tokens_from(s, i)[0]);
}

/// `t` is the token of a maximal run of letters and digits of `s`.
#[verifier::opaque]
pub open spec fn run_token(s: Seq<char>, t: SpecToken) -> bool {
    exists|i: int, j: int|
        #![trigger s.take(i), s.take(j)]
        0 <= i < j <= s.len() && (forall|k: int| i <= k < j ==> letter_or_digit(#[trigger] s[k]))
            && (i == 0 || !letter_or_digit(s[i - 1])) && (j == s.len() || !letter_or_digit(s[j]))
            && t.0 == byte_len(s.take(i)) && t.1 == byte_len(s.take(j)) && t.2.len() == j - i
            && (forall|q: int| 0 <= q < j - i ==> #[trigger] t.2[q] == ascii_downcase(s[i + q]))
}

/// `t` is the token of a single character of `s` from U+2E80 on.
#[verifier::opaque]
pub open spec fn char_token(s: Seq<char>, t: SpecToken) -> bool {
    exists|i: int|
        #![trigger s.take(i)]
        0 <= i < s.len() && (s[i] as u32) >= 0x2e80 && !is_ws(s[i]) && t == (
            byte_len(s.take(i)) as int,
            byte_len(s.take(i + 1)) as int,
            char_lowercase(s[i]),
        )
}

proof fn lemma_first_run_token(s: Seq<char>, p: int)
    requires
        0 <= p < s.len(),
        is_ascii_alnum(s[p]),
        p == 0 || !letter_or_digit(s[p - 1]),
    ensures
        tokens_from(s, p).len() > 0,
        run_token(s, tokens_from(s, p)[0]),
        tokens_from(s, p).drop_first() == tokens_from(s, alnum_end(s, p)),
        p < alnum_end(s, p) <= s.len(),
{
    lemma_alnum_end(s, p);
    let j = alnum_end(s, p);
    let t = tokens_from(s, p);
    let t0 = t[0];
    assert(t0.2 == lower_run(s.subrange(p, j)));
    assert forall|q: int| 0 <= q < j - p implies #[trigger] t0.2[q] == ascii_downcase(s[p + q]) by {
        assert(s.subrange(p, j)[q] == s[p + q]);
    }
    assert(s.take(p) == s.take(p) && s.take(j) == s.take(j));
    assert(t.drop_first() =~= tokens_from(s, j));
    reveal(run_token);
}

proof fn lemma_first_char_token(s: Seq<char>, p: int)
    requires
        0 <= p < s.len(),
        !is_ascii_alnum(s[p]),
        is_cjk(s[p]),
    ensures
        tokens_from(s, p).len() > 0,
        char_token(s, tokens_from(s, p)[0]),
        tokens_from(s, p).drop_first() == tokens_from(s, p + 1),
{
    let t = tokens_from(s, p);
    assert(s.take(p) == s.take(p));
    assert(t.drop_first() =~= tokens_from(s, p + 1));
    reveal(char_token);
}

proof fn lemma_tokens_are_runs_or_chars(s: Seq<char>, p: int)
    requires
        0 <= p <= s.len(),
        p == 0 || p == s.len() || !letter_or_digit(s[p - 1]) || !letter_or_digit(s[p]),
    ensures
        forall|k: int|
            0 <= k < tokens_from(s, p).len() ==> run_token(s, #[trigger] tokens_from(s, p)[k])
                || char_token(s, tokens_from(s, p)[k]),
    decreases s.len() - p,
{
    if p < s.len() {
        let t = tokens_from(s, p);
        if is_ascii_alnum(s[p]) {
            lemma_first_run_token(s, p);
            let j = alnum_end(s, p);
            lemma_alnum_end(s, p);
            lemma_tokens_are_runs_or_chars(s, j);
            assert forall|k: int| 0 <= k < t.len() implies run_token(s, #[trigger] t[k]) || char_token(s, t[k]) by {
                if k > 0 {
                    assert(t[k] == t.drop_first()[k - 1]);
                }
            }
        } else if is_cjk(s[p]) {
            lemma_first_char_token(s, p);
            lemma_tokens_are_runs_or_chars(s, p + 1);
            assert forall|k: int| 0 <= k < t.len() implies run_token(s, #[trigger] t[k]) || char_token(s, t[k]) by {
                if k > 0 {
                    assert(t[k] == t.drop_first()[k - 1]);
                }
            }
        } else {
            lemma_tokens_are_runs_or_chars(s, p + 1);
            assert(t == tokens_from(s, p + 1));
        }
    }
}

/// Nothing else is a token: each token of a text is the token of a maximal
/// run of ASCII letters and digits or of a single character from U+2E80 on.
pub proof fn law_tokens_are_runs_or_chars(s: Seq<char>)
    ensures
        forall|k: int|
            0 <= k < cjk_tokens(s).len() ==> run_token(s, #[trigger] cjk_tokens(s)[k]) || char_token(
                s,
                cjk_tokens(s)[k],
            ),
{
    lemma_tokens_are_runs_or_chars(s, 0);
}

/// Once the stream reports no further token, the tokens it handed out are
/// exactly the tokenization of the whole text, in order.
pub proof fn law_stream_yields_all_tokens(st: CjkTokenStream)
    requires
        st.wf(),
        st.remaining().len() == 0,
    ensures
        st.consumed() == cjk_tokens(st.chars()),
{
    assert(st.consumed() + st.remaining() =~= st.consumed());
}

// ---------------------------------------------------------------------------
// Document ids and the content budget
// ---------------------------------------------------------------------------

/// Batch id given to documents that never belonged to an explicit import
/// batch (files re-indexed by the watcher).
pub const DEFAULT_BATCH: &'static str = "default";

/// Most characters of one file's content that go into the index; the rest
/// is skipped (the file stays indexed by its metadata).
pub const MAX_INDEX_CHARS: usize = 2_000_000;

/// Index writer heap budget in bytes.
pub const WRITER_HEAP_BYTES: usize = 64_000_000;

/// The indexed part of `text`: its first [`MAX_INDEX_CHARS`] characters,
/// cut on a character boundary.
pub fn truncate_indexed(text: &str) -> (r: &str)
    ensures
        r@ == text@.take(if text@.len() > MAX_INDEX_CHARS {
            MAX_INDEX_CHARS as int
        } else {
            text@.len() as int
        }),
{
    let ghost s = text@;
    let n = text.as_bytes().len();
    let mut bi: usize = 0;
    let mut k: usize = 0;
    proof {
        assert(s.take(0) =~= Seq::<char>::empty());
        lemma_byte_len_mono(s, 0, s.len() as int);
    }
    while k < MAX_INDEX_CHARS && bi < n
        invariant
            text@ == s,
            n == byte_len(s),
            0 <= k <= s.len(),
            k <= MAX_INDEX_CHARS,
            bi == byte_len(s.take(k as int)),
            bi < n ==> k < s.len(),
        decreases MAX_INDEX_CHARS - k,
    {
        let c = char_at_byte(text, Ghost(k as int), bi);
        proof {
            lemma_byte_len_step(s, k as int);
            lemma_byte_len_mono(s, k + 1, s.len() as int);
            if k + 1 == s.len() {
                assert(s.take(k + 1) =~= s);
            }
        }
        bi = bi + utf8_width_exec(c);
        k = k + 1;
    }
    proof {
        if bi >= n && k < s.len() {
            lemma_byte_len_step(s, k as int);
            lemma_byte_len_mono(s, k + 1, s.len() as int);
            assert(false);
        }
        if k < MAX_INDEX_CHARS {
            assert(k == s.len());
        }
    }
    str_prefix(text, Ghost(k as int), bi)
}

/// The SHA-256 digest of `data`.
pub uninterp spec fn sha256_digest(data: Seq<u8>) -> Seq<u8>;

/// `sha2::Sha256` over `data`: the 32-byte digest.
#[verifier::external_body]
fn sha256(data: &[u8]) -> (r: Vec<u8>)
    ensures
        r@ == sha256_digest(data@),
        r@.len() == 32,
{
    sha2::Sha256::digest(data).to_vec()
}

/// The lowercase hexadecimal digit for `d < 16`.
pub open spec fn hex_digit(d: nat) -> char {
    if d < 10 {
        ((d + 48) as u32) as char
    } else {
        ((d + 87) as u32) as char
    }
}

/// Two lowercase hex digits per byte (`{:02x}` for each byte, in order).
pub open spec fn hex_lower(bytes: Seq<u8>) -> Seq<char>
    decreases bytes.len(),
{
    if bytes.len() == 0 {
        Seq::empty()
    } else {
        hex_lower(bytes.drop_last()) + seq![
            hex_digit((bytes.last() / 16) as nat),
            hex_digit((bytes.last() % 16) as nat),
        ]
    }
}

fn hex_digit_exec(d: u8) -> (c: char)
    requires
        d < 16,
    ensures
        c == hex_digit(d as nat),
{
    let b: u8 = if d < 10 {
        48 + d
    } else {
        87 + d
    };
    let c = b as char;
    proof {
        vstd::utf8::char_u32_cast(c, b as u32);
    }
    c
}

/// A stable document id derived from the file path: the lowercase hex
/// SHA-256 of the path's UTF-8 bytes.
pub fn id_of(path: &str) -> (id: String)
    ensures
        id@ == hex_lower(sha256_digest(vstd::utf8::encode_utf8(path@))),
        id@.len() == 64,
{
    let digest = sha256(path.as_bytes());
    let mut id = String::new();
    let mut i: usize = 0;
    while i < digest.len()
        invariant
            i <= digest.len(),
            digest@.len() == 32,
            id@ == hex_lower(digest@.take(i as int)),
            id@.len() == 2 * i,
        decreases digest.len() - i,
    {
        let b = digest[i];
        push_char(&mut id, hex_digit_exec(b / 16));
        push_char(&mut id, hex_digit_exec(b % 16));
        proof {
            assert(digest@.take(i + 1).drop_last() =~= digest@.take(i as int));
            assert(digest@.take(i + 1).last() == b);
            assert(id@ =~= hex_lower(digest@.take(i + 1)));
        }
        i = i + 1;
    }
    assert(digest@.take(32) =~= digest@);
    id
}

/// What one file contributes to the index: its id (path hash), path, name,
/// extension, batch, size, modification time, and the indexed part of its
/// content when it has any.
pub struct IndexedDoc {
    pub id: String,
    pub path: String,
    pub name: String,
    pub content: Option<String>,
    pub ext: String,
    pub batch_id: String,
    pub size: u64,
    pub mtime: u64,
}

/// The document for file `fe` with extracted `content`, in batch
/// `batch_id`.
pub fn index_document(fe: &FileEntry, content: Option<&str>, batch_id: &str) -> (d: IndexedDoc)
    ensures
        d.id@ == hex_lower(sha256_digest(vstd::utf8::encode_utf8(fe.path@))),
        d.path@ == fe.path@,
        d.name@ == fe.name@,
        d.ext@ == fe.ext@,
        d.batch_id@ == batch_id@,
        d.size == fe.size,
        d.mtime == fe.mtime,
        d.content is Some <==> content is Some,
        content matches Some(t) ==> d.content matches Some(c) && c@ == t@.take(
            if t@.len() > MAX_INDEX_CHARS {
                MAX_INDEX_CHARS as int
            } else {
                t@.len() as int
            },
        ),
{
    let indexed = match content {
        Some(t) => Some(truncate_indexed(t).to_owned()),
        None => None,
    };
    IndexedDoc {
        id: id_of(fe.path.as_str()),
        path: fe.path.clone(),
        name: fe.name.clone(),
        content: indexed,
        ext: fe.ext.clone(),
        batch_id: batch_id.to_owned(),
        size: fe.size,
        mtime: fe.mtime,
    }
}

/// The batch a re-indexed file keeps: the one it had, else [`DEFAULT_BATCH`].
pub fn batch_or_default(current: Option<String>) -> (b: String)
    ensures
        b@ == match current {
            Some(c) => c@,
            None => DEFAULT_BATCH@,
        },
{
    match current {
        Some(c) => c,
        None => DEFAULT_BATCH.to_owned(),
    }
}

} // verus!
