//! Detection rules. A rule is either a `regex` pattern or a set of literal
//! keywords separated by `|`; its scope says whether it inspects file names,
//! file content, or both.
use vstd::prelude::*;
use crate::text::{
    first_occurrence, index_from, lemma_index_from, split_on, str_contains, trim_range, trim_ws,
    utf8, chars_of, string_of, push_str,
};

verus! {

/// A single detection rule.
pub struct Rule {
    pub id: String,
    pub name: String,
    pub pattern: String,
    pub rule_type: String,
    pub risk_level: String,
    pub scope: Vec<String>,
}

/// A collection of rules.
pub struct RuleSet {
    pub rules: Vec<Rule>,
}

/// `a` holds exactly the characters of the literal `lit`.
fn is_literal(a: &String, lit: &str) -> (b: bool)
    ensures
        b == (a@ == lit@),
{
    let l = lit.to_owned();
    a.eq(&l)
}

impl Rule {
    /// The scope lists `content`.
    pub open spec fn spec_scans_content(&self) -> bool {
        exists|i: int| 0 <= i < self.scope.len() && #[trigger] self.scope[i]@ == "content"@
    }

    /// The scope lists `filename` or `name`.
    pub open spec fn spec_scans_filename(&self) -> bool {
        exists|i: int|
            0 <= i < self.scope.len() && (#[trigger] self.scope[i]@ == "filename"@
                || self.scope[i]@ == "name"@)
    }

    /// Whether this rule inspects file content.
    pub fn scans_content(&self) -> (b: bool)
        ensures
            b == self.spec_scans_content(),
    {
        let mut i: usize = 0;
        while i < self.scope.len()
            invariant
                i <= self.scope.len(),
                forall|k: int| 0 <= k < i ==> #[trigger] self.scope[k]@ != "content"@,
            decreases self.scope.len() - i,
        {
            if is_literal(&self.scope[i], "content") {
                return true;
            }
            i = i + 1;
        }
        false
    }

    /// Whether this rule inspects file names.
    pub fn scans_filename(&self) -> (b: bool)
        ensures
            b == self.spec_scans_filename(),
    {
        let mut i: usize = 0;
        while i < self.scope.len()
            invariant
                i <= self.scope.len(),
                forall|k: int|
                    0 <= k < i ==> #[trigger] self.scope[k]@ != "filename"@ && self.scope[k]@
                        != "name"@,
            decreases self.scope.len() - i,
        {
            if is_literal(&self.scope[i], "filename") || is_literal(&self.scope[i], "name") {
                return true;
            }
            i = i + 1;
        }
        false
    }
}

// ---------------------------------------------------------------------------
// Keyword rules
// ---------------------------------------------------------------------------

/// The first keyword (pieces trimmed, empty ones skipped) that occurs in
/// `text`.
pub open spec fn keyword_hit(pieces: Seq<Seq<char>>, text: Seq<char>) -> Option<Seq<char>>
    decreases pieces.len(),
{
    if pieces.len() == 0 {
        None
    } else {
        let kw = trim_ws(pieces[0]);
        if kw.len() > 0 && first_occurrence(utf8(text), utf8(kw)) is Some {
            Some(kw)
        } else {
            keyword_hit(pieces.drop_first(), text)
        }
    }
}

proof fn lemma_split_step(s: Seq<char>, st: int, i: int)
    requires
        0 <= st <= i < s.len(),
        s[i] == '|',
        forall|q: int| st <= q < i ==> s[q] != '|',
    ensures
        split_on(s.skip(st), '|') == seq![s.subrange(st, i)] + split_on(s.skip(i + 1), '|'),
{
    let t = s.skip(st);
    lemma_index_from(t, '|', 0);
    assert(t[i - st] == '|');
    assert(index_from(t, '|', 0) == Some(i - st)) by {
        match index_from(t, '|', 0) {
            Some(k) => {
                if k < i - st {
                    assert(t[k] == s[st + k]);
                } else if k > i - st {
                }
            },
            None => {},
        }
    }
    assert(t.take(i - st) =~= s.subrange(st, i));
    assert(t.skip(i - st + 1) =~= s.skip(i + 1));
}

proof fn lemma_split_last(s: Seq<char>, st: int)
    requires
        0 <= st <= s.len(),
        forall|q: int| st <= q < s.len() ==> s[q] != '|',
    ensures
        split_on(s.skip(st), '|') == seq![s.skip(st)],
{
    let t = s.skip(st);
    lemma_index_from(t, '|', 0);
    match index_from(t, '|', 0) {
        Some(k) => {
            assert(t[k] == s[st + k]);
        },
        None => {},
    }
}

/// First keyword of a `|`-separated keyword list that occurs in `text`.
fn first_keyword(pattern: &Vec<char>, text: &str) -> (r: Option<String>)
    ensures
        match r {
            Some(m) => keyword_hit(split_on(pattern@, '|'), text@) == Some(m@),
            None => keyword_hit(split_on(pattern@, '|'), text@) is None,
        },
{
    let n = pattern.len();
    let mut st: usize = 0;
    let mut i: usize = 0;
    proof {
        assert(pattern@.skip(0) =~= pattern@);
    }
    while i <= n
        invariant
            st <= i <= n,
            n == pattern.len(),
            forall|q: int| st <= q < i && q < n ==> pattern@[q] != '|',
            keyword_hit(split_on(pattern@.skip(st as int), '|'), text@) == keyword_hit(
                split_on(pattern@, '|'),
                text@,
            ),
        decreases n + 1 - i,
    {
        if i == n || pattern[i] == '|' {
            let kw = trim_range(pattern, st, i);
            let ghost pieces = split_on(pattern@.skip(st as int), '|');
            proof {
                if i == n {
                    lemma_split_last(pattern@, st as int);
                    assert(pattern@.skip(st as int) =~= pattern@.subrange(st as int, n as int));
                } else {
                    lemma_split_step(pattern@, st as int, i as int);
                }
                assert(pieces[0] =~= pattern@.subrange(st as int, i as int));
            }
            if kw.len() > 0 {
                let kws = string_of(kw.as_slice());
                if str_contains(text, kws.as_str()) {
                    return Some(kws);
                }
            }
            if i == n {
                proof {
                    assert(pieces.drop_first() =~= Seq::<Seq<char>>::empty());
                    assert(keyword_hit(Seq::<Seq<char>>::empty(), text@) is None);
                }
                return None;
            }
            proof {
                assert(pieces.drop_first() =~= split_on(pattern@.skip(i + 1), '|'));
            }
            st = i + 1;
        }
        i = i + 1;
    }
    None
}

// ---------------------------------------------------------------------------
// Regex rules
// ---------------------------------------------------------------------------

#[verifier::external_type_specification]
#[verifier::external_body]
pub struct ExRegex(regex::Regex);

/// `regex::Regex::new` accepts `pattern`.
pub uninterp spec fn regex_compiles(pattern: Seq<char>) -> bool;

/// The error text `regex::Regex::new` reports for `pattern`.
pub uninterp spec fn regex_error(pattern: Seq<char>) -> Seq<char>;

/// The leftmost-first match of `pattern` in `text`, as `Regex::find` reports it.
pub uninterp spec fn regex_first_match(pattern: Seq<char>, text: Seq<char>) -> Option<Seq<char>>;

/// `regex::Regex::new`, with the error rendered through `Display`. Whether
/// the pattern compiles and the error text are named, not spelled out.
#[verifier::external_body]
fn regex_new(pattern: &str) -> (r: Result<regex::Regex, String>)
    ensures
        r is Ok == regex_compiles(pattern@),
        r matches Err(e) ==> e@ == regex_error(pattern@),
{
    regex::Regex::new(pattern).map_err(|e| e.to_string())
}

/// A regex together with the pattern it was compiled from. The fields are
/// private: the only way to make one is [`compile_regex`], which compiles
/// the regex from exactly this pattern.
pub struct CompiledRegex {
    pattern: String,
    re: regex::Regex,
}

impl CompiledRegex {
    /// The pattern the regex was compiled from.
    pub closed spec fn pattern(&self) -> Seq<char> {
        self.pattern@
    }
}

/// `Regex::find` on `text`, returning the matched text. The regex was
/// compiled from `cr`'s pattern (see [`CompiledRegex`]), so the match is
/// named by that pattern and the text; `find` only ever returns a piece of
/// the haystack.
#[verifier::external_body]
pub(crate) fn regex_find(cr: &CompiledRegex, text: &str) -> (r: Option<String>)
    ensures
        match r {
            Some(m) => regex_first_match(cr.pattern(), text@) == Some(m@),
            None => regex_first_match(cr.pattern(), text@) is None,
        },
        r matches Some(m) ==> first_occurrence(utf8(text@), utf8(m@)) is Some,
{
    match cr.re.find(text) {
        Some(m) => Some(m.as_str().to_string()),
        None => None,
    }
}

/// The message for an invalid pattern: it quotes the pattern and the
/// regex error, so the user can find the broken rule.
pub open spec fn invalid_regex_message(pattern: Seq<char>) -> Seq<char> {
    "正则表达式无效 `"@ + pattern + "`："@ + regex_error(pattern)
}

/// Compile the regex for `pattern`, or explain why it is invalid.
pub fn compile_regex(pattern: &str) -> (r: Result<CompiledRegex, String>)
    ensures
        match r {
            Ok(c) => regex_compiles(pattern@) && c.pattern() == pattern@,
            Err(e) => !regex_compiles(pattern@) && e@ == invalid_regex_message(pattern@),
        },
{
    match regex_new(pattern) {
        Ok(re) => Ok(CompiledRegex { pattern: pattern.to_owned(), re }),
        Err(e) => {
            let mut msg = String::new();
            push_str(&mut msg, "正则表达式无效 `");
            push_str(&mut msg, pattern);
            push_str(&mut msg, "`：");
            push_str(&mut msg, e.as_str());
            proof {
                assert(msg@ =~= invalid_regex_message(pattern@));
            }
            Err(msg)
        },
    }
}

// ---------------------------------------------------------------------------
// Compiled rules
// ---------------------------------------------------------------------------

/// The rule is a regex rule.
pub open spec fn is_regex_rule(rule: Rule) -> bool {
    rule.rule_type@ == "regex"@
}

/// What a rule finds in `text`: the regex's first match for regex rules,
/// else the first of its keywords that occurs in `text`.
pub open spec fn rule_first_match(rule: Rule, text: Seq<char>) -> Option<Seq<char>> {
    if is_regex_rule(rule) {
        regex_first_match(rule.pattern@, text)
    } else {
        keyword_hit(split_on(rule.pattern@, '|'), text)
    }
}

/// A rule with its regex compiled once, ready to scan many files.
pub struct CompiledRule {
    rule: Rule,
    re: Option<CompiledRegex>,
}

impl CompiledRule {
    /// The rule this was compiled from.
    pub closed spec fn spec_rule(&self) -> Rule {
        self.rule
    }

    /// The regex is present exactly for regex rules and was compiled from
    /// the rule's pattern. Every compiled rule keeps this.
    #[verifier::type_invariant]
    closed spec fn wf(&self) -> bool {
        &&& (self.re is Some <==> is_regex_rule(self.rule))
        &&& (self.re matches Some(c) ==> c.pattern() == self.rule.pattern@)
    }

    /// Compile one rule; a regex rule with an invalid pattern fails with a
    /// message that names the pattern.
    pub fn compile(rule: Rule) -> (r: Result<Self, String>)
        ensures
            match r {
                Ok(c) => c.spec_rule() == rule && (is_regex_rule(rule) ==> regex_compiles(
                    rule.pattern@,
                )),
                Err(e) => is_regex_rule(rule) && !regex_compiles(rule.pattern@) && e@
                    == invalid_regex_message(rule.pattern@),
            },
    {
        if is_literal(&rule.rule_type, "regex") {
            match compile_regex(rule.pattern.as_str()) {
                Ok(c) => Ok(CompiledRule { rule, re: Some(c) }),
                Err(e) => Err(e),
            }
        } else {
            Ok(CompiledRule { rule, re: None })
        }
    }

    /// The first fragment of `text` this rule matches, if any.
    pub fn first_match(&self, text: &str) -> (r: Option<String>)
        ensures
            match r {
                Some(m) => rule_first_match(self.spec_rule(), text@) == Some(m@),
                None => rule_first_match(self.spec_rule(), text@) is None,
            },
    {
        proof {
            use_type_invariant(self);
        }
        match &self.re {
            Some(c) => regex_find(c, text),
            None => {
                let p = chars_of(self.rule.pattern.as_str());
                first_keyword(&p, text)
            },
        }
    }

    /// The rule this was compiled from.
    pub fn rule(&self) -> (r: &Rule)
        ensures
            *r == self.spec_rule(),
    {
        &self.rule
    }

    /// Whether this rule inspects file content.
    pub fn scans_content(&self) -> (b: bool)
        ensures
            b == self.spec_rule().spec_scans_content(),
    {
        self.rule.scans_content()
    }

    /// Whether this rule inspects file names.
    pub fn scans_filename(&self) -> (b: bool)
        ensures
            b == self.spec_rule().spec_scans_filename(),
    {
        self.rule.scans_filename()
    }
}

/// Index of the first regex rule whose pattern does not compile.
pub open spec fn first_invalid_rule(rules: Seq<Rule>, i: int) -> Option<int>
    decreases rules.len() - i,
{
    if i < 0 || i >= rules.len() {
        None
    } else if is_regex_rule(rules[i]) && !regex_compiles(rules[i].pattern@) {
        Some(i)
    } else {
        first_invalid_rule(rules, i + 1)
    }
}

/// Compile a whole rule set, in order; the first invalid regex aborts with
/// its message.
#[verifier::loop_isolation(false)]
pub fn compile_rules(rules: Vec<Rule>) -> (r: Result<Vec<CompiledRule>, String>)
    ensures
        r is Ok <==> first_invalid_rule(rules@, 0) is None,
        r matches Ok(v) ==> v.len() == rules.len() && forall|i: int|
            0 <= i < v.len() ==> (#[trigger] v[i]).spec_rule() == rules@[i],
        r matches Err(e) ==> (first_invalid_rule(rules@, 0) matches Some(k) && e@
            == invalid_regex_message(rules@[k].pattern@)),
{
    let ghost all = rules@;
    let mut rules = rules;
    let mut out: Vec<CompiledRule> = Vec::new();
    while rules.len() > 0
        invariant
            out.len() + rules.len() == all.len(),
            rules@ == all.skip(out.len() as int),
            forall|i: int| 0 <= i < out.len() ==> (#[trigger] out[i]).spec_rule() == all[i],
            first_invalid_rule(all, out.len() as int) == first_invalid_rule(all, 0),
        decreases rules.len(),
    {
        let ghost k = out.len() as int;
        assert(0 <= k < all.len());
        let rule = rules.remove(0);
        proof {
            assert(rule == all[k]);
            assert(rules@ =~= all.skip(k + 1));
        }
        match CompiledRule::compile(rule) {
            Ok(c) => {
                proof {
                    assert(first_invalid_rule(all, k) == first_invalid_rule(all, k + 1));
                }
                out.push(c);
            },
            Err(e) => {
                proof {
                    assert(first_invalid_rule(all, k) == Some(k));
                }
                return Err(e);
            },
        }
    }
    proof {
        assert(first_invalid_rule(all, out.len() as int) is None);
    }
    Ok(out)
}

/// The rules in effect: the user's saved set when there is one, else the
/// built-in defaults.
pub fn load_rules(stored: Option<RuleSet>, defaults: RuleSet) -> (r: Vec<Rule>)
    ensures
        r@ == (match stored {
            Some(set) => set.rules@,
            None => defaults.rules@,
        }),
{
    match stored {
        Some(set) => set.rules,
        None => defaults.rules,
    }
}

/// The value that is persisted for a user rule list.
pub fn save_rules(rules: Vec<Rule>) -> (set: RuleSet)
    ensures
        set.rules@ == rules@,
{
    RuleSet { rules }
}

/// A keyword rule only ever reports one of its own keywords, trimmed and
/// non-empty, and only when that keyword occurs in the scanned text.
pub proof fn law_keyword_hit_is_present_keyword(pieces: Seq<Seq<char>>, text: Seq<char>)
    ensures
        keyword_hit(pieces, text) matches Some(kw) ==> {
            &&& kw.len() > 0
            &&& first_occurrence(utf8(text), utf8(kw)) is Some
            &&& exists|i: int| 0 <= i < pieces.len() && kw == trim_ws(#[trigger] pieces[i])
        },
    decreases pieces.len(),
{
    if pieces.len() > 0 {
        let kw = trim_ws(pieces[0]);
        if !(kw.len() > 0 && first_occurrence(utf8(text), utf8(kw)) is Some) {
            law_keyword_hit_is_present_keyword(pieces.drop_first(), text);
            if let Some(k) = keyword_hit(pieces, text) {
                let i = choose|i: int| 0 <= i < pieces.drop_first().len() && k == trim_ws(
                    #[trigger] pieces.drop_first()[i],
                );
                assert(pieces[i + 1] == pieces.drop_first()[i]);
            }
        }
    }
}

/// A keyword rule misses nothing: when one of its keywords (trimmed,
/// non-empty) occurs in the text, the rule reports a hit.
pub proof fn law_present_keyword_is_hit(pieces: Seq<Seq<char>>, text: Seq<char>, i: int)
    requires
        0 <= i < pieces.len(),
        trim_ws(pieces[i]).len() > 0,
        first_occurrence(utf8(text), utf8(trim_ws(pieces[i]))) is Some,
    ensures
        keyword_hit(pieces, text) is Some,
    decreases pieces.len(),
{
    let kw = trim_ws(pieces[0]);
    if !(kw.len() > 0 && first_occurrence(utf8(text), utf8(kw)) is Some) {
        assert(i > 0);
        assert(pieces.drop_first()[i - 1] == pieces[i]);
        law_present_keyword_is_hit(pieces.drop_first(), text, i - 1);
    }
}

} // verus!
