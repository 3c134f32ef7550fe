//! Per-file sensitive scan: checks a file's name and (optionally) its
//! extracted content against the active rules and produces a flat list of
//! hits.
use vstd::prelude::*;
use crate::engine::sensitive::rules::{CompiledRule, Rule, rule_first_match};
use crate::text::{floor_boundary, floor_char_boundary, first_occurrence, push_str, slice_bytes, str_find, str_lowercase, str_to_lowercase, utf8, lemma_floor_mono, lemma_occurrence_from};

verus! {

/// One detected hit.
pub struct Hit {
    pub path: String,
    pub file_name: String,
    pub rule_id: String,
    pub rule_name: String,
    pub rule_type: String,
    pub risk_level: String,
    /// Where the match was found: `filename` or `content`.
    pub match_type: String,
    /// The matched fragment (or the text around it for content matches).
    pub matched: String,
    pub file_size: u64,
    pub mtime: u64,
}

/// A hit as plain values.
pub struct HitView {
    pub path: Seq<char>,
    pub file_name: Seq<char>,
    pub rule_id: Seq<char>,
    pub rule_name: Seq<char>,
    pub rule_type: Seq<char>,
    pub risk_level: Seq<char>,
    pub match_type: Seq<char>,
    pub matched: Seq<char>,
    pub file_size: u64,
    pub mtime: u64,
}

impl View for Hit {
    type V = HitView;

    open spec fn view(&self) -> HitView {
        HitView {
            path: self.path@,
            file_name: self.file_name@,
            rule_id: self.rule_id@,
            rule_name: self.rule_name@,
            rule_type: self.rule_type@,
            risk_level: self.risk_level@,
            match_type: self.match_type@,
            matched: self.matched@,
            file_size: self.file_size,
            mtime: self.mtime,
        }
    }
}

/// The hit reported for `rule` on file `path`.
pub open spec fn hit_of(
    path: Seq<char>,
    name: Seq<char>,
    rule: Rule,
    match_type: Seq<char>,
    matched: Seq<char>,
    file_size: u64,
    mtime: u64,
) -> HitView {
    HitView {
        path,
        file_name: name,
        rule_id: rule.id@,
        rule_name: rule.name@,
        rule_type: rule.rule_type@,
        risk_level: rule.risk_level@,
        match_type,
        matched,
        file_size,
        mtime,
    }
}

fn build_hit(
    path: &str,
    name: &str,
    rule: &Rule,
    match_type: &str,
    matched: String,
    file_size: u64,
    mtime: u64,
) -> (h: Hit)
    ensures
        h@ == hit_of(path@, name@, *rule, match_type@, matched@, file_size, mtime),
{
    Hit {
        path: path.to_owned(),
        file_name: name.to_owned(),
        rule_id: rule.id.clone(),
        rule_name: rule.name.clone(),
        rule_type: rule.rule_type.clone(),
        risk_level: rule.risk_level.clone(),
        match_type: match_type.to_owned(),
        matched,
        file_size,
        mtime,
    }
}

/// Bytes of context kept on each side of a content match.
pub const SNIPPET_HALF_WINDOW: usize = 40;

/// The text shown for a content match: the first case-insensitive
/// occurrence of `needle` in `text` with up to 40 bytes on each side, both
/// ends moved down to character boundaries, and `…` in front when the window
/// does not start at the beginning. Without an occurrence, the needle itself.
pub open spec fn snippet_around_spec(text: Seq<char>, needle: Seq<char>) -> Seq<char> {
    let lower = str_lowercase(text);
    let n = str_lowercase(needle);
    match first_occurrence(utf8(lower), utf8(n)) {
        None => needle,
        Some(pos) => {
            let b = utf8(text);
            let from_raw = if pos >= 40 { pos - 40 } else { 0 };
            let from = floor_boundary(b, if from_raw < b.len() { from_raw } else { b.len() as int });
            let end_raw = pos + utf8(n).len() + 40;
            let to = floor_boundary(b, if end_raw < b.len() { end_raw } else { b.len() as int });
            (if from > 0 { seq!['…'] } else { Seq::empty() }) + vstd::utf8::decode_utf8(
                b.subrange(from, to),
            )
        },
    }
}

/// Show a short window of `text` around `needle` for the report.
fn snippet_around(text: &str, needle: &str) -> (s: String)
    ensures
        s@ == snippet_around_spec(text@, needle@),
{
    let lower = str_to_lowercase(text);
    let n = str_to_lowercase(needle);
    match str_find(lower.as_str(), n.as_str()) {
        None => needle.to_owned(),
        Some(pos) => {
            let len = text.as_bytes().len();
            let nlen = n.as_str().as_bytes().len();
            let ghost b = utf8(text@);
            proof {
                vstd::utf8::encode_utf8_valid_utf8(text@);
                let ln = utf8(lower@);
                lemma_occurrence_from(ln, utf8(n@), 0);
                assert(pos + nlen <= ln.len());
            }
            let lower_len = lower.as_str().as_bytes().len();
            let from_raw = if pos >= 40 {
                pos - 40
            } else {
                0
            };
            let from = floor_char_boundary(text, if from_raw < len {
                from_raw
            } else {
                len
            });
            let end_raw: usize = if pos + nlen > usize::MAX - 40 {
                usize::MAX
            } else {
                pos + nlen + 40
            };
            proof {
                // `pos + nlen <= lower_len`, so saturation never cuts below `len`
                // when it matters: a saturated end is past the text anyway.
                assert(pos + nlen <= lower_len);
            }
            let to = floor_char_boundary(text, if end_raw < len {
                end_raw
            } else {
                len
            });
            proof {
                let fa = if from_raw < len { from_raw as int } else { len as int };
                let ta = if end_raw < len { end_raw as int } else { len as int };
                assert(fa <= ta);
                lemma_floor_mono(b, fa, ta);
                let spec_end = pos + nlen + 40;
                if end_raw == usize::MAX {
                    assert(spec_end >= len);
                }
            }
            let mid = slice_bytes(text, from, to);
            if from > 0 {
                let mut s = String::new();
                push_str(&mut s, "…");
                push_str(&mut s, mid.as_str());
                proof {
                    reveal_strlit("…");
                    assert(s@ =~= seq!['…'] + mid@);
                }
                s
            } else {
                proof {
                    assert(Seq::<char>::empty() + mid@ =~= mid@);
                }
                mid
            }
        },
    }
}

/// The hits one rule produces on a file: a `filename` hit when the rule
/// scans names and matches the name, then a `content` hit (with the text
/// around the match) when it scans content, content is at hand, and it
/// matches the content.
pub open spec fn rule_hits(
    path: Seq<char>,
    name: Seq<char>,
    rule: Rule,
    content: Option<Seq<char>>,
    file_size: u64,
    mtime: u64,
) -> Seq<HitView> {
    let fh = if rule.spec_scans_filename() {
        match rule_first_match(rule, name) {
            Some(m) => seq![hit_of(path, name, rule, "filename"@, m, file_size, mtime)],
            None => Seq::empty(),
        }
    } else {
        Seq::empty()
    };
    let ch = if rule.spec_scans_content() {
        match content {
            Some(t) => match rule_first_match(rule, t) {
                Some(m) => seq![
                    hit_of(path, name, rule, "content"@, snippet_around_spec(t, m), file_size, mtime),
                ],
                None => Seq::empty(),
            },
            None => Seq::empty(),
        }
    } else {
        Seq::empty()
    };
    fh + ch
}

/// The hits of all rules on a file, rule by rule in order.
pub open spec fn file_hits(
    path: Seq<char>,
    name: Seq<char>,
    rules: Seq<Rule>,
    content: Option<Seq<char>>,
    file_size: u64,
    mtime: u64,
) -> Seq<HitView>
    decreases rules.len(),
{
    if rules.len() == 0 {
        Seq::empty()
    } else {
        file_hits(path, name, rules.drop_last(), content, file_size, mtime) + rule_hits(
            path,
            name,
            rules.last(),
            content,
            file_size,
            mtime,
        )
    }
}

/// The rules of a compiled rule list.
pub open spec fn rules_of(rules: Seq<CompiledRule>) -> Seq<Rule> {
    rules.map_values(|c: CompiledRule| c.spec_rule())
}

/// Views of a list of hits.
pub open spec fn hit_views(hits: Seq<Hit>) -> Seq<HitView> {
    hits.map_values(|h: Hit| h@)
}

/// Whether the file's content has to be extracted: content scanning is on
/// and at least one rule inspects content.
pub fn needs_content(rules: &Vec<CompiledRule>, include_content: bool) -> (b: bool)
    ensures
        b == (include_content && exists|i: int|
            0 <= i < rules.len() && (#[trigger] rules@[i]).spec_rule().spec_scans_content()),
{
    if !include_content {
        return false;
    }
    let mut i: usize = 0;
    while i < rules.len()
        invariant
            include_content,
            i <= rules.len(),
            forall|k: int| 0 <= k < i ==> !(#[trigger] rules@[k]).spec_rule().spec_scans_content(),
        decreases rules.len() - i,
    {
        if rules[i].scans_content() {
            proof {
                assert(rules@[i as int].spec_rule().spec_scans_content());
            }
            return true;
        }
        i = i + 1;
    }
    false
}

/// Scan one file (its name, and its extracted `content` when given) and
/// append every hit to `out`.
pub fn scan_file(
    path: &str,
    name: &str,
    rules: &Vec<CompiledRule>,
    content: Option<&str>,
    file_size: u64,
    mtime: u64,
    out: &mut Vec<Hit>,
)
    ensures
        hit_views(final(out)@) == hit_views(old(out)@) + file_hits(
            path@,
            name@,
            rules_of(rules@),
            match content {
                Some(t) => Some(t@),
                None => None,
            },
            file_size,
            mtime,
        ),
{
    let ghost c = match content {
        Some(t) => Some(t@),
        None => None,
    };
    let mut i: usize = 0;
    while i < rules.len()
        invariant
            i <= rules.len(),
            c == (match content {
                Some(t) => Some(t@),
                None => None::<Seq<char>>,
            }),
            hit_views(out@) == hit_views(old(out)@) + file_hits(
                path@,
                name@,
                rules_of(rules@.take(i as int)),
                c,
                file_size,
                mtime,
            ),
        decreases rules.len() - i,
    {
        let rule = &rules[i];
        let ghost before = out@;
        if rule.scans_filename() {
            match rule.first_match(name) {
                Some(m) => {
                    out.push(build_hit(path, name, rule.rule(), "filename", m, file_size, mtime));
                },
                None => {},
            }
        }
        let ghost mid = out@;
        if rule.scans_content() {
            match content {
                Some(text) => {
                    match rule.first_match(text) {
                        Some(m) => {
                            let fragment = snippet_around(text, m.as_str());
                            out.push(
                                build_hit(path, name, rule.rule(), "content", fragment, file_size, mtime),
                            );
                        },
                        None => {},
                    }
                },
                None => {},
            }
        }
        proof {
            let r = rule.spec_rule();
            assert(rules_of(rules@.take(i + 1)) =~= rules_of(rules@.take(i as int)).push(r));
            assert(rules_of(rules@.take(i + 1)).drop_last() =~= rules_of(rules@.take(i as int)));
            assert(hit_views(out@) =~= hit_views(before) + rule_hits(path@, name@, r, c, file_size, mtime));
        }
        i = i + 1;
    }
    proof {
        assert(rules@.take(rules.len() as int) =~= rules@);
    }
}

/// A file to check: where it is, its metadata, and its extracted content
/// when content is scanned.
pub struct ScanTarget {
    pub path: String,
    pub name: String,
    pub size: u64,
    pub mtime: u64,
    pub content: Option<String>,
}

/// The optional content's characters.
pub open spec fn content_of(t: ScanTarget) -> Option<Seq<char>> {
    match t.content {
        Some(c) => Some(c@),
        None => None,
    }
}

/// The hits of all rules on all files, file by file in order.
pub open spec fn dir_hits(files: Seq<ScanTarget>, rules: Seq<Rule>) -> Seq<HitView>
    decreases files.len(),
{
    if files.len() == 0 {
        Seq::empty()
    } else {
        let f = files.last();
        dir_hits(files.drop_last(), rules) + file_hits(
            f.path@,
            f.name@,
            rules,
            content_of(f),
            f.size,
            f.mtime,
        )
    }
}

/// Check every file of a directory against the rules and report all hits.
pub fn scan_dir(files: &[ScanTarget], rules: &Vec<CompiledRule>) -> (hits: Vec<Hit>)
    ensures
        hit_views(hits@) == dir_hits(files@, rules_of(rules@)),
{
    let mut hits: Vec<Hit> = Vec::new();
    let mut i: usize = 0;
    proof {
        assert(hit_views(hits@) =~= Seq::<HitView>::empty());
        assert(files@.take(0) =~= Seq::<ScanTarget>::empty());
    }
    while i < files.len()
        invariant
            i <= files.len(),
            hit_views(hits@) == dir_hits(files@.take(i as int), rules_of(rules@)),
        decreases files.len() - i,
    {
        let f = &files[i];
        let content = match &f.content {
            Some(c) => Some(c.as_str()),
            None => None,
        };
        scan_file(f.path.as_str(), f.name.as_str(), rules, content, f.size, f.mtime, &mut hits);
        proof {
            assert(files@.take(i + 1).drop_last() =~= files@.take(i as int));
            assert(files@.take(i + 1).last() == files@[i as int]);
        }
        i = i + 1;
    }
    proof {
        assert(files@.take(i as int) =~= files@);
    }
    hits
}

/// Without extracted content only file names are checked: every hit is a
/// `filename` hit of a rule whose scope includes file names.
pub proof fn law_no_content_only_filename_hits(
    path: Seq<char>,
    name: Seq<char>,
    rules: Seq<Rule>,
    file_size: u64,
    mtime: u64,
)
    ensures
        forall|k: int|
            0 <= k < file_hits(path, name, rules, None, file_size, mtime).len() ==> (#[trigger] file_hits(
                path,
                name,
                rules,
                None,
                file_size,
                mtime,
            )[k]).match_type == "filename"@,
    decreases rules.len(),
{
    if rules.len() > 0 {
        law_no_content_only_filename_hits(path, name, rules.drop_last(), file_size, mtime);
        let a = file_hits(path, name, rules.drop_last(), None, file_size, mtime);
        let b = rule_hits(path, name, rules.last(), None, file_size, mtime);
        let all = file_hits(path, name, rules, None, file_size, mtime);
        assert(all == a + b);
        assert forall|k: int| 0 <= k < all.len() implies (#[trigger] all[k]).match_type
            == "filename"@ by {
            if k >= a.len() {
                assert(all[k] == b[k - a.len()]);
            }
        }
    }
}

/// Each rule contributes at most one `filename` hit and one `content` hit,
/// so a file never gets more than two hits per rule.
pub proof fn law_at_most_two_hits_per_rule(
    path: Seq<char>,
    name: Seq<char>,
    rules: Seq<Rule>,
    content: Option<Seq<char>>,
    file_size: u64,
    mtime: u64,
)
    ensures
        file_hits(path, name, rules, content, file_size, mtime).len() <= 2 * rules.len(),
    decreases rules.len(),
{
    if rules.len() > 0 {
        law_at_most_two_hits_per_rule(path, name, rules.drop_last(), content, file_size, mtime);
    }
}

proof fn lemma_single_rule_hits(
    path: Seq<char>,
    name: Seq<char>,
    rule: Rule,
    content: Option<Seq<char>>,
    file_size: u64,
    mtime: u64,
)
    ensures
        file_hits(path, name, seq![rule], content, file_size, mtime) == rule_hits(
            path,
            name,
            rule,
            content,
            file_size,
            mtime,
        ),
{
    let one = seq![rule];
    assert(one.drop_last() =~= Seq::<Rule>::empty());
    assert(one.last() == rule);
    let rh = rule_hits(path, name, rule, content, file_size, mtime);
    assert(file_hits(path, name, one.drop_last(), content, file_size, mtime) == Seq::<HitView>::empty());
    assert(Seq::<HitView>::empty() + rh =~= rh);
}

/// The hits for a list of rules are the hits of the rules before the last
/// followed by the hits of the last rule alone.
pub proof fn law_hits_rule_by_rule(
    path: Seq<char>,
    name: Seq<char>,
    rules: Seq<Rule>,
    rule: Rule,
    content: Option<Seq<char>>,
    file_size: u64,
    mtime: u64,
)
    ensures
        file_hits(path, name, rules.push(rule), content, file_size, mtime) == file_hits(
            path,
            name,
            rules,
            content,
            file_size,
            mtime,
        ) + file_hits(path, name, seq![rule], content, file_size, mtime),
{
    assert(rules.push(rule).drop_last() =~= rules);
    lemma_single_rule_hits(path, name, rule, content, file_size, mtime);
}

/// A rule gives a file a `filename` hit exactly when it scans file names
/// and matches the file's name (not its path); the hit carries the path,
/// the name and the text the rule matched in the name.
pub proof fn law_filename_hit_matches_name(
    path: Seq<char>,
    name: Seq<char>,
    rule: Rule,
    content: Option<Seq<char>>,
    file_size: u64,
    mtime: u64,
)
    ensures
        (exists|k: int|
            0 <= k < file_hits(path, name, seq![rule], content, file_size, mtime).len() && (
            #[trigger] file_hits(path, name, seq![rule], content, file_size, mtime)[k]).match_type
                == "filename"@) <==> (rule.spec_scans_filename() && rule_first_match(rule, name) is Some),
        forall|k: int|
            0 <= k < file_hits(path, name, seq![rule], content, file_size, mtime).len() && (
            #[trigger] file_hits(path, name, seq![rule], content, file_size, mtime)[k]).match_type
                == "filename"@ ==> {
                let h = file_hits(path, name, seq![rule], content, file_size, mtime)[k];
                &&& rule_first_match(rule, name) == Some(h.matched)
                &&& h.path == path
                &&& h.file_name == name
            },
{
    reveal_strlit("filename");
    reveal_strlit("content");
    assert("filename"@ != "content"@) by {
        assert("filename"@.len() != "content"@.len());
    }
    let hits = file_hits(path, name, seq![rule], content, file_size, mtime);
    lemma_single_rule_hits(path, name, rule, content, file_size, mtime);
    if rule.spec_scans_filename() && rule_first_match(rule, name) is Some {
        assert(hits[0].match_type == "filename"@);
    }
}

/// A rule gives a file a `content` hit exactly when it scans content, the
/// content is at hand and the rule matches it; the hit shows the text
/// around the match in the content.
pub proof fn law_content_hit_matches_content(
    path: Seq<char>,
    name: Seq<char>,
    rule: Rule,
    content: Option<Seq<char>>,
    file_size: u64,
    mtime: u64,
)
    ensures
        (exists|k: int|
            0 <= k < file_hits(path, name, seq![rule], content, file_size, mtime).len() && (
            #[trigger] file_hits(path, name, seq![rule], content, file_size, mtime)[k]).match_type
                == "content"@) <==> (rule.spec_scans_content() && content is Some
            && rule_first_match(rule, content.unwrap()) is Some),
        forall|k: int|
            0 <= k < file_hits(path, name, seq![rule], content, file_size, mtime).len() && (
            #[trigger] file_hits(path, name, seq![rule], content, file_size, mtime)[k]).match_type
                == "content"@ ==> {
                let h = file_hits(path, name, seq![rule], content, file_size, mtime)[k];
                &&& content is Some
                &&& rule_first_match(rule, content.unwrap()) is Some
                &&& h.matched == snippet_around_spec(
                    content.unwrap(),
                    rule_first_match(rule, content.unwrap()).unwrap(),
                )
                &&& h.path == path
                &&& h.file_name == name
            },
{
    reveal_strlit("filename");
    reveal_strlit("content");
    assert("filename"@ != "content"@) by {
        assert("filename"@.len() != "content"@.len());
    }
    let hits = file_hits(path, name, seq![rule], content, file_size, mtime);
    lemma_single_rule_hits(path, name, rule, content, file_size, mtime);
    if rule.spec_scans_content() && content is Some && rule_first_match(rule, content.unwrap()) is Some {
        if rule.spec_scans_filename() && rule_first_match(rule, name) is Some {
            assert(hits[1].match_type == "content"@);
        } else {
            assert(hits[0].match_type == "content"@);
        }
    }
}

/// A rule reports a file's name before its content: every hit of one rule
/// is a `filename` or a `content` hit, there is at most one of each, and a
/// `filename` hit comes first.
pub proof fn law_filename_hit_before_content_hit(
    path: Seq<char>,
    name: Seq<char>,
    rule: Rule,
    content: Option<Seq<char>>,
    file_size: u64,
    mtime: u64,
)
    ensures
        file_hits(path, name, seq![rule], content, file_size, mtime).len() <= 2,
        forall|k: int|
            0 <= k < file_hits(path, name, seq![rule], content, file_size, mtime).len() ==> (
            #[trigger] file_hits(path, name, seq![rule], content, file_size, mtime)[k]).match_type
                == "filename"@ || file_hits(path, name, seq![rule], content, file_size, mtime)[k].match_type
                == "content"@,
        file_hits(path, name, seq![rule], content, file_size, mtime).len() == 2 ==> file_hits(
            path,
            name,
            seq![rule],
            content,
            file_size,
            mtime,
        )[0].match_type == "filename"@ && file_hits(path, name, seq![rule], content, file_size, mtime)[1].match_type
            == "content"@,
{
    lemma_single_rule_hits(path, name, rule, content, file_size, mtime);
}

} // verus!
