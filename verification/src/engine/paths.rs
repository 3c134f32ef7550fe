//! Path handling on path strings, as `std::path` does it on each platform:
//! `/` separates components everywhere, and on Windows `\` does too and a
//! path may begin with a drive (`C:`). Final components, joining, component
//! lists and prefix tests.
use vstd::prelude::*;
use crate::text::{chars_of, push_char, push_str, string_of};

verus! {

/// Index of the last `c` in `s`, or -1.
pub open spec fn last_index(s: Seq<char>, c: char) -> int
    decreases s.len(),
{
    if s.len() == 0 {
        -1
    } else if s.last() == c {
        s.len() - 1
    } else {
        last_index(s.drop_last(), c)
    }
}

/// Where the last occurrence is, and that none follows it.
pub proof fn lemma_last_index(s: Seq<char>, c: char)
    ensures
        -1 <= last_index(s, c) < s.len(),
        last_index(s, c) >= 0 ==> s[last_index(s, c)] == c,
        forall|q: int| last_index(s, c) < q < s.len() ==> s[q] != c,
    decreases s.len(),
{
    if s.len() > 0 && s.last() != c {
        let d = s.drop_last();
        lemma_last_index(d, c);
        assert forall|q: int| last_index(s, c) < q < s.len() implies s[q] != c by {
            if q < s.len() - 1 {
                assert(s[q] == d[q]);
            }
        }
    }
}

/// The final component of a `/`-separated path (what `Path::file_name`
/// returns on Unix-like systems; `name_on` covers Windows): trailing
/// separators and `.` components are skipped; a final `..`, a root or an
/// empty path has none.
pub open spec fn file_name_of(s: Seq<char>) -> Option<Seq<char>>
    decreases s.len(),
{
    if s.len() == 0 {
        None
    } else if s.last() == '/' {
        file_name_of(s.drop_last())
    } else {
        let k = last_index(s, '/');
        let seg = s.skip(k + 1);
        if seg == seq!['.'] {
            if 0 <= k + 1 < s.len() {
                file_name_of(s.take(k + 1))
            } else {
                None
            }
        } else if seg == seq!['.', '.'] {
            None
        } else {
            Some(seg)
        }
    }
}

/// The final component of the `/`-separated `path`, if it has one.
pub fn file_name(path: &str) -> (r: Option<String>)
    ensures
        match r {
            Some(n) => file_name_of(path@) == Some(n@),
            None => file_name_of(path@) is None,
        },
{
    let v = chars_of(path);
    let mut e = v.len();
    proof {
        assert(v@.take(e as int) =~= v@);
    }
    while e > 0
        invariant
            e <= v.len(),
            v@ == path@,
            file_name_of(v@.take(e as int)) == file_name_of(path@),
        decreases e,
    {
        let ghost t = v@.take(e as int);
        if v[e - 1] == '/' {
            proof {
                assert(t.drop_last() =~= v@.take(e - 1));
            }
            e = e - 1;
        } else {
            let mut k = e - 1;
            while k > 0 && v[k - 1] != '/'
                invariant
                    k < e <= v.len(),
                    forall|q: int| k <= q < e ==> v@[q] != '/',
                decreases k,
            {
                k = k - 1;
            }
            proof {
                lemma_last_index(t, '/');
                let li = last_index(t, '/');
                if k > 0 {
                    assert(t[k - 1] == '/');
                    assert(li == k - 1);
                } else {
                    assert(li == -1);
                }
            }
            let len = e - k;
            let is_dot = len == 1 && v[k] == '.';
            let is_dotdot = len == 2 && v[k] == '.' && v[k + 1] == '.';
            proof {
                let seg = t.skip(k as int);
                assert(seg.len() == len);
                if is_dot {
                    assert(seg =~= seq!['.']);
                } else {
                    assert(!(seg =~= seq!['.'])) by {
                        if seg =~= seq!['.'] {
                            assert(seg[0] == v@[k as int]);
                        }
                    }
                }
                if is_dotdot {
                    assert(seg =~= seq!['.', '.']);
                } else {
                    assert(!(seg =~= seq!['.', '.'])) by {
                        if seg =~= seq!['.', '.'] {
                            assert(seg[0] == v@[k as int]);
                            assert(seg[1] == v@[k + 1]);
                        }
                    }
                }
            }
            if is_dot {
                if k == 0 {
                    proof {
                        assert(t.take(0) =~= Seq::<char>::empty());
                        assert(file_name_of(t.take(0)) is None);
                    }
                    return None;
                }
                proof {
                    assert(t.take(k as int) =~= v@.take(k as int));
                }
                e = k;
            } else if is_dotdot {
                return None;
            } else {
                let mut seg: Vec<char> = Vec::new();
                let mut q = k;
                while q < e
                    invariant
                        k <= q <= e <= v.len(),
                        seg@ == v@.subrange(k as int, q as int),
                    decreases e - q,
                {
                    seg.push(v[q]);
                    q = q + 1;
                }
                proof {
                    assert(t.skip(k as int) =~= v@.subrange(k as int, e as int));
                }
                return Some(string_of(seg.as_slice()));
            }
        }
    }
    proof {
        assert(v@.take(0) =~= Seq::<char>::empty());
    }
    None
}

/// `rel` joined onto `base` (what `Path::join` gives on Unix): an absolute
/// `rel` replaces `base`; otherwise a `/` goes between them unless `base`
/// is empty or already ends with one.
pub open spec fn slash_join(base: Seq<char>, rel: Seq<char>) -> Seq<char> {
    if rel.len() > 0 && rel[0] == '/' {
        rel
    } else if base.len() == 0 {
        rel
    } else if base.last() == '/' {
        base + rel
    } else {
        base + seq!['/'] + rel
    }
}

fn slash_join_exec(base: &str, rel: &str) -> (r: String)
    ensures
        r@ == slash_join(base@, rel@),
{
    let b = chars_of(base);
    let rv = chars_of(rel);
    if rv.len() > 0 && rv[0] == '/' {
        return rel.to_owned();
    }
    if b.len() == 0 {
        return rel.to_owned();
    }
    let mut out = base.to_owned();
    if b[b.len() - 1] != '/' {
        push_char(&mut out, '/');
    }
    push_str(&mut out, rel);
    out
}

/// The maximal runs of characters other than `/` in `s[i..]`, the first
/// one starting with `cur`.
pub open spec fn runs_from(s: Seq<char>, i: int, cur: Seq<char>) -> Seq<Seq<char>>
    decreases s.len() - i,
{
    if i < 0 || i >= s.len() {
        if cur.len() > 0 {
            seq![cur]
        } else {
            Seq::empty()
        }
    } else if s[i] != '/' {
        runs_from(s, i + 1, cur.push(s[i]))
    } else if cur.len() > 0 {
        seq![cur] + runs_from(s, i + 1, Seq::empty())
    } else {
        runs_from(s, i + 1, Seq::empty())
    }
}

/// `runs` without the `.` entries.
pub open spec fn drop_dots(runs: Seq<Seq<char>>) -> Seq<Seq<char>> {
    runs.filter(|r: Seq<char>| r != seq!['.'])
}

/// The components of a path (what `Path::components` yields on Unix): the
/// root as `/` when the path starts with one, a leading `.` of a relative
/// path, then the names between separators, empty names and other `.`
/// names dropped.
pub open spec fn components(s: Seq<char>) -> Seq<Seq<char>> {
    let runs = runs_from(s, 0, Seq::empty());
    if s.len() > 0 && s[0] == '/' {
        seq![seq!['/']] + drop_dots(runs)
    } else if runs.len() > 0 && runs[0] == seq!['.'] {
        seq![seq!['.']] + drop_dots(runs.drop_first())
    } else {
        drop_dots(runs)
    }
}

/// The components of `path`.
pub fn path_components(path: &str) -> (r: Vec<Vec<char>>)
    ensures
        r@.map_values(|c: Vec<char>| c@) == components(path@),
{
    let v = chars_of(path);
    let ghost all = runs_from(v@, 0, Seq::empty());
    let mut runs: Vec<Vec<char>> = Vec::new();
    let mut cur: Vec<char> = Vec::new();
    let mut i: usize = 0;
    while i < v.len()
        invariant
            i <= v.len(),
            v@ == path@,
            all == runs_from(v@, 0, Seq::empty()),
            runs@.map_values(|c: Vec<char>| c@) + runs_from(v@, i as int, cur@) == all,
        decreases v.len() - i,
    {
        let ghost rv = runs@.map_values(|c: Vec<char>| c@);
        if v[i] != '/' {
            proof {
                assert(runs_from(v@, i as int, cur@) == runs_from(v@, i + 1, cur@.push(v@[i as int])));
            }
            cur.push(v[i]);
        } else if cur.len() > 0 {
            let done = cur;
            cur = Vec::new();
            proof {
                assert(runs_from(v@, i as int, done@) == seq![done@] + runs_from(v@, i + 1, Seq::empty()));
                assert(cur@ =~= Seq::<char>::empty());
            }
            runs.push(done);
            proof {
                assert(runs@.map_values(|c: Vec<char>| c@) =~= rv.push(done@));
                assert(rv.push(done@) + runs_from(v@, i + 1, cur@) =~= rv + (seq![done@]
                    + runs_from(v@, i + 1, Seq::empty())));
            }
        } else {
            proof {
                assert(cur@ =~= Seq::<char>::empty());
                assert(runs_from(v@, i as int, cur@) == runs_from(v@, i + 1, Seq::empty()));
            }
        }
        i = i + 1;
    }
    if cur.len() > 0 {
        let ghost rv = runs@.map_values(|c: Vec<char>| c@);
        let done = cur;
        runs.push(done);
        proof {
            assert(runs@.map_values(|c: Vec<char>| c@) =~= rv.push(done@));
            assert(rv.push(done@) =~= rv + runs_from(v@, i as int, done@));
        }
    } else {
        proof {
            assert(runs@.map_values(|c: Vec<char>| c@) + runs_from(v@, i as int, cur@)
                =~= runs@.map_values(|c: Vec<char>| c@));
        }
    }
    // `runs` now holds every run; keep the root or a leading `.`, drop the
    // other `.` names.
    let ghost rs = runs@.map_values(|c: Vec<char>| c@);
    let rooted = v.len() > 0 && v[0] == '/';
    let lead_dot = !rooted && runs.len() > 0 && runs[0].len() == 1 && runs[0][0] == '.';
    proof {
        if runs.len() > 0 {
            assert(rs[0] == runs@[0]@);
            if lead_dot {
                assert(rs[0] =~= seq!['.']);
            } else if !rooted && runs@[0]@.len() == 1 {
                assert(rs[0] != seq!['.']) by {
                    if rs[0] == seq!['.'] {
                        assert(rs[0][0] == '.');
                    }
                }
            }
        }
    }
    let mut out: Vec<Vec<char>> = Vec::new();
    let mut k: usize = 0;
    if rooted {
        let root = vec!['/'];
        assert(root@ =~= seq!['/']);
        out.push(root);
        assert(out@.map_values(|c: Vec<char>| c@) =~= seq![seq!['/']]);
    } else if lead_dot {
        let dot = vec!['.'];
        assert(dot@ =~= seq!['.']);
        out.push(dot);
        assert(out@.map_values(|c: Vec<char>| c@) =~= seq![seq!['.']]);
        k = 1;
    }
    let ghost head = out@.map_values(|c: Vec<char>| c@);
    let ghost start = k;
    proof {
        assert(rs.skip(k as int).take(0) =~= Seq::<Seq<char>>::empty());
        assert(drop_dots(Seq::<Seq<char>>::empty()) =~= Seq::<Seq<char>>::empty()) by {
            reveal(Seq::filter);
        }
    }
    while k < runs.len()
        invariant
            start <= k <= runs.len(),
            rs == runs@.map_values(|c: Vec<char>| c@),
            out@.map_values(|c: Vec<char>| c@) == head + drop_dots(rs.subrange(start as int, k as int)),
        decreases runs.len() - k,
    {
        let ghost before = out@.map_values(|c: Vec<char>| c@);
        let is_dot = runs[k].len() == 1 && runs[k][0] == '.';
        proof {
            assert(rs[k as int] == runs@[k as int]@);
            assert(rs.subrange(start as int, k + 1) =~= rs.subrange(start as int, k as int).push(rs[k as int]));
            rs.subrange(start as int, k as int).lemma_filter_push(rs[k as int], |r: Seq<char>| r != seq!['.']);
            if is_dot {
                assert(rs[k as int] =~= seq!['.']);
            } else if runs@[k as int]@.len() == 1 {
                assert(rs[k as int] != seq!['.']) by {
                    if rs[k as int] == seq!['.'] {
                        assert(rs[k as int][0] == '.');
                    }
                }
            }
        }
        if !is_dot {
            let mut c: Vec<char> = Vec::new();
            let mut q: usize = 0;
            while q < runs[k].len()
                invariant
                    k < runs.len(),
                    q <= runs@[k as int]@.len(),
                    c@ == runs@[k as int]@.take(q as int),
                decreases runs@[k as int]@.len() - q,
            {
                c.push(runs[k][q]);
                q = q + 1;
                proof {
                    assert(runs@[k as int]@.take(q as int) =~= runs@[k as int]@.take(q - 1).push(runs@[k as int]@[q - 1]));
                }
            }
            proof {
                assert(runs@[k as int]@.take(q as int) =~= runs@[k as int]@);
            }
            out.push(c);
            proof {
                assert(out@.map_values(|c: Vec<char>| c@) =~= before.push(rs[k as int]));
            }
        }
        k = k + 1;
        proof {
            assert(out@.map_values(|c: Vec<char>| c@) =~= head + drop_dots(rs.subrange(start as int, k as int)));
        }
    }
    proof {
        assert(rs.subrange(start as int, k as int) =~= rs.skip(start as int));
        assert(rs =~= all);
        if rooted {
            assert(head =~= seq![seq!['/']]);
            assert(rs.skip(0) =~= rs);
        } else if lead_dot {
            assert(head =~= seq![seq!['.']]);
            assert(rs.skip(1) =~= rs.drop_first());
        } else {
            assert(head =~= Seq::<Seq<char>>::empty());
            assert(rs.skip(0) =~= rs);
        }
    }
    out
}

fn chars_eq(a: &Vec<char>, b: &Vec<char>) -> (r: bool)
    ensures
        r == (a@ == b@),
{
    if a.len() != b.len() {
        return false;
    }
    let mut i: usize = 0;
    while i < a.len()
        invariant
            a.len() == b.len(),
            i <= a.len(),
            forall|k: int| 0 <= k < i ==> a@[k] == b@[k],
        decreases a.len() - i,
    {
        if a[i] != b[i] {
            return false;
        }
        i = i + 1;
    }
    assert(a@ =~= b@);
    true
}

/// `base`'s components are the first components of `path` (what
/// `Path::starts_with` tests).
pub open spec fn path_prefix(path: Seq<char>, base: Seq<char>, platform: Platform) -> bool {
    let p = components_on(path, platform);
    let b = components_on(base, platform);
    b.len() <= p.len() && p.take(b.len() as int) == b
}

/// Whether `path` starts with `base`, component by component.
pub fn path_starts_with(path: &str, base: &str, platform: Platform) -> (r: bool)
    ensures
        r == path_prefix(path@, base@, platform),
{
    let p = path_components_on(path, platform);
    let b = path_components_on(base, platform);
    let ghost pv = p@.map_values(|c: Vec<char>| c@);
    let ghost bv = b@.map_values(|c: Vec<char>| c@);
    if b.len() > p.len() {
        return false;
    }
    let mut i: usize = 0;
    while i < b.len()
        invariant
            b.len() <= p.len(),
            i <= b.len(),
            pv == p@.map_values(|c: Vec<char>| c@),
            bv == b@.map_values(|c: Vec<char>| c@),
            pv == components_on(path@, platform),
            bv == components_on(base@, platform),
            forall|k: int| 0 <= k < i ==> pv[k] == bv[k],
        decreases b.len() - i,
    {
        if !chars_eq(&p[i], &b[i]) {
            proof {
                assert(pv.take(bv.len() as int)[i as int] != bv[i as int]);
            }
            return false;
        }
        i = i + 1;
    }
    assert(pv.take(bv.len() as int) =~= bv);
    true
}

/// The two paths have the same components (what `==` on paths tests).
pub open spec fn same_path(a: Seq<char>, b: Seq<char>, platform: Platform) -> bool {
    components_on(a, platform) == components_on(b, platform)
}

/// Whether `a` and `b` are the same path, component by component.
pub fn paths_equal(a: &str, b: &str, platform: Platform) -> (r: bool)
    ensures
        r == same_path(a@, b@, platform),
{
    let r = path_starts_with(a, b, platform) && path_starts_with(b, a, platform);
    proof {
        let ca = components_on(a@, platform);
        let cb = components_on(b@, platform);
        if r {
            assert(ca.take(cb.len() as int) =~= ca);
            assert(ca =~= cb);
        } else if ca == cb {
            assert(ca.take(cb.len() as int) =~= ca);
        }
    }
    r
}

/// Two directories are the same when their canonical forms are the same
/// path; a directory that could not be canonicalized (it may not exist yet)
/// is compared as written.
pub fn same_dir(
    a_canonical: Option<String>,
    a: &str,
    b_canonical: Option<String>,
    b: &str,
    platform: Platform,
) -> (r: bool)
    ensures
        r == same_path(
            match a_canonical {
                Some(c) => c@,
                None => a@,
            },
            match b_canonical {
                Some(c) => c@,
                None => b@,
            },
            platform,
        ),
{
    let ca = match a_canonical {
        Some(c) => c,
        None => a.to_owned(),
    };
    let cb = match b_canonical {
        Some(c) => c,
        None => b.to_owned(),
    };
    paths_equal(ca.as_str(), cb.as_str(), platform)
}

// ---------------------------------------------------------------------------
// Platforms
// ---------------------------------------------------------------------------

/// The operating system paths belong to: it decides the separators, the
/// default scan exclusions and how paths are compared.
#[derive(PartialEq, Eq, Structural, Clone, Copy, Debug)]
pub enum Platform {
    Linux,
    MacOs,
    Windows,
    Other,
}

/// `s` with every `\` turned into `/`.
pub open spec fn slashes(s: Seq<char>) -> Seq<char> {
    s.map_values(|c: char| if c == '\\' { '/' } else { c })
}

/// `s` with every `\` turned into `/`.
pub fn slashes_exec(s: &str) -> (r: String)
    ensures
        r@ == slashes(s@),
{
    let v = chars_of(s);
    let mut out: Vec<char> = Vec::new();
    let mut i: usize = 0;
    while i < v.len()
        invariant
            i <= v.len(),
            v@ == s@,
            out@ == slashes(v@.take(i as int)),
        decreases v.len() - i,
    {
        let c = if v[i] == '\\' {
            '/'
        } else {
            v[i]
        };
        out.push(c);
        i = i + 1;
        proof {
            assert(out@ =~= slashes(v@.take(i as int)));
        }
    }
    proof {
        assert(v@.take(i as int) =~= v@);
    }
    string_of(out.as_slice())
}

/// An ASCII letter.
pub open spec fn is_ascii_letter(c: char) -> bool {
    let u = c as u32;
    (65 <= u <= 90) || (97 <= u <= 122)
}

/// `s` begins with a Windows drive (`C:`).
pub open spec fn has_drive(s: Seq<char>) -> bool {
    s.len() >= 2 && is_ascii_letter(s[0]) && s[1] == ':'
}

/// The drive component as Windows reports it: the letter uppercased.
pub open spec fn drive_of(s: Seq<char>) -> Seq<char> {
    let u = s[0] as u32;
    seq![if 97 <= u <= 122 { ((u - 32) as u32) as char } else { s[0] }, ':']
}

/// The components of a path on `platform`. On Windows both separators
/// count and a leading drive is a component of its own (its letter
/// uppercased), followed by the root `/` when a separator comes next.
pub open spec fn components_on(s: Seq<char>, platform: Platform) -> Seq<Seq<char>> {
    if platform == Platform::Windows {
        let t = slashes(s);
        if has_drive(t) {
            seq![drive_of(t)] + components(t.skip(2))
        } else {
            components(t)
        }
    } else {
        components(s)
    }
}

fn drive_exec(v: &Vec<char>) -> (r: (bool, char))
    ensures
        r.0 == has_drive(v@),
        r.0 ==> seq![r.1, ':'] == drive_of(v@),
{
    if v.len() >= 2 && v[1] == ':' {
        let u = v[0] as u32;
        if (65 <= u && u <= 90) || (97 <= u && u <= 122) {
            if 97 <= u {
                let up = (u - 32) as u8;
                let c = up as char;
                proof {
                    vstd::utf8::char_u32_cast(c, (u - 32) as u32);
                }
                return (true, c);
            }
            return (true, v[0]);
        }
    }
    (false, ' ')
}

fn tail_string(v: &Vec<char>, k: usize) -> (r: String)
    requires
        k <= v.len(),
    ensures
        r@ == v@.skip(k as int),
{
    let mut out: Vec<char> = Vec::new();
    let mut i = k;
    while i < v.len()
        invariant
            k <= i <= v.len(),
            out@ == v@.subrange(k as int, i as int),
        decreases v.len() - i,
    {
        out.push(v[i]);
        i = i + 1;
    }
    assert(v@.subrange(k as int, v.len() as int) =~= v@.skip(k as int));
    string_of(out.as_slice())
}

/// The components of `path` on `platform`.
pub fn path_components_on(path: &str, platform: Platform) -> (r: Vec<Vec<char>>)
    ensures
        r@.map_values(|c: Vec<char>| c@) == components_on(path@, platform),
{
    if platform != Platform::Windows {
        return path_components(path);
    }
    let t = slashes_exec(path);
    let v = chars_of(t.as_str());
    let (drive, letter) = drive_exec(&v);
    if !drive {
        return path_components(t.as_str());
    }
    let rest = tail_string(&v, 2);
    let tail = path_components(rest.as_str());
    let ghost tv = tail@.map_values(|c: Vec<char>| c@);
    let mut out: Vec<Vec<char>> = Vec::new();
    out.push(vec![letter, ':']);
    proof {
        assert(out@.map_values(|c: Vec<char>| c@) =~= seq![drive_of(v@)]);
    }
    let mut tail = tail;
    let ghost orig = tail@;
    let total = tail.len();
    let mut taken: usize = 0;
    while tail.len() > 0
        invariant
            taken + tail.len() == orig.len(),
            orig.len() == total,
            tail@ == orig.skip(taken as int),
            tv == orig.map_values(|c: Vec<char>| c@),
            out@.map_values(|c: Vec<char>| c@) == seq![drive_of(v@)] + tv.take(taken as int),
        decreases tail.len(),
    {
        let ghost before = out@.map_values(|c: Vec<char>| c@);
        let c = tail.remove(0);
        proof {
            assert(orig.skip(taken as int)[0] == orig[taken as int]);
        }
        out.push(c);
        taken = taken + 1;
        proof {
            assert(tail@ =~= orig.skip(taken as int));
            assert(out@.map_values(|c: Vec<char>| c@) =~= before.push(orig[taken - 1]@));
            assert(tv.take(taken as int) =~= tv.take(taken - 1).push(tv[taken - 1]));
        }
    }
    proof {
        assert(tv.take(taken as int) =~= tv);
    }
    out
}

/// The final component of `path` on `platform` (what `Path::file_name`
/// gives there); on Windows a leading drive is not part of it.
pub open spec fn name_on(path: Seq<char>, platform: Platform) -> Option<Seq<char>> {
    if platform == Platform::Windows {
        let t = slashes(path);
        if has_drive(t) {
            file_name_of(t.skip(2))
        } else {
            file_name_of(t)
        }
    } else {
        file_name_of(path)
    }
}

/// The final component of `path` on `platform`.
pub fn file_name_on(path: &str, platform: Platform) -> (r: Option<String>)
    ensures
        r matches Some(n) ==> name_on(path@, platform) == Some(n@),
        r is None ==> name_on(path@, platform) is None,
{
    if platform != Platform::Windows {
        return file_name(path);
    }
    let t = slashes_exec(path);
    let v = chars_of(t.as_str());
    let (drive, _) = drive_exec(&v);
    if drive {
        let rest = tail_string(&v, 2);
        file_name(rest.as_str())
    } else {
        file_name(t.as_str())
    }
}

/// A separator on `platform`.
pub open spec fn is_sep(c: char, platform: Platform) -> bool {
    c == '/' || (platform == Platform::Windows && c == '\\')
}

/// `rel` joined onto `base` (what `Path::join` gives). Elsewhere than on
/// Windows see `slash_join`. On Windows: a `rel` with a drive replaces
/// `base`; a `rel` starting with a separator keeps only `base`'s drive;
/// otherwise a `\` goes between them unless `base` is empty, ends with a
/// separator, or is a bare drive.
pub open spec fn join_spec(base: Seq<char>, rel: Seq<char>, platform: Platform) -> Seq<char> {
    if platform != Platform::Windows {
        slash_join(base, rel)
    } else if has_drive(rel) {
        rel
    } else if rel.len() > 0 && is_sep(rel[0], platform) {
        (if has_drive(base) {
            base.take(2)
        } else {
            Seq::empty()
        }) + rel
    } else if base.len() == 0 {
        rel
    } else if is_sep(base.last(), platform) || (base.len() == 2 && has_drive(base)) {
        base + rel
    } else {
        base + seq!['\\'] + rel
    }
}

/// Join `rel` onto `base` on `platform`.
pub fn join(base: &str, rel: &str, platform: Platform) -> (r: String)
    ensures
        r@ == join_spec(base@, rel@, platform),
{
    if platform != Platform::Windows {
        return slash_join_exec(base, rel);
    }
    let b = chars_of(base);
    let rv = chars_of(rel);
    let (rel_drive, _) = drive_exec(&rv);
    if rel_drive {
        return rel.to_owned();
    }
    let (base_drive, _) = drive_exec(&b);
    if rv.len() > 0 && (rv[0] == '/' || rv[0] == '\\') {
        let mut out = String::new();
        if base_drive {
            push_char(&mut out, b[0]);
            push_char(&mut out, b[1]);
            proof {
                assert(out@ =~= b@.take(2));
            }
        }
        push_str(&mut out, rel);
        proof {
            if !base_drive {
                assert(out@ =~= Seq::<char>::empty() + rel@);
            }
        }
        return out;
    }
    if b.len() == 0 {
        return rel.to_owned();
    }
    let mut out = base.to_owned();
    let last = b[b.len() - 1];
    if !(last == '/' || last == '\\' || (b.len() == 2 && base_drive)) {
        push_char(&mut out, '\\');
    }
    push_str(&mut out, rel);
    out
}

} // verus!
