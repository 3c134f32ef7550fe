//! Directory scanning decisions: which entries a walk keeps, the metadata
//! record of a file, and the bounded list of warnings a scan reports.
use vstd::prelude::*;
use crate::engine::paths::{
    components, file_name_on, last_index, lemma_last_index, name_on, path_components, slashes,
    slashes_exec, Platform,
};
use crate::text::{chars_of, push_str, same_text, starts_with, str_lowercase, str_to_lowercase, string_of};

verus! {

/// Cap on the warnings (permission denied, unreadable entries, …) one scan
/// reports.
pub const MAX_SCAN_WARNINGS: usize = 100;

/// A file found by a scan.
pub struct FileEntry {
    pub path: String,
    pub name: String,
    /// Lowercase extension, empty when there is none.
    pub ext: String,
    pub size: u64,
    /// Modification time in seconds since the Unix epoch.
    pub mtime: u64,
}

/// Options of a scan run.
pub struct ScanOptions {
    pub include_hidden: bool,
    /// Directories (absolute paths) whose trees are skipped.
    pub exclude_dirs: Vec<String>,
    pub follow_links: bool,
    /// How paths are compared against `exclude_dirs`.
    pub platform: Platform,
}

/// The characters of each string.
pub open spec fn strings(v: Seq<String>) -> Seq<Seq<char>> {
    v.map_values(|s: String| s@)
}

/// The system directories Linux scans skip.
pub open spec fn linux_excludes() -> Seq<Seq<char>> {
    seq![
        "/proc"@, "/sys"@, "/dev"@, "/run"@, "/boot"@, "/usr"@, "/bin"@, "/sbin"@, "/lib"@,
        "/lib32"@, "/lib64"@, "/etc"@, "/var"@, "/snap"@,
    ]
}

/// The system directories macOS scans skip.
pub open spec fn macos_excludes() -> Seq<Seq<char>> {
    seq![
        "/System"@, "/Library"@, "/Applications"@, "/private"@, "/usr"@, "/bin"@, "/sbin"@,
        "/opt"@, "/var"@, "/etc"@,
    ]
}

/// The non-empty values among the given environment variables, in order.
pub open spec fn set_values(env: Seq<Option<Seq<char>>>) -> Seq<Seq<char>>
    decreases env.len(),
{
    if env.len() == 0 {
        Seq::empty()
    } else {
        let rest = set_values(env.drop_last());
        match env.last() {
            Some(v) => if v.len() > 0 {
                rest.push(v)
            } else {
                rest
            },
            None => rest,
        }
    }
}

/// The directories a scan skips by default: a fixed list on Linux and
/// macOS; on Windows the values of `SystemRoot`, `ProgramFiles`,
/// `ProgramFiles(x86)` and `ProgramData` that are set and non-empty
/// (`windows_env`, in that order); nothing elsewhere.
pub open spec fn default_excludes(platform: Platform, windows_env: Seq<Option<Seq<char>>>) -> Seq<Seq<char>> {
    match platform {
        Platform::Linux => linux_excludes(),
        Platform::MacOs => macos_excludes(),
        Platform::Windows => set_values(windows_env),
        Platform::Other => Seq::empty(),
    }
}

/// The characters of each optional string.
pub open spec fn opt_strings(v: Seq<Option<String>>) -> Seq<Option<Seq<char>>> {
    v.map_values(
        |o: Option<String>|
            match o {
                Some(s) => Some(s@),
                None => None,
            },
    )
}

fn owned_all(lits: &[&str]) -> (v: Vec<String>)
    ensures
        strings(v@) == lits@.map_values(|s: &str| s@),
{
    let mut v: Vec<String> = Vec::new();
    let mut i: usize = 0;
    while i < lits.len()
        invariant
            i <= lits.len(),
            strings(v@) == lits@.take(i as int).map_values(|s: &str| s@),
        decreases lits.len() - i,
    {
        let ghost before = strings(v@);
        let x = lits[i].to_owned();
        assert(x@ == lits@[i as int]@);
        v.push(x);
        i = i + 1;
        proof {
            assert(strings(v@) =~= before.push(lits@[i - 1]@));
            assert(lits@.take(i as int) =~= lits@.take(i - 1).push(lits@[i - 1]));
            assert(lits@.take(i as int).map_values(|s: &str| s@) =~= lits@.take(i - 1).map_values(
                |s: &str| s@,
            ).push(lits@[i - 1]@));
        }
    }
    assert(lits@.take(i as int) =~= lits@);
    v
}

/// The directories a scan skips by default on `platform`.
pub fn default_exclude_dirs(platform: Platform, windows_env: Vec<Option<String>>) -> (v: Vec<String>)
    ensures
        strings(v@) == default_excludes(platform, opt_strings(windows_env@)),
{
    match platform {
        Platform::Linux => {
            let lits = [
                "/proc", "/sys", "/dev", "/run", "/boot", "/usr", "/bin", "/sbin", "/lib",
                "/lib32", "/lib64", "/etc", "/var", "/snap",
            ];
            let v = owned_all(&lits);
            assert(lits@.map_values(|s: &str| s@) =~= linux_excludes());
            v
        },
        Platform::MacOs => {
            let lits = [
                "/System", "/Library", "/Applications", "/private", "/usr", "/bin", "/sbin",
                "/opt", "/var", "/etc",
            ];
            let v = owned_all(&lits);
            assert(lits@.map_values(|s: &str| s@) =~= macos_excludes());
            v
        },
        Platform::Windows => {
            let ghost env = opt_strings(windows_env@);
            let mut v: Vec<String> = Vec::new();
            let mut env_left = windows_env;
            let mut n: usize = 0;
            let total = env_left.len();
            let ghost all = env;
            proof {
                assert(all.take(0) =~= Seq::<Option<Seq<char>>>::empty());
            }
            while env_left.len() > 0
                invariant
                    n + env_left.len() == total,
                    total == all.len(),
                    opt_strings(env_left@) == all.skip(n as int),
                    strings(v@) == set_values(all.take(n as int)),
                decreases env_left.len(),
            {
                let ghost old_left = env_left@;
                let e = env_left.remove(0);
                proof {
                    assert(all.take(n + 1).drop_last() =~= all.take(n as int));
                    assert(all.skip(n as int)[0] == all[n as int]);
                    assert(env_left@ =~= old_left.drop_first());
                    assert(opt_strings(env_left@) =~= opt_strings(old_left).drop_first());
                    assert(all.skip(n as int).drop_first() =~= all.skip(n + 1));
                }
                match e {
                    Some(val) => {
                        if val.as_str().as_bytes().len() > 0 {
                            proof {
                                if val@.len() == 0 {
                                    assert(vstd::utf8::encode_utf8(val@) =~= Seq::<u8>::empty());
                                }
                            }
                            let ghost before = strings(v@);
                            v.push(val);
                            proof {
                                assert(strings(v@) =~= before.push(v@.last()@));
                            }
                        } else {
                            proof {
                                vstd::utf8::encode_utf8_decode_utf8(val@);
                            }
                        }
                    },
                    None => {},
                }
                n = n + 1;
            }
            proof {
                assert(all.take(n as int) =~= all);
            }
            v
        },
        Platform::Other => {
            let v: Vec<String> = Vec::new();
            assert(strings(v@) =~= Seq::<Seq<char>>::empty());
            v
        },
    }
}

impl ScanOptions {
    /// Hidden files included, the platform's system directories excluded,
    /// links not followed.
    pub fn for_platform(platform: Platform, windows_env: Vec<Option<String>>) -> (o: Self)
        ensures
            o.include_hidden,
            !o.follow_links,
            o.platform == platform,
            strings(o.exclude_dirs@) == default_excludes(platform, opt_strings(windows_env@)),
    {
        ScanOptions {
            include_hidden: true,
            exclude_dirs: default_exclude_dirs(platform, windows_env),
            follow_links: false,
            platform,
        }
    }
}

impl Default for ScanOptions {
    /// The Linux defaults (see [`ScanOptions::for_platform`]).
    fn default() -> (o: Self)
        ensures
            o.include_hidden,
            !o.follow_links,
            o.platform == Platform::Linux,
            strings(o.exclude_dirs@) == linux_excludes(),
    {
        ScanOptions::for_platform(Platform::Linux, Vec::new())
    }
}

/// The final component of the path starts with a dot.
pub open spec fn hidden(path: Seq<char>, platform: Platform) -> bool {
    match name_on(path, platform) {
        Some(n) => n.len() > 0 && n[0] == '.',
        None => false,
    }
}

/// Whether `path` names a hidden file or directory.
pub fn is_hidden(path: &str, platform: Platform) -> (b: bool)
    ensures
        b == hidden(path@, platform),
{
    match file_name_on(path, platform) {
        Some(n) => {
            let v = chars_of(n.as_str());
            v.len() > 0 && v[0] == '.'
        },
        None => false,
    }
}

/// `path` is `dir` or lies below it.
pub open spec fn under_dir(path: Seq<char>, dir: Seq<char>) -> bool {
    let d = dir.push('/');
    path == dir || (d.len() <= path.len() && path.take(d.len() as int) == d)
}

/// `path` is one of the directories or lies below one (paths compared as
/// written).
pub open spec fn under_any(path: Seq<char>, dirs: Seq<Seq<char>>) -> bool {
    exists|i: int| 0 <= i < dirs.len() && under_dir(path, #[trigger] dirs[i])
}

/// A path as Windows compares it: separators unified, lowercased.
pub open spec fn win_form(s: Seq<char>) -> Seq<char> {
    str_lowercase(slashes(s))
}

/// The per-drive directories a Windows scan always skips: the recycle bin
/// and the shadow-copy store.
pub open spec fn is_special_name(n: Seq<char>) -> bool {
    n == "$recycle.bin"@ || n == "system volume information"@
}

/// Some component of `path` (either separator) is, lowercased, a special
/// directory.
pub open spec fn has_special_component(path: Seq<char>) -> bool {
    let c = components(slashes(path));
    exists|k: int| 0 <= k < c.len() && is_special_name(str_lowercase(#[trigger] c[k]))
}

/// Whether a walk skips `path`: it is one of the excluded directories or
/// lies below one. On Windows the comparison ignores case and separator
/// style, and the recycle bin and shadow-copy store are always skipped.
pub open spec fn excluded(path: Seq<char>, dirs: Seq<Seq<char>>, platform: Platform) -> bool {
    if platform == Platform::Windows {
        under_any(win_form(path), dirs.map_values(|d: Seq<char>| win_form(d)))
            || has_special_component(path)
    } else {
        under_any(path, dirs)
    }
}

/// `path` is `dir` or lies below it, both compared as given.
fn under_dir_exec(path: &str, dir: &str) -> (b: bool)
    ensures
        b == under_dir(path@, dir@),
{
    let mut prefix = dir.to_owned();
    crate::text::push_char(&mut prefix, '/');
    same_text(path, dir) || starts_with(path, prefix.as_str())
}

fn excluded_windows(path: &str, dirs: &Vec<String>) -> (b: bool)
    ensures
        b == excluded(path@, strings(dirs@), Platform::Windows),
{
    let ghost wd = strings(dirs@).map_values(|d: Seq<char>| win_form(d));
    let sp = slashes_exec(path);
    let p = str_to_lowercase(sp.as_str());
    let mut i: usize = 0;
    while i < dirs.len()
        invariant
            i <= dirs.len(),
            p@ == win_form(path@),
            wd == strings(dirs@).map_values(|d: Seq<char>| win_form(d)),
            forall|k: int| 0 <= k < i ==> !under_dir(p@, #[trigger] wd[k]),
        decreases dirs.len() - i,
    {
        let sd = slashes_exec(dirs[i].as_str());
        let d = str_to_lowercase(sd.as_str());
        proof {
            assert(wd[i as int] == win_form(dirs@[i as int]@));
        }
        if under_dir_exec(p.as_str(), d.as_str()) {
            return true;
        }
        i = i + 1;
    }
    let comps = path_components(sp.as_str());
    let ghost cs = comps@.map_values(|c: Vec<char>| c@);
    let mut k: usize = 0;
    while k < comps.len()
        invariant
            k <= comps.len(),
            cs == comps@.map_values(|c: Vec<char>| c@),
            cs == components(slashes(path@)),
            !under_any(win_form(path@), wd),
            forall|q: int| 0 <= q < k ==> !is_special_name(str_lowercase(#[trigger] cs[q])),
        decreases comps.len() - k,
    {
        let name = str_to_lowercase(string_of(comps[k].as_slice()).as_str());
        proof {
            assert(cs[k as int] == comps@[k as int]@);
        }
        if same_text(name.as_str(), "$recycle.bin") || same_text(name.as_str(), "system volume information") {
            return true;
        }
        k = k + 1;
    }
    false
}

/// Whether a walk skips `path` (and, for a directory, its whole tree).
pub fn is_excluded(path: &str, options: &ScanOptions) -> (b: bool)
    ensures
        b == excluded(path@, strings(options.exclude_dirs@), options.platform),
{
    if options.platform == Platform::Windows {
        return excluded_windows(path, &options.exclude_dirs);
    }
    let ghost dirs = strings(options.exclude_dirs@);
    let mut i: usize = 0;
    while i < options.exclude_dirs.len()
        invariant
            i <= options.exclude_dirs.len(),
            options.platform != Platform::Windows,
            dirs == strings(options.exclude_dirs@),
            forall|k: int| 0 <= k < i ==> !under_dir(path@, #[trigger] dirs[k]),
        decreases options.exclude_dirs.len() - i,
    {
        let d = options.exclude_dirs[i].as_str();
        proof {
            assert(dirs[i as int] == d@);
        }
        if under_dir_exec(path, d) {
            return true;
        }
        i = i + 1;
    }
    false
}

/// Excluding a directory excludes everything below it (paths compared as
/// written, as everywhere but on Windows).
pub proof fn law_exclusion_covers_the_tree(
    dirs: Seq<Seq<char>>,
    i: int,
    rest: Seq<char>,
    platform: Platform,
)
    requires
        0 <= i < dirs.len(),
        platform != Platform::Windows,
    ensures
        excluded(dirs[i], dirs, platform),
        excluded(dirs[i].push('/') + rest, dirs, platform),
{
    let d = dirs[i].push('/');
    assert((d + rest).take(d.len() as int) =~= d);
    assert(under_dir(dirs[i].push('/') + rest, dirs[i]));
    assert(under_dir(dirs[i], dirs[i]));
}

/// The extension of a file name (what `Path::extension` gives): what follows
/// the last dot, unless there is none or the only dot starts the name.
pub open spec fn extension_of(name: Seq<char>) -> Option<Seq<char>> {
    let k = last_index(name, '.');
    if k <= 0 {
        None
    } else {
        Some(name.skip(k + 1))
    }
}

/// The extension of `name`.
pub fn extension(name: &str) -> (r: Option<String>)
    ensures
        r matches Some(e) ==> extension_of(name@) == Some(e@),
        r is None ==> extension_of(name@) is None,
{
    let v = chars_of(name);
    let mut k = v.len();
    while k > 0 && v[k - 1] != '.'
        invariant
            k <= v.len(),
            v@ == name@,
            forall|q: int| k <= q < v.len() ==> v@[q] != '.',
        decreases k,
    {
        k = k - 1;
    }
    proof {
        lemma_last_index(v@, '.');
        if k > 0 {
            assert(last_index(v@, '.') == k - 1);
        } else {
            assert(last_index(v@, '.') == -1);
        }
    }
    if k <= 1 {
        return None;
    }
    let mut e: Vec<char> = Vec::new();
    let mut q = k;
    while q < v.len()
        invariant
            k <= q <= v.len(),
            e@ == v@.subrange(k as int, q as int),
        decreases v.len() - q,
    {
        e.push(v[q]);
        q = q + 1;
    }
    proof {
        assert(v@.skip(k as int) =~= v@.subrange(k as int, v.len() as int));
    }
    Some(string_of(e.as_slice()))
}

/// The view of a file entry's fields: path, name, extension, size, mtime.
pub open spec fn entry_of(path: Seq<char>, size: u64, mtime: u64, platform: Platform) -> Option<
    (Seq<char>, Seq<char>, Seq<char>, u64, u64),
> {
    match name_on(path, platform) {
        None => None,
        Some(n) => Some(
            (
                path,
                n,
                match extension_of(n) {
                    Some(e) => str_lowercase(e),
                    None => Seq::empty(),
                },
                size,
                mtime,
            ),
        ),
    }
}

/// The record of the file at `path` with the given metadata: `None` when the
/// path has no final component.
pub fn file_entry(path: &str, size: u64, mtime: u64, platform: Platform) -> (r: Option<FileEntry>)
    ensures
        r matches Some(fe) ==> entry_of(path@, size, mtime, platform) == Some(
            (fe.path@, fe.name@, fe.ext@, fe.size, fe.mtime),
        ),
        r is None ==> entry_of(path@, size, mtime, platform) is None,
{
    let name = match file_name_on(path, platform) {
        Some(n) => n,
        None => {
            return None;
        },
    };
    let ext = match extension(name.as_str()) {
        Some(e) => str_to_lowercase(e.as_str()),
        None => String::new(),
    };
    Some(FileEntry { path: path.to_owned(), name, ext, size, mtime })
}

/// A warning about an entry: `location: message`, or the message alone
/// when the location is unknown.
pub open spec fn warning_text(loc: Seq<char>, msg: Seq<char>) -> Seq<char> {
    if loc.len() == 0 {
        msg
    } else {
        loc + seq![':', ' '] + msg
    }
}

/// The warning text for `loc` and `msg`.
pub fn format_warning(loc: &str, msg: &str) -> (w: String)
    ensures
        w@ == warning_text(loc@, msg@),
{
    if loc.as_bytes().len() == 0 {
        proof {
            vstd::utf8::encode_utf8_decode_utf8(loc@);
        }
        return msg.to_owned();
    }
    let mut w = loc.to_owned();
    push_str(&mut w, ": ");
    push_str(&mut w, msg);
    proof {
        reveal_strlit(": ");
        if loc@.len() == 0 {
            assert(vstd::utf8::encode_utf8(loc@) =~= Seq::<u8>::empty());
        }
        assert(w@ =~= warning_text(loc@, msg@));
    }
    w
}

/// Add a warning unless [`MAX_SCAN_WARNINGS`] are already collected.
pub fn push_warning(warnings: &mut Vec<String>, w: String)
    ensures
        final(warnings)@ == (if old(warnings)@.len() < MAX_SCAN_WARNINGS {
            old(warnings)@.push(w)
        } else {
            old(warnings)@
        }),
        old(warnings)@.len() <= MAX_SCAN_WARNINGS ==> final(warnings)@.len() <= MAX_SCAN_WARNINGS,
{
    if warnings.len() < MAX_SCAN_WARNINGS {
        warnings.push(w);
    }
}

} // verus!
