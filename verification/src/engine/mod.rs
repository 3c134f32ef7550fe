//! Core business logic: scanning, extraction, indexing, searching, sensitive
//! rules, batches, storage layout and change watching.
pub mod batch;
pub mod extractor;
pub mod indexer;
pub mod paths;
pub mod scanner;
pub mod searcher;
pub mod sensitive;
pub mod storage;
pub mod watcher;

use vstd::prelude::*;
use crate::engine::paths::{join, join_spec, Platform};
use crate::text::{chars_of, string_of, trim_range, trim_ws};

verus! {

/// Application identifier.
pub const APP_ID: &'static str = "cn.helilab.docsniffer";

/// Store key holding the user-chosen index directory, if any.
pub const INDEX_DIR_KEY: &'static str = "index_dir";

/// `dirs::data_local_dir`, as a string. It reads the environment, so
/// nothing is stated of the result.
#[verifier::external_body]
fn data_local_dir() -> Option<String> {
    dirs::data_local_dir().map(|p| p.to_string_lossy().into_owned())
}

/// `dirs::data_dir`, as a string. It reads the environment, so nothing is
/// stated of the result.
#[verifier::external_body]
fn data_dir() -> Option<String> {
    dirs::data_dir().map(|p| p.to_string_lossy().into_owned())
}

/// `dirs::home_dir`, as a string. It reads the environment, so nothing is
/// stated of the result.
#[verifier::external_body]
fn home_dir() -> Option<String> {
    dirs::home_dir().map(|p| p.to_string_lossy().into_owned())
}

/// The data directory: `Data` next to the executable in portable mode
/// (`portable_parent` is the executable's directory when `PORTABLE.flag`
/// lies there), else `DocSniffer` in the first of the per-user local data,
/// data and home directories that exists, else in the temporary directory.
pub open spec fn data_dir_spec(
    portable_parent: Option<Seq<char>>,
    local: Option<Seq<char>>,
    data: Option<Seq<char>>,
    home: Option<Seq<char>>,
    temp: Seq<char>,
    platform: Platform,
) -> Seq<char> {
    match portable_parent {
        Some(p) => join_spec(p, "Data"@, platform),
        None => {
            let base = match local {
                Some(b) => b,
                None => match data {
                    Some(b) => b,
                    None => match home {
                        Some(b) => b,
                        None => temp,
                    },
                },
            };
            join_spec(base, "DocSniffer"@, platform)
        },
    }
}

/// The optional string's characters.
pub open spec fn opt_chars(o: Option<String>) -> Option<Seq<char>> {
    match o {
        Some(s) => Some(s@),
        None => None,
    }
}

/// The data directory from the portable flag and the candidate base
/// directories.
pub fn data_dir_from(
    portable_parent: Option<String>,
    local: Option<String>,
    data: Option<String>,
    home: Option<String>,
    temp: &str,
    platform: Platform,
) -> (d: String)
    ensures
        d@ == data_dir_spec(
            opt_chars(portable_parent),
            opt_chars(local),
            opt_chars(data),
            opt_chars(home),
            temp@,
            platform,
        ),
{
    match portable_parent {
        Some(p) => join(p.as_str(), "Data", platform),
        None => {
            let base = match local {
                Some(b) => b,
                None => match data {
                    Some(b) => b,
                    None => match home {
                        Some(b) => b,
                        None => temp.to_owned(),
                    },
                },
            };
            join(base.as_str(), "DocSniffer", platform)
        },
    }
}

/// Resolve the application data directory. `portable_parent` is the
/// executable's directory when a `PORTABLE.flag` file lies next to it;
/// `temp` is the temporary directory, the last resort.
pub fn resolve_data_dir(portable_parent: Option<String>, temp: &str, platform: Platform) -> (d: String)
    ensures
        portable_parent matches Some(p) ==> d@ == join_spec(p@, "Data"@, platform),
        portable_parent is None ==> exists|base: Seq<char>|
            d@ == join_spec(base, "DocSniffer"@, platform),
{
    if portable_parent.is_some() {
        return data_dir_from(portable_parent, None, None, None, temp, platform);
    }
    let local = data_local_dir();
    let data = data_dir();
    let home = home_dir();
    let d = data_dir_from(None, local, data, home, temp, platform);
    assert(d@ == data_dir_spec(
        None,
        opt_chars(local),
        opt_chars(data),
        opt_chars(home),
        temp@,
        platform,
    ));
    d
}

/// Where the index lives: the directory stored under [`INDEX_DIR_KEY`],
/// trimmed, when that is not blank; else `index` in the data directory.
pub open spec fn index_dir_spec(stored: Option<Seq<char>>, data_dir: Seq<char>, platform: Platform) -> Seq<char> {
    match stored {
        Some(s) => if trim_ws(s).len() > 0 {
            trim_ws(s)
        } else {
            join_spec(data_dir, "index"@, platform)
        },
        None => join_spec(data_dir, "index"@, platform),
    }
}

/// Resolve the index directory from the stored setting and the data
/// directory.
pub fn resolve_index_dir(stored: Option<String>, data_dir: &str, platform: Platform) -> (d: String)
    ensures
        d@ == index_dir_spec(opt_chars(stored), data_dir@, platform),
{
    match stored {
        Some(custom) => {
            let v = chars_of(custom.as_str());
            let t = trim_range(&v, 0, v.len());
            proof {
                assert(v@.subrange(0, v@.len() as int) =~= v@);
            }
            if t.len() > 0 {
                string_of(t.as_slice())
            } else {
                join(data_dir, "index", platform)
            }
        },
        None => join(data_dir, "index", platform),
    }
}

} // verus!
