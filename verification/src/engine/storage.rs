//! The key/value store's layout: one JSON file per key in the data
//! directory.
use vstd::prelude::*;
use crate::engine::paths::{join, join_spec, Platform};
use crate::text::push_str;

verus! {

/// A JSON key/value store rooted in a directory.
pub struct Store {
    dir: String,
    platform: Platform,
}

impl Store {
    /// The directory the store lives in.
    pub closed spec fn spec_dir(&self) -> Seq<char> {
        self.dir@
    }

    /// How the store's paths are put together.
    pub closed spec fn spec_platform(&self) -> Platform {
        self.platform
    }

    /// A store rooted in `dir`, with paths of `platform`.
    pub fn with_dir(dir: String, platform: Platform) -> (s: Self)
        ensures
            s.spec_dir() == dir@,
            s.spec_platform() == platform,
    {
        Store { dir, platform }
    }

    /// The file that holds `key`: `<key>.json` in the store's directory.
    pub fn path(&self, key: &str) -> (p: String)
        ensures
            p@ == join_spec(self.spec_dir(), key@ + ".json"@, self.spec_platform()),
    {
        let mut name = key.to_owned();
        push_str(&mut name, ".json");
        join(self.dir.as_str(), name.as_str(), self.platform)
    }

    /// The directory the store lives in.
    pub fn dir(&self) -> (d: &str)
        ensures
            d@ == self.spec_dir(),
    {
        self.dir.as_str()
    }
}

} // verus!
