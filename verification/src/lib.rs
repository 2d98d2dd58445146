use vstd::prelude::*;

pub mod configpath;
pub mod configsource;
pub mod decode;
pub mod merger;
pub mod value;

pub use configpath::ConfigPath;
pub use configpath::DefaultPathResolver;
pub use configpath::SegmentedPath;
pub use configsource::ConfigSource;
pub use configsource::FileConfigSource;
pub use configsource::StringConfigSource;
pub use merger::DefaultConfigMerger;
pub use value::SpecValue;
pub use value::ConfigValue;

use crate::configpath::spec_resolve;
use crate::decode::{decode_tree, parse_str, parsed_tree};
use crate::merger::spec_merge;

verus! {

/// A configuration: one value tree, read from a text or built directly,
/// queried by dotted path, and combined with other configurations by deep,
/// right-biased merge.
#[derive(Debug)]
pub struct Config {
    config: ConfigValue,
}

impl View for Config {
    type V = SpecValue;

    closed spec fn view(&self) -> SpecValue {
        self.config@
    }
}

impl Config {
    /// Wraps an already-built tree; no validation.
    pub fn from_value(value: ConfigValue) -> (c: Config)
        ensures
            c@ == value@,
    {
        Config { config: value }
    }

    /// Reads a configuration from a text that is known to parse; callers
    /// that cannot know go through `try_from_string` instead.
    pub fn from_string(val: &str) -> (c: Config)
        requires
            parsed_tree(val@) is Some,
        ensures
            parsed_tree(val@) == Some(c@),
    {
        match parse_str(val) {
            Some(v) => Config { config: v },
            None => Config { config: ConfigValue::Unit },
        }
    }

    /// Reads a configuration from a text, or nothing when it does not
    /// parse.
    pub fn try_from_string(val: &str) -> (c: Option<Config>)
        ensures
            match c {
                Some(cfg) => parsed_tree(val@) == Some(cfg@),
                None => parsed_tree(val@) is None,
            },
    {
        let probe = parse_str(val);
        match probe {
            Some(_) => Some(Config::from_string(val)),
            None => None,
        }
    }

    /// Resolves a path against the held tree.
    pub fn resolve(&self, path: ConfigPath) -> (r: Option<&ConfigValue>)
        ensures
            match r {
                Some(v) => spec_resolve(self@, path@) == Some(v@),
                None => spec_resolve(self@, path@) is None,
            },
    {
        DefaultPathResolver::find(&self.config, path)
    }

    /// Resolves a path, then serde-decodes the sub-tree reached into `T`;
    /// nothing when resolution fails or the sub-tree does not decode as a
    /// `T` — the two misses are indistinguishable here.
    pub fn try_get<T: serde::de::DeserializeOwned>(&self, path: ConfigPath) -> (r: Option<T>)
        ensures
            spec_resolve(self@, path@) is None ==> r is None,
    {
        match DefaultPathResolver::find(&self.config, path) {
            Some(v) => decode_tree::<T>(v),
            None => None,
        }
    }

    /// Merges `other` into this configuration: `other` is the override
    /// side, so its values win wherever both define the same slot.
    pub fn merge(&mut self, other: Config)
        ensures
            final(self)@ == spec_merge(old(self)@, other@),
    {
        let merged = DefaultConfigMerger::merge_trees(&self.config, &other.config);
        self.config = merged;
    }
}

} // verus!
