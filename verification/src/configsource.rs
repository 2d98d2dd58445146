use vstd::prelude::*;

use crate::decode::{parse_str, parsed_tree};
use crate::value::{SpecValue, ConfigValue};

verus! {

/// A provider of one configuration tree.
pub trait ConfigSource {
    /// The tree the source stands for, or nothing when it has none.
    spec fn spec_value(&self) -> Option<SpecValue>;

    /// Produces the source's tree.
    fn get_value(&self) -> (v: Option<ConfigValue>)
        ensures
            match v {
                Some(t) => self.spec_value() == Some(t@),
                None => self.spec_value() is None,
            },
    ;
}

/// A source that will read its text from a file. Reading is I/O and lives
/// with the caller; this only remembers where to read.
pub struct FileConfigSource {
    path: String,
}

impl View for FileConfigSource {
    type V = Seq<char>;

    closed spec fn view(&self) -> Seq<char> {
        self.path@
    }
}

impl FileConfigSource {
    /// Remembers the path of the file to read.
    pub fn new(path: String) -> (s: FileConfigSource)
        ensures
            s@ == path@,
    {
        FileConfigSource { path }
    }

    /// The remembered path.
    pub fn path(&self) -> (p: &String)
        ensures
            p@ == self@,
    {
        &self.path
    }
}

/// A source that parses its tree from a held text.
pub struct StringConfigSource {
    string: String,
}

impl View for StringConfigSource {
    type V = Seq<char>;

    closed spec fn view(&self) -> Seq<char> {
        self.string@
    }
}

impl StringConfigSource {
    /// Remembers the text to parse.
    pub fn new(string: &str) -> (s: StringConfigSource)
        ensures
            s@ == string@,
    {
        StringConfigSource { string: string.to_owned() }
    }
}

impl ConfigSource for StringConfigSource {
    open spec fn spec_value(&self) -> Option<SpecValue> {
        parsed_tree(self@)
    }

    fn get_value(&self) -> (v: Option<ConfigValue>) {
        parse_str(self.string.as_str())
    }
}

} // verus!
