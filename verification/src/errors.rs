//! The error taxonomy surfaced to callers. Every failure is fatal to the
//! operation that raised it; nothing is downgraded to a warning.

use vstd::prelude::*;

verus! {

/// An error raised while parsing, collecting or linting.
#[derive(Debug)]
pub enum MaltError {
    /// Following an alias chain revisited a name; the chain holds the visited
    /// names in order, ending with the revisited one.
    CyclicAlias { chain: Vec<String> },
    /// A root path does not exist or is not usable.
    FilePath(String),
    /// An alias target is not present in the collection.
    NameResolution(String),
    /// A read of a file or directory failed.
    Io(String),
    /// The grammar could not be loaded into the syntax-tree parser.
    TreeSitter(String),
    /// The grammar produced no tree for a file.
    Parse(String),
    /// An invalid engine configuration.
    Config(String),
}

} // verus!
