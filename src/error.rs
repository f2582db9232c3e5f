//! Why building the page cache failed.

use vstd::prelude::*;

verus! {

/// A build failure. Each one stops the build: no partial cache is produced.
#[derive(Debug)]
pub enum StartError {
    /// A file or directory could not be read.
    IoError(String),
    /// The template lacks a required placeholder.
    TemplateError,
    /// A path or a file's content is not UTF-8.
    EncodingError,
    /// Two documents derive the same url.
    DuplicateUrl(String),
    /// An emoji pattern has no readable asset.
    MissingAsset(String),
    /// The emoji patterns could not be compiled into an automaton.
    PatternError,
}

} // verus!
