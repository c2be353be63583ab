//! The failures that evaluation and lowering report.

use vstd::prelude::*;

verus! {

/// Why an evaluation or lowering step failed. Every failure is local to the
/// node or path that raised it.
#[derive(Clone, Copy, Debug, PartialEq, Eq, Structural)]
pub enum Error {
    /// A node or predicate lacks a field it needs, or the field is malformed.
    ConfigurationError,
    /// The requested output branch does not exist for the node's kind.
    UnknownBranch,
    /// A predicate names a kind that lowering does not know.
    UnknownNodeKind,
    /// An extension script could not be run or answered outside its envelope.
    PluginError,
    /// An identifier refers to nothing in the graph.
    NotFoundError,
    /// A known predicate for which no lowering rule exists.
    UnsupportedLowering,
}

impl Error {
    /// A short human-readable description.
    pub fn message(&self) -> (text: String)
        ensures
            text@ == self.message_spec(),
    {
        match self {
            Error::ConfigurationError => "a required field is missing or malformed".to_string(),
            Error::UnknownBranch => "the node has no such output branch".to_string(),
            Error::UnknownNodeKind => "unknown node kind".to_string(),
            Error::PluginError => "the extension script failed".to_string(),
            Error::NotFoundError => "no such node, port or extension".to_string(),
            Error::UnsupportedLowering => "no lowering rule for this predicate".to_string(),
        }
    }

    /// The text that [`Error::message`] returns.
    pub open spec fn message_spec(&self) -> Seq<char> {
        match self {
            Error::ConfigurationError => "a required field is missing or malformed"@,
            Error::UnknownBranch => "the node has no such output branch"@,
            Error::UnknownNodeKind => "unknown node kind"@,
            Error::PluginError => "the extension script failed"@,
            Error::NotFoundError => "no such node, port or extension"@,
            Error::UnsupportedLowering => "no lowering rule for this predicate"@,
        }
    }
}

} // verus!
