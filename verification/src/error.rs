//! The errors that loading and lookups report.

use vstd::prelude::*;

verus! {

/// Why a buffer could not be loaded as an archive.
#[derive(Clone, Copy, Debug, PartialEq, Eq, Structural)]
pub enum LoadError {
    /// The buffer is shorter than the header.
    MalformedHeader,
    /// The buffer ends before the declared number of table records.
    MalformedTableDirectory,
    /// A table declares more entry records than the buffer holds at its
    /// offset.
    MalformedEntryIndex,
}

/// Why a lookup in a loaded archive gave no bytes.
#[derive(Clone, Copy, Debug, PartialEq, Eq, Structural)]
pub enum LookupError {
    /// The entry's offset and size reach past the end of the buffer.
    OutOfBounds,
    /// The requested extension stands for no kind of the registry.
    UnknownExtension,
    /// The requested name is not an identifier, a dot and an extension.
    InvalidName,
    /// No table of the kind, or no entry with the identifier.
    NotFound,
}

impl LoadError {
    /// A short description for messages.
    pub fn message(self) -> (text: &'static str)
        ensures
            text@ == self.spec_message()@,
    {
        match self {
            LoadError::MalformedHeader => "archive header is truncated",
            LoadError::MalformedTableDirectory => "table directory is truncated",
            LoadError::MalformedEntryIndex => "entry index is truncated",
        }
    }

    /// The text of `message`.
    pub open spec fn spec_message(self) -> &'static str {
        match self {
            LoadError::MalformedHeader => "archive header is truncated",
            LoadError::MalformedTableDirectory => "table directory is truncated",
            LoadError::MalformedEntryIndex => "entry index is truncated",
        }
    }
}

impl LookupError {
    /// A short description for messages.
    pub fn message(self) -> (text: &'static str)
        ensures
            text@ == self.spec_message()@,
    {
        match self {
            LookupError::OutOfBounds => "entry reaches past the end of the archive",
            LookupError::UnknownExtension => "extension is not one of slp, shp, bin, wav",
            LookupError::InvalidName => "name is not of the form <id>.<extension>",
            LookupError::NotFound => "no such table or entry",
        }
    }

    /// The text of `message`.
    pub open spec fn spec_message(self) -> &'static str {
        match self {
            LookupError::OutOfBounds => "entry reaches past the end of the archive",
            LookupError::UnknownExtension => "extension is not one of slp, shp, bin, wav",
            LookupError::InvalidName => "name is not of the form <id>.<extension>",
            LookupError::NotFound => "no such table or entry",
        }
    }
}

} // verus!
