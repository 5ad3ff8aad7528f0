//! The errors of the library.

use vstd::prelude::*;
use crate::text::{append_chars, chars_of, string_of};

verus! {

/// What can go wrong. Each variant carries a description or the path concerned.
#[derive(Debug)]
pub enum EruError {
    Io(String),
    EpubParse(String),
    InvalidPattern(String),
    MetadataExtraction(String),
    PathNotFound(String),
    InvalidPath(String),
    NotAnEpub(String),
    Network(String),
    Provider(String),
    ExternalTool(String),
}

/// The result of an operation of this library.
pub type Result<T> = std::result::Result<T, EruError>;

/// The text that introduces each kind of error in its message.
pub open spec fn error_prefix(e: EruError) -> Seq<char> {
    match e {
        EruError::Io(_) => "IO error: "@,
        EruError::EpubParse(_) => "EPUB parsing error: "@,
        EruError::InvalidPattern(_) => "Invalid rename pattern: "@,
        EruError::MetadataExtraction(_) => "Metadata extraction failed: "@,
        EruError::PathNotFound(_) => "Path not found: "@,
        EruError::InvalidPath(_) => "Invalid path: "@,
        EruError::NotAnEpub(_) => "Not an EPUB file: "@,
        EruError::Network(_) => "Network error: "@,
        EruError::Provider(_) => "Provider error: "@,
        EruError::ExternalTool(_) => "External tool failed: "@,
    }
}

/// The description or path that an error carries.
pub open spec fn error_detail(e: EruError) -> Seq<char> {
    match e {
        EruError::Io(s) => s@,
        EruError::EpubParse(s) => s@,
        EruError::InvalidPattern(s) => s@,
        EruError::MetadataExtraction(s) => s@,
        EruError::PathNotFound(s) => s@,
        EruError::InvalidPath(s) => s@,
        EruError::NotAnEpub(s) => s@,
        EruError::Network(s) => s@,
        EruError::Provider(s) => s@,
        EruError::ExternalTool(s) => s@,
    }
}

impl EruError {
    /// The message that reports this error.
    pub fn message(&self) -> (res: String)
        ensures
            res@ == error_prefix(*self) + error_detail(*self),
    {
        let (prefix, detail) = match self {
            EruError::Io(s) => ("IO error: ", s),
            EruError::EpubParse(s) => ("EPUB parsing error: ", s),
            EruError::InvalidPattern(s) => ("Invalid rename pattern: ", s),
            EruError::MetadataExtraction(s) => ("Metadata extraction failed: ", s),
            EruError::PathNotFound(s) => ("Path not found: ", s),
            EruError::InvalidPath(s) => ("Invalid path: ", s),
            EruError::NotAnEpub(s) => ("Not an EPUB file: ", s),
            EruError::Network(s) => ("Network error: ", s),
            EruError::Provider(s) => ("Provider error: ", s),
            EruError::ExternalTool(s) => ("External tool failed: ", s),
        };
        let mut out = chars_of(prefix);
        let d = chars_of(detail.as_str());
        append_chars(&mut out, &d);
        string_of(&out)
    }
}

} // verus!
