//! The error types of the library and the messages they display.

use vstd::prelude::*;
use crate::fs::IoError;
use vstd::std_specs::convert::FromSpecImpl;

verus! {

/// Everything that can go wrong while configuring, processing, rendering or
/// writing a site.
///
/// Values that the library receives from the operating system (an I/O
/// failure, the cause of a metadata failure) are held as the text they
/// display.
#[derive(Debug, Clone, PartialEq, Eq)]
pub enum Error {
    Io(String),
    Config(String),
    Metadata { path: String, source: String },
    Render(String),
    Processor(String),
    Generator(String),
    PathTraversal(String),
    MissingConfig(String),
    Generation(String),
    NotFound(String),
    Serialization(String),
    Validation(String),
    Duplicate(String),
    InvalidState(String),
    Internal(String),
}

/// The result type of the library's fallible operations.
pub type Result<T> = core::result::Result<T, Error>;

/// `prefix` followed by `detail`.
fn prefixed(prefix: &str, detail: &String) -> (r: String)
    ensures
        r@ == prefix@ + detail@,
{
    let mut r = prefix.to_owned();
    r.append(detail.as_str());
    r
}

impl Error {
    /// The text that the error displays.
    pub open spec fn message(&self) -> Seq<char> {
        match self {
            Error::Io(m) => "I/O error: "@ + m@,
            Error::Config(m) => "Configuration error: "@ + m@,
            Error::Metadata { path, source } => "Failed to parse metadata in "@ + path@,
            Error::Render(m) => "Template rendering error: "@ + m@,
            Error::Processor(m) => "Content processor error: "@ + m@,
            Error::Generator(m) => "Generator error: "@ + m@,
            Error::PathTraversal(m) => "Path traversal attempt detected: "@ + m@,
            Error::MissingConfig(m) => "Missing configuration key: "@ + m@,
            Error::Generation(m) => "Site generation error: "@ + m@,
            Error::NotFound(m) => "Resource not found: "@ + m@,
            Error::Serialization(m) => "Serialization error: "@ + m@,
            Error::Validation(m) => "Validation error: "@ + m@,
            Error::Duplicate(m) => "Duplicate value: "@ + m@,
            Error::InvalidState(m) => "Invalid state: "@ + m@,
            Error::Internal(m) => "Internal error: "@ + m@,
        }
    }

    /// The text that the error displays.
    pub fn to_string(&self) -> (r: String)
        ensures
            r@ == self.message(),
    {
        match self {
            Error::Io(m) => prefixed("I/O error: ", m),
            Error::Config(m) => prefixed("Configuration error: ", m),
            Error::Metadata { path, source } => prefixed("Failed to parse metadata in ", path),
            Error::Render(m) => prefixed("Template rendering error: ", m),
            Error::Processor(m) => prefixed("Content processor error: ", m),
            Error::Generator(m) => prefixed("Generator error: ", m),
            Error::PathTraversal(m) => prefixed("Path traversal attempt detected: ", m),
            Error::MissingConfig(m) => prefixed("Missing configuration key: ", m),
            Error::Generation(m) => prefixed("Site generation error: ", m),
            Error::NotFound(m) => prefixed("Resource not found: ", m),
            Error::Serialization(m) => prefixed("Serialization error: ", m),
            Error::Validation(m) => prefixed("Validation error: ", m),
            Error::Duplicate(m) => prefixed("Duplicate value: ", m),
            Error::InvalidState(m) => prefixed("Invalid state: ", m),
            Error::Internal(m) => prefixed("Internal error: ", m),
        }
    }

    /// The text of the underlying cause, which only a metadata failure has.
    pub fn source_message(&self) -> (r: Option<String>)
        ensures
            match self {
                Error::Metadata { path, source } => r matches Some(s) && s@ == source@,
                _ => r is None,
            },
    {
        match self {
            Error::Metadata { path, source } => Some(source.clone()),
            _ => None,
        }
    }
}

/// The errors of the single-crate site builder.
#[derive(Debug, Clone, PartialEq, Eq)]
pub enum RawssgError {
    Io(String),
    Config(String),
    Frontmatter { path: String, source: String },
    Template(String),
    PathTraversal(String),
    MissingConfig(String),
    Markdown(String),
    SiteGeneration(String),
    NotFound(String),
    Internal(String),
}

impl RawssgError {
    /// The text that the error displays.
    pub open spec fn message(&self) -> Seq<char> {
        match self {
            RawssgError::Io(m) => "I/O error"@,
            RawssgError::Config(m) => "Configuration error: "@ + m@,
            RawssgError::Frontmatter { path, source } => "Failed to parse frontmatter in "@ + path@,
            RawssgError::Template(m) => "Template rendering error: "@ + m@,
            RawssgError::PathTraversal(m) => "Path traversal attempt detected: "@ + m@,
            RawssgError::MissingConfig(m) => "Missing configuration key: "@ + m@,
            RawssgError::Markdown(m) => "Markdown processing error: "@ + m@,
            RawssgError::SiteGeneration(m) => "Site generation error: "@ + m@,
            RawssgError::NotFound(m) => "Resource not found: "@ + m@,
            RawssgError::Internal(m) => "Internal error: "@ + m@,
        }
    }

    /// The text that the error displays.
    pub fn to_string(&self) -> (r: String)
        ensures
            r@ == self.message(),
    {
        match self {
            RawssgError::Io(m) => "I/O error".to_owned(),
            RawssgError::Config(m) => prefixed("Configuration error: ", m),
            RawssgError::Frontmatter { path, source } => prefixed("Failed to parse frontmatter in ", path),
            RawssgError::Template(m) => prefixed("Template rendering error: ", m),
            RawssgError::PathTraversal(m) => prefixed("Path traversal attempt detected: ", m),
            RawssgError::MissingConfig(m) => prefixed("Missing configuration key: ", m),
            RawssgError::Markdown(m) => prefixed("Markdown processing error: ", m),
            RawssgError::SiteGeneration(m) => prefixed("Site generation error: ", m),
            RawssgError::NotFound(m) => prefixed("Resource not found: ", m),
            RawssgError::Internal(m) => prefixed("Internal error: ", m),
        }
    }

    /// The text of the underlying cause: the I/O failure's text, or the
    /// front matter failure's cause.
    pub fn source_message(&self) -> (r: Option<String>)
        ensures
            match self {
                RawssgError::Io(m) => r matches Some(s) && s@ == m@,
                RawssgError::Frontmatter { path, source } => r matches Some(s) && s@ == source@,
                _ => r is None,
            },
    {
        match self {
            RawssgError::Io(m) => Some(m.clone()),
            RawssgError::Frontmatter { path, source } => Some(source.clone()),
            _ => None,
        }
    }
}

impl From<IoError> for Error {
    /// An I/O failure, held as the text it displays.
    fn from(e: IoError) -> (r: Error) {
        Error::Io(e.message)
    }
}

impl FromSpecImpl<IoError> for Error {
    open spec fn obeys_from_spec() -> bool {
        true
    }

    open spec fn from_spec(v: IoError) -> Error {
        Error::Io(v.message)
    }
}

impl From<IoError> for RawssgError {
    /// An I/O failure, held as the text it displays.
    fn from(e: IoError) -> (r: RawssgError) {
        RawssgError::Io(e.message)
    }
}

impl FromSpecImpl<IoError> for RawssgError {
    open spec fn obeys_from_spec() -> bool {
        true
    }

    open spec fn from_spec(v: IoError) -> RawssgError {
        RawssgError::Io(v.message)
    }
}

} // verus!
