//! Error taxonomy of the preprocessor core.
//!
//! Failures caused by outside tools carry the tool's message as plain text.

use vstd::prelude::*;

verus! {

/// Everything that can go wrong while preprocessing a book.
///
/// A missing external fragment file is not listed here: it is recovered
/// per directive (the directive is skipped with a warning), not raised.
#[derive(Debug, Clone, PartialEq, Eq)]
pub enum Error {
    /// Re-rendering commonmark events failed.
    CommonMarkGlue(String),
    /// A version requirement could not be parsed or checked.
    SemVer(String),
    /// The renderer named by the host is not one this preprocessor knows.
    RendererNotSupported(String),
    /// The typesetting tool rejected math content: message, offending
    /// source excerpt, and the line the tool reported.
    InvalidMath(String, String, usize),
    /// An inline reference names a key that the reference table lacks.
    InvalidReference { to: String, lineno: usize },
    /// An inline reference names a kind other than `fig`, `bib` or `equ`.
    UnknownReferenceKind { kind: String, lineno: usize },
    /// An inline reference does not have exactly a kind and a key.
    UnexpectedReferenceArgCount { count: usize, lineno: usize },
    /// The bibliography conversion tool reported errors.
    InvalidBibliography(String),
    /// The DVI-to-SVG conversion tool failed.
    InvalidDvisvgm(String),
    /// A required external binary was not found on the search path.
    BinaryNotFound { binary: String, error: String },
    /// A line held an odd number of unescaped inline markers.
    ///
    /// The scanner of this crate follows the permissive policy and closes
    /// an open span at end of line instead of raising this, so it is kept
    /// only for callers that enforce the strict policy themselves.
    UnevenNumberDollar,
    /// The host configuration has no section for this preprocessor.
    KeySectionNotFound,
    /// A filesystem operation failed.
    Io(String),
    /// The configured bibliography file does not exist.
    BibliographyMissing(String),
    /// The bibliography file could not be parsed.
    BibliographyParsingFailed(String),
    /// Serialising or deserialising the book failed.
    Json(String),
    /// The host reported an error of its own.
    MdBook(String),
}

} // verus!
