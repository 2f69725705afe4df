//! Structured errors for the scanner and the parser.
//!
//! Every malformed input is reported through one of these values; no input
//! can make the scanner or the parser panic.

use vstd::prelude::*;

verus! {

/// Why a scan failed.
#[derive(Debug, Clone, Copy, PartialEq, Eq, Structural)]
pub enum ScanErrorKind {
    /// A character outside the recognized set.
    UnscannableCharacter,
    /// A quoted string with no closing quote before the end of the line or
    /// of the input.
    UnterminatedString,
    /// An integer literal that does not fit the integer value type.
    NumericOverflow,
    /// A `-` or `.` run that is neither a document marker nor a valid token.
    MalformedDocumentMarker,
}

/// A scan failure: its kind, the line it was found on (counted from zero)
/// and the character position of the offending text.
#[derive(Debug, Clone, Copy, PartialEq, Eq, Structural)]
pub struct ScanError {
    pub kind: ScanErrorKind,
    pub line: u64,
    pub pos: usize,
}

/// Why a parse failed.
#[derive(Debug, Clone, Copy, PartialEq, Eq, Structural)]
pub enum ParseErrorKind {
    /// A token that cannot start a document-level entry, or a key without
    /// its `:`.
    MalformedDocument,
    /// The token stream ended while a structure was still open.
    UnterminatedDocument,
    /// A token that cannot stand where a mapping value is expected.
    InvalidMappingValue,
    /// Ragged indentation, or a tab inside leading indentation.
    InconsistentIndentation,
    /// A recognized but unimplemented construct; reported in the tree as an
    /// `Unsupported` node rather than through this kind, which is kept for
    /// callers that want to refuse such documents.
    UnsupportedConstruct,
    /// A defect of the parser itself, never of the input; expected to occur
    /// zero times.
    InternalInconsistency,
}

/// A parse failure: its kind, the token position it was found at, and a
/// short description of the offending token.
#[derive(Debug, Clone, PartialEq)]
pub struct YamlParserError {
    pub kind: ParseErrorKind,
    pub pos: usize,
    pub token: String,
}

/// The model of a parse failure: the kind and the token position. The token
/// description is diagnostic text and is not part of the model.
pub struct GParseErr {
    pub kind: ParseErrorKind,
    pub pos: int,
}

/// Whether an executable parse error matches its model.
pub open spec fn parse_err_matches(e: YamlParserError, g: GParseErr) -> bool {
    e.kind == g.kind && e.pos as int == g.pos
}

/// The model of a scan failure, over unbounded integers.
pub struct GScanErr {
    pub kind: ScanErrorKind,
    pub line: int,
    pub pos: int,
}

/// Whether an executable scan error matches its model.
pub open spec fn scan_err_matches(e: ScanError, g: GScanErr) -> bool {
    e.kind == g.kind && e.line as int == g.line && e.pos as int == g.pos
}

} // verus!
