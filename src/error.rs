use crate::digits::{decimal, push_decimal};
use vstd::prelude::*;

verus! {

/// Describes the kind of failure.
#[derive(Clone, Copy, Debug, PartialEq, Eq, Structural)]
pub enum ErrorKind {
    /// The id contained something other than an ASCII digit
    InvalidId,
    /// The timestamp line was either missing or had trailing bytes
    InvalidTimestampLine,
    /// The starting timestamp doesn't match the format of '01:23:45,678'
    InvalidTimestampStart,
    /// The timestamp divider doesn't match ' --> '
    InvalidTimestampDivider,
    /// The ending timestamp doesn't match the format of '01:23:45,678'
    InvalidTimestampEnd,
    /// The ending timestamp is before the start
    TimestampEndBeforeStart,
}

/// The fixed human-readable label of each kind.
pub open spec fn kind_label(kind: ErrorKind) -> Seq<char> {
    match kind {
        ErrorKind::InvalidId => "Invalid ID-marker"@,
        ErrorKind::InvalidTimestampLine => "Invalid timestamp line"@,
        ErrorKind::InvalidTimestampStart => "Invalid starting timestamp"@,
        ErrorKind::InvalidTimestampDivider => "Invalid timestamp divider"@,
        ErrorKind::InvalidTimestampEnd => "Invalid ending timestamp"@,
        ErrorKind::TimestampEndBeforeStart => "End timestamp is before start"@,
    }
}

impl ErrorKind {
    /// The kind's human-readable label.
    pub fn label(&self) -> (r: &'static str)
        ensures
            r@ == kind_label(*self),
    {
        match self {
            ErrorKind::InvalidId => "Invalid ID-marker",
            ErrorKind::InvalidTimestampLine => "Invalid timestamp line",
            ErrorKind::InvalidTimestampStart => "Invalid starting timestamp",
            ErrorKind::InvalidTimestampDivider => "Invalid timestamp divider",
            ErrorKind::InvalidTimestampEnd => "Invalid ending timestamp",
            ErrorKind::TimestampEndBeforeStart => "End timestamp is before start",
        }
    }

    /// Same as [`ErrorKind::label`], as an owned string.
    pub fn to_string(&self) -> (r: String)
        ensures
            r@ == kind_label(*self),
    {
        String::from_str(self.label())
    }
}

/// Contains context on why parsing failed.
#[derive(Clone, Copy, Debug, PartialEq, Eq, Structural)]
pub struct Error {
    /// The line number that failed parsing
    pub line: usize,
    /// The kind of failure
    pub kind: ErrorKind,
}

/// The display form of an error: `"<label> on line <N>"`.
pub open spec fn error_message(e: Error) -> Seq<char> {
    kind_label(e.kind) + " on line "@ + decimal(e.line as nat)
}

/// A specialized `Result` whose error is [`Error`].
pub type Result<T> = core::result::Result<T, Error>;

impl Error {
    pub(crate) fn invalid_id(line: usize) -> (r: Self)
        ensures
            r == (Error { line, kind: ErrorKind::InvalidId }),
    {
        Self { line, kind: ErrorKind::InvalidId }
    }

    pub(crate) fn invalid_ts_line(line: usize) -> (r: Self)
        ensures
            r == (Error { line, kind: ErrorKind::InvalidTimestampLine }),
    {
        Self { line, kind: ErrorKind::InvalidTimestampLine }
    }

    pub(crate) fn invalid_ts_start(line: usize) -> (r: Self)
        ensures
            r == (Error { line, kind: ErrorKind::InvalidTimestampStart }),
    {
        Self { line, kind: ErrorKind::InvalidTimestampStart }
    }

    pub(crate) fn invalid_ts_divider(line: usize) -> (r: Self)
        ensures
            r == (Error { line, kind: ErrorKind::InvalidTimestampDivider }),
    {
        Self { line, kind: ErrorKind::InvalidTimestampDivider }
    }

    pub(crate) fn invalid_ts_end(line: usize) -> (r: Self)
        ensures
            r == (Error { line, kind: ErrorKind::InvalidTimestampEnd }),
    {
        Self { line, kind: ErrorKind::InvalidTimestampEnd }
    }

    pub(crate) fn ts_end_before_start(line: usize) -> (r: Self)
        ensures
            r == (Error { line, kind: ErrorKind::TimestampEndBeforeStart }),
    {
        Self { line, kind: ErrorKind::TimestampEndBeforeStart }
    }

    /// Renders as `"<label> on line <N>"`.
    pub fn to_string(&self) -> (r: String)
        ensures
            r@ == error_message(*self),
    {
        let mut out = String::from_str(self.kind.label());
        out.append(" on line ");
        push_decimal(&mut out, self.line);
        out
    }
}

} // verus!
