use vstd::prelude::*;

verus! {

/// What went wrong while parsing a message.
#[derive(Debug, Clone, Copy, PartialEq, Eq, Structural)]
pub enum ErrorKind {
    /// No grammar production matched the input.
    NotRecognised,
    /// A two-digit zone code that is not one of the supported zones.
    ParseProjection,
    /// A coordinate with a decimal separator that does not reduce to whole meters.
    ParseCoordinate,
    /// A run of digits too large for its numeric type.
    ParseNumber,
    /// A date that does not exist in the calendar.
    ParseDate,
    /// A clock time outside the 24-hour clock.
    ParseTime,
    /// A calendar date outside the years 1970 to 2029.
    DateOutOfRange,
    /// A low-level token mismatch; never reported by `Command::parse`.
    Mismatch,
}

/// A half-open range `[start, end)` of byte offsets into the input text.
#[derive(Debug, Clone, Copy, PartialEq, Eq, Structural)]
pub struct Span {
    pub start: usize,
    pub end: usize,
}

/// A parse failure: its kind, the offset at which the failing production
/// began, and the offending text.
#[derive(Debug, Clone, Copy, PartialEq, Eq, Structural)]
pub struct ParseError {
    pub input: usize,
    pub span: Option<Span>,
    pub error: ErrorKind,
}

impl ParseError {
    pub fn new(input: usize, span: Option<Span>, error: ErrorKind) -> (r: ParseError)
        ensures
            r == (ParseError { input, span, error }),
    {
        ParseError { input, span, error }
    }
}

/// The message shown to a user for each kind of error.
pub open spec fn kind_description(kind: ErrorKind) -> Seq<char> {
    match kind {
        ErrorKind::NotRecognised => "Failed to parse input"@,
        ErrorKind::ParseProjection => "Failed to parse projection"@,
        ErrorKind::ParseCoordinate => "Failed to parse coordinate"@,
        ErrorKind::ParseNumber => "Failed to parse number"@,
        ErrorKind::ParseDate => "Failed to parse date"@,
        ErrorKind::ParseTime => "Failed to parse time"@,
        ErrorKind::DateOutOfRange => "Date out of range"@,
        ErrorKind::Mismatch => "Unexpected input"@,
    }
}

/// A diagnostic that can point into the text it was produced from.
pub trait Error {
    spec fn spec_span(&self) -> Option<Span>;

    spec fn spec_description(&self) -> Seq<char>;

    fn span(&self) -> (r: Option<Span>)
        ensures
            r == self.spec_span(),
    ;

    fn description(&self) -> (r: String)
        ensures
            r@ == self.spec_description(),
    ;
}

impl Error for ParseError {
    open spec fn spec_span(&self) -> Option<Span> {
        self.span
    }

    open spec fn spec_description(&self) -> Seq<char> {
        kind_description(self.error)
    }

    fn span(&self) -> (r: Option<Span>) {
        self.span
    }

    fn description(&self) -> (r: String) {
        let text = match self.error {
            ErrorKind::NotRecognised => "Failed to parse input",
            ErrorKind::ParseProjection => "Failed to parse projection",
            ErrorKind::ParseCoordinate => "Failed to parse coordinate",
            ErrorKind::ParseNumber => "Failed to parse number",
            ErrorKind::ParseDate => "Failed to parse date",
            ErrorKind::ParseTime => "Failed to parse time",
            ErrorKind::DateOutOfRange => "Date out of range",
            ErrorKind::Mismatch => "Unexpected input",
        };
        String::from_str(text)
    }
}

} // verus!
