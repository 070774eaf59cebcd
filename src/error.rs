//! Errors of pressure parsing and monitoring.

use vstd::prelude::*;

use crate::psi::{kind_name, line_word, PsiKind, PsiLine};

verus! {

/// The I/O error of std, carried through unchanged.
#[verifier::external_type_specification]
#[verifier::external_body]
pub struct ExIoError(std::io::Error);

/// Error type for PSI
#[derive(Debug)]
pub enum PsiError {
    IoError(std::io::Error),
    PsiParseError(ParseError),
    InvalidThreshold(std::io::Error),
    UnexpectedTriggerEvent { expected_kind: PsiKind, expected_line: PsiLine },
    UnregisteredEvent,
    PsiTriggerFileError,
}

/// Error type for PSI parsing
#[derive(Debug)]
pub enum ParseError {
    /// The value of `total` is not an unsigned integer that fits in a `u64`.
    TotalParseError(String),
    /// The value of an average is not a decimal number that fits.
    AvgParseError(String),
    /// A word that does not belong where it stands, or the whole line when
    /// it has too few or too many words.
    UnexpectedTerm(String),
    MissingLine(PsiLine),
}

/// What a [`ParseError`] says, with its text as characters.
pub enum ParseErrorView {
    TotalParseError(Seq<char>),
    AvgParseError(Seq<char>),
    UnexpectedTerm(Seq<char>),
    MissingLine(PsiLine),
}

impl View for ParseError {
    type V = ParseErrorView;

    open spec fn view(&self) -> ParseErrorView {
        match self {
            ParseError::TotalParseError(t) => ParseErrorView::TotalParseError(t@),
            ParseError::AvgParseError(t) => ParseErrorView::AvgParseError(t@),
            ParseError::UnexpectedTerm(t) => ParseErrorView::UnexpectedTerm(t@),
            ParseError::MissingLine(l) => ParseErrorView::MissingLine(*l),
        }
    }
}

/// A parse result with its error seen through its view.
pub open spec fn view_result<T>(r: Result<T, ParseError>) -> Result<T, ParseErrorView> {
    match r {
        Ok(v) => Ok(v),
        Err(e) => Err(e@),
    }
}

impl PsiError {
    /// Classifies a failed I/O operation: an error of kind `InvalidInput`,
    /// which the kernel returns when it refuses a trigger, becomes
    /// `InvalidThreshold`; any other becomes `IoError`.
    pub fn from_io(e: std::io::Error, invalid_input: bool) -> (r: PsiError)
        ensures
            invalid_input ==> r == PsiError::InvalidThreshold(e),
            !invalid_input ==> r == PsiError::IoError(e),
    {
        if invalid_input {
            PsiError::InvalidThreshold(e)
        } else {
            PsiError::IoError(e)
        }
    }
}

impl From<ParseError> for PsiError {
    fn from(e: ParseError) -> (r: PsiError) {
        PsiError::PsiParseError(e)
    }
}

impl vstd::std_specs::convert::FromSpecImpl<ParseError> for PsiError {
    open spec fn obeys_from_spec() -> bool {
        true
    }

    open spec fn from_spec(e: ParseError) -> PsiError {
        PsiError::PsiParseError(e)
    }
}

/// The message of a parse error.
pub open spec fn parse_error_text(e: ParseErrorView) -> Seq<char> {
    match e {
        ParseErrorView::UnexpectedTerm(t) => "unexpected psi term '"@ + t + "'"@,
        ParseErrorView::TotalParseError(t) => "error parsing psi total '"@ + t + "'"@,
        ParseErrorView::AvgParseError(t) => "error parsing psi avg '"@ + t + "'"@,
        ParseErrorView::MissingLine(l) => "missing line '"@ + line_word(l) + "'"@,
    }
}

impl ParseError {
    /// A message for people.
    pub fn to_text(&self) -> (r: String)
        ensures
            r@ == parse_error_text(self@),
    {
        let (head, body) = match self {
            ParseError::UnexpectedTerm(t) => ("unexpected psi term '", t.as_str()),
            ParseError::TotalParseError(t) => ("error parsing psi total '", t.as_str()),
            ParseError::AvgParseError(t) => ("error parsing psi avg '", t.as_str()),
            ParseError::MissingLine(l) => ("missing line '", l.as_str()),
        };
        let mut out = String::from_str(head);
        out.append(body);
        out.append("'");
        out
    }
}

impl PsiError {
    /// A message for people; that of the I/O error itself for I/O failures.
    pub fn to_text(&self) -> (r: String)
        ensures
            self matches PsiError::PsiParseError(e) ==> r@ == parse_error_text(e@),
            self matches PsiError::UnexpectedTriggerEvent { expected_kind, expected_line } ==> r@
                == "unexpected trigger event; expected "@ + kind_name(*expected_kind) + " "@
                + line_word(*expected_line),
            self matches PsiError::UnregisteredEvent ==> r@ == "unregistered event triggered"@,
            self matches PsiError::PsiTriggerFileError ==> r@ == "error on watched psi file"@,
    {
        match self {
            PsiError::IoError(e) => e.to_string(),
            PsiError::InvalidThreshold(e) => e.to_string(),
            PsiError::PsiParseError(e) => e.to_text(),
            PsiError::UnexpectedTriggerEvent { expected_kind, expected_line } => {
                let mut out = String::from_str("unexpected trigger event; expected ");
                out.append(expected_kind.as_str());
                out.append(" ");
                out.append(expected_line.as_str());
                out
            },
            PsiError::UnregisteredEvent => String::from_str("unregistered event triggered"),
            PsiError::PsiTriggerFileError => String::from_str("error on watched psi file"),
        }
    }
}

} // verus!
