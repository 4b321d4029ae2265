//! Classified errors for parsing, and their report texts.

use vstd::prelude::*;

verus! {

/// Why a file or a line could not be parsed.
///
/// Line-level failures (`InvalidTimestamp`, `MalformedEntry`) are fatal
/// only for the one line that raised them; file-level failures
/// (`FileNotFound`, `Io`) are fatal for the whole file.
#[derive(Debug, Clone)]
pub enum ParseError {
    /// No readable file at the given path.
    FileNotFound(String),
    /// The timestamp text between the brackets parses under none of the
    /// accepted forms.
    InvalidTimestamp(String),
    /// The line does not follow the `[<timestamp>] LEVEL: message` shape.
    MalformedEntry { line: usize, details: String },
    /// An underlying read failed; the payload is the reported reason.
    Io(String),
    /// JSON encoding or decoding failed; the payload is the reported reason.
    Json(String),
    /// Any other failure.
    Unknown(String),
}

/// Result of a parse operation.
pub type ParseResult<T> = Result<T, ParseError>;

/// Mathematical image of a `ParseError`.
pub ghost enum ParseErrorV {
    FileNotFound(Seq<char>),
    InvalidTimestamp(Seq<char>),
    MalformedEntry { line: int, details: Seq<char> },
    Io(Seq<char>),
    Json(Seq<char>),
    Unknown(Seq<char>),
}

impl View for ParseError {
    type V = ParseErrorV;

    open spec fn view(&self) -> ParseErrorV {
        match self {
            ParseError::FileNotFound(p) => ParseErrorV::FileNotFound(p@),
            ParseError::InvalidTimestamp(t) => ParseErrorV::InvalidTimestamp(t@),
            ParseError::MalformedEntry { line, details } => ParseErrorV::MalformedEntry {
                line: *line as int,
                details: details@,
            },
            ParseError::Io(m) => ParseErrorV::Io(m@),
            ParseError::Json(m) => ParseErrorV::Json(m@),
            ParseError::Unknown(m) => ParseErrorV::Unknown(m@),
        }
    }
}

impl DeepView for ParseError {
    type V = ParseErrorV;

    open spec fn deep_view(&self) -> ParseErrorV {
        self.view()
    }
}

/// The decimal digit character for `d`, which must be below ten.
pub open spec fn digit_char(d: nat) -> char
    recommends
        d < 10,
{
    (('0' as u8) + d) as char
}

/// The decimal rendering of `n`, most significant digit first.
pub open spec fn spec_decimal(n: nat) -> Seq<char>
    decreases n,
{
    if n < 10 {
        seq![digit_char(n)]
    } else {
        spec_decimal(n / 10).push(digit_char(n % 10))
    }
}

/// One decimal digit as a string slice.
fn digit_str(d: u8) -> (r: &'static str)
    requires
        d < 10,
    ensures
        r@ =~= seq![digit_char(d as nat)],
{
    proof {
        reveal_strlit("0");
        reveal_strlit("1");
        reveal_strlit("2");
        reveal_strlit("3");
        reveal_strlit("4");
        reveal_strlit("5");
        reveal_strlit("6");
        reveal_strlit("7");
        reveal_strlit("8");
        reveal_strlit("9");
    }
    if d == 0 {
        "0"
    } else if d == 1 {
        "1"
    } else if d == 2 {
        "2"
    } else if d == 3 {
        "3"
    } else if d == 4 {
        "4"
    } else if d == 5 {
        "5"
    } else if d == 6 {
        "6"
    } else if d == 7 {
        "7"
    } else if d == 8 {
        "8"
    } else {
        "9"
    }
}

/// Renders `n` in decimal.
pub fn usize_to_string(n: usize) -> (r: String)
    ensures
        r@ == spec_decimal(n as nat),
    decreases n,
{
    if n < 10 {
        let r = String::from_str(digit_str(n as u8));
        assert(r@ =~= spec_decimal(n as nat));
        r
    } else {
        let high = usize_to_string(n / 10);
        let r = high.concat(digit_str((n % 10) as u8));
        assert(r@ =~= spec_decimal(n as nat));
        r
    }
}

impl ParseError {
    /// The report text of the error.
    pub open spec fn spec_message(&self) -> Seq<char> {
        match self {
            ParseError::FileNotFound(p) => "File not found: "@ + p@,
            ParseError::InvalidTimestamp(t) => "Invalid timestamp format: "@ + t@,
            ParseError::MalformedEntry { line, details } => "Malformed log entry at line "@
                + spec_decimal(*line as nat) + ": "@ + details@,
            ParseError::Io(m) => "IO error: "@ + m@,
            ParseError::Json(m) => "JSON error: "@ + m@,
            ParseError::Unknown(m) => "Unknown error: "@ + m@,
        }
    }

    /// Builds the report text of the error.
    pub fn message(&self) -> (r: String)
        ensures
            r@ == self.spec_message(),
    {
        match self {
            ParseError::FileNotFound(p) => {
                let r = String::from_str("File not found: ").concat(p.as_str());
                assert(r@ =~= self.spec_message());
                r
            },
            ParseError::InvalidTimestamp(t) => {
                let r = String::from_str("Invalid timestamp format: ").concat(t.as_str());
                assert(r@ =~= self.spec_message());
                r
            },
            ParseError::MalformedEntry { line, details } => {
                let r = String::from_str("Malformed log entry at line ").concat(
                    usize_to_string(*line).as_str(),
                ).concat(": ").concat(details.as_str());
                assert(r@ =~= self.spec_message());
                r
            },
            ParseError::Io(m) => {
                let r = String::from_str("IO error: ").concat(m.as_str());
                assert(r@ =~= self.spec_message());
                r
            },
            ParseError::Json(m) => {
                let r = String::from_str("JSON error: ").concat(m.as_str());
                assert(r@ =~= self.spec_message());
                r
            },
            ParseError::Unknown(m) => {
                let r = String::from_str("Unknown error: ").concat(m.as_str());
                assert(r@ =~= self.spec_message());
                r
            },
        }
    }
}

} // verus!
