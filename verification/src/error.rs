//! Errors reported while reading a chart file.
use vstd::prelude::*;

verus! {

/// Types of errors that can be encountered while parsing a TJA file. This is used in the
/// [TJAParseError] struct.
#[derive(Clone, Debug, PartialEq, Eq)]
pub enum TJAParseErrorKind {
    SyntaxError,
    CourseCommandError,
    InvalidMetadata,
    MultipleTracksSameDifficulty(usize),
    ExpectedEndCommand,
    MissingMetadataForCourse(String),
    MissingMetadataForSong(String),
    RollNotEnded,
    RollEndWithoutRoll,
}

/// The mathematical value of a [TJAParseErrorKind]: metadata keys become character sequences.
pub enum ErrorKindView {
    SyntaxError,
    CourseCommandError,
    InvalidMetadata,
    MultipleTracksSameDifficulty(nat),
    ExpectedEndCommand,
    MissingMetadataForCourse(Seq<char>),
    MissingMetadataForSong(Seq<char>),
    RollNotEnded,
    RollEndWithoutRoll,
}

impl View for TJAParseErrorKind {
    type V = ErrorKindView;

    open spec fn view(&self) -> ErrorKindView {
        match self {
            TJAParseErrorKind::SyntaxError => ErrorKindView::SyntaxError,
            TJAParseErrorKind::CourseCommandError => ErrorKindView::CourseCommandError,
            TJAParseErrorKind::InvalidMetadata => ErrorKindView::InvalidMetadata,
            TJAParseErrorKind::MultipleTracksSameDifficulty(d) => {
                ErrorKindView::MultipleTracksSameDifficulty(*d as nat)
            },
            TJAParseErrorKind::ExpectedEndCommand => ErrorKindView::ExpectedEndCommand,
            TJAParseErrorKind::MissingMetadataForCourse(k) => {
                ErrorKindView::MissingMetadataForCourse(k@)
            },
            TJAParseErrorKind::MissingMetadataForSong(k) => ErrorKindView::MissingMetadataForSong(
                k@,
            ),
            TJAParseErrorKind::RollNotEnded => ErrorKindView::RollNotEnded,
            TJAParseErrorKind::RollEndWithoutRoll => ErrorKindView::RollEndWithoutRoll,
        }
    }
}

/// An error that can be encountered while parsing a TJA file. Contains an enum for the kind of
/// error as well as the line where the error is (or pertains to).
#[derive(Clone, Debug, PartialEq, Eq)]
pub struct TJAParseError {
    pub kind: TJAParseErrorKind,
    pub line: usize,
}

/// The mathematical value of a [TJAParseError].
pub struct ParseErrorView {
    pub kind: ErrorKindView,
    pub line: nat,
}

impl View for TJAParseError {
    type V = ParseErrorView;

    open spec fn view(&self) -> ParseErrorView {
        ParseErrorView { kind: self.kind@, line: self.line as nat }
    }
}

/// Builds an error of the given kind at the given line.
pub fn parse_error(kind: TJAParseErrorKind, line: usize) -> (e: TJAParseError)
    ensures
        e.kind == kind,
        e.line == line,
{
    TJAParseError { kind, line }
}


// ---------------------------------------------------------------------------------------------
// Messages
// ---------------------------------------------------------------------------------------------

/// The character of a decimal digit.
pub open spec fn digit_char(d: nat) -> char {
    if d == 0 {
        '0'
    } else if d == 1 {
        '1'
    } else if d == 2 {
        '2'
    } else if d == 3 {
        '3'
    } else if d == 4 {
        '4'
    } else if d == 5 {
        '5'
    } else if d == 6 {
        '6'
    } else if d == 7 {
        '7'
    } else if d == 8 {
        '8'
    } else {
        '9'
    }
}

/// The decimal digits of `n`, without leading zeros.
pub open spec fn decimal(n: nat) -> Seq<char>
    decreases n,
{
    if n < 10 {
        seq![digit_char(n)]
    } else {
        decimal(n / 10) + seq![digit_char(n % 10)]
    }
}

/// The name of a difficulty from 0 (easy) to 4.
pub open spec fn difficulty_name(d: nat) -> Seq<char> {
    if d == 0 {
        "easy"@
    } else if d == 1 {
        "normal"@
    } else if d == 2 {
        "hard"@
    } else if d == 3 {
        "extreme"@
    } else {
        "extra extreme"@
    }
}

/// What an error of the given kind says.
pub open spec fn kind_message(k: ErrorKindView) -> Seq<char> {
    match k {
        ErrorKindView::SyntaxError => "syntax error"@,
        ErrorKindView::CourseCommandError => "invalid song notation command"@,
        ErrorKindView::InvalidMetadata => "invalid song metadata"@,
        ErrorKindView::MultipleTracksSameDifficulty(d) => "multiple courses defined for "@
            + difficulty_name(d) + " difficulty"@,
        ErrorKindView::ExpectedEndCommand => "expected #END command"@,
        ErrorKindView::MissingMetadataForCourse(key) => "metadata needed for this difficulty: \""@
            + key + "\""@,
        ErrorKindView::MissingMetadataForSong(key) => "metadata needed for the song: \""@ + key
            + "\""@,
        ErrorKindView::RollNotEnded => "drumroll not ended"@,
        ErrorKindView::RollEndWithoutRoll => "drumroll end without preceding drumroll"@,
    }
}

/// The message of an error: what its kind says, then the line, counted from 1.
pub open spec fn error_message(e: ParseErrorView) -> Seq<char> {
    kind_message(e.kind) + " (at line "@ + decimal(e.line + 1) + ")"@
}

fn push_str(out: &mut Vec<char>, s: &str)
    ensures
        final(out)@ == old(out)@ + s@,
{
    let mut t = crate::text::str_chars(s);
    out.append(&mut t);
}

fn push_decimal(out: &mut Vec<char>, n: u128)
    ensures
        final(out)@ == old(out)@ + decimal(n as nat),
    decreases n,
{
    if n >= 10 {
        push_decimal(out, n / 10);
    }
    let d = n % 10;
    let c = match d {
        0 => '0',
        1 => '1',
        2 => '2',
        3 => '3',
        4 => '4',
        5 => '5',
        6 => '6',
        7 => '7',
        8 => '8',
        _ => '9',
    };
    let ghost before = out@;
    out.push(c);
    proof {
        if n >= 10 {
            assert(out@ =~= old(out)@ + decimal(n as nat)) by {
                assert(decimal(n as nat) == decimal((n / 10) as nat) + seq![digit_char((n % 10) as nat)]);
            }
        } else {
            assert(out@ =~= old(out)@ + decimal(n as nat));
        }
    }
}

impl TJAParseError {
    /// The message of this error (see [error_message]), for instance
    /// `drumroll not ended (at line 5)`.
    pub fn message(&self) -> (m: String)
        requires
            self.kind matches TJAParseErrorKind::MultipleTracksSameDifficulty(d) ==> d <= 4,
        ensures
            m@ == error_message(self@),
    {
        let mut out: Vec<char> = Vec::new();
        match &self.kind {
            TJAParseErrorKind::SyntaxError => push_str(&mut out, "syntax error"),
            TJAParseErrorKind::CourseCommandError => push_str(
                &mut out,
                "invalid song notation command",
            ),
            TJAParseErrorKind::InvalidMetadata => push_str(&mut out, "invalid song metadata"),
            TJAParseErrorKind::MultipleTracksSameDifficulty(diff) => {
                push_str(&mut out, "multiple courses defined for ");
                match diff {
                    0 => push_str(&mut out, "easy"),
                    1 => push_str(&mut out, "normal"),
                    2 => push_str(&mut out, "hard"),
                    3 => push_str(&mut out, "extreme"),
                    _ => push_str(&mut out, "extra extreme"),
                }
                push_str(&mut out, " difficulty");
            },
            TJAParseErrorKind::ExpectedEndCommand => push_str(&mut out, "expected #END command"),
            TJAParseErrorKind::MissingMetadataForCourse(key) => {
                push_str(&mut out, "metadata needed for this difficulty: \"");
                push_str(&mut out, key.as_str());
                push_str(&mut out, "\"");
            },
            TJAParseErrorKind::MissingMetadataForSong(key) => {
                push_str(&mut out, "metadata needed for the song: \"");
                push_str(&mut out, key.as_str());
                push_str(&mut out, "\"");
            },
            TJAParseErrorKind::RollNotEnded => push_str(&mut out, "drumroll not ended"),
            TJAParseErrorKind::RollEndWithoutRoll => push_str(
                &mut out,
                "drumroll end without preceding drumroll",
            ),
        }
        assert(out@ == kind_message(self.kind@));
        push_str(&mut out, " (at line ");
        push_decimal(&mut out, self.line as u128 + 1);
        push_str(&mut out, ")");
        crate::text::chars_to_string(&out)
    }
}

} // verus!
