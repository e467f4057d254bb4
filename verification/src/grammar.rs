//! The one-pass grammar of a chart file: the whole file is read as a list of items, each a
//! metadata pair or a complete note track from `#START` to `#END`, with blank lines allowed
//! around every line.
//!
//! Every reader works on the characters of the input from a position and ends in one of four
//! ways ([Scan]): it read something and stopped at a later position; it did not match, and an
//! alternative may be tried (an error); it found a definite mistake, which ends the whole read
//! (a failure); or, inside a note track, it would keep reading an empty run of notes forever
//! without getting anywhere (a hang).
//!
//! Grammar (regular expressions between slashes):
//!
//! ```text
//! empty_line    ::= /[ \t\r...]*\n/                  (white space other than \n, then \n)
//! line_of(x)    ::= {empty_line} x ("\r\n" | "\n" | end of input) {empty_line}
//! tag_name      ::= /[A-Z][A-Z0-9]*/
//! metadata_pair ::= line_of(tag_name ":" [" "] /[^\r\n]*/)
//! start_command ::= line_of("#START" [" " /[^\r\n]+/])
//! end_command   ::= line_of("#END")
//! track_command ::= line_of("#" tag_name [" " /[^\r\n]+/])
//! entry         ::= track_command | ",\n" | ",\r\n" | {note}
//! note_track    ::= start_command {entry} end_command
//! tja_file      ::= {metadata_pair | note_track} end of input
//! ```
use vstd::prelude::*;

use crate::course::{
    char_is_upper, command_arg, find_note_end, find_text_end, has_prefix, is_note_char, is_upper,
    lemma_note_end, lemma_text_end, note_end, read_command_arg, text_end, Player,
};
use crate::numbers::{char_is_digit, digit_value, is_digit, is_float_literal, parse_unsigned};
use crate::text::{
    char_is_whitespace, chars_to_string, comment_mark_at, copy_range, cut_comment, find_comment,
    find_newline, free_of_comments, is_whitespace, lemma_comment_from_bounds,
    lemma_cut_comment_free, lemma_newline_from_bounds, lines, lines_from, range_to_string,
    starts_with_str, str_chars, strip_bom, strip_cr,
};
use crate::track::{note_from_code, note_type_from_code, NoteType};

verus! {

broadcast use vstd::string::group_string_axioms;

// ---------------------------------------------------------------------------------------------
// Results
// ---------------------------------------------------------------------------------------------

/// Why a read did not succeed.
#[derive(Debug, Clone, Copy, PartialEq, Eq, Structural)]
pub enum GrammarError {
    /// The input does not have the expected shape.
    Syntax,
    /// A track command with an unknown name, a missing or malformed argument, or an argument
    /// where none is allowed; or `#START` for a player other than `P1` and `P2`.
    TrackCommandError,
    /// `#END` where a track command was expected.
    UnexpectedEndCommand,
    /// The input ended inside a note track.
    NoteTrackNotEnded,
}

/// How a reader ends, in mathematical terms: `Done(end, value)` when it read `value` and
/// stopped at position `end`.
pub enum Scan<V> {
    Done(int, V),
    Error(GrammarError),
    Failure(GrammarError),
    Hang,
}

/// How a reader ends, in executable terms.
pub enum Outcome<T> {
    Done(usize, T),
    Error(GrammarError),
    Failure(GrammarError),
    Hang,
}

/// The executable outcome `r` is the mathematical outcome `g`.
pub open spec fn agrees<T: DeepView>(r: Outcome<T>, g: Scan<T::V>) -> bool {
    match r {
        Outcome::Done(e, v) => g == Scan::Done(e as int, v.deep_view()),
        Outcome::Error(k) => g == Scan::<T::V>::Error(k),
        Outcome::Failure(k) => g == Scan::<T::V>::Failure(k),
        Outcome::Hang => g is Hang,
    }
}

/// The result `r` of reading `s` is the outcome `g`: on success, the input left over and the
/// value read; otherwise the error.
pub open spec fn result_agrees<T: DeepView>(
    r: Result<(String, T), GrammarError>,
    s: Seq<char>,
    g: Scan<T::V>,
) -> bool {
    match g {
        Scan::Done(e, v) => match r {
            Ok((rest, x)) => rest@ == s.subrange(e, s.len() as int) && x.deep_view() == v,
            Err(_) => false,
        },
        Scan::Error(k) => r == Err::<(String, T), GrammarError>(k),
        Scan::Failure(k) => r == Err::<(String, T), GrammarError>(k),
        Scan::Hang => false,
    }
}

/// The outcome stops within `s` (or does not stop at all).
pub open spec fn ends_within<V>(g: Scan<V>, s: Seq<char>, i: int) -> bool {
    g matches Scan::Done(e, _) ==> i <= e <= s.len()
}

/// Turns the outcome of reading `s` from its start into a result.
fn into_result<T: DeepView>(s: &Vec<char>, r: Outcome<T>, Ghost(g): Ghost<Scan<T::V>>) -> (res:
    Result<(String, T), GrammarError>)
    requires
        agrees(r, g),
        ends_within(g, s@, 0),
        !(g is Hang),
    ensures
        result_agrees(res, s@, g),
{
    match r {
        Outcome::Done(e, v) => Ok((range_to_string(s, e, s.len()), v)),
        Outcome::Error(k) => Err(k),
        Outcome::Failure(k) => Err(k),
        Outcome::Hang => {
            proof {
                assert(false);
            }
            Err(GrammarError::Syntax)
        },
    }
}

// ---------------------------------------------------------------------------------------------
// Lines
// ---------------------------------------------------------------------------------------------

/// The end of the run of white space other than `'\n'` starting at `i`.
pub open spec fn blank_end(s: Seq<char>, i: int) -> int
    decreases s.len() - i,
{
    if 0 <= i < s.len() && s[i] != '\n' && is_whitespace(s[i]) {
        blank_end(s, i + 1)
    } else {
        i
    }
}

/// An empty line at `i`: white space ended by `'\n'`; gives where the next line starts.
pub open spec fn empty_line_end(s: Seq<char>, i: int) -> Option<int> {
    let j = blank_end(s, i);
    if 0 <= j < s.len() && s[j] == '\n' {
        Some(j + 1)
    } else {
        None
    }
}

/// The position after all the empty lines starting at `i`.
pub open spec fn skip_empty(s: Seq<char>, i: int) -> int
    decreases s.len() - i,
{
    match empty_line_end(s, i) {
        Some(j) => if i < j <= s.len() {
            skip_empty(s, j)
        } else {
            i
        },
        None => i,
    }
}

/// The end of a line at `k`: `"\r\n"`, `"\n"` or the end of the input.
pub open spec fn eol_end(s: Seq<char>, k: int) -> Option<int> {
    if has_prefix(s, k, seq!['\r', '\n']) {
        Some(k + 2)
    } else if 0 <= k < s.len() && s[k] == '\n' {
        Some(k + 1)
    } else if k == s.len() {
        Some(k)
    } else {
        None
    }
}

/// A line read by `inner` must be followed by a line ending; the empty lines after it are
/// skipped.
pub open spec fn finish_line<V>(s: Seq<char>, inner: Scan<V>) -> Scan<V> {
    match inner {
        Scan::Done(k, v) => match eol_end(s, k) {
            Some(m) => Scan::Done(skip_empty(s, m), v),
            None => Scan::Error(GrammarError::Syntax),
        },
        Scan::Error(e) => Scan::Error(e),
        Scan::Failure(e) => Scan::Failure(e),
        Scan::Hang => Scan::Hang,
    }
}

proof fn lemma_blank_end(s: Seq<char>, i: int)
    requires
        0 <= i <= s.len(),
    ensures
        i <= blank_end(s, i) <= s.len(),
    decreases s.len() - i,
{
    if i < s.len() && s[i] != '\n' && is_whitespace(s[i]) {
        lemma_blank_end(s, i + 1);
    }
}

proof fn lemma_skip_empty(s: Seq<char>, i: int)
    requires
        0 <= i <= s.len(),
    ensures
        i <= skip_empty(s, i) <= s.len(),
    decreases s.len() - i,
{
    lemma_blank_end(s, i);
    match empty_line_end(s, i) {
        Some(j) => {
            lemma_skip_empty(s, j);
        },
        None => {},
    }
}

fn find_blank_end(s: &Vec<char>, i: usize) -> (e: usize)
    requires
        i <= s.len(),
    ensures
        e == blank_end(s@, i as int),
        i <= e <= s.len(),
{
    proof {
        lemma_blank_end(s@, i as int);
    }
    let mut j = i;
    while j < s.len() && s[j] != '\n' && char_is_whitespace(s[j])
        invariant
            i <= j <= s.len(),
            blank_end(s@, i as int) == blank_end(s@, j as int),
        decreases s.len() - j,
    {
        j = j + 1;
    }
    j
}

/// Skips the empty lines starting at `i`.
fn skip_empty_lines(s: &Vec<char>, i: usize) -> (e: usize)
    requires
        i <= s.len(),
    ensures
        e == skip_empty(s@, i as int),
        i <= e <= s.len(),
{
    proof {
        lemma_skip_empty(s@, i as int);
    }
    let mut p = i;
    loop
        invariant
            i <= p <= s.len(),
            skip_empty(s@, i as int) == skip_empty(s@, p as int),
        ensures
            p == skip_empty(s@, i as int),
        decreases s.len() - p,
    {
        let j = find_blank_end(s, p);
        if j < s.len() && s[j] == '\n' {
            p = j + 1;
        } else {
            return p;
        }
    }
    p
}

/// Reads a line ending at `k`.
fn read_eol(s: &Vec<char>, k: usize) -> (r: Option<usize>)
    requires
        k <= s.len(),
    ensures
        r == (match eol_end(s@, k as int) {
            Some(m) => Some(m as usize),
            None => None,
        }),
        r matches Some(m) ==> k <= m <= s.len(),
{
    if starts_with_str(s, k, "\r\n") {
        proof {
            reveal_strlit("\r\n");
            assert("\r\n"@ =~= seq!['\r', '\n']);
        }
        Some(k + 2)
    } else if k < s.len() && s[k] == '\n' {
        proof {
            reveal_strlit("\r\n");
            assert("\r\n"@ =~= seq!['\r', '\n']);
            assert(!has_prefix(s@, k as int, seq!['\r', '\n']));
        }
        Some(k + 1)
    } else if k == s.len() {
        Some(k)
    } else {
        proof {
            reveal_strlit("\r\n");
            assert("\r\n"@ =~= seq!['\r', '\n']);
            assert(!has_prefix(s@, k as int, seq!['\r', '\n']));
        }
        None
    }
}

/// Finishes a line read by `inner` (see [finish_line]).
fn finish<T: DeepView>(s: &Vec<char>, r: Outcome<T>, Ghost(g): Ghost<Scan<T::V>>) -> (out: Outcome<
    T,
>)
    requires
        agrees(r, g),
        ends_within(g, s@, 0),
    ensures
        agrees(out, finish_line(s@, g)),
        g matches Scan::Done(k, _) ==> ends_within(finish_line(s@, g), s@, k),
{
    match r {
        Outcome::Done(k, v) => match read_eol(s, k) {
            Some(m) => Outcome::Done(skip_empty_lines(s, m), v),
            None => Outcome::Error(GrammarError::Syntax),
        },
        Outcome::Error(e) => Outcome::Error(e),
        Outcome::Failure(e) => Outcome::Failure(e),
        Outcome::Hang => Outcome::Hang,
    }
}

// ---------------------------------------------------------------------------------------------
// Metadata
// ---------------------------------------------------------------------------------------------

/// A character that may follow the first letter of a tag name.
pub open spec fn is_tag_char(c: char) -> bool {
    is_upper(c) || is_digit(c)
}

/// The end of the run of tag name characters starting at `i`.
pub open spec fn tag_char_end(s: Seq<char>, i: int) -> int
    decreases s.len() - i,
{
    if 0 <= i < s.len() && is_tag_char(s[i]) {
        tag_char_end(s, i + 1)
    } else {
        i
    }
}

/// The end of the tag name (`/[A-Z][A-Z0-9]*/`) at `i`, if there is one.
pub open spec fn tag_name_end(s: Seq<char>, i: int) -> Option<int> {
    if 0 <= i < s.len() && is_upper(s[i]) {
        Some(tag_char_end(s, i + 1))
    } else {
        None
    }
}

/// Reading a tag name at `i`.
pub open spec fn tagname_scan(s: Seq<char>, i: int) -> Scan<Seq<char>> {
    match tag_name_end(s, i) {
        Some(e) => Scan::Done(e, s.subrange(i, e)),
        None => Scan::Error(GrammarError::Syntax),
    }
}

/// The text of a metadata line at `j`: the tag name, a colon, an optional space, and the value
/// up to the line ending.
pub open spec fn pair_line(s: Seq<char>, j: int) -> Scan<(Seq<char>, Seq<char>)> {
    match tag_name_end(s, j) {
        Some(k) => if 0 <= k < s.len() && s[k] == ':' {
            let v = if k + 1 < s.len() && s[k + 1] == ' ' {
                k + 2
            } else {
                k + 1
            };
            let e = text_end(s, v);
            Scan::Done(e, (s.subrange(j, k), s.subrange(v, e)))
        } else {
            Scan::Error(GrammarError::Syntax)
        },
        None => Scan::Error(GrammarError::Syntax),
    }
}

/// Reading a metadata pair at `i`.
pub open spec fn metadata_scan(s: Seq<char>, i: int) -> Scan<(Seq<char>, Seq<char>)> {
    finish_line(s, pair_line(s, skip_empty(s, i)))
}

proof fn lemma_tag_char_end(s: Seq<char>, i: int)
    requires
        0 <= i <= s.len(),
    ensures
        i <= tag_char_end(s, i) <= s.len(),
    decreases s.len() - i,
{
    if i < s.len() && is_tag_char(s[i]) {
        lemma_tag_char_end(s, i + 1);
    }
}

/// Finds the end of the tag name at `i`.
fn find_tag_name_end(s: &Vec<char>, i: usize) -> (r: Option<usize>)
    requires
        i <= s.len(),
    ensures
        r == (match tag_name_end(s@, i as int) {
            Some(e) => Some(e as usize),
            None => None,
        }),
        r matches Some(e) ==> i < e <= s.len(),
        tag_name_end(s@, i as int) matches Some(e) ==> i < e <= s.len(),
{
    if i < s.len() && char_is_upper(s[i]) {
        proof {
            lemma_tag_char_end(s@, i + 1);
        }
        let mut j = i + 1;
        while j < s.len() && (char_is_upper(s[j]) || char_is_digit(s[j]))
            invariant
                i < j <= s.len(),
                tag_char_end(s@, i + 1) == tag_char_end(s@, j as int),
            decreases s.len() - j,
        {
            j = j + 1;
        }
        Some(j)
    } else {
        None
    }
}

fn read_pair_line(s: &Vec<char>, j: usize) -> (r: Outcome<(String, String)>)
    requires
        j <= s.len(),
    ensures
        agrees(r, pair_line(s@, j as int)),
        ends_within(pair_line(s@, j as int), s@, j as int),
{
    match find_tag_name_end(s, j) {
        Some(k) => {
            if k < s.len() && s[k] == ':' {
                let v = if k + 1 < s.len() && s[k + 1] == ' ' {
                    k + 2
                } else {
                    k + 1
                };
                let e = find_text_end(s, v);
                let name = range_to_string(s, j, k);
                let value = range_to_string(s, v, e);
                Outcome::Done(e, (name, value))
            } else {
                Outcome::Error(GrammarError::Syntax)
            }
        },
        None => Outcome::Error(GrammarError::Syntax),
    }
}

fn read_metadata_pair_at(s: &Vec<char>, i: usize) -> (r: Outcome<(String, String)>)
    requires
        i <= s.len(),
    ensures
        agrees(r, metadata_scan(s@, i as int)),
        ends_within(metadata_scan(s@, i as int), s@, i as int),
{
    let j = skip_empty_lines(s, i);
    let inner = read_pair_line(s, j);
    finish(s, inner, Ghost(pair_line(s@, j as int)))
}

// ---------------------------------------------------------------------------------------------
// Track commands
// ---------------------------------------------------------------------------------------------

/// A command inside a note track. Numeric arguments are kept as the text that was written,
/// which is known to be a valid float literal.
#[derive(Debug, Clone, PartialEq)]
pub enum TrackCommand {
    Start { player: Option<Player> },
    Lyric(String),
    BpmChange(String),
    Measure(u8, u8),
    Delay(String),
    Scroll(String),
    GogoStart,
    GogoEnd,
    BarlineOff,
    BarlineOn,
}

/// The mathematical value of a [TrackCommand].
pub enum TrackCommandView {
    Start { player: Option<Player> },
    Lyric(Seq<char>),
    BpmChange(Seq<char>),
    Measure(u8, u8),
    Delay(Seq<char>),
    Scroll(Seq<char>),
    GogoStart,
    GogoEnd,
    BarlineOff,
    BarlineOn,
}

impl DeepView for TrackCommand {
    type V = TrackCommandView;

    open spec fn deep_view(&self) -> TrackCommandView {
        match self {
            TrackCommand::Start { player } => TrackCommandView::Start { player: *player },
            TrackCommand::Lyric(a) => TrackCommandView::Lyric(a@),
            TrackCommand::BpmChange(a) => TrackCommandView::BpmChange(a@),
            TrackCommand::Measure(n, d) => TrackCommandView::Measure(*n, *d),
            TrackCommand::Delay(a) => TrackCommandView::Delay(a@),
            TrackCommand::Scroll(a) => TrackCommandView::Scroll(a@),
            TrackCommand::GogoStart => TrackCommandView::GogoStart,
            TrackCommand::GogoEnd => TrackCommandView::GogoEnd,
            TrackCommand::BarlineOff => TrackCommandView::BarlineOff,
            TrackCommand::BarlineOn => TrackCommandView::BarlineOn,
        }
    }
}

/// The text of a start command at `j`: `#START` and an optional argument.
pub open spec fn start_line(s: Seq<char>, j: int) -> Scan<Option<Seq<char>>> {
    if has_prefix(s, j, "#START"@) {
        let (arg, e) = command_arg(s, j + "#START"@.len());
        Scan::Done(e, arg)
    } else {
        Scan::Error(GrammarError::Syntax)
    }
}

/// Reading a start command at `i`; a player other than `P1` or `P2` is a failure.
pub open spec fn start_scan(s: Seq<char>, i: int) -> Scan<TrackCommandView> {
    match finish_line(s, start_line(s, skip_empty(s, i))) {
        Scan::Done(m, arg) => match arg {
            None => Scan::Done(m, TrackCommandView::Start { player: None }),
            Some(a) => if a == "P1"@ {
                Scan::Done(m, TrackCommandView::Start { player: Some(Player::Player1) })
            } else if a == "P2"@ {
                Scan::Done(m, TrackCommandView::Start { player: Some(Player::Player2) })
            } else {
                Scan::Failure(GrammarError::TrackCommandError)
            },
        },
        Scan::Error(k) => Scan::Error(k),
        Scan::Failure(k) => Scan::Failure(k),
        Scan::Hang => Scan::Hang,
    }
}

/// The text of an end command at `j`.
pub open spec fn end_line(s: Seq<char>, j: int) -> Scan<()> {
    if has_prefix(s, j, "#END"@) {
        Scan::Done(j + "#END"@.len(), ())
    } else {
        Scan::Error(GrammarError::Syntax)
    }
}

/// Reading an end command at `i`.
pub open spec fn end_scan(s: Seq<char>, i: int) -> Scan<()> {
    finish_line(s, end_line(s, skip_empty(s, i)))
}

/// The text of a track command at `j`: `#`, a tag name and an optional argument.
pub open spec fn command_line(s: Seq<char>, j: int) -> Scan<(Seq<char>, Option<Seq<char>>)> {
    if 0 <= j < s.len() && s[j] == '#' {
        match tag_name_end(s, j + 1) {
            Some(k) => {
                let (arg, e) = command_arg(s, k);
                Scan::Done(e, (s.subrange(j + 1, k), arg))
            },
            None => Scan::Error(GrammarError::Syntax),
        }
    } else {
        Scan::Error(GrammarError::Syntax)
    }
}

/// The index of the first `'/'` at or after `i`, or the length of `s` if there is none.
pub open spec fn slash_from(s: Seq<char>, i: int) -> int
    decreases s.len() - i,
{
    if i < 0 || i >= s.len() {
        s.len() as int
    } else if s[i] == '/' {
        i
    } else {
        slash_from(s, i + 1)
    }
}

/// A time signature `numerator/denominator`: two non-empty texts without a `'/'`, each a `u8`,
/// separated by one `'/'`, covering the whole of `a`.
pub open spec fn slash_signature(a: Seq<char>) -> Option<(u8, u8)> {
    let k = slash_from(a, 0);
    if 0 < k && k + 1 < a.len() && slash_from(a, k + 1) == a.len() {
        match (parse_unsigned(a.subrange(0, k), 255), parse_unsigned(
            a.subrange(k + 1, a.len() as int),
            255,
        )) {
            (Some(n), Some(d)) => Some((n as u8, d as u8)),
            _ => None,
        }
    } else {
        None
    }
}

/// A track command (other than `#START`) from its name and optional argument.
pub open spec fn command_of(name: Seq<char>, arg: Option<Seq<char>>) -> Result<
    TrackCommandView,
    GrammarError,
> {
    let err = Err(GrammarError::TrackCommandError);
    if name == "END"@ {
        Err(GrammarError::UnexpectedEndCommand)
    } else if name == "LYRIC"@ {
        match arg {
            Some(a) => Ok(TrackCommandView::Lyric(a)),
            None => err,
        }
    } else if name == "BPMCHANGE"@ {
        match arg {
            Some(a) => if is_float_literal(a) {
                Ok(TrackCommandView::BpmChange(a))
            } else {
                err
            },
            None => err,
        }
    } else if name == "MEASURE"@ {
        match arg {
            Some(a) => match slash_signature(a) {
                Some((n, d)) => Ok(TrackCommandView::Measure(n, d)),
                None => err,
            },
            None => err,
        }
    } else if name == "DELAY"@ {
        match arg {
            Some(a) => if is_float_literal(a) {
                Ok(TrackCommandView::Delay(a))
            } else {
                err
            },
            None => err,
        }
    } else if name == "SCROLL"@ {
        match arg {
            Some(a) => if is_float_literal(a) {
                Ok(TrackCommandView::Scroll(a))
            } else {
                err
            },
            None => err,
        }
    } else if name == "GOGOSTART"@ || name == "GOGOEND"@ || name == "BARLINEOFF"@ || name
        == "BARLINEON"@ {
        if arg is Some {
            err
        } else if name == "GOGOSTART"@ {
            Ok(TrackCommandView::GogoStart)
        } else if name == "GOGOEND"@ {
            Ok(TrackCommandView::GogoEnd)
        } else if name == "BARLINEOFF"@ {
            Ok(TrackCommandView::BarlineOff)
        } else {
            Ok(TrackCommandView::BarlineOn)
        }
    } else {
        err
    }
}

/// The name a track command is written with.
pub open spec fn command_name(c: TrackCommandView) -> Seq<char> {
    match c {
        TrackCommandView::Start { .. } => "START"@,
        TrackCommandView::Lyric(_) => "LYRIC"@,
        TrackCommandView::BpmChange(_) => "BPMCHANGE"@,
        TrackCommandView::Measure(_, _) => "MEASURE"@,
        TrackCommandView::Delay(_) => "DELAY"@,
        TrackCommandView::Scroll(_) => "SCROLL"@,
        TrackCommandView::GogoStart => "GOGOSTART"@,
        TrackCommandView::GogoEnd => "GOGOEND"@,
        TrackCommandView::BarlineOff => "BARLINEOFF"@,
        TrackCommandView::BarlineOn => "BARLINEON"@,
    }
}

/// Each name gives its own command: a command read from a name is written with that name (so
/// different names never give the same command), an argument is kept as written, and a switch
/// (`GOGOSTART`, `GOGOEND`, `BARLINEOFF`, `BARLINEON`) is read exactly when it has no argument.
pub proof fn lemma_command_names(name: Seq<char>, arg: Option<Seq<char>>)
    ensures
        command_of(name, arg) matches Ok(c) ==> command_name(c) == name,
        command_of(name, arg) matches Ok(TrackCommandView::Lyric(a)) ==> arg == Some(a),
        command_of(name, arg) matches Ok(TrackCommandView::BpmChange(a)) ==> arg == Some(a),
        command_of(name, arg) matches Ok(TrackCommandView::Delay(a)) ==> arg == Some(a),
        command_of(name, arg) matches Ok(TrackCommandView::Scroll(a)) ==> arg == Some(a),
        (name == "GOGOSTART"@ || name == "GOGOEND"@ || name == "BARLINEOFF"@ || name
            == "BARLINEON"@) ==> (command_of(name, arg) is Ok <==> arg is None),
{
    reveal_strlit("END");
    reveal_strlit("LYRIC");
    reveal_strlit("BPMCHANGE");
    reveal_strlit("MEASURE");
    reveal_strlit("DELAY");
    reveal_strlit("SCROLL");
    reveal_strlit("GOGOSTART");
    reveal_strlit("GOGOEND");
    reveal_strlit("BARLINEOFF");
    reveal_strlit("BARLINEON");
    assert("GOGOSTART"@.len() != "END"@.len());
    assert("GOGOSTART"@.len() != "LYRIC"@.len());
    assert("GOGOSTART"@[0] != "BPMCHANGE"@[0] || "GOGOSTART"@[1] != "BPMCHANGE"@[1]);
    assert("GOGOSTART"@ != "BPMCHANGE"@);
    assert("GOGOSTART"@.len() != "MEASURE"@.len());
    assert("GOGOSTART"@.len() != "DELAY"@.len());
    assert("GOGOSTART"@.len() != "SCROLL"@.len());
    assert("GOGOEND"@.len() != "END"@.len());
    assert("GOGOEND"@.len() != "LYRIC"@.len());
    assert("GOGOEND"@.len() != "BPMCHANGE"@.len());
    assert("GOGOEND"@[0] != "MEASURE"@[0] || "GOGOEND"@[1] != "MEASURE"@[1]);
    assert("GOGOEND"@ != "MEASURE"@);
    assert("GOGOEND"@.len() != "DELAY"@.len());
    assert("GOGOEND"@.len() != "SCROLL"@.len());
    assert("BARLINEOFF"@.len() != "END"@.len());
    assert("BARLINEOFF"@.len() != "LYRIC"@.len());
    assert("BARLINEOFF"@.len() != "BPMCHANGE"@.len());
    assert("BARLINEOFF"@.len() != "MEASURE"@.len());
    assert("BARLINEOFF"@.len() != "DELAY"@.len());
    assert("BARLINEOFF"@.len() != "SCROLL"@.len());
    assert("BARLINEON"@.len() != "END"@.len());
    assert("BARLINEON"@.len() != "LYRIC"@.len());
    assert("BARLINEON"@[0] != "BPMCHANGE"@[0] || "BARLINEON"@[1] != "BPMCHANGE"@[1]);
    assert("BARLINEON"@ != "BPMCHANGE"@);
    assert("BARLINEON"@.len() != "MEASURE"@.len());
    assert("BARLINEON"@.len() != "DELAY"@.len());
    assert("BARLINEON"@.len() != "SCROLL"@.len());
}

/// Reading a track command other than `#START` at `i`. `#END` here is an error (so that an
/// alternative may be tried); any other bad command is a failure.
pub open spec fn command_scan(s: Seq<char>, i: int) -> Scan<TrackCommandView> {
    match finish_line(s, command_line(s, skip_empty(s, i))) {
        Scan::Done(m, (name, arg)) => match command_of(name, arg) {
            Ok(c) => Scan::Done(m, c),
            Err(k) => if k == GrammarError::UnexpectedEndCommand {
                Scan::Error(k)
            } else {
                Scan::Failure(k)
            },
        },
        Scan::Error(k) => Scan::Error(k),
        Scan::Failure(k) => Scan::Failure(k),
        Scan::Hang => Scan::Hang,
    }
}

fn read_start_line(s: &Vec<char>, j: usize) -> (r: Outcome<Option<String>>)
    requires
        j <= s.len(),
    ensures
        agrees(r, start_line(s@, j as int)),
        ends_within(start_line(s@, j as int), s@, j as int),
{
    if starts_with_str(s, j, "#START") {
        let (arg, e) = read_command_arg(s, j + "#START".unicode_len());
        match arg {
            Some((lo, hi)) => Outcome::Done(e, Some(range_to_string(s, lo, hi))),
            None => Outcome::Done(e, None),
        }
    } else {
        Outcome::Error(GrammarError::Syntax)
    }
}

fn read_start_command_at(s: &Vec<char>, i: usize) -> (r: Outcome<TrackCommand>)
    requires
        i <= s.len(),
    ensures
        agrees(r, start_scan(s@, i as int)),
        ends_within(start_scan(s@, i as int), s@, i as int),
{
    let j = skip_empty_lines(s, i);
    let inner = read_start_line(s, j);
    let line = finish(s, inner, Ghost(start_line(s@, j as int)));
    match line {
        Outcome::Done(m, arg) => match arg {
            None => Outcome::Done(m, TrackCommand::Start { player: None }),
            Some(a) => {
                let v = str_chars(a.as_str());
                if crate::text::chars_eq_str(&v, "P1") {
                    Outcome::Done(m, TrackCommand::Start { player: Some(Player::Player1) })
                } else if crate::text::chars_eq_str(&v, "P2") {
                    Outcome::Done(m, TrackCommand::Start { player: Some(Player::Player2) })
                } else {
                    Outcome::Failure(GrammarError::TrackCommandError)
                }
            },
        },
        Outcome::Error(k) => Outcome::Error(k),
        Outcome::Failure(k) => Outcome::Failure(k),
        Outcome::Hang => Outcome::Hang,
    }
}

fn read_end_command_at(s: &Vec<char>, i: usize) -> (r: Outcome<()>)
    requires
        i <= s.len(),
    ensures
        agrees(r, end_scan(s@, i as int)),
        ends_within(end_scan(s@, i as int), s@, i as int),
{
    let j = skip_empty_lines(s, i);
    let inner = if starts_with_str(s, j, "#END") {
        Outcome::Done(j + "#END".unicode_len(), ())
    } else {
        Outcome::Error(GrammarError::Syntax)
    };
    finish(s, inner, Ghost(end_line(s@, j as int)))
}

proof fn lemma_slash_from(s: Seq<char>, i: int)
    requires
        0 <= i <= s.len(),
    ensures
        i <= slash_from(s, i) <= s.len(),
        slash_from(s, i) < s.len() ==> s[slash_from(s, i)] == '/',
    decreases s.len() - i,
{
    if i < s.len() && s[i] != '/' {
        lemma_slash_from(s, i + 1);
    }
}

fn find_slash(a: &Vec<char>, i: usize) -> (e: usize)
    requires
        i <= a.len(),
    ensures
        e == slash_from(a@, i as int),
        i <= e <= a.len(),
{
    proof {
        lemma_slash_from(a@, i as int);
    }
    let mut j = i;
    while j < a.len() && a[j] != '/'
        invariant
            i <= j <= a.len(),
            slash_from(a@, i as int) == slash_from(a@, j as int),
        decreases a.len() - j,
    {
        j = j + 1;
    }
    j
}

/// Reads the time signature `s[lo..hi]` (see [slash_signature]).
fn read_slash_signature(s: &Vec<char>, lo: usize, hi: usize) -> (r: Option<(u8, u8)>)
    requires
        lo <= hi <= s.len(),
    ensures
        r == slash_signature(s@.subrange(lo as int, hi as int)),
{
    let a = crate::text::copy_range(s, lo, hi);
    let k = find_slash(&a, 0);
    if 0 < k && k < a.len() && k + 1 < a.len() && find_slash(&a, k + 1) == a.len() {
        let n = crate::numbers::parse_unsigned_range(&a, 0, k, 255);
        let d = crate::numbers::parse_unsigned_range(&a, k + 1, a.len(), 255);
        match (n, d) {
            (Some(n), Some(d)) => Some((n as u8, d as u8)),
            _ => None,
        }
    } else {
        None
    }
}

/// The argument range, read as a sequence.
pub open spec fn arg_text(s: Seq<char>, arg: Option<(usize, usize)>) -> Option<Seq<char>> {
    match arg {
        Some((lo, hi)) => Some(s.subrange(lo as int, hi as int)),
        None => None,
    }
}

/// Builds a track command from the name `s[lo..hi]` and the argument found after it.
fn read_track_command(s: &Vec<char>, lo: usize, hi: usize, arg: Option<(usize, usize)>) -> (r:
    Result<TrackCommand, GrammarError>)
    requires
        lo <= hi <= s.len(),
        arg matches Some((a, b)) ==> a <= b <= s.len(),
    ensures
        match r {
            Ok(c) => command_of(s@.subrange(lo as int, hi as int), arg_text(s@, arg)) == Ok::<
                TrackCommandView,
                GrammarError,
            >(c.deep_view()),
            Err(k) => command_of(s@.subrange(lo as int, hi as int), arg_text(s@, arg)) == Err::<
                TrackCommandView,
                GrammarError,
            >(k),
        },
{
    let err = Err(GrammarError::TrackCommandError);
    if crate::text::range_eq_str(s, lo, hi, "END") {
        Err(GrammarError::UnexpectedEndCommand)
    } else if crate::text::range_eq_str(s, lo, hi, "LYRIC") {
        match arg {
            Some((a, b)) => Ok(TrackCommand::Lyric(range_to_string(s, a, b))),
            None => err,
        }
    } else if crate::text::range_eq_str(s, lo, hi, "BPMCHANGE") {
        if crate::course::arg_is_float(s, arg) {
            let (a, b) = arg.unwrap();
            Ok(TrackCommand::BpmChange(range_to_string(s, a, b)))
        } else {
            err
        }
    } else if crate::text::range_eq_str(s, lo, hi, "MEASURE") {
        match arg {
            Some((a, b)) => match read_slash_signature(s, a, b) {
                Some((n, d)) => Ok(TrackCommand::Measure(n, d)),
                None => err,
            },
            None => err,
        }
    } else if crate::text::range_eq_str(s, lo, hi, "DELAY") {
        if crate::course::arg_is_float(s, arg) {
            let (a, b) = arg.unwrap();
            Ok(TrackCommand::Delay(range_to_string(s, a, b)))
        } else {
            err
        }
    } else if crate::text::range_eq_str(s, lo, hi, "SCROLL") {
        if crate::course::arg_is_float(s, arg) {
            let (a, b) = arg.unwrap();
            Ok(TrackCommand::Scroll(range_to_string(s, a, b)))
        } else {
            err
        }
    } else if crate::text::range_eq_str(s, lo, hi, "GOGOSTART") || crate::text::range_eq_str(
        s,
        lo,
        hi,
        "GOGOEND",
    ) || crate::text::range_eq_str(s, lo, hi, "BARLINEOFF") || crate::text::range_eq_str(
        s,
        lo,
        hi,
        "BARLINEON",
    ) {
        if arg.is_some() {
            err
        } else if crate::text::range_eq_str(s, lo, hi, "GOGOSTART") {
            Ok(TrackCommand::GogoStart)
        } else if crate::text::range_eq_str(s, lo, hi, "GOGOEND") {
            Ok(TrackCommand::GogoEnd)
        } else if crate::text::range_eq_str(s, lo, hi, "BARLINEOFF") {
            Ok(TrackCommand::BarlineOff)
        } else {
            Ok(TrackCommand::BarlineOn)
        }
    } else {
        err
    }
}

fn read_track_command_at(s: &Vec<char>, i: usize) -> (r: Outcome<TrackCommand>)
    requires
        i <= s.len(),
    ensures
        agrees(r, command_scan(s@, i as int)),
        ends_within(command_scan(s@, i as int), s@, i as int),
{
    let j = skip_empty_lines(s, i);
    if !(j < s.len() && s[j] == '#') {
        return Outcome::Error(GrammarError::Syntax);
    }
    match find_tag_name_end(s, j + 1) {
        None => Outcome::Error(GrammarError::Syntax),
        Some(k) => {
            let (arg, e) = read_command_arg(s, k);
            proof {
                lemma_skip_empty(s@, e as int);
            }
            match read_eol(s, e) {
                None => Outcome::Error(GrammarError::Syntax),
                Some(m) => {
                    let m2 = skip_empty_lines(s, m);
                    match read_track_command(s, j + 1, k, arg) {
                        Ok(c) => Outcome::Done(m2, c),
                        Err(kind) => {
                            if kind == GrammarError::UnexpectedEndCommand {
                                Outcome::Error(kind)
                            } else {
                                Outcome::Failure(kind)
                            }
                        },
                    }
                },
            }
        },
    }
}

// ---------------------------------------------------------------------------------------------
// Notes and note tracks
// ---------------------------------------------------------------------------------------------

/// The code of a note character: its value as a base 12 digit (`'A'` is 10, `'B'` is 11).
pub open spec fn char_code(c: char) -> nat {
    if is_digit(c) {
        digit_value(c)
    } else if c == 'A' {
        10
    } else {
        11
    }
}

/// The note a note character stands for; `'0'` is a rest.
pub open spec fn note_at(c: char) -> Option<NoteType> {
    note_from_code(char_code(c))
}

/// The notes written in `s[i..e]`.
pub open spec fn notes_of(s: Seq<char>, i: int, e: int) -> Seq<Option<NoteType>> {
    Seq::new((e - i) as nat, |k: int| note_at(s[i + k]))
}

/// Reading a run of notes at `i` (possibly an empty one).
pub open spec fn notes_scan(s: Seq<char>, i: int) -> Scan<Seq<Option<NoteType>>> {
    Scan::Done(note_end(s, i), notes_of(s, i, note_end(s, i)))
}

/// One entry of a note track.
#[derive(Debug, Clone, PartialEq)]
pub enum NoteTrackEntry {
    Command(TrackCommand),
    Notes(Vec<Option<NoteType>>),
    EndMeasure,
}

/// The mathematical value of a [NoteTrackEntry].
pub enum EntryView {
    Command(TrackCommandView),
    Notes(Seq<Option<NoteType>>),
    EndMeasure,
}

impl DeepView for NoteTrackEntry {
    type V = EntryView;

    open spec fn deep_view(&self) -> EntryView {
        match self {
            NoteTrackEntry::Command(c) => EntryView::Command(c.deep_view()),
            NoteTrackEntry::Notes(n) => EntryView::Notes(n@),
            NoteTrackEntry::EndMeasure => EntryView::EndMeasure,
        }
    }
}

/// The end of a measure at `i`: a comma and a line ending.
pub open spec fn measure_end(s: Seq<char>, i: int) -> Option<int> {
    if has_prefix(s, i, seq![',', '\n']) {
        Some(i + 2)
    } else if has_prefix(s, i, seq![',', '\r', '\n']) {
        Some(i + 3)
    } else {
        None
    }
}

/// Reading one entry of a note track at `i`: a track command, the end of a measure, or a run
/// of notes, tried in that order.
pub open spec fn entry_scan(s: Seq<char>, i: int) -> Scan<EntryView> {
    match command_scan(s, i) {
        Scan::Done(m, c) => Scan::Done(m, EntryView::Command(c)),
        Scan::Failure(k) => Scan::Failure(k),
        Scan::Hang => Scan::Hang,
        Scan::Error(_) => match measure_end(s, i) {
            Some(m) => Scan::Done(m, EntryView::EndMeasure),
            None => Scan::Done(note_end(s, i), EntryView::Notes(notes_of(s, i, note_end(s, i)))),
        },
    }
}

/// The entries of a note track from `i` up to its end command. Running out of input is a
/// failure; an entry that reads nothing would be read again forever.
pub open spec fn body_scan(s: Seq<char>, i: int) -> Scan<Seq<EntryView>>
    decreases s.len() - i,
{
    if i < 0 || i >= s.len() {
        Scan::Failure(GrammarError::NoteTrackNotEnded)
    } else if end_scan(s, i) is Done {
        Scan::Done(i, seq![])
    } else {
        match entry_scan(s, i) {
            Scan::Done(j, e) => if i < j <= s.len() {
                prepend(seq![e], body_scan(s, j))
            } else {
                Scan::Hang
            },
            Scan::Error(k) => Scan::Error(k),
            Scan::Failure(k) => Scan::Failure(k),
            Scan::Hang => Scan::Hang,
        }
    }
}

/// Puts `pre` in front of the values read by `g`.
pub open spec fn prepend<A>(pre: Seq<A>, g: Scan<Seq<A>>) -> Scan<Seq<A>> {
    match g {
        Scan::Done(k, rest) => Scan::Done(k, pre + rest),
        Scan::Error(k) => Scan::Error(k),
        Scan::Failure(k) => Scan::Failure(k),
        Scan::Hang => Scan::Hang,
    }
}

/// Reading a whole note track at `i`: the start command, the entries, and the end command.
pub open spec fn track_scan(s: Seq<char>, i: int) -> Scan<Seq<EntryView>> {
    match start_scan(s, i) {
        Scan::Done(j, st) => match body_scan(s, j) {
            Scan::Done(k, body) => match end_scan(s, k) {
                Scan::Done(m, _) => Scan::Done(m, seq![EntryView::Command(st)] + body),
                Scan::Error(x) => Scan::Error(x),
                Scan::Failure(x) => Scan::Failure(x),
                Scan::Hang => Scan::Hang,
            },
            Scan::Error(x) => Scan::Error(x),
            Scan::Failure(x) => Scan::Failure(x),
            Scan::Hang => Scan::Hang,
        },
        Scan::Error(x) => Scan::Error(x),
        Scan::Failure(x) => Scan::Failure(x),
        Scan::Hang => Scan::Hang,
    }
}

/// An entry that is a start command.
pub open spec fn is_start_entry(e: EntryView) -> bool {
    e matches EntryView::Command(TrackCommandView::Start { .. })
}

proof fn lemma_command_of_not_start(name: Seq<char>, arg: Option<Seq<char>>)
    ensures
        command_of(name, arg) matches Ok(c) ==> !(c is Start),
{
}

proof fn lemma_body_has_no_start(s: Seq<char>, i: int)
    requires
        0 <= i <= s.len(),
    ensures
        body_scan(s, i) matches Scan::Done(_, es) ==> forall|k: int|
            0 <= k < es.len() ==> !is_start_entry(#[trigger] es[k]),
    decreases s.len() - i,
{
    if i < s.len() && !(end_scan(s, i) is Done) {
        match entry_scan(s, i) {
            Scan::Done(j, e) => {
                if i < j <= s.len() {
                    lemma_body_has_no_start(s, j);
                    match finish_line(s, command_line(s, skip_empty(s, i))) {
                        Scan::Done(m, (name, arg)) => lemma_command_of_not_start(name, arg),
                        _ => {},
                    }
                    assert(!is_start_entry(e));
                    match body_scan(s, j) {
                        Scan::Done(k, rest) => {
                            assert forall|x: int| 0 <= x < (seq![e] + rest).len() implies !is_start_entry(
                                #[trigger] (seq![e] + rest)[x],
                            ) by {
                                if x > 0 {
                                    assert((seq![e] + rest)[x] == rest[x - 1]);
                                }
                            }
                        },
                        _ => {},
                    }
                }
            },
            _ => {},
        }
    }
}

/// A note track is framed by its start command: the first entry of a track that was read is its
/// start command, and no other entry is one.
pub proof fn lemma_track_starts_once(s: Seq<char>, i: int)
    requires
        0 <= i <= s.len(),
    ensures
        track_scan(s, i) matches Scan::Done(_, t) ==> {
            &&& t.len() >= 1
            &&& is_start_entry(t[0])
            &&& forall|k: int| 1 <= k < t.len() ==> !is_start_entry(#[trigger] t[k])
        },
{
    match start_scan(s, i) {
        Scan::Done(j, st) => {
            assert(0 <= j <= s.len()) by {
                lemma_start_scan_bounds(s, i);
            }
            lemma_body_has_no_start(s, j);
            match track_scan(s, i) {
                Scan::Done(_, t) => {
                    match body_scan(s, j) {
                        Scan::Done(k, body) => {
                            assert(t == seq![EntryView::Command(st)] + body);
                            assert forall|k: int| 1 <= k < t.len() implies !is_start_entry(
                                #[trigger] t[k],
                            ) by {
                                assert(t[k] == body[k - 1]);
                            }
                        },
                        _ => {},
                    }
                },
                _ => {},
            }
        },
        _ => {},
    }
}

proof fn lemma_start_scan_bounds(s: Seq<char>, i: int)
    requires
        0 <= i <= s.len(),
    ensures
        ends_within(start_scan(s, i), s, i),
{
    lemma_skip_empty(s, i);
    let j = skip_empty(s, i);
    if has_prefix(s, j, "#START"@) {
        let k = j + "#START"@.len();
        let (arg, e) = command_arg(s, k);
        if k + 1 < s.len() {
            lemma_text_end(s, k + 1);
        }
        match eol_end(s, e) {
            Some(m) => {
                lemma_skip_empty(s, m);
            },
            None => {},
        }
    }
}

proof fn lemma_prepend_push<A>(pre: Seq<A>, e: A, g: Scan<Seq<A>>)
    ensures
        prepend(pre, prepend(seq![e], g)) == prepend(pre.push(e), g),
{
    match g {
        Scan::Done(k, rest) => {
            assert(pre + (seq![e] + rest) =~= pre.push(e) + rest);
        },
        _ => {},
    }
}

proof fn lemma_prepend_empty<A>(g: Scan<Seq<A>>)
    ensures
        prepend(Seq::<A>::empty(), g) == g,
{
    match g {
        Scan::Done(k, rest) => {
            assert(Seq::<A>::empty() + rest =~= rest);
        },
        _ => {},
    }
}

proof fn lemma_body_scan_bounds(s: Seq<char>, i: int)
    requires
        0 <= i <= s.len(),
    ensures
        ends_within(body_scan(s, i), s, i),
    decreases s.len() - i,
{
    if i < s.len() && !(end_scan(s, i) is Done) {
        match entry_scan(s, i) {
            Scan::Done(j, e) => {
                if i < j <= s.len() {
                    lemma_body_scan_bounds(s, j);
                }
            },
            _ => {},
        }
    }
}

fn note_char_code(c: char) -> (r: u32)
    requires
        is_note_char(c),
    ensures
        r == char_code(c),
{
    if char_is_digit(c) {
        c as u32 - 48
    } else if c == 'A' {
        10
    } else {
        11
    }
}

/// Reads the run of notes at `i`.
fn read_notes(s: &Vec<char>, i: usize) -> (r: (usize, Vec<Option<NoteType>>))
    requires
        i <= s.len(),
    ensures
        r.0 == note_end(s@, i as int),
        i <= r.0 <= s.len(),
        r.1@ == notes_of(s@, i as int, r.0 as int),
{
    let e = find_note_end(s, i);
    proof {
        lemma_note_end(s@, i as int);
    }
    let mut notes: Vec<Option<NoteType>> = Vec::new();
    let mut j = i;
    while j < e
        invariant
            i <= j <= e <= s.len(),
            e == note_end(s@, i as int),
            forall|x: int| i <= x < e ==> is_note_char(#[trigger] s@[x]),
            notes@ =~= notes_of(s@, i as int, j as int),
        decreases e - j,
    {
        let code = note_char_code(s[j]);
        notes.push(note_type_from_code(code));
        j = j + 1;
    }
    (e, notes)
}

fn read_entry_at(s: &Vec<char>, i: usize) -> (r: Outcome<NoteTrackEntry>)
    requires
        i <= s.len(),
    ensures
        agrees(r, entry_scan(s@, i as int)),
        ends_within(entry_scan(s@, i as int), s@, i as int),
{
    match read_track_command_at(s, i) {
        Outcome::Done(m, c) => Outcome::Done(m, NoteTrackEntry::Command(c)),
        Outcome::Failure(k) => Outcome::Failure(k),
        Outcome::Hang => Outcome::Hang,
        Outcome::Error(_) => {
            proof {
                reveal_strlit(",\n");
                reveal_strlit(",\r\n");
                assert(",\n"@ =~= seq![',', '\n']);
                assert(",\r\n"@ =~= seq![',', '\r', '\n']);
            }
            if starts_with_str(s, i, ",\n") {
                Outcome::Done(i + 2, NoteTrackEntry::EndMeasure)
            } else if starts_with_str(s, i, ",\r\n") {
                Outcome::Done(i + 3, NoteTrackEntry::EndMeasure)
            } else {
                let (e, notes) = read_notes(s, i);
                Outcome::Done(e, NoteTrackEntry::Notes(notes))
            }
        },
    }
}

/// The mathematical values of a list of entries.
pub open spec fn entries_view(v: Seq<NoteTrackEntry>) -> Seq<EntryView> {
    Seq::new(v.len(), |k: int| v[k].deep_view())
}

fn read_track_body(s: &Vec<char>, i: usize) -> (r: Outcome<Vec<NoteTrackEntry>>)
    requires
        i <= s.len(),
    ensures
        agrees(r, body_scan(s@, i as int)),
        ends_within(body_scan(s@, i as int), s@, i as int),
{
    proof {
        lemma_body_scan_bounds(s@, i as int);
        lemma_prepend_empty(body_scan(s@, i as int));
    }
    let mut res: Vec<NoteTrackEntry> = Vec::new();
    let mut p = i;
    assert(entries_view(res@) =~= Seq::<EntryView>::empty());
    loop
        invariant
            i <= p <= s.len(),
            body_scan(s@, i as int) == prepend(entries_view(res@), body_scan(s@, p as int)),
        decreases s.len() - p,
    {
        if p >= s.len() {
            return Outcome::Failure(GrammarError::NoteTrackNotEnded);
        }
        match read_end_command_at(s, p) {
            Outcome::Done(_, _) => {
                assert(res.deep_view() =~= entries_view(res@));
                assert(entries_view(res@) + Seq::<EntryView>::empty() =~= entries_view(res@));
                return Outcome::Done(p, res);
            },
            _ => {},
        }
        match read_entry_at(s, p) {
            Outcome::Done(j, e) => {
                if j <= p {
                    return Outcome::Hang;
                }
                proof {
                    lemma_prepend_push(entries_view(res@), e.deep_view(), body_scan(s@, j as int));
                }
                let ghost before = res@;
                res.push(e);
                assert(entries_view(res@) =~= entries_view(before).push(e.deep_view()));
                p = j;
            },
            Outcome::Error(k) => {
                return Outcome::Error(k);
            },
            Outcome::Failure(k) => {
                return Outcome::Failure(k);
            },
            Outcome::Hang => {
                return Outcome::Hang;
            },
        }
    }
}

fn read_note_track_at(s: &Vec<char>, i: usize) -> (r: Outcome<Vec<NoteTrackEntry>>)
    requires
        i <= s.len(),
    ensures
        agrees(r, track_scan(s@, i as int)),
        ends_within(track_scan(s@, i as int), s@, i as int),
{
    match read_start_command_at(s, i) {
        Outcome::Done(j, st) => match read_track_body(s, j) {
            Outcome::Done(k, body) => match read_end_command_at(s, k) {
                Outcome::Done(m, _) => {
                    let mut res: Vec<NoteTrackEntry> = Vec::new();
                    res.push(NoteTrackEntry::Command(st));
                    let mut b = body;
                    let ghost body_view = b.deep_view();
                    res.append(&mut b);
                    assert(res.deep_view() =~= seq![EntryView::Command(st.deep_view())]
                        + body_view);
                    Outcome::Done(m, res)
                },
                Outcome::Error(x) => Outcome::Error(x),
                Outcome::Failure(x) => Outcome::Failure(x),
                Outcome::Hang => Outcome::Hang,
            },
            Outcome::Error(x) => Outcome::Error(x),
            Outcome::Failure(x) => Outcome::Failure(x),
            Outcome::Hang => Outcome::Hang,
        },
        Outcome::Error(x) => Outcome::Error(x),
        Outcome::Failure(x) => Outcome::Failure(x),
        Outcome::Hang => Outcome::Hang,
    }
}

// ---------------------------------------------------------------------------------------------
// The file
// ---------------------------------------------------------------------------------------------

/// One item of a chart file: a metadata pair or a note track.
#[derive(Debug, Clone, PartialEq)]
pub enum TJAFileItem {
    Metadata(String, String),
    NoteTrack(Vec<NoteTrackEntry>),
}

/// The mathematical value of a [TJAFileItem].
pub enum FileItemView {
    Metadata(Seq<char>, Seq<char>),
    NoteTrack(Seq<EntryView>),
}

impl DeepView for TJAFileItem {
    type V = FileItemView;

    open spec fn deep_view(&self) -> FileItemView {
        match self {
            TJAFileItem::Metadata(k, v) => FileItemView::Metadata(k@, v@),
            TJAFileItem::NoteTrack(t) => FileItemView::NoteTrack(t.deep_view()),
        }
    }
}

/// Reading one item at `i`: a metadata pair, or else a note track.
pub open spec fn item_scan(s: Seq<char>, i: int) -> Scan<FileItemView> {
    match metadata_scan(s, i) {
        Scan::Done(e, (k, v)) => Scan::Done(e, FileItemView::Metadata(k, v)),
        Scan::Failure(x) => Scan::Failure(x),
        Scan::Hang => Scan::Hang,
        Scan::Error(_) => match track_scan(s, i) {
            Scan::Done(e, t) => Scan::Done(e, FileItemView::NoteTrack(t)),
            Scan::Error(x) => Scan::Error(x),
            Scan::Failure(x) => Scan::Failure(x),
            Scan::Hang => Scan::Hang,
        },
    }
}

/// Reading items from `i` for as long as they can be read; an item that cannot be read ends
/// the list, unless it is a failure (or a hang).
pub open spec fn items_scan(s: Seq<char>, i: int) -> Scan<Seq<FileItemView>>
    decreases s.len() - i,
{
    match item_scan(s, i) {
        Scan::Done(j, it) => if i < j <= s.len() {
            prepend(seq![it], items_scan(s, j))
        } else {
            Scan::Error(GrammarError::Syntax)
        },
        Scan::Error(_) => Scan::Done(i, seq![]),
        Scan::Failure(x) => Scan::Failure(x),
        Scan::Hang => Scan::Hang,
    }
}

/// Reading a whole chart file: its items, which must cover all of it.
pub open spec fn file_scan(s: Seq<char>) -> Scan<Seq<FileItemView>> {
    match items_scan(s, 0) {
        Scan::Done(k, items) => if k == s.len() {
            Scan::Done(k, items)
        } else {
            Scan::Error(GrammarError::Syntax)
        },
        Scan::Error(x) => Scan::Error(x),
        Scan::Failure(x) => Scan::Failure(x),
        Scan::Hang => Scan::Hang,
    }
}

proof fn lemma_items_scan_bounds(s: Seq<char>, i: int)
    requires
        0 <= i <= s.len(),
    ensures
        ends_within(items_scan(s, i), s, i),
    decreases s.len() - i,
{
    match item_scan(s, i) {
        Scan::Done(j, it) => {
            if i < j <= s.len() {
                lemma_items_scan_bounds(s, j);
            }
        },
        _ => {},
    }
}

fn read_item_at(s: &Vec<char>, i: usize) -> (r: Outcome<TJAFileItem>)
    requires
        i <= s.len(),
    ensures
        agrees(r, item_scan(s@, i as int)),
        ends_within(item_scan(s@, i as int), s@, i as int),
{
    match read_metadata_pair_at(s, i) {
        Outcome::Done(e, (k, v)) => Outcome::Done(e, TJAFileItem::Metadata(k, v)),
        Outcome::Failure(x) => Outcome::Failure(x),
        Outcome::Hang => Outcome::Hang,
        Outcome::Error(_) => match read_note_track_at(s, i) {
            Outcome::Done(e, t) => Outcome::Done(e, TJAFileItem::NoteTrack(t)),
            Outcome::Error(x) => Outcome::Error(x),
            Outcome::Failure(x) => Outcome::Failure(x),
            Outcome::Hang => Outcome::Hang,
        },
    }
}

/// The mathematical values of a list of items.
pub open spec fn file_items_view(v: Seq<TJAFileItem>) -> Seq<FileItemView> {
    Seq::new(v.len(), |k: int| v[k].deep_view())
}

fn read_items(s: &Vec<char>, i: usize) -> (r: Outcome<Vec<TJAFileItem>>)
    requires
        i <= s.len(),
    ensures
        agrees(r, items_scan(s@, i as int)),
        ends_within(items_scan(s@, i as int), s@, i as int),
{
    proof {
        lemma_items_scan_bounds(s@, i as int);
        lemma_prepend_empty(items_scan(s@, i as int));
    }
    let mut res: Vec<TJAFileItem> = Vec::new();
    let mut p = i;
    assert(file_items_view(res@) =~= Seq::<FileItemView>::empty());
    loop
        invariant
            i <= p <= s.len(),
            items_scan(s@, i as int) == prepend(file_items_view(res@), items_scan(s@, p as int)),
        decreases s.len() - p,
    {
        match read_item_at(s, p) {
            Outcome::Done(j, it) => {
                if j <= p {
                    return Outcome::Error(GrammarError::Syntax);
                }
                proof {
                    lemma_prepend_push(file_items_view(res@), it.deep_view(), items_scan(s@, j as int));
                }
                let ghost before = res@;
                res.push(it);
                assert(file_items_view(res@) =~= file_items_view(before).push(it.deep_view()));
                p = j;
            },
            Outcome::Error(_) => {
                assert(res.deep_view() =~= file_items_view(res@));
                assert(file_items_view(res@) + Seq::<FileItemView>::empty() =~= file_items_view(
                    res@,
                ));
                return Outcome::Done(p, res);
            },
            Outcome::Failure(x) => {
                return Outcome::Failure(x);
            },
            Outcome::Hang => {
                return Outcome::Hang;
            },
        }
    }
}

fn read_file(s: &Vec<char>) -> (r: Outcome<Vec<TJAFileItem>>)
    ensures
        agrees(r, file_scan(s@)),
        ends_within(file_scan(s@), s@, 0),
{
    match read_items(s, 0) {
        Outcome::Done(k, items) => {
            if k == s.len() {
                Outcome::Done(k, items)
            } else {
                Outcome::Error(GrammarError::Syntax)
            }
        },
        Outcome::Error(x) => Outcome::Error(x),
        Outcome::Failure(x) => Outcome::Failure(x),
        Outcome::Hang => Outcome::Hang,
    }
}

// ---------------------------------------------------------------------------------------------
// Comments
// ---------------------------------------------------------------------------------------------

/// A line without a leading byte order mark and without its comment.
pub open spec fn uncommented(l: Seq<char>) -> Seq<char> {
    cut_comment(strip_bom(l))
}

/// The lines `ls` joined with `'\n'` between each two of them.
pub open spec fn joined(ls: Seq<Seq<char>>) -> Seq<char>
    decreases ls.len(),
{
    if ls.len() == 0 {
        seq![]
    } else if ls.len() == 1 {
        ls[0]
    } else {
        joined(ls.drop_last()) + seq!['\n'] + ls.last()
    }
}

/// A chart file with its comments and byte order marks taken out, line by line.
pub open spec fn without_comments(s: Seq<char>) -> Seq<char> {
    joined(lines(s).map_values(|l: Seq<char>| uncommented(l)))
}

proof fn lemma_uncommented_free(l: Seq<char>)
    ensures
        free_of_comments(uncommented(l)),
{
    lemma_cut_comment_free(strip_bom(l));
}

proof fn lemma_joined_free(ls: Seq<Seq<char>>)
    requires
        forall|k: int| 0 <= k < ls.len() ==> free_of_comments(#[trigger] ls[k]),
    ensures
        free_of_comments(joined(ls)),
    decreases ls.len(),
{
    if ls.len() > 1 {
        let init = ls.drop_last();
        assert forall|k: int| 0 <= k < init.len() implies free_of_comments(#[trigger] init[k]) by {
            assert(init[k] == ls[k]);
        }
        lemma_joined_free(init);
        let a = joined(init);
        let b = ls.last();
        assert(free_of_comments(b)) by {
            assert(b == ls[ls.len() - 1]);
        }
        let t = joined(ls);
        assert(t == a + seq!['\n'] + b);
        assert forall|i: int| 0 <= i && i + 1 < t.len() implies !#[trigger] comment_mark_at(t, i) by {
            if i + 1 < a.len() {
                assert(t[i] == a[i] && t[i + 1] == a[i + 1]);
                assert(!comment_mark_at(a, i));
            } else if i + 1 == a.len() {
                assert(t[i + 1] == '\n');
            } else if i == a.len() {
                assert(t[i] == '\n');
            } else {
                let q = i - a.len() - 1;
                assert(t[i] == b[q] && t[i + 1] == b[q + 1]);
                assert(!comment_mark_at(b, q));
            }
        }
    } else if ls.len() == 1 {
        assert(free_of_comments(ls[0]));
    }
}

/// Taking the comments out leaves no comment: the text holds no `"//"` at all.
pub proof fn lemma_without_comments_is_free(s: Seq<char>)
    ensures
        free_of_comments(without_comments(s)),
{
    let ls = lines(s).map_values(|l: Seq<char>| uncommented(l));
    assert forall|k: int| 0 <= k < ls.len() implies free_of_comments(#[trigger] ls[k]) by {
        lemma_uncommented_free(lines(s)[k]);
    }
    lemma_joined_free(ls);
}

fn uncomment_line(raw: &Vec<char>) -> (r: Vec<char>)
    ensures
        r@ == uncommented(raw@),
{
    let lo: usize = if raw.len() > 0 && raw[0] == '\u{feff}' {
        1
    } else {
        0
    };
    let no_bom = copy_range(raw, lo, raw.len());
    assert(no_bom@ =~= strip_bom(raw@));
    let c = find_comment(&no_bom);
    proof {
        lemma_comment_from_bounds(no_bom@, 0);
    }
    let r = copy_range(&no_bom, 0, c);
    assert(r@ =~= cut_comment(no_bom@));
    r
}

/// Strips away the comments from a tja file, and removes the zero width byte alignment character
/// from the front if it exists.
pub fn preprocess_tja_file(input: &str) -> (r: String)
    ensures
        r@ == without_comments(input@),
{
    let s = str_chars(input);
    let mut out: Vec<char> = Vec::new();
    let mut start: usize = 0;
    let mut count: usize = 0;
    let ghost mut done: Seq<Seq<char>> = seq![];
    while start < s.len()
        invariant
            start <= s.len(),
            s@ == input@,
            count == done.len(),
            count <= start,
            done + lines_from(s@, start as int) == lines(s@),
            out@ == joined(done.map_values(|l: Seq<char>| uncommented(l))),
        decreases s.len() - start,
    {
        let e = find_newline(&s, start);
        proof {
            lemma_newline_from_bounds(s@, start as int);
        }
        let raw = if e < s.len() && e > start && s[e - 1] == '\r' {
            copy_range(&s, start, e - 1)
        } else {
            copy_range(&s, start, e)
        };
        let ghost rest_lines = lines_from(s@, e + 1);
        if e < s.len() {
            assert(raw@ =~= strip_cr(s@.subrange(start as int, e as int)));
            assert(lines_from(s@, start as int) == seq![raw@] + rest_lines);
        } else {
            assert(raw@ =~= s@.subrange(start as int, s.len() as int));
            assert(lines_from(s@, start as int) =~= seq![raw@] + rest_lines);
        }
        let mut line = uncomment_line(&raw);
        let ghost old_out = out@;
        let ghost mapped = done.map_values(|l: Seq<char>| uncommented(l));
        if count > 0 {
            out.push('\n');
        }
        let ghost line_view = line@;
        out.append(&mut line);
        proof {
            let new_done = done.push(raw@);
            let new_mapped = new_done.map_values(|l: Seq<char>| uncommented(l));
            assert(new_mapped =~= mapped.push(uncommented(raw@)));
            assert(new_mapped.drop_last() =~= mapped);
            if count > 0 {
                assert(out@ =~= old_out + seq!['\n'] + line_view);
            } else {
                assert(mapped.len() == 0);
                assert(out@ =~= line_view);
            }
            assert(new_done + rest_lines =~= done + (seq![raw@] + rest_lines));
            done = new_done;
        }
        start = if e < s.len() {
            e + 1
        } else {
            s.len()
        };
        count = count + 1;
    }
    proof {
        assert(lines_from(s@, start as int) =~= Seq::<Seq<char>>::empty());
        assert(done + Seq::<Seq<char>>::empty() =~= done);
    }
    chars_to_string(&out)
}

// ---------------------------------------------------------------------------------------------
// Reading from text
// ---------------------------------------------------------------------------------------------

/// Parses a metadata tag, which will be an identifier that consists only of uppercase letters
/// and numbers. It must start with an uppercase letter. Gives the rest of the input and the tag.
pub fn metadata_tagname(i: &str) -> (r: Result<(String, String), GrammarError>)
    ensures
        result_agrees(r, i@, tagname_scan(i@, 0)),
{
    let s = str_chars(i);
    let o = match find_tag_name_end(&s, 0) {
        Some(e) => Outcome::Done(e, range_to_string(&s, 0, e)),
        None => Outcome::Error(GrammarError::Syntax),
    };
    into_result(&s, o, Ghost(tagname_scan(s@, 0)))
}

/// Parses a single metadata definition: a line containing a name for the attribute, followed
/// by a colon and optional space, then the value.
pub fn metadata_pair(i: &str) -> (r: Result<(String, (String, String)), GrammarError>)
    ensures
        result_agrees(r, i@, metadata_scan(i@, 0)),
{
    let s = str_chars(i);
    let o = read_metadata_pair_at(&s, 0);
    into_result(&s, o, Ghost(metadata_scan(s@, 0)))
}

/// Parses an `#END` line.
pub fn end_command(i: &str) -> (r: Result<(String, ()), GrammarError>)
    ensures
        result_agrees(r, i@, end_scan(i@, 0)),
{
    let s = str_chars(i);
    let o = read_end_command_at(&s, 0);
    into_result(&s, o, Ghost(end_scan(s@, 0)))
}

/// Parses a `#START` line, with its optional player.
pub fn start_command(i: &str) -> (r: Result<(String, TrackCommand), GrammarError>)
    ensures
        result_agrees(r, i@, start_scan(i@, 0)),
{
    let s = str_chars(i);
    let o = read_start_command_at(&s, 0);
    into_result(&s, o, Ghost(start_scan(s@, 0)))
}

/// Parses a track command (that isn't `#START` or `#END`).
pub fn inner_track_command(i: &str) -> (r: Result<(String, TrackCommand), GrammarError>)
    ensures
        result_agrees(r, i@, command_scan(i@, 0)),
{
    let s = str_chars(i);
    let o = read_track_command_at(&s, 0);
    into_result(&s, o, Ghost(command_scan(s@, 0)))
}

/// Parses a run of notes (possibly an empty one).
pub fn notes(i: &str) -> (r: Result<(String, Vec<Option<NoteType>>), GrammarError>)
    ensures
        result_agrees(r, i@, notes_scan(i@, 0)),
{
    let s = str_chars(i);
    let (e, ns) = read_notes(&s, 0);
    assert(ns.deep_view() =~= ns@);
    let o = Outcome::Done(e, ns);
    into_result(&s, o, Ghost(notes_scan(s@, 0)))
}

/// Parses a whole note track, from `#START` to `#END`.
pub fn note_track(i: &str) -> (r: Result<(String, Vec<NoteTrackEntry>), GrammarError>)
    requires
        !(track_scan(i@, 0) is Hang),
    ensures
        result_agrees(r, i@, track_scan(i@, 0)),
{
    let s = str_chars(i);
    let o = read_note_track_at(&s, 0);
    into_result(&s, o, Ghost(track_scan(s@, 0)))
}

/// Parses a whole chart file into its list of items.
pub fn tja_file(i: &str) -> (r: Result<(String, Vec<TJAFileItem>), GrammarError>)
    requires
        !(file_scan(i@) is Hang),
    ensures
        result_agrees(r, i@, file_scan(i@)),
{
    let s = str_chars(i);
    let o = read_file(&s);
    into_result(&s, o, Ghost(file_scan(s@)))
}

/// Whether reading `i` as a chart file comes to an end: it does not, when a note track holds a
/// line that no entry reads (such as a blank line between two measures), which would be read as
/// an empty run of notes again and again.
pub fn tja_file_finishes(i: &str) -> (b: bool)
    ensures
        b == !(file_scan(i@) is Hang),
{
    let s = str_chars(i);
    match read_file(&s) {
        Outcome::Hang => false,
        _ => true,
    }
}

/// Reads a chart file, comments removed, into its list of items and throws the items away;
/// the file must be readable.
pub fn tja_file_bench(i: &str)
    requires
        file_scan(without_comments(i@)) is Done,
{
    let no_comments = preprocess_tja_file(i);
    let s = str_chars(no_comments.as_str());
    let o = read_file(&s);
    match o {
        Outcome::Done(_, _) => {},
        _ => {
            assert(false);
        },
    }
}

} // verus!
