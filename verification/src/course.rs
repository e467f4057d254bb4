//! The line grammar of a chart file: metadata pairs, the `#START` command, and the items of a
//! course (notes, commands and `#END`).
use vstd::prelude::*;

use crate::error::{ErrorKindView, TJAParseErrorKind};
use crate::numbers::{
    char_is_digit, is_digit, is_float_literal, range_is_float_literal, read_time_signature,
    time_signature,
};
use crate::text::{copy_range, range_eq_str, range_to_string, starts_with_str};

verus! {

broadcast use vstd::string::group_string_axioms;

/// The type of a note.
///
/// This includes a special note, which defines the end
/// of a drum roll. All drum rolls should be terminated with this note
/// (with the exception of the [SpecialRoll][TJANoteType::SpecialRoll], which can be terminated
/// with another [SpecialRoll][TJANoteType::SpecialRoll]).
#[derive(Debug, Clone, Copy, PartialEq, Eq, Hash, Structural)]
pub enum TJANoteType {
    Don,
    Kat,
    BigDon,
    BigKat,
    Roll,
    BigRoll,
    BalloonRoll(u16),
    RollEnd,
    SpecialRoll(u16),
    CoopDon,
    CoopKat,
}

/// Which player a course is for, as given by `#START P1` or `#START P2`.
#[derive(Debug, Clone, Copy, PartialEq, Eq, Structural)]
pub enum Player {
    Player1,
    Player2,
}

/// A command inside a course. Numeric arguments are kept as the text that was written, which is
/// known to be a valid float literal.
#[derive(Debug, Clone, PartialEq)]
pub enum CourseCommand {
    Lyric(String),
    BpmChange(String),
    Measure(u8, u8),
    Delay(String),
    Scroll(String),
    GogoStart,
    GogoEnd,
    BarlineOff,
    BarlineOn,
}

/// The mathematical value of a [CourseCommand].
pub enum CourseCommandView {
    Lyric(Seq<char>),
    BpmChange(Seq<char>),
    Measure(u8, u8),
    Delay(Seq<char>),
    Scroll(Seq<char>),
    GogoStart,
    GogoEnd,
    BarlineOff,
    BarlineOn,
}

impl View for CourseCommand {
    type V = CourseCommandView;

    open spec fn view(&self) -> CourseCommandView {
        match self {
            CourseCommand::Lyric(s) => CourseCommandView::Lyric(s@),
            CourseCommand::BpmChange(s) => CourseCommandView::BpmChange(s@),
            CourseCommand::Measure(n, d) => CourseCommandView::Measure(*n, *d),
            CourseCommand::Delay(s) => CourseCommandView::Delay(s@),
            CourseCommand::Scroll(s) => CourseCommandView::Scroll(s@),
            CourseCommand::GogoStart => CourseCommandView::GogoStart,
            CourseCommand::GogoEnd => CourseCommandView::GogoEnd,
            CourseCommand::BarlineOff => CourseCommandView::BarlineOff,
            CourseCommand::BarlineOn => CourseCommandView::BarlineOn,
        }
    }
}

/// One line of a course.
#[derive(Debug, Clone, PartialEq)]
pub enum CourseItem {
    EndCommand,
    Command(CourseCommand),
    /// A run of notes (`None` for a rest), and whether the line closes the measure with `,`.
    Notes { notes: Vec<Option<TJANoteType>>, end_measure: bool },
}

/// The mathematical value of a [CourseItem].
pub enum CourseItemView {
    EndCommand,
    Command(CourseCommandView),
    Notes { notes: Seq<Option<TJANoteType>>, end_measure: bool },
}

impl View for CourseItem {
    type V = CourseItemView;

    open spec fn view(&self) -> CourseItemView {
        match self {
            CourseItem::EndCommand => CourseItemView::EndCommand,
            CourseItem::Command(c) => CourseItemView::Command(c@),
            CourseItem::Notes { notes, end_measure } => CourseItemView::Notes {
                notes: notes@,
                end_measure: *end_measure,
            },
        }
    }
}

/// The views of a sequence of course items.
pub open spec fn items_view(items: Seq<CourseItem>) -> Seq<CourseItemView> {
    items.map_values(|i: CourseItem| i@)
}

// ---------------------------------------------------------------------------------------------
// Character classes and runs
// ---------------------------------------------------------------------------------------------

/// `s[i..]` begins with `lit`.
pub open spec fn has_prefix(s: Seq<char>, i: int, lit: Seq<char>) -> bool {
    0 <= i && i + lit.len() <= s.len() && s.subrange(i, i + lit.len()) == lit
}

/// An ASCII upper case letter.
pub open spec fn is_upper(c: char) -> bool {
    65 <= c as u32 <= 90
}

/// A line ending character.
pub open spec fn is_crlf(c: char) -> bool {
    c == '\r' || c == '\n'
}

/// A character that stands for a note (or a rest): a digit, `A` or `B`.
pub open spec fn is_note_char(c: char) -> bool {
    is_digit(c) || c == 'A' || c == 'B'
}

/// The note a note character stands for; `'0'` is a rest.
pub open spec fn note_of(c: char) -> Option<TJANoteType> {
    if c == '1' {
        Some(TJANoteType::Don)
    } else if c == '2' {
        Some(TJANoteType::Kat)
    } else if c == '3' {
        Some(TJANoteType::BigDon)
    } else if c == '4' {
        Some(TJANoteType::BigKat)
    } else if c == '5' {
        Some(TJANoteType::Roll)
    } else if c == '6' {
        Some(TJANoteType::BigRoll)
    } else if c == '7' {
        Some(TJANoteType::BalloonRoll(0))
    } else if c == '8' {
        Some(TJANoteType::RollEnd)
    } else if c == '9' {
        Some(TJANoteType::SpecialRoll(0))
    } else if c == 'A' {
        Some(TJANoteType::CoopDon)
    } else if c == 'B' {
        Some(TJANoteType::CoopKat)
    } else {
        None
    }
}

/// The end of the run of upper case letters starting at `i`.
pub open spec fn upper_end(s: Seq<char>, i: int) -> int
    decreases s.len() - i,
{
    if 0 <= i < s.len() && is_upper(s[i]) {
        upper_end(s, i + 1)
    } else {
        i
    }
}

/// The end of the run of note characters starting at `i`.
pub open spec fn note_end(s: Seq<char>, i: int) -> int
    decreases s.len() - i,
{
    if 0 <= i < s.len() && is_note_char(s[i]) {
        note_end(s, i + 1)
    } else {
        i
    }
}

/// The end of the run of characters other than line endings starting at `i`.
pub open spec fn text_end(s: Seq<char>, i: int) -> int
    decreases s.len() - i,
{
    if 0 <= i < s.len() && !is_crlf(s[i]) {
        text_end(s, i + 1)
    } else {
        i
    }
}

pub(crate) proof fn lemma_upper_end(s: Seq<char>, i: int)
    requires
        0 <= i <= s.len(),
    ensures
        i <= upper_end(s, i) <= s.len(),
    decreases s.len() - i,
{
    if i < s.len() && is_upper(s[i]) {
        lemma_upper_end(s, i + 1);
    }
}

pub(crate) proof fn lemma_note_end(s: Seq<char>, i: int)
    requires
        0 <= i <= s.len(),
    ensures
        i <= note_end(s, i) <= s.len(),
        forall|j: int| i <= j < note_end(s, i) ==> is_note_char(#[trigger] s[j]),
    decreases s.len() - i,
{
    if i < s.len() && is_note_char(s[i]) {
        lemma_note_end(s, i + 1);
    }
}

pub(crate) proof fn lemma_text_end(s: Seq<char>, i: int)
    requires
        0 <= i <= s.len(),
    ensures
        i <= text_end(s, i) <= s.len(),
    decreases s.len() - i,
{
    if i < s.len() && !is_crlf(s[i]) {
        lemma_text_end(s, i + 1);
    }
}

pub(crate) fn char_is_upper(c: char) -> (b: bool)
    ensures
        b == is_upper(c),
{
    let u = c as u32;
    65 <= u && u <= 90
}

pub(crate) fn find_upper_end(s: &Vec<char>, i: usize) -> (e: usize)
    requires
        i <= s.len(),
    ensures
        e == upper_end(s@, i as int),
        i <= e <= s.len(),
{
    proof {
        lemma_upper_end(s@, i as int);
    }
    let mut j = i;
    while j < s.len() && char_is_upper(s[j])
        invariant
            i <= j <= s.len(),
            upper_end(s@, i as int) == upper_end(s@, j as int),
        decreases s.len() - j,
    {
        j = j + 1;
    }
    j
}

pub(crate) fn find_note_end(s: &Vec<char>, i: usize) -> (e: usize)
    requires
        i <= s.len(),
    ensures
        e == note_end(s@, i as int),
        i <= e <= s.len(),
{
    proof {
        lemma_note_end(s@, i as int);
    }
    let mut j = i;
    while j < s.len() && (char_is_digit(s[j]) || s[j] == 'A' || s[j] == 'B')
        invariant
            i <= j <= s.len(),
            note_end(s@, i as int) == note_end(s@, j as int),
        decreases s.len() - j,
    {
        j = j + 1;
    }
    j
}

pub(crate) fn find_text_end(s: &Vec<char>, i: usize) -> (e: usize)
    requires
        i <= s.len(),
    ensures
        e == text_end(s@, i as int),
        i <= e <= s.len(),
{
    proof {
        lemma_text_end(s@, i as int);
    }
    let mut j = i;
    while j < s.len() && !(s[j] == '\r' || s[j] == '\n')
        invariant
            i <= j <= s.len(),
            text_end(s@, i as int) == text_end(s@, j as int),
        decreases s.len() - j,
    {
        j = j + 1;
    }
    j
}

fn read_note(c: char) -> (n: Option<TJANoteType>)
    ensures
        n == note_of(c),
{
    match c {
        '1' => Some(TJANoteType::Don),
        '2' => Some(TJANoteType::Kat),
        '3' => Some(TJANoteType::BigDon),
        '4' => Some(TJANoteType::BigKat),
        '5' => Some(TJANoteType::Roll),
        '6' => Some(TJANoteType::BigRoll),
        '7' => Some(TJANoteType::BalloonRoll(0)),
        '8' => Some(TJANoteType::RollEnd),
        '9' => Some(TJANoteType::SpecialRoll(0)),
        'A' => Some(TJANoteType::CoopDon),
        'B' => Some(TJANoteType::CoopKat),
        _ => None,
    }
}

// ---------------------------------------------------------------------------------------------
// Command arguments and metadata
// ---------------------------------------------------------------------------------------------

/// The optional argument of a command whose name ends at `i`: a space followed by one or more
/// characters other than line endings. Gives the argument and where it ends (`i` when absent).
pub open spec fn command_arg(s: Seq<char>, i: int) -> (Option<Seq<char>>, int) {
    if 0 <= i && i + 1 < s.len() && s[i] == ' ' && !is_crlf(s[i + 1]) {
        let e = text_end(s, i + 1);
        (Some(s.subrange(i + 1, e)), e)
    } else {
        (None, i)
    }
}

/// A metadata line `KEY:value`: one or more upper case letters, a colon, then the rest of the
/// line, which must hold no line ending character.
pub open spec fn metadata_pair(s: Seq<char>) -> Option<(Seq<char>, Seq<char>)> {
    let k = upper_end(s, 0);
    if k == 0 || k >= s.len() || s[k] != ':' {
        None
    } else if text_end(s, k + 1) == s.len() {
        Some((s.take(k), s.subrange(k + 1, s.len() as int)))
    } else {
        None
    }
}

/// Reads a metadata line; on success gives where the key ends (the colon).
pub fn read_metadata_pair(s: &Vec<char>) -> (r: Option<usize>)
    ensures
        match r {
            Some(k) => k < s.len() && metadata_pair(s@) == Some(
                (s@.take(k as int), s@.subrange(k + 1, s.len() as int)),
            ),
            None => metadata_pair(s@) is None,
        },
{
    let k = find_upper_end(s, 0);
    if k == 0 || k >= s.len() || s[k] != ':' {
        return None;
    }
    let e = find_text_end(s, k + 1);
    if e == s.len() {
        Some(k)
    } else {
        None
    }
}

/// `#START` with an optional player: `Ok(None)` for no player, an error for a player other
/// than `P1` or `P2`, and a syntax error for anything that is not a start command.
pub open spec fn start_command(s: Seq<char>) -> Result<Option<Player>, ErrorKindView> {
    if !has_prefix(s, 0, "#START"@) {
        Err(ErrorKindView::SyntaxError)
    } else {
        let (arg, e) = command_arg(s, "#START"@.len() as int);
        let player = match arg {
            None => Ok(None),
            Some(a) => if a == "P1"@ {
                Ok(Some(Player::Player1))
            } else if a == "P2"@ {
                Ok(Some(Player::Player2))
            } else {
                Err(ErrorKindView::CourseCommandError)
            },
        };
        match player {
            Ok(p) => if e == s.len() {
                Ok(p)
            } else {
                Err(ErrorKindView::SyntaxError)
            },
            Err(k) => Err(k),
        }
    }
}

pub(crate) fn read_command_arg(s: &Vec<char>, i: usize) -> (r: (Option<(usize, usize)>, usize))
    requires
        i <= s.len(),
    ensures
        ({
            let (arg, e) = command_arg(s@, i as int);
            &&& r.1 == e
            &&& i <= r.1 <= s.len()
            &&& match r.0 {
                Some((lo, hi)) => lo <= hi <= s.len() && arg == Some(
                    s@.subrange(lo as int, hi as int),
                ) && hi == e,
                None => arg is None,
            }
        }),
{
    if i < s.len() && s.len() - i > 1 && s[i] == ' ' && !(s[i + 1] == '\r' || s[i + 1] == '\n') {
        let e = find_text_end(s, i + 1);
        (Some((i + 1, e)), e)
    } else {
        (None, i)
    }
}

/// Reads a start command (see [start_command]).
pub fn read_start_command(s: &Vec<char>) -> (r: Result<Option<Player>, TJAParseErrorKind>)
    ensures
        match r {
            Ok(p) => start_command(s@) == Ok::<Option<Player>, ErrorKindView>(p),
            Err(k) => start_command(s@) == Err::<Option<Player>, ErrorKindView>(k@),
        },
{
    if !starts_with_str(s, 0, "#START") {
        return Err(TJAParseErrorKind::SyntaxError);
    }
    let n = "#START".unicode_len();
    let (arg, e) = read_command_arg(s, n);
    let player = match arg {
        None => None,
        Some((lo, hi)) => {
            if range_eq_str(s, lo, hi, "P1") {
                Some(Player::Player1)
            } else if range_eq_str(s, lo, hi, "P2") {
                Some(Player::Player2)
            } else {
                return Err(TJAParseErrorKind::CourseCommandError);
            }
        },
    };
    if e == s.len() {
        Ok(player)
    } else {
        Err(TJAParseErrorKind::SyntaxError)
    }
}

// ---------------------------------------------------------------------------------------------
// Course items
// ---------------------------------------------------------------------------------------------

/// A command from its name and optional argument. Commands with a numeric argument need a float
/// literal (or, for `MEASURE`, a time signature); the four switches take no argument. (`END`
/// never gets here: a line that starts with `#END` is an end command.)
pub open spec fn command_from_name_arg(name: Seq<char>, arg: Option<Seq<char>>) -> Result<
    CourseCommandView,
    ErrorKindView,
> {
    let err = Err(ErrorKindView::CourseCommandError);
    if name == "LYRIC"@ {
        match arg {
            Some(a) => Ok(CourseCommandView::Lyric(a)),
            None => err,
        }
    } else if name == "BPMCHANGE"@ {
        match arg {
            Some(a) => if is_float_literal(a) {
                Ok(CourseCommandView::BpmChange(a))
            } else {
                err
            },
            None => err,
        }
    } else if name == "MEASURE"@ {
        match arg {
            Some(a) => match time_signature(a) {
                Some((n, d)) => Ok(CourseCommandView::Measure(n, d)),
                None => err,
            },
            None => err,
        }
    } else if name == "DELAY"@ {
        match arg {
            Some(a) => if is_float_literal(a) {
                Ok(CourseCommandView::Delay(a))
            } else {
                err
            },
            None => err,
        }
    } else if name == "SCROLL"@ {
        match arg {
            Some(a) => if is_float_literal(a) {
                Ok(CourseCommandView::Scroll(a))
            } else {
                err
            },
            None => err,
        }
    } else if name == "GOGOSTART"@ || name == "GOGOEND"@ || name == "BARLINEOFF"@ || name
        == "BARLINEON"@ {
        if arg is Some {
            err
        } else if name == "GOGOSTART"@ {
            Ok(CourseCommandView::GogoStart)
        } else if name == "GOGOEND"@ {
            Ok(CourseCommandView::GogoEnd)
        } else if name == "BARLINEOFF"@ {
            Ok(CourseCommandView::BarlineOff)
        } else {
            Ok(CourseCommandView::BarlineOn)
        }
    } else {
        err
    }
}

/// The name a course command is written with.
pub open spec fn course_command_name(c: CourseCommandView) -> Seq<char> {
    match c {
        CourseCommandView::Lyric(_) => "LYRIC"@,
        CourseCommandView::BpmChange(_) => "BPMCHANGE"@,
        CourseCommandView::Measure(_, _) => "MEASURE"@,
        CourseCommandView::Delay(_) => "DELAY"@,
        CourseCommandView::Scroll(_) => "SCROLL"@,
        CourseCommandView::GogoStart => "GOGOSTART"@,
        CourseCommandView::GogoEnd => "GOGOEND"@,
        CourseCommandView::BarlineOff => "BARLINEOFF"@,
        CourseCommandView::BarlineOn => "BARLINEON"@,
    }
}

/// Each name gives its own command: a command read from a name is written with that name (so
/// different names never give the same command), an argument is kept as written, and a switch
/// (`GOGOSTART`, `GOGOEND`, `BARLINEOFF`, `BARLINEON`) is read exactly when it has no argument.
pub proof fn lemma_course_command_names(name: Seq<char>, arg: Option<Seq<char>>)
    ensures
        command_from_name_arg(name, arg) matches Ok(c) ==> course_command_name(c) == name,
        command_from_name_arg(name, arg) matches Ok(CourseCommandView::Lyric(a)) ==> arg == Some(a),
        command_from_name_arg(name, arg) matches Ok(CourseCommandView::BpmChange(a)) ==> arg == Some(a),
        command_from_name_arg(name, arg) matches Ok(CourseCommandView::Delay(a)) ==> arg == Some(a),
        command_from_name_arg(name, arg) matches Ok(CourseCommandView::Scroll(a)) ==> arg == Some(a),
        (name == "GOGOSTART"@ || name == "GOGOEND"@ || name == "BARLINEOFF"@ || name
            == "BARLINEON"@) ==> (command_from_name_arg(name, arg) is Ok <==> arg is None),
{
    reveal_strlit("LYRIC");
    reveal_strlit("BPMCHANGE");
    reveal_strlit("MEASURE");
    reveal_strlit("DELAY");
    reveal_strlit("SCROLL");
    reveal_strlit("GOGOSTART");
    reveal_strlit("GOGOEND");
    reveal_strlit("BARLINEOFF");
    reveal_strlit("BARLINEON");
    assert("GOGOSTART"@.len() != "LYRIC"@.len());
    assert("GOGOSTART"@[0] != "BPMCHANGE"@[0] || "GOGOSTART"@[1] != "BPMCHANGE"@[1]);
    assert("GOGOSTART"@ != "BPMCHANGE"@);
    assert("GOGOSTART"@.len() != "MEASURE"@.len());
    assert("GOGOSTART"@.len() != "DELAY"@.len());
    assert("GOGOSTART"@.len() != "SCROLL"@.len());
    assert("GOGOEND"@.len() != "LYRIC"@.len());
    assert("GOGOEND"@.len() != "BPMCHANGE"@.len());
    assert("GOGOEND"@[0] != "MEASURE"@[0] || "GOGOEND"@[1] != "MEASURE"@[1]);
    assert("GOGOEND"@ != "MEASURE"@);
    assert("GOGOEND"@.len() != "DELAY"@.len());
    assert("GOGOEND"@.len() != "SCROLL"@.len());
    assert("BARLINEOFF"@.len() != "LYRIC"@.len());
    assert("BARLINEOFF"@.len() != "BPMCHANGE"@.len());
    assert("BARLINEOFF"@.len() != "MEASURE"@.len());
    assert("BARLINEOFF"@.len() != "DELAY"@.len());
    assert("BARLINEOFF"@.len() != "SCROLL"@.len());
    assert("BARLINEON"@.len() != "LYRIC"@.len());
    assert("BARLINEON"@[0] != "BPMCHANGE"@[0] || "BARLINEON"@[1] != "BPMCHANGE"@[1]);
    assert("BARLINEON"@ != "BPMCHANGE"@);
    assert("BARLINEON"@.len() != "MEASURE"@.len());
    assert("BARLINEON"@.len() != "DELAY"@.len());
    assert("BARLINEON"@.len() != "SCROLL"@.len());
}

/// One line of a course:
/// - a line starting with `#END` must be exactly `#END`;
/// - a line starting with `,` must be exactly `,` (an empty measure);
/// - a line starting with a note character is a run of notes, optionally closed by `,`;
/// - anything else must be a command `#NAME` with an optional ` argument`.
pub open spec fn course_item(s: Seq<char>) -> Result<CourseItemView, ErrorKindView> {
    if has_prefix(s, 0, "#END"@) {
        if s.len() == "#END"@.len() {
            Ok(CourseItemView::EndCommand)
        } else {
            Err(ErrorKindView::SyntaxError)
        }
    } else if s.len() > 0 && s[0] == ',' {
        if s.len() == 1 {
            Ok(CourseItemView::Notes { notes: seq![], end_measure: true })
        } else {
            Err(ErrorKindView::SyntaxError)
        }
    } else if s.len() > 0 && is_note_char(s[0]) {
        let e = note_end(s, 0);
        let notes = Seq::new(e as nat, |j: int| note_of(s[j]));
        if e == s.len() {
            Ok(CourseItemView::Notes { notes, end_measure: false })
        } else if s[e] == ',' && e + 1 == s.len() {
            Ok(CourseItemView::Notes { notes, end_measure: true })
        } else {
            Err(ErrorKindView::SyntaxError)
        }
    } else if s.len() > 0 && s[0] == '#' && upper_end(s, 1) > 1 {
        let k = upper_end(s, 1);
        let (arg, e) = command_arg(s, k);
        match command_from_name_arg(s.subrange(1, k), arg) {
            Ok(c) => if e == s.len() {
                Ok(CourseItemView::Command(c))
            } else {
                Err(ErrorKindView::SyntaxError)
            },
            Err(kind) => Err(kind),
        }
    } else {
        Err(ErrorKindView::SyntaxError)
    }
}

pub(crate) fn arg_is_float(s: &Vec<char>, arg: Option<(usize, usize)>) -> (b: bool)
    requires
        arg matches Some((lo, hi)) ==> lo <= hi <= s.len(),
    ensures
        b == (arg matches Some((lo, hi)) && is_float_literal(s@.subrange(lo as int, hi as int))),
{
    match arg {
        Some((lo, hi)) => range_is_float_literal(s, lo, hi),
        None => false,
    }
}

/// Builds a command from the name `s[1..k]` and the argument found after it.
fn read_command(s: &Vec<char>, k: usize, arg: Option<(usize, usize)>) -> (r: Result<
    CourseCommand,
    TJAParseErrorKind,
>)
    requires
        1 <= k <= s.len(),
        arg matches Some((lo, hi)) ==> lo <= hi <= s.len(),
    ensures
        ({
            let a = match arg {
                Some((lo, hi)) => Some(s@.subrange(lo as int, hi as int)),
                None => None,
            };
            match r {
                Ok(c) => command_from_name_arg(s@.subrange(1, k as int), a) == Ok::<
                    CourseCommandView,
                    ErrorKindView,
                >(c@),
                Err(e) => command_from_name_arg(s@.subrange(1, k as int), a) == Err::<
                    CourseCommandView,
                    ErrorKindView,
                >(e@),
            }
        }),
{
    let err = Err(TJAParseErrorKind::CourseCommandError);
    if range_eq_str(s, 1, k, "LYRIC") {
        match arg {
            Some((lo, hi)) => Ok(CourseCommand::Lyric(range_to_string(s, lo, hi))),
            None => err,
        }
    } else if range_eq_str(s, 1, k, "BPMCHANGE") {
        if arg_is_float(s, arg) {
            let (lo, hi) = arg.unwrap();
            Ok(CourseCommand::BpmChange(range_to_string(s, lo, hi)))
        } else {
            err
        }
    } else if range_eq_str(s, 1, k, "MEASURE") {
        match arg {
            Some((lo, hi)) => {
                let a = copy_range(s, lo, hi);
                match read_time_signature(&a) {
                    Some((n, d)) => Ok(CourseCommand::Measure(n, d)),
                    None => err,
                }
            },
            None => err,
        }
    } else if range_eq_str(s, 1, k, "DELAY") {
        if arg_is_float(s, arg) {
            let (lo, hi) = arg.unwrap();
            Ok(CourseCommand::Delay(range_to_string(s, lo, hi)))
        } else {
            err
        }
    } else if range_eq_str(s, 1, k, "SCROLL") {
        if arg_is_float(s, arg) {
            let (lo, hi) = arg.unwrap();
            Ok(CourseCommand::Scroll(range_to_string(s, lo, hi)))
        } else {
            err
        }
    } else if range_eq_str(s, 1, k, "GOGOSTART") || range_eq_str(s, 1, k, "GOGOEND")
        || range_eq_str(s, 1, k, "BARLINEOFF") || range_eq_str(s, 1, k, "BARLINEON") {
        if arg.is_some() {
            err
        } else if range_eq_str(s, 1, k, "GOGOSTART") {
            Ok(CourseCommand::GogoStart)
        } else if range_eq_str(s, 1, k, "GOGOEND") {
            Ok(CourseCommand::GogoEnd)
        } else if range_eq_str(s, 1, k, "BARLINEOFF") {
            Ok(CourseCommand::BarlineOff)
        } else {
            Ok(CourseCommand::BarlineOn)
        }
    } else {
        err
    }
}

/// Reads one line of a course (see [course_item]).
pub fn read_course_item(s: &Vec<char>) -> (r: Result<CourseItem, TJAParseErrorKind>)
    ensures
        match r {
            Ok(item) => course_item(s@) == Ok::<CourseItemView, ErrorKindView>(item@),
            Err(k) => course_item(s@) == Err::<CourseItemView, ErrorKindView>(k@),
        },
        r matches Ok(CourseItem::Notes { notes, end_measure: _ }) ==> notes@.len() <= s@.len(),
{
    if starts_with_str(s, 0, "#END") {
        if s.len() == "#END".unicode_len() {
            return Ok(CourseItem::EndCommand);
        } else {
            return Err(TJAParseErrorKind::SyntaxError);
        }
    }
    if s.len() > 0 && s[0] == ',' {
        if s.len() == 1 {
            let notes: Vec<Option<TJANoteType>> = Vec::new();
            assert(notes@ =~= Seq::<Option<TJANoteType>>::empty());
            return Ok(CourseItem::Notes { notes, end_measure: true });
        } else {
            return Err(TJAParseErrorKind::SyntaxError);
        }
    }
    if s.len() > 0 && (char_is_digit(s[0]) || s[0] == 'A' || s[0] == 'B') {
        let e = find_note_end(s, 0);
        let mut notes: Vec<Option<TJANoteType>> = Vec::new();
        let mut j: usize = 0;
        while j < e
            invariant
                j <= e <= s.len(),
                notes@ =~= Seq::new(j as nat, |x: int| note_of(s@[x])),
            decreases e - j,
        {
            notes.push(read_note(s[j]));
            j = j + 1;
        }
        if e == s.len() {
            return Ok(CourseItem::Notes { notes, end_measure: false });
        } else if s[e] == ',' && e + 1 == s.len() {
            return Ok(CourseItem::Notes { notes, end_measure: true });
        } else {
            return Err(TJAParseErrorKind::SyntaxError);
        }
    }
    if s.len() > 0 && s[0] == '#' {
        let k = find_upper_end(s, 1);
        if k > 1 {
            let (arg, e) = read_command_arg(s, k);
            return match read_command(s, k, arg) {
                Ok(c) => if e == s.len() {
                    Ok(CourseItem::Command(c))
                } else {
                    Err(TJAParseErrorKind::SyntaxError)
                },
                Err(kind) => Err(kind),
            };
        }
    }
    Err(TJAParseErrorKind::SyntaxError)
}

} // verus!
