//! Reading a whole TJA chart file: metadata, courses, and the checks that tie them together.
//!
//! The file is read line by line. Outside a course, a line is either metadata (`KEY:value`) or a
//! `#START` command, which opens a course for the difficulty that the `COURSE` metadata names.
//! Inside a course, each line is a course item, until `#END`. When a course ends, its notes are
//! checked against the metadata (balloon hit counts, drum roll endings, star level). When the
//! file ends, the song metadata is read.
//!
//! Numeric values that the game reads as floats (`BPM`, `OFFSET`, `HEADSCROLL`, `DEMOSTART`, and
//! the arguments of `#BPMCHANGE`, `#DELAY` and `#SCROLL`) are checked to be float literals and are
//! kept as text; the timing of the notes is computed from them outside this library.
use vstd::prelude::*;

use crate::chart::{
    CourseNote, assign_balloons, lemma_pair_rolls_closed, rolls_closed, count_hit_notes, collect_notes, count_balloons, flatten_notes, give_balloon_hits,
    has_balloon, lemma_total_notes_push, match_rolls, measure_note_counts, notes_in_measure_from,
    pair_rolls, total_notes,
};
use crate::course::{
    CourseItem, CourseItemView, Player, course_item, items_view, metadata_pair,
    read_course_item, read_metadata_pair, read_start_command, start_command,
};
use crate::error::{ErrorKindView, ParseErrorView, TJAParseError, TJAParseErrorKind};
use crate::metadata::{
    Metadata, MetadataView, float_metadata, get_float_metadata, get_metadata_owned,
    get_parsed_metadata, missing_error, owned_metadata, parsed_u8_metadata,
};
use crate::numbers::{balloon_list, read_balloon_list};
use crate::text::{
    Line, chars_eq_str, clean_line, copy_range, cut_comment, newline_from, number_lines,
    strip_bom, trim, lemma_bom_ignored, lemma_comment_ignored,
    lemma_preprocess_len, lemma_preprocess_numbers, lemma_same_clean_lines, lines, with_comment,
    lines_view, preprocess,
    preprocess_lines, str_chars, total_text_len,
};

verus! {

broadcast use vstd::string::group_string_axioms;

// ---------------------------------------------------------------------------------------------
// Results
// ---------------------------------------------------------------------------------------------

/// A course (one difficulty) of a chart.
#[derive(Debug, Clone)]
pub struct TjaCourse {
    /// The star rating (`LEVEL`).
    pub star_level: u8,
    /// The lines of the course, in order (without `#END`).
    pub items: Vec<CourseItem>,
    /// For each position `k` from 0 to the number of items, the number of note slots from item
    /// `k` to the end of its measure.
    pub measure_notes: Vec<usize>,
    /// The notes, with balloon hit counts and drum roll ends.
    pub notes: Vec<CourseNote>,
    /// The `BPM` metadata when the course started, if set.
    pub bpm: Option<String>,
    /// The `OFFSET` metadata when the course started, if set.
    pub offset: Option<String>,
    /// The `HEADSCROLL` metadata when the course started, if set.
    pub head_scroll: Option<String>,
}

/// The mathematical value of a [TjaCourse].
pub struct CourseView {
    pub star_level: u8,
    pub items: Seq<CourseItemView>,
    pub measure_notes: Seq<usize>,
    pub notes: Seq<CourseNote>,
    pub bpm: Option<Seq<char>>,
    pub offset: Option<Seq<char>>,
    pub head_scroll: Option<Seq<char>>,
}

/// The view of an optional string.
pub open spec fn opt_str_view(o: Option<String>) -> Option<Seq<char>> {
    match o {
        Some(s) => Some(s@),
        None => None,
    }
}

impl View for TjaCourse {
    type V = CourseView;

    open spec fn view(&self) -> CourseView {
        CourseView {
            star_level: self.star_level,
            items: items_view(self.items@),
            measure_notes: self.measure_notes@,
            notes: self.notes@,
            bpm: opt_str_view(self.bpm),
            offset: opt_str_view(self.offset),
            head_scroll: opt_str_view(self.head_scroll),
        }
    }
}

/// The view of an optional course.
pub open spec fn opt_course_view(o: Option<TjaCourse>) -> Option<CourseView> {
    match o {
        Some(c) => Some(c@),
        None => None,
    }
}

/// A chart file: the song's metadata and its courses.
#[derive(Debug, Clone)]
pub struct TjaSong {
    pub title: String,
    pub subtitle: Option<String>,
    pub audio_filename: String,
    /// The `DEMOSTART` metadata, if set (a float literal; the default is 0).
    pub demostart: Option<String>,
    /// The `OFFSET` metadata, if set (a float literal; the default is 0).
    pub offset: Option<String>,
    /// The `BPM` metadata, if set (a float literal; the default is 120).
    pub bpm: Option<String>,
    /// The courses for the difficulties easy, normal, hard, oni and edit.
    pub difficulties: Vec<Option<TjaCourse>>,
}

/// The mathematical value of a [TjaSong].
pub struct SongView {
    pub title: Seq<char>,
    pub subtitle: Option<Seq<char>>,
    pub audio_filename: Seq<char>,
    pub demostart: Option<Seq<char>>,
    pub offset: Option<Seq<char>>,
    pub bpm: Option<Seq<char>>,
    pub difficulties: Seq<Option<CourseView>>,
}

/// The views of a sequence of optional courses.
pub open spec fn courses_view(v: Seq<Option<TjaCourse>>) -> Seq<Option<CourseView>> {
    v.map_values(|o: Option<TjaCourse>| opt_course_view(o))
}

impl View for TjaSong {
    type V = SongView;

    open spec fn view(&self) -> SongView {
        SongView {
            title: self.title@,
            subtitle: opt_str_view(self.subtitle),
            audio_filename: self.audio_filename@,
            demostart: opt_str_view(self.demostart),
            offset: opt_str_view(self.offset),
            bpm: opt_str_view(self.bpm),
            difficulties: courses_view(self.difficulties@),
        }
    }
}

impl TjaCourse {
    /// The maximum combo possible in this course: the number of its notes that are don or kat.
    pub fn max_combo(&self) -> (c: usize)
        ensures
            c == count_hit_notes(self@.notes),
    {
        crate::chart::max_combo(&self.notes)
    }
}

// ---------------------------------------------------------------------------------------------
// Courses
// ---------------------------------------------------------------------------------------------

/// The `BALLOON` metadata: `None` when not set, the hit counts when they read as a list, and an
/// error at its line otherwise.
pub open spec fn balloon_metadata(meta: MetadataView) -> Result<Option<Seq<u16>>, ParseErrorView> {
    match meta.get("BALLOON"@) {
        Some((line, value)) => match balloon_list(value) {
            Some(list) => Ok(Some(list)),
            None => Err(ParseErrorView { kind: ErrorKindView::InvalidMetadata, line }),
        },
        None => Ok(None),
    }
}

/// The measure counts of a course (see [notes_in_measure_from]).
pub open spec fn measure_counts(items: Seq<CourseItemView>) -> Seq<usize> {
    Seq::new(items.len() + 1, |k: int| notes_in_measure_from(items, k) as usize)
}

/// A course from its items, with the metadata as it stood at its `#START` (line
/// `course_line - 1`). In order: `BPM`, `OFFSET` and `HEADSCROLL` must be float literals if set;
/// `BALLOON` must read as a list if set; a course with balloon notes needs `BALLOON`; every drum
/// roll must be ended (see [pair_rolls]); `LEVEL` is needed and must be a `u8`.
pub open spec fn construct_course(
    items: Seq<CourseItemView>,
    meta: MetadataView,
    course_line: nat,
) -> Result<CourseView, ParseErrorView> {
    match float_metadata(meta, "BPM"@) {
        Err(e) => Err(e),
        Ok(bpm) => match float_metadata(meta, "OFFSET"@) {
            Err(e) => Err(e),
            Ok(offset) => match float_metadata(meta, "HEADSCROLL"@) {
                Err(e) => Err(e),
                Ok(head_scroll) => match balloon_metadata(meta) {
                    Err(e) => Err(e),
                    Ok(balloons) => {
                        let flat = flatten_notes(items);
                        if balloons is None && count_balloons(flat) > 0 {
                            Err(missing_error("BALLOON"@, Some(course_line)))
                        } else {
                            let assigned = match balloons {
                                Some(b) => assign_balloons(flat, b),
                                None => flat,
                            };
                            match pair_rolls(assigned, 0) {
                                Err(kind) => Err(ParseErrorView { kind, line: course_line }),
                                Ok(notes) => match parsed_u8_metadata(
                                    meta,
                                    "LEVEL"@,
                                    None,
                                    Some(course_line),
                                ) {
                                    Err(e) => Err(e),
                                    Ok(star_level) => Ok(
                                        CourseView {
                                            star_level,
                                            items,
                                            measure_notes: measure_counts(items),
                                            notes,
                                            bpm,
                                            offset,
                                            head_scroll,
                                        },
                                    ),
                                },
                            }
                        }
                    },
                },
            },
        },
    }
}

/// Builds a course (see [construct_course]).
pub fn construct_difficulty(items: Vec<CourseItem>, metadata: &Metadata, course_line: usize) -> (r:
    Result<TjaCourse, TJAParseError>)
    requires
        total_notes(items_view(items@)) <= usize::MAX,
        items@.len() < usize::MAX,
    ensures
        match r {
            Ok(c) => construct_course(items_view(items@), metadata@, course_line as nat) == Ok::<
                CourseView,
                ParseErrorView,
            >(c@),
            Err(e) => construct_course(items_view(items@), metadata@, course_line as nat) == Err::<
                CourseView,
                ParseErrorView,
            >(e@),
        },
{
    let bpm = match get_float_metadata(metadata, "BPM") {
        Ok(b) => b,
        Err(e) => return Err(e),
    };
    let offset = match get_float_metadata(metadata, "OFFSET") {
        Ok(o) => o,
        Err(e) => return Err(e),
    };
    let head_scroll = match get_float_metadata(metadata, "HEADSCROLL") {
        Ok(h) => h,
        Err(e) => return Err(e),
    };
    let balloons = match metadata.get("BALLOON") {
        Some((line, value)) => match read_balloon_list(&value) {
            Some(list) => Some(list),
            None => return Err(TJAParseError { kind: TJAParseErrorKind::InvalidMetadata, line }),
        },
        None => None,
    };
    let flat = collect_notes(&items);
    let assigned = match balloons {
        Some(b) => give_balloon_hits(&flat, &b),
        None => {
            if has_balloon(&flat) {
                return Err(
                    TJAParseError {
                        kind: TJAParseErrorKind::MissingMetadataForCourse("BALLOON".to_owned()),
                        line: course_line,
                    },
                );
            }
            flat
        },
    };
    let notes = match match_rolls(&assigned) {
        Ok(n) => n,
        Err(kind) => return Err(TJAParseError { kind, line: course_line }),
    };
    let star_level = match get_parsed_metadata(metadata, "LEVEL", None, Some(course_line)) {
        Ok(s) => s,
        Err(e) => return Err(e),
    };
    let measure_notes = measure_note_counts(&items);
    assert(measure_notes@ =~= measure_counts(items_view(items@)));
    Ok(TjaCourse { star_level, items, measure_notes, notes, bpm, offset, head_scroll })
}

// ---------------------------------------------------------------------------------------------
// The whole file
// ---------------------------------------------------------------------------------------------

/// The difficulty that the `COURSE` metadata names: `Easy`/`0` to `Edit`/`4`, oni (3) when not
/// set, and an error at its line for anything else.
pub open spec fn course_level(meta: MetadataView) -> Result<nat, ParseErrorView> {
    match meta.get("COURSE"@) {
        None => Ok(3),
        Some((line, v)) => if v == "Easy"@ || v == "0"@ {
            Ok(0)
        } else if v == "Normal"@ || v == "1"@ {
            Ok(1)
        } else if v == "Hard"@ || v == "2"@ {
            Ok(2)
        } else if v == "Oni"@ || v == "3"@ {
            Ok(3)
        } else if v == "Edit"@ || v == "4"@ {
            Ok(4)
        } else {
            Err(ParseErrorView { kind: ErrorKindView::InvalidMetadata, line })
        },
    }
}

/// The difficulty that `COURSE` names, by name or by number: `Easy` or `0` is easy (0),
/// `Normal` or `1` normal (1), `Hard` or `2` hard (2), `Oni` or `3` oni (3), `Edit` or `4` edit
/// (4); without `COURSE` a course is oni, and any other value is an error at its line.
pub proof fn lemma_course_level_names(meta: MetadataView)
    ensures
        !meta.dom().contains("COURSE"@) ==> course_level(meta) == Ok::<nat, ParseErrorView>(3),
        meta.dom().contains("COURSE"@) ==> ({
            let (line, v) = meta["COURSE"@];
            &&& (v == "Easy"@ || v == "0"@) ==> course_level(meta) == Ok::<nat, ParseErrorView>(0)
            &&& (v == "Normal"@ || v == "1"@) ==> course_level(meta) == Ok::<nat, ParseErrorView>(1)
            &&& (v == "Hard"@ || v == "2"@) ==> course_level(meta) == Ok::<nat, ParseErrorView>(2)
            &&& (v == "Oni"@ || v == "3"@) ==> course_level(meta) == Ok::<nat, ParseErrorView>(3)
            &&& (v == "Edit"@ || v == "4"@) ==> course_level(meta) == Ok::<nat, ParseErrorView>(4)
            &&& !(v == "Easy"@ || v == "0"@ || v == "Normal"@ || v == "1"@ || v == "Hard"@ || v
                == "2"@ || v == "Oni"@ || v == "3"@ || v == "Edit"@ || v == "4"@) ==> course_level(
                meta,
            ) == Err::<nat, ParseErrorView>(
                ParseErrorView { kind: ErrorKindView::InvalidMetadata, line },
            )
        }),
{
    reveal_strlit("Easy");
    reveal_strlit("0");
    reveal_strlit("Normal");
    reveal_strlit("1");
    reveal_strlit("Hard");
    reveal_strlit("2");
    reveal_strlit("Oni");
    reveal_strlit("3");
    reveal_strlit("Edit");
    reveal_strlit("4");
    assert("0"@.len() != "Easy"@.len());
    assert("Normal"@.len() != "Easy"@.len());
    assert("Normal"@.len() != "0"@.len());
    assert("1"@.len() != "Easy"@.len());
    assert("1"@[0] != "0"@[0]);
    assert("1"@.len() != "Normal"@.len());
    assert("Hard"@[0] != "Easy"@[0]);
    assert("Hard"@.len() != "0"@.len());
    assert("Hard"@.len() != "Normal"@.len());
    assert("Hard"@.len() != "1"@.len());
    assert("2"@.len() != "Easy"@.len());
    assert("2"@[0] != "0"@[0]);
    assert("2"@.len() != "Normal"@.len());
    assert("2"@[0] != "1"@[0]);
    assert("2"@.len() != "Hard"@.len());
    assert("Oni"@.len() != "Easy"@.len());
    assert("Oni"@.len() != "0"@.len());
    assert("Oni"@.len() != "Normal"@.len());
    assert("Oni"@.len() != "1"@.len());
    assert("Oni"@.len() != "Hard"@.len());
    assert("Oni"@.len() != "2"@.len());
    assert("3"@.len() != "Easy"@.len());
    assert("3"@[0] != "0"@[0]);
    assert("3"@.len() != "Normal"@.len());
    assert("3"@[0] != "1"@[0]);
    assert("3"@.len() != "Hard"@.len());
    assert("3"@[0] != "2"@[0]);
    assert("3"@.len() != "Oni"@.len());
    assert("Edit"@[1] != "Easy"@[1]);
    assert("Edit"@.len() != "0"@.len());
    assert("Edit"@.len() != "Normal"@.len());
    assert("Edit"@.len() != "1"@.len());
    assert("Edit"@[0] != "Hard"@[0]);
    assert("Edit"@.len() != "2"@.len());
    assert("Edit"@.len() != "Oni"@.len());
    assert("Edit"@.len() != "3"@.len());
    assert("4"@.len() != "Easy"@.len());
    assert("4"@[0] != "0"@[0]);
    assert("4"@.len() != "Normal"@.len());
    assert("4"@[0] != "1"@[0]);
    assert("4"@.len() != "Hard"@.len());
    assert("4"@[0] != "2"@[0]);
    assert("4"@.len() != "Oni"@.len());
    assert("4"@[0] != "3"@[0]);
    assert("4"@.len() != "Edit"@.len());
}

fn read_course_level(metadata: &Metadata) -> (r: Result<usize, TJAParseError>)
    ensures
        match r {
            Ok(l) => course_level(metadata@) == Ok::<nat, ParseErrorView>(l as nat) && l < 5,
            Err(e) => course_level(metadata@) == Err::<nat, ParseErrorView>(e@),
        },
{
    match metadata.get("COURSE") {
        None => Ok(3),
        Some((line, v)) => {
            if chars_eq_str(&v, "Easy") || chars_eq_str(&v, "0") {
                Ok(0)
            } else if chars_eq_str(&v, "Normal") || chars_eq_str(&v, "1") {
                Ok(1)
            } else if chars_eq_str(&v, "Hard") || chars_eq_str(&v, "2") {
                Ok(2)
            } else if chars_eq_str(&v, "Oni") || chars_eq_str(&v, "3") {
                Ok(3)
            } else if chars_eq_str(&v, "Edit") || chars_eq_str(&v, "4") {
                Ok(4)
            } else {
                Err(TJAParseError { kind: TJAParseErrorKind::InvalidMetadata, line })
            }
        },
    }
}

/// Where the reading of the file stands: outside a course, or inside one, with its difficulty,
/// the line after its `#START`, the last line read in it (0 before any), and its items so far.
pub enum ParserState {
    TopLevel,
    InCourse { level: nat, course_line: nat, last_line: nat, items: Seq<CourseItemView> },
}

/// What reading a file gives: a song, an error, or a `#START P1`/`#START P2` command, which
/// opens a course for one player of a two player chart and is not supported.
pub enum ParseOutcome {
    Parsed(SongView),
    Failed(ParseErrorView),
    Unsupported,
}

/// The song from the metadata and courses at the end of the file: `TITLE` and `WAVE` are needed,
/// `SUBTITLE` is optional, and `DEMOSTART`, `OFFSET` and `BPM` must be float literals if set.
pub open spec fn finish_song(meta: MetadataView, diffs: Seq<Option<CourseView>>) -> ParseOutcome {
    match owned_metadata(meta, "TITLE"@, None, None) {
        Err(e) => ParseOutcome::Failed(e),
        Ok(title) => {
            let subtitle = match meta.get("SUBTITLE"@) {
                Some((_l, v)) => Some(v),
                None => None,
            };
            match owned_metadata(meta, "WAVE"@, None, None) {
                Err(e) => ParseOutcome::Failed(e),
                Ok(audio_filename) => match float_metadata(meta, "DEMOSTART"@) {
                    Err(e) => ParseOutcome::Failed(e),
                    Ok(demostart) => match float_metadata(meta, "OFFSET"@) {
                        Err(e) => ParseOutcome::Failed(e),
                        Ok(offset) => match float_metadata(meta, "BPM"@) {
                            Err(e) => ParseOutcome::Failed(e),
                            Ok(bpm) => ParseOutcome::Parsed(
                                SongView {
                                    title,
                                    subtitle,
                                    audio_filename,
                                    demostart,
                                    offset,
                                    bpm,
                                    difficulties: diffs,
                                },
                            ),
                        },
                    },
                },
            }
        },
    }
}

/// Reads the cleaned lines `ps` from position `k` on, in the given state.
pub open spec fn run_lines(
    ps: Seq<(nat, Seq<char>)>,
    k: int,
    meta: MetadataView,
    diffs: Seq<Option<CourseView>>,
    state: ParserState,
) -> ParseOutcome
    decreases ps.len() - k,
{
    if k < 0 || k >= ps.len() {
        match state {
            ParserState::TopLevel => finish_song(meta, diffs),
            ParserState::InCourse { last_line, .. } => ParseOutcome::Failed(
                ParseErrorView { kind: ErrorKindView::ExpectedEndCommand, line: last_line },
            ),
        }
    } else {
        let (i, line) = ps[k];
        match state {
            ParserState::TopLevel => match metadata_pair(line) {
                Some((key, value)) => run_lines(
                    ps,
                    k + 1,
                    meta.insert(key, (i, value)),
                    diffs,
                    ParserState::TopLevel,
                ),
                None => match start_command(line) {
                    Err(kind) => ParseOutcome::Failed(ParseErrorView { kind, line: i }),
                    Ok(Some(_player)) => ParseOutcome::Unsupported,
                    Ok(None) => match course_level(meta) {
                        Err(e) => ParseOutcome::Failed(e),
                        Ok(level) => if diffs[level as int] is Some {
                            ParseOutcome::Failed(
                                ParseErrorView {
                                    kind: ErrorKindView::MultipleTracksSameDifficulty(level),
                                    line: i + 1,
                                },
                            )
                        } else {
                            run_lines(
                                ps,
                                k + 1,
                                meta,
                                diffs,
                                ParserState::InCourse {
                                    level,
                                    course_line: i + 1,
                                    last_line: 0,
                                    items: seq![],
                                },
                            )
                        },
                    },
                },
            },
            ParserState::InCourse { level, course_line, last_line: _, items } => match course_item(
                line,
            ) {
                Err(kind) => ParseOutcome::Failed(ParseErrorView { kind, line: i }),
                Ok(CourseItemView::EndCommand) => match construct_course(items, meta, course_line) {
                    Err(e) => ParseOutcome::Failed(e),
                    Ok(c) => run_lines(
                        ps,
                        k + 1,
                        meta,
                        diffs.update(level as int, Some(c)),
                        ParserState::TopLevel,
                    ),
                },
                Ok(item) => run_lines(
                    ps,
                    k + 1,
                    meta,
                    diffs,
                    ParserState::InCourse { level, course_line, last_line: i, items: items.push(item) },
                ),
            },
        }
    }
}

/// A course goes to the difficulty that `COURSE` names when its `#START` is read (see
/// [lemma_course_level_names]): a `#START` line read outside a course, with no course yet at
/// that difficulty, opens a course of that difficulty; the `#END` line of a course whose notes
/// and metadata are sound stores the course at its difficulty and leaves the others as they were.
pub proof fn lemma_course_placement(
    ps: Seq<(nat, Seq<char>)>,
    k: int,
    meta: MetadataView,
    diffs: Seq<Option<CourseView>>,
    level: nat,
    course_line: nat,
    last_line: nat,
    items: Seq<CourseItemView>,
)
    requires
        0 <= k < ps.len(),
        diffs.len() == 5,
        level < 5,
    ensures
        ps[k].1 == "#START"@ && course_level(meta) == Ok::<nat, ParseErrorView>(level)
            && diffs[level as int] is None ==> run_lines(
            ps,
            k,
            meta,
            diffs,
            ParserState::TopLevel,
        ) == run_lines(
            ps,
            k + 1,
            meta,
            diffs,
            ParserState::InCourse { level, course_line: ps[k].0 + 1, last_line: 0, items: seq![] },
        ),
        ps[k].1 == "#END"@ ==> match construct_course(items, meta, course_line) {
            Ok(c) => {
                let stored = diffs.update(level as int, Some(c));
                &&& run_lines(
                    ps,
                    k,
                    meta,
                    diffs,
                    ParserState::InCourse { level, course_line, last_line, items },
                ) == run_lines(ps, k + 1, meta, stored, ParserState::TopLevel)
                &&& stored[level as int] == Some(c)
                &&& forall|d: int| 0 <= d < 5 && d != level ==> stored[d] == diffs[d]
            },
            Err(e) => run_lines(
                ps,
                k,
                meta,
                diffs,
                ParserState::InCourse { level, course_line, last_line, items },
            ) == ParseOutcome::Failed(e),
        },
{
    reveal_strlit("#START");
    reveal_strlit("#END");
    if ps[k].1 == "#START"@ {
        assert(crate::course::upper_end("#START"@, 0) == 0);
        assert(metadata_pair("#START"@) is None);
        assert(crate::course::has_prefix("#START"@, 0, "#START"@)) by {
            assert("#START"@.subrange(0, 6) =~= "#START"@);
        }
        assert(start_command("#START"@) == Ok::<Option<Player>, ErrorKindView>(None));
    }
    if ps[k].1 == "#END"@ {
        assert(crate::course::has_prefix("#END"@, 0, "#END"@)) by {
            assert("#END"@.subrange(0, 4) =~= "#END"@);
        }
        assert(course_item("#END"@) == Ok::<CourseItemView, ErrorKindView>(
            CourseItemView::EndCommand,
        ));
    }
}

/// No courses yet.
pub open spec fn no_courses() -> Seq<Option<CourseView>> {
    seq![None, None, None, None, None]
}

/// What reading the chart file `input` gives.
pub open spec fn tja_outcome(input: Seq<char>) -> ParseOutcome {
    run_lines(
        preprocess(input),
        0,
        Map::<Seq<char>, (nat, Seq<char>)>::empty(),
        no_courses(),
        ParserState::TopLevel,
    )
}

/// The chart file `input` is one that this library reads: it does not reach a `#START P1` or
/// `#START P2` command.
pub open spec fn tja_supported(input: Seq<char>) -> bool {
    !(tja_outcome(input) is Unsupported)
}

/// Every key of the metadata was set at a line before line `n`.
pub open spec fn set_before(meta: MetadataView, n: nat) -> bool {
    forall|k: Seq<char>| #[trigger] meta.dom().contains(k) ==> meta[k].0 < n
}

proof fn lemma_float_metadata_line(meta: MetadataView, key: Seq<char>, n: nat)
    requires
        set_before(meta, n),
    ensures
        float_metadata(meta, key) matches Err(e) ==> e.line < n,
{
    if meta.dom().contains(key) {
        assert(meta[key].0 < n);
    }
}

proof fn lemma_course_error_line(items: Seq<CourseItemView>, meta: MetadataView, course_line: nat, n: nat)
    requires
        set_before(meta, n),
        course_line <= n,
    ensures
        construct_course(items, meta, course_line) matches Err(e) ==> e.line <= n,
{
    lemma_float_metadata_line(meta, "BPM"@, n);
    lemma_float_metadata_line(meta, "OFFSET"@, n);
    lemma_float_metadata_line(meta, "HEADSCROLL"@, n);
    if meta.dom().contains("BALLOON"@) {
        assert(meta["BALLOON"@].0 < n);
    }
    if meta.dom().contains("LEVEL"@) {
        assert(meta["LEVEL"@].0 < n);
    }
}

proof fn lemma_song_error_line(meta: MetadataView, diffs: Seq<Option<CourseView>>, n: nat)
    requires
        set_before(meta, n),
    ensures
        finish_song(meta, diffs) matches ParseOutcome::Failed(e) ==> e.line < n || e.line == 0,
{
    lemma_float_metadata_line(meta, "DEMOSTART"@, n);
    lemma_float_metadata_line(meta, "OFFSET"@, n);
    lemma_float_metadata_line(meta, "BPM"@, n);
}

proof fn lemma_run_error_line(
    ps: Seq<(nat, Seq<char>)>,
    k: int,
    meta: MetadataView,
    diffs: Seq<Option<CourseView>>,
    state: ParserState,
    n: nat,
)
    requires
        0 <= k,
        forall|j: int| 0 <= j < ps.len() ==> #[trigger] ps[j].0 < n,
        set_before(meta, n),
        state matches ParserState::InCourse { course_line, last_line, .. } ==> course_line <= n
            && last_line <= n,
    ensures
        run_lines(ps, k, meta, diffs, state) matches ParseOutcome::Failed(e) ==> e.line <= n,
    decreases ps.len() - k,
{
    if k >= ps.len() {
        match state {
            ParserState::TopLevel => lemma_song_error_line(meta, diffs, n),
            _ => {},
        }
    } else {
        let (i, line) = ps[k];
        assert(i < n);
        match state {
            ParserState::TopLevel => match metadata_pair(line) {
                Some((key, value)) => {
                    let m2 = meta.insert(key, (i, value));
                    assert forall|x: Seq<char>| #[trigger] m2.dom().contains(x) implies m2[x].0
                        < n by {
                        if x != key {
                            assert(meta.dom().contains(x));
                        }
                    }
                    lemma_run_error_line(ps, k + 1, m2, diffs, ParserState::TopLevel, n);
                },
                None => match start_command(line) {
                    Ok(None) => {
                        if meta.dom().contains("COURSE"@) {
                            assert(meta["COURSE"@].0 < n);
                        }
                        match course_level(meta) {
                            Ok(level) => {
                                lemma_run_error_line(
                                    ps,
                                    k + 1,
                                    meta,
                                    diffs,
                                    ParserState::InCourse {
                                        level,
                                        course_line: i + 1,
                                        last_line: 0,
                                        items: seq![],
                                    },
                                    n,
                                );
                            },
                            Err(_) => {},
                        }
                    },
                    _ => {},
                },
            },
            ParserState::InCourse { level, course_line, last_line: _, items } => match course_item(
                line,
            ) {
                Ok(CourseItemView::EndCommand) => {
                    lemma_course_error_line(items, meta, course_line, n);
                    match construct_course(items, meta, course_line) {
                        Ok(c) => lemma_run_error_line(
                            ps,
                            k + 1,
                            meta,
                            diffs.update(level as int, Some(c)),
                            ParserState::TopLevel,
                            n,
                        ),
                        Err(_) => {},
                    }
                },
                Ok(item) => lemma_run_error_line(
                    ps,
                    k + 1,
                    meta,
                    diffs,
                    ParserState::InCourse { level, course_line, last_line: i, items: items.push(item) },
                    n,
                ),
                Err(_) => {},
            },
        }
    }
}

/// An error found in a chart file points into the file: its line number is at most the number
/// of lines of the file.
pub proof fn lemma_error_line_in_file(input: Seq<char>)
    ensures
        tja_outcome(input) matches ParseOutcome::Failed(e) ==> e.line <= lines(input).len(),
{
    lemma_preprocess_numbers(input);
    let n = lines(input).len();
    let empty = Map::<Seq<char>, (nat, Seq<char>)>::empty();
    assert(set_before(empty, n));
    lemma_run_error_line(preprocess(input), 0, empty, no_courses(), ParserState::TopLevel, n);
}

/// Every course in `diffs` has its drum rolls closed.
pub open spec fn courses_closed(diffs: Seq<Option<CourseView>>) -> bool {
    forall|d: int| 0 <= d < diffs.len() ==> (#[trigger] diffs[d] matches Some(c) ==> rolls_closed(c.notes))
}

proof fn lemma_run_courses_closed(
    ps: Seq<(nat, Seq<char>)>,
    k: int,
    meta: MetadataView,
    diffs: Seq<Option<CourseView>>,
    state: ParserState,
)
    requires
        courses_closed(diffs),
        diffs.len() == 5,
        state matches ParserState::InCourse { level, .. } ==> level < 5,
    ensures
        run_lines(ps, k, meta, diffs, state) matches ParseOutcome::Parsed(song) ==> courses_closed(
            song.difficulties,
        ),
    decreases ps.len() - k,
{
    if 0 <= k < ps.len() {
        let (i, line) = ps[k];
        match state {
            ParserState::TopLevel => match metadata_pair(line) {
                Some((key, value)) => lemma_run_courses_closed(
                    ps,
                    k + 1,
                    meta.insert(key, (i, value)),
                    diffs,
                    ParserState::TopLevel,
                ),
                None => match start_command(line) {
                    Ok(None) => match course_level(meta) {
                        Ok(level) => lemma_run_courses_closed(
                            ps,
                            k + 1,
                            meta,
                            diffs,
                            ParserState::InCourse {
                                level,
                                course_line: i + 1,
                                last_line: 0,
                                items: seq![],
                            },
                        ),
                        Err(_) => {},
                    },
                    _ => {},
                },
            },
            ParserState::InCourse { level, course_line, last_line: _, items } => match course_item(
                line,
            ) {
                Ok(CourseItemView::EndCommand) => match construct_course(items, meta, course_line) {
                    Ok(c) => {
                        let flat = flatten_notes(items);
                        let assigned = match balloon_metadata(meta) {
                            Ok(Some(b)) => assign_balloons(flat, b),
                            _ => flat,
                        };
                        lemma_pair_rolls_closed(assigned, 0);
                        let d2 = diffs.update(level as int, Some(c));
                        assert forall|d: int| 0 <= d < d2.len() implies (#[trigger] d2[d] matches Some(
                            x,
                        ) ==> rolls_closed(x.notes)) by {
                            if d != level {
                                assert(d2[d] == diffs[d]);
                            }
                        }
                        lemma_run_courses_closed(ps, k + 1, meta, d2, ParserState::TopLevel);
                    },
                    Err(_) => {},
                },
                Ok(item) => lemma_run_courses_closed(
                    ps,
                    k + 1,
                    meta,
                    diffs,
                    ParserState::InCourse { level, course_line, last_line: i, items: items.push(item) },
                ),
                Err(_) => {},
            },
        }
    }
}

/// Every drum roll of a song that was read is closed: in each of its courses, no note is a roll
/// end, and a note has the position of its roll end exactly when it starts a drum roll.
pub proof fn lemma_parsed_rolls_closed(input: Seq<char>)
    ensures
        tja_outcome(input) matches ParseOutcome::Parsed(song) ==> courses_closed(song.difficulties),
{
    lemma_run_courses_closed(
        preprocess(input),
        0,
        Map::<Seq<char>, (nat, Seq<char>)>::empty(),
        no_courses(),
        ParserState::TopLevel,
    );
}

/// A line with optional additions: a byte order mark put at its start when `bom` holds, and a
/// comment (a space, `//` and the text) added at its end when `comment` is given.
pub open spec fn decorated(l: Seq<char>, comment: Option<Seq<char>>, bom: bool) -> Seq<char> {
    let with_bom = if bom {
        seq!['\u{feff}'] + l
    } else {
        l
    };
    match comment {
        Some(text) => with_comment(with_bom, text),
        None => with_bom,
    }
}

/// Comments and a byte order mark do not change what a chart file gives: when each line of
/// `s2` is the same line of `s1` with a comment added at its end or not, and the first line of
/// `s2` may in addition start with a byte order mark that the first line of `s1` lacks, both
/// files give the same song, or the same error at the same line.
pub proof fn lemma_comments_and_bom_ignored(
    s1: Seq<char>,
    s2: Seq<char>,
    comments: Seq<Option<Seq<char>>>,
    bom: bool,
)
    requires
        lines(s2).len() == lines(s1).len(),
        comments.len() == lines(s1).len(),
        bom ==> lines(s1).len() > 0 && !(lines(s1)[0].len() > 0 && lines(s1)[0][0] == '\u{feff}'),
        forall|k: int|
            0 <= k < lines(s1).len() ==> #[trigger] lines(s2)[k] == decorated(
                lines(s1)[k],
                comments[k],
                bom && k == 0,
            ),
    ensures
        preprocess(s2) == preprocess(s1),
        tja_outcome(s2) == tja_outcome(s1),
        tja_supported(s2) == tja_supported(s1),
{
    assert forall|k: int| 0 <= k < lines(s2).len() implies clean_line(#[trigger] lines(s2)[k])
        == clean_line(lines(s1)[k]) by {
        let l = lines(s1)[k];
        let b = bom && k == 0;
        let with_bom = if b {
            seq!['\u{feff}'] + l
        } else {
            l
        };
        assert(lines(s2)[k] == decorated(l, comments[k], b));
        if b {
            lemma_bom_ignored(l);
        }
        match comments[k] {
            Some(text) => lemma_comment_ignored(with_bom, text),
            None => {},
        }
    }
    lemma_same_clean_lines(s2, s1);
}

/// A byte order mark alone reads as an empty file: the same song, or the same error.
pub proof fn lemma_lone_bom_is_empty()
    ensures
        preprocess(seq!['\u{feff}']) == preprocess(Seq::<char>::empty()),
        tja_outcome(seq!['\u{feff}']) == tja_outcome(Seq::<char>::empty()),
        tja_supported(seq!['\u{feff}']) == tja_supported(Seq::<char>::empty()),
{
    let s = seq!['\u{feff}'];
    let e = Seq::<char>::empty();
    assert(newline_from(s, 1) == 1);
    assert(newline_from(s, 0) == 1);
    assert(s.subrange(0, 1) =~= s);
    assert(lines(s) =~= seq![s]);
    assert(strip_bom(s) =~= e);
    assert(cut_comment(e) =~= e);
    assert(e.skip(0) =~= e);
    assert(e.take(0) =~= e);
    assert(clean_line(s) =~= e);
    assert(seq![s].drop_first() =~= Seq::<Seq<char>>::empty());
    assert(lines(e) =~= Seq::<Seq<char>>::empty());
    let none = Seq::<Seq<char>>::empty();
    assert(number_lines(none, 0) =~= Seq::<(nat, Seq<char>)>::empty());
    assert(number_lines(none, 1) =~= Seq::<(nat, Seq<char>)>::empty());
    assert(number_lines(seq![s], 0) == number_lines(none, 1));
    assert(preprocess(s) =~= preprocess(e));
}

/// What the parser gives back.
enum ParseRun {
    Parsed(TjaSong),
    Failed(TJAParseError),
    Unsupported,
}

/// The view of a parser result.
spec fn run_view(r: ParseRun) -> ParseOutcome {
    match r {
        ParseRun::Parsed(s) => ParseOutcome::Parsed(s@),
        ParseRun::Failed(e) => ParseOutcome::Failed(e@),
        ParseRun::Unsupported => ParseOutcome::Unsupported,
    }
}

fn finish(metadata: &Metadata, difficulties: Vec<Option<TjaCourse>>) -> (r: ParseRun)
    ensures
        run_view(r) == finish_song(metadata@, courses_view(difficulties@)),
{
    let title = match get_metadata_owned(metadata, "TITLE", None, None) {
        Ok(t) => t,
        Err(e) => return ParseRun::Failed(e),
    };
    let subtitle = match metadata.get("SUBTITLE") {
        Some((_l, v)) => Some(crate::text::chars_to_string(&v)),
        None => None,
    };
    let audio_filename = match get_metadata_owned(metadata, "WAVE", None, None) {
        Ok(w) => w,
        Err(e) => return ParseRun::Failed(e),
    };
    let demostart = match get_float_metadata(metadata, "DEMOSTART") {
        Ok(d) => d,
        Err(e) => return ParseRun::Failed(e),
    };
    let offset = match get_float_metadata(metadata, "OFFSET") {
        Ok(o) => o,
        Err(e) => return ParseRun::Failed(e),
    };
    let bpm = match get_float_metadata(metadata, "BPM") {
        Ok(b) => b,
        Err(e) => return ParseRun::Failed(e),
    };
    ParseRun::Parsed(
        TjaSong { title, subtitle, audio_filename, demostart, offset, bpm, difficulties },
    )
}

/// The total note slots of a course and its number of items are bounded by the length of the
/// lines it was read from.
spec fn course_bounded(items: Seq<CourseItemView>, consumed: nat) -> bool {
    total_notes(items) <= consumed && items.len() <= consumed
}

fn run_parser(input: &str) -> (r: ParseRun)
    ensures
        run_view(r) == tja_outcome(input@),
{
    let chars = str_chars(input);
    let n_chars = chars.len();
    let lines = preprocess_lines(&chars);
    let ghost ps = preprocess(input@);
    proof {
        lemma_preprocess_len(input@);
    }
    let mut metadata = Metadata::new();
    let mut difficulties: Vec<Option<TjaCourse>> = Vec::new();
    difficulties.push(None);
    difficulties.push(None);
    difficulties.push(None);
    difficulties.push(None);
    difficulties.push(None);
    assert(courses_view(difficulties@) =~= no_courses());
    let mut in_course = false;
    let mut level: usize = 0;
    let mut course_line: usize = 0;
    let mut last_line: usize = 0;
    let mut items: Vec<CourseItem> = Vec::new();
    let ghost mut consumed: nat = 0;
    let mut k: usize = 0;
    assert(ps.skip(0) =~= ps);
    while k < lines.len()
        invariant
            lines_view(lines@) == ps,
            ps == preprocess(input@),
            total_text_len(ps) <= chars@.len(),
            chars@ == input@,
            n_chars == chars@.len(),
            forall|j: int| 0 <= j < lines@.len() ==> lines@[j].text@.len() > 0,
            forall|j: int| 0 <= j < lines@.len() ==> lines@[j].number < chars@.len(),
            k <= lines.len(),
            difficulties@.len() == 5,
            level < 5,
            in_course ==> course_bounded(items_view(items@), consumed),
            in_course ==> consumed + total_text_len(ps.skip(k as int)) + 1 <= total_text_len(ps),
            !in_course ==> total_text_len(ps.skip(k as int)) <= total_text_len(ps),
            run_lines(
                ps,
                k as int,
                metadata@,
                courses_view(difficulties@),
                if in_course {
                    ParserState::InCourse {
                        level: level as nat,
                        course_line: course_line as nat,
                        last_line: last_line as nat,
                        items: items_view(items@),
                    }
                } else {
                    ParserState::TopLevel
                },
            ) == tja_outcome(input@),
        decreases lines.len() - k,
    {
        let i = lines[k].number;
        assert(lines@[k as int].number < chars@.len());
        let ghost line = lines[k as int].text@;
        assert(ps[k as int] == (i as nat, line));
        assert(ps.skip(k as int).drop_first() =~= ps.skip(k + 1));
        assert(ps.skip(k as int)[0] == ps[k as int]);
        if !in_course {
            match read_metadata_pair(&lines[k].text) {
                Some(colon) => {
                    let text = &lines[k].text;
                    let key = copy_range(text, 0, colon);
                    let value = copy_range(text, colon + 1, text.len());
                    assert(key@ =~= text@.take(colon as int));
                    metadata.insert(key, i, value);
                },
                None => {
                    match read_start_command(&lines[k].text) {
                        Err(kind) => {
                            return ParseRun::Failed(TJAParseError { kind, line: i });
                        },
                        Ok(Some(_player)) => {
                            return ParseRun::Unsupported;
                        },
                        Ok(None) => {
                            let lvl = match read_course_level(&metadata) {
                                Ok(l) => l,
                                Err(e) => return ParseRun::Failed(e),
                            };
                            if difficulties[lvl].is_some() {
                                return ParseRun::Failed(
                                    TJAParseError {
                                        kind: TJAParseErrorKind::MultipleTracksSameDifficulty(lvl),
                                        line: i + 1,
                                    },
                                );
                            }
                            in_course = true;
                            level = lvl;
                            course_line = i + 1;
                            last_line = 0;
                            items = Vec::new();
                            proof {
                                consumed = 0;
                                assert(items_view(items@) =~= Seq::<CourseItemView>::empty());
                            }
                        },
                    }
                },
            }
        } else {
            match read_course_item(&lines[k].text) {
                Err(kind) => {
                    return ParseRun::Failed(TJAParseError { kind, line: i });
                },
                Ok(CourseItem::EndCommand) => {
                    let mut done_items: Vec<CourseItem> = Vec::new();
                    std::mem::swap(&mut done_items, &mut items);
                    let course = match construct_difficulty(done_items, &metadata, course_line) {
                        Ok(c) => c,
                        Err(e) => return ParseRun::Failed(e),
                    };
                    let ghost before = courses_view(difficulties@);
                    difficulties.set(level, Some(course));
                    assert(courses_view(difficulties@) =~= before.update(
                        level as int,
                        opt_course_view(Some(course)),
                    ));
                    in_course = false;
                },
                Ok(item) => {
                    let ghost old_items = items_view(items@);
                    let ghost iv = item@;
                    items.push(item);
                    assert(items_view(items@) =~= old_items.push(iv));
                    proof {
                        lemma_total_notes_push(old_items, iv);
                        consumed = consumed + line.len();
                    }
                    last_line = i;
                },
            }
        }
        k = k + 1;
    }
    if in_course {
        ParseRun::Failed(
            TJAParseError { kind: TJAParseErrorKind::ExpectedEndCommand, line: last_line },
        )
    } else {
        finish(&metadata, difficulties)
    }
}

/// Parses a TJA file.
///
/// This doesn't check that, e.g. the song file is valid, but it does require that the TJA file
/// is. See [TJAParseErrorKind] to see the errors that can be encountered while parsing.
pub fn parse_tja_file(input: &str) -> (r: Result<TjaSong, TJAParseError>)
    requires
        tja_supported(input@),
    ensures
        match r {
            Ok(song) => tja_outcome(input@) == ParseOutcome::Parsed(song@),
            Err(e) => tja_outcome(input@) == ParseOutcome::Failed(e@),
        },
{
    match run_parser(input) {
        ParseRun::Parsed(song) => Ok(song),
        ParseRun::Failed(e) => Err(e),
        ParseRun::Unsupported => {
            assert(false);
            Err(TJAParseError { kind: TJAParseErrorKind::SyntaxError, line: 0 })
        },
    }
}

/// Whether [parse_tja_file] reads `input` (see [tja_supported]).
pub fn tja_file_supported(input: &str) -> (b: bool)
    ensures
        b == tja_supported(input@),
{
    match run_parser(input) {
        ParseRun::Unsupported => false,
        _ => true,
    }
}

} // verus!
