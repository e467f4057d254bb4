use taiko::course::Player;
use taiko::grammar::{
    end_command, inner_track_command, metadata_pair, metadata_tagname, note_track, notes,
    preprocess_tja_file, start_command, tja_file, tja_file_bench, tja_file_finishes, GrammarError,
    NoteTrackEntry, TJAFileItem, TrackCommand,
};
use taiko::grammar::NoteTrackEntry::{Command, EndMeasure, Notes};
use taiko::grammar::TJAFileItem::{Metadata, NoteTrack};
use taiko::track::NoteType;
use taiko::track::NoteType::{BalloonRoll, BigDon, CoopDon, CoopKa, Don, Kat, RollEnd};

fn s(x: &str) -> String {
    x.to_string()
}

#[test]
fn test_meta_tag() {
    assert_eq!(
        metadata_tagname("TITLE:さいたま2000"),
        Ok((s(":さいたま2000"), s("TITLE")))
    );
    assert_eq!(
        metadata_tagname("EXAM1:something"),
        Ok((s(":something"), s("EXAM1")))
    );
}

#[test]
fn test_meta_pair() {
    // Line terminated metadata
    assert_eq!(
        metadata_pair("TITLE:さいたま2000\n"),
        Ok((s(""), (s("TITLE"), s("さいたま2000"))))
    );
    assert_eq!(
        metadata_pair("TITLE:POP TEAM EPIC\r\n"),
        Ok((s(""), (s("TITLE"), s("POP TEAM EPIC"))))
    );
    // EOF terminated metadata
    assert_eq!(
        metadata_pair("EXAM1:something"),
        Ok((s(""), (s("EXAM1"), s("something"))))
    );
    // Empty metadata
    assert_eq!(metadata_pair("EMPTY:"), Ok((s(""), (s("EMPTY"), s("")))));
}

#[test]
fn test_end_command() {
    assert!(end_command("\n#END\n").is_ok());
    assert!(end_command("\n#END P1").is_err());
}

#[test]
fn test_start_command() {
    assert_eq!(
        start_command("\n#START P2\nsomethingsomething"),
        Ok((
            s("somethingsomething"),
            TrackCommand::Start {
                player: Some(Player::Player2)
            }
        ))
    );

    assert_eq!(
        start_command("\n#START P1\nsomethingsomething"),
        Ok((
            s("somethingsomething"),
            TrackCommand::Start {
                player: Some(Player::Player1)
            }
        ))
    );

    assert_eq!(
        start_command("#START"),
        Ok((s(""), TrackCommand::Start { player: None }))
    );

    assert!([
        start_command("#START "),
        start_command("#END"),
        start_command("#START P3")
    ]
    .iter()
    .all(Result::is_err))
}

#[test]
fn test_track_command() {
    assert_eq!(
        inner_track_command("#GOGOSTART"),
        Ok((s(""), TrackCommand::GogoStart))
    );
    assert!(inner_track_command("#GOGOSTART testvalue").is_err());
}

#[test]
fn parser_test_notes() {
    assert_eq!(
        notes("10201120,\n"),
        Ok((
            s(",\n"),
            vec![
                Some(Don),
                None,
                Some(Kat),
                None,
                Some(Don),
                Some(Don),
                Some(Kat),
                None
            ]
        ))
    );
}

#[test]
fn test_note_track() {
    let track = "#START
1100,
1100,
2,
,
#END";

    assert_eq!(
        note_track(track),
        Ok((
            s(""),
            vec![
                NoteTrackEntry::Command(TrackCommand::Start { player: None }),
                NoteTrackEntry::Notes(vec![Some(Don), Some(Don), None, None]),
                NoteTrackEntry::EndMeasure,
                NoteTrackEntry::Notes(vec![Some(Don), Some(Don), None, None]),
                NoteTrackEntry::EndMeasure,
                NoteTrackEntry::Notes(vec![Some(Kat)]),
                NoteTrackEntry::EndMeasure,
                NoteTrackEntry::EndMeasure,
            ]
        ))
    )
}

#[test]
pub fn test_tja_file_item_list() {
    let track = "TITLE: POP TEAM EPIC
BPM:142

WAVE:POP TEAM EPIC.ogg


#START

#GOGOSTART

1100,
1100,
2,
,

#END
";

    assert_eq!(
        tja_file(track),
        Ok((
            s(""),
            vec![
                Metadata(s("TITLE"), s("POP TEAM EPIC")),
                Metadata(s("BPM"), s("142")),
                Metadata(s("WAVE"), s("POP TEAM EPIC.ogg")),
                NoteTrack(vec![
                    Command(TrackCommand::Start { player: None }),
                    Command(TrackCommand::GogoStart),
                    Notes(vec![Some(Don), Some(Don), None, None]),
                    EndMeasure,
                    Notes(vec![Some(Don), Some(Don), None, None]),
                    EndMeasure,
                    Notes(vec![Some(Kat)]),
                    EndMeasure,
                    EndMeasure,
                ])
            ]
        ))
    );

    let error = "TITLE: POP TEAM EPIC
BPM:142

WAVE:POP TEAM EPIC.ogg


#START

#GOGOSTART oops this value shouldnt exist

1100,
1100,
2,
,

#END
";
    assert!(tja_file(error).is_err());
}

#[test]
fn tag_name_needs_an_upper_case_letter_first() {
    assert_eq!(metadata_tagname("1TITLE:x"), Err(GrammarError::Syntax));
    assert_eq!(metadata_tagname("title:x"), Err(GrammarError::Syntax));
    assert_eq!(metadata_tagname(""), Err(GrammarError::Syntax));
    assert_eq!(metadata_tagname("A"), Ok((s(""), s("A"))));
}

#[test]
fn metadata_pair_keeps_a_second_space_and_skips_blank_lines() {
    assert_eq!(
        metadata_pair("\n \t\nKEY:  two\n\n\nNEXT:1"),
        Ok((s("NEXT:1"), (s("KEY"), s(" two"))))
    );
    assert_eq!(metadata_pair("KEY value"), Err(GrammarError::Syntax));
}

#[test]
fn track_commands_with_arguments() {
    assert_eq!(
        inner_track_command("#BPMCHANGE 123\n"),
        Ok((s(""), TrackCommand::BpmChange(s("123"))))
    );
    assert_eq!(
        inner_track_command("#MEASURE 9/8"),
        Ok((s(""), TrackCommand::Measure(9, 8)))
    );
    assert_eq!(
        inner_track_command("#SCROLL 1.5\r\nrest"),
        Ok((s("rest"), TrackCommand::Scroll(s("1.5"))))
    );
    assert_eq!(
        inner_track_command("#DELAY -0.25"),
        Ok((s(""), TrackCommand::Delay(s("-0.25"))))
    );
    assert_eq!(
        inner_track_command("#LYRIC la la"),
        Ok((s(""), TrackCommand::Lyric(s("la la"))))
    );
    assert_eq!(
        inner_track_command("#BARLINEOFF"),
        Ok((s(""), TrackCommand::BarlineOff))
    );
}

#[test]
fn bad_track_commands() {
    // a malformed argument is a definite mistake
    assert_eq!(
        inner_track_command("#BPMCHANGE fast"),
        Err(GrammarError::TrackCommandError)
    );
    assert_eq!(
        inner_track_command("#MEASURE 4/4/4"),
        Err(GrammarError::TrackCommandError)
    );
    assert_eq!(
        inner_track_command("#MEASURE 4/256"),
        Err(GrammarError::TrackCommandError)
    );
    assert_eq!(
        inner_track_command("#MEASURE /4"),
        Err(GrammarError::TrackCommandError)
    );
    assert_eq!(
        inner_track_command("#NOSUCHTHING"),
        Err(GrammarError::TrackCommandError)
    );
    assert_eq!(inner_track_command("#LYRIC"), Err(GrammarError::TrackCommandError));
    // `#END` is reported as such, so that the end of the track can be read instead
    assert_eq!(
        inner_track_command("#END x"),
        Err(GrammarError::UnexpectedEndCommand)
    );
    assert_eq!(inner_track_command("1100,"), Err(GrammarError::Syntax));
}

#[test]
fn start_command_for_another_player_is_a_failure() {
    assert_eq!(
        start_command("#START P3"),
        Err(GrammarError::TrackCommandError)
    );
    assert_eq!(start_command("#START "), Err(GrammarError::Syntax));
}

#[test]
fn notes_cover_every_code() {
    assert_eq!(
        notes("1379AB8x"),
        Ok((
            s("x"),
            vec![
                Some(Don),
                Some(BigDon),
                Some(BalloonRoll),
                Some(NoteType::SpecialRoll),
                Some(CoopDon),
                Some(CoopKa),
                Some(RollEnd),
            ]
        ))
    );
    assert_eq!(notes(",\n"), Ok((s(",\n"), vec![])));
}

#[test]
fn note_track_without_end_is_a_failure() {
    assert_eq!(
        note_track("#START\n1100,\n"),
        Err(GrammarError::NoteTrackNotEnded)
    );
    assert_eq!(note_track("1100,\n#END"), Err(GrammarError::Syntax));
}

#[test]
fn note_track_with_crlf_measures() {
    assert_eq!(
        note_track("#START\r\n12,\r\n#END\r\n"),
        Ok((
            s(""),
            vec![
                NoteTrackEntry::Command(TrackCommand::Start { player: None }),
                NoteTrackEntry::Notes(vec![Some(Don), Some(Kat)]),
                NoteTrackEntry::EndMeasure,
            ]
        ))
    );
}

#[test]
fn tja_file_must_cover_the_input() {
    assert_eq!(tja_file(""), Ok((s(""), vec![])));
    assert_eq!(tja_file("TITLE:x\nnot metadata"), Err(GrammarError::Syntax));
}

#[test]
fn preprocess_removes_comments_and_byte_order_marks() {
    assert_eq!(
        preprocess_tja_file("\u{feff}TITLE:x // the title\r\nBPM:1//\n//only comment\nWAVE:y"),
        s("TITLE:x \nBPM:1\n\nWAVE:y")
    );
    assert_eq!(preprocess_tja_file("a\n"), s("a"));
    assert_eq!(preprocess_tja_file(""), s(""));
}

#[test]
fn bench_reads_a_commented_file() {
    tja_file_bench("TITLE:x // comment\nLEVEL:3\n#START\n1,\n#END\n// done\n");
}

#[test]
fn a_blank_line_inside_a_track_never_finishes() {
    assert!(tja_file_finishes("TITLE:x\n#START\n1,\n#END\n"));
    assert!(!tja_file_finishes("#START\n1,\n\n1,\n#END\n"));
    assert!(!tja_file_finishes("#START\n1,\nx\n#END\n"));
    // the line ending after a run of notes is read as an empty line before `#END`
    assert!(tja_file_finishes("#START\n1\n#END\n"));
}
