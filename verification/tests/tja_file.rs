use taiko::course::{read_course_item, CourseCommand, CourseItem, TJANoteType};
use taiko::course::TJANoteType::{BalloonRoll, Don, Kat, SpecialRoll};
use taiko::error::{TJAParseError, TJAParseErrorKind};
use taiko::tja::{parse_tja_file, tja_file_supported};

fn chars(s: &str) -> Vec<char> {
    s.chars().collect()
}

const OK_TRACK: &str = "TITLE: POP TEAM EPIC
BPM:142
WAVE:POP TEAM EPIC.ogg


BALLOON:10,20
COURSE:Easy
LEVEL:1

#START

1100,
1100,
2,
7008,
,
9008,

#END
";

#[test]
fn test_tja_file_full() {
    assert!(parse_tja_file(OK_TRACK).is_ok());

    let no_title = format!("//{}", OK_TRACK);
    assert_eq!(
        parse_tja_file(&no_title).unwrap_err(),
        TJAParseError {
            kind: TJAParseErrorKind::MissingMetadataForSong("TITLE".to_string()),
            line: 0,
        }
    );
}

#[test]
fn test_song_command() {
    assert_eq!(
        read_course_item(&chars("#BPMCHANGE 123")),
        Ok(CourseItem::Command(CourseCommand::BpmChange("123".to_string())))
    );
    assert_eq!("123".parse::<f32>(), Ok(123.0));

    assert_eq!(
        read_course_item(&chars("#MEASURE 9/8")),
        Ok(CourseItem::Command(CourseCommand::Measure(9, 8)))
    );
}

#[test]
fn tja_parser_test_notes() {
    assert_eq!(
        read_course_item(&chars("1201")),
        Ok(CourseItem::Notes {
            notes: vec![Some(Don), Some(Kat), None, Some(Don)],
            end_measure: false,
        })
    );

    assert_eq!(
        read_course_item(&chars("1201,")),
        Ok(CourseItem::Notes {
            notes: vec![Some(Don), Some(Kat), None, Some(Don)],
            end_measure: true,
        })
    );
}

#[test]
fn test_course_item() {
    assert_eq!(
        read_course_item(&chars("#MEASURE 4/4")),
        Ok(CourseItem::Command(CourseCommand::Measure(4, 4)))
    );
}

#[test]
fn full_file_contents() {
    let song = parse_tja_file(OK_TRACK).unwrap();
    assert_eq!(song.title, " POP TEAM EPIC");
    assert_eq!(song.subtitle, None);
    assert_eq!(song.audio_filename, "POP TEAM EPIC.ogg");
    assert_eq!(song.bpm, Some("142".to_string()));
    assert_eq!(song.offset, None);
    assert_eq!(song.demostart, None);
    assert_eq!(song.difficulties.len(), 5);
    assert!(song.difficulties[1..].iter().all(|d| d.is_none()));
    let easy = song.difficulties[0].as_ref().unwrap();
    assert_eq!(easy.star_level, 1);
    // 1,1,0,0 | 1,1,0,0 | 2 | 7,0,0,8 | (empty) | 9,0,0,8
    assert_eq!(easy.items.len(), 6);
    assert_eq!(easy.measure_notes, vec![4, 4, 1, 4, 0, 4, 0]);
    let kinds: Vec<TJANoteType> = easy.notes.iter().map(|n| n.note_type).collect();
    assert_eq!(
        kinds,
        vec![
            TJANoteType::Don,
            TJANoteType::Don,
            TJANoteType::Don,
            TJANoteType::Don,
            TJANoteType::Kat,
            TJANoteType::BalloonRoll(10),
            TJANoteType::SpecialRoll(20),
        ]
    );
    // Note positions count notes only (rests are dropped); a roll ends at its roll end note.
    assert_eq!(easy.notes[5].index, 5);
    assert_eq!(easy.notes[5].roll_end, Some(6));
    assert_eq!(easy.notes[6].index, 7);
    assert_eq!(easy.notes[6].roll_end, Some(8));
    assert_eq!(taiko::chart::max_combo(&easy.notes), 5);
}

fn course_file(balloon: Option<&str>, body: &str) -> String {
    let mut s = String::from("TITLE:T\nWAVE:a.ogg\nLEVEL:3\n");
    if let Some(b) = balloon {
        s.push_str(&format!("BALLOON:{b}\n"));
    }
    s.push_str("#START\n");
    s.push_str(body);
    s.push_str("\n#END\n");
    s
}

fn oni_kinds(file: &str) -> Vec<TJANoteType> {
    let song = parse_tja_file(file).unwrap();
    song.difficulties[3]
        .as_ref()
        .unwrap()
        .notes
        .iter()
        .map(|n| n.note_type)
        .collect()
}

#[test]
fn balloon_counts_follow_the_list() {
    // Listed counts in order, then 10 when the list runs out.
    assert_eq!(
        oni_kinds(&course_file(Some("3,4"), "78,\n78,\n78,")),
        vec![BalloonRoll(3), BalloonRoll(4), BalloonRoll(10)]
    );
    // An empty list gives every balloon 5 hits.
    assert_eq!(
        oni_kinds(&course_file(Some(""), "78,\n98,")),
        vec![BalloonRoll(5), SpecialRoll(5)]
    );
}

#[test]
fn balloon_without_metadata_is_an_error() {
    let file = course_file(None, "1,\n78,");
    assert_eq!(
        parse_tja_file(&file).unwrap_err(),
        TJAParseError {
            kind: TJAParseErrorKind::MissingMetadataForCourse("BALLOON".to_string()),
            line: 4,
        }
    );
}

#[test]
fn invalid_balloon_list() {
    // "05" is read as the token "0" followed by a stray "5".
    for bad in ["1,", "1,,2", "70000", "05", "a"] {
        let file = course_file(Some(bad), "1,");
        assert_eq!(
            parse_tja_file(&file).unwrap_err(),
            TJAParseError { kind: TJAParseErrorKind::InvalidMetadata, line: 3 },
            "{bad}"
        );
    }
    assert!(parse_tja_file(&course_file(Some("19,8"), "1,")).is_ok());
}

#[test]
fn balloon_counts_starting_with_nine() {
    assert_eq!(
        oni_kinds(&course_file(Some("99"), "78,")),
        vec![BalloonRoll(99)]
    );
    assert_eq!(
        oni_kinds(&course_file(Some("95,900"), "78,\n98,")),
        vec![BalloonRoll(95), SpecialRoll(900)]
    );
    assert_eq!(
        read_course_item(&chars("#MEASURE 12/16")),
        Ok(CourseItem::Command(CourseCommand::Measure(12, 16)))
    );
    assert_eq!(
        read_course_item(&chars("#MEASURE 9/96")),
        Ok(CourseItem::Command(CourseCommand::Measure(9, 96)))
    );
}

#[test]
fn roll_errors() {
    assert_eq!(
        parse_tja_file(&course_file(None, "15,")).unwrap_err(),
        TJAParseError { kind: TJAParseErrorKind::RollNotEnded, line: 4 }
    );
    assert_eq!(
        parse_tja_file(&course_file(None, "51,\n8,")).unwrap_err(),
        TJAParseError { kind: TJAParseErrorKind::RollNotEnded, line: 4 }
    );
    assert_eq!(
        parse_tja_file(&course_file(None, "18,")).unwrap_err(),
        TJAParseError { kind: TJAParseErrorKind::RollEndWithoutRoll, line: 4 }
    );
    // A special roll can be ended by the next special roll, which then needs an end of its own.
    assert_eq!(
        oni_kinds(&course_file(Some("2,3"), "9098,")),
        vec![TJANoteType::SpecialRoll(2), TJANoteType::SpecialRoll(3)]
    );
    assert_eq!(
        parse_tja_file(&course_file(Some("2,3"), "99,")).unwrap_err(),
        TJAParseError { kind: TJAParseErrorKind::RollNotEnded, line: 5 }
    );
}

#[test]
fn course_line_errors() {
    let bad_command = course_file(None, "1,\n#GOGOSTART now\n1,");
    assert_eq!(
        parse_tja_file(&bad_command).unwrap_err(),
        TJAParseError { kind: TJAParseErrorKind::CourseCommandError, line: 5 }
    );
    let bad_notes = course_file(None, "12x,");
    assert_eq!(
        parse_tja_file(&bad_notes).unwrap_err(),
        TJAParseError { kind: TJAParseErrorKind::SyntaxError, line: 4 }
    );
    let end_with_extra = course_file(None, "1,\n#ENDING");
    assert_eq!(
        parse_tja_file(&end_with_extra).unwrap_err(),
        TJAParseError { kind: TJAParseErrorKind::SyntaxError, line: 5 }
    );
    let bpm_change = course_file(None, "#BPMCHANGE fast\n1,");
    assert_eq!(
        parse_tja_file(&bpm_change).unwrap_err(),
        TJAParseError { kind: TJAParseErrorKind::CourseCommandError, line: 4 }
    );
}

#[test]
fn missing_end() {
    let file = "TITLE:T\nWAVE:w\nLEVEL:1\n#START\n1,\n\n11,\n";
    assert_eq!(
        parse_tja_file(file).unwrap_err(),
        TJAParseError { kind: TJAParseErrorKind::ExpectedEndCommand, line: 6 }
    );
    let empty_course = "TITLE:T\n#START\n";
    assert_eq!(
        parse_tja_file(empty_course).unwrap_err(),
        TJAParseError { kind: TJAParseErrorKind::ExpectedEndCommand, line: 0 }
    );
}

#[test]
fn difficulty_selection() {
    let two = "TITLE:T\nWAVE:w\nLEVEL:1\nCOURSE:Hard\n#START\n1,\n#END\nCOURSE:2\n#START\n1,\n#END";
    assert_eq!(
        parse_tja_file(two).unwrap_err(),
        TJAParseError { kind: TJAParseErrorKind::MultipleTracksSameDifficulty(2), line: 9 }
    );
    let bad = "TITLE:T\nWAVE:w\nLEVEL:1\nCOURSE:Expert\n#START\n1,\n#END";
    assert_eq!(
        parse_tja_file(bad).unwrap_err(),
        TJAParseError { kind: TJAParseErrorKind::InvalidMetadata, line: 3 }
    );
    let many = "TITLE:T\nWAVE:w\nLEVEL:1\nCOURSE:0\n#START\n1,\n#END\nCOURSE:Edit\nLEVEL:9\n#START\n2,\n#END";
    let song = parse_tja_file(many).unwrap();
    assert_eq!(song.difficulties[0].as_ref().unwrap().star_level, 1);
    assert_eq!(song.difficulties[4].as_ref().unwrap().star_level, 9);
    assert!(song.difficulties[3].is_none());
}

#[test]
fn level_errors() {
    let missing = "TITLE:T\nWAVE:w\n#START\n1,\n#END";
    assert_eq!(
        parse_tja_file(missing).unwrap_err(),
        TJAParseError {
            kind: TJAParseErrorKind::MissingMetadataForCourse("LEVEL".to_string()),
            line: 3
        }
    );
    let too_big = "TITLE:T\nWAVE:w\nLEVEL:256\n#START\n1,\n#END";
    assert_eq!(
        parse_tja_file(too_big).unwrap_err(),
        TJAParseError { kind: TJAParseErrorKind::InvalidMetadata, line: 2 }
    );
    let plus = "TITLE:T\nWAVE:w\nLEVEL:+7\n#START\n1,\n#END";
    assert_eq!(parse_tja_file(plus).unwrap().difficulties[3].as_ref().unwrap().star_level, 7);
}

#[test]
fn song_metadata_errors() {
    assert_eq!(
        parse_tja_file("TITLE:T\n").unwrap_err(),
        TJAParseError {
            kind: TJAParseErrorKind::MissingMetadataForSong("WAVE".to_string()),
            line: 0
        }
    );
    assert_eq!(
        parse_tja_file("TITLE:T\nWAVE:w\nBPM:fast\n").unwrap_err(),
        TJAParseError { kind: TJAParseErrorKind::InvalidMetadata, line: 2 }
    );
    assert_eq!(
        parse_tja_file("TITLE:T\nWAVE:w\nDEMOSTART:1.5.2\n").unwrap_err(),
        TJAParseError { kind: TJAParseErrorKind::InvalidMetadata, line: 2 }
    );
    let song = parse_tja_file("TITLE:T\nSUBTITLE:--x\nWAVE:w\nOFFSET:-1.5e-1\n").unwrap();
    assert_eq!(song.subtitle, Some("--x".to_string()));
    assert_eq!(song.offset, Some("-1.5e-1".to_string()));
}

#[test]
fn top_level_errors() {
    assert_eq!(
        parse_tja_file("TITLE:T\nnot metadata\n").unwrap_err(),
        TJAParseError { kind: TJAParseErrorKind::SyntaxError, line: 1 }
    );
    assert_eq!(
        parse_tja_file("TITLE:T\n#START P3\n").unwrap_err(),
        TJAParseError { kind: TJAParseErrorKind::CourseCommandError, line: 1 }
    );
    assert!(!tja_file_supported("TITLE:T\n#START P1\n#END\n"));
    assert!(tja_file_supported("TITLE:T\n#START P3\n"));
}

#[test]
fn comments_bom_and_blank_lines() {
    let file = "\u{feff}TITLE:T // the title\r\n  WAVE:w.ogg  \n// only a comment\nLEVEL:2\n#START\n  1,  // notes\n#END";
    let song = parse_tja_file(file).unwrap();
    assert_eq!(song.title, "T");
    assert_eq!(song.audio_filename, "w.ogg");
    assert_eq!(song.difficulties[3].as_ref().unwrap().notes.len(), 1);
}

#[test]
fn metadata_is_overwritten() {
    let file = "TITLE:A\nTITLE:B\nWAVE:w\n";
    assert_eq!(parse_tja_file(file).unwrap().title, "B");
}

#[test]
fn course_sees_metadata_at_its_start() {
    let file = "TITLE:T\nWAVE:w\nLEVEL:1\nBPM:150\n#START\n1,\n#END\nBPM:90\n";
    let song = parse_tja_file(file).unwrap();
    assert_eq!(song.bpm, Some("90".to_string()));
    assert_eq!(song.difficulties[3].as_ref().unwrap().bpm, Some("150".to_string()));
}

#[test]
fn comments_and_byte_order_mark_change_nothing() {
    let plain = "TITLE:T\nWAVE:a.ogg\nLEVEL:3\n#START\n1,\n#END\n";
    let decorated = "\u{feff}TITLE:T // the title\nWAVE:a.ogg\nLEVEL:3 // stars\n#START // go\n1, // notes\n#END\n";
    assert_eq!(
        format!("{:?}", parse_tja_file(plain)),
        format!("{:?}", parse_tja_file(decorated))
    );
    let bad = "TITLE:T\nWAVE:a.ogg\n#START\n1,\n#END\n";
    let bad_decorated = "\u{feff}TITLE:T // t\nWAVE:a.ogg // w\n#START // s\n1,\n#END // e\n";
    assert_eq!(parse_tja_file(bad).unwrap_err(), parse_tja_file(bad_decorated).unwrap_err());
}

#[test]
fn a_lone_byte_order_mark_reads_as_an_empty_file() {
    assert_eq!(parse_tja_file("\u{feff}").unwrap_err(), parse_tja_file("").unwrap_err());
}

#[test]
fn error_messages() {
    let e = |kind, line| TJAParseError { kind, line };
    assert_eq!(e(TJAParseErrorKind::SyntaxError, 0).message(), "syntax error (at line 1)");
    assert_eq!(
        e(TJAParseErrorKind::RollNotEnded, 41).message(),
        "drumroll not ended (at line 42)"
    );
    assert_eq!(
        e(TJAParseErrorKind::MultipleTracksSameDifficulty(3), 9).message(),
        "multiple courses defined for extreme difficulty (at line 10)"
    );
    assert_eq!(
        e(TJAParseErrorKind::MissingMetadataForCourse("BALLOON".to_string()), 4).message(),
        "metadata needed for this difficulty: \"BALLOON\" (at line 5)"
    );
    assert_eq!(
        e(TJAParseErrorKind::MissingMetadataForSong("TITLE".to_string()), 0).message(),
        "metadata needed for the song: \"TITLE\" (at line 1)"
    );
    assert_eq!(
        e(TJAParseErrorKind::RollEndWithoutRoll, 1234).message(),
        "drumroll end without preceding drumroll (at line 1235)"
    );
    assert_eq!(
        e(TJAParseErrorKind::CourseCommandError, 2).message(),
        "invalid song notation command (at line 3)"
    );
    assert_eq!(e(TJAParseErrorKind::InvalidMetadata, 7).message(), "invalid song metadata (at line 8)");
    assert_eq!(
        e(TJAParseErrorKind::ExpectedEndCommand, 99).message(),
        "expected #END command (at line 100)"
    );
}
