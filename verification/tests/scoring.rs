use taiko::course::TJANoteType;
use taiko::scoring::{
    clear_threshold, health_after_judgement, BasicNoteType, CreditsScreen, HitTarget,
    KeypressTiming, NoteColour, NoteJudgement, NoteKeypressReaction, PlayResult, PlayState,
    Score, ScoreScreen, ScreenTransition, BAD, GOOD, MAX_HEALTH, OK,
};
use taiko::settings::{ResolutionState, VisualSettings};

fn timing(in_time: bool, before: bool, after: bool, good: bool, ok: bool) -> KeypressTiming {
    KeypressTiming {
        in_time,
        before,
        after,
        within_good: good,
        within_ok: ok,
    }
}

fn don() -> BasicNoteType {
    BasicNoteType {
        colour: NoteColour::Don,
        big: false,
    }
}

#[test]
fn judgement_indices_match_the_timing_windows() {
    assert_eq!(NoteJudgement::Good.index(), GOOD);
    assert_eq!(NoteJudgement::Okay.index(), OK);
    assert_eq!(NoteJudgement::Bad.index(), BAD);
    assert_eq!((GOOD, OK, BAD), (0, 1, 2));
}

#[test]
fn clear_thresholds_per_difficulty() {
    assert_eq!(clear_threshold(0), 6000);
    assert_eq!(clear_threshold(1), 7000);
    assert_eq!(clear_threshold(2), 7000);
    assert_eq!(clear_threshold(3), 8000);
    assert_eq!(clear_threshold(4), 8000);
    for d in 0..5 {
        assert!(clear_threshold(d) <= MAX_HEALTH);
    }
}

#[test]
fn health_moves_with_judgements_and_stays_in_the_gauge() {
    let values = [200, 100, -500];
    assert_eq!(health_after_judgement(0, Some(NoteJudgement::Good), &values), 200);
    assert_eq!(health_after_judgement(1000, Some(NoteJudgement::Okay), &values), 1100);
    assert_eq!(health_after_judgement(1000, Some(NoteJudgement::Bad), &values), 500);
    // a miss counts as bad
    assert_eq!(health_after_judgement(1000, None, &values), 500);
    // the gauge cannot go below empty or above full
    assert_eq!(health_after_judgement(100, None, &values), 0);
    assert_eq!(health_after_judgement(9900, Some(NoteJudgement::Good), &values), MAX_HEALTH);
    assert_eq!(
        health_after_judgement(u32::MAX, Some(NoteJudgement::Good), &values),
        MAX_HEALTH
    );
}

#[test]
fn play_result_counts_and_combos() {
    let mut r = PlayResult::new();
    assert_eq!(r.max_combo(), 0);
    r.push_judgement(Some(NoteJudgement::Good));
    r.push_judgement(Some(NoteJudgement::Okay));
    r.push_judgement(Some(NoteJudgement::Good));
    assert_eq!(r.current_combo(), 3);
    r.push_judgement(None);
    assert_eq!(r.current_combo(), 0);
    r.push_judgement(Some(NoteJudgement::Good));
    r.push_judgement(Some(NoteJudgement::Bad));
    assert_eq!(r.current_combo(), 0);
    assert_eq!(r.max_combo(), 3);
    r.add_drumroll();
    r.add_drumroll();
    assert_eq!(r.goods(), 3);
    assert_eq!(r.okays(), 1);
    assert_eq!(r.bads(), 1);
    assert_eq!(r.misses(), 1);
    assert_eq!(r.drumrolls(), 2);
    assert_eq!(r.goods() + r.okays() + r.bads() + r.misses(), 6);
}

#[test]
fn score_counts_misses_as_bad() {
    let mut r = PlayResult::new();
    r.push_judgement(Some(NoteJudgement::Good));
    r.push_judgement(None);
    r.push_judgement(Some(NoteJudgement::Bad));
    r.add_drumroll();
    let s = Score::from_result(&r);
    assert_eq!(
        s,
        Score {
            goods: 1,
            okays: 0,
            bads: 2,
            max_combo: 1,
            drumrolls: 1
        }
    );
}

#[test]
fn score_screen_shows_the_play_and_leaves_on_exit() {
    let mut r = PlayResult::new();
    r.push_judgement(Some(NoteJudgement::Okay));
    r.push_judgement(Some(NoteJudgement::Okay));
    let mut screen = ScoreScreen::new("Ready to".to_string(), r);
    assert_eq!(screen.score.okays, 2);
    assert_eq!(screen.score.max_combo, 2);
    assert_eq!(screen.song_name, "Ready to");
    assert_eq!(screen.update(), ScreenTransition::Continue);
    screen.exit = true;
    assert_eq!(screen.update(), ScreenTransition::Pop);

    let other = ScoreScreen::from_counts(5, 4, 3, 2, 1, "song");
    assert_eq!(
        other.score,
        Score {
            goods: 5,
            okays: 4,
            bads: 3,
            max_combo: 1,
            drumrolls: 2
        }
    );
    assert_eq!(other.song_name, "song");
    assert!(!other.exit);
}

#[test]
fn credits_screen_leaves_on_exit() {
    let mut c = CreditsScreen::new();
    assert!(!c.exit);
    assert_eq!(c.update(), ScreenTransition::Continue);
    c.exit = true;
    assert_eq!(c.update(), ScreenTransition::Pop);
}

#[test]
fn basic_note_types() {
    assert_eq!(BasicNoteType::try_from(TJANoteType::Don), Ok(don()));
    assert_eq!(
        BasicNoteType::try_from(TJANoteType::BigKat),
        Ok(BasicNoteType {
            colour: NoteColour::Kat,
            big: true
        })
    );
    assert_eq!(BasicNoteType::try_from(TJANoteType::Roll), Err(()));
    assert_eq!(BasicNoteType::try_from(TJANoteType::CoopDon), Err(()));
}

#[test]
fn keypress_on_a_plain_note() {
    let mut n = HitTarget::Note {
        kind: don(),
        is_hit: false,
    };
    // too early: nothing happens
    assert_eq!(
        n.receive_keypress(NoteColour::Don, timing(true, true, false, false, false)),
        NoteKeypressReaction::TooEarly
    );
    // the wrong colour: nothing happens
    assert_eq!(
        n.receive_keypress(NoteColour::Kat, timing(true, false, false, true, true)),
        NoteKeypressReaction::WrongColour
    );
    assert!(n.is_hittable(true));
    // the right colour, in the ok window but not the good one
    assert_eq!(
        n.receive_keypress(NoteColour::Don, timing(true, false, false, false, true)),
        NoteKeypressReaction::Hit(NoteJudgement::Okay)
    );
    assert_eq!(
        n,
        HitTarget::Note {
            kind: don(),
            is_hit: true
        }
    );
    // a note is hit only once
    assert!(!n.is_hittable(true));
    assert_eq!(
        n.receive_keypress(NoteColour::Don, timing(true, false, false, true, true)),
        NoteKeypressReaction::TooLate
    );
}

#[test]
fn keypress_judgements() {
    let fresh = HitTarget::Note {
        kind: don(),
        is_hit: false,
    };
    let mut a = fresh;
    assert_eq!(
        a.receive_keypress(NoteColour::Don, timing(true, false, false, true, true)),
        NoteKeypressReaction::Hit(NoteJudgement::Good)
    );
    let mut b = fresh;
    assert_eq!(
        b.receive_keypress(NoteColour::Don, timing(true, false, false, false, false)),
        NoteKeypressReaction::Hit(NoteJudgement::Bad)
    );
    let mut c = fresh;
    assert_eq!(
        c.receive_keypress(NoteColour::Don, timing(false, false, false, true, true)),
        NoteKeypressReaction::TooLate
    );
    assert_eq!(c, fresh);
}

#[test]
fn keypress_on_rolls_and_balloons() {
    let mut roll = HitTarget::Roll { big: true };
    assert_eq!(
        roll.receive_keypress(NoteColour::Kat, timing(true, false, false, false, false)),
        NoteKeypressReaction::Drumroll {
            roll_note: BasicNoteType {
                colour: NoteColour::Kat,
                big: true
            }
        }
    );
    assert_eq!(
        roll.receive_keypress(NoteColour::Don, timing(true, true, false, false, false)),
        NoteKeypressReaction::TooEarly
    );
    assert_eq!(
        roll.receive_keypress(NoteColour::Don, timing(true, false, true, false, false)),
        NoteKeypressReaction::TooLate
    );
    assert_eq!(roll, HitTarget::Roll { big: true });

    let mut balloon = HitTarget::Balloon { hits_left: 3 };
    assert_eq!(
        balloon.receive_keypress(NoteColour::Don, timing(true, false, false, false, false)),
        NoteKeypressReaction::WrongColour
    );
    let mut popped = HitTarget::Balloon { hits_left: 0 };
    assert!(!popped.is_hittable(true));
    assert_eq!(
        popped.receive_keypress(NoteColour::Don, timing(true, false, false, false, false)),
        NoteKeypressReaction::TooLate
    );
}

#[test]
fn play_state_handles_judgements() {
    let mut p = PlayState::new(0, [300, 100, -1000]);
    assert_eq!(p.clear_threshold, 6000);
    assert_eq!(p.health_points, 0);
    p.handle_judgement(Some(NoteJudgement::Good));
    p.handle_judgement(Some(NoteJudgement::Okay));
    assert_eq!(p.health_points, 400);
    assert_eq!(p.results.current_combo(), 2);
    p.handle_judgement(None);
    assert_eq!(p.health_points, 0);
    assert_eq!(p.results.current_combo(), 0);
    assert_eq!(p.results.max_combo(), 2);
    assert_eq!(p.results.misses(), 1);
    assert_eq!(PlayState::new(3, [1, 1, 1]).clear_threshold, 8000);
}

#[test]
fn settings_default_to_borderless_fullscreen() {
    assert_eq!(ResolutionState::default(), ResolutionState::BorderlessFullscreen);
    assert_eq!(
        VisualSettings::default(),
        VisualSettings {
            resolution: ResolutionState::BorderlessFullscreen
        }
    );
}

#[test]
fn skipping_notes_records_misses() {
    let mut p = PlayState::new(2, [100, 50, -200]);
    p.handle_judgement(Some(NoteJudgement::Good));
    p.handle_judgement(Some(NoteJudgement::Good));
    assert_eq!(p.health_points, 200);
    // a hit note records nothing more
    p.skip_next_note(Some(HitTarget::Note { kind: don(), is_hit: true }));
    assert_eq!(p.next_note_index, 1);
    assert_eq!(p.results.current_combo(), 2);
    // a drum roll or a balloon records nothing
    p.skip_next_note(Some(HitTarget::Roll { big: false }));
    p.skip_next_note(Some(HitTarget::Balloon { hits_left: 4 }));
    assert_eq!(p.next_note_index, 3);
    assert_eq!(p.results.misses(), 0);
    // a note that was not hit is a miss
    p.skip_next_note(Some(HitTarget::Note { kind: don(), is_hit: false }));
    assert_eq!(p.next_note_index, 4);
    assert_eq!(p.results.misses(), 1);
    assert_eq!(p.results.current_combo(), 0);
    assert_eq!(p.health_points, 0);
    // past the last note nothing happens
    p.skip_next_note(None);
    assert_eq!(p.next_note_index, 4);
    assert_eq!(p.results.misses(), 1);
}
