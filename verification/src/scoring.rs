//! Judging the player: note judgements, combos, the record of a play, the soul gauge, and the
//! reactions of a note to a key press.
use vstd::prelude::*;

use crate::course::TJANoteType;

verus! {

// ---------------------------------------------------------------------------------------------
// Judgements
// ---------------------------------------------------------------------------------------------

/// Index of the "good" timing window and judgement.
pub const GOOD: usize = 0;

/// Index of the "ok" timing window and judgement.
pub const OK: usize = 1;

/// Index of the "bad" timing window and judgement.
pub const BAD: usize = 2;

/// How well a note was hit.
#[derive(Debug, Copy, Clone, Eq, PartialEq, Structural)]
pub enum NoteJudgement {
    Bad,
    Okay,
    Good,
}

/// The index of a judgement: 0 for good, 1 for ok, 2 for bad.
pub open spec fn judgement_index(j: NoteJudgement) -> usize {
    match j {
        NoteJudgement::Bad => BAD,
        NoteJudgement::Okay => OK,
        NoteJudgement::Good => GOOD,
    }
}

impl NoteJudgement {
    /// The index of this judgement (see [judgement_index]).
    pub fn index(&self) -> (i: usize)
        ensures
            i == judgement_index(*self),
            i < 3,
    {
        match self {
            NoteJudgement::Bad => BAD,
            NoteJudgement::Okay => OK,
            NoteJudgement::Good => GOOD,
        }
    }
}

/// A judgement that keeps the combo going: good or ok (a bad or a miss breaks it).
pub open spec fn keeps_combo(j: Option<NoteJudgement>) -> bool {
    j == Some(NoteJudgement::Good) || j == Some(NoteJudgement::Okay)
}

/// The length of the run of combo keeping judgements at the end of `js`.
pub open spec fn trailing_streak(js: Seq<Option<NoteJudgement>>) -> nat
    decreases js.len(),
{
    if js.len() == 0 {
        0
    } else if keeps_combo(js.last()) {
        trailing_streak(js.drop_last()) + 1
    } else {
        0
    }
}

/// The length of the longest run of combo keeping judgements in `js`.
pub open spec fn longest_streak(js: Seq<Option<NoteJudgement>>) -> nat
    decreases js.len(),
{
    if js.len() == 0 {
        0
    } else {
        let prev = longest_streak(js.drop_last());
        let cur = trailing_streak(js);
        if cur > prev {
            cur
        } else {
            prev
        }
    }
}

/// How many times `j` occurs in `js`.
pub open spec fn count_judgement(js: Seq<Option<NoteJudgement>>, j: Option<NoteJudgement>) -> nat
    decreases js.len(),
{
    if js.len() == 0 {
        0
    } else {
        count_judgement(js.drop_last(), j) + if js.last() == j {
            1nat
        } else {
            0nat
        }
    }
}

/// The longest streak is at least the current one, and neither is longer than the record.
pub proof fn lemma_streak_bounds(js: Seq<Option<NoteJudgement>>)
    ensures
        trailing_streak(js) <= longest_streak(js),
        longest_streak(js) <= js.len(),
        trailing_streak(js) <= js.len(),
    decreases js.len(),
{
    if js.len() > 0 {
        lemma_streak_bounds(js.drop_last());
    }
}

/// The four counts (good, ok, bad, miss) add up to the number of judgements.
pub proof fn lemma_counts_sum(js: Seq<Option<NoteJudgement>>)
    ensures
        count_judgement(js, Some(NoteJudgement::Good)) + count_judgement(js, Some(NoteJudgement::Okay))
            + count_judgement(js, Some(NoteJudgement::Bad)) + count_judgement(js, None) == js.len(),
    decreases js.len(),
{
    if js.len() > 0 {
        lemma_counts_sum(js.drop_last());
        match js.last() {
            Some(NoteJudgement::Good) => {},
            Some(NoteJudgement::Okay) => {},
            Some(NoteJudgement::Bad) => {},
            None => {},
        }
    }
}

/// Recording one more judgement: a good or ok judgement extends the current combo by one, a bad
/// or a miss resets it to zero, and the maximum combo never goes down (it becomes the current
/// combo when that is longer).
pub proof fn lemma_judgement_combo(js: Seq<Option<NoteJudgement>>, j: Option<NoteJudgement>)
    ensures
        trailing_streak(js.push(j)) == if keeps_combo(j) {
            trailing_streak(js) + 1
        } else {
            0
        },
        longest_streak(js.push(j)) >= longest_streak(js),
        longest_streak(js.push(j)) == if trailing_streak(js.push(j)) > longest_streak(js) {
            trailing_streak(js.push(j))
        } else {
            longest_streak(js)
        },
{
    assert(js.push(j).drop_last() =~= js);
}

// ---------------------------------------------------------------------------------------------
// The record of a play
// ---------------------------------------------------------------------------------------------

/// A record containing statistics about how the player has done.
///
/// This struct will slowly collate data as the game progresses, and will be passed to the score
/// screen at the end.
#[derive(Clone, Debug)]
pub struct PlayResult {
    /// A vector containing the judgements for every note recorded.
    /// A None value indicates a miss.
    judgements: Vec<Option<NoteJudgement>>,
    /// How many times the player has hit the drum in a drumroll or baloon
    drumrolls: u64,
    score: u64,
    /// The current number of consecutive notes the player has hit with at least OK timing
    current_combo: usize,
    /// The maximum combo the player has achieved thus far.
    max_combo: usize,
}

/// The mathematical value of a [PlayResult].
pub struct PlayResultView {
    pub judgements: Seq<Option<NoteJudgement>>,
    pub drumrolls: u64,
    pub score: u64,
    pub current_combo: nat,
    pub max_combo: nat,
}

impl View for PlayResult {
    type V = PlayResultView;

    closed spec fn view(&self) -> PlayResultView {
        PlayResultView {
            judgements: self.judgements@,
            drumrolls: self.drumrolls,
            score: self.score,
            current_combo: self.current_combo as nat,
            max_combo: self.max_combo as nat,
        }
    }
}

impl PlayResult {
    /// The combos follow the judgements: the current combo is the trailing run of good or ok
    /// judgements, and the maximum combo is the longest such run.
    pub open spec fn wf(&self) -> bool {
        &&& self@.current_combo == trailing_streak(self@.judgements)
        &&& self@.max_combo == longest_streak(self@.judgements)
    }

    /// A record with nothing in it.
    pub fn new() -> (r: Self)
        ensures
            r.wf(),
            r@.judgements == Seq::<Option<NoteJudgement>>::empty(),
            r@.drumrolls == 0,
            r@.score == 0,
            r@.current_combo == 0,
            r@.max_combo == 0,
    {
        let r = PlayResult {
            judgements: Vec::new(),
            drumrolls: 0,
            score: 0,
            current_combo: 0,
            max_combo: 0,
        };
        assert(r.judgements@ =~= Seq::<Option<NoteJudgement>>::empty());
        r
    }

    /// The current combo.
    pub fn current_combo(&self) -> (c: usize)
        requires
            self.wf(),
        ensures
            c == self@.current_combo,
            c == trailing_streak(self@.judgements),
    {
        self.current_combo
    }

    /// Records the judgement of one note (`None` for a miss), and updates the combos.
    pub fn push_judgement(&mut self, judgement: Option<NoteJudgement>)
        requires
            old(self).wf(),
        ensures
            final(self).wf(),
            final(self)@.judgements == old(self)@.judgements.push(judgement),
            final(self)@.drumrolls == old(self)@.drumrolls,
            final(self)@.score == old(self)@.score,
            final(self)@.current_combo == if keeps_combo(judgement) {
                old(self)@.current_combo + 1
            } else {
                0
            },
            final(self)@.max_combo == if keeps_combo(judgement) && old(self)@.current_combo + 1
                > old(self)@.max_combo {
                old(self)@.current_combo + 1
            } else {
                old(self)@.max_combo
            },
    {
        proof {
            lemma_streak_bounds(self.judgements@);
        }
        let ghost old_js = self.judgements@;
        self.judgements.push(judgement);
        let n = self.judgements.len();
        assert(self.judgements@.drop_last() =~= old_js);
        let hit = match judgement {
            Some(NoteJudgement::Good) | Some(NoteJudgement::Okay) => true,
            _ => false,
        };
        if hit {
            self.current_combo = self.current_combo + 1;
            if self.current_combo > self.max_combo {
                self.max_combo = self.current_combo;
            }
        } else {
            self.current_combo = 0;
        }
    }

    /// Records one hit of a drum roll or balloon.
    pub fn add_drumroll(&mut self)
        requires
            old(self).wf(),
            old(self)@.drumrolls < u64::MAX,
        ensures
            final(self).wf(),
            final(self)@.drumrolls == old(self)@.drumrolls + 1,
            final(self)@.judgements == old(self)@.judgements,
            final(self)@.score == old(self)@.score,
            final(self)@.current_combo == old(self)@.current_combo,
            final(self)@.max_combo == old(self)@.max_combo,
    {
        self.drumrolls = self.drumrolls + 1;
    }

    /// How many notes got the given judgement (`None`: how many were missed).
    pub fn count_for_judgement(&self, judgement: Option<NoteJudgement>) -> (c: usize)
        ensures
            c == count_judgement(self@.judgements, judgement),
    {
        let mut c: usize = 0;
        let mut i: usize = 0;
        assert(self.judgements@.take(0) =~= Seq::<Option<NoteJudgement>>::empty());
        while i < self.judgements.len()
            invariant
                i <= self.judgements.len(),
                c == count_judgement(self.judgements@.take(i as int), judgement),
                c <= i,
            decreases self.judgements.len() - i,
        {
            assert(self.judgements@.take(i + 1).drop_last() =~= self.judgements@.take(i as int));
            if self.judgements[i] == judgement {
                c = c + 1;
            }
            i = i + 1;
        }
        assert(self.judgements@.take(self.judgements.len() as int) =~= self.judgements@);
        c
    }

    /// How many notes were judged good.
    pub fn goods(&self) -> (c: usize)
        ensures
            c == count_judgement(self@.judgements, Some(NoteJudgement::Good)),
    {
        self.count_for_judgement(Some(NoteJudgement::Good))
    }

    /// How many notes were judged ok.
    pub fn okays(&self) -> (c: usize)
        ensures
            c == count_judgement(self@.judgements, Some(NoteJudgement::Okay)),
    {
        self.count_for_judgement(Some(NoteJudgement::Okay))
    }

    /// How many notes were judged bad.
    pub fn bads(&self) -> (c: usize)
        ensures
            c == count_judgement(self@.judgements, Some(NoteJudgement::Bad)),
    {
        self.count_for_judgement(Some(NoteJudgement::Bad))
    }

    /// How many notes were missed.
    pub fn misses(&self) -> (c: usize)
        ensures
            c == count_judgement(self@.judgements, None),
            self@.judgements.len() <= usize::MAX,
    {
        let _n = self.judgements.len();
        self.count_for_judgement(None)
    }

    /// How many times the drum was hit in drum rolls and balloons.
    pub fn drumrolls(&self) -> (d: u64)
        ensures
            d == self@.drumrolls,
    {
        self.drumrolls
    }

    /// The longest combo of the play so far.
    pub fn max_combo(&self) -> (m: usize)
        requires
            self.wf(),
        ensures
            m == self@.max_combo,
            m == longest_streak(self@.judgements),
    {
        self.max_combo
    }
}

/// The numbers the score screen shows: misses are counted as bad.
#[derive(Clone, Copy, Debug, PartialEq, Eq, Structural)]
pub struct Score {
    pub goods: usize,
    pub okays: usize,
    pub bads: usize,
    pub max_combo: usize,
    pub drumrolls: u64,
}

impl Score {
    /// The score screen numbers of a play.
    pub fn from_result(result: &PlayResult) -> (s: Self)
        requires
            result.wf(),
        ensures
            s.goods == count_judgement(result@.judgements, Some(NoteJudgement::Good)),
            s.okays == count_judgement(result@.judgements, Some(NoteJudgement::Okay)),
            s.bads == count_judgement(result@.judgements, Some(NoteJudgement::Bad))
                + count_judgement(result@.judgements, None),
            s.drumrolls == result@.drumrolls,
            s.max_combo == result@.max_combo,
    {
        proof {
            lemma_counts_sum(result@.judgements);
        }
        let goods = result.goods();
        let okays = result.okays();
        let bads = result.bads();
        let misses = result.misses();
        Score {
            goods,
            okays,
            bads: bads + misses,
            drumrolls: result.drumrolls(),
            max_combo: result.max_combo(),
        }
    }
}

// ---------------------------------------------------------------------------------------------
// The soul gauge
// ---------------------------------------------------------------------------------------------

/// The soul gauge is measured in points from 0 to this.
pub const MAX_HEALTH: u32 = 10000;

/// Points of the soul gauge needed to clear a song at a difficulty from 0 (easy) to 4 (edit).
pub open spec fn spec_clear_threshold(difficulty: int) -> u32 {
    if difficulty == 0 {
        6000
    } else if difficulty == 1 || difficulty == 2 {
        7000
    } else {
        8000
    }
}

/// The number of soul gauge points needed to clear a song, for difficulties 0 to 4.
pub fn clear_threshold(difficulty: usize) -> (res: u32)
    requires
        difficulty <= 4,
    ensures
        res == spec_clear_threshold(difficulty as int),
{
    match difficulty {
        0 => 6000,
        1 | 2 => 7000,
        _ => 8000,
    }
}

/// Every song can be cleared: at each difficulty the clear threshold is above zero and within
/// the soul gauge.
pub proof fn lemma_clear_threshold_reachable(difficulty: int)
    requires
        0 <= difficulty <= 4,
    ensures
        0 < spec_clear_threshold(difficulty) <= MAX_HEALTH,
{
}

/// Harder difficulties never need less to clear: the clear threshold grows with the
/// difficulty, from easy to normal and from hard to oni.
pub proof fn lemma_clear_threshold_grows(d1: int, d2: int)
    requires
        0 <= d1 <= d2 <= 4,
    ensures
        spec_clear_threshold(d1) <= spec_clear_threshold(d2),
        spec_clear_threshold(0) < spec_clear_threshold(1),
        spec_clear_threshold(2) < spec_clear_threshold(3),
{
}

/// Which soul gauge value a judgement uses: misses count as bad.
pub open spec fn health_index(judgement: Option<NoteJudgement>) -> usize {
    match judgement {
        None | Some(NoteJudgement::Bad) => BAD,
        Some(NoteJudgement::Okay) => OK,
        Some(NoteJudgement::Good) => GOOD,
    }
}

/// `x` limited to the range `[lo, hi]`.
pub open spec fn clamp(x: int, lo: int, hi: int) -> int {
    if x < lo {
        lo
    } else if x > hi {
        hi
    } else {
        x
    }
}

/// The soul gauge after a judgement: the points for the judgement are added (a miss counts as
/// bad), and the result is kept between 0 and [MAX_HEALTH].
pub open spec fn spec_health_after(health: u32, judgement: Option<NoteJudgement>, values: Seq<i32>) -> u32 {
    clamp(clamp(health + values[health_index(judgement) as int], 0, u32::MAX as int), 0, MAX_HEALTH as int) as u32
}

/// Adds the soul gauge points of a judgement (see [spec_health_after]).
pub fn health_after_judgement(
    health_points: u32,
    judgement: Option<NoteJudgement>,
    judgement_hp_values: &[i32; 3],
) -> (r: u32)
    ensures
        r == spec_health_after(health_points, judgement, judgement_hp_values@),
        r <= MAX_HEALTH,
{
    let id: usize = match judgement {
        None | Some(NoteJudgement::Bad) => BAD,
        Some(NoteJudgement::Okay) => OK,
        Some(NoteJudgement::Good) => GOOD,
    };
    let delta = judgement_hp_values[id];
    let sum: i64 = health_points as i64 + delta as i64;
    let saturated: u32 = if sum < 0 {
        0
    } else if sum > u32::MAX as i64 {
        u32::MAX
    } else {
        sum as u32
    };
    if saturated > MAX_HEALTH {
        MAX_HEALTH
    } else {
        saturated
    }
}

/// The scoring side of a play in progress: the record of the play and the soul gauge.
pub struct PlayState {
    /// An ongoing record of the player's performance.
    pub results: PlayResult,
    /// How much the soul gauge is filled, in points from 0 to [MAX_HEALTH].
    pub health_points: u32,
    /// How many points are needed to clear the song; this depends on the difficulty.
    pub clear_threshold: u32,
    /// How many points each judgement gives (good, ok, bad; a miss counts as bad).
    pub judgement_hp_values: [i32; 3],
    /// The index of the next note to be played.
    pub next_note_index: usize,
}

impl PlayState {
    /// The start of a play at a difficulty from 0 to 4: nothing recorded and an empty gauge.
    pub fn new(difficulty: usize, judgement_hp_values: [i32; 3]) -> (p: Self)
        requires
            difficulty <= 4,
        ensures
            p.results.wf(),
            p.results@.judgements == Seq::<Option<NoteJudgement>>::empty(),
            p.results@.drumrolls == 0,
            p.health_points == 0,
            p.clear_threshold == spec_clear_threshold(difficulty as int),
            p.judgement_hp_values == judgement_hp_values,
            p.next_note_index == 0,
    {
        PlayState {
            results: PlayResult::new(),
            health_points: 0,
            clear_threshold: clear_threshold(difficulty),
            judgement_hp_values,
            next_note_index: 0,
        }
    }

    /// Reacts to a timing judgement (or a miss, `None`): records it in the results, which
    /// updates the combos, and moves the soul gauge.
    pub fn handle_judgement(&mut self, judgement: Option<NoteJudgement>)
        requires
            old(self).results.wf(),
        ensures
            final(self).results.wf(),
            final(self).results@.judgements == old(self).results@.judgements.push(judgement),
            final(self).results@.drumrolls == old(self).results@.drumrolls,
            final(self).results@.current_combo == if keeps_combo(judgement) {
                old(self).results@.current_combo + 1
            } else {
                0
            },
            final(self).health_points == spec_health_after(
                old(self).health_points,
                judgement,
                old(self).judgement_hp_values@,
            ),
            final(self).health_points <= MAX_HEALTH,
            final(self).clear_threshold == old(self).clear_threshold,
            final(self).judgement_hp_values == old(self).judgement_hp_values,
            final(self).next_note_index == old(self).next_note_index,
    {
        self.results.push_judgement(judgement);
        self.health_points = health_after_judgement(
            self.health_points,
            judgement,
            &self.judgement_hp_values,
        );
    }

    /// Moves past the next note, `next` (`None` when there is no next note), once it has gone
    /// too far past to be hit: a plain note that was not hit is recorded as a miss; a note that
    /// was hit, a drum roll or a balloon records nothing.
    pub fn skip_next_note(&mut self, next: Option<HitTarget>)
        requires
            old(self).results.wf(),
            next is Some ==> old(self).next_note_index < usize::MAX,
        ensures
            final(self).results.wf(),
            final(self).clear_threshold == old(self).clear_threshold,
            final(self).judgement_hp_values == old(self).judgement_hp_values,
            match next {
                None => {
                    &&& final(self).next_note_index == old(self).next_note_index
                    &&& final(self).results@ == old(self).results@
                    &&& final(self).health_points == old(self).health_points
                },
                Some(t) => {
                    &&& final(self).next_note_index == old(self).next_note_index + 1
                    &&& if t matches HitTarget::Note { is_hit: false, .. } {
                        &&& final(self).results@.judgements == old(
                            self,
                        ).results@.judgements.push(None)
                        &&& final(self).results@.drumrolls == old(self).results@.drumrolls
                        &&& final(self).results@.current_combo == 0
                        &&& final(self).health_points == spec_health_after(
                            old(self).health_points,
                            None,
                            old(self).judgement_hp_values@,
                        )
                    } else {
                        &&& final(self).results@ == old(self).results@
                        &&& final(self).health_points == old(self).health_points
                    }
                },
            },
    {
        match next {
            None => {},
            Some(t) => {
                self.next_note_index = self.next_note_index + 1;
                match t {
                    HitTarget::Note { is_hit, .. } => {
                        if !is_hit {
                            self.handle_judgement(None);
                        }
                    },
                    _ => {},
                }
            },
        }
    }
}

// ---------------------------------------------------------------------------------------------
// Notes and key presses
// ---------------------------------------------------------------------------------------------

/// The colour of a note: which part of the drum hits it.
#[derive(Copy, Clone, Debug, Eq, PartialEq, Structural)]
pub enum NoteColour {
    Don,
    Kat,
}

/// A plain note: its colour and whether it is big.
#[derive(Copy, Clone, Debug, Eq, PartialEq, Structural)]
pub struct BasicNoteType {
    pub colour: NoteColour,
    pub big: bool,
}

/// The plain note a note type stands for, if it is one (don, kat and their big forms).
pub open spec fn basic_note_of(n: TJANoteType) -> Option<BasicNoteType> {
    match n {
        TJANoteType::Don => Some(BasicNoteType { colour: NoteColour::Don, big: false }),
        TJANoteType::Kat => Some(BasicNoteType { colour: NoteColour::Kat, big: false }),
        TJANoteType::BigDon => Some(BasicNoteType { colour: NoteColour::Don, big: true }),
        TJANoteType::BigKat => Some(BasicNoteType { colour: NoteColour::Kat, big: true }),
        _ => None,
    }
}

impl BasicNoteType {
    /// The plain note a note type stands for (see [basic_note_of]); an error for any other note.
    pub fn try_from(value: TJANoteType) -> (r: Result<Self, ()>)
        ensures
            match r {
                Ok(b) => basic_note_of(value) == Some(b),
                Err(_) => basic_note_of(value) is None,
            },
    {
        match value {
            TJANoteType::Don => Ok(Self { colour: NoteColour::Don, big: false }),
            TJANoteType::Kat => Ok(Self { colour: NoteColour::Kat, big: false }),
            TJANoteType::BigDon => Ok(Self { colour: NoteColour::Don, big: true }),
            TJANoteType::BigKat => Ok(Self { colour: NoteColour::Kat, big: true }),
            _ => Err(()),
        }
    }
}

/// Different ways a note can respond to a keypress.
#[derive(Debug, Copy, Clone, Eq, PartialEq, Structural)]
pub enum NoteKeypressReaction {
    /// Don was pressed but this note is Kat, or vice versa
    /// Basically, do absolutely nothing.
    WrongColour,
    /// The keypress is too early, so the note is not yet able to be hit.
    ///
    /// *This variant is more important than WrongColour*. If a keypress is both too early and the
    /// wrong colour, this is the one you should return, since the calling code uses this variant
    /// to determine where to stop looking for a note to hit.
    TooEarly,
    /// The note was hit, with the given result
    Hit(NoteJudgement),
    /// The note was hit, and is a drumroll.
    Drumroll { roll_note: BasicNoteType },
    /// The note was hit, and is a balloon.
    BalloonRoll { first: bool, popped: bool },
    /// The note cannot be hit anymore.
    TooLate,
}

/// A note as far as a keypress is concerned. Times are compared by the caller (see
/// [KeypressTiming]); what is kept here is what the decision needs.
#[derive(Debug, Copy, Clone, Eq, PartialEq, Structural)]
pub enum HitTarget {
    /// A plain note, and whether it has been hit already.
    Note { kind: BasicNoteType, is_hit: bool },
    /// A drumroll, big or small.
    Roll { big: bool },
    /// A balloon, with the hits it still needs.
    Balloon { hits_left: u32 },
}

/// Where a keypress falls relative to a note, as the comparisons of the keypress time with the
/// note's time and the timing windows come out.
#[derive(Debug, Copy, Clone, Eq, PartialEq, Structural)]
pub struct KeypressTiming {
    /// The note's last moment has not passed: for a plain note, the keypress is before the
    /// note's time plus the bad window; for a roll or a balloon, before its end.
    pub in_time: bool,
    /// The keypress is before the note can first be hit: for a plain note, before the note's
    /// time minus the bad window; for a roll or a balloon, before its start.
    pub before: bool,
    /// For a roll or a balloon, the keypress is after its end.
    pub after: bool,
    /// The keypress is closer to the note's time than the good window.
    pub within_good: bool,
    /// The keypress is closer to the note's time than the ok window.
    pub within_ok: bool,
}

/// Whether a note is (or will at some point be) hittable: a hit note never is again, and a
/// balloon is not once it needs no more hits.
pub open spec fn spec_is_hittable(target: HitTarget, in_time: bool) -> bool {
    match target {
        HitTarget::Note { is_hit, .. } => !is_hit && in_time,
        HitTarget::Roll { .. } => in_time,
        HitTarget::Balloon { hits_left } => hits_left > 0 && in_time,
    }
}

/// The judgement of a hit on a plain note from how close it was.
pub open spec fn judgement_for(timing: KeypressTiming) -> NoteJudgement {
    if timing.within_good {
        NoteJudgement::Good
    } else if timing.within_ok {
        NoteJudgement::Okay
    } else {
        NoteJudgement::Bad
    }
}

/// How good a judgement is: bad 0, ok 1, good 2.
pub open spec fn judgement_rank(j: NoteJudgement) -> int {
    match j {
        NoteJudgement::Bad => 0,
        NoteJudgement::Okay => 1,
        NoteJudgement::Good => 2,
    }
}

/// A closer keypress never gets a worse judgement: inside the good window it is good, inside
/// only the ok window it is ok, outside both it is bad; and when one keypress is inside every
/// window that another is inside, its judgement is at least as good.
pub proof fn lemma_judgement_by_window(t1: KeypressTiming, t2: KeypressTiming)
    ensures
        t1.within_good ==> judgement_for(t1) == NoteJudgement::Good,
        !t1.within_good && t1.within_ok ==> judgement_for(t1) == NoteJudgement::Okay,
        !t1.within_good && !t1.within_ok ==> judgement_for(t1) == NoteJudgement::Bad,
        (t2.within_good ==> t1.within_good) && (t2.within_ok ==> t1.within_ok) ==> judgement_rank(
            judgement_for(t1),
        ) >= judgement_rank(judgement_for(t2)),
{
}

/// How a note reacts to a keypress of the colour `key`.
pub open spec fn keypress_reaction(
    target: HitTarget,
    key: NoteColour,
    timing: KeypressTiming,
) -> NoteKeypressReaction {
    if !spec_is_hittable(target, timing.in_time) {
        NoteKeypressReaction::TooLate
    } else {
        match target {
            HitTarget::Note { kind, .. } => if timing.before {
                NoteKeypressReaction::TooEarly
            } else if kind.colour == key {
                NoteKeypressReaction::Hit(judgement_for(timing))
            } else {
                NoteKeypressReaction::WrongColour
            },
            HitTarget::Roll { big } => if timing.before {
                NoteKeypressReaction::TooEarly
            } else if timing.after {
                NoteKeypressReaction::TooLate
            } else {
                NoteKeypressReaction::Drumroll { roll_note: BasicNoteType { colour: key, big } }
            },
            HitTarget::Balloon { .. } => if timing.before {
                NoteKeypressReaction::TooEarly
            } else if timing.after {
                NoteKeypressReaction::TooLate
            } else {
                NoteKeypressReaction::WrongColour
            },
        }
    }
}

/// The note after a keypress: a plain note that is hit is marked as hit; nothing else changes.
pub open spec fn after_keypress(target: HitTarget, reaction: NoteKeypressReaction) -> HitTarget {
    match (target, reaction) {
        (HitTarget::Note { kind, .. }, NoteKeypressReaction::Hit(_)) => HitTarget::Note {
            kind,
            is_hit: true,
        },
        _ => target,
    }
}

impl HitTarget {
    /// Whether the note is (or will at some point be) hittable (see [spec_is_hittable]).
    pub fn is_hittable(&self, in_time: bool) -> (b: bool)
        ensures
            b == spec_is_hittable(*self, in_time),
    {
        match self {
            HitTarget::Note { is_hit, .. } => !*is_hit && in_time,
            HitTarget::Roll { .. } => in_time,
            HitTarget::Balloon { hits_left } => *hits_left > 0 && in_time,
        }
    }

    /// Reacts to a keypress of the colour `key` (see [keypress_reaction]); a plain note that is
    /// hit is marked as hit.
    pub fn receive_keypress(&mut self, key: NoteColour, timing: KeypressTiming) -> (r:
        NoteKeypressReaction)
        ensures
            r == keypress_reaction(*old(self), key, timing),
            *final(self) == after_keypress(*old(self), r),
    {
        if !self.is_hittable(timing.in_time) {
            return NoteKeypressReaction::TooLate;
        }
        match self {
            HitTarget::Note { kind, is_hit } => {
                if timing.before {
                    NoteKeypressReaction::TooEarly
                } else if kind.colour == key {
                    *is_hit = true;
                    if timing.within_good {
                        NoteKeypressReaction::Hit(NoteJudgement::Good)
                    } else if timing.within_ok {
                        NoteKeypressReaction::Hit(NoteJudgement::Okay)
                    } else {
                        NoteKeypressReaction::Hit(NoteJudgement::Bad)
                    }
                } else {
                    NoteKeypressReaction::WrongColour
                }
            },
            HitTarget::Roll { big } => {
                if timing.before {
                    NoteKeypressReaction::TooEarly
                } else if timing.after {
                    NoteKeypressReaction::TooLate
                } else {
                    NoteKeypressReaction::Drumroll {
                        roll_note: BasicNoteType { colour: key, big: *big },
                    }
                }
            },
            HitTarget::Balloon { .. } => {
                if timing.before {
                    NoteKeypressReaction::TooEarly
                } else if timing.after {
                    NoteKeypressReaction::TooLate
                } else {
                    NoteKeypressReaction::WrongColour
                }
            },
        }
    }
}

/// A plain note is hit at most once: once a keypress has hit it, every later keypress finds it
/// too late, whatever its colour or timing.
pub proof fn lemma_note_hit_once(
    target: HitTarget,
    key: NoteColour,
    timing: KeypressTiming,
    later_key: NoteColour,
    later_timing: KeypressTiming,
)
    requires
        target is Note,
        keypress_reaction(target, key, timing) is Hit,
    ensures
        keypress_reaction(after_keypress(target, keypress_reaction(target, key, timing)), later_key, later_timing)
            == NoteKeypressReaction::TooLate,
{
}

/// Too early wins over the wrong colour: a keypress that comes before a hittable note can be hit
/// is too early, whichever colour was pressed.
pub proof fn lemma_too_early_before_colour(target: HitTarget, key: NoteColour, timing: KeypressTiming)
    requires
        spec_is_hittable(target, timing.in_time),
        timing.before,
    ensures
        keypress_reaction(target, key, timing) == NoteKeypressReaction::TooEarly,
{
}

/// Only a keypress of the note's own colour, neither too early nor too late, hits a plain note;
/// any other keypress leaves every note as it was.
pub proof fn lemma_keypress_changes_only_hits(
    target: HitTarget,
    key: NoteColour,
    timing: KeypressTiming,
)
    ensures
        !(keypress_reaction(target, key, timing) is Hit) ==> after_keypress(
            target,
            keypress_reaction(target, key, timing),
        ) == target,
        keypress_reaction(target, key, timing) is Hit ==> (target matches HitTarget::Note {
            kind,
            is_hit,
        } && !is_hit && kind.colour == key && timing.in_time && !timing.before),
{
}

// ---------------------------------------------------------------------------------------------
// Screens
// ---------------------------------------------------------------------------------------------

/// What a screen asks of the screen stack after an update.
#[derive(Debug, Copy, Clone, Eq, PartialEq, Structural)]
pub enum ScreenTransition {
    Continue,
    Pop,
}

/// The score screen: the numbers of a finished play under the name of the song, shown until its
/// button back to the menu is pressed.
pub struct ScoreScreen {
    pub score: Score,
    pub song_name: String,
    pub exit: bool,
}

impl ScoreScreen {
    /// The score screen of a play (see [Score::from_result]).
    pub fn new(song_name: String, result: PlayResult) -> (s: Self)
        requires
            result.wf(),
        ensures
            s.score.goods == count_judgement(result@.judgements, Some(NoteJudgement::Good)),
            s.score.okays == count_judgement(result@.judgements, Some(NoteJudgement::Okay)),
            s.score.bads == count_judgement(result@.judgements, Some(NoteJudgement::Bad))
                + count_judgement(result@.judgements, None),
            s.score.drumrolls == result@.drumrolls,
            s.score.max_combo == result@.max_combo,
            s.song_name@ == song_name@,
            !s.exit,
    {
        ScoreScreen { score: Score::from_result(&result), song_name, exit: false }
    }

    /// A score screen showing the given numbers.
    pub fn from_counts(
        goods: u32,
        okays: u32,
        bads: u32,
        drumrolls: u32,
        max_combo: u32,
        song_name: &str,
    ) -> (s: Self)
        ensures
            s.score == (Score {
                goods: goods as usize,
                okays: okays as usize,
                bads: bads as usize,
                max_combo: max_combo as usize,
                drumrolls: drumrolls as u64,
            }),
            s.song_name@ == song_name@,
            !s.exit,
    {
        let name = song_name.to_owned();
        ScoreScreen {
            score: Score {
                goods: goods as usize,
                okays: okays as usize,
                bads: bads as usize,
                max_combo: max_combo as usize,
                drumrolls: drumrolls as u64,
            },
            song_name: name,
            exit: false,
        }
    }

    /// The screen leaves once its button back to the menu has been pressed.
    pub fn update(&self) -> (t: ScreenTransition)
        ensures
            t == if self.exit {
                ScreenTransition::Pop
            } else {
                ScreenTransition::Continue
            },
    {
        if self.exit {
            ScreenTransition::Pop
        } else {
            ScreenTransition::Continue
        }
    }
}

/// The credits screen: shown until its return button is pressed.
#[derive(Debug, Copy, Clone, Eq, PartialEq, Structural)]
pub struct CreditsScreen {
    pub exit: bool,
}

impl CreditsScreen {
    /// A credits screen that has not been left.
    pub fn new() -> (s: Self)
        ensures
            !s.exit,
    {
        Self { exit: false }
    }

    /// The screen leaves once its return button has been pressed.
    pub fn update(&self) -> (t: ScreenTransition)
        ensures
            t == if self.exit {
                ScreenTransition::Pop
            } else {
                ScreenTransition::Continue
            },
    {
        if self.exit {
            ScreenTransition::Pop
        } else {
            ScreenTransition::Continue
        }
    }
}

} // verus!
