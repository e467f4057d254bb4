//! The notes of a course: the note sequence, balloon hit counts, drum roll endings, measure
//! lengths and combo counting.
use vstd::prelude::*;

use crate::course::{CourseItem, CourseItemView, TJANoteType, is_note_char, items_view, note_of};
use crate::numbers::{digit_value, is_digit};
use crate::scoring::{BasicNoteType, NoteColour, basic_note_of};
use crate::error::{ErrorKindView, TJAParseErrorKind};

verus! {

// ---------------------------------------------------------------------------------------------
// Note kinds
// ---------------------------------------------------------------------------------------------

/// Balloon notes, whose hit count comes from the `BALLOON` metadata.
pub open spec fn is_balloon(n: TJANoteType) -> bool {
    n is BalloonRoll || n is SpecialRoll
}

/// Notes that begin a drum roll.
pub open spec fn is_roll_start(n: TJANoteType) -> bool {
    n is Roll || n is BigRoll || n is BalloonRoll || n is SpecialRoll
}

/// Notes hit with the centre of the drum.
pub open spec fn is_don(n: TJANoteType) -> bool {
    n is Don || n is BigDon || n is CoopDon
}

/// Notes hit with the rim of the drum.
pub open spec fn is_kat(n: TJANoteType) -> bool {
    n is Kat || n is BigKat || n is CoopKat
}

impl TJANoteType {
    /// Whether this note begins a drum roll (of any kind).
    pub fn is_roll(&self) -> (b: bool)
        ensures
            b == is_roll_start(*self),
    {
        match self {
            TJANoteType::Roll | TJANoteType::BigRoll | TJANoteType::BalloonRoll(_)
            | TJANoteType::SpecialRoll(_) => true,
            _ => false,
        }
    }

    /// Whether this note is a don (centre hit).
    pub fn is_don(&self) -> (b: bool)
        ensures
            b == is_don(*self),
    {
        match self {
            TJANoteType::Don | TJANoteType::BigDon | TJANoteType::CoopDon => true,
            _ => false,
        }
    }

    /// Whether this note is a kat (rim hit).
    pub fn is_kat(&self) -> (b: bool)
        ensures
            b == is_kat(*self),
    {
        match self {
            TJANoteType::Kat | TJANoteType::BigKat | TJANoteType::CoopKat => true,
            _ => false,
        }
    }
}

fn note_is_balloon(n: TJANoteType) -> (b: bool)
    ensures
        b == is_balloon(n),
{
    match n {
        TJANoteType::BalloonRoll(_) | TJANoteType::SpecialRoll(_) => true,
        _ => false,
    }
}

/// The kinds of notes: every note is exactly one of a note that counts for the combo (a don or
/// a kat), the start of a drum roll, or a roll end. A don is a plain note of the don colour,
/// small or big, or a coop don; likewise for kat.
pub proof fn lemma_note_kinds(n: TJANoteType)
    ensures
        is_don(n) <==> (basic_note_of(n) matches Some(b) && b.colour == NoteColour::Don) || n
            == TJANoteType::CoopDon,
        is_kat(n) <==> (basic_note_of(n) matches Some(b) && b.colour == NoteColour::Kat) || n
            == TJANoteType::CoopKat,
        !(is_don(n) && is_kat(n)),
        (is_don(n) || is_kat(n)) <==> !is_roll_start(n) && n != TJANoteType::RollEnd,
        is_balloon(n) ==> is_roll_start(n),
{
}

/// How note characters are read: `0` is a rest and every other note character gives its own
/// note (no two characters give the same note). `1` to `4` are the plain notes, odd digits don
/// and even digits kat, `3` and `4` big; `5`, `6`, `7` and `9` start drum rolls (`6` the big
/// one, `7` and `9` the balloons, `9` the special one); `8` ends a roll; `A` and `B` are the coop
/// don and kat.
pub proof fn lemma_note_chars(c: char, d: char)
    requires
        is_note_char(c),
        is_note_char(d),
    ensures
        note_of(c) is None <==> c == '0',
        note_of(c) == note_of(d) ==> c == d,
        is_digit(c) && 1 <= digit_value(c) <= 4 ==> (note_of(c) matches Some(n) && basic_note_of(n)
            == Some(
            BasicNoteType {
                colour: if digit_value(c) % 2 == 1 {
                    NoteColour::Don
                } else {
                    NoteColour::Kat
                },
                big: digit_value(c) >= 3,
            },
        )),
        (note_of(c) matches Some(n) && is_roll_start(n)) <==> (c == '5' || c == '6' || c == '7'
            || c == '9'),
        (note_of(c) matches Some(n) && is_balloon(n)) <==> (c == '7' || c == '9'),
        note_of(c) == Some(TJANoteType::BigRoll) <==> c == '6',
        (note_of(c) matches Some(n) && n is SpecialRoll) <==> c == '9',
        note_of(c) == Some(TJANoteType::RollEnd) <==> c == '8',
        note_of(c) == Some(TJANoteType::CoopDon) <==> c == 'A',
        note_of(c) == Some(TJANoteType::CoopKat) <==> c == 'B',
{
}

// ---------------------------------------------------------------------------------------------
// The note sequence of a course
// ---------------------------------------------------------------------------------------------

/// The notes of a run, without its rests.
pub open spec fn present_notes(notes: Seq<Option<TJANoteType>>) -> Seq<TJANoteType>
    decreases notes.len(),
{
    if notes.len() == 0 {
        seq![]
    } else {
        present_notes(notes.drop_last()) + match notes.last() {
            Some(n) => seq![n],
            None => seq![],
        }
    }
}

/// The notes that a course item adds to the note sequence.
pub open spec fn item_notes(item: CourseItemView) -> Seq<TJANoteType> {
    match item {
        CourseItemView::Notes { notes, end_measure: _ } => present_notes(notes),
        _ => seq![],
    }
}

/// All the notes of a course, in order, without rests.
pub open spec fn flatten_notes(items: Seq<CourseItemView>) -> Seq<TJANoteType>
    decreases items.len(),
{
    if items.len() == 0 {
        seq![]
    } else {
        flatten_notes(items.drop_last()) + item_notes(items.last())
    }
}

/// Collects the note sequence of a course.
pub fn collect_notes(items: &Vec<CourseItem>) -> (r: Vec<TJANoteType>)
    ensures
        r@ == flatten_notes(items_view(items@)),
{
    let mut r: Vec<TJANoteType> = Vec::new();
    let mut k: usize = 0;
    while k < items.len()
        invariant
            k <= items.len(),
            r@ == flatten_notes(items_view(items@).take(k as int)),
        decreases items.len() - k,
    {
        let ghost before = r@;
        assert(items_view(items@).take(k + 1).drop_last() =~= items_view(items@).take(k as int));
        match &items[k] {
            CourseItem::Notes { notes, end_measure: _ } => {
                let mut j: usize = 0;
                assert(notes@.take(0) =~= Seq::<Option<TJANoteType>>::empty());
                while j < notes.len()
                    invariant
                        j <= notes.len(),
                        r@ == before + present_notes(notes@.take(j as int)),
                    decreases notes.len() - j,
                {
                    assert(notes@.take(j + 1).drop_last() =~= notes@.take(j as int));
                    match notes[j] {
                        Some(n) => {
                            r.push(n);
                        },
                        None => {},
                    }
                    assert(r@ =~= before + present_notes(notes@.take(j + 1)));
                    j = j + 1;
                }
                assert(notes@.take(notes.len() as int) =~= notes@);
            },
            _ => {
                assert(r@ =~= before + Seq::<TJANoteType>::empty());
            },
        }
        k = k + 1;
    }
    assert(items_view(items@).take(items.len() as int) =~= items_view(items@));
    r
}

// ---------------------------------------------------------------------------------------------
// Balloons
// ---------------------------------------------------------------------------------------------

/// How many balloon notes there are in `s`.
pub open spec fn count_balloons(s: Seq<TJANoteType>) -> nat
    decreases s.len(),
{
    if s.len() == 0 {
        0
    } else {
        count_balloons(s.drop_last()) + if is_balloon(s.last()) {
            1nat
        } else {
            0nat
        }
    }
}

/// The hit count of the balloon of rank `rank` (counting from 0): 5 for every balloon when the
/// list is empty, the listed count while the list lasts, and 10 after it runs out.
pub open spec fn balloon_hits(balloons: Seq<u16>, rank: nat) -> u16 {
    if balloons.len() == 0 {
        5
    } else if rank < balloons.len() {
        balloons[rank as int]
    } else {
        10
    }
}

/// A balloon note with the given hit count.
pub open spec fn with_hits(n: TJANoteType, hits: u16) -> TJANoteType {
    match n {
        TJANoteType::BalloonRoll(_) => TJANoteType::BalloonRoll(hits),
        TJANoteType::SpecialRoll(_) => TJANoteType::SpecialRoll(hits),
        other => other,
    }
}

/// The note sequence with each balloon given its hit count, in order of appearance.
pub open spec fn assign_balloons(s: Seq<TJANoteType>, balloons: Seq<u16>) -> Seq<TJANoteType> {
    Seq::new(
        s.len(),
        |p: int|
            if is_balloon(s[p]) {
                with_hits(s[p], balloon_hits(balloons, count_balloons(s.take(p))))
            } else {
                s[p]
            },
    )
}

proof fn lemma_count_balloons_bound(s: Seq<TJANoteType>)
    ensures
        count_balloons(s) <= s.len(),
    decreases s.len(),
{
    if s.len() > 0 {
        lemma_count_balloons_bound(s.drop_last());
    }
}

/// The hit count a balloon note carries.
pub open spec fn hits_of(n: TJANoteType) -> Option<u16> {
    match n {
        TJANoteType::BalloonRoll(h) => Some(h),
        TJANoteType::SpecialRoll(h) => Some(h),
        _ => None,
    }
}

proof fn lemma_count_balloons_gap(s: Seq<TJANoteType>, p: int, q: int)
    requires
        0 <= p < q <= s.len(),
        forall|j: int| p < j < q ==> !is_balloon(#[trigger] s[j]),
    ensures
        count_balloons(s.take(q)) == count_balloons(s.take(p)) + if is_balloon(s[p]) {
            1nat
        } else {
            0nat
        },
    decreases q - p,
{
    assert(s.take(q).drop_last() =~= s.take(q - 1));
    if q - 1 > p {
        lemma_count_balloons_gap(s, p, q - 1);
    }
}

proof fn lemma_no_balloon_before(s: Seq<TJANoteType>, p: int)
    requires
        0 <= p <= s.len(),
        forall|j: int| 0 <= j < p ==> !is_balloon(#[trigger] s[j]),
    ensures
        count_balloons(s.take(p)) == 0,
    decreases p,
{
    if p > 0 {
        assert(s.take(p).drop_last() =~= s.take(p - 1));
        lemma_no_balloon_before(s, p - 1);
    }
}

/// How balloons get their hit counts: notes other than balloons are left as they are; a
/// balloon keeps its kind and gets 5 hits when the list is empty, else the list entry of its
/// rank among the balloons, or 10 once the list has run out. The first balloon has rank 0, and
/// the next balloon after one has the rank after it.
pub proof fn lemma_balloon_hits(s: Seq<TJANoteType>, balloons: Seq<u16>, p: int, q: int)
    requires
        0 <= p < s.len(),
    ensures
        assign_balloons(s, balloons).len() == s.len(),
        !is_balloon(s[p]) ==> assign_balloons(s, balloons)[p] == s[p],
        is_balloon(s[p]) ==> {
            let a = assign_balloons(s, balloons)[p];
            let rank = count_balloons(s.take(p));
            &&& (a is BalloonRoll <==> s[p] is BalloonRoll)
            &&& (a is SpecialRoll <==> s[p] is SpecialRoll)
            &&& hits_of(a) == Some(
                if balloons.len() == 0 {
                    5u16
                } else if rank < balloons.len() {
                    balloons[rank as int]
                } else {
                    10u16
                },
            )
        },
        (forall|j: int| 0 <= j < p ==> !is_balloon(#[trigger] s[j])) ==> count_balloons(s.take(p))
            == 0,
        (p < q < s.len() && is_balloon(s[p]) && forall|j: int|
            p < j < q ==> !is_balloon(#[trigger] s[j])) ==> count_balloons(s.take(q))
            == count_balloons(s.take(p)) + 1,
{
    if forall|j: int| 0 <= j < p ==> !is_balloon(#[trigger] s[j]) {
        lemma_no_balloon_before(s, p);
    }
    if p < q < s.len() && is_balloon(s[p]) && forall|j: int|
        p < j < q ==> !is_balloon(#[trigger] s[j]) {
        lemma_count_balloons_gap(s, p, q);
    }
}

/// Whether the note sequence has any balloon.
pub fn has_balloon(s: &Vec<TJANoteType>) -> (b: bool)
    ensures
        b == (count_balloons(s@) > 0),
{
    let mut i: usize = 0;
    assert(s@.take(0) =~= Seq::<TJANoteType>::empty());
    while i < s.len()
        invariant
            i <= s.len(),
            count_balloons(s@.take(i as int)) == 0,
        decreases s.len() - i,
    {
        assert(s@.take(i + 1).drop_last() =~= s@.take(i as int));
        if note_is_balloon(s[i]) {
            proof {
                lemma_count_prefix_mono(s@, i + 1, s.len() as int);
                assert(s@.take(s.len() as int) =~= s@);
            }
            return true;
        }
        i = i + 1;
    }
    assert(s@.take(s.len() as int) =~= s@);
    false
}

proof fn lemma_count_prefix_mono(s: Seq<TJANoteType>, j: int, k: int)
    requires
        0 <= j <= k <= s.len(),
    ensures
        count_balloons(s.take(j)) <= count_balloons(s.take(k)),
    decreases k - j,
{
    if j < k {
        lemma_count_prefix_mono(s, j, k - 1);
        assert(s.take(k).drop_last() =~= s.take(k - 1));
    }
    if k == s.len() {
        assert(s.take(k) =~= s);
    }
}

/// Gives each balloon of the note sequence its hit count (see [assign_balloons]).
pub fn give_balloon_hits(s: &Vec<TJANoteType>, balloons: &Vec<u16>) -> (r: Vec<TJANoteType>)
    ensures
        r@ == assign_balloons(s@, balloons@),
{
    let mut r: Vec<TJANoteType> = Vec::new();
    let mut rank: usize = 0;
    let mut i: usize = 0;
    assert(s@.take(0) =~= Seq::<TJANoteType>::empty());
    while i < s.len()
        invariant
            i <= s.len(),
            rank == count_balloons(s@.take(i as int)),
            rank <= i,
            r@ =~= assign_balloons(s@, balloons@).take(i as int),
        decreases s.len() - i,
    {
        assert(s@.take(i + 1).drop_last() =~= s@.take(i as int));
        let n = s[i];
        if note_is_balloon(n) {
            let hits: u16 = if balloons.len() == 0 {
                5
            } else if rank < balloons.len() {
                balloons[rank]
            } else {
                10
            };
            let given = match n {
                TJANoteType::BalloonRoll(_) => TJANoteType::BalloonRoll(hits),
                TJANoteType::SpecialRoll(_) => TJANoteType::SpecialRoll(hits),
                other => other,
            };
            r.push(given);
            rank = rank + 1;
        } else {
            r.push(n);
        }
        i = i + 1;
    }
    r
}

// ---------------------------------------------------------------------------------------------
// Drum rolls
// ---------------------------------------------------------------------------------------------

/// A note of a finished course: its type (balloons with their hit counts), its position in the
/// course's note sequence, and for a drum roll the position of the note that ends it.
#[derive(Debug, Clone, Copy, PartialEq, Eq, Structural)]
pub struct CourseNote {
    pub note_type: TJANoteType,
    pub index: usize,
    pub roll_end: Option<usize>,
}

/// Pairs each drum roll with its end, from position `pos` of the note sequence `s` on.
///
/// A roll, big roll or balloon must be directly followed by a roll end, which is consumed with
/// it. A special roll is ended either by a roll end (consumed) or by the next special roll
/// (which is not consumed: it starts a roll of its own). A roll end anywhere else is an error.
pub open spec fn pair_rolls(s: Seq<TJANoteType>, pos: int) -> Result<
    Seq<CourseNote>,
    ErrorKindView,
>
    decreases s.len() - pos,
{
    if pos < 0 || pos >= s.len() {
        Ok(seq![])
    } else {
        let n = s[pos];
        if is_roll_start(n) {
            if pos + 1 >= s.len() {
                Err(ErrorKindView::RollNotEnded)
            } else {
                let next = s[pos + 1];
                let note = CourseNote {
                    note_type: n,
                    index: pos as usize,
                    roll_end: Some((pos + 1) as usize),
                };
                if n is SpecialRoll && next is SpecialRoll {
                    match pair_rolls(s, pos + 1) {
                        Ok(rest) => Ok(seq![note] + rest),
                        Err(e) => Err(e),
                    }
                } else if next == TJANoteType::RollEnd {
                    match pair_rolls(s, pos + 2) {
                        Ok(rest) => Ok(seq![note] + rest),
                        Err(e) => Err(e),
                    }
                } else {
                    Err(ErrorKindView::RollNotEnded)
                }
            }
        } else if n == TJANoteType::RollEnd {
            Err(ErrorKindView::RollEndWithoutRoll)
        } else {
            match pair_rolls(s, pos + 1) {
                Ok(rest) => Ok(seq![CourseNote { note_type: n, index: pos as usize, roll_end: None }]
                    + rest),
                Err(e) => Err(e),
            }
        }
    }
}

/// `acc` followed by the result of `r`, or the error of `r`.
pub open spec fn prepend_notes(acc: Seq<CourseNote>, r: Result<Seq<CourseNote>, ErrorKindView>) -> Result<
    Seq<CourseNote>,
    ErrorKindView,
> {
    match r {
        Ok(rest) => Ok(acc + rest),
        Err(e) => Err(e),
    }
}

/// Pairs the drum rolls of a note sequence with their ends (see [pair_rolls]).
pub fn match_rolls(s: &Vec<TJANoteType>) -> (r: Result<Vec<CourseNote>, TJAParseErrorKind>)
    ensures
        match r {
            Ok(v) => pair_rolls(s@, 0) == Ok::<Seq<CourseNote>, ErrorKindView>(v@),
            Err(e) => pair_rolls(s@, 0) == Err::<Seq<CourseNote>, ErrorKindView>(e@),
        },
{
    let mut res: Vec<CourseNote> = Vec::new();
    let mut pos: usize = 0;
    assert(prepend_notes(res@, pair_rolls(s@, 0)) =~= pair_rolls(s@, 0)) by {
        match pair_rolls(s@, 0) {
            Ok(rest) => assert(res@ + rest =~= rest),
            Err(_) => {},
        }
    }
    while pos < s.len()
        invariant
            pos <= s.len(),
            prepend_notes(res@, pair_rolls(s@, pos as int)) == pair_rolls(s@, 0),
        decreases s.len() - pos,
    {
        let n = s[pos];
        if n.is_roll() {
            if pos + 1 >= s.len() {
                return Err(TJAParseErrorKind::RollNotEnded);
            }
            let next = s[pos + 1];
            let note = CourseNote { note_type: n, index: pos, roll_end: Some(pos + 1) };
            let special_pair = match (n, next) {
                (TJANoteType::SpecialRoll(_), TJANoteType::SpecialRoll(_)) => true,
                _ => false,
            };
            let ghost before = res@;
            if special_pair {
                res.push(note);
                proof {
                    match pair_rolls(s@, pos + 1) {
                        Ok(rest) => assert(before + (seq![note] + rest) =~= res@ + rest),
                        Err(_) => {},
                    }
                }
                pos = pos + 1;
            } else if next == TJANoteType::RollEnd {
                res.push(note);
                proof {
                    match pair_rolls(s@, pos + 2) {
                        Ok(rest) => assert(before + (seq![note] + rest) =~= res@ + rest),
                        Err(_) => {},
                    }
                }
                pos = pos + 2;
            } else {
                return Err(TJAParseErrorKind::RollNotEnded);
            }
        } else if n == TJANoteType::RollEnd {
            return Err(TJAParseErrorKind::RollEndWithoutRoll);
        } else {
            let note = CourseNote { note_type: n, index: pos, roll_end: None };
            let ghost before = res@;
            res.push(note);
            proof {
                match pair_rolls(s@, pos + 1) {
                    Ok(rest) => assert(before + (seq![note] + rest) =~= res@ + rest),
                    Err(_) => {},
                }
            }
            pos = pos + 1;
        }
    }
    assert(res@ + Seq::<CourseNote>::empty() =~= res@);
    Ok(res)
}

/// What holds of one note of a course read from the note sequence `s`: it stands where `s` has
/// it, it is not a roll end, and it ends a drum roll exactly when it starts one, at the next
/// position, which holds a roll end or (for a special roll) another special roll.
pub open spec fn well_placed(s: Seq<TJANoteType>, n: CourseNote) -> bool {
    &&& n.index < s.len()
    &&& s[n.index as int] == n.note_type
    &&& n.note_type != TJANoteType::RollEnd
    &&& if is_roll_start(n.note_type) {
        &&& n.roll_end == Some((n.index + 1) as usize)
        &&& n.index + 1 < s.len()
        &&& (s[n.index + 1] == TJANoteType::RollEnd || (n.note_type is SpecialRoll && s[n.index
            + 1] is SpecialRoll))
    } else {
        n.roll_end is None
    }
}

/// Every drum roll is ended: each note read from position `pos` of `s` on is well placed (see
/// [well_placed]), the notes come in the order of `s`, and every position from `pos` on that
/// does not hold a roll end gives a note.
#[verifier::spinoff_prover]
#[verifier::rlimit(30)]
pub proof fn lemma_rolls_are_ended(s: Seq<TJANoteType>, pos: int)
    requires
        0 <= pos,
        s.len() <= usize::MAX,
        pair_rolls(s, pos) is Ok,
    ensures
        match pair_rolls(s, pos) {
            Ok(notes) => {
                &&& forall|k: int| 0 <= k < notes.len() ==> #[trigger] well_placed(s, notes[k])
                    && pos <= notes[k].index
                &&& forall|a: int, b: int|
                    0 <= a < b < notes.len() ==> #[trigger] notes[a].index < #[trigger] notes[b].index
                &&& forall|p: int|
                    pos <= p < s.len() && s[p] != TJANoteType::RollEnd ==> exists|k: int|
                        0 <= k < notes.len() && #[trigger] notes[k].index == p
            },
            Err(_) => true,
        },
    decreases s.len() - pos,
{
    if pos >= s.len() {
        return;
    }
    let n = s[pos];
    let next_pos = if is_roll_start(n) && !(n is SpecialRoll && s[pos + 1] is SpecialRoll) {
        pos + 2
    } else {
        pos + 1
    };
    lemma_rolls_are_ended(s, next_pos);
    let rest = match pair_rolls(s, next_pos) {
        Ok(r) => r,
        Err(_) => seq![],
    };
    let notes = match pair_rolls(s, pos) {
        Ok(r) => r,
        Err(_) => seq![],
    };
    let first = notes[0];
    assert(notes == seq![first] + rest);
    assert(pair_rolls(s, next_pos) is Ok);
    assert(forall|k: int| 0 <= k < rest.len() ==> #[trigger] well_placed(s, rest[k]) && next_pos
        <= rest[k].index);
    assert(well_placed(s, first));
    assert forall|k: int| 0 <= k < notes.len() implies #[trigger] well_placed(s, notes[k]) && pos
        <= notes[k].index by {
        if k > 0 {
            assert(notes[k] == rest[k - 1]);
            assert(well_placed(s, rest[k - 1]));
        }
    }
    assert forall|a: int, b: int| 0 <= a < b < notes.len() implies #[trigger] notes[a].index
        < #[trigger] notes[b].index by {
        if a > 0 {
            assert(notes[a] == rest[a - 1]);
        }
        assert(0 <= b - 1 < rest.len());
        assert(notes[b] == rest[b - 1]);
        assert(well_placed(s, rest[b - 1]));
        assert(next_pos <= rest[b - 1].index);
    }
    assert forall|p: int| pos <= p < s.len() && s[p] != TJANoteType::RollEnd implies exists|k: int|
        0 <= k < notes.len() && #[trigger] notes[k].index == p by {
        if p == pos {
            assert(notes[0].index == p);
        } else {
            let k = choose|k: int| 0 <= k < rest.len() && #[trigger] rest[k].index == p;
            assert(notes[k + 1] == rest[k]);
        }
    }
}

/// No note is a roll end, and a note has the position of a roll end exactly when it starts a
/// drum roll.
pub open spec fn rolls_closed(notes: Seq<CourseNote>) -> bool {
    forall|k: int|
        0 <= k < notes.len() ==> #[trigger] notes[k].note_type != TJANoteType::RollEnd && (
        is_roll_start(notes[k].note_type) <==> notes[k].roll_end is Some)
}

/// The notes read from a note sequence have their drum rolls closed (see [rolls_closed]).
pub proof fn lemma_pair_rolls_closed(s: Seq<TJANoteType>, pos: int)
    ensures
        pair_rolls(s, pos) matches Ok(notes) ==> rolls_closed(notes),
    decreases s.len() - pos,
{
    if 0 <= pos < s.len() {
        let n = s[pos];
        if is_roll_start(n) {
            if pos + 1 < s.len() {
                lemma_pair_rolls_closed(s, pos + 1);
                lemma_pair_rolls_closed(s, pos + 2);
            }
        } else if n != TJANoteType::RollEnd {
            lemma_pair_rolls_closed(s, pos + 1);
        }
        match pair_rolls(s, pos) {
            Ok(notes) => {
                let first = notes[0];
                let rest = notes.drop_first();
                assert(notes == seq![first] + rest);
                assert forall|k: int| 0 <= k < notes.len() implies #[trigger] notes[k].note_type
                    != TJANoteType::RollEnd && (is_roll_start(notes[k].note_type)
                    <==> notes[k].roll_end is Some) by {
                    if k > 0 {
                        assert(notes[k] == rest[k - 1]);
                    }
                }
            },
            Err(_) => {},
        }
    }
}

// ---------------------------------------------------------------------------------------------
// Measures
// ---------------------------------------------------------------------------------------------

/// The number of note slots (rests included) in the items from `k` on.
pub open spec fn notes_from(items: Seq<CourseItemView>, k: int) -> nat
    decreases items.len() - k,
{
    if k < 0 || k >= items.len() {
        0
    } else {
        (match items[k] {
            CourseItemView::Notes { notes, end_measure: _ } => notes.len(),
            _ => 0,
        }) + notes_from(items, k + 1)
    }
}

/// The number of note slots (rests included) of a course.
pub open spec fn total_notes(items: Seq<CourseItemView>) -> nat {
    notes_from(items, 0)
}

/// The number of note slots (rests included) from item `k` to the end of the measure that item
/// `k` is in: what the timing of each slot of that measure is divided by.
pub open spec fn notes_in_measure_from(items: Seq<CourseItemView>, k: int) -> nat
    decreases items.len() - k,
{
    if k < 0 || k >= items.len() {
        0
    } else {
        match items[k] {
            CourseItemView::Notes { notes, end_measure } => notes.len() + if end_measure {
                0
            } else {
                notes_in_measure_from(items, k + 1)
            },
            _ => notes_in_measure_from(items, k + 1),
        }
    }
}

/// The number of note slots (rests included) of one item.
pub open spec fn slot_count(item: CourseItemView) -> nat {
    match item {
        CourseItemView::Notes { notes, end_measure: _ } => notes.len(),
        _ => 0,
    }
}

/// The number of note slots (rests included) of the items from `a` up to, not including, `b`.
pub open spec fn slots_between(items: Seq<CourseItemView>, a: int, b: int) -> nat
    decreases b - a,
{
    if a < 0 || a >= b || a >= items.len() {
        0
    } else {
        slot_count(items[a]) + slots_between(items, a + 1, b)
    }
}

/// The item closes its measure: a run of notes ended by `,`.
pub open spec fn closes_measure(item: CourseItemView) -> bool {
    item matches CourseItemView::Notes { end_measure: true, .. }
}

/// The slots of a measure are counted across all its lines: when the items from `k` up to `e`
/// make up the rest of a measure (none of them closes it before the last, and the last closes
/// it or the course ends at `e`), the count for item `k` is the number of note slots of all
/// those items.
pub proof fn lemma_measure_slots(items: Seq<CourseItemView>, k: int, e: int)
    requires
        0 <= k <= e <= items.len(),
        forall|j: int| k <= j < e - 1 ==> !closes_measure(#[trigger] items[j]),
        e == items.len() || (k < e && closes_measure(items[e - 1])),
    ensures
        notes_in_measure_from(items, k) == slots_between(items, k, e),
    decreases e - k,
{
    if k < e {
        if closes_measure(items[k]) {
            assert(k == e - 1);
            assert(slots_between(items, k + 1, e) == 0);
        } else {
            lemma_measure_slots(items, k + 1, e);
        }
    }
}

proof fn lemma_measure_le_notes_from(items: Seq<CourseItemView>, k: int)
    ensures
        notes_in_measure_from(items, k) <= notes_from(items, k),
    decreases items.len() - k,
{
    if 0 <= k < items.len() {
        lemma_measure_le_notes_from(items, k + 1);
    }
}

proof fn lemma_notes_from_mono(items: Seq<CourseItemView>, j: int, k: int)
    requires
        0 <= j <= k,
    ensures
        notes_from(items, k) <= notes_from(items, j),
    decreases k - j,
{
    if j < k {
        lemma_notes_from_mono(items, j + 1, k);
    }
}

/// Adding an item adds its note slots to the course total.
pub proof fn lemma_total_notes_push(items: Seq<CourseItemView>, item: CourseItemView)
    ensures
        total_notes(items.push(item)) == total_notes(items) + (match item {
            CourseItemView::Notes { notes, end_measure: _ } => notes.len(),
            _ => 0,
        }),
{
    lemma_notes_from_push(items, item, 0);
}

proof fn lemma_notes_from_push(items: Seq<CourseItemView>, item: CourseItemView, k: int)
    requires
        0 <= k <= items.len(),
    ensures
        notes_from(items.push(item), k) == notes_from(items, k) + (match item {
            CourseItemView::Notes { notes, end_measure: _ } => notes.len(),
            _ => 0,
        }),
    decreases items.len() - k,
{
    if k < items.len() {
        lemma_notes_from_push(items, item, k + 1);
        assert(items.push(item)[k] == items[k]);
    } else {
        assert(items.push(item)[k] == item);
        assert(notes_from(items.push(item), k + 1) == 0);
    }
}

/// For each position `k` from 0 to the number of items, the number of note slots from item `k`
/// to the end of its measure (see [notes_in_measure_from]).
pub fn measure_note_counts(items: &Vec<CourseItem>) -> (m: Vec<usize>)
    requires
        total_notes(items_view(items@)) <= usize::MAX,
        items@.len() < usize::MAX,
    ensures
        m@.len() == items@.len() + 1,
        forall|k: int|
            0 <= k <= items@.len() ==> m@[k] as nat == notes_in_measure_from(
                items_view(items@),
                k,
            ),
{
    let ghost iv = items_view(items@);
    let n = items.len();
    let mut m: Vec<usize> = Vec::new();
    let mut i: usize = 0;
    while i <= n
        invariant
            i <= n + 1,
            n == items.len(),
            n < usize::MAX,
            m@.len() == i,
            forall|j: int| 0 <= j < i ==> m@[j] == 0,
        decreases n + 1 - i,
    {
        m.push(0);
        i = i + 1;
    }
    let mut k: usize = n;
    while k > 0
        invariant
            k <= n == items.len(),
            iv == items_view(items@),
            total_notes(iv) <= usize::MAX,
            m@.len() == n + 1,
            forall|j: int| k <= j <= n ==> m@[j] as nat == notes_in_measure_from(iv, j),
        decreases k,
    {
        let idx = k - 1;
        proof {
            lemma_measure_le_notes_from(iv, k as int);
            lemma_notes_from_mono(iv, 0, idx as int);
            assert(iv[idx as int] == items@[idx as int]@);
        }
        let value: usize = match &items[idx] {
            CourseItem::Notes { notes, end_measure } => {
                if *end_measure {
                    notes.len()
                } else {
                    notes.len() + m[k]
                }
            },
            _ => m[k],
        };
        m.set(idx, value);
        k = idx;
    }
    m
}

// ---------------------------------------------------------------------------------------------
// Combo
// ---------------------------------------------------------------------------------------------

/// How many of the notes are don or kat notes.
pub open spec fn count_hit_notes(notes: Seq<CourseNote>) -> nat
    decreases notes.len(),
{
    if notes.len() == 0 {
        0
    } else {
        count_hit_notes(notes.drop_last()) + if is_don(notes.last().note_type) || is_kat(
            notes.last().note_type,
        ) {
            1nat
        } else {
            0nat
        }
    }
}

/// The maximum combo possible in a chart: the number of its notes that are don or kat.
pub fn max_combo(notes: &Vec<CourseNote>) -> (c: usize)
    ensures
        c == count_hit_notes(notes@),
        c <= notes@.len(),
{
    let mut c: usize = 0;
    let mut i: usize = 0;
    assert(notes@.take(0) =~= Seq::<CourseNote>::empty());
    while i < notes.len()
        invariant
            i <= notes.len(),
            c == count_hit_notes(notes@.take(i as int)),
            c <= i,
        decreases notes.len() - i,
    {
        assert(notes@.take(i + 1).drop_last() =~= notes@.take(i as int));
        let t = notes[i].note_type;
        if t.is_don() || t.is_kat() {
            c = c + 1;
        }
        i = i + 1;
    }
    assert(notes@.take(notes.len() as int) =~= notes@);
    c
}

} // verus!
