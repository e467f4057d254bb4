//! The kinds of notes read by the one-pass chart grammar.
use vstd::prelude::*;

verus! {

/// The type of a note.
///
/// This includes a special note, which defines the end
/// of a drum roll. All drum rolls should be terminated with this note
/// (with the exception of the [SpecialRoll][NoteType::SpecialRoll], which can be terminated
/// with another [SpecialRoll][NoteType::SpecialRoll]).
#[derive(Debug, Clone, Copy, PartialEq, Eq, Hash, Structural)]
pub enum NoteType {
    Don,
    Kat,
    BigDon,
    BigKat,
    Roll,
    BigRoll,
    BalloonRoll,
    RollEnd,
    SpecialRoll,
    CoopDon,
    CoopKa,
}

impl DeepView for NoteType {
    type V = NoteType;

    open spec fn deep_view(&self) -> NoteType {
        *self
    }
}

/// The code of each note type in a chart: `1` to `9`, then `A` (10) and `B` (11).
pub open spec fn note_code(n: NoteType) -> nat {
    match n {
        NoteType::Don => 1,
        NoteType::Kat => 2,
        NoteType::BigDon => 3,
        NoteType::BigKat => 4,
        NoteType::Roll => 5,
        NoteType::BigRoll => 6,
        NoteType::BalloonRoll => 7,
        NoteType::RollEnd => 8,
        NoteType::SpecialRoll => 9,
        NoteType::CoopDon => 10,
        NoteType::CoopKa => 11,
    }
}

/// The note with the given code, if there is one.
pub open spec fn note_from_code(code: nat) -> Option<NoteType> {
    if code == 1 {
        Some(NoteType::Don)
    } else if code == 2 {
        Some(NoteType::Kat)
    } else if code == 3 {
        Some(NoteType::BigDon)
    } else if code == 4 {
        Some(NoteType::BigKat)
    } else if code == 5 {
        Some(NoteType::Roll)
    } else if code == 6 {
        Some(NoteType::BigRoll)
    } else if code == 7 {
        Some(NoteType::BalloonRoll)
    } else if code == 8 {
        Some(NoteType::RollEnd)
    } else if code == 9 {
        Some(NoteType::SpecialRoll)
    } else if code == 10 {
        Some(NoteType::CoopDon)
    } else if code == 11 {
        Some(NoteType::CoopKa)
    } else {
        None
    }
}

/// Every note type has a code, and the code gives the note type back.
pub proof fn lemma_note_code_round_trip(n: NoteType)
    ensures
        1 <= note_code(n) <= 11,
        note_from_code(note_code(n)) == Some(n),
{
}

/// Looks up the note with the given code.
pub fn note_type_from_code(code: u32) -> (n: Option<NoteType>)
    ensures
        n == note_from_code(code as nat),
{
    match code {
        1 => Some(NoteType::Don),
        2 => Some(NoteType::Kat),
        3 => Some(NoteType::BigDon),
        4 => Some(NoteType::BigKat),
        5 => Some(NoteType::Roll),
        6 => Some(NoteType::BigRoll),
        7 => Some(NoteType::BalloonRoll),
        8 => Some(NoteType::RollEnd),
        9 => Some(NoteType::SpecialRoll),
        10 => Some(NoteType::CoopDon),
        11 => Some(NoteType::CoopKa),
        _ => None,
    }
}

} // verus!
