//! The in-memory representation of a musical score: pitches, notes,
//! measures, and the integer pitch arithmetic that maps a written pitch to
//! a guitar string and fret.

use vstd::prelude::*;

verus! {

/// A spelled pitch: step letter (`A`..`G`), optional alteration
/// (-1 flat, +1 sharp), and octave number.
#[derive(Clone, Copy, Debug, PartialEq, Eq, Structural)]
pub struct Pitch {
    pub step: char,
    pub alter: Option<i8>,
    pub octave: u8,
}

/// One note of the score: the guitar string (1..=6) and fret it is played
/// on, its duration in divisions, and its spelled pitch when known.
#[derive(Clone, Copy, Debug, PartialEq, Eq, Structural)]
pub struct Note {
    pub string: Option<u8>,
    pub fret: Option<u8>,
    pub duration: u32,
    pub pitch: Option<Pitch>,
}

impl Note {
    /// The display label of a playable note.
    pub open spec fn spec_label(self) -> Seq<char>
        recommends
            self.string is Some,
            self.fret is Some,
    {
        "String:"@ + crate::renderer::spec_decimal(self.string->Some_0 as int) + ", Fret: "@
            + crate::renderer::spec_decimal(self.fret->Some_0 as int)
    }

    /// Spells out a playable note as "String:s, Fret: f".
    pub fn label(&self) -> (r: String)
        requires
            self.string is Some,
            self.fret is Some,
        ensures
            r@ == self.spec_label(),
    {
        let mut out = String::new();
        out.append("String:");
        match self.string {
            Some(s) => crate::renderer::push_decimal(&mut out, s as u64),
            None => {},
        }
        out.append(", Fret: ");
        match self.fret {
            Some(f) => crate::renderer::push_decimal(&mut out, f as u64),
            None => {},
        }
        proof {
            assert(out@ =~= self.spec_label());
        }
        out
    }
}

#[derive(Clone, Copy, Debug)]
pub struct TimeSignature {
    pub beats_per_measure: u8,
    pub beat_value: u8,
}

/// An ordered sequence of divisions; each division holds the set of notes
/// sounding together at that slot (a chord, a single note, or silence).
#[derive(Clone, Debug)]
pub struct Measure {
    pub positions: Vec<Vec<Note>>,
}

#[derive(Clone, Debug)]
pub struct Score {
    pub measures: Vec<Measure>,
    pub time_signature: TimeSignature,
    pub tempo: usize,
    pub divisions_per_quarter: u8,
    pub divisions_per_measure: u8,
}

/// Parsing state of one voice while notes are being placed into a measure.
pub struct VoiceState {
    pub current_position: usize,
    pub prev_duration: u32,
    pub prev_is_chord: bool,
    pub first_note: bool,
}

/// Semitone offset of a step letter within an octave; unknown letters map
/// to 0, as `C` does.
pub open spec fn spec_step_semitone(step: char) -> int {
    if step == 'C' {
        0
    } else if step == 'D' {
        2
    } else if step == 'E' {
        4
    } else if step == 'F' {
        5
    } else if step == 'G' {
        7
    } else if step == 'A' {
        9
    } else if step == 'B' {
        11
    } else {
        0
    }
}

/// The signed midi-style number of a pitch: twelve semitones per octave
/// plus the step's offset and the alteration.
pub open spec fn spec_pitch_midi(p: Pitch) -> int {
    p.octave * 12 + spec_step_semitone(p.step) + (match p.alter {
        Some(a) => a as int,
        None => 0int,
    })
}

/// `spec_pitch_midi` wrapped to sixteen unsigned bits, as the executable
/// conversion returns it (a negative value wraps around).
pub open spec fn spec_pitch_midi_u16(p: Pitch) -> int {
    if spec_pitch_midi(p) >= 0 {
        spec_pitch_midi(p)
    } else {
        spec_pitch_midi(p) + 0x10000
    }
}

fn step_to_semitone(step: char) -> (r: u8)
    ensures
        r == spec_step_semitone(step),
{
    match step {
        'C' => 0,
        'D' => 2,
        'E' => 4,
        'F' => 5,
        'G' => 7,
        'A' => 9,
        'B' => 11,
        _ => 0,
    }
}

/// Midi-style number of a pitch, wrapped to `u16`.
pub fn pitch_to_midi(pitch: &Pitch) -> (r: u16)
    ensures
        r == spec_pitch_midi_u16(*pitch),
{
    let alter: i32 = match pitch.alter {
        Some(a) => a as i32,
        None => 0,
    };
    let semitone: i32 = step_to_semitone(pitch.step) as i32 + alter;
    let midi: i32 = (pitch.octave as i32) * 12 + semitone;
    if midi >= 0 {
        midi as u16
    } else {
        (midi + 0x10000) as u16
    }
}

/// The fret at which `note_pitch` sounds on a string tuned to
/// `open_string_pitch`: the midi distance when it is between 0 and 24.
pub open spec fn spec_calculate_fret(open_string_pitch: Pitch, note_pitch: Pitch) -> Option<u8> {
    let open_midi = spec_pitch_midi_u16(open_string_pitch);
    let note_midi = spec_pitch_midi_u16(note_pitch);
    if note_midi >= open_midi && note_midi - open_midi <= 24 {
        Some((note_midi - open_midi) as u8)
    } else {
        None
    }
}

pub fn calculate_fret(open_string_pitch: &Pitch, note_pitch: &Pitch) -> (r: Option<u8>)
    ensures
        r == spec_calculate_fret(*open_string_pitch, *note_pitch),
{
    let open_midi = pitch_to_midi(open_string_pitch);
    let note_midi = pitch_to_midi(note_pitch);
    if note_midi >= open_midi {
        let fret = note_midi - open_midi;
        if fret <= 24 {
            Some(fret as u8)
        } else {
            None
        }
    } else {
        None
    }
}

/// The open-string pitch of string `i` (1 = high E .. 6 = low E) in
/// standard tuning.
pub open spec fn spec_open_string_pitch(i: int) -> Pitch {
    if i == 1 {
        Pitch { step: 'E', alter: None, octave: 4 }
    } else if i == 2 {
        Pitch { step: 'B', alter: None, octave: 3 }
    } else if i == 3 {
        Pitch { step: 'G', alter: None, octave: 3 }
    } else if i == 4 {
        Pitch { step: 'D', alter: None, octave: 3 }
    } else if i == 5 {
        Pitch { step: 'A', alter: None, octave: 2 }
    } else {
        Pitch { step: 'E', alter: None, octave: 2 }
    }
}

/// The first string, from the highest down, on which `p` is playable
/// within 24 frets, together with that fret.
pub open spec fn spec_string_fret_search(p: Pitch, i: int) -> Option<(u8, u8)>
    decreases 7 - i,
{
    if i > 6 {
        None
    } else {
        match spec_calculate_fret(spec_open_string_pitch(i), p) {
            Some(f) => Some((i as u8, f)),
            None => spec_string_fret_search(p, i + 1),
        }
    }
}

/// Finds a string and fret for a pitch in standard tuning, preferring the
/// highest-sounding string.
pub fn calculate_string_and_fret(pitch: &Pitch) -> (r: Option<(u8, u8)>)
    ensures
        r == spec_string_fret_search(*pitch, 1),
{
    let mut string: u8 = 1;
    while string <= 6
        invariant
            1 <= string <= 7,
            spec_string_fret_search(*pitch, 1) == spec_string_fret_search(*pitch, string as int),
        decreases 7 - string,
    {
        let open = open_string_pitch(string);
        let fret = calculate_fret(&open, pitch);
        match fret {
            Some(f) => {
                return Some((string, f));
            },
            None => {
                string = string + 1;
            },
        }
    }
    proof {
        assert(spec_string_fret_search(*pitch, 7) is None);
    }
    None
}

fn open_string_pitch(i: u8) -> (r: Pitch)
    requires
        1 <= i <= 6,
    ensures
        r == spec_open_string_pitch(i as int),
{
    if i == 1 {
        Pitch { step: 'E', alter: None, octave: 4 }
    } else if i == 2 {
        Pitch { step: 'B', alter: None, octave: 3 }
    } else if i == 3 {
        Pitch { step: 'G', alter: None, octave: 3 }
    } else if i == 4 {
        Pitch { step: 'D', alter: None, octave: 3 }
    } else if i == 5 {
        Pitch { step: 'A', alter: None, octave: 2 }
    } else {
        Pitch { step: 'E', alter: None, octave: 2 }
    }
}

/// How many divisions one measure holds:
/// `beats_per_measure * divisions_per_quarter * 4 / beat_value`.
pub fn calculate_divisions_per_measure(
    beats_per_measure: u8,
    divisions_per_quarter: u8,
    beat_value: u8,
) -> (r: usize)
    requires
        beat_value > 0,
    ensures
        r == beats_per_measure as int * divisions_per_quarter as int * 4 / beat_value as int,
{
    proof {
        assert(beats_per_measure as int * divisions_per_quarter as int <= 255 * 255)
            by (nonlinear_arith)
            requires
                beats_per_measure <= 255,
                divisions_per_quarter <= 255,
        ;
    }
    (beats_per_measure as usize) * (divisions_per_quarter as usize) * 4 / (beat_value as usize)
}

impl Measure {
    /// A measure of `total_divisions` divisions, each initially silent.
    pub fn new(total_divisions: usize) -> (r: Measure)
        ensures
            r.positions@.len() == total_divisions,
            forall|i: int| 0 <= i < total_divisions ==> #[trigger] r.positions@[i]@.len() == 0,
    {
        let mut positions: Vec<Vec<Note>> = Vec::new();
        let mut i: usize = 0;
        while i < total_divisions
            invariant
                i <= total_divisions,
                positions@.len() == i,
                forall|j: int| 0 <= j < i ==> #[trigger] positions@[j]@.len() == 0,
            decreases total_divisions - i,
        {
            positions.push(Vec::new());
            i = i + 1;
        }
        Measure { positions }
    }
}

/// The notes sounding at `division` of `measure`, as an owned list.
pub fn notes_at(measure: &Measure, division: usize) -> (r: Vec<Note>)
    requires
        division < measure.positions@.len(),
    ensures
        r@ == measure.positions@[division as int]@,
{
    let slot = &measure.positions[division];
    let mut out: Vec<Note> = Vec::new();
    let mut i: usize = 0;
    while i < slot.len()
        invariant
            i <= slot@.len(),
            out@ == slot@.subrange(0, i as int),
        decreases slot@.len() - i,
    {
        out.push(slot[i]);
        proof {
            assert(out@ =~= slot@.subrange(0, i as int + 1));
        }
        i = i + 1;
    }
    proof {
        assert(out@ =~= slot@);
    }
    out
}

/// The division that a note starting now falls into: the position advances
/// by the previous note's duration, except for the first note of the voice
/// and for a note continuing a chord.
pub open spec fn spec_next_position(state: VoiceState, is_chord: bool) -> int {
    if !state.first_note && (!state.prev_is_chord || !is_chord) {
        state.current_position + state.prev_duration
    } else {
        state.current_position as int
    }
}

/// Places one parsed note into a measure, advancing the voice's position.
///
/// The measure grows as needed; the note itself joins its division's set
/// only when it carries both a string and a fret, and only once.
pub fn place_note(measure: &mut Measure, state: &mut VoiceState, note: Note, is_chord: bool)
    requires
        old(state).current_position + old(state).prev_duration < usize::MAX,
    ensures
        final(state).current_position == spec_next_position(*old(state), is_chord),
        final(state).prev_duration == note.duration,
        final(state).prev_is_chord == is_chord,
        !final(state).first_note,
        final(measure).positions@.len() == if spec_next_position(*old(state), is_chord) + 1
            > old(measure).positions@.len() {
            spec_next_position(*old(state), is_chord) + 1
        } else {
            old(measure).positions@.len() as int
        },
        forall|i: int|
            0 <= i < old(measure).positions@.len() && i != spec_next_position(
                *old(state),
                is_chord,
            ) ==> final(measure).positions@[i] == #[trigger] old(measure).positions@[i],
        forall|i: int|
            old(measure).positions@.len() <= i < final(measure).positions@.len() && i
                != spec_next_position(*old(state), is_chord)
                ==> #[trigger] final(measure).positions@[i]@.len() == 0,
        ({
            let cp = spec_next_position(*old(state), is_chord);
            let old_slot: Seq<Note> = if cp < old(measure).positions@.len() {
                old(measure).positions@[cp]@
            } else {
                Seq::<Note>::empty()
            };
            final(measure).positions@[cp]@ == if note.string is Some && note.fret is Some
                && !old_slot.contains(note) {
                old_slot.push(note)
            } else {
                old_slot
            }
        }),
{
    if !state.first_note {
        if !state.prev_is_chord || !is_chord {
            state.current_position = state.current_position + state.prev_duration as usize;
        }
    }
    let cp = state.current_position;
    while measure.positions.len() < cp + 1
        invariant
            measure.positions@.len() >= old(measure).positions@.len(),
            measure.positions@.len() <= cp + 1 || measure.positions@.len() == old(
                measure,
            ).positions@.len(),
            cp + 1 <= usize::MAX,
            forall|i: int|
                0 <= i < old(measure).positions@.len() ==> measure.positions@[i]
                    == #[trigger] old(measure).positions@[i],
            forall|i: int|
                old(measure).positions@.len() <= i < measure.positions@.len()
                    ==> #[trigger] measure.positions@[i]@.len() == 0,
        decreases cp + 1 - measure.positions@.len(),
    {
        measure.positions.push(Vec::new());
    }
    if note.string.is_some() && note.fret.is_some() {
        let ghost slot0: Seq<Note> = measure.positions@[cp as int]@;
        let mut updated = notes_at(measure, cp);
        let mut present = false;
        let mut i: usize = 0;
        while i < updated.len()
            invariant
                i <= updated@.len(),
                updated@ == slot0,
                present == slot0.subrange(0, i as int).contains(note),
            decreases updated@.len() - i,
        {
            if updated[i] == note {
                present = true;
            }
            proof {
                assert(slot0.subrange(0, i as int + 1).drop_last() =~= slot0.subrange(0, i as int));
                assert(slot0.subrange(0, i as int + 1).last() == slot0[i as int]);
                if slot0.subrange(0, i as int).contains(note) || slot0[i as int] == note {
                    assert(slot0.subrange(0, i as int + 1).contains(note)) by {
                        if slot0[i as int] == note {
                            assert(slot0.subrange(0, i as int + 1)[i as int] == note);
                        } else {
                            let k = choose|k: int|
                                0 <= k < i && slot0.subrange(0, i as int)[k] == note;
                            assert(slot0.subrange(0, i as int + 1)[k] == note);
                        }
                    }
                } else {
                    assert(!slot0.subrange(0, i as int + 1).contains(note)) by {
                        if slot0.subrange(0, i as int + 1).contains(note) {
                            let k = choose|k: int|
                                0 <= k < i + 1 && #[trigger] slot0.subrange(0, i as int + 1)[k]
                                    == note;
                            if k < i {
                                assert(slot0.subrange(0, i as int)[k] == note);
                            }
                        }
                    }
                }
            }
            i = i + 1;
        }
        proof {
            assert(slot0.subrange(0, slot0.len() as int) =~= slot0);
        }
        if !present {
            updated.push(note);
        }
        measure.positions.set(cp, updated);
    }
    state.first_note = false;
    state.prev_duration = note.duration;
    state.prev_is_chord = is_chord;
}

} // verus!
