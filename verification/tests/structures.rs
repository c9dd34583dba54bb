use tab_engine::music::{
    calculate_divisions_per_measure, calculate_fret, calculate_string_and_fret, notes_at,
    pitch_to_midi, place_note, Measure, Note, Pitch, VoiceState,
};

fn note(string: u8, fret: u8, duration: u32) -> Note {
    Note { string: Some(string), fret: Some(fret), duration, pitch: None }
}

#[test]
fn test_measure_creation() {
    let divisions_per_measure = 4;
    let measure = Measure::new(divisions_per_measure);

    assert_eq!(
        measure.positions.len(),
        divisions_per_measure,
        "Measure does not have the correct number of positions"
    );

    for position in measure.positions {
        assert!(
            position.is_empty(),
            "Position should be initialized as empty"
        );
    }
}

#[test]
fn test_calculate_string_and_fret() {
    let pitch = Pitch {
        step: 'E',
        alter: None,
        octave: 4,
    };

    let result = calculate_string_and_fret(&pitch);
    assert!(result.is_some(), "Failed to calculate string and fret");

    let (string, fret) = result.unwrap();
    assert_eq!(string, 1); // High E string
    assert_eq!(fret, 0); // Open string
}

#[test]
fn test_pitch_to_midi_values() {
    let e4 = Pitch { step: 'E', alter: None, octave: 4 };
    assert_eq!(pitch_to_midi(&e4), 52);
    let c0 = Pitch { step: 'C', alter: None, octave: 0 };
    assert_eq!(pitch_to_midi(&c0), 0);
    let b_flat3 = Pitch { step: 'B', alter: Some(-1), octave: 3 };
    assert_eq!(pitch_to_midi(&b_flat3), 46);
    let c_sharp2 = Pitch { step: 'C', alter: Some(1), octave: 2 };
    assert_eq!(pitch_to_midi(&c_sharp2), 25);
    // A pitch below C0 wraps around the sixteen-bit range.
    let c0_flat = Pitch { step: 'C', alter: Some(-1), octave: 0 };
    assert_eq!(pitch_to_midi(&c0_flat), 65535);
}

#[test]
fn test_calculate_fret_cases() {
    let open_e4 = Pitch { step: 'E', alter: None, octave: 4 };
    let g4 = Pitch { step: 'G', alter: None, octave: 4 };
    assert_eq!(calculate_fret(&open_e4, &g4), Some(3));
    // A note below the open string is not playable on it.
    let d4 = Pitch { step: 'D', alter: None, octave: 4 };
    assert_eq!(calculate_fret(&open_e4, &d4), None);
    // A note more than 24 frets up is out of reach.
    let g6 = Pitch { step: 'G', alter: None, octave: 6 };
    assert_eq!(calculate_fret(&open_e4, &g6), None);
    // Exactly 24 frets up is still playable.
    let e6 = Pitch { step: 'E', alter: None, octave: 6 };
    assert_eq!(calculate_fret(&open_e4, &e6), Some(24));
}

#[test]
fn test_string_preference_order() {
    // B3 is fret 0 on string 2, and would be fret 4 on string 3; the
    // higher-sounding string wins.
    let b3 = Pitch { step: 'B', alter: None, octave: 3 };
    assert_eq!(calculate_string_and_fret(&b3), Some((2, 0)));
    // A2 is the open fifth string.
    let a2 = Pitch { step: 'A', alter: None, octave: 2 };
    assert_eq!(calculate_string_and_fret(&a2), Some((5, 0)));
    // A pitch below low E fits no string.
    let c1 = Pitch { step: 'C', alter: None, octave: 1 };
    assert_eq!(calculate_string_and_fret(&c1), None);
}

#[test]
fn test_divisions_per_measure_formula() {
    // Three quarter-note beats at two divisions per quarter.
    assert_eq!(calculate_divisions_per_measure(3, 2, 4), 6);
    // Common time, one division per quarter.
    assert_eq!(calculate_divisions_per_measure(4, 1, 4), 4);
    // 6/8 at two divisions per quarter: 6 * 2 * 4 / 8.
    assert_eq!(calculate_divisions_per_measure(6, 2, 8), 6);
}

#[test]
fn test_place_note_advances_position() {
    let mut measure = Measure::new(4);
    let mut state = VoiceState {
        current_position: 0,
        prev_duration: 0,
        prev_is_chord: false,
        first_note: true,
    };
    place_note(&mut measure, &mut state, note(1, 0, 2), false);
    assert_eq!(state.current_position, 0);
    assert_eq!(measure.positions[0].len(), 1);

    // The next note starts after the first note's two divisions.
    place_note(&mut measure, &mut state, note(2, 1, 1), false);
    assert_eq!(state.current_position, 2);
    assert_eq!(measure.positions[2].len(), 1);

    // A chord note joins the same division.
    place_note(&mut measure, &mut state, note(3, 2, 1), true);
    assert_eq!(state.current_position, 3);
    place_note(&mut measure, &mut state, note(4, 2, 1), true);
    assert_eq!(state.current_position, 3);
    assert_eq!(measure.positions[3].len(), 2);
}

#[test]
fn test_place_note_deduplicates() {
    let mut measure = Measure::new(2);
    let mut state = VoiceState {
        current_position: 0,
        prev_duration: 0,
        prev_is_chord: false,
        first_note: true,
    };
    place_note(&mut measure, &mut state, note(1, 3, 1), false);
    place_note(&mut measure, &mut state, note(1, 3, 1), true);
    assert_eq!(measure.positions[0].len(), 1, "equal notes share one slot entry");
}

#[test]
fn test_place_note_grows_measure() {
    let mut measure = Measure::new(1);
    let mut state = VoiceState {
        current_position: 0,
        prev_duration: 0,
        prev_is_chord: false,
        first_note: true,
    };
    place_note(&mut measure, &mut state, note(1, 0, 5), false);
    place_note(&mut measure, &mut state, note(2, 0, 1), false);
    assert_eq!(state.current_position, 5);
    assert_eq!(measure.positions.len(), 6);
    assert_eq!(measure.positions[5].len(), 1);
}

#[test]
fn test_place_note_skips_unplayable() {
    let mut measure = Measure::new(2);
    let mut state = VoiceState {
        current_position: 0,
        prev_duration: 0,
        prev_is_chord: false,
        first_note: true,
    };
    let rest = Note { string: None, fret: None, duration: 1, pitch: None };
    place_note(&mut measure, &mut state, rest, false);
    assert!(measure.positions[0].is_empty());
    assert_eq!(state.prev_duration, 1);
}

#[test]
fn test_notes_at_returns_slot() {
    let mut measure = Measure::new(3);
    let mut state = VoiceState {
        current_position: 1,
        prev_duration: 0,
        prev_is_chord: false,
        first_note: true,
    };
    place_note(&mut measure, &mut state, note(6, 5, 1), false);
    let notes = notes_at(&measure, 1);
    assert_eq!(notes.len(), 1);
    assert_eq!(notes[0].string, Some(6));
    assert_eq!(notes[0].fret, Some(5));
    assert!(notes_at(&measure, 0).is_empty());
}
