use tab_engine::guitar::{GuitarConfig, GuitarType};
use tab_engine::music::Note;
use tab_engine::music::{Measure, Score, TimeSignature};
use tab_engine::renderer::{score_info, Renderer};

#[test]
fn test_renderer_holds_layout() {
    let renderer = Renderer::new(4, 2);
    assert_eq!(renderer.measures_per_row, 4);
    assert_eq!(renderer.dashes_per_division, 2);
}

#[test]
fn test_score_info_text() {
    let measures = (0..48).map(|_| Measure::new(6)).collect::<Vec<_>>();
    let score = Score {
        measures,
        time_signature: TimeSignature { beats_per_measure: 3, beat_value: 4 },
        tempo: 120,
        divisions_per_quarter: 2,
        divisions_per_measure: 6,
    };
    let info = score_info(&score);
    assert_eq!(
        info,
        "Time signature: 3/4\nTempo: 120\nDivisions per quarter note: 2\nDivisions per measure: 6\nNumber of measures: 48"
    );
}

#[test]
fn test_score_info_single_digits() {
    let score = Score {
        measures: vec![Measure::new(1)],
        time_signature: TimeSignature { beats_per_measure: 4, beat_value: 4 },
        tempo: 90,
        divisions_per_quarter: 1,
        divisions_per_measure: 1,
    };
    let info = score_info(&score);
    assert_eq!(
        info,
        "Time signature: 4/4\nTempo: 90\nDivisions per quarter note: 1\nDivisions per measure: 1\nNumber of measures: 1"
    );
}

#[test]
fn test_note_label() {
    let note = Note { string: Some(2), fret: Some(13), duration: 1, pitch: None };
    assert_eq!(note.label(), "String:2, Fret: 13");
}

#[test]
fn test_guitar_type_names() {
    assert_eq!(GuitarType::Custom.name_string(), "Custom");
    assert_eq!(GuitarType::Acoustic.name_string(), "Acoustic");
    assert_eq!(GuitarType::Classical.name_string(), "Classical");
    assert_eq!(GuitarType::Electric.name_string(), "Electric");
    assert_eq!(GuitarType::Bass.name_string(), "Bass");
    assert_eq!(GuitarType::TwelveString.name_string(), "Twelve string");
}

#[test]
fn test_guitar_presets() {
    let acoustic = GuitarConfig::acoustic();
    assert_eq!(acoustic.name, GuitarType::Acoustic);
    assert_eq!(acoustic.decay, 995_000);
    assert_eq!(acoustic.string_damping, 400_000);
    assert_eq!(acoustic.body_resonance, 150_000);
    assert_eq!(acoustic.body_damping, 200_000);
    assert_eq!(acoustic.string_tension, 800_000);
    assert_eq!(acoustic.scale_length, 25_500);
    assert_eq!(acoustic.capo_fret, 0);
    assert_eq!(acoustic.volume, 500_000);

    let electric = GuitarConfig::electric();
    assert_eq!(electric.decay, 999_000);
    assert_eq!(electric.body_resonance, 70_000);

    let classical = GuitarConfig::classical();
    assert_eq!(classical.string_tension, 500_000);
    assert_eq!(classical.scale_length, 25_600);

    let bass = GuitarConfig::bass_guitar();
    assert_eq!(bass.body_resonance, 0);
    assert_eq!(bass.scale_length, 34_000);

    let twelve = GuitarConfig::twelve_string();
    assert_eq!(twelve.decay, 994_000);
    assert_eq!(twelve.string_tension, 900_000);
}

#[test]
fn test_custom_config_clamps_capo() {
    let config = GuitarConfig::custom(996_000, 500_000, 100_000, 500_000, 700_000, 25_500, 30, 500_000);
    assert_eq!(config.capo_fret, 24);
    assert_eq!(config.name, GuitarType::Custom);
    let low = GuitarConfig::custom(996_000, 500_000, 100_000, 500_000, 700_000, 25_500, 7, 500_000);
    assert_eq!(low.capo_fret, 7);
}
