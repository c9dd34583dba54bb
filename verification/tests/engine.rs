use tab_engine::fixed::UNIT;
use tab_engine::guitar::GuitarConfig;
use tab_engine::music::{Measure, Note, Score, TimeSignature, VoiceState};
use tab_engine::music::place_note;
use tab_engine::scrubber::{ExpectedNotes, TimeScrubber};
use tab_engine::synth::{mix_next_sample, KarplusStrong};

fn test_score(tempo: usize, dpq: u8, dpm: u8, measures: usize) -> Score {
    let mut ms = Vec::new();
    for _ in 0..measures {
        let mut measure = Measure::new(dpm as usize);
        let mut state = VoiceState {
            current_position: 0,
            prev_duration: 0,
            prev_is_chord: false,
            first_note: true,
        };
        let note = Note { string: Some(1), fret: Some(0), duration: 1, pitch: None };
        place_note(&mut measure, &mut state, note, false);
        ms.push(measure);
    }
    Score {
        measures: ms,
        time_signature: TimeSignature { beats_per_measure: 4, beat_value: 4 },
        tempo,
        divisions_per_quarter: dpq,
        divisions_per_measure: dpm,
    }
}

#[test]
fn test_time_scrubber_initialization() {
    // Tempo 120 at one division per quarter: half a second per division,
    // four measures of four divisions: eight seconds in all.
    let score = test_score(120, 1, 4, 4);
    let time_scrubber = TimeScrubber::new(&score, None);

    assert_eq!(time_scrubber.tempo, 120);
    assert!(time_scrubber.total_duration_nanos.is_some());
    assert_eq!(time_scrubber.total_duration_nanos.unwrap(), 8_000_000_000);
}

#[test]
fn test_calculate_current_time() {
    let score = test_score(120, 1, 4, 4);
    let time_scrubber = TimeScrubber::new(&score, None);

    // Elapsed time at 0 seconds.
    let (measure_idx, division_idx) =
        time_scrubber.calculate_current_time(0, 4, score.measures.len());
    assert_eq!(measure_idx, 0);
    assert_eq!(division_idx, 0);

    // Elapsed time at 2 seconds.
    let (measure_idx, division_idx) =
        time_scrubber.calculate_current_time(2_000_000_000, 4, score.measures.len());
    assert_eq!(measure_idx, 1);
    assert_eq!(division_idx, 0);

    // Elapsed time at 7.5 seconds.
    let (measure_idx, division_idx) =
        time_scrubber.calculate_current_time(7_500_000_000, 4, score.measures.len());
    assert_eq!(measure_idx, 3);
    assert_eq!(division_idx, 3);
}

#[test]
fn test_scheduler_division_grid() {
    // Tempo 120 with two divisions per quarter: a division lasts 0.25 s,
    // a measure of eight divisions lasts 2 s.
    let score = test_score(120, 2, 8, 2);
    let scrubber = TimeScrubber::new(&score, None);
    assert_eq!(scrubber.total_duration_nanos.unwrap(), 4_000_000_000);

    assert_eq!(scrubber.calculate_current_time(0, 8, 2), (0, 0));
    assert_eq!(scrubber.calculate_current_time(2_000_000_000, 8, 2), (1, 0));
    // Beyond the score the measure clamps to the last one.
    assert_eq!(scrubber.calculate_current_time(9_000_000_000, 8, 2), (1, 4));
    assert!(scrubber.finished(4_000_000_000));
    assert!(!scrubber.finished(3_999_999_999));
}

#[test]
fn test_custom_tempo_override() {
    let score = test_score(120, 2, 8, 2);
    let scrubber = TimeScrubber::new(&score, Some(60));
    assert_eq!(scrubber.tempo, 60);
    // Half tempo, double duration.
    assert_eq!(scrubber.total_duration_nanos.unwrap(), 8_000_000_000);
}

#[test]
fn test_tick_dispatches_on_change() {
    let score = test_score(120, 2, 8, 2);
    let mut scrubber = TimeScrubber::new(&score, None);
    scrubber.start();
    // Entering the first division.
    assert_eq!(scrubber.tick(&score, 0), Some((0, 0)));
    // Polling again within the same division dispatches nothing.
    assert_eq!(scrubber.tick(&score, 100_000_000), None);
    // The next division begins 0.25 s in.
    assert_eq!(scrubber.tick(&score, 250_000_000), Some((0, 1)));
    // Past the end nothing is dispatched.
    assert_eq!(scrubber.tick(&score, 4_000_000_000), None);
}

#[test]
fn test_stop_resets_position_and_restart_begins_at_origin() {
    let score = test_score(120, 2, 8, 2);
    let mut scrubber = TimeScrubber::new(&score, None);
    let mut expected = ExpectedNotes::new();
    scrubber.start();
    scrubber.tick(&score, 1_300_000_000);
    assert!(scrubber.current_measure.is_some());
    expected.publish(vec![Note { string: Some(1), fret: Some(0), duration: 1, pitch: None }]);
    assert!(!expected.matched);

    // Stopping mid-measure discards the position and the expected notes.
    scrubber.stop();
    expected.clear();
    assert!(scrubber.start_time.is_none());
    assert!(scrubber.current_measure.is_none());
    assert!(scrubber.current_division.is_none());
    assert!(expected.notes.is_none());
    assert_eq!(scrubber.elapsed(), 0);

    // A later start begins again at the first division of the first measure.
    scrubber.start();
    assert_eq!(scrubber.tick(&score, 0), Some((0, 0)));
}

#[test]
fn test_expected_notes_swap_clears_flag() {
    let mut expected = ExpectedNotes::new();
    assert!(expected.matched);
    expected.publish(vec![]);
    assert!(!expected.matched);
    expected.mark_matched();
    assert!(expected.matched);
    expected.publish(vec![]);
    assert!(!expected.matched, "a new note set always lowers the flag");
}

#[test]
fn test_voice_delay_line_and_duration() {
    // 440 Hz at 44100 Hz: ceil(44100 / 440) = 101 delay samples;
    // half a second: round(0.5 * 44100) = 22050 samples to produce.
    let config = GuitarConfig::acoustic();
    let mut voice = KarplusStrong::new(440_000, 500, 44_100, &config);
    assert_eq!(voice.buffer.len(), 101);
    assert_eq!(voice.remaining_samples, 22_050);
    assert_eq!(voice.position, 0);

    let body_sin = 21_362;  // sin(2*pi*150/44100) in micro-units
    let data = voice.generate_audio_data(&config, body_sin);
    assert_eq!(data.len(), 22_050);
    assert_eq!(voice.remaining_samples, 0);
    assert!(voice.next_sample(&config, body_sin).is_none());
    assert!(data.iter().all(|&s| -1_000_000 <= s && s <= 1_000_000));
}

#[test]
fn test_voice_delay_line_exact_division() {
    // 100 Hz at 48000 Hz divides evenly: exactly 480 samples.
    let config = GuitarConfig::classical();
    let voice = KarplusStrong::new(100_000, 10, 48_000, &config);
    assert_eq!(voice.buffer.len(), 480);
    assert_eq!(voice.remaining_samples, 480);
}

#[test]
fn test_mix_is_always_within_unit_range() {
    // Extreme settings: no decay loss, full tension, full volume, and a
    // crowd of voices; the mixed sample still stays within [-1, 1].
    let config = GuitarConfig::custom(
        1_000_000, 0, 500_000_000, 0, 1_000_000, 25_500, 0, 1_000_000,
    );
    let mut voices = Vec::new();
    for _ in 0..24 {
        voices.push(KarplusStrong::new(82_410, 100, 44_100, &config));
    }
    let mut samples = Vec::new();
    for _ in 0..256 {
        samples.push(mix_next_sample(&mut voices, &config, 1_000_000));
    }
    assert!(samples.iter().all(|&s| -1_000_000 <= s && s <= 1_000_000));
    assert_eq!(voices.len(), 24, "all voices still sounding");

    // The opposite extreme: everything damped to the hilt.
    let damped = GuitarConfig::custom(0, 1_000_000, 0, 1_000_000, 0, 10_000, 24, 1_000_000);
    let mut quiet_voices = vec![KarplusStrong::new(1, 10, 1, &damped)];
    let s = mix_next_sample(&mut quiet_voices, &damped, -1_000_000);
    assert!(-1_000_000 <= s && s <= 1_000_000);
}

#[test]
fn test_mix_drops_spent_voices() {
    let config = GuitarConfig::electric();
    let mut voices = vec![
        // One sample of life, then the voice leaves the pool.
        KarplusStrong::new(440_000, 0, 44_100, &config),
        KarplusStrong::new(440_000, 1_000, 44_100, &config),
    ];
    // round(0 ms * 44100) = 0: the first voice is born spent.
    mix_next_sample(&mut voices, &config, 21_362);
    assert_eq!(voices.len(), 1);
}
