use tab_engine::chroma::{
    compare_chroma_similarity, generate_expected_chroma, normalize_chroma, note_pitch_class,
    peak_set_match, CHROMA_BINS,
};
use tab_engine::dtw::{compute_dtw_similarity, DistanceMetric, SimilarityMetric};
use tab_engine::fixed::UNIT;
use tab_engine::listener::{
    is_silent, normalize_signal, pre_emphasis, push_history, CaptureBuffer, FRAME_SIZE, HOP_SIZE,
};
use tab_engine::music::Note;

fn note(string: u8, fret: u8) -> Note {
    Note { string: Some(string), fret: Some(fret), duration: 1, pitch: None }
}

#[test]
fn test_expected_chroma_empty_is_zero() {
    let chroma = generate_expected_chroma(&vec![]);
    assert_eq!(chroma, vec![0u64; CHROMA_BINS]);
}

#[test]
fn test_expected_chroma_open_high_e() {
    // Open high E (string 1, fret 0) sounds at pitch class 4; harmonics
    // land on classes 4, 4, 11, 4 and 8 with weights 1, 1/2, 1/3, 1/4, 1/5.
    let chroma = generate_expected_chroma(&vec![note(1, 0)]);
    assert_eq!(chroma.len(), CHROMA_BINS);
    assert_eq!(chroma[4], 1_750_000);
    assert_eq!(chroma[11], 333_333);
    assert_eq!(chroma[8], 200_000);
    for (bin, value) in chroma.iter().enumerate() {
        if bin != 4 && bin != 11 && bin != 8 {
            assert_eq!(*value, 0);
        }
        if bin != 4 {
            assert!(*value < chroma[4], "bin 4 dominates");
        }
    }
}

#[test]
fn test_note_pitch_class_capo_and_clamp() {
    // Open low E is pitch class 4 as well (midi 40).
    assert_eq!(note_pitch_class(6, 0, 0), 4);
    // A capo shifts by one semitone per fret.
    assert_eq!(note_pitch_class(6, 0, 2), 6);
    // Fret plus capo clamps at 24: midi 40 + 24 = 64, class 4.
    assert_eq!(note_pitch_class(6, 30, 30), 4);
    // String 0 wraps to the low-E table entry.
    assert_eq!(note_pitch_class(0, 0, 0), 4);
}

#[test]
fn test_normalize_chroma_peak_becomes_one() {
    let mut chroma = vec![0u64, 250_000, 500_000, 0, 0, 0, 0, 0, 0, 0, 0, 125_000];
    normalize_chroma(&mut chroma);
    assert_eq!(chroma[2], UNIT);
    assert_eq!(chroma[1], 500_000);
    assert_eq!(chroma[11], 250_000);
    assert_eq!(chroma[0], 0);
    assert!(chroma.iter().all(|&c| c <= UNIT));
}

#[test]
fn test_normalize_chroma_zero_stays_zero() {
    let mut chroma = vec![0u64; CHROMA_BINS];
    normalize_chroma(&mut chroma);
    assert_eq!(chroma, vec![0u64; CHROMA_BINS]);
}

#[test]
fn test_peak_set_match_basic() {
    // Two expected peaks; the input's two strongest bins must cover them.
    let expected = vec![0u64, 900_000, 0, 600_000, 0, 0, 0, 0, 0, 0, 0, 0];
    let good = vec![100u64, 800_000, 200, 700_000, 0, 0, 0, 0, 0, 0, 0, 0];
    assert!(peak_set_match(&expected, &good));
    // Here bin 5 outranks bin 3, pushing one expected peak out of the top two.
    let bad = vec![100u64, 800_000, 200, 300_000, 0, 500_000, 0, 0, 0, 0, 0, 0];
    assert!(!peak_set_match(&expected, &bad));
}

#[test]
fn test_peak_set_match_breaks_ties_by_index() {
    // One expected peak at bin 2; bins 1 and 2 hold equal input energy,
    // so the earlier bin takes the single top slot and bin 2 misses it.
    let mut expected = vec![0u64; CHROMA_BINS];
    expected[2] = 700_000;
    let mut input = vec![0u64; CHROMA_BINS];
    input[1] = 400_000;
    input[2] = 400_000;
    assert!(!peak_set_match(&expected, &input));
    // With the peak expected at bin 1 instead, the same input matches.
    let mut expected_first = vec![0u64; CHROMA_BINS];
    expected_first[1] = 700_000;
    assert!(peak_set_match(&expected_first, &input));
}

#[test]
fn test_peak_set_match_vacuous_on_silence() {
    let expected = vec![0u64; CHROMA_BINS];
    let input = vec![123u64, 0, 0, 0, 0, 0, 0, 0, 0, 0, 0, 0];
    assert!(peak_set_match(&expected, &input));
}

#[test]
fn test_cosine_similarity_thresholds() {
    let a = vec![UNIT, 0, 0, 0, 0, 0, 0, 0, 0, 0, 0, 0];
    // A vector matches itself at any threshold up to one.
    assert!(compare_chroma_similarity(&a, &a, UNIT));
    // Orthogonal vectors never match a positive threshold.
    let b = vec![0u64, UNIT, 0, 0, 0, 0, 0, 0, 0, 0, 0, 0];
    assert!(!compare_chroma_similarity(&a, &b, 1));
    // A zero vector matches nothing, even at threshold zero.
    let zero = vec![0u64; CHROMA_BINS];
    assert!(!compare_chroma_similarity(&a, &zero, 0));
}

#[test]
fn test_cosine_similarity_mixed_vectors() {
    // cos = 1/sqrt(2) ~ 0.7071: above 0.70, below 0.71.
    let a = vec![UNIT, UNIT, 0, 0, 0, 0, 0, 0, 0, 0, 0, 0];
    let b = vec![UNIT, 0, 0, 0, 0, 0, 0, 0, 0, 0, 0, 0];
    assert!(compare_chroma_similarity(&a, &b, 700_000));
    assert!(!compare_chroma_similarity(&a, &b, 710_000));
}

#[test]
fn test_dtw_self_similarity_is_one() {
    let history = vec![
        vec![UNIT, 0, 0, 0, 0, 0, 0, 0, 0, 0, 0, 0],
        vec![0u64, 500_000, 0, 0, 0, 0, 0, 0, 0, 0, 0, 0],
    ];
    let same = history.clone();
    assert_eq!(
        compute_dtw_similarity(&history, &same, &DistanceMetric::Manhattan),
        UNIT
    );
    assert_eq!(
        compute_dtw_similarity(&history, &same, &DistanceMetric::Euclidean),
        UNIT
    );
    let metric = SimilarityMetric::Dtw;
    assert_eq!(
        metric.compute_similarity(&history, &same, &DistanceMetric::Euclidean),
        UNIT
    );
}

#[test]
fn test_dtw_empty_history_scores_zero() {
    let empty: Vec<Vec<u64>> = vec![];
    let history = vec![vec![UNIT; CHROMA_BINS]];
    assert_eq!(
        compute_dtw_similarity(&empty, &history, &DistanceMetric::Manhattan),
        0
    );
    assert_eq!(
        compute_dtw_similarity(&history, &empty, &DistanceMetric::Euclidean),
        0
    );
}

#[test]
fn test_dtw_distance_reciprocal() {
    // Two frames carrying one full-unit peak each against silence: the
    // best alignment costs two units, so the similarity is 1 / 2.0.
    let a = vec![
        vec![UNIT, 0, 0, 0, 0, 0, 0, 0, 0, 0, 0, 0],
        vec![UNIT, 0, 0, 0, 0, 0, 0, 0, 0, 0, 0, 0],
    ];
    let b = vec![vec![0u64; CHROMA_BINS], vec![0u64; CHROMA_BINS]];
    assert_eq!(
        compute_dtw_similarity(&a, &b, &DistanceMetric::Manhattan),
        500_000
    );
}

#[test]
fn test_normalize_signal_spans_full_range() {
    let signal = vec![0i64, 500_000, 1_000_000];
    let out = normalize_signal(&signal);
    assert_eq!(out, vec![-1_000_000i64, 0, 1_000_000]);
}

#[test]
fn test_normalize_signal_constant_is_silence() {
    let signal = vec![250_000i64; 8];
    let out = normalize_signal(&signal);
    assert_eq!(out, vec![0i64; 8]);
}

#[test]
fn test_silence_gate() {
    let quiet = vec![0i64; 64];
    assert!(is_silent(&quiet, 1_000));
    let loud = vec![900_000i64; 64];
    assert!(!is_silent(&loud, 1_000));
    // A threshold of zero gates nothing.
    assert!(!is_silent(&quiet, 0));
}

#[test]
fn test_pre_emphasis_values() {
    let signal = vec![1_000_000i64, 1_000_000, 0];
    let out = pre_emphasis(&signal, 970_000);
    assert_eq!(out[0], 1_000_000);
    assert_eq!(out[1], 30_000);
    assert_eq!(out[2], -970_000);
}

#[test]
fn test_capture_buffer_overlapping_frames() {
    let mut buffer = CaptureBuffer::new();
    let chunk = vec![7i64; 5000];
    buffer.extend(&chunk);
    let frame = buffer.next_frame(FRAME_SIZE, HOP_SIZE);
    assert!(frame.is_some());
    assert_eq!(frame.unwrap().len(), FRAME_SIZE);
    // Only the hop leaves the buffer; the overlap stays.
    assert_eq!(buffer.samples.len(), 5000 - HOP_SIZE);
    // Not enough for a second frame yet.
    assert!(buffer.next_frame(FRAME_SIZE, HOP_SIZE).is_none());
    assert_eq!(buffer.samples.len(), 5000 - HOP_SIZE);
}

#[test]
fn test_history_is_bounded() {
    let mut history: Vec<Vec<u64>> = Vec::new();
    for i in 0..105u64 {
        push_history(&mut history, vec![i; CHROMA_BINS], 100);
    }
    assert_eq!(history.len(), 100);
    // The five oldest frames fell out.
    assert_eq!(history[0][0], 5);
    assert_eq!(history[99][0], 104);
}
