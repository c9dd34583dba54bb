//! Chroma features and similarity verdicts: the expected twelve-bin pitch
//! -class histogram of a note set, peak normalization, peak-set
//! containment matching, and cosine-similarity matching.
//!
//! Energies are micro-unit integers (`fixed::UNIT` is 1.0). A note's
//! energy spreads over harmonics one to five with weight `1/harmonic`;
//! harmonic `h` of a pitch lies `round(12*log2(h))` semitones above it,
//! which for these harmonics is 0, 12, 19, 24 and 28 semitones.

use crate::fixed::UNIT;
use crate::music::Note;
use vstd::prelude::*;

verus! {

pub const CHROMA_BINS: usize = 12;

/// Index into the open-string table for a string number; out-of-range
/// numbers fall to the lowest string, and 0 wraps there as well.
pub open spec fn spec_string_index(s: int) -> int {
    if s == 0 {
        5
    } else if s - 1 < 5 {
        s - 1
    } else {
        5
    }
}

/// Midi number of the open string at table index `idx` in standard
/// tuning (high E down to low E).
pub open spec fn spec_open_string_midi(idx: int) -> int {
    if idx == 0 {
        64
    } else if idx == 1 {
        59
    } else if idx == 2 {
        55
    } else if idx == 3 {
        50
    } else if idx == 4 {
        45
    } else {
        40
    }
}

/// The fret sounding after the capo is applied, clamped to 24.
pub open spec fn spec_effective_fret(fret: int, capo: int) -> int {
    if fret + capo > 24 {
        24
    } else {
        fret + capo
    }
}

/// Pitch class (0..12) of a note played at `fret` on `string` with a capo.
pub open spec fn spec_note_pitch_class(string: int, fret: int, capo: int) -> int {
    (spec_open_string_midi(spec_string_index(string)) + spec_effective_fret(fret, capo)) % 12
}

pub fn note_pitch_class(string: u8, fret: u8, capo: u8) -> (r: u8)
    ensures
        r == spec_note_pitch_class(string as int, fret as int, capo as int),
        r < 12,
{
    let idx: u8 = if string == 0 {
        5
    } else if string - 1 < 5 {
        string - 1
    } else {
        5
    };
    let open_midi: u16 = if idx == 0 {
        64
    } else if idx == 1 {
        59
    } else if idx == 2 {
        55
    } else if idx == 3 {
        50
    } else if idx == 4 {
        45
    } else {
        40
    };
    let sum: u16 = fret as u16 + capo as u16;
    let effective: u16 = if sum > 24 {
        24
    } else {
        sum
    };
    ((open_midi + effective) % 12) as u8
}

/// Energy that the five harmonics of pitch class `pc` put into `bin`.
pub open spec fn spec_harmonics_contrib(pc: int, bin: int) -> int {
    (if (pc + 0) % 12 == bin {
        1_000_000int
    } else {
        0int
    }) + (if (pc + 12) % 12 == bin {
        500_000int
    } else {
        0int
    }) + (if (pc + 19) % 12 == bin {
        333_333int
    } else {
        0int
    }) + (if (pc + 24) % 12 == bin {
        250_000int
    } else {
        0int
    }) + (if (pc + 28) % 12 == bin {
        200_000int
    } else {
        0int
    })
}

/// Energy a single note puts into `bin`: nothing unless the note carries
/// both a string and a fret. The expected path plays at standard scale
/// length with no capo.
pub open spec fn spec_note_contrib(note: Note, bin: int) -> int {
    match (note.string, note.fret) {
        (Some(s), Some(f)) => spec_harmonics_contrib(
            spec_note_pitch_class(s as int, f as int, 0),
            bin,
        ),
        _ => 0,
    }
}

/// Bin `bin` of the chroma histogram that a whole note set produces.
pub open spec fn spec_expected_chroma(notes: Seq<Note>, bin: int) -> int
    decreases notes.len(),
{
    if notes.len() == 0 {
        0
    } else {
        spec_expected_chroma(notes.drop_last(), bin) + spec_note_contrib(notes.last(), bin)
    }
}

proof fn lemma_note_contrib_bounds(note: Note, bin: int)
    ensures
        0 <= spec_note_contrib(note, bin) <= 2_283_333,
{
}

proof fn lemma_expected_chroma_bounds(notes: Seq<Note>, bin: int)
    ensures
        0 <= spec_expected_chroma(notes, bin) <= 2_283_333 * notes.len(),
    decreases notes.len(),
{
    if notes.len() > 0 {
        lemma_expected_chroma_bounds(notes.drop_last(), bin);
        lemma_note_contrib_bounds(notes.last(), bin);
    }
}

/// Adds one note's harmonic energies into a twelve-bin histogram.
fn add_note_contrib(chroma: &mut Vec<u64>, note: Note)
    requires
        old(chroma)@.len() == 12,
        forall|b: int| 0 <= b < 12 ==> #[trigger] old(chroma)@[b] <= u64::MAX - 2_283_333,
    ensures
        final(chroma)@.len() == 12,
        forall|b: int|
            0 <= b < 12 ==> #[trigger] final(chroma)@[b] == old(chroma)@[b] + spec_note_contrib(
                note,
                b,
            ),
{
    let (string, fret) = match (note.string, note.fret) {
        (Some(s), Some(f)) => (s, f),
        _ => {
            return ;
        },
    };
    let pc = note_pitch_class(string, fret, 0);
    let b0: usize = (pc as usize + 0) % 12;
    let b1: usize = (pc as usize + 12) % 12;
    let b2: usize = (pc as usize + 19) % 12;
    let b3: usize = (pc as usize + 24) % 12;
    let b4: usize = (pc as usize + 28) % 12;
    let v0 = chroma[b0];
    chroma.set(b0, v0 + 1_000_000);
    let v1 = chroma[b1];
    chroma.set(b1, v1 + 500_000);
    let v2 = chroma[b2];
    chroma.set(b2, v2 + 333_333);
    let v3 = chroma[b3];
    chroma.set(b3, v3 + 250_000);
    let v4 = chroma[b4];
    chroma.set(b4, v4 + 200_000);
}

/// The expected chroma vector of a note set, built analytically: each
/// playable note's pitch class spreads over harmonics one to five with
/// weight `1/harmonic`. An empty note set yields the zero vector.
pub fn generate_expected_chroma(notes: &Vec<Note>) -> (r: Vec<u64>)
    requires
        notes@.len() <= 0x100000,
    ensures
        r@.len() == 12,
        forall|b: int| 0 <= b < 12 ==> #[trigger] r@[b] == spec_expected_chroma(notes@, b),
{
    let mut chroma: Vec<u64> = Vec::new();
    let mut i: usize = 0;
    while i < 12
        invariant
            i <= 12,
            chroma@.len() == i,
            forall|b: int| 0 <= b < i ==> #[trigger] chroma@[b] == 0,
        decreases 12 - i,
    {
        chroma.push(0);
        i = i + 1;
    }
    let mut n: usize = 0;
    while n < notes.len()
        invariant
            n <= notes@.len(),
            notes@.len() <= 0x100000,
            chroma@.len() == 12,
            forall|b: int|
                0 <= b < 12 ==> #[trigger] chroma@[b] == spec_expected_chroma(
                    notes@.take(n as int),
                    b,
                ),
        decreases notes@.len() - n,
    {
        proof {
            assert forall|b: int| 0 <= b < 12 implies #[trigger] chroma@[b] <= u64::MAX
                - 2_283_333 by {
                lemma_expected_chroma_bounds(notes@.take(n as int), b);
                assert(2_283_333 * notes@.take(n as int).len() <= 2_283_333 * 0x100000)
                    by (nonlinear_arith)
                    requires
                        notes@.take(n as int).len() <= 0x100000,
                ;
            }
        }
        add_note_contrib(&mut chroma, notes[n]);
        proof {
            assert(notes@.take(n as int + 1).drop_last() =~= notes@.take(n as int));
            assert(notes@.take(n as int + 1).last() == notes@[n as int]);
        }
        n = n + 1;
    }
    proof {
        assert(notes@.take(notes@.len() as int) =~= notes@);
    }
    chroma
}

/// The largest element of a sequence of energies (zero when empty).
pub open spec fn spec_max_energy(s: Seq<u64>) -> int
    decreases s.len(),
{
    if s.len() == 0 {
        0
    } else if s.last() >= spec_max_energy(s.drop_last()) {
        s.last() as int
    } else {
        spec_max_energy(s.drop_last())
    }
}

/// A nonempty vector attains its maximum at some bin; together with
/// `normalize_chroma`'s contract, some bin of a normalized nonzero vector
/// therefore holds exactly one.
pub proof fn lemma_max_energy_achieved(s: Seq<u64>)
    requires
        s.len() > 0,
    ensures
        exists|i: int| 0 <= i < s.len() && s[i] == spec_max_energy(s),
    decreases s.len(),
{
    if s.len() == 1 {
        assert(s.drop_last().len() == 0);
        assert(spec_max_energy(s.drop_last()) == 0);
        assert(s[0] == spec_max_energy(s));
    } else if s.last() >= spec_max_energy(s.drop_last()) {
        assert(s[s.len() - 1] == spec_max_energy(s));
    } else {
        lemma_max_energy_achieved(s.drop_last());
        let i = choose|i: int|
            0 <= i < s.drop_last().len() && s.drop_last()[i] == spec_max_energy(s.drop_last());
        assert(s[i] == spec_max_energy(s));
    }
}

proof fn lemma_max_energy_ge(s: Seq<u64>, i: int)
    requires
        0 <= i < s.len(),
    ensures
        s[i] <= spec_max_energy(s),
        spec_max_energy(s) >= 0,
    decreases s.len(),
{
    if i == s.len() - 1 {
    } else {
        lemma_max_energy_ge(s.drop_last(), i);
    }
}

/// Peak normalization: every bin is scaled so that the largest becomes
/// exactly one (`UNIT`); a zero vector is returned unchanged, so the
/// operation is total and never divides by zero.
pub fn normalize_chroma(chroma: &mut Vec<u64>)
    ensures
        final(chroma)@.len() == old(chroma)@.len(),
        spec_max_energy(old(chroma)@) == 0 ==> final(chroma)@ == old(chroma)@,
        spec_max_energy(old(chroma)@) > 0 ==> {
            let m = spec_max_energy(old(chroma)@);
            forall|i: int|
                0 <= i < final(chroma)@.len() ==> #[trigger] final(chroma)@[i] == old(
                    chroma,
                )@[i] * (UNIT as int) / m
        },
        spec_max_energy(old(chroma)@) > 0 ==> forall|i: int|
            0 <= i < final(chroma)@.len() ==> #[trigger] final(chroma)@[i] <= UNIT,
        spec_max_energy(old(chroma)@) > 0 ==> forall|i: int|
            0 <= i < final(chroma)@.len() && old(chroma)@[i] == spec_max_energy(old(chroma)@)
                ==> #[trigger] final(chroma)@[i] == UNIT,
{
    let ghost orig: Seq<u64> = chroma@;
    let mut max: u64 = 0;
    let mut i: usize = 0;
    while i < chroma.len()
        invariant
            i <= chroma@.len(),
            chroma@ == orig,
            max == spec_max_energy(orig.take(i as int)),
        decreases chroma@.len() - i,
    {
        proof {
            assert(orig.take(i as int + 1).drop_last() =~= orig.take(i as int));
            assert(orig.take(i as int + 1).last() == orig[i as int]);
        }
        if chroma[i] > max {
            max = chroma[i];
        }
        i = i + 1;
    }
    proof {
        assert(orig.take(orig.len() as int) =~= orig);
    }
    if max == 0 {
        return ;
    }
    let mut j: usize = 0;
    while j < chroma.len()
        invariant
            j <= chroma@.len(),
            chroma@.len() == orig.len(),
            max == spec_max_energy(orig),
            max > 0,
            forall|k: int| j <= k < orig.len() ==> #[trigger] chroma@[k] == orig[k],
            forall|k: int|
                0 <= k < j ==> #[trigger] chroma@[k] == orig[k] * (UNIT as int) / (max as int),
            forall|k: int| 0 <= k < j ==> #[trigger] chroma@[k] <= UNIT,
            forall|k: int|
                0 <= k < j && orig[k] == max as int ==> #[trigger] chroma@[k] == UNIT,
        decreases chroma@.len() - j,
    {
        let v: u64 = chroma[j];
        proof {
            lemma_max_energy_ge(orig, j as int);
            assert((v as int) * (UNIT as int) / (max as int) <= UNIT as int) by (nonlinear_arith)
                requires
                    0 <= v <= max,
                    max > 0,
                    UNIT == 1_000_000u64,
            ;
            assert(v == max ==> (v as int) * (UNIT as int) / (max as int) == UNIT as int)
                by (nonlinear_arith)
                requires
                    max > 0,
            ;
        }
        let scaled: u64 = ((v as u128) * (UNIT as u128) / (max as u128)) as u64;
        chroma.set(j, scaled);
        j = j + 1;
    }
}

/// How many bins hold any energy at all.
pub open spec fn spec_count_nonzero(s: Seq<u64>) -> int
    decreases s.len(),
{
    if s.len() == 0 {
        0
    } else {
        spec_count_nonzero(s.drop_last()) + if s.last() > 0 {
            1int
        } else {
            0int
        }
    }
}

/// How many elements exceed `v`.
pub open spec fn spec_count_gt(s: Seq<u64>, v: u64) -> int
    decreases s.len(),
{
    if s.len() == 0 {
        0
    } else {
        spec_count_gt(s.drop_last(), v) + if s.last() > v {
            1int
        } else {
            0int
        }
    }
}

/// How many elements equal `v`.
pub open spec fn spec_count_eq(s: Seq<u64>, v: u64) -> int
    decreases s.len(),
{
    if s.len() == 0 {
        0
    } else {
        spec_count_eq(s.drop_last(), v) + if s.last() == v {
            1int
        } else {
            0int
        }
    }
}

/// The descending rank of index `i` in `s`: elements strictly larger come
/// first, and among equal elements the earlier index wins.
pub open spec fn spec_rank(s: Seq<u64>, i: int) -> int {
    spec_count_gt(s, s[i]) + spec_count_eq(s.take(i), s[i])
}

/// Index `i` is one of the `k` strongest bins of `s`.
pub open spec fn spec_in_top_k(s: Seq<u64>, i: int, k: int) -> bool {
    spec_rank(s, i) < k
}

/// Peak-set containment: every sounding bin of the expected vector has to
/// rank among the strongest `k` input bins, where `k` counts the sounding
/// expected bins. When no expected bin sounds, anything matches.
pub open spec fn spec_peak_set_match(expected: Seq<u64>, input: Seq<u64>) -> bool {
    forall|i: int|
        0 <= i < expected.len() && expected[i] > 0 ==> spec_in_top_k(
            input,
            i,
            spec_count_nonzero(expected),
        )
}

fn count_nonzero(v: &Vec<u64>) -> (r: usize)
    ensures
        r == spec_count_nonzero(v@),
{
    let mut count: usize = 0;
    let mut i: usize = 0;
    while i < v.len()
        invariant
            i <= v@.len(),
            count == spec_count_nonzero(v@.take(i as int)),
            count <= i,
        decreases v@.len() - i,
    {
        proof {
            assert(v@.take(i as int + 1).drop_last() =~= v@.take(i as int));
            assert(v@.take(i as int + 1).last() == v@[i as int]);
        }
        if v[i] > 0 {
            count = count + 1;
        }
        i = i + 1;
    }
    proof {
        assert(v@.take(v@.len() as int) =~= v@);
    }
    count
}

fn count_gt(v: &Vec<u64>, x: u64) -> (r: usize)
    ensures
        r == spec_count_gt(v@, x),
{
    let mut count: usize = 0;
    let mut i: usize = 0;
    while i < v.len()
        invariant
            i <= v@.len(),
            count == spec_count_gt(v@.take(i as int), x),
            count <= i,
        decreases v@.len() - i,
    {
        proof {
            assert(v@.take(i as int + 1).drop_last() =~= v@.take(i as int));
            assert(v@.take(i as int + 1).last() == v@[i as int]);
        }
        if v[i] > x {
            count = count + 1;
        }
        i = i + 1;
    }
    proof {
        assert(v@.take(v@.len() as int) =~= v@);
    }
    count
}

fn count_eq_prefix(v: &Vec<u64>, x: u64, upto: usize) -> (r: usize)
    requires
        upto <= v@.len(),
    ensures
        r == spec_count_eq(v@.take(upto as int), x),
{
    let mut count: usize = 0;
    let mut i: usize = 0;
    while i < upto
        invariant
            i <= upto <= v@.len(),
            count == spec_count_eq(v@.take(i as int), x),
            count <= i,
        decreases upto - i,
    {
        proof {
            assert(v@.take(i as int + 1).drop_last() =~= v@.take(i as int));
            assert(v@.take(i as int + 1).last() == v@[i as int]);
        }
        if v[i] == x {
            count = count + 1;
        }
        i = i + 1;
    }
    count
}

/// Peak-set containment: true exactly when every nonzero bin of
/// `expected` ranks among the top `k` bins of `input`, `k` being the
/// number of nonzero expected bins; vacuously true when `expected` is all
/// zero.
pub fn peak_set_match(expected: &Vec<u64>, input: &Vec<u64>) -> (r: bool)
    requires
        expected@.len() == input@.len(),
    ensures
        r == spec_peak_set_match(expected@, input@),
{
    let k = count_nonzero(expected);
    let mut i: usize = 0;
    while i < expected.len()
        invariant
            i <= expected@.len(),
            expected@.len() == input@.len(),
            k == spec_count_nonzero(expected@),
            forall|j: int|
                0 <= j < i && expected@[j] > 0 ==> spec_in_top_k(
                    input@,
                    j,
                    spec_count_nonzero(expected@),
                ),
        decreases expected@.len() - i,
    {
        if expected[i] > 0 {
            let gt = count_gt(input, input[i]);
            let eq_before = count_eq_prefix(input, input[i], i);
            proof {
                assert(spec_count_gt(input@, input@[i as int]) <= input@.len()) by {
                    lemma_count_gt_le_len(input@, input@[i as int]);
                }
                lemma_count_eq_le_len(input@.take(i as int), input@[i as int]);
            }
            if gt >= k || k - gt <= eq_before {
                proof {
                    assert(spec_rank(input@, i as int) == gt + eq_before);
                    assert(!spec_in_top_k(input@, i as int, spec_count_nonzero(expected@)));
                }
                return false;
            }
        }
        i = i + 1;
    }
    true
}

proof fn lemma_count_gt_le_len(s: Seq<u64>, v: u64)
    ensures
        0 <= spec_count_gt(s, v) <= s.len(),
    decreases s.len(),
{
    if s.len() > 0 {
        lemma_count_gt_le_len(s.drop_last(), v);
    }
}

proof fn lemma_count_eq_le_len(s: Seq<u64>, v: u64)
    ensures
        0 <= spec_count_eq(s, v) <= s.len(),
    decreases s.len(),
{
    if s.len() > 0 {
        lemma_count_eq_le_len(s.drop_last(), v);
    }
}

/// Dot product of two energy vectors of equal length.
pub open spec fn spec_dot(a: Seq<u64>, b: Seq<u64>) -> int
    decreases a.len(),
{
    if a.len() == 0 || b.len() == 0 {
        0
    } else {
        spec_dot(a.drop_last(), b.drop_last()) + a.last() * b.last()
    }
}

/// Squared Euclidean norm of an energy vector.
pub open spec fn spec_norm_sq(a: Seq<u64>) -> int {
    spec_dot(a, a)
}

proof fn lemma_dot_bounds(a: Seq<u64>, b: Seq<u64>)
    requires
        a.len() == b.len(),
        forall|i: int| 0 <= i < a.len() ==> #[trigger] a[i] <= UNIT,
        forall|i: int| 0 <= i < b.len() ==> #[trigger] b[i] <= UNIT,
    ensures
        0 <= spec_dot(a, b) <= a.len() * 1_000_000_000_000,
    decreases a.len(),
{
    if a.len() > 0 {
        lemma_dot_bounds(a.drop_last(), b.drop_last());
        assert(a.last() * b.last() <= 1_000_000_000_000) by (nonlinear_arith)
            requires
                0 <= a.last() <= 1_000_000,
                0 <= b.last() <= 1_000_000,
        ;
    }
}

/// Cosine-similarity matching between two normalized chroma vectors.
///
/// The verdict is `similarity >= threshold` with
/// `similarity == dot / (|input| * |expected|)`; it is decided exactly, by
/// comparing `dot^2 * UNIT^2` against `threshold^2 * |input|^2 *
/// |expected|^2`, so no square root is taken. A zero-energy vector on
/// either side yields `false`, never a division by zero.
pub fn compare_chroma_similarity(input: &Vec<u64>, expected: &Vec<u64>, threshold: u64) -> (r:
    bool)
    requires
        input@.len() == 12,
        expected@.len() == 12,
        forall|i: int| 0 <= i < 12 ==> #[trigger] input@[i] <= UNIT,
        forall|i: int| 0 <= i < 12 ==> #[trigger] expected@[i] <= UNIT,
        threshold <= UNIT,
    ensures
        r == (spec_norm_sq(input@) > 0 && spec_norm_sq(expected@) > 0 && spec_dot(
            input@,
            expected@,
        ) * spec_dot(input@, expected@) * (UNIT as int) * (UNIT as int) >= (threshold as int) * (
        threshold as int) * spec_norm_sq(input@) * spec_norm_sq(expected@)),
{
    let mut dot: u128 = 0;
    let mut norm_in: u128 = 0;
    let mut norm_ex: u128 = 0;
    let mut i: usize = 0;
    while i < 12
        invariant
            i <= 12,
            input@.len() == 12,
            expected@.len() == 12,
            forall|j: int| 0 <= j < 12 ==> #[trigger] input@[j] <= UNIT,
            forall|j: int| 0 <= j < 12 ==> #[trigger] expected@[j] <= UNIT,
            dot == spec_dot(input@.take(i as int), expected@.take(i as int)),
            norm_in == spec_norm_sq(input@.take(i as int)),
            norm_ex == spec_norm_sq(expected@.take(i as int)),
            dot <= i * 1_000_000_000_000,
            norm_in <= i * 1_000_000_000_000,
            norm_ex <= i * 1_000_000_000_000,
        decreases 12 - i,
    {
        let a: u64 = input[i];
        let b: u64 = expected[i];
        proof {
            assert(input@.take(i as int + 1).drop_last() =~= input@.take(i as int));
            assert(expected@.take(i as int + 1).drop_last() =~= expected@.take(i as int));
            assert((a as int) * (b as int) <= 1_000_000_000_000 && (a as int) * (a as int)
                <= 1_000_000_000_000 && (b as int) * (b as int) <= 1_000_000_000_000)
                by (nonlinear_arith)
                requires
                    0 <= a <= 1_000_000,
                    0 <= b <= 1_000_000,
            ;
        }
        dot = dot + (a as u128) * (b as u128);
        norm_in = norm_in + (a as u128) * (a as u128);
        norm_ex = norm_ex + (b as u128) * (b as u128);
        i = i + 1;
    }
    proof {
        assert(input@.take(12) =~= input@);
        assert(expected@.take(12) =~= expected@);
    }
    if norm_in == 0 || norm_ex == 0 {
        return false;
    }
    proof {
        assert((dot as int) * (dot as int) * (UNIT as int) * (UNIT as int) < u128::MAX
            && (dot as int) * (dot as int) <= 0x10000000000000000000000000000)
            by (nonlinear_arith)
            requires
                0 <= dot <= 12_000_000_000_000,
                UNIT == 1_000_000u64,
        ;
        assert((threshold as int) * (threshold as int) <= 1_000_000_000_000 && (
        threshold as int) * (threshold as int) * (norm_in as int) * (norm_ex as int) < u128::MAX
            && (threshold as int) * (threshold as int) * (norm_in as int)
            <= 0x10000000000000000000000000000) by (nonlinear_arith)
            requires
                0 <= threshold <= 1_000_000,
                0 <= norm_in <= 12_000_000_000_000,
                0 <= norm_ex <= 12_000_000_000_000,
        ;
    }
    let lhs: u128 = dot * dot * (UNIT as u128) * (UNIT as u128);
    let rhs: u128 = (threshold as u128) * (threshold as u128) * norm_in * norm_ex;
    lhs >= rhs
}

} // verus!
