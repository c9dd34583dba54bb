//! The plucked-string synthesizer: a Karplus-Strong voice over micro-unit
//! fixed-point samples, and the mixing of all sounding voices into one
//! output sample.
//!
//! A voice owns a delay line of `ceil(sample_rate / frequency)` samples,
//! seeded with lowpass-filtered noise, a read cursor, and a countdown of
//! samples still to produce. Per sample it applies the Karplus-Strong
//! feedback `decay * (damping*current + (1-damping)*next)`, writes it
//! back, and blends in a one-tap body resonance. The sine of the body
//! frequency `2*pi*body_resonance/sample_rate` cannot be computed here, so
//! callers pass it in micro-units as `body_sin_micro`.

use crate::fixed::{
    clamp_unit, lemma_scale_bound, lemma_scale_le_factor, lemma_scale_signed_bound, scale_micro,
    scale_micro_signed, spec_clamp_unit, spec_scale, spec_scale_signed, UNIT,
};
use crate::guitar::GuitarConfig;
use vstd::prelude::*;

verus! {

/// Relies on `rand::random::<u32>`: a uniformly random 32-bit value, used
/// only as the noise source of the pluck excitation. Nothing is promised
/// of its value.
#[verifier::external_body]
fn random_u32() -> u32 {
    rand::random()
}

/// One sounding plucked-string voice.
pub struct KarplusStrong {
    pub buffer: Vec<i64>,
    pub position: usize,
    pub remaining_samples: usize,
}

/// The delay-line length for a voice: `ceil(sample_rate / frequency)`,
/// with the frequency in millihertz.
pub open spec fn spec_delay_len(sample_rate: int, frequency_millihz: int) -> int {
    if (sample_rate * 1000) % frequency_millihz == 0 {
        sample_rate * 1000 / frequency_millihz
    } else {
        sample_rate * 1000 / frequency_millihz + 1
    }
}

/// How many samples a voice of `duration_ms` milliseconds produces:
/// `round(duration_seconds * sample_rate)`.
pub open spec fn spec_voice_samples(duration_ms: int, sample_rate: int) -> int {
    (duration_ms * sample_rate + 500) / 1000
}

/// The Karplus-Strong feedback term written back at cursor `pos` of the
/// wavetable `buf`: `decay * (damping*current + (1-damping)*next)`.
pub open spec fn spec_string_sample_at(buf: Seq<i64>, pos: int, config: GuitarConfig) -> int {
    let len = buf.len() as int;
    let cur = buf[pos] as int;
    let next = buf[(pos + 1) % len] as int;
    spec_scale(
        spec_scale(cur, config.string_damping as int) + spec_scale(
            next,
            UNIT - config.string_damping as int,
        ),
        config.decay as int,
    )
}

/// The feedback term that the next step of `v` writes back.
pub open spec fn spec_string_sample(v: KarplusStrong, config: GuitarConfig) -> int {
    spec_string_sample_at(v.buffer@, v.position as int, config)
}

/// The sample one step emits at cursor `pos` of wavetable `buf`:
/// `0.7 * string + 0.3 * body`, with
/// `body = (string * sin(body_freq)) * (1 - body_damping)`.
pub open spec fn spec_output_at(buf: Seq<i64>, pos: int, config: GuitarConfig, body_sin: int)
    -> int {
    let s = spec_string_sample_at(buf, pos, config);
    let body = spec_scale(spec_scale_signed(s, body_sin), UNIT - config.body_damping as int);
    spec_scale(s, 700_000) + spec_scale(body, 300_000)
}

/// The sample the next step of `v` emits.
pub open spec fn spec_voice_output(v: KarplusStrong, config: GuitarConfig, body_sin: int) -> int {
    spec_output_at(v.buffer@, v.position as int, config, body_sin)
}

/// Every sample a voice with wavetable `buf`, cursor `pos` and `rem`
/// samples left will emit, in order: each step emits one sample, writes
/// the feedback term back, and advances the cursor cyclically.
pub open spec fn spec_drain(
    buf: Seq<i64>,
    pos: int,
    rem: nat,
    config: GuitarConfig,
    body_sin: int,
) -> Seq<i64>
    decreases rem,
{
    if rem == 0 {
        Seq::<i64>::empty()
    } else {
        let out = spec_output_at(buf, pos, config, body_sin) as i64;
        let written = buf.update(pos, spec_string_sample_at(buf, pos, config) as i64);
        seq![out] + spec_drain(written, (pos + 1) % (buf.len() as int), (rem - 1) as nat, config, body_sin)
    }
}

/// How one step changes a voice: the feedback value is written at the
/// cursor, the cursor advances cyclically, and the countdown falls by one.
pub open spec fn spec_stepped(pre: KarplusStrong, post: KarplusStrong, config: GuitarConfig)
    -> bool {
    &&& post.buffer@ == pre.buffer@.update(
        pre.position as int,
        spec_string_sample(pre, config) as i64,
    )
    &&& post.position == (pre.position + 1) % (pre.buffer@.len() as int)
    &&& post.remaining_samples == pre.remaining_samples - 1
}

impl KarplusStrong {
    /// A sound delay line with every sample within one unit of silence.
    pub open spec fn wf(self) -> bool {
        &&& self.buffer@.len() >= 1
        &&& self.position < self.buffer@.len()
        &&& forall|i: int|
            0 <= i < self.buffer@.len() ==> -(UNIT as int) <= #[trigger] self.buffer@[i]
                <= UNIT as int
    }

    /// A new voice: the delay line holds `ceil(sample_rate / frequency)`
    /// noise samples shaped by a one-pole lowpass
    /// `damping*prev + (1-damping)*(tension*white)`, and the voice will
    /// produce `round(duration_seconds * sample_rate)` samples.
    pub fn new(
        frequency_millihz: u64,
        duration_ms: u64,
        sample_rate: u32,
        config: &GuitarConfig,
    ) -> (r: KarplusStrong)
        requires
            frequency_millihz >= 1,
            sample_rate >= 1,
            config.wf(),
            spec_delay_len(sample_rate as int, frequency_millihz as int) <= usize::MAX,
            spec_voice_samples(duration_ms as int, sample_rate as int) <= usize::MAX,
        ensures
            r.buffer@.len() == spec_delay_len(sample_rate as int, frequency_millihz as int),
            r.remaining_samples == spec_voice_samples(duration_ms as int, sample_rate as int),
            r.position == 0,
            r.wf(),
    {
        let hz_scaled: u64 = (sample_rate as u64) * 1000;
        let q: u64 = hz_scaled / frequency_millihz;
        let m: u64 = hz_scaled % frequency_millihz;
        let buffer_length: usize = if m == 0 {
            q as usize
        } else {
            (q + 1) as usize
        };
        let mut buffer: Vec<i64> = Vec::new();
        let mut prev: i64 = 0;
        let mut i: usize = 0;
        while i < buffer_length
            invariant
                i <= buffer_length,
                buffer@.len() == i,
                config.wf(),
                -(UNIT as int) <= prev <= UNIT as int,
                forall|j: int|
                    0 <= j < i ==> -(UNIT as int) <= #[trigger] buffer@[j] <= UNIT as int,
            decreases buffer_length - i,
        {
            let white: i64 = (random_u32() % 2_000_001) as i64 - 1_000_000;
            let tension_effect: i64 = scale_micro(white, config.string_tension as u64);
            proof {
                lemma_scale_le_factor(white as int, config.string_tension as int);
                lemma_scale_bound(white as int, config.string_tension as int, UNIT as int);
            }
            let a: i64 = scale_micro(prev, config.string_damping as u64);
            let b: i64 = scale_micro(tension_effect, UNIT - config.string_damping as u64);
            proof {
                lemma_scale_le_factor(prev as int, config.string_damping as int);
                lemma_scale_le_factor(
                    tension_effect as int,
                    UNIT as int - config.string_damping as int,
                );
            }
            let filtered: i64 = a + b;
            buffer.push(filtered);
            prev = filtered;
            i = i + 1;
        }
        proof {
            assert((duration_ms as int) * (sample_rate as int) < 0x1000000000000000000000000)
                by (nonlinear_arith)
                requires
                    (duration_ms as int) < 0x10000000000000000,
                    (sample_rate as int) < 0x100000000,
            ;
            if m == 0 {
                if frequency_millihz > hz_scaled {
                    assert((hz_scaled as int) % (frequency_millihz as int) == hz_scaled as int)
                        by (nonlinear_arith)
                        requires
                            0 < hz_scaled < frequency_millihz,
                    ;
                }
                assert((hz_scaled as int) / (frequency_millihz as int) >= 1) by (nonlinear_arith)
                    requires
                        1 <= frequency_millihz <= hz_scaled,
                ;
            }
            assert(buffer_length >= 1);
        }
        let remaining: u128 = ((duration_ms as u128) * (sample_rate as u128) + 500) / 1000;
        let remaining_samples: usize = remaining as usize;
        KarplusStrong { buffer, position: 0, remaining_samples }
    }

    /// One sample of the voice: `None` once the countdown is spent,
    /// otherwise the blended string-and-body sample, always within
    /// `[-1.0, 1.0]`.
    pub fn next_sample(&mut self, config: &GuitarConfig, body_sin_micro: i64) -> (r: Option<i64>)
        requires
            old(self).wf(),
            config.wf(),
            -(UNIT as int) <= body_sin_micro <= UNIT as int,
        ensures
            final(self).wf(),
            old(self).remaining_samples == 0 ==> r is None && *final(self) == *old(self),
            old(self).remaining_samples > 0 ==> {
                &&& r == Some(
                    spec_voice_output(*old(self), *config, body_sin_micro as int) as i64,
                )
                &&& spec_stepped(*old(self), *final(self), *config)
                &&& -(UNIT as int) <= spec_voice_output(
                    *old(self),
                    *config,
                    body_sin_micro as int,
                ) <= UNIT as int
            },
    {
        if self.remaining_samples == 0 {
            return None;
        }
        let len = self.buffer.len();
        let current_value: i64 = self.buffer[self.position];
        let next_index: usize = (self.position + 1) % len;
        let next_value: i64 = self.buffer[next_index];

        let a: i64 = scale_micro(current_value, config.string_damping as u64);
        let b: i64 = scale_micro(next_value, UNIT - config.string_damping as u64);
        proof {
            lemma_scale_le_factor(current_value as int, config.string_damping as int);
            lemma_scale_le_factor(next_value as int, UNIT as int - config.string_damping as int);
        }
        let string_sample: i64 = scale_micro(a + b, config.decay as u64);
        proof {
            lemma_scale_bound((a + b) as int, config.decay as int, UNIT as int);
        }
        let resonated: i64 = scale_micro_signed(string_sample, body_sin_micro);
        proof {
            lemma_scale_signed_bound(string_sample as int, body_sin_micro as int, UNIT as int);
        }
        let body_sample: i64 = scale_micro(resonated, UNIT - config.body_damping as u64);
        proof {
            lemma_scale_bound(
                resonated as int,
                UNIT as int - config.body_damping as int,
                UNIT as int,
            );
            lemma_scale_le_factor(string_sample as int, 700_000);
            lemma_scale_le_factor(body_sample as int, 300_000);
        }
        let out: i64 = scale_micro(string_sample, 700_000) + scale_micro(body_sample, 300_000);

        self.buffer.set(self.position, string_sample);
        self.position = next_index;
        self.remaining_samples = self.remaining_samples - 1;
        Some(out)
    }

    /// Drains the voice: every remaining sample, in order — exactly the
    /// sequence `spec_drain` gives for the voice's starting state.
    pub fn generate_audio_data(&mut self, config: &GuitarConfig, body_sin_micro: i64) -> (r: Vec<
        i64,
    >)
        requires
            old(self).wf(),
            config.wf(),
            -(UNIT as int) <= body_sin_micro <= UNIT as int,
        ensures
            final(self).wf(),
            r@.len() == old(self).remaining_samples,
            r@ == spec_drain(
                old(self).buffer@,
                old(self).position as int,
                old(self).remaining_samples as nat,
                *config,
                body_sin_micro as int,
            ),
            final(self).remaining_samples == 0,
            forall|i: int| 0 <= i < r@.len() ==> -(UNIT as int) <= #[trigger] r@[i] <= UNIT as int,
    {
        let ghost full: Seq<i64> = spec_drain(
            old(self).buffer@,
            old(self).position as int,
            old(self).remaining_samples as nat,
            *config,
            body_sin_micro as int,
        );
        let mut audio_data: Vec<i64> = Vec::new();
        while self.remaining_samples > 0
            invariant
                self.wf(),
                config.wf(),
                -(UNIT as int) <= body_sin_micro <= UNIT as int,
                audio_data@.len() + self.remaining_samples == old(self).remaining_samples,
                full == audio_data@ + spec_drain(
                    self.buffer@,
                    self.position as int,
                    self.remaining_samples as nat,
                    *config,
                    body_sin_micro as int,
                ),
                forall|i: int|
                    0 <= i < audio_data@.len() ==> -(UNIT as int) <= #[trigger] audio_data@[i]
                        <= UNIT as int,
            decreases self.remaining_samples,
        {
            let ghost pre_buf = self.buffer@;
            let ghost pre_pos = self.position as int;
            let ghost pre_rem = self.remaining_samples as nat;
            let s = self.next_sample(config, body_sin_micro);
            match s {
                Some(v) => {
                    audio_data.push(v);
                    proof {
                        assert(spec_drain(
                            pre_buf,
                            pre_pos,
                            pre_rem,
                            *config,
                            body_sin_micro as int,
                        ) == seq![v] + spec_drain(
                            self.buffer@,
                            self.position as int,
                            self.remaining_samples as nat,
                            *config,
                            body_sin_micro as int,
                        ));
                        assert(full =~= audio_data@ + spec_drain(
                            self.buffer@,
                            self.position as int,
                            self.remaining_samples as nat,
                            *config,
                            body_sin_micro as int,
                        ));
                    }
                },
                None => {},
            }
        }
        proof {
            assert(full =~= audio_data@);
        }
        audio_data
    }
}

/// The playing length of a note in milliseconds:
/// `duration_divisions * seconds_per_division`, with
/// `seconds_per_division == 60 / (tempo * divisions_per_quarter)`.
pub open spec fn spec_note_duration_ms(duration_divisions: int, tempo: int, dpq: int) -> int {
    duration_divisions * 60_000 / (tempo * dpq)
}

/// Spawns one voice per dispatched note, as the scheduler asks on a note
/// onset: each voice sounds at its note's frequency for
/// `seconds_per_division * duration` seconds. A note arrives here as its
/// frequency in millihertz (the twelfth-root power that produces it is a
/// caller-side float) and its duration in divisions.
pub fn spawn_voices(
    voices: &mut Vec<KarplusStrong>,
    notes: &Vec<(u64, u32)>,
    tempo: usize,
    divisions_per_quarter: u8,
    sample_rate: u32,
    config: &GuitarConfig,
) -> (count: usize)
    requires
        1 <= tempo <= 0xFFFF_FFFF,
        divisions_per_quarter >= 1,
        sample_rate >= 1,
        config.wf(),
        forall|i: int| 0 <= i < notes@.len() ==> 1 <= (#[trigger] notes@[i]).0,
        forall|i: int|
            0 <= i < notes@.len() ==> spec_delay_len(sample_rate as int, (#[trigger] notes@[i]).0 as int)
                <= usize::MAX,
        forall|i: int|
            0 <= i < notes@.len() ==> spec_voice_samples(
                spec_note_duration_ms((#[trigger] notes@[i]).1 as int, tempo as int, divisions_per_quarter as int),
                sample_rate as int,
            ) <= usize::MAX,
        old(voices)@.len() + notes@.len() <= usize::MAX,
    ensures
        count == notes@.len(),
        final(voices)@.len() == old(voices)@.len() + notes@.len(),
        forall|i: int|
            0 <= i < old(voices)@.len() ==> #[trigger] final(voices)@[i] == old(voices)@[i],
        forall|i: int|
            0 <= i < notes@.len() ==> {
                let v = #[trigger] final(voices)@[old(voices)@.len() + i];
                &&& v.wf()
                &&& v.position == 0
                &&& v.buffer@.len() == spec_delay_len(sample_rate as int, notes@[i].0 as int)
                &&& v.remaining_samples == spec_voice_samples(
                    spec_note_duration_ms(
                        notes@[i].1 as int,
                        tempo as int,
                        divisions_per_quarter as int,
                    ),
                    sample_rate as int,
                )
            },
{
    let mut k: usize = 0;
    while k < notes.len()
        invariant
            k <= notes@.len(),
            1 <= tempo <= 0xFFFF_FFFF,
            divisions_per_quarter >= 1,
            sample_rate >= 1,
            config.wf(),
            forall|i: int| 0 <= i < notes@.len() ==> 1 <= (#[trigger] notes@[i]).0,
            forall|i: int|
                0 <= i < notes@.len() ==> spec_delay_len(
                    sample_rate as int,
                    (#[trigger] notes@[i]).0 as int,
                ) <= usize::MAX,
            forall|i: int|
                0 <= i < notes@.len() ==> spec_voice_samples(
                    spec_note_duration_ms(
                        (#[trigger] notes@[i]).1 as int,
                        tempo as int,
                        divisions_per_quarter as int,
                    ),
                    sample_rate as int,
                ) <= usize::MAX,
            old(voices)@.len() + notes@.len() <= usize::MAX,
            voices@.len() == old(voices)@.len() + k,
            forall|i: int|
                0 <= i < old(voices)@.len() ==> #[trigger] voices@[i] == old(voices)@[i],
            forall|i: int|
                0 <= i < k ==> {
                    let v = #[trigger] voices@[old(voices)@.len() + i];
                    &&& v.wf()
                    &&& v.position == 0
                    &&& v.buffer@.len() == spec_delay_len(sample_rate as int, notes@[i].0 as int)
                    &&& v.remaining_samples == spec_voice_samples(
                        spec_note_duration_ms(
                            notes@[i].1 as int,
                            tempo as int,
                            divisions_per_quarter as int,
                        ),
                        sample_rate as int,
                    )
                },
        decreases notes@.len() - k,
    {
        let (frequency_millihz, duration_divisions) = notes[k];
        proof {
            assert((duration_divisions as int) * 60_000 < 0x100000000000000000000000000)
                by (nonlinear_arith)
                requires
                    (duration_divisions as int) < 0x100000000,
            ;
            assert(1 <= (tempo as int) * (divisions_per_quarter as int)
                < 0x100000000000000000000000000) by (nonlinear_arith)
                requires
                    1 <= (tempo as int) <= 0xFFFF_FFFF,
                    1 <= (divisions_per_quarter as int) <= 255,
            ;
        }
        let numerator: u128 = (duration_divisions as u128) * 60_000;
        let denominator: u128 = (tempo as u128) * (divisions_per_quarter as u128);
        let duration_ms: u128 = numerator / denominator;
        proof {
            assert(0 <= spec_note_duration_ms(
                duration_divisions as int,
                tempo as int,
                divisions_per_quarter as int,
            ) <= (duration_divisions as int) * 60_000) by (nonlinear_arith)
                requires
                    1 <= (tempo as int) * (divisions_per_quarter as int),
                    0 <= duration_divisions,
                    spec_note_duration_ms(
                        duration_divisions as int,
                        tempo as int,
                        divisions_per_quarter as int,
                    ) == (duration_divisions as int) * 60_000 / ((tempo as int) * (
                    divisions_per_quarter as int)),
            ;
        }
        let voice = KarplusStrong::new(
            frequency_millihz,
            duration_ms as u64,
            sample_rate,
            config,
        );
        voices.push(voice);
        k = k + 1;
    }
    k
}

/// The voices of `s` that still have samples to produce, in order and
/// unstepped.
pub open spec fn spec_live_voices(s: Seq<KarplusStrong>) -> Seq<KarplusStrong>
    decreases s.len(),
{
    if s.len() == 0 {
        Seq::<KarplusStrong>::empty()
    } else if s.last().remaining_samples > 0 {
        spec_live_voices(s.drop_last()).push(s.last())
    } else {
        spec_live_voices(s.drop_last())
    }
}

/// The sum of the samples that one step of every live voice emits.
pub open spec fn spec_mix_sum(s: Seq<KarplusStrong>, config: GuitarConfig, body_sin: int) -> int
    decreases s.len(),
{
    if s.len() == 0 {
        0
    } else if s.last().remaining_samples > 0 {
        spec_mix_sum(s.drop_last(), config, body_sin) + spec_voice_output(
            s.last(),
            config,
            body_sin,
        )
    } else {
        spec_mix_sum(s.drop_last(), config, body_sin)
    }
}

proof fn lemma_mix_sum_bounds(s: Seq<KarplusStrong>, config: GuitarConfig, body_sin: int)
    requires
        config.wf(),
        -(UNIT as int) <= body_sin <= UNIT as int,
        forall|i: int| 0 <= i < s.len() ==> (#[trigger] s[i]).wf(),
    ensures
        -(s.len() * (UNIT as int)) <= spec_mix_sum(s, config, body_sin) <= s.len() * (
        UNIT as int),
    decreases s.len(),
{
    if s.len() > 0 {
        assert(forall|i: int| 0 <= i < s.drop_last().len() ==> (#[trigger] s.drop_last()[i]).wf());
        lemma_mix_sum_bounds(s.drop_last(), config, body_sin);
        if s.last().remaining_samples > 0 {
            lemma_voice_output_bounds(s.last(), config, body_sin);
        }
    }
}

proof fn lemma_voice_output_bounds(v: KarplusStrong, config: GuitarConfig, body_sin: int)
    requires
        v.wf(),
        config.wf(),
        -(UNIT as int) <= body_sin <= UNIT as int,
    ensures
        -(UNIT as int) <= spec_voice_output(v, config, body_sin) <= UNIT as int,
        -(UNIT as int) <= spec_string_sample(v, config) <= UNIT as int,
{
    let len = v.buffer@.len() as int;
    let cur = v.buffer@[v.position as int] as int;
    let next = v.buffer@[(v.position + 1) % len] as int;
    assert(0 <= (v.position + 1) % len < len);
    lemma_scale_le_factor(cur, config.string_damping as int);
    lemma_scale_le_factor(next, UNIT as int - config.string_damping as int);
    let mixed = spec_scale(cur, config.string_damping as int) + spec_scale(
        next,
        UNIT - config.string_damping as int,
    );
    lemma_scale_bound(mixed, config.decay as int, UNIT as int);
    let s = spec_string_sample(v, config);
    lemma_scale_signed_bound(s, body_sin, UNIT as int);
    lemma_scale_bound(
        spec_scale_signed(s, body_sin),
        UNIT as int - config.body_damping as int,
        UNIT as int,
    );
    let body = spec_scale(spec_scale_signed(s, body_sin), UNIT - config.body_damping as int);
    lemma_scale_le_factor(s, 700_000);
    lemma_scale_le_factor(body, 300_000);
}

/// Mixes one output sample from all sounding voices, as the audio
/// callback does: every live voice advances one step and its sample joins
/// the sum; spent voices leave the pool; the sum is scaled by the master
/// volume and clamped into `[-1.0, 1.0]`, so the mixed output can never
/// clip, whatever the configuration.
pub fn mix_next_sample(
    voices: &mut Vec<KarplusStrong>,
    config: &GuitarConfig,
    body_sin_micro: i64,
) -> (r: i64)
    requires
        config.wf(),
        -(UNIT as int) <= body_sin_micro <= UNIT as int,
        old(voices)@.len() <= 1_000_000,
        forall|i: int| 0 <= i < old(voices)@.len() ==> (#[trigger] old(voices)@[i]).wf(),
    ensures
        -(UNIT as int) <= r <= UNIT as int,
        r == spec_clamp_unit(
            spec_scale(
                spec_mix_sum(old(voices)@, *config, body_sin_micro as int),
                config.volume as int,
            ),
        ),
        final(voices)@.len() == spec_live_voices(old(voices)@).len(),
        forall|j: int|
            0 <= j < final(voices)@.len() ==> (#[trigger] final(voices)@[j]).wf() && spec_stepped(
                spec_live_voices(old(voices)@)[j],
                final(voices)@[j],
                *config,
            ),
{
    let ghost orig: Seq<KarplusStrong> = voices@;
    let mut survivors: Vec<KarplusStrong> = Vec::new();
    let mut sum: i64 = 0;
    let ghost mut k: int = 0;
    while voices.len() > 0
        invariant
            0 <= k <= orig.len(),
            orig.len() <= 1_000_000,
            voices@ == orig.skip(k),
            config.wf(),
            -(UNIT as int) <= body_sin_micro <= UNIT as int,
            forall|i: int| 0 <= i < orig.len() ==> (#[trigger] orig[i]).wf(),
            sum == spec_mix_sum(orig.take(k), *config, body_sin_micro as int),
            -(k * (UNIT as int)) <= sum <= k * (UNIT as int),
            survivors@.len() == spec_live_voices(orig.take(k)).len(),
            forall|j: int|
                0 <= j < survivors@.len() ==> (#[trigger] survivors@[j]).wf() && spec_stepped(
                    spec_live_voices(orig.take(k))[j],
                    survivors@[j],
                    *config,
                ),
        decreases voices@.len(),
    {
        proof {
            assert(orig.take(k + 1).drop_last() =~= orig.take(k));
            assert(orig.take(k + 1).last() == orig[k]);
            assert(orig.skip(k)[0] == orig[k]);
        }
        let mut voice = voices.remove(0);
        proof {
            assert(voices@ =~= orig.skip(k + 1));
            assert(voice == orig[k]);
        }
        let out = voice.next_sample(config, body_sin_micro);
        match out {
            Some(v) => {
                sum = sum + v;
                survivors.push(voice);
            },
            None => {},
        }
        proof {
            k = k + 1;
        }
    }
    proof {
        assert(orig.take(orig.len() as int) =~= orig);
        lemma_mix_sum_bounds(orig, *config, body_sin_micro as int);
    }
    let scaled: i64 = scale_micro(sum, config.volume as u64);
    let clamped: i64 = clamp_unit(scaled);
    *voices = survivors;
    clamped
}

} // verus!
