//! The capture side of the matcher: a growing buffer of microphone
//! samples, overlapping frame extraction, peak normalization of a frame,
//! the silence gate, pre-emphasis, and the bounded feature histories.
//!
//! Samples are micro-unit fixed-point values (`fixed::UNIT` is 1.0).

use crate::fixed::{scale_micro, spec_scale, UNIT};
use vstd::prelude::*;

verus! {

/// Samples per analysis frame.
pub const FRAME_SIZE: usize = 4096;

/// Samples consumed per frame; the rest of the frame overlaps the next.
pub const HOP_SIZE: usize = 1024;

/// Most chroma frames or raw frames a history keeps.
pub const MAX_HISTORY: usize = 100;

pub open spec fn spec_signal_min(s: Seq<i64>) -> int
    decreases s.len(),
{
    if s.len() == 0 {
        0
    } else if s.len() == 1 {
        s[0] as int
    } else if s.last() < spec_signal_min(s.drop_last()) {
        s.last() as int
    } else {
        spec_signal_min(s.drop_last())
    }
}

pub open spec fn spec_signal_max(s: Seq<i64>) -> int
    decreases s.len(),
{
    if s.len() == 0 {
        0
    } else if s.len() == 1 {
        s[0] as int
    } else if s.last() > spec_signal_max(s.drop_last()) {
        s.last() as int
    } else {
        spec_signal_max(s.drop_last())
    }
}

proof fn lemma_signal_bounds(s: Seq<i64>)
    requires
        s.len() >= 1,
        forall|i: int| 0 <= i < s.len() ==> -(UNIT as int) <= #[trigger] s[i] <= UNIT as int,
    ensures
        -(UNIT as int) <= spec_signal_min(s) <= UNIT as int,
        -(UNIT as int) <= spec_signal_max(s) <= UNIT as int,
        spec_signal_min(s) <= spec_signal_max(s),
    decreases s.len(),
{
    if s.len() > 1 {
        assert(forall|i: int|
            0 <= i < s.drop_last().len() ==> -(UNIT as int) <= #[trigger] s.drop_last()[i]
                <= UNIT as int);
        lemma_signal_bounds(s.drop_last());
    }
}

proof fn lemma_signal_min_max(s: Seq<i64>, i: int)
    requires
        0 <= i < s.len(),
    ensures
        spec_signal_min(s) <= s[i] <= spec_signal_max(s),
    decreases s.len(),
{
    if s.len() > 1 && i < s.len() - 1 {
        lemma_signal_min_max(s.drop_last(), i);
    }
}

/// Maps a frame affinely onto `[-1.0, 1.0]`: the smallest sample becomes
/// -1, the largest +1. A constant frame (including silence) maps to all
/// zeros rather than dividing by zero.
pub fn normalize_signal(signal: &Vec<i64>) -> (r: Vec<i64>)
    requires
        forall|i: int|
            0 <= i < signal@.len() ==> -(UNIT as int) <= #[trigger] signal@[i] <= UNIT as int,
    ensures
        r@.len() == signal@.len(),
        spec_signal_max(signal@) == spec_signal_min(signal@) ==> forall|i: int|
            0 <= i < r@.len() ==> #[trigger] r@[i] == 0,
        spec_signal_max(signal@) > spec_signal_min(signal@) ==> forall|i: int|
            0 <= i < r@.len() ==> #[trigger] r@[i] == (signal@[i] - spec_signal_min(signal@)) * 2
                * (UNIT as int) / (spec_signal_max(signal@) - spec_signal_min(signal@)) - (
            UNIT as int),
        forall|i: int| 0 <= i < r@.len() ==> -(UNIT as int) <= #[trigger] r@[i] <= UNIT as int,
{
    let ghost orig: Seq<i64> = signal@;
    let mut min_val: i64 = 0;
    let mut max_val: i64 = 0;
    let mut i: usize = 0;
    while i < signal.len()
        invariant
            i <= orig.len(),
            signal@ == orig,
            min_val == spec_signal_min(orig.take(i as int)),
            max_val == spec_signal_max(orig.take(i as int)),
        decreases orig.len() - i,
    {
        proof {
            assert(orig.take(i as int + 1).drop_last() =~= orig.take(i as int));
            assert(orig.take(i as int + 1).last() == orig[i as int]);
        }
        if i == 0 {
            min_val = signal[0];
            max_val = signal[0];
        } else {
            if signal[i] < min_val {
                min_val = signal[i];
            }
            if signal[i] > max_val {
                max_val = signal[i];
            }
        }
        i = i + 1;
    }
    proof {
        assert(orig.take(orig.len() as int) =~= orig);
    }
    let mut out: Vec<i64> = Vec::new();
    if max_val == min_val {
        let mut j: usize = 0;
        while j < signal.len()
            invariant
                j <= orig.len(),
                signal@ == orig,
                out@.len() == j,
                forall|k: int| 0 <= k < j ==> #[trigger] out@[k] == 0,
            decreases orig.len() - j,
        {
            out.push(0);
            j = j + 1;
        }
        return out;
    }
    proof {
        assert(orig.len() >= 1);
        lemma_signal_bounds(orig);
    }
    let range: u64 = (max_val - min_val) as u64;
    let mut j: usize = 0;
    while j < signal.len()
        invariant
            j <= orig.len(),
            signal@ == orig,
            min_val == spec_signal_min(orig),
            max_val == spec_signal_max(orig),
            -(UNIT as int) <= min_val <= UNIT as int,
            -(UNIT as int) <= max_val <= UNIT as int,
            min_val < max_val,
            range == max_val - min_val,
            forall|k: int|
                0 <= k < orig.len() ==> -(UNIT as int) <= #[trigger] orig[k] <= UNIT as int,
            out@.len() == j,
            forall|k: int|
                0 <= k < j ==> #[trigger] out@[k] == (orig[k] - min_val as int) * 2 * (
                UNIT as int) / (range as int) - (UNIT as int),
            forall|k: int|
                0 <= k < j ==> -(UNIT as int) <= #[trigger] out@[k] <= UNIT as int,
        decreases orig.len() - j,
    {
        let v: i64 = signal[j];
        proof {
            lemma_signal_min_max(orig, j as int);
        }
        let offset: u64 = (v - min_val) as u64;
        proof {
            assert((offset as int) * 2 * (UNIT as int) <= 0x4000000000000000) by (nonlinear_arith)
                requires
                    0 <= offset <= 2_000_000,
                    UNIT == 1_000_000u64,
            ;
            assert(0 <= (offset as int) * 2 * (UNIT as int) / (range as int) <= 2 * (UNIT as int))
                by (nonlinear_arith)
                requires
                    0 <= offset <= range,
                    1 <= range,
                    UNIT == 1_000_000u64,
            ;
        }
        let scaled: u64 = offset * 2 * UNIT / range;
        let sample: i64 = (scaled as i64) - 1_000_000;
        out.push(sample);
        j = j + 1;
    }
    out
}

/// Sum of squared samples, for the frame's energy.
pub open spec fn spec_sum_squares(s: Seq<i64>) -> int
    decreases s.len(),
{
    if s.len() == 0 {
        0
    } else {
        spec_sum_squares(s.drop_last()) + s.last() * s.last()
    }
}

/// The silence gate: a frame whose mean squared sample lies below the
/// squared threshold carries no attempt and is skipped, not judged.
pub fn is_silent(frame: &Vec<i64>, threshold: u64) -> (r: bool)
    requires
        frame@.len() >= 1,
        forall|i: int|
            0 <= i < frame@.len() ==> -(UNIT as int) <= #[trigger] frame@[i] <= UNIT as int,
        threshold <= UNIT,
    ensures
        r == (spec_sum_squares(frame@) / (frame@.len() as int) < (threshold as int) * (
        threshold as int)),
{
    let mut sum: u128 = 0;
    let mut i: usize = 0;
    while i < frame.len()
        invariant
            i <= frame@.len(),
            forall|k: int|
                0 <= k < frame@.len() ==> -(UNIT as int) <= #[trigger] frame@[k] <= UNIT as int,
            sum == spec_sum_squares(frame@.take(i as int)),
            sum <= i * 1_000_000_000_000,
        decreases frame@.len() - i,
    {
        proof {
            assert(frame@.take(i as int + 1).drop_last() =~= frame@.take(i as int));
            assert(frame@.take(i as int + 1).last() == frame@[i as int]);
        }
        let v: i64 = frame[i];
        let mag: u64 = if v >= 0 {
            v as u64
        } else {
            (-v) as u64
        };
        proof {
            assert((mag as int) * (mag as int) == (v as int) * (v as int) && (mag as int) * (
            mag as int) <= 1_000_000_000_000) by (nonlinear_arith)
                requires
                    mag == (if v >= 0 {
                        v as int
                    } else {
                        -(v as int)
                    }),
                    -1_000_000 <= v <= 1_000_000,
            ;
        }
        sum = sum + (mag as u128) * (mag as u128);
        i = i + 1;
    }
    proof {
        assert(frame@.take(frame@.len() as int) =~= frame@);
        assert((threshold as int) * (threshold as int) <= 1_000_000_000_000) by (nonlinear_arith)
            requires
                0 <= threshold <= 1_000_000,
        ;
    }
    let mean_square: u128 = sum / (frame.len() as u128);
    let threshold_sq: u128 = (threshold as u128) * (threshold as u128);
    mean_square < threshold_sq
}

/// First-order high-pass pre-emphasis:
/// `y[i] = x[i] - coefficient * x[i-1]`, with `y[0] = x[0]`.
pub fn pre_emphasis(signal: &Vec<i64>, coefficient: u64) -> (r: Vec<i64>)
    requires
        forall|i: int|
            0 <= i < signal@.len() ==> -(UNIT as int) <= #[trigger] signal@[i] <= UNIT as int,
        coefficient <= UNIT,
    ensures
        r@.len() == signal@.len(),
        signal@.len() > 0 ==> r@[0] == signal@[0],
        forall|i: int|
            1 <= i < signal@.len() ==> #[trigger] r@[i] == signal@[i] - spec_scale(
                signal@[i - 1] as int,
                coefficient as int,
            ),
        forall|i: int|
            0 <= i < r@.len() ==> -2 * (UNIT as int) <= #[trigger] r@[i] <= 2 * (UNIT as int),
{
    let mut out: Vec<i64> = Vec::new();
    if signal.len() == 0 {
        return out;
    }
    out.push(signal[0]);
    let mut i: usize = 1;
    while i < signal.len()
        invariant
            1 <= i <= signal@.len(),
            forall|k: int|
                0 <= k < signal@.len() ==> -(UNIT as int) <= #[trigger] signal@[k] <= UNIT as int,
            coefficient <= UNIT,
            out@.len() == i,
            out@[0] == signal@[0],
            forall|k: int|
                1 <= k < i ==> #[trigger] out@[k] == signal@[k] - spec_scale(
                    signal@[k - 1] as int,
                    coefficient as int,
                ),
            forall|k: int|
                0 <= k < i ==> -2 * (UNIT as int) <= #[trigger] out@[k] <= 2 * (UNIT as int),
        decreases signal@.len() - i,
    {
        let prev: i64 = signal[i - 1];
        let tap: i64 = scale_micro(prev, coefficient);
        proof {
            crate::fixed::lemma_scale_le_factor(prev as int, coefficient as int);
        }
        out.push(signal[i] - tap);
        i = i + 1;
    }
    out
}

/// The raw capture buffer that the input stream appends to and the frame
/// extractor consumes from.
pub struct CaptureBuffer {
    pub samples: Vec<i64>,
}

impl CaptureBuffer {
    pub fn new() -> (r: CaptureBuffer)
        ensures
            r.samples@.len() == 0,
    {
        CaptureBuffer { samples: Vec::new() }
    }

    /// Appends freshly captured samples.
    pub fn extend(&mut self, data: &Vec<i64>)
        requires
            old(self).samples@.len() + data@.len() <= usize::MAX,
        ensures
            final(self).samples@ == old(self).samples@ + data@,
    {
        let mut i: usize = 0;
        while i < data.len()
            invariant
                i <= data@.len(),
                self.samples@.len() == old(self).samples@.len() + i,
                self.samples@ == old(self).samples@ + data@.subrange(0, i as int),
            decreases data@.len() - i,
        {
            self.samples.push(data[i]);
            proof {
                assert(self.samples@ =~= old(self).samples@ + data@.subrange(0, i as int + 1));
            }
            i = i + 1;
        }
        proof {
            assert(self.samples@ =~= old(self).samples@ + data@);
        }
    }

    /// Takes the next analysis frame if enough samples are buffered:
    /// the frame is the first `frame_size` samples, and only `hop_size`
    /// samples leave the buffer, so consecutive frames overlap.
    pub fn next_frame(&mut self, frame_size: usize, hop_size: usize) -> (r: Option<Vec<i64>>)
        requires
            1 <= hop_size <= frame_size,
        ensures
            old(self).samples@.len() < frame_size ==> r is None && final(self).samples@ == old(
                self,
            ).samples@,
            old(self).samples@.len() >= frame_size ==> ({
                &&& r matches Some(frame) && frame@ == old(self).samples@.subrange(
                    0,
                    frame_size as int,
                )
                &&& final(self).samples@ == old(self).samples@.skip(hop_size as int)
            }),
    {
        if self.samples.len() < frame_size {
            return None;
        }
        let mut frame: Vec<i64> = Vec::new();
        let mut i: usize = 0;
        while i < frame_size
            invariant
                i <= frame_size <= self.samples@.len(),
                self.samples@ == old(self).samples@,
                frame@ == self.samples@.subrange(0, i as int),
            decreases frame_size - i,
        {
            frame.push(self.samples[i]);
            proof {
                assert(frame@ =~= self.samples@.subrange(0, i as int + 1));
            }
            i = i + 1;
        }
        let mut rest: Vec<i64> = Vec::new();
        let mut k: usize = hop_size;
        while k < self.samples.len()
            invariant
                hop_size <= k <= self.samples@.len(),
                self.samples@ == old(self).samples@,
                rest@ == self.samples@.subrange(hop_size as int, k as int),
            decreases self.samples@.len() - k,
        {
            rest.push(self.samples[k]);
            proof {
                assert(rest@ =~= self.samples@.subrange(hop_size as int, k as int + 1));
            }
            k = k + 1;
        }
        proof {
            assert(rest@ =~= old(self).samples@.skip(hop_size as int));
        }
        self.samples = rest;
        Some(frame)
    }
}

/// Appends a frame to a bounded history: once `max_len` frames are held,
/// the oldest leaves.
pub fn push_history(history: &mut Vec<Vec<u64>>, frame: Vec<u64>, max_len: usize)
    requires
        max_len >= 1,
        old(history)@.len() <= max_len,
    ensures
        final(history)@ == if old(history)@.len() < max_len {
            old(history)@.push(frame)
        } else {
            old(history)@.push(frame).skip(1)
        },
        final(history)@.len() <= max_len,
{
    history.push(frame);
    if history.len() > max_len {
        history.remove(0);
        proof {
            assert(history@ =~= old(history)@.push(frame).skip(1));
        }
    }
}

} // verus!
