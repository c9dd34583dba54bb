//! The wall-clock-driven playback scheduler: it converts elapsed time into
//! a `(measure, division)` position of the score and reports when a new
//! division is entered, so that voices can be spawned and the expected
//! notes republished.
//!
//! Time is held as an integer count of nanoseconds; the length of one
//! division is the exact rational `60e9 / (tempo * divisions_per_quarter)`
//! nanoseconds, so positions are computed without rounding drift.

use crate::music::{Note, Score};
use vstd::prelude::*;

verus! {

pub const NANOS_PER_MINUTE: u64 = 60_000_000_000;

#[verifier::external_type_specification]
#[verifier::external_body]
pub struct ExInstant(std::time::Instant);

/// Relies on `std::time::Instant::now`: a fresh reading of the monotonic
/// clock. Nothing can be promised of its value.
#[verifier::external_body]
fn now_instant() -> std::time::Instant {
    std::time::Instant::now()
}

/// Relies on `std::time::Instant::elapsed`: the time since `start` was
/// read, converted to whole nanoseconds. Nothing can be promised of its
/// value.
#[verifier::external_body]
fn nanos_since(start: &std::time::Instant) -> u64 {
    start.elapsed().as_nanos() as u64
}

/// How many whole divisions fit into `elapsed_nanos` at the given tempo:
/// `floor(elapsed / seconds_per_division)` with
/// `seconds_per_division == 60 / (tempo * divisions_per_quarter)`.
pub open spec fn spec_divisions_elapsed(elapsed_nanos: int, tempo: int, dpq: int) -> int {
    elapsed_nanos * tempo * dpq / (NANOS_PER_MINUTE as int)
}

/// The nanosecond length of a whole score:
/// `measures * divisions_per_measure * seconds_per_division`, floored.
pub open spec fn spec_total_duration_nanos(
    measures: int,
    dpm: int,
    tempo: int,
    dpq: int,
) -> int {
    measures * dpm * (NANOS_PER_MINUTE as int) / (tempo * dpq)
}

/// The `(measure, division)` position after `elapsed_nanos`, with the
/// measure clamped to the last one of the score.
pub open spec fn spec_position(
    elapsed_nanos: int,
    tempo: int,
    dpq: int,
    dpm: int,
    total_measures: int,
) -> (int, int) {
    let tde = spec_divisions_elapsed(elapsed_nanos, tempo, dpq);
    let cm = tde / dpm;
    let cd = tde % dpm;
    (if cm < total_measures - 1 { cm } else { total_measures - 1 }, cd)
}

/// Tracks wall-clock playback of a score. `Stopped` is represented by
/// `start_time == None`; stopping discards the position, so playback
/// always restarts at the first division of the first measure.
pub struct TimeScrubber {
    pub start_time: Option<std::time::Instant>,
    pub total_duration_nanos: Option<u128>,
    pub tempo: usize,
    pub divisions_per_quarter: u8,
    pub current_division: Option<usize>,
    pub current_measure: Option<usize>,
}

impl TimeScrubber {
    /// A scrubber for `score`, at the score's own tempo or at a caller
    /// override.
    pub fn new(score: &Score, tempo: Option<usize>) -> (r: TimeScrubber)
        requires
            (match tempo {
                Some(t) => t > 0,
                None => score.tempo > 0,
            }),
            score.divisions_per_quarter > 0,
        ensures
            r.tempo == (match tempo {
                Some(t) => t,
                None => score.tempo,
            }),
            r.divisions_per_quarter == score.divisions_per_quarter,
            r.start_time is None,
            r.current_measure is None,
            r.current_division is None,
            r.total_duration_nanos == Some(
                spec_total_duration_nanos(
                    score.measures@.len() as int,
                    score.divisions_per_measure as int,
                    r.tempo as int,
                    score.divisions_per_quarter as int,
                ) as u128,
            ),
    {
        let effective_tempo: usize = match tempo {
            Some(t) => t,
            None => score.tempo,
        };
        let len: usize = score.measures.len();
        let dpm: u8 = score.divisions_per_measure;
        proof {
            assert((len as int) * (dpm as int) * (NANOS_PER_MINUTE as int) < u128::MAX)
                by (nonlinear_arith)
                requires
                    (len as int) < 0x10000000000000000,
                    dpm as int <= 255,
                    NANOS_PER_MINUTE == 60_000_000_000u64,
            ;
            assert(1 <= (effective_tempo as int) * (score.divisions_per_quarter as int)
                < u128::MAX) by (nonlinear_arith)
                requires
                    1 <= (effective_tempo as int) < 0x10000000000000000,
                    1 <= score.divisions_per_quarter as int <= 255,
            ;
        }
        let numerator: u128 = (len as u128) * (dpm as u128) * (NANOS_PER_MINUTE as u128);
        let denominator: u128 = (effective_tempo as u128) * (score.divisions_per_quarter as u128);
        let total: u128 = numerator / denominator;
        TimeScrubber {
            start_time: None,
            total_duration_nanos: Some(total),
            tempo: effective_tempo,
            divisions_per_quarter: score.divisions_per_quarter,
            current_division: None,
            current_measure: None,
        }
    }

    /// Starts the clock if it is not already running and the score has a
    /// known duration.
    pub fn start(&mut self)
        ensures
            final(self).total_duration_nanos == old(self).total_duration_nanos,
            final(self).tempo == old(self).tempo,
            final(self).divisions_per_quarter == old(self).divisions_per_quarter,
            final(self).current_measure == old(self).current_measure,
            final(self).current_division == old(self).current_division,
            old(self).start_time is Some ==> final(self).start_time == old(self).start_time,
            (old(self).start_time is None && old(self).total_duration_nanos is Some)
                ==> final(self).start_time is Some,
            (old(self).start_time is None && old(self).total_duration_nanos is None)
                ==> final(self).start_time is None,
    {
        if self.start_time.is_none() && self.total_duration_nanos.is_some() {
            self.start_time = Some(now_instant());
        }
    }

    /// Stops playback and discards the position: the clock is cleared and
    /// the current measure and division are forgotten, so the next start
    /// begins again at the origin.
    pub fn stop(&mut self)
        ensures
            final(self).start_time is None,
            final(self).current_measure is None,
            final(self).current_division is None,
            final(self).total_duration_nanos == old(self).total_duration_nanos,
            final(self).tempo == old(self).tempo,
            final(self).divisions_per_quarter == old(self).divisions_per_quarter,
    {
        self.start_time = None;
        self.current_measure = None;
        self.current_division = None;
    }

    /// Nanoseconds of playback so far: zero when stopped, the monotonic
    /// clock's reading while running.
    pub fn elapsed(&self) -> (r: u64)
        ensures
            self.start_time is None ==> r == 0,
    {
        match self.start_time {
            Some(start) => nanos_since(&start),
            None => 0,
        }
    }

    /// The `(measure, division)` slot that `elapsed_nanos` falls in, with
    /// the measure clamped to the score's last one.
    pub fn calculate_current_time(
        &self,
        elapsed_nanos: u64,
        divisions_per_measure: usize,
        total_measures: usize,
    ) -> (r: (usize, usize))
        requires
            1 <= self.tempo <= 0xFFFF_FFFF,
            self.divisions_per_quarter >= 1,
            divisions_per_measure >= 1,
            total_measures >= 1,
        ensures
            r.0 == spec_position(
                elapsed_nanos as int,
                self.tempo as int,
                self.divisions_per_quarter as int,
                divisions_per_measure as int,
                total_measures as int,
            ).0,
            r.1 == spec_position(
                elapsed_nanos as int,
                self.tempo as int,
                self.divisions_per_quarter as int,
                divisions_per_measure as int,
                total_measures as int,
            ).1,
    {
        proof {
            assert((elapsed_nanos as int) * (self.tempo as int) < 0x1000000000000000000000000
                && (elapsed_nanos as int) * (self.tempo as int) * (
            self.divisions_per_quarter as int) < u128::MAX) by (nonlinear_arith)
                requires
                    (elapsed_nanos as int) < 0x10000000000000000,
                    (self.tempo as int) <= 0xFFFF_FFFF,
                    self.divisions_per_quarter as int <= 255,
            ;
        }
        let total_divisions_elapsed: u128 = (elapsed_nanos as u128) * (self.tempo as u128) * (
        self.divisions_per_quarter as u128) / (NANOS_PER_MINUTE as u128);
        let current_measure: u128 = total_divisions_elapsed / (divisions_per_measure as u128);
        let current_division: u128 = total_divisions_elapsed % (divisions_per_measure as u128);
        let clamped: usize = if current_measure < (total_measures - 1) as u128 {
            current_measure as usize
        } else {
            total_measures - 1
        };
        (clamped, current_division as usize)
    }

    /// True once `elapsed_nanos` has passed the score's total duration
    /// (or when no duration is known), i.e. when playback must stop.
    pub fn finished(&self, elapsed_nanos: u64) -> (r: bool)
        ensures
            r == (match self.total_duration_nanos {
                Some(total) => elapsed_nanos >= total,
                None => true,
            }),
    {
        match self.total_duration_nanos {
            Some(total) => elapsed_nanos as u128 >= total,
            None => true,
        }
    }

    /// One scheduler poll: given the elapsed time, returns the new
    /// `(measure, division)` slot if playback continues and the slot
    /// differs from the last one dispatched, recording it; returns `None`
    /// with the state unchanged otherwise.
    pub fn tick(&mut self, score: &Score, elapsed_nanos: u64) -> (r: Option<(usize, usize)>)
        requires
            1 <= old(self).tempo <= 0xFFFF_FFFF,
            old(self).divisions_per_quarter >= 1,
            score.divisions_per_measure >= 1,
            score.measures@.len() >= 1,
        ensures
            final(self).total_duration_nanos == old(self).total_duration_nanos,
            final(self).tempo == old(self).tempo,
            final(self).divisions_per_quarter == old(self).divisions_per_quarter,
            final(self).start_time == old(self).start_time,
            ({
                let pos = spec_position(
                    elapsed_nanos as int,
                    old(self).tempo as int,
                    old(self).divisions_per_quarter as int,
                    score.divisions_per_measure as int,
                    score.measures@.len() as int,
                );
                let over = match old(self).total_duration_nanos {
                    Some(total) => elapsed_nanos >= total,
                    None => true,
                };
                if over {
                    r is None && final(self).current_measure == old(self).current_measure
                        && final(self).current_division == old(self).current_division
                } else if old(self).current_measure == Some(pos.0 as usize)
                    && old(self).current_division == Some(pos.1 as usize) {
                    r is None && final(self).current_measure == old(self).current_measure
                        && final(self).current_division == old(self).current_division
                } else {
                    r == Some((pos.0 as usize, pos.1 as usize)) && final(self).current_measure
                        == Some(pos.0 as usize) && final(self).current_division == Some(
                        pos.1 as usize,
                    )
                }
            }),
    {
        if self.finished(elapsed_nanos) {
            return None;
        }
        let (measure, division) = self.calculate_current_time(
            elapsed_nanos,
            score.divisions_per_measure as usize,
            score.measures.len(),
        );
        let same_measure = match self.current_measure {
            Some(m) => m == measure,
            None => false,
        };
        let same_division = match self.current_division {
            Some(d) => d == division,
            None => false,
        };
        if same_measure && same_division {
            None
        } else {
            self.current_measure = Some(measure);
            self.current_division = Some(division);
            Some((measure, division))
        }
    }
}

/// The currently expected notes, shared between the scheduler (writer) and
/// the matcher (reader), with the flag that records whether a similarity
/// verdict was already produced for them.
pub struct ExpectedNotes {
    pub notes: Option<Vec<Note>>,
    pub matched: bool,
}

impl ExpectedNotes {
    /// No notes expected yet; the flag starts raised so that nothing is
    /// matched before the first publication.
    pub fn new() -> (r: ExpectedNotes)
        ensures
            r.notes is None,
            r.matched,
    {
        ExpectedNotes { notes: None, matched: true }
    }

    /// Publishes a new note set and lowers the matched flag in the same
    /// step, so the matcher can never pair a stale flag with new notes.
    pub fn publish(&mut self, notes: Vec<Note>)
        ensures
            final(self).notes == Some(notes),
            !final(self).matched,
    {
        self.notes = Some(notes);
        self.matched = false;
    }

    /// Forgets the expected notes, as stopping playback requires.
    pub fn clear(&mut self)
        ensures
            final(self).notes is None,
            final(self).matched,
    {
        self.notes = None;
        self.matched = true;
    }

    /// Records that a verdict was produced for the current note set.
    pub fn mark_matched(&mut self)
        ensures
            final(self).notes == old(self).notes,
            final(self).matched,
    {
        self.matched = true;
    }
}

/// Law: at elapsed time zero the scheduler's position is the first
/// division of the first measure, whatever the tempo; with `stop`
/// discarding the clock and the position, a playback started after a stop
/// therefore begins at `(0, 0)`.
pub proof fn lemma_restart_begins_at_origin(tempo: int, dpq: int, dpm: int, total_measures: int)
    requires
        tempo >= 0,
        dpq >= 0,
        dpm >= 1,
        total_measures >= 1,
    ensures
        spec_position(0, tempo, dpq, dpm, total_measures) == (0int, 0int),
{
    assert(0int * tempo * dpq == 0) by (nonlinear_arith);
    assert(spec_divisions_elapsed(0, tempo, dpq) == 0int / (NANOS_PER_MINUTE as int));
    assert(spec_divisions_elapsed(0, tempo, dpq) == 0);
    assert(0int / dpm == 0);
    assert(0int % dpm == 0);
}

} // verus!
