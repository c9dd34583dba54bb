//! Guitar timbre configuration: the parameters of the plucked-string
//! model, with named presets for common instruments.
//!
//! Unit-interval parameters (decay, dampings, tension, volume) are held in
//! micro-units; body resonance in millihertz; scale length in thousandths
//! of an inch.

use crate::fixed::UNIT;
use vstd::prelude::*;

verus! {

#[derive(Clone, Copy, Debug, PartialEq, Eq, Structural)]
pub enum GuitarType {
    Custom,
    Acoustic,
    Classical,
    Electric,
    Bass,
    TwelveString,
}

impl GuitarType {
    /// The display name of the guitar type.
    pub open spec fn spec_name(self) -> Seq<char> {
        match self {
            GuitarType::Custom => "Custom"@,
            GuitarType::Acoustic => "Acoustic"@,
            GuitarType::Classical => "Classical"@,
            GuitarType::Electric => "Electric"@,
            GuitarType::Bass => "Bass"@,
            GuitarType::TwelveString => "Twelve string"@,
        }
    }

    pub fn name_string(&self) -> (r: String)
        ensures
            r@ == self.spec_name(),
    {
        match self {
            GuitarType::Custom => String::from_str("Custom"),
            GuitarType::Acoustic => String::from_str("Acoustic"),
            GuitarType::Classical => String::from_str("Classical"),
            GuitarType::Electric => String::from_str("Electric"),
            GuitarType::Bass => String::from_str("Bass"),
            GuitarType::TwelveString => String::from_str("Twelve string"),
        }
    }
}

/// Timbre parameters of the plucked-string model. Mutable at any time;
/// sounding voices re-read decay, damping and body parameters each
/// sample, so a change is heard immediately.
#[derive(Clone, Copy, Debug)]
pub struct GuitarConfig {
    /// Feedback gain of the string delay line, micro-units of 0..=1.
    pub decay: u32,
    /// Lowpass mix between the current and next delay samples, micro-units.
    pub string_damping: u32,
    /// Body resonance frequency, millihertz.
    pub body_resonance: u32,
    /// Attenuation of the body tap, micro-units of 0..=1.
    pub body_damping: u32,
    /// Excitation amplitude of the pluck, micro-units of 0..=1.
    pub string_tension: u32,
    /// Scale length, thousandths of an inch.
    pub scale_length: u32,
    /// Fret number where the capo sits (0 = no capo).
    pub capo_fret: u8,
    pub name: GuitarType,
    /// Master volume, micro-units of 0..=1.
    pub volume: u32,
}

impl GuitarConfig {
    /// All unit-interval parameters really lie within the unit interval.
    pub open spec fn wf(self) -> bool {
        &&& self.decay <= UNIT
        &&& self.string_damping <= UNIT
        &&& self.body_damping <= UNIT
        &&& self.string_tension <= UNIT
        &&& self.volume <= UNIT
    }

    pub fn acoustic() -> (r: GuitarConfig)
        ensures
            r.name == GuitarType::Acoustic,
            r.decay == 995_000,
            r.string_damping == 400_000,
            r.body_resonance == 150_000,
            r.body_damping == 200_000,
            r.string_tension == 800_000,
            r.scale_length == 25_500,
            r.capo_fret == 0,
            r.volume == 500_000,
            r.wf(),
    {
        GuitarConfig {
            name: GuitarType::Acoustic,
            decay: 995_000,
            string_damping: 400_000,
            body_resonance: 150_000,
            body_damping: 200_000,
            string_tension: 800_000,
            scale_length: 25_500,
            capo_fret: 0,
            volume: 500_000,
        }
    }

    pub fn electric() -> (r: GuitarConfig)
        ensures
            r.name == GuitarType::Electric,
            r.decay == 999_000,
            r.string_damping == 100_000,
            r.body_resonance == 70_000,
            r.body_damping == 800_000,
            r.string_tension == 800_000,
            r.scale_length == 25_500,
            r.capo_fret == 0,
            r.volume == 500_000,
            r.wf(),
    {
        GuitarConfig {
            name: GuitarType::Electric,
            decay: 999_000,
            string_damping: 100_000,
            body_resonance: 70_000,
            body_damping: 800_000,
            string_tension: 800_000,
            scale_length: 25_500,
            capo_fret: 0,
            volume: 500_000,
        }
    }

    pub fn classical() -> (r: GuitarConfig)
        ensures
            r.name == GuitarType::Classical,
            r.decay == 990_000,
            r.string_damping == 600_000,
            r.body_resonance == 120_000,
            r.body_damping == 300_000,
            r.string_tension == 500_000,
            r.scale_length == 25_600,
            r.capo_fret == 0,
            r.volume == 500_000,
            r.wf(),
    {
        GuitarConfig {
            name: GuitarType::Classical,
            decay: 990_000,
            string_damping: 600_000,
            body_resonance: 120_000,
            body_damping: 300_000,
            string_tension: 500_000,
            scale_length: 25_600,
            capo_fret: 0,
            volume: 500_000,
        }
    }

    pub fn bass_guitar() -> (r: GuitarConfig)
        ensures
            r.name == GuitarType::Bass,
            r.decay == 997_000,
            r.string_damping == 300_000,
            r.body_resonance == 0,
            r.body_damping == 900_000,
            r.string_tension == 900_000,
            r.scale_length == 34_000,
            r.capo_fret == 0,
            r.volume == 500_000,
            r.wf(),
    {
        GuitarConfig {
            name: GuitarType::Bass,
            decay: 997_000,
            string_damping: 300_000,
            body_resonance: 0,
            body_damping: 900_000,
            string_tension: 900_000,
            scale_length: 34_000,
            capo_fret: 0,
            volume: 500_000,
        }
    }

    pub fn twelve_string() -> (r: GuitarConfig)
        ensures
            r.name == GuitarType::TwelveString,
            r.decay == 994_000,
            r.string_damping == 500_000,
            r.body_resonance == 150_000,
            r.body_damping == 200_000,
            r.string_tension == 900_000,
            r.scale_length == 25_500,
            r.capo_fret == 0,
            r.volume == 500_000,
            r.wf(),
    {
        GuitarConfig {
            name: GuitarType::TwelveString,
            decay: 994_000,
            string_damping: 500_000,
            body_resonance: 150_000,
            body_damping: 200_000,
            string_tension: 900_000,
            scale_length: 25_500,
            capo_fret: 0,
            volume: 500_000,
        }
    }

    /// A custom configuration; the capo fret is clamped to a 24-fret neck.
    pub fn custom(
        decay: u32,
        string_damping: u32,
        body_resonance: u32,
        body_damping: u32,
        string_tension: u32,
        scale_length: u32,
        capo_fret: u8,
        volume: u32,
    ) -> (r: GuitarConfig)
        requires
            decay <= UNIT,
            string_damping <= UNIT,
            body_damping <= UNIT,
            string_tension <= UNIT,
            volume <= UNIT,
        ensures
            r.name == GuitarType::Custom,
            r.decay == decay,
            r.string_damping == string_damping,
            r.body_resonance == body_resonance,
            r.body_damping == body_damping,
            r.string_tension == string_tension,
            r.scale_length == scale_length,
            r.capo_fret == (if capo_fret > 24 {
                24u8
            } else {
                capo_fret
            }),
            r.volume == volume,
            r.wf(),
    {
        let validated_capo_fret: u8 = if capo_fret > 24 {
            24
        } else {
            capo_fret
        };
        GuitarConfig {
            decay,
            string_damping,
            body_resonance,
            body_damping,
            string_tension,
            scale_length,
            capo_fret: validated_capo_fret,
            name: GuitarType::Custom,
            volume,
        }
    }
}

} // verus!
