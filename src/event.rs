use vstd::prelude::*;

verus! {

/// Fixed-point representation of the normalized CC value `1.0`.
/// A value `v` stands for `v / VALUE_ONE`.
pub const VALUE_ONE: i64 = 1_000_000;

/// Largest valid MIDI channel (channels are `0..=15`).
pub const MAX_CHANNEL: u8 = 15;

/// Largest valid CC number (CC numbers are `0..=127`).
pub const MAX_CC: u8 = 127;

/// A MIDI continuous-controller event.
#[derive(Clone, Copy, Debug, PartialEq, Eq, Structural)]
pub struct CcEvent {
    /// Sample offset within the current block.
    pub timing: u32,
    pub channel: u8,
    pub cc: u8,
    /// Normalized value in fixed point, `VALUE_ONE` meaning `1.0`.
    pub value: i64,
}

/// An event of the block: a CC event, or any other event, which the engine
/// carries through untouched and knows only by its timing and an identifier
/// chosen by the host adapter.
#[derive(Clone, Copy, Debug, PartialEq, Eq, Structural)]
pub enum Event {
    Cc(CcEvent),
    Other { timing: u32, id: u64 },
}

impl CcEvent {
    /// All fields lie within their declared bounds.
    pub open spec fn well_formed(self) -> bool {
        self.channel <= MAX_CHANNEL && self.cc <= MAX_CC && 0 <= self.value <= VALUE_ONE
    }
}

impl Event {
    pub open spec fn timing_spec(self) -> u32 {
        match self {
            Event::Cc(e) => e.timing,
            Event::Other { timing, .. } => timing,
        }
    }

    /// The sample offset of the event within the block.
    pub fn timing(&self) -> (r: u32)
        ensures
            r == self.timing_spec(),
    {
        match self {
            Event::Cc(e) => e.timing,
            Event::Other { timing, .. } => *timing,
        }
    }
}

/// `v` clamped to the value range `[0, VALUE_ONE]`.
pub open spec fn clamp_value_spec(v: i64) -> i64 {
    if v < 0 {
        0
    } else if v > VALUE_ONE {
        VALUE_ONE
    } else {
        v
    }
}

/// The event with each field clamped to the nearest valid bound.
pub open spec fn sanitize_spec(e: CcEvent) -> CcEvent {
    CcEvent {
        timing: e.timing,
        channel: if e.channel > MAX_CHANNEL { MAX_CHANNEL } else { e.channel },
        cc: if e.cc > MAX_CC { MAX_CC } else { e.cc },
        value: clamp_value_spec(e.value),
    }
}

/// Clamps a value to `[0, VALUE_ONE]`.
pub fn clamp_value(v: i64) -> (r: i64)
    ensures
        r == clamp_value_spec(v),
        0 <= r <= VALUE_ONE,
        0 <= v <= VALUE_ONE ==> r == v,
{
    if v < 0 {
        0
    } else if v > VALUE_ONE {
        VALUE_ONE
    } else {
        v
    }
}

/// Clamps every field of a CC event to its declared bounds, keeping its
/// timing; a well-formed event comes back unchanged.
pub fn sanitize(e: CcEvent) -> (r: CcEvent)
    ensures
        r == sanitize_spec(e),
        r.well_formed(),
        e.well_formed() ==> r == e,
{
    CcEvent {
        timing: e.timing,
        channel: if e.channel > MAX_CHANNEL { MAX_CHANNEL } else { e.channel },
        cc: if e.cc > MAX_CC { MAX_CC } else { e.cc },
        value: clamp_value(e.value),
    }
}

} // verus!
