//! Real-time MIDI CC transformers: five policies (invert, latch, range
//! mapping, redirect, suppress) behind one dispatch loop, with their
//! behaviour stated and proved.

pub mod event;
pub mod params;
pub mod policy;
pub mod engine;
