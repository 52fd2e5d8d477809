//! Conversion core for rhythm-game song charts: tempo-map timing, MIDI event
//! reduction, chart-notation parsing, and note/phrase reduction into
//! beat and lyric events.

pub mod audio;
pub mod builder;
pub mod chart;
pub mod chart_parser;
pub mod img;
pub mod meta;
pub mod midi;
pub mod pack;
pub mod render;
pub mod sort;
pub mod tempo;
pub mod xml;

use vstd::prelude::*;

verus! {

/// Largest tick position the timing engine accepts; keeps every
/// `mpq * delta_tick` product and every accumulated time sum inside `u64`.
pub const MAX_TICK: u64 = 0x20_0000_0000;

/// Largest microseconds-per-quarter value a tempo event may carry
/// (60 BPM written as whole beats-per-minute yields 60_000_000).
pub const MAX_MPQ: u32 = 60_000_000;

/// Microseconds per quarter note at the default 120 BPM tempo.
pub const DEFAULT_MPQ: u32 = 500_000;

/// Default ticks-per-quarter resolution used when a source declares none.
pub const DEFAULT_TPQ: u16 = 480;

} // verus!
