//! A step-sequencer synthesizer engine.
//!
//! The engine renders audio one sample at a time in fixed-point arithmetic:
//! gains and samples are Q15 values (`GAIN_ONE` is full scale), oscillator
//! phase runs over `PHASE_ONE` units per cycle, frequencies are in millihertz
//! and envelope stage lengths in milliseconds.  A [`sequencer::Sequencer`]
//! owns a list of [`track::Track`]s, each backed by a stack of
//! [`voice::Voice`]s, advances a discrete step clock and mixes every voice
//! into one output sample.

pub mod parser;
pub mod pitch;
pub mod sequencer;
pub mod track;
pub mod voice;

pub use parser::parse_i32;
pub use parser::parse_pattern;
pub use parser::parse_track_line;
pub use pitch::midi_to_freq;
pub use pitch::minor_scale;
pub use pitch::note_to_semitone;
pub use sequencer::ProjectData;
pub use sequencer::Sequencer;
pub use track::Track;
pub use voice::Voice;
pub use voice::Waveform;
