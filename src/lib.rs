//! Procedural chart generation for a rhythm game: onset detection on
//! spectral energy, beat-grid quantization, lane assignment, hold
//! detection, difficulty shaping and chart assembly.
//!
//! Times are integer microseconds, tempos are thousandths of a beat per
//! minute and energies are non-negative integers; the floating-point
//! spectral transform that produces the energies lives with the caller.

pub mod note;
pub mod quantizer;
pub mod onset;
pub mod flux;
pub mod holds;
pub mod lanes;
pub mod difficulty;
pub mod text;
pub mod chart;
pub mod input;
pub mod game;
pub mod bands;
pub mod hq;
pub mod spectrogram;
