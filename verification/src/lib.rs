//! A fixed-point renderer for multi-track, note-based scores.
//!
//! A [`song::Song`] is a collection of tracks, each an instrument plus a set
//! of notes. Rendering evaluates every note's waveform sample by sample in
//! exact integer arithmetic, mixes overlapping notes additively, quantizes
//! the mix to 16-bit samples, and serializes the result as a chunked
//! RIFF/WAVE byte stream, ready to be written to a file in one shot.

pub mod buffer;
pub mod mix;
pub mod osc;
pub mod render;
pub mod song;
pub mod wave;
