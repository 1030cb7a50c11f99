//! An equal-temperament pitch model: the twelve pitch classes, octave-aware
//! note names with sharp and flat spellings, integer semitone arithmetic
//! around the 440 Hz reference pitch A4, and scale generation from interval
//! patterns.

pub mod laws;
pub mod notes;

pub use notes::Note;
pub use notes::NoteError;
pub use notes::NoteWithOctave;
pub use notes::Scale;
pub use notes::ScaleType;
