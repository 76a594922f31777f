//! A verified model of a pedal-steel guitar neck.
//!
//! The library covers the copedent (which strings each pedal or knee lever
//! raises or lowers, and by how many semitones), the composition of
//! simultaneously engaged positions into a per-string offset vector, the
//! generation of the pitch sounding at every string/fret cell of a twelve-fret
//! neck, the search for cells whose pitch belongs to a target note set, and
//! the search for frets on which every tone of a chord sounds at once.

pub mod copedent;
pub mod guitar;
pub mod pitch;
pub mod tunings;
