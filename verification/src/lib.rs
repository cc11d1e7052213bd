//! Chord logic for a guitar chord finder: naming chords from fingerings,
//! normalising chord names, fingering geometry, the chord file and the
//! chord database, and the state logic of the chord diagram, the name entry
//! and the bookmarks.

pub mod bookmarks;
pub mod chord_diagram;
pub mod chord_file;
pub mod chord_name_algorithm;
pub mod chord_name_entry;
pub mod chord_ops;
pub mod chord_preview;
pub mod chords;
pub mod database;
pub mod session;
pub mod text;
