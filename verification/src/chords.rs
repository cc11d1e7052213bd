//! Loading the chord list from the text of the chord file.

use vstd::prelude::*;
use crate::chord_file::{chord_entry, parse_chord_file, parse_chord_file_spec};
pub use crate::database::Chord;

verus! {

/// The chords listed by the text of the chord file, in order. A text that
/// is not a chord file is a fatal error of the program and is left out;
/// `parse_chord_file` tests it.
pub fn load_chords(raw_data: &str) -> (r: Vec<Chord>)
    requires
        parse_chord_file_spec(raw_data@) is Some,
    ensures
        parse_chord_file_spec(raw_data@) == Some(r@.map_values(|c: Chord| chord_entry(c))),
{
    match parse_chord_file(raw_data) {
        Some(chords) => chords,
        None => Vec::new(),
    }
}

} // verus!
