use fretboard::chord_name_algorithm::{
    calculate_chord_name, find_note_name, sub_wrapping,
};

#[test]
fn names_major_and_minor_chords() {
    assert_eq!(calculate_chord_name([None, Some(3), Some(2), Some(0), Some(1), Some(0)]), Some("C".to_string()));
    assert_eq!(calculate_chord_name([None, Some(0), Some(2), Some(2), Some(1), Some(0)]), Some("Am".to_string()));
    assert_eq!(calculate_chord_name([Some(0), Some(2), Some(2), Some(1), Some(0), Some(0)]), Some("E".to_string()));
}

#[test]
fn names_chord_over_bass_note() {
    assert_eq!(calculate_chord_name([Some(3), Some(3), Some(2), Some(0), Some(1), Some(0)]), Some("C/G".to_string()));
}

#[test]
fn no_name_without_notes() {
    assert_eq!(calculate_chord_name([None; 6]), None);
}

#[test]
fn no_name_for_unknown_intervals() {
    // The notes A, D# and A: a tritone, which names no chord with or without the bass.
    assert_eq!(calculate_chord_name([None, Some(0), Some(1), Some(2), None, None]), None);
}

#[test]
fn names_seventh_and_added_chords() {
    // D7: D, A, C, F#
    assert_eq!(calculate_chord_name([None, None, Some(0), Some(2), Some(1), Some(2)]), Some("D7".to_string()));
    // Em7: E, B, D, G, B, E
    assert_eq!(calculate_chord_name([Some(0), Some(2), Some(0), Some(0), Some(0), Some(0)]), Some("Em7".to_string()));
    // Cadd9: C, E, G, D, E
    assert_eq!(calculate_chord_name([None, Some(3), Some(2), Some(0), Some(3), Some(0)]), Some("Cadd9".to_string()));
}

#[test]
fn repeated_notes_count_once() {
    // C major with the root and third doubled: intervals 0, 4, 7 after removing repeats.
    assert_eq!(calculate_chord_name([Some(8), Some(3), Some(2), Some(0), Some(1), Some(0)]), Some("C".to_string()));
}

#[test]
fn note_names() {
    assert_eq!(find_note_name(0), "A");
    assert_eq!(find_note_name(1), "A#");
    assert_eq!(find_note_name(11), "G#");
}

#[test]
fn wrapping_subtraction() {
    assert_eq!(sub_wrapping(7, 3, 12), 4);
    assert_eq!(sub_wrapping(3, 10, 12), 5);
    assert_eq!(sub_wrapping(0, 0, 12), 0);
}
