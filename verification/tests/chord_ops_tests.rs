use fretboard::chord_ops::{
    adjust_chord, enharmonic_equivalent, find_barre_length, lowest_fingered_fret,
    prettify_chord_name, serialize_chord_name,
};

#[test]
fn prettify_marks_sharps_and_spaces_qualities() {
    assert_eq!(prettify_chord_name("c#maj7"), "C♯ maj7");
    assert_eq!(prettify_chord_name("am7b5"), "Am7♭5");
    assert_eq!(prettify_chord_name("bbdim7"), "B♭ dim7");
    assert_eq!(prettify_chord_name("  f aug "), "F aug");
}

#[test]
fn prettify_capitalises_bass_note() {
    assert_eq!(prettify_chord_name("ab/eb"), "A♭/E♭");
    assert_eq!(prettify_chord_name("C/G"), "C/G");
}

#[test]
fn prettify_handles_empty_and_unicode_whitespace() {
    assert_eq!(prettify_chord_name(""), "");
    assert_eq!(prettify_chord_name("\u{3000}g\u{a0}m"), "Gm");
}

#[test]
fn prettify_keeps_b_after_other_letters() {
    // `#` after a letter that is not a note, and `b` after `c`, stay as written.
    assert_eq!(prettify_chord_name("cb"), "Cb");
    assert_eq!(prettify_chord_name("x#"), "X#");
}

#[test]
fn serialize_undoes_display_styling() {
    assert_eq!(serialize_chord_name("C♯ maj7"), "c#maj7");
    assert_eq!(serialize_chord_name("B♭ dim7"), "bbdim7");
    assert_eq!(serialize_chord_name(" A m "), "am");
}

#[test]
fn law_serialize_after_prettify() {
    for name in ["c#maj7", "Am7b5", "ab/eb", "B♭ DIM", "g # sus4", "", "x/y#b", "Émaj"] {
        assert_eq!(
            serialize_chord_name(&prettify_chord_name(name)),
            serialize_chord_name(name)
        );
    }
}

#[test]
fn law_prettify_idempotent() {
    for name in ["c#maj7", "Am7b5", "ab/eb", "bbb", "dimaug", "a#/g#", "", "2b4#7b"] {
        let once = prettify_chord_name(name);
        assert_eq!(prettify_chord_name(&once), once);
    }
}

#[test]
fn enharmonic_equivalents() {
    assert_eq!(enharmonic_equivalent("c#m"), Some("db"));
    assert_eq!(enharmonic_equivalent("bbmaj7"), Some("a#"));
    assert_eq!(enharmonic_equivalent("gb"), Some("f#"));
    assert_eq!(enharmonic_equivalent("e"), None);
    assert_eq!(enharmonic_equivalent(""), None);
    assert_eq!(enharmonic_equivalent("cb"), None);
    assert_eq!(enharmonic_equivalent("C#"), None);
}

#[test]
fn law_enharmonic_involution() {
    for name in ["c#", "d#m", "f#7", "g#sus2", "a#", "db", "eb", "gbmaj7", "ab", "bbm"] {
        let other = enharmonic_equivalent(name).unwrap();
        assert_eq!(enharmonic_equivalent(other), Some(&name[0..2]));
    }
}

#[test]
fn barre_across_all_strings() {
    let f_major = [Some(1), Some(3), Some(3), Some(2), Some(1), Some(1)];
    assert_eq!(find_barre_length(f_major), 6);
}

#[test]
fn barre_stops_at_muted_string() {
    let b_minor = [None, Some(1), Some(3), Some(3), Some(2), Some(1)];
    assert_eq!(find_barre_length(b_minor), 5);
    assert_eq!(find_barre_length([None, None, Some(1), Some(1), Some(1), Some(1)]), 4);
}

#[test]
fn barre_only_in_run_from_last_string() {
    assert_eq!(find_barre_length([Some(1), Some(1), Some(0), Some(1), Some(1), Some(1)]), 3);
    assert_eq!(find_barre_length([Some(1), Some(1), Some(1), Some(2), Some(3), Some(0)]), 0);
}

#[test]
fn no_barre_for_single_first_fret() {
    assert_eq!(find_barre_length([Some(0), Some(2), Some(2), Some(1), Some(0), Some(0)]), 0);
    assert_eq!(find_barre_length([None, Some(3), Some(2), Some(0), Some(1), Some(0)]), 0);
    assert_eq!(find_barre_length([None; 6]), 0);
}

#[test]
fn lowest_fret_of_special_chords_is_first() {
    assert_eq!(lowest_fingered_fret([None, Some(0), Some(2), Some(2), Some(2), Some(0)]), Some(1));
    assert_eq!(lowest_fingered_fret([Some(3), Some(2), Some(0), Some(0), Some(0), Some(3)]), Some(1));
}

#[test]
fn lowest_fret_is_minimum_pressed() {
    assert_eq!(lowest_fingered_fret([None, Some(3), Some(5), Some(5), Some(4), Some(3)]), Some(3));
    assert_eq!(lowest_fingered_fret([Some(0), Some(7), Some(0), Some(9), None, Some(8)]), Some(7));
    assert_eq!(lowest_fingered_fret([Some(0), None, Some(0), None, Some(0), None]), None);
}

#[test]
fn lowest_fret_wraps_as_u8() {
    assert_eq!(lowest_fingered_fret([None, Some(300), None, None, None, None]), Some(44));
}

#[test]
fn adjust_moves_pressed_frets_only() {
    let c = [None, Some(3), Some(5), Some(5), Some(4), Some(3)];
    assert_eq!(adjust_chord(c, 3), [None, Some(1), Some(3), Some(3), Some(2), Some(1)]);
    assert_eq!(adjust_chord(c, 1), c);
    assert_eq!(adjust_chord(c, 0), c);
    assert_eq!(adjust_chord([Some(0), Some(7), None, None, None, None], 5), [Some(0), Some(3), None, None, None, None]);
}

#[test]
fn law_serialize_idempotent() {
    for name in ["C♯ maj7", "B♭ dim7", " A m ", "", "É\u{2003}x"] {
        let once = serialize_chord_name(name);
        assert_eq!(serialize_chord_name(&once), once);
    }
}
