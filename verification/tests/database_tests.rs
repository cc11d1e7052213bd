use fretboard::chord_file::parse_chord_file;
use fretboard::chords::load_chords;
use fretboard::database::{Chord, ChordsDatabase};

const DATA: &str = "C\nx 3 2 0 1 0\nx 3 5 5 5 3\n\nAm\nx 0 2 2 1 0\n\nA\nx 0 2 2 2 0\n";

fn names(chords: &[Chord]) -> Vec<&str> {
    chords.iter().map(|c| c.name.as_str()).collect()
}

#[test]
fn loads_chords_in_order() {
    let db = ChordsDatabase::load(DATA);
    assert_eq!(names(&db.0), vec!["C", "Am", "A"]);
    assert_eq!(
        db.0[0].positions,
        vec![
            [None, Some(3), Some(2), Some(0), Some(1), Some(0)],
            [None, Some(3), Some(5), Some(5), Some(5), Some(3)]
        ]
    );
}

#[test]
fn load_chords_reads_the_same_format() {
    let chords = load_chords(DATA);
    assert_eq!(names(&chords), vec!["C", "Am", "A"]);
    assert_eq!(chords[1].positions, vec![[None, Some(0), Some(2), Some(2), Some(1), Some(0)]]);
}

#[test]
fn accepts_crlf_and_plus_signs() {
    let db = ChordsDatabase::load("G\r\n+3 2 0 0 0 +3\r\n");
    assert_eq!(names(&db.0), vec!["G"]);
    assert_eq!(db.0[0].positions, vec![[Some(3), Some(2), Some(0), Some(0), Some(0), Some(3)]]);
}

#[test]
fn name_without_fingerings_is_a_chord() {
    let db = ChordsDatabase::try_load("Lonely").unwrap();
    assert_eq!(names(&db.0), vec!["Lonely"]);
    assert!(db.0[0].positions.is_empty());
}

#[test]
fn rejects_malformed_files() {
    // too few fields
    assert!(ChordsDatabase::try_load("C\nx 3 2 0 1\n").is_none());
    // two spaces make an empty field
    assert!(ChordsDatabase::try_load("C\nx  3 2 0 1 0\n").is_none());
    // not a number
    assert!(ChordsDatabase::try_load("C\nx 3 2 0 1 o\n").is_none());
    // a number beyond usize
    assert!(ChordsDatabase::try_load("C\nx 3 2 0 1 99999999999999999999999\n").is_none());
    // an empty text is one empty group
    assert!(ChordsDatabase::try_load("").is_none());
    // two blank lines make an empty group
    assert!(ChordsDatabase::try_load("C\nx 3 2 0 1 0\n\n\nAm\nx 0 2 2 1 0\n").is_none());
    assert!(parse_chord_file("\n").is_none());
}

#[test]
fn finds_chord_by_name_ignoring_case() {
    let db = ChordsDatabase::load(DATA);
    assert_eq!(db.chord_from_name("am").map(|c| c.name.as_str()), Some("Am"));
    assert_eq!(db.chord_from_name("AM").map(|c| c.name.as_str()), Some("Am"));
    assert_eq!(db.chord_from_name("c").map(|c| c.name.as_str()), Some("C"));
    assert!(db.chord_from_name("Dm").is_none());
}

#[test]
fn finds_first_chord_with_name() {
    let db = ChordsDatabase::load("X\nx 0 0 0 0 0\n\nx\n0 0 0 0 0 0\n");
    assert_eq!(db.chord_from_name("X").unwrap().positions[0][0], None);
}

#[test]
fn finds_name_by_fingering() {
    let db = ChordsDatabase::load(DATA);
    assert_eq!(db.name_from_chord([None, Some(3), Some(5), Some(5), Some(5), Some(3)]), Some("C".to_string()));
    assert_eq!(db.name_from_chord([None, Some(0), Some(2), Some(2), Some(2), Some(0)]), Some("A".to_string()));
    assert_eq!(db.name_from_chord([None, Some(0), Some(2), Some(2), Some(3), Some(0)]), None);
}
