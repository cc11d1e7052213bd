use fretboard::bookmarks::{add_bookmark, is_bookmarked, remove_bookmark, Bookmark};
use fretboard::database::{Chord, ChordsDatabase};
use fretboard::session::{
    bookmark_chord, chord_for_name, chord_for_name_checked, empty_chord, initial_chord, name_for_chord, star_shown,
    variants_for_name, FeedbackPage,
};

const DATA: &str = "C\nx 3 2 0 1 0\nx 3 5 5 5 3\n\nAm\nx 0 2 2 1 0\n";

fn bm(name: &str, chord: [Option<usize>; 6]) -> Bookmark {
    Bookmark { name: name.to_string(), chord }
}

fn names(list: &[Bookmark]) -> Vec<&str> {
    list.iter().map(|b| b.name.as_str()).collect()
}

#[test]
fn fixed_chords() {
    assert_eq!(empty_chord(), [None; 6]);
    assert_eq!(initial_chord(), [None, Some(3), Some(2), Some(0), Some(1), Some(0)]);
}

#[test]
fn page_names() {
    assert_eq!(FeedbackPage::Empty.child_name(), "empty");
    assert_eq!(FeedbackPage::Label.child_name(), "label");
    assert_eq!(FeedbackPage::ChordActions.child_name(), "chord-actions");
}

#[test]
fn chord_for_known_and_unknown_names() {
    let db = ChordsDatabase::load(DATA);
    assert_eq!(
        chord_for_name(&db, "c"),
        ([None, Some(3), Some(2), Some(0), Some(1), Some(0)], FeedbackPage::ChordActions)
    );
    assert_eq!(chord_for_name(&db, "F#"), ([None; 6], FeedbackPage::Label));
}

#[test]
fn checked_chord_lookup() {
    let db = ChordsDatabase::load(DATA);
    assert_eq!(
        chord_for_name_checked(&db, "AM"),
        Some(([None, Some(0), Some(2), Some(2), Some(1), Some(0)], FeedbackPage::ChordActions))
    );
    assert_eq!(chord_for_name_checked(&db, "G"), Some(([None; 6], FeedbackPage::Label)));
    let bare = ChordsDatabase(vec![Chord { name: "D".to_string(), positions: Vec::new() }]);
    assert_eq!(chord_for_name_checked(&bare, "d"), None);
    assert_eq!(chord_for_name_checked(&bare, "E"), Some(([None; 6], FeedbackPage::Label)));
}

#[test]
fn name_for_known_computed_and_unnamed_chords() {
    let db = ChordsDatabase::load(DATA);
    assert_eq!(
        name_for_chord(&db, [None, Some(3), Some(5), Some(5), Some(5), Some(3)]),
        ("C".to_string(), FeedbackPage::ChordActions)
    );
    assert_eq!(
        name_for_chord(&db, [Some(0), Some(2), Some(2), Some(1), Some(0), Some(0)]),
        ("E".to_string(), FeedbackPage::ChordActions)
    );
    assert_eq!(name_for_chord(&db, [None; 6]), (String::new(), FeedbackPage::Label));
}

#[test]
fn variants() {
    let db = ChordsDatabase::load(DATA);
    assert_eq!(variants_for_name(&db, "C").len(), 2);
    assert_eq!(variants_for_name(&db, "am"), vec![[None, Some(0), Some(2), Some(2), Some(1), Some(0)]]);
    assert!(variants_for_name(&db, "Bb").is_empty());
}

#[test]
fn add_and_remove_bookmarks() {
    let c = [None, Some(3), Some(2), Some(0), Some(1), Some(0)];
    let mut list = Vec::new();
    add_bookmark(&mut list, bm("C", c));
    add_bookmark(&mut list, bm("Am", [None, Some(0), Some(2), Some(2), Some(1), Some(0)]));
    add_bookmark(&mut list, bm("C", c));
    assert!(is_bookmarked(&list, &bm("C", c)));
    assert!(!is_bookmarked(&list, &bm("C", [None; 6])));
    assert!(!is_bookmarked(&list, &bm("c", c)));
    remove_bookmark(&mut list, &bm("C", c));
    assert_eq!(names(&list), vec!["Am"]);
    assert!(!is_bookmarked(&list, &bm("C", c)));
}

#[test]
fn law_bookmark_then_unbookmark_restores_list() {
    let mut list = vec![bm("Am", [None, Some(0), Some(2), Some(2), Some(1), Some(0)])];
    let c = [None, Some(3), Some(2), Some(0), Some(1), Some(0)];
    let starred = bookmark_chord(&mut list, bm("C", c), false);
    assert!(starred);
    assert!(star_shown(&list, "C", c));
    let starred = bookmark_chord(&mut list, bm("C", c), starred);
    assert!(!starred);
    assert!(!star_shown(&list, "C", c));
    assert_eq!(names(&list), vec!["Am"]);
}

#[test]
fn same_as_compares_name_and_fingering() {
    let c = [None, Some(3), Some(2), Some(0), Some(1), Some(0)];
    assert!(bm("C", c).same_as(&bm("C", c)));
    assert!(!bm("C", c).same_as(&bm("C", [None; 6])));
    assert!(!bm("C", c).same_as(&bm("Cmaj", c)));
}
