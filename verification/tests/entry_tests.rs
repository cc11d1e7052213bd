use fretboard::chord_name_entry::{
    calculate_enharmonic_equivalent, entry_changed_reaction, overwrite_text, swap_enharmonic,
    EntryReaction,
};
use fretboard::text::{chars_of, replace_all_chars};

#[test]
fn reactions_to_edits() {
    assert_eq!(entry_changed_reaction(true, "Am", "C", false), EntryReaction::Ignore);
    assert_eq!(entry_changed_reaction(false, "Am", "C", false), EntryReaction::ShowConfirmButton);
    assert_eq!(entry_changed_reaction(false, "C♯", "C♯", true), EntryReaction::KeepRevealed);
    assert_eq!(entry_changed_reaction(false, "C", "C", false), EntryReaction::Hide);
    assert_eq!(entry_changed_reaction(false, "", "C", true), EntryReaction::Hide);
}

#[test]
fn overwrite_prettifies_and_offers_enharmonic() {
    let shown = overwrite_text("c#m");
    assert_eq!(shown.text, "C♯m");
    assert_eq!(shown.enharmonic_label, Some("D♭".to_string()));
    let shown = overwrite_text("em");
    assert_eq!(shown.text, "Em");
    assert_eq!(shown.enharmonic_label, None);
}

#[test]
fn enharmonic_labels() {
    assert_eq!(calculate_enharmonic_equivalent("B♭ maj7"), Some("A♯".to_string()));
    assert_eq!(calculate_enharmonic_equivalent("G"), None);
}

#[test]
fn swapping_the_root() {
    assert_eq!(swap_enharmonic("D♭", "C♯m"), "D♭m");
    assert_eq!(swap_enharmonic("D♭", "C♯"), "D♭");
    assert_eq!(swap_enharmonic("D♭", "C"), "D♭");
}

#[test]
fn text_helpers() {
    assert_eq!(chars_of("a♯b"), vec!['a', '♯', 'b']);
    assert_eq!(replace_all_chars(&chars_of("dimdimx"), "dim", " dim"), chars_of(" dim dimx"));
    assert_eq!(replace_all_chars(&chars_of("aaaa"), "aa", "b"), chars_of("bb"));
    assert_eq!(replace_all_chars(&chars_of("aaa"), "aa", "b"), chars_of("ba"));
}

#[test]
fn law_swap_offers_previous_root() {
    for text in ["C♯m", "B♭ maj7", "g#sus4", "Eb"] {
        let label = calculate_enharmonic_equivalent(text).unwrap();
        let swapped = overwrite_text(&swap_enharmonic(&label, text));
        let previous_root: String = fretboard::chord_ops::serialize_chord_name(text).chars().take(2).collect();
        assert_eq!(
            swapped.enharmonic_label,
            Some(fretboard::chord_ops::prettify_chord_name(&previous_root))
        );
    }
}
