//! What the main window decides: which fingering and name to show after a
//! lookup, the variants of a chord, and the bookmark toggle.

use vstd::prelude::*;
use crate::bookmarks::{
    add_bookmark, bookmark_views, is_bookmarked, remove_bookmark, without, Bookmark,
};
use crate::chord_name_algorithm::{calculate_chord_name, chord_name_spec, fret_numbers_in_range};
use crate::database::{first_named, first_with_position, Chord, ChordsDatabase};

verus! {

broadcast use vstd::string::group_string_axioms;

/// The fingering with every string muted.
pub open spec fn empty_chord_spec() -> Seq<Option<usize>> {
    seq![None, None, None, None, None, None]
}

/// The fingering with every string muted, shown when the diagram is cleared.
pub fn empty_chord() -> (r: [Option<usize>; 6])
    ensures
        r@ == empty_chord_spec(),
{
    let r: [Option<usize>; 6] = [None, None, None, None, None, None];
    assert(r@ =~= empty_chord_spec());
    r
}

/// C major, shown when no fingering was saved.
pub fn initial_chord() -> (r: [Option<usize>; 6])
    ensures
        r@ == seq![None, Some(3usize), Some(2usize), Some(0usize), Some(1usize), Some(0usize)],
{
    let r: [Option<usize>; 6] = [None, Some(3), Some(2), Some(0), Some(1), Some(0)];
    assert(r@ =~= seq![None, Some(3usize), Some(2usize), Some(0usize), Some(1usize), Some(0usize)]);
    r
}

/// The page shown under the chord name.
#[derive(Clone, Copy, Debug, PartialEq, Eq, Structural)]
pub enum FeedbackPage {
    /// Nothing: the diagram was cleared.
    Empty,
    /// The hint that no chord is known by that name or fingering.
    Label,
    /// The actions on a known chord.
    ChordActions,
}

impl FeedbackPage {
    /// The name of the page in the window's stack.
    pub fn child_name(&self) -> (r: &'static str)
        ensures
            r@ == match *self {
                FeedbackPage::Empty => "empty"@,
                FeedbackPage::Label => "label"@,
                FeedbackPage::ChordActions => "chord-actions"@,
            },
    {
        match self {
            FeedbackPage::Empty => "empty",
            FeedbackPage::Label => "label",
            FeedbackPage::ChordActions => "chord-actions",
        }
    }
}

/// The fingering and page shown after the name `name` is entered: the first
/// fingering of the chord of that name, or all strings muted and the hint
/// when no chord has that name.
pub fn chord_for_name(db: &ChordsDatabase, name: &str) -> (r: ([Option<usize>; 6], FeedbackPage))
    requires
        first_named(db.0@, name@) matches Some(chord) ==> chord.positions@.len() > 0,
    ensures
        match first_named(db.0@, name@) {
            Some(chord) => r.0@ == chord.positions@[0]@ && r.1 == FeedbackPage::ChordActions,
            None => r.0@ == empty_chord_spec() && r.1 == FeedbackPage::Label,
        },
{
    match db.chord_from_name(name) {
        Some(chord) => (chord.positions[0], FeedbackPage::ChordActions),
        None => (empty_chord(), FeedbackPage::Label),
    }
}

/// `chord_for_name` where its condition can be tested first: `None` when the
/// chord of that name has no fingering to show, else what `chord_for_name`
/// gives.
pub fn chord_for_name_checked(db: &ChordsDatabase, name: &str) -> (r: Option<
    ([Option<usize>; 6], FeedbackPage),
>)
    ensures
        match first_named(db.0@, name@) {
            Some(chord) => if chord.positions@.len() == 0 {
                r is None
            } else {
                r matches Some(found) && found.0@ == chord.positions@[0]@ && found.1
                    == FeedbackPage::ChordActions
            },
            None => r matches Some(found) && found.0@ == empty_chord_spec() && found.1
                == FeedbackPage::Label,
        },
{
    let has_fingering = match db.chord_from_name(name) {
        Some(chord) => chord.positions.len() > 0,
        None => true,
    };
    if has_fingering {
        Some(chord_for_name(db, name))
    } else {
        None
    }
}

/// The name shown for a fingering: the chord database's name for it, else
/// the name the algorithm finds, else nothing.
pub open spec fn name_for_chord_spec(db: Seq<Chord>, chord: Seq<Option<usize>>) -> Seq<char> {
    match first_with_position(db, chord) {
        Some(known) => known.name@,
        None => match chord_name_spec(chord) {
            Some(name) => name,
            None => Seq::empty(),
        },
    }
}

/// The name and page shown after the fingering `chord` is set: a known or
/// computed name with the chord actions, or an empty name with the hint.
pub fn name_for_chord(db: &ChordsDatabase, chord: [Option<usize>; 6]) -> (r: (String, FeedbackPage))
    requires
        first_with_position(db.0@, chord@) is None ==> fret_numbers_in_range(chord@),
    ensures
        r.0@ == name_for_chord_spec(db.0@, chord@),
        r.1 == (if r.0@.len() > 0 {
            FeedbackPage::ChordActions
        } else {
            FeedbackPage::Label
        }),
{
    let name = match db.name_from_chord(chord) {
        Some(name) => name,
        None => match calculate_chord_name(chord) {
            Some(name) => name,
            None => String::new(),
        },
    };
    let page = if name.as_str().is_empty() {
        FeedbackPage::Label
    } else {
        FeedbackPage::ChordActions
    };
    (name, page)
}

/// The fingerings listed as variants of the chord named `name`: all the
/// fingerings of the first chord of that name, or none.
pub fn variants_for_name(db: &ChordsDatabase, name: &str) -> (r: Vec<[Option<usize>; 6]>)
    ensures
        match first_named(db.0@, name@) {
            Some(chord) => r@ == chord.positions@,
            None => r@.len() == 0,
        },
{
    let mut variants: Vec<[Option<usize>; 6]> = Vec::new();
    match db.chord_from_name(name) {
        Some(chord) => {
            let mut i: usize = 0;
            while i < chord.positions.len()
                invariant
                    i <= chord.positions@.len(),
                    variants@ == chord.positions@.take(i as int),
                decreases chord.positions.len() - i,
            {
                variants.push(chord.positions[i]);
                i = i + 1;
                assert(variants@ =~= chord.positions@.take(i as int));
            }
            assert(chord.positions@.take(i as int) =~= chord.positions@);
        },
        None => {},
    }
    variants
}

/// The star button was pressed for `bookmark` while it was `starred`: the
/// star flips, and the bookmark is added when the star comes on and every
/// equal bookmark removed when it goes off. Returns the new star state.
pub fn bookmark_chord(bookmarks: &mut Vec<Bookmark>, bookmark: Bookmark, starred: bool) -> (r: bool)
    ensures
        r == !starred,
        r ==> bookmark_views(final(bookmarks)@) == bookmark_views(old(bookmarks)@).push(bookmark@),
        !r ==> bookmark_views(final(bookmarks)@) == without(
            bookmark_views(old(bookmarks)@),
            bookmark@,
        ),
{
    let now_starred = !starred;
    if now_starred {
        add_bookmark(bookmarks, bookmark);
    } else {
        remove_bookmark(bookmarks, &bookmark);
    }
    now_starred
}

/// Whether the star is shown on for the chord `name` with fingering `chord`.
pub fn star_shown(bookmarks: &Vec<Bookmark>, name: &str, chord: [Option<usize>; 6]) -> (r: bool)
    ensures
        r == bookmark_views(bookmarks@).contains((name@, chord@)),
{
    let query = Bookmark { name: name.to_owned(), chord };
    is_bookmarked(bookmarks, &query)
}

} // verus!
