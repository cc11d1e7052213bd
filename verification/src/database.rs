//! The database of known chords and the lookups on it.

use vstd::prelude::*;
use rayon::prelude::IntoParallelRefIterator;
use rayon::prelude::ParallelIterator;
use crate::chord_file::{chord_entry, parse_chord_file, parse_chord_file_spec};
use crate::text::{to_lowercase, unicode_lowercase};

verus! {

/// A named chord and the fingerings that play it, the usual one first.
#[derive(Debug)]
pub struct Chord {
    pub name: String,
    pub positions: Vec<[Option<usize>; 6]>,
}

/// The known chords, in the order in which the chord file lists them.
pub struct ChordsDatabase(pub Vec<Chord>);

/// Whether `name` names `chord`, comparing Unicode lower-case forms.
pub open spec fn names_chord(chord: Chord, name: Seq<char>) -> bool {
    unicode_lowercase(chord.name@) == unicode_lowercase(name)
}

/// Whether `position` is one of the fingerings of `chord`.
pub open spec fn has_position(chord: Chord, position: Seq<Option<usize>>) -> bool {
    exists|k: int| 0 <= k < chord.positions@.len() && #[trigger] chord.positions@[k]@ == position
}

/// What a chord is searched by.
pub enum ChordQuery {
    /// A chord name, in Unicode lower case.
    LowercaseName(String),
    /// A fingering.
    Position([Option<usize>; 6]),
}

/// Whether `chord` answers `query`.
pub open spec fn answers(chord: Chord, query: ChordQuery) -> bool {
    match query {
        ChordQuery::LowercaseName(lowered) => unicode_lowercase(chord.name@) == lowered@,
        ChordQuery::Position(position) => has_position(chord, position@),
    }
}

/// The first chord of `chords` that answers `query`.
pub open spec fn first_answer(chords: Seq<Chord>, query: ChordQuery) -> Option<Chord>
    decreases chords.len(),
{
    if chords.len() == 0 {
        None
    } else if answers(chords[0], query) {
        Some(chords[0])
    } else {
        first_answer(chords.drop_first(), query)
    }
}

/// `rayon`'s `par_iter().any(..)` on the fingerings of a chord: whether some
/// fingering equals `position` (tested by `same_position`).
#[verifier::external_body]
fn par_any_position(positions: &Vec<[Option<usize>; 6]>, position: &[Option<usize>; 6]) -> (r: bool)
    ensures
        r == (exists|k: int| 0 <= k < positions@.len() && #[trigger] positions@[k]@ == position@),
{
    positions.par_iter().any(|candidate| same_position(candidate, position))
}

/// `rayon`'s `par_iter().find_first(..)` on the chords: the sequentially
/// first chord that answers `query` (tested by `chord_answers`).
#[verifier::external_body]
fn par_find_first<'a>(chords: &'a Vec<Chord>, query: &ChordQuery) -> (r: Option<&'a Chord>)
    ensures
        match r {
            Some(chord) => first_answer(chords@, *query) == Some(*chord),
            None => first_answer(chords@, *query) is None,
        },
{
    chords.par_iter().find_first(|chord| chord_answers(chord, query))
}

/// Whether two fingerings are the same.
pub fn same_position(a: &[Option<usize>; 6], b: &[Option<usize>; 6]) -> (r: bool)
    ensures
        r == (a@ == b@),
{
    let mut i: usize = 0;
    while i < 6
        invariant
            i <= 6,
            forall|j: int| 0 <= j < i ==> a@[j] == b@[j],
        decreases 6 - i,
    {
        let same = match (a[i], b[i]) {
            (Some(x), Some(y)) => x == y,
            (None, None) => true,
            _ => false,
        };
        if !same {
            return false;
        }
        i = i + 1;
    }
    assert(a@ =~= b@);
    true
}

/// Whether `chord` answers `query`.
pub fn chord_answers(chord: &Chord, query: &ChordQuery) -> (r: bool)
    ensures
        r == answers(*chord, *query),
{
    match query {
        ChordQuery::LowercaseName(lowered) => to_lowercase(chord.name.as_str()) == *lowered,
        ChordQuery::Position(position) => par_any_position(&chord.positions, position),
    }
}

/// The first chord of `chords` that `name` names.
pub open spec fn first_named(chords: Seq<Chord>, name: Seq<char>) -> Option<Chord>
    decreases chords.len(),
{
    if chords.len() == 0 {
        None
    } else if names_chord(chords[0], name) {
        Some(chords[0])
    } else {
        first_named(chords.drop_first(), name)
    }
}

/// The first chord of `chords` that has `position` among its fingerings.
pub open spec fn first_with_position(chords: Seq<Chord>, position: Seq<Option<usize>>) -> Option<
    Chord,
>
    decreases chords.len(),
{
    if chords.len() == 0 {
        None
    } else if has_position(chords[0], position) {
        Some(chords[0])
    } else {
        first_with_position(chords.drop_first(), position)
    }
}

proof fn lemma_first_answer_name(chords: Seq<Chord>, query: ChordQuery, name: Seq<char>)
    requires
        query matches ChordQuery::LowercaseName(lowered) && lowered@ == unicode_lowercase(name),
    ensures
        first_answer(chords, query) == first_named(chords, name),
    decreases chords.len(),
{
    if chords.len() > 0 {
        lemma_first_answer_name(chords.drop_first(), query, name);
    }
}

proof fn lemma_first_answer_position(
    chords: Seq<Chord>,
    query: ChordQuery,
    position: Seq<Option<usize>>,
)
    requires
        query matches ChordQuery::Position(p) && p@ == position,
    ensures
        first_answer(chords, query) == first_with_position(chords, position),
    decreases chords.len(),
{
    if chords.len() > 0 {
        lemma_first_answer_position(chords.drop_first(), query, position);
    }
}

impl ChordsDatabase {
    /// The database of the chords listed by the chord file `data_string`.
    /// A text that is not a chord file (see `parse_chord_file`) is a fatal
    /// error of the program, so it is left out here; `try_load` tests it.
    pub fn load(data_string: &str) -> (r: Self)
        requires
            parse_chord_file_spec(data_string@) is Some,
        ensures
            parse_chord_file_spec(data_string@) == Some(r.0@.map_values(|c: Chord| chord_entry(c))),
    {
        match parse_chord_file(data_string) {
            Some(chords) => ChordsDatabase(chords),
            None => ChordsDatabase(Vec::new()),
        }
    }

    /// `load` where its condition can be tested first: the database of the
    /// chords listed by `data_string`, or `None` when the text is not a chord
    /// file, which the caller treats as the fatal error it is.
    pub fn try_load(data_string: &str) -> (r: Option<Self>)
        ensures
            match r {
                Some(db) => parse_chord_file_spec(data_string@) == Some(
                    db.0@.map_values(|c: Chord| chord_entry(c)),
                ),
                None => parse_chord_file_spec(data_string@) is None,
            },
    {
        match parse_chord_file(data_string) {
            Some(chords) => Some(ChordsDatabase(chords)),
            None => None,
        }
    }

    /// The first chord whose name equals `name` once both are put in Unicode
    /// lower case.
    pub fn chord_from_name(&self, name: &str) -> (r: Option<&Chord>)
        ensures
            match r {
                Some(chord) => first_named(self.0@, name@) == Some(*chord),
                None => first_named(self.0@, name@) is None,
            },
            r matches Some(chord) ==> unicode_lowercase(chord.name@) == unicode_lowercase(name@),
            r is None ==> forall|i: int|
                0 <= i < self.0@.len() ==> unicode_lowercase(#[trigger] self.0@[i].name@)
                    != unicode_lowercase(name@),
    {
        let query = ChordQuery::LowercaseName(to_lowercase(name));
        proof {
            lemma_first_answer_name(self.0@, query, name@);
            lemma_found_by_name(self.0@, name@);
        }
        par_find_first(&self.0, &query)
    }

    /// The name of the first chord that has `query_chord` among its
    /// fingerings.
    pub fn name_from_chord(&self, query_chord: [Option<usize>; 6]) -> (r: Option<String>)
        ensures
            match r {
                Some(name) => first_with_position(self.0@, query_chord@) matches Some(chord)
                    && chord.name@ == name@,
                None => first_with_position(self.0@, query_chord@) is None,
            },
    {
        let query = ChordQuery::Position(query_chord);
        proof {
            lemma_first_answer_position(self.0@, query, query_chord@);
        }
        match par_find_first(&self.0, &query) {
            Some(chord) => Some(chord.name.clone()),
            None => None,
        }
    }
}

/// Looking a chord up by name ignores case: two names with the same Unicode
/// lower-case form find the same chord.
pub proof fn lemma_lookup_ignores_case(chords: Seq<Chord>, a: Seq<char>, b: Seq<char>)
    requires
        unicode_lowercase(a) == unicode_lowercase(b),
    ensures
        first_named(chords, a) == first_named(chords, b),
    decreases chords.len(),
{
    if chords.len() > 0 {
        lemma_lookup_ignores_case(chords.drop_first(), a, b);
    }
}

/// A chord found by name has that name, and no earlier chord has it; a
/// chord found by fingering has that fingering.
pub proof fn lemma_lookups_match(chords: Seq<Chord>, name: Seq<char>, position: Seq<Option<usize>>)
    ensures
        first_named(chords, name) matches Some(chord) ==> names_chord(chord, name)
            && chords.contains(chord),
        first_named(chords, name) is None ==> forall|i: int|
            0 <= i < chords.len() ==> !names_chord(#[trigger] chords[i], name),
        first_with_position(chords, position) matches Some(chord) ==> has_position(chord, position)
            && chords.contains(chord),
        first_with_position(chords, position) is None ==> forall|i: int|
            0 <= i < chords.len() ==> !has_position(#[trigger] chords[i], position),
    decreases chords.len(),
{
    if chords.len() > 0 {
        let rest = chords.drop_first();
        lemma_lookups_match(rest, name, position);
        assert(chords[0] == chords[0]);
        assert forall|i: int| 1 <= i < chords.len() implies #[trigger] chords[i] == rest[i - 1] by {}
        if let Some(chord) = first_named(chords, name) {
            if !names_chord(chords[0], name) {
                let k = choose|k: int| 0 <= k < rest.len() && rest[k] == chord;
                assert(chords[k + 1] == chord);
            } else {
                assert(chords[0] == chord);
            }
        }
        if let Some(chord) = first_with_position(chords, position) {
            if !has_position(chords[0], position) {
                let k = choose|k: int| 0 <= k < rest.len() && rest[k] == chord;
                assert(chords[k + 1] == chord);
            } else {
                assert(chords[0] == chord);
            }
        }
        if first_named(chords, name) is None {
            assert forall|i: int| 0 <= i < chords.len() implies !names_chord(#[trigger] chords[i], name) by {
                if i > 0 {
                    assert(chords[i] == rest[i - 1]);
                }
            }
        }
        if first_with_position(chords, position) is None {
            assert forall|i: int| 0 <= i < chords.len() implies !has_position(#[trigger] chords[i], position) by {
                if i > 0 {
                    assert(chords[i] == rest[i - 1]);
                }
            }
        }
    }
}

/// A lookup by name finds the first chord whose name equals the asked name
/// once both are in Unicode lower case, and finds nothing exactly when no
/// chord's name does.
pub proof fn lemma_found_by_name(chords: Seq<Chord>, name: Seq<char>)
    ensures
        first_named(chords, name) matches Some(chord) ==> exists|i: int|
            0 <= i < chords.len() && chords[i] == chord && unicode_lowercase(chord.name@)
                == unicode_lowercase(name) && forall|j: int|
                0 <= j < i ==> unicode_lowercase(#[trigger] chords[j].name@) != unicode_lowercase(
                    name,
                ),
        first_named(chords, name) is None ==> forall|i: int|
            0 <= i < chords.len() ==> unicode_lowercase(#[trigger] chords[i].name@)
                != unicode_lowercase(name),
    decreases chords.len(),
{
    if chords.len() > 0 {
        let rest = chords.drop_first();
        lemma_found_by_name(rest, name);
        assert forall|i: int| 1 <= i < chords.len() implies #[trigger] chords[i] == rest[i - 1] by {}
        if unicode_lowercase(chords[0].name@) == unicode_lowercase(name) {
            assert(chords[0] == chords[0]);
        } else {
            if let Some(chord) = first_named(rest, name) {
                let i = choose|i: int|
                    0 <= i < rest.len() && rest[i] == chord && unicode_lowercase(chord.name@)
                        == unicode_lowercase(name) && forall|j: int|
                        0 <= j < i ==> unicode_lowercase(#[trigger] rest[j].name@)
                            != unicode_lowercase(name);
                assert(chords[i + 1] == chord);
                assert forall|j: int| 0 <= j < i + 1 implies unicode_lowercase(
                    #[trigger] chords[j].name@,
                ) != unicode_lowercase(name) by {
                    if j > 0 {
                        assert(chords[j] == rest[j - 1]);
                    }
                }
            } else {
                assert forall|i: int| 0 <= i < chords.len() implies unicode_lowercase(
                    #[trigger] chords[i].name@,
                ) != unicode_lowercase(name) by {
                    if i > 0 {
                        assert(chords[i] == rest[i - 1]);
                    }
                }
            }
        }
    }
}

} // verus!
