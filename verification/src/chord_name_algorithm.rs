//! Derives a chord name from the notes of a fingering when the chord
//! database has no entry for it.

use vstd::prelude::*;
use itertools::Itertools;

verus! {

/// Number of semitones in an octave.
pub const SCALE_SIZE: usize = 12;

/// The name of the note `value` semitones above A, with sharps written `#`.
pub open spec fn note_name_spec(value: int) -> Seq<char> {
    if value == 0 {
        "A"@
    } else if value == 1 {
        "A#"@
    } else if value == 2 {
        "B"@
    } else if value == 3 {
        "C"@
    } else if value == 4 {
        "C#"@
    } else if value == 5 {
        "D"@
    } else if value == 6 {
        "D#"@
    } else if value == 7 {
        "E"@
    } else if value == 8 {
        "F"@
    } else if value == 9 {
        "F#"@
    } else if value == 10 {
        "G"@
    } else {
        "G#"@
    }
}

/// Name of a note given as its distance in semitones above A (below 12).
pub fn find_note_name(value: usize) -> (name: &'static str)
    requires
        value < SCALE_SIZE,
    ensures
        name@ == note_name_spec(value as int),
{
    match value {
        0 => "A",
        1 => "A#",
        2 => "B",
        3 => "C",
        4 => "C#",
        5 => "D",
        6 => "D#",
        7 => "E",
        8 => "F",
        9 => "F#",
        10 => "G",
        _ => "G#",
    }
}

/// `a - b`, wrapping around at `max` when `b` exceeds `a`.
pub open spec fn sub_wrapping_spec(a: int, b: int, max: int) -> int {
    if a >= b {
        a - b
    } else {
        max - (b - a)
    }
}

/// Subtraction that wraps around at `max`: the interval from `b` up to `a`
/// in a cycle of length `max`.
pub fn sub_wrapping(a: usize, b: usize, max: usize) -> (r: usize)
    requires
        a >= b || b - a <= max,
    ensures
        r == sub_wrapping_spec(a as int, b as int, max as int),
{
    if a >= b {
        a - b
    } else {
        max - (b - a)
    }
}


/// The interval in semitones from `root` up to `note` (both below 12).
pub open spec fn interval(note: usize, root: usize) -> usize {
    sub_wrapping_spec(note as int, root as int, SCALE_SIZE as int) as usize
}

/// The intervals above the first note at which the notes lie.
pub open spec fn interval_set(notes: Seq<usize>) -> Set<usize> {
    Set::new(|x: usize| exists|i: int| 0 <= i < notes.len() && x == interval(notes[i], notes[0]))
}

/// `s` is strictly increasing.
pub open spec fn ascending(s: Seq<usize>) -> bool {
    forall|i: int, j: int| 0 <= i < j < s.len() ==> s[i] < s[j]
}

/// The distinct intervals of the notes above the first, in ascending order.
pub open spec fn chord_intervals(notes: Seq<usize>) -> Seq<usize> {
    choose|s: Seq<usize>| ascending(s) && s.to_set() == interval_set(notes)
}

/// The chord-quality suffix named by an ascending list of intervals above
/// the root, for the qualities this library knows.
pub open spec fn chord_suffix_spec(intervals: Seq<usize>) -> Option<Seq<char>> {
    if intervals == seq![0usize, 4, 7] {
        Some(""@)
    } else if intervals == seq![0usize, 3, 7] {
        Some("m"@)
    } else if intervals == seq![0usize, 3, 6] {
        Some("dim"@)
    } else if intervals == seq![0usize, 7] {
        Some("5"@)
    } else if intervals == seq![0usize, 4, 7, 11] {
        Some("maj7"@)
    } else if intervals == seq![0usize, 3, 7, 11] {
        Some("mmaj7"@)
    } else if intervals == seq![0usize, 4, 7, 10] {
        Some("7"@)
    } else if intervals == seq![0usize, 3, 7, 10] {
        Some("m7"@)
    } else if intervals == seq![0usize, 3, 6, 10] {
        Some("m7b5"@)
    } else if intervals == seq![0usize, 3, 6, 9] {
        Some("dim7"@)
    } else if intervals == seq![0usize, 2, 7] {
        Some("sus2"@)
    } else if intervals == seq![0usize, 5, 7] {
        Some("sus4"@)
    } else if intervals == seq![0usize, 4, 8] {
        Some("aug"@)
    } else if intervals == seq![0usize, 4, 8, 11] {
        Some("augmaj11"@)
    } else if intervals == seq![0usize, 4, 8, 10] {
        Some("aug7"@)
    } else if intervals == seq![0usize, 2, 4, 7, 11] {
        Some("maj9"@)
    } else if intervals == seq![0usize, 2, 3, 7, 10] {
        Some("m9"@)
    } else if intervals == seq![0usize, 2, 4, 7, 10] {
        Some("9"@)
    } else if intervals == seq![0usize, 2, 4, 5, 7, 11] {
        Some("maj11"@)
    } else if intervals == seq![0usize, 2, 3, 5, 7, 10] {
        Some("m11"@)
    } else if intervals == seq![0usize, 2, 4, 5, 7, 10] {
        Some("11"@)
    } else if intervals == seq![0usize, 2, 4, 5, 7, 9, 10] {
        Some("13"@)
    } else if intervals == seq![0usize, 2, 4, 7] {
        Some("add9"@)
    } else if intervals == seq![0usize, 2, 3, 7] {
        Some("madd9"@)
    } else if intervals == seq![0usize, 4, 5, 7] {
        Some("add11"@)
    } else if intervals == seq![0usize, 3, 5, 7] {
        Some("madd11"@)
    } else if intervals == seq![0usize, 4, 7, 9] {
        Some("add13"@)
    } else if intervals == seq![0usize, 3, 7, 9] {
        Some("madd13"@)
    } else if intervals == seq![0usize, 4, 5, 7, 10] {
        Some("7add11"@)
    } else if intervals == seq![0usize, 3, 5, 7, 10] {
        Some("m7add11"@)
    } else if intervals == seq![0usize, 4, 5, 7, 11] {
        Some("maj7add11"@)
    } else if intervals == seq![0usize, 3, 5, 7, 11] {
        Some("mmaj7add11"@)
    } else if intervals == seq![0usize, 4, 7, 9, 10] {
        Some("7add13"@)
    } else if intervals == seq![0usize, 3, 7, 9, 10] {
        Some("m7add13"@)
    } else if intervals == seq![0usize, 4, 7, 9, 11] {
        Some("maj7add13"@)
    } else if intervals == seq![0usize, 3, 7, 9, 11] {
        Some("mmaj7add13"@)
    } else {
        None
    }
}

/// No two different notes lie at the same interval above the first note.
/// Notes below 12 always pass; a note an octave or more above another one
/// can meet it (with the first note 5, both 2 and 14 lie 9 above).
pub open spec fn intervals_distinct(notes: Seq<usize>) -> bool {
    forall|i: int, j: int|
        0 <= i < notes.len() && 0 <= j < notes.len() && #[trigger] interval(notes[i], notes[0])
            == #[trigger] interval(notes[j], notes[0]) ==> notes[i] == notes[j]
}

/// The name of the chord whose root is the first note and whose quality is
/// given by the intervals of all notes above it, e.g. "Am" or "Fmaj7";
/// `None` when there are no notes, when two different notes give the same
/// interval (the list of intervals then repeats one, and no quality is such
/// a list), or when the intervals name no known quality.
pub open spec fn isolated_chord_name_spec(notes: Seq<usize>) -> Option<Seq<char>> {
    if notes.len() == 0 || !intervals_distinct(notes) {
        None
    } else {
        match chord_suffix_spec(chord_intervals(notes)) {
            Some(suffix) => Some(note_name_spec(notes[0] as int) + suffix),
            None => None,
        }
    }
}

/// Semitones above A of each open string, from the lowest string (E) on.
pub open spec fn string_offset(i: int) -> int {
    if i == 0 {
        7
    } else if i == 1 {
        0
    } else if i == 2 {
        5
    } else if i == 3 {
        10
    } else if i == 4 {
        2
    } else {
        7
    }
}

/// The notes (semitones above A, below 12) sounded by a fingering, from the
/// lowest string up, muted strings left out.
pub open spec fn chord_notes(c: Seq<Option<usize>>) -> Seq<usize>
    decreases c.len(),
{
    if c.len() == 0 {
        Seq::empty()
    } else {
        let rest = chord_notes(c.drop_last());
        match c.last() {
            Some(n) => rest.push(((n + string_offset(c.len() - 1)) % 12) as usize),
            None => rest,
        }
    }
}

/// The name that the algorithm finds for a fingering: the chord named by all
/// its notes, else the chord named by all notes but the lowest, written over
/// the lowest note as bass ("Fmaj7/C"), else `None`.
pub open spec fn chord_name_spec(c: Seq<Option<usize>>) -> Option<Seq<char>> {
    let notes = chord_notes(c);
    match isolated_chord_name_spec(notes) {
        Some(name) => Some(name),
        None => if notes.len() == 0 {
            None
        } else {
            match isolated_chord_name_spec(notes.drop_first()) {
                Some(name) => Some(name + "/"@ + note_name_spec(notes[0] as int)),
                None => None,
            }
        },
    }
}

/// A fingering whose fret numbers leave room for adding the string offsets.
pub open spec fn fret_numbers_in_range(c: Seq<Option<usize>>) -> bool {
    forall|i: int|
        0 <= i < c.len() ==> (#[trigger] c[i] matches Some(n) ==> n + string_offset(i)
            <= usize::MAX)
}

fn is_seq2(v: &Vec<usize>, a: usize, b: usize) -> (r: bool)
    ensures
        r == (v@ == seq![a, b]),
{
    if v.len() != 2 {
        return false;
    }
    let r = v[0] == a && v[1] == b;
    assert(r ==> v@ =~= seq![a, b]);
    r
}

fn is_seq3(v: &Vec<usize>, a: usize, b: usize, c: usize) -> (r: bool)
    ensures
        r == (v@ == seq![a, b, c]),
{
    if v.len() != 3 {
        return false;
    }
    let r = v[0] == a && v[1] == b && v[2] == c;
    assert(r ==> v@ =~= seq![a, b, c]);
    r
}

fn is_seq4(v: &Vec<usize>, a: usize, b: usize, c: usize, d: usize) -> (r: bool)
    ensures
        r == (v@ == seq![a, b, c, d]),
{
    if v.len() != 4 {
        return false;
    }
    let r = v[0] == a && v[1] == b && v[2] == c && v[3] == d;
    assert(r ==> v@ =~= seq![a, b, c, d]);
    r
}

fn is_seq5(v: &Vec<usize>, a: usize, b: usize, c: usize, d: usize, e: usize) -> (r: bool)
    ensures
        r == (v@ == seq![a, b, c, d, e]),
{
    if v.len() != 5 {
        return false;
    }
    let r = v[0] == a && v[1] == b && v[2] == c && v[3] == d && v[4] == e;
    assert(r ==> v@ =~= seq![a, b, c, d, e]);
    r
}

fn is_seq6(v: &Vec<usize>, a: usize, b: usize, c: usize, d: usize, e: usize, f: usize) -> (r: bool)
    ensures
        r == (v@ == seq![a, b, c, d, e, f]),
{
    if v.len() != 6 {
        return false;
    }
    let r = v[0] == a && v[1] == b && v[2] == c && v[3] == d && v[4] == e && v[5] == f;
    assert(r ==> v@ =~= seq![a, b, c, d, e, f]);
    r
}

fn is_seq7(v: &Vec<usize>, a: usize, b: usize, c: usize, d: usize, e: usize, f: usize, g: usize) -> (r: bool)
    ensures
        r == (v@ == seq![a, b, c, d, e, f, g]),
{
    if v.len() != 7 {
        return false;
    }
    let r = v[0] == a && v[1] == b && v[2] == c && v[3] == d && v[4] == e && v[5] == f && v[6] == g;
    assert(r ==> v@ =~= seq![a, b, c, d, e, f, g]);
    r
}

/// The chord-quality suffix for an ascending list of intervals, if known.
fn chord_suffix(intervals: &Vec<usize>) -> (r: Option<&'static str>)
    ensures
        match r {
            Some(s) => chord_suffix_spec(intervals@) == Some(s@),
            None => chord_suffix_spec(intervals@) is None,
        },
{
    if is_seq3(intervals, 0, 4, 7) {
        Some("")
    } else if is_seq3(intervals, 0, 3, 7) {
        Some("m")
    } else if is_seq3(intervals, 0, 3, 6) {
        Some("dim")
    } else if is_seq2(intervals, 0, 7) {
        Some("5")
    } else if is_seq4(intervals, 0, 4, 7, 11) {
        Some("maj7")
    } else if is_seq4(intervals, 0, 3, 7, 11) {
        Some("mmaj7")
    } else if is_seq4(intervals, 0, 4, 7, 10) {
        Some("7")
    } else if is_seq4(intervals, 0, 3, 7, 10) {
        Some("m7")
    } else if is_seq4(intervals, 0, 3, 6, 10) {
        Some("m7b5")
    } else if is_seq4(intervals, 0, 3, 6, 9) {
        Some("dim7")
    } else if is_seq3(intervals, 0, 2, 7) {
        Some("sus2")
    } else if is_seq3(intervals, 0, 5, 7) {
        Some("sus4")
    } else if is_seq3(intervals, 0, 4, 8) {
        Some("aug")
    } else if is_seq4(intervals, 0, 4, 8, 11) {
        Some("augmaj11")
    } else if is_seq4(intervals, 0, 4, 8, 10) {
        Some("aug7")
    } else if is_seq5(intervals, 0, 2, 4, 7, 11) {
        Some("maj9")
    } else if is_seq5(intervals, 0, 2, 3, 7, 10) {
        Some("m9")
    } else if is_seq5(intervals, 0, 2, 4, 7, 10) {
        Some("9")
    } else if is_seq6(intervals, 0, 2, 4, 5, 7, 11) {
        Some("maj11")
    } else if is_seq6(intervals, 0, 2, 3, 5, 7, 10) {
        Some("m11")
    } else if is_seq6(intervals, 0, 2, 4, 5, 7, 10) {
        Some("11")
    } else if is_seq7(intervals, 0, 2, 4, 5, 7, 9, 10) {
        Some("13")
    } else if is_seq4(intervals, 0, 2, 4, 7) {
        Some("add9")
    } else if is_seq4(intervals, 0, 2, 3, 7) {
        Some("madd9")
    } else if is_seq4(intervals, 0, 4, 5, 7) {
        Some("add11")
    } else if is_seq4(intervals, 0, 3, 5, 7) {
        Some("madd11")
    } else if is_seq4(intervals, 0, 4, 7, 9) {
        Some("add13")
    } else if is_seq4(intervals, 0, 3, 7, 9) {
        Some("madd13")
    } else if is_seq5(intervals, 0, 4, 5, 7, 10) {
        Some("7add11")
    } else if is_seq5(intervals, 0, 3, 5, 7, 10) {
        Some("m7add11")
    } else if is_seq5(intervals, 0, 4, 5, 7, 11) {
        Some("maj7add11")
    } else if is_seq5(intervals, 0, 3, 5, 7, 11) {
        Some("mmaj7add11")
    } else if is_seq5(intervals, 0, 4, 7, 9, 10) {
        Some("7add13")
    } else if is_seq5(intervals, 0, 3, 7, 9, 10) {
        Some("m7add13")
    } else if is_seq5(intervals, 0, 4, 7, 9, 11) {
        Some("maj7add13")
    } else if is_seq5(intervals, 0, 3, 7, 9, 11) {
        Some("mmaj7add13")
    } else {
        None
    }
}

/// `Itertools::unique`: the distinct values in the order of their first
/// occurrence.
#[verifier::external_body]
fn unique_values(values: &Vec<usize>) -> (r: Vec<usize>)
    ensures
        r@ == values@.remove_duplicates(Seq::empty()),
{
    values.iter().copied().unique().collect()
}

/// `Itertools::sorted`: the same values (with the same multiplicities) in
/// non-decreasing order.
#[verifier::external_body]
fn sorted_values(values: Vec<usize>) -> (r: Vec<usize>)
    ensures
        r@.to_multiset() == values@.to_multiset(),
        forall|i: int, j: int| 0 <= i <= j < r@.len() ==> r@[i] <= r@[j],
{
    values.into_iter().sorted().collect()
}

proof fn lemma_remove_duplicates_distinct(s: Seq<usize>, seen: Seq<usize>)
    requires
        seen.no_duplicates(),
    ensures
        s.remove_duplicates(seen).no_duplicates(),
    decreases s.len(),
{
    if s.len() > 0 {
        if seen.contains(s[0]) {
            lemma_remove_duplicates_distinct(s.skip(1), seen);
        } else {
            let seen2 = seen + seq![s[0]];
            assert(seen2.no_duplicates()) by {
                assert forall|i: int, j: int|
                    0 <= i < seen2.len() && 0 <= j < seen2.len() && i != j implies seen2[i]
                    != seen2[j] by {
                    if i == seen.len() as int {
                        assert(seen2[j] == seen[j]);
                    } else if j == seen.len() as int {
                        assert(seen2[i] == seen[i]);
                    }
                }
            }
            lemma_remove_duplicates_distinct(s.skip(1), seen2);
        }
    }
}

/// Every list of intervals that names a quality is ascending.
proof fn lemma_suffix_ascending(s: Seq<usize>)
    ensures
        chord_suffix_spec(s) is Some ==> ascending(s),
{
}

/// A quality name with a minor third: it begins with `m` but not with
/// `maj`, or it is diminished (`dim`).
pub open spec fn minor_quality_name(n: Seq<char>) -> bool {
    ||| (n.len() > 0 && n[0] == 'm' && !(n.len() > 2 && n[1] == 'a' && n[2] == 'j'))
    ||| n.contains('i')
}

/// What a quality name `n` says of the intervals `s` it names, interval by
/// interval (see `lemma_suffix_intervals`).
pub open spec fn quality_name_fits(s: Seq<usize>, n: Seq<char>) -> bool {
    &&& s.contains(0)
    &&& !s.contains(1)
    &&& s.contains(2) <==> (n.contains('9') || n.contains('2') || (n.contains('1') && !n.contains(
        'd',
    ) && !n.contains('g')))
    &&& s.contains(3) <==> minor_quality_name(n)
    &&& s.contains(4) <==> (!minor_quality_name(n) && !n.contains('s') && !(n.len() == 1 && n[0]
        == '5'))
    &&& s.contains(5) <==> (n.contains('4') || (n.len() > 0 && n.last() == '1' && !n.contains('g'))
        || (n.len() == 2 && n[0] == '1' && n[1] == '3'))
    &&& s.contains(6) <==> (n.contains('i') || n.contains('b'))
    &&& s.contains(7) <==> !(n.contains('i') || n.contains('b') || n.contains('g'))
    &&& s.contains(8) <==> n.contains('g')
    &&& s.contains(9) <==> (n.contains('3') || (n.contains('i') && n.contains('7')))
    &&& s.contains(10) <==> (!n.contains('j') && !n.contains('i') && (n.contains('7') || ((
    n.contains('9') || n.contains('1')) && !n.contains('a'))))
    &&& s.contains(11) <==> n.contains('j')
    &&& forall|i: int| 0 <= i < s.len() ==> #[trigger] s[i] < 12
}

/// What each quality name says of the intervals it names, interval by
/// interval: the root is there and the minor second never is; a `2`, a
/// ninth, or an eleventh or thirteenth that is neither added nor augmented
/// brings the second; a minor name the minor third; any other name but a
/// suspended one or a bare fifth the major third; a `4` or an eleventh the
/// fourth; `dim` or `b5` the flat fifth, and with `aug` they drop the
/// fifth; `aug` the sharp fifth; a thirteenth or `dim7` the sixth; a
/// seventh, ninth or eleventh that is not major, diminished or added the
/// minor seventh; and `maj` the major seventh. No interval reaches the
/// octave.
pub proof fn lemma_suffix_intervals(s: Seq<usize>)
    requires
        chord_suffix_spec(s) is Some,
    ensures
        quality_name_fits(s, chord_suffix_spec(s)->0),
{
    if s == seq![0usize, 4, 7] || s == seq![0usize, 3, 7] || s == seq![0usize, 3, 6] || s == seq![0usize, 7] || s == seq![0usize, 4, 7, 11] || s == seq![0usize, 3, 7, 11] {
        lemma_suffix_intervals_part0(s);
    }
    if s == seq![0usize, 4, 7, 10] || s == seq![0usize, 3, 7, 10] || s == seq![0usize, 3, 6, 10] || s == seq![0usize, 3, 6, 9] || s == seq![0usize, 2, 7] || s == seq![0usize, 5, 7] {
        lemma_suffix_intervals_part1(s);
    }
    if s == seq![0usize, 4, 8] || s == seq![0usize, 4, 8, 11] || s == seq![0usize, 4, 8, 10] || s == seq![0usize, 2, 4, 7, 11] || s == seq![0usize, 2, 3, 7, 10] || s == seq![0usize, 2, 4, 7, 10] {
        lemma_suffix_intervals_part2(s);
    }
    if s == seq![0usize, 2, 4, 5, 7, 11] || s == seq![0usize, 2, 3, 5, 7, 10] || s == seq![0usize, 2, 4, 5, 7, 10] || s == seq![0usize, 2, 4, 5, 7, 9, 10] || s == seq![0usize, 2, 4, 7] || s == seq![0usize, 2, 3, 7] {
        lemma_suffix_intervals_part3(s);
    }
    if s == seq![0usize, 4, 5, 7] || s == seq![0usize, 3, 5, 7] || s == seq![0usize, 4, 7, 9] || s == seq![0usize, 3, 7, 9] || s == seq![0usize, 4, 5, 7, 10] || s == seq![0usize, 3, 5, 7, 10] {
        lemma_suffix_intervals_part4(s);
    }
    if s == seq![0usize, 4, 5, 7, 11] || s == seq![0usize, 3, 5, 7, 11] || s == seq![0usize, 4, 7, 9, 10] || s == seq![0usize, 3, 7, 9, 10] || s == seq![0usize, 4, 7, 9, 11] || s == seq![0usize, 3, 7, 9, 11] {
        lemma_suffix_intervals_part5(s);
    }
}

#[verifier::spinoff_prover]
#[verifier::rlimit(100)]
proof fn lemma_suffix_intervals_part0(s: Seq<usize>)
    requires
        s == seq![0usize, 4, 7] || s == seq![0usize, 3, 7] || s == seq![0usize, 3, 6] || s == seq![0usize, 7] || s == seq![0usize, 4, 7, 11] || s == seq![0usize, 3, 7, 11],
    ensures
        quality_name_fits(s, chord_suffix_spec(s)->0),
{
    if s == seq![0usize, 4, 7] {
        reveal_strlit("");
        assert(quality_name_fits(s, ""@)) by {
            assert(""@ =~= Seq::<char>::empty());
            assert(quality_name_fits(seq![0usize, 4, 7], Seq::<char>::empty()));
        }
    }
    if s == seq![0usize, 3, 7] {
        reveal_strlit("m");
        assert(quality_name_fits(s, "m"@)) by {
            assert("m"@ =~= seq!['m']);
            assert(quality_name_fits(seq![0usize, 3, 7], seq!['m']));
        }
    }
    if s == seq![0usize, 3, 6] {
        reveal_strlit("dim");
        assert(quality_name_fits(s, "dim"@)) by {
            assert("dim"@ =~= seq!['d', 'i', 'm']);
            assert(quality_name_fits(seq![0usize, 3, 6], seq!['d', 'i', 'm']));
        }
    }
    if s == seq![0usize, 7] {
        reveal_strlit("5");
        assert(quality_name_fits(s, "5"@)) by {
            assert("5"@ =~= seq!['5']);
            assert(quality_name_fits(seq![0usize, 7], seq!['5']));
        }
    }
    if s == seq![0usize, 4, 7, 11] {
        reveal_strlit("maj7");
        assert(quality_name_fits(s, "maj7"@)) by {
            assert("maj7"@ =~= seq!['m', 'a', 'j', '7']);
            assert(quality_name_fits(seq![0usize, 4, 7, 11], seq!['m', 'a', 'j', '7']));
        }
    }
    if s == seq![0usize, 3, 7, 11] {
        reveal_strlit("mmaj7");
        assert(quality_name_fits(s, "mmaj7"@)) by {
            assert("mmaj7"@ =~= seq!['m', 'm', 'a', 'j', '7']);
            assert(quality_name_fits(seq![0usize, 3, 7, 11], seq!['m', 'm', 'a', 'j', '7']));
        }
    }
}

#[verifier::spinoff_prover]
#[verifier::rlimit(100)]
proof fn lemma_suffix_intervals_part1(s: Seq<usize>)
    requires
        s == seq![0usize, 4, 7, 10] || s == seq![0usize, 3, 7, 10] || s == seq![0usize, 3, 6, 10] || s == seq![0usize, 3, 6, 9] || s == seq![0usize, 2, 7] || s == seq![0usize, 5, 7],
    ensures
        quality_name_fits(s, chord_suffix_spec(s)->0),
{
    if s == seq![0usize, 4, 7, 10] {
        reveal_strlit("7");
        assert(quality_name_fits(s, "7"@)) by {
            assert("7"@ =~= seq!['7']);
            assert(quality_name_fits(seq![0usize, 4, 7, 10], seq!['7']));
        }
    }
    if s == seq![0usize, 3, 7, 10] {
        reveal_strlit("m7");
        assert(quality_name_fits(s, "m7"@)) by {
            assert("m7"@ =~= seq!['m', '7']);
            assert(quality_name_fits(seq![0usize, 3, 7, 10], seq!['m', '7']));
        }
    }
    if s == seq![0usize, 3, 6, 10] {
        reveal_strlit("m7b5");
        assert(quality_name_fits(s, "m7b5"@)) by {
            assert("m7b5"@ =~= seq!['m', '7', 'b', '5']);
            assert(quality_name_fits(seq![0usize, 3, 6, 10], seq!['m', '7', 'b', '5']));
        }
    }
    if s == seq![0usize, 3, 6, 9] {
        reveal_strlit("dim7");
        assert(quality_name_fits(s, "dim7"@)) by {
            assert("dim7"@ =~= seq!['d', 'i', 'm', '7']);
            assert(quality_name_fits(seq![0usize, 3, 6, 9], seq!['d', 'i', 'm', '7']));
        }
    }
    if s == seq![0usize, 2, 7] {
        reveal_strlit("sus2");
        assert(quality_name_fits(s, "sus2"@)) by {
            assert("sus2"@ =~= seq!['s', 'u', 's', '2']);
            assert(quality_name_fits(seq![0usize, 2, 7], seq!['s', 'u', 's', '2']));
        }
    }
    if s == seq![0usize, 5, 7] {
        reveal_strlit("sus4");
        assert(quality_name_fits(s, "sus4"@)) by {
            assert("sus4"@ =~= seq!['s', 'u', 's', '4']);
            assert(quality_name_fits(seq![0usize, 5, 7], seq!['s', 'u', 's', '4']));
        }
    }
}

#[verifier::spinoff_prover]
#[verifier::rlimit(100)]
proof fn lemma_suffix_intervals_part2(s: Seq<usize>)
    requires
        s == seq![0usize, 4, 8] || s == seq![0usize, 4, 8, 11] || s == seq![0usize, 4, 8, 10] || s == seq![0usize, 2, 4, 7, 11] || s == seq![0usize, 2, 3, 7, 10] || s == seq![0usize, 2, 4, 7, 10],
    ensures
        quality_name_fits(s, chord_suffix_spec(s)->0),
{
    if s == seq![0usize, 4, 8] {
        reveal_strlit("aug");
        assert(quality_name_fits(s, "aug"@)) by {
            assert("aug"@ =~= seq!['a', 'u', 'g']);
            assert(quality_name_fits(seq![0usize, 4, 8], seq!['a', 'u', 'g']));
        }
    }
    if s == seq![0usize, 4, 8, 11] {
        reveal_strlit("augmaj11");
        assert(quality_name_fits(s, "augmaj11"@)) by {
            assert("augmaj11"@ =~= seq!['a', 'u', 'g', 'm', 'a', 'j', '1', '1']);
            assert(quality_name_fits(seq![0usize, 4, 8, 11], seq!['a', 'u', 'g', 'm', 'a', 'j', '1', '1']));
        }
    }
    if s == seq![0usize, 4, 8, 10] {
        reveal_strlit("aug7");
        assert(quality_name_fits(s, "aug7"@)) by {
            assert("aug7"@ =~= seq!['a', 'u', 'g', '7']);
            assert(quality_name_fits(seq![0usize, 4, 8, 10], seq!['a', 'u', 'g', '7']));
        }
    }
    if s == seq![0usize, 2, 4, 7, 11] {
        reveal_strlit("maj9");
        assert(quality_name_fits(s, "maj9"@)) by {
            assert("maj9"@ =~= seq!['m', 'a', 'j', '9']);
            assert(quality_name_fits(seq![0usize, 2, 4, 7, 11], seq!['m', 'a', 'j', '9']));
        }
    }
    if s == seq![0usize, 2, 3, 7, 10] {
        reveal_strlit("m9");
        assert(quality_name_fits(s, "m9"@)) by {
            assert("m9"@ =~= seq!['m', '9']);
            assert(quality_name_fits(seq![0usize, 2, 3, 7, 10], seq!['m', '9']));
        }
    }
    if s == seq![0usize, 2, 4, 7, 10] {
        reveal_strlit("9");
        assert(quality_name_fits(s, "9"@)) by {
            assert("9"@ =~= seq!['9']);
            assert(seq!['9'][0] == '9');
            assert(seq![0usize, 2, 4, 7, 10][1] == 2);
            assert(seq![0usize, 2, 4, 7, 10][4] == 10);
            assert(quality_name_fits(seq![0usize, 2, 4, 7, 10], seq!['9']));
        }
    }
}

#[verifier::spinoff_prover]
#[verifier::rlimit(100)]
proof fn lemma_suffix_intervals_part3(s: Seq<usize>)
    requires
        s == seq![0usize, 2, 4, 5, 7, 11] || s == seq![0usize, 2, 3, 5, 7, 10] || s == seq![0usize, 2, 4, 5, 7, 10] || s == seq![0usize, 2, 4, 5, 7, 9, 10] || s == seq![0usize, 2, 4, 7] || s == seq![0usize, 2, 3, 7],
    ensures
        quality_name_fits(s, chord_suffix_spec(s)->0),
{
    if s == seq![0usize, 2, 4, 5, 7, 11] {
        reveal_strlit("maj11");
        assert(quality_name_fits(s, "maj11"@)) by {
            assert("maj11"@ =~= seq!['m', 'a', 'j', '1', '1']);
            assert(quality_name_fits(seq![0usize, 2, 4, 5, 7, 11], seq!['m', 'a', 'j', '1', '1']));
        }
    }
    if s == seq![0usize, 2, 3, 5, 7, 10] {
        reveal_strlit("m11");
        assert(quality_name_fits(s, "m11"@)) by {
            assert("m11"@ =~= seq!['m', '1', '1']);
            assert(quality_name_fits(seq![0usize, 2, 3, 5, 7, 10], seq!['m', '1', '1']));
        }
    }
    if s == seq![0usize, 2, 4, 5, 7, 10] {
        reveal_strlit("11");
        assert(quality_name_fits(s, "11"@)) by {
            assert("11"@ =~= seq!['1', '1']);
            assert(quality_name_fits(seq![0usize, 2, 4, 5, 7, 10], seq!['1', '1']));
        }
    }
    if s == seq![0usize, 2, 4, 5, 7, 9, 10] {
        reveal_strlit("13");
        assert(quality_name_fits(s, "13"@)) by {
            assert("13"@ =~= seq!['1', '3']);
            assert(quality_name_fits(seq![0usize, 2, 4, 5, 7, 9, 10], seq!['1', '3']));
        }
    }
    if s == seq![0usize, 2, 4, 7] {
        reveal_strlit("add9");
        assert(quality_name_fits(s, "add9"@)) by {
            assert("add9"@ =~= seq!['a', 'd', 'd', '9']);
            assert(quality_name_fits(seq![0usize, 2, 4, 7], seq!['a', 'd', 'd', '9']));
        }
    }
    if s == seq![0usize, 2, 3, 7] {
        reveal_strlit("madd9");
        assert(quality_name_fits(s, "madd9"@)) by {
            assert("madd9"@ =~= seq!['m', 'a', 'd', 'd', '9']);
            assert(quality_name_fits(seq![0usize, 2, 3, 7], seq!['m', 'a', 'd', 'd', '9']));
        }
    }
}

#[verifier::spinoff_prover]
#[verifier::rlimit(100)]
proof fn lemma_suffix_intervals_part4(s: Seq<usize>)
    requires
        s == seq![0usize, 4, 5, 7] || s == seq![0usize, 3, 5, 7] || s == seq![0usize, 4, 7, 9] || s == seq![0usize, 3, 7, 9] || s == seq![0usize, 4, 5, 7, 10] || s == seq![0usize, 3, 5, 7, 10],
    ensures
        quality_name_fits(s, chord_suffix_spec(s)->0),
{
    if s == seq![0usize, 4, 5, 7] {
        reveal_strlit("add11");
        assert(quality_name_fits(s, "add11"@)) by {
            assert("add11"@ =~= seq!['a', 'd', 'd', '1', '1']);
            assert(quality_name_fits(seq![0usize, 4, 5, 7], seq!['a', 'd', 'd', '1', '1']));
        }
    }
    if s == seq![0usize, 3, 5, 7] {
        reveal_strlit("madd11");
        assert(quality_name_fits(s, "madd11"@)) by {
            assert("madd11"@ =~= seq!['m', 'a', 'd', 'd', '1', '1']);
            assert(quality_name_fits(seq![0usize, 3, 5, 7], seq!['m', 'a', 'd', 'd', '1', '1']));
        }
    }
    if s == seq![0usize, 4, 7, 9] {
        reveal_strlit("add13");
        assert(quality_name_fits(s, "add13"@)) by {
            assert("add13"@ =~= seq!['a', 'd', 'd', '1', '3']);
            assert(quality_name_fits(seq![0usize, 4, 7, 9], seq!['a', 'd', 'd', '1', '3']));
        }
    }
    if s == seq![0usize, 3, 7, 9] {
        reveal_strlit("madd13");
        assert(quality_name_fits(s, "madd13"@)) by {
            assert("madd13"@ =~= seq!['m', 'a', 'd', 'd', '1', '3']);
            assert(quality_name_fits(seq![0usize, 3, 7, 9], seq!['m', 'a', 'd', 'd', '1', '3']));
        }
    }
    if s == seq![0usize, 4, 5, 7, 10] {
        reveal_strlit("7add11");
        assert(quality_name_fits(s, "7add11"@)) by {
            assert("7add11"@ =~= seq!['7', 'a', 'd', 'd', '1', '1']);
            assert(quality_name_fits(seq![0usize, 4, 5, 7, 10], seq!['7', 'a', 'd', 'd', '1', '1']));
        }
    }
    if s == seq![0usize, 3, 5, 7, 10] {
        reveal_strlit("m7add11");
        assert(quality_name_fits(s, "m7add11"@)) by {
            assert("m7add11"@ =~= seq!['m', '7', 'a', 'd', 'd', '1', '1']);
            assert(quality_name_fits(seq![0usize, 3, 5, 7, 10], seq!['m', '7', 'a', 'd', 'd', '1', '1']));
        }
    }
}

#[verifier::spinoff_prover]
#[verifier::rlimit(100)]
proof fn lemma_suffix_intervals_part5(s: Seq<usize>)
    requires
        s == seq![0usize, 4, 5, 7, 11] || s == seq![0usize, 3, 5, 7, 11] || s == seq![0usize, 4, 7, 9, 10] || s == seq![0usize, 3, 7, 9, 10] || s == seq![0usize, 4, 7, 9, 11] || s == seq![0usize, 3, 7, 9, 11],
    ensures
        quality_name_fits(s, chord_suffix_spec(s)->0),
{
    if s == seq![0usize, 4, 5, 7, 11] {
        reveal_strlit("maj7add11");
        assert(quality_name_fits(s, "maj7add11"@)) by {
            assert("maj7add11"@ =~= seq!['m', 'a', 'j', '7', 'a', 'd', 'd', '1', '1']);
            assert(quality_name_fits(seq![0usize, 4, 5, 7, 11], seq!['m', 'a', 'j', '7', 'a', 'd', 'd', '1', '1']));
        }
    }
    if s == seq![0usize, 3, 5, 7, 11] {
        reveal_strlit("mmaj7add11");
        assert(quality_name_fits(s, "mmaj7add11"@)) by {
            assert("mmaj7add11"@ =~= seq!['m', 'm', 'a', 'j', '7', 'a', 'd', 'd', '1', '1']);
            assert(quality_name_fits(seq![0usize, 3, 5, 7, 11], seq!['m', 'm', 'a', 'j', '7', 'a', 'd', 'd', '1', '1']));
        }
    }
    if s == seq![0usize, 4, 7, 9, 10] {
        reveal_strlit("7add13");
        assert(quality_name_fits(s, "7add13"@)) by {
            assert("7add13"@ =~= seq!['7', 'a', 'd', 'd', '1', '3']);
            assert(quality_name_fits(seq![0usize, 4, 7, 9, 10], seq!['7', 'a', 'd', 'd', '1', '3']));
        }
    }
    if s == seq![0usize, 3, 7, 9, 10] {
        reveal_strlit("m7add13");
        assert(quality_name_fits(s, "m7add13"@)) by {
            assert("m7add13"@ =~= seq!['m', '7', 'a', 'd', 'd', '1', '3']);
            assert(quality_name_fits(seq![0usize, 3, 7, 9, 10], seq!['m', '7', 'a', 'd', 'd', '1', '3']));
        }
    }
    if s == seq![0usize, 4, 7, 9, 11] {
        reveal_strlit("maj7add13");
        assert(quality_name_fits(s, "maj7add13"@)) by {
            assert("maj7add13"@ =~= seq!['m', 'a', 'j', '7', 'a', 'd', 'd', '1', '3']);
            assert(quality_name_fits(seq![0usize, 4, 7, 9, 11], seq!['m', 'a', 'j', '7', 'a', 'd', 'd', '1', '3']));
        }
    }
    if s == seq![0usize, 3, 7, 9, 11] {
        reveal_strlit("mmaj7add13");
        assert(quality_name_fits(s, "mmaj7add13"@)) by {
            assert("mmaj7add13"@ =~= seq!['m', 'm', 'a', 'j', '7', 'a', 'd', 'd', '1', '3']);
            assert(quality_name_fits(seq![0usize, 3, 7, 9, 11], seq!['m', 'm', 'a', 'j', '7', 'a', 'd', 'd', '1', '3']));
        }
    }
}

/// Different lists of intervals never get the same quality name.
pub proof fn lemma_suffix_names_differ(s: Seq<usize>, t: Seq<usize>)
    requires
        chord_suffix_spec(s) is Some,
        chord_suffix_spec(s) == chord_suffix_spec(t),
    ensures
        s == t,
{
    let n = chord_suffix_spec(s)->0;
    lemma_suffix_intervals(s);
    lemma_suffix_intervals(t);
    lemma_suffix_ascending(s);
    lemma_suffix_ascending(t);
    assert forall|x: usize| s.to_set().contains(x) <==> t.to_set().contains(x) by {
        if x >= 12 {
            if s.contains(x) {
                let i = choose|i: int| 0 <= i < s.len() && s[i] == x;
                assert(s[i] < 12);
            }
            if t.contains(x) {
                let i = choose|i: int| 0 <= i < t.len() && t[i] == x;
                assert(t[i] < 12);
            }
        }
    }
    assert(s.to_set() =~= t.to_set());
    lemma_ascending_unique(s, t);
}

/// Two ascending sequences with the same elements are equal.
pub proof fn lemma_ascending_unique(s: Seq<usize>, t: Seq<usize>)
    requires
        ascending(s),
        ascending(t),
        s.to_set() == t.to_set(),
    ensures
        s == t,
    decreases s.len(),
{
    if s.len() == 0 {
        if t.len() > 0 {
            assert(t.to_set().contains(t[0]));
        }
        assert(s =~= t);
    } else {
        assert(s.to_set().contains(s[0]));
        if t.len() == 0 {
            assert(false);
        }
        assert(t.to_set().contains(t[0]));
        let i = choose|i: int| 0 <= i < s.len() && s[i] == t[0];
        let j = choose|j: int| 0 <= j < t.len() && t[j] == s[0];
        assert(s[0] == t[0]);
        let s1 = s.drop_first();
        let t1 = t.drop_first();
        assert forall|x: usize| s1.to_set().contains(x) <==> t1.to_set().contains(x) by {
            if s1.to_set().contains(x) {
                let a = choose|a: int| 0 <= a < s1.len() && s1[a] == x;
                assert(s[a + 1] == x);
                assert(t.to_set().contains(x));
                let b = choose|b: int| 0 <= b < t.len() && t[b] == x;
                assert(b != 0);
                assert(t1[b - 1] == x);
            }
            if t1.to_set().contains(x) {
                let a = choose|a: int| 0 <= a < t1.len() && t1[a] == x;
                assert(t[a + 1] == x);
                assert(s.to_set().contains(x));
                let b = choose|b: int| 0 <= b < s.len() && s[b] == x;
                assert(b != 0);
                assert(s1[b - 1] == x);
            }
        }
        assert(s1.to_set() =~= t1.to_set());
        lemma_ascending_unique(s1, t1);
        assert forall|k: int| 0 <= k < s.len() implies s[k] == t[k] by {
            if k > 0 {
                assert(s[k] == s1[k - 1]);
                assert(t[k] == t1[k - 1]);
            }
        }
        assert(s =~= t);
    }
}

/// The name of a chord made of `notes` (semitones above A, the first one
/// below 12), with the first note as root and without an alternative bass
/// note, e.g. "Am" or "Fmaj7".
pub(crate) fn find_isolated_chord_name(notes: &Vec<usize>) -> (r: Option<String>)
    requires
        notes@.len() > 0 ==> notes@[0] < SCALE_SIZE,
    ensures
        match r {
            Some(name) => isolated_chord_name_spec(notes@) == Some(name@),
            None => isolated_chord_name_spec(notes@) is None,
        },
{
    if notes.len() == 0 {
        return None;
    }
    let first = notes[0];
    let distinct = unique_values(notes);
    proof {
        notes@.lemma_remove_duplicates_properties(Seq::empty());
        lemma_remove_duplicates_distinct(notes@, Seq::empty());
        assert(notes@ + Seq::<usize>::empty() =~= notes@);
    }
    let mut shifted: Vec<usize> = Vec::new();
    let mut k: usize = 0;
    while k < distinct.len()
        invariant
            k <= distinct@.len(),
            notes@.len() > 0,
            first == notes@[0],
            first < SCALE_SIZE,
            distinct@.no_duplicates(),
            forall|x: usize| notes@.contains(x) <==> #[trigger] distinct@.contains(x),
            shifted@.len() == k,
            forall|i: int| 0 <= i < k ==> #[trigger] shifted@[i] == interval(distinct@[i], first),
        decreases distinct.len() - k,
    {
        let n = distinct[k];
        assert(distinct@.contains(distinct@[k as int]));
        assert(notes@.contains(n));
        shifted.push(sub_wrapping(n, first, SCALE_SIZE));
        k = k + 1;
    }
    let ghost unsorted = shifted@;
    let ghost distinct_intervals = intervals_distinct(notes@);
    proof {
        if distinct_intervals {
            assert(shifted@.no_duplicates()) by {
                assert forall|i: int, j: int|
                    0 <= i < shifted@.len() && 0 <= j < shifted@.len() && i != j implies shifted@[i]
                    != shifted@[j] by {
                    assert(distinct@.contains(distinct@[i]));
                    assert(distinct@.contains(distinct@[j]));
                    assert(notes@.contains(distinct@[i]));
                    assert(notes@.contains(distinct@[j]));
                    let a = choose|a: int| 0 <= a < notes@.len() && notes@[a] == distinct@[i];
                    let b = choose|b: int| 0 <= b < notes@.len() && notes@[b] == distinct@[j];
                    if shifted@[i] == shifted@[j] {
                        assert(interval(notes@[a], notes@[0]) == interval(notes@[b], notes@[0]));
                    }
                }
            }
            shifted@.lemma_multiset_has_no_duplicates();
        }
    }
    let intervals = sorted_values(shifted);
    proof {
        broadcast use vstd::seq_lib::group_to_multiset_ensures;
        broadcast use vstd::multiset::group_multiset_axioms;

        if !distinct_intervals {
            lemma_repeated_interval(notes@, distinct@, unsorted, first, intervals@);
            lemma_suffix_ascending(intervals@);
        } else {
            lemma_sorted_intervals(notes@, distinct@, unsorted, intervals@);
        }
    }
    match chord_suffix(&intervals) {
        Some(suffix) => {
            let mut name = String::from_str(find_note_name(first));
            name.append(suffix);
            Some(name)
        },
        None => None,
    }
}

/// Where two different notes give the same interval, the sorted intervals
/// repeat a value, so they are not ascending.
proof fn lemma_repeated_interval(
    notes: Seq<usize>,
    distinct: Seq<usize>,
    unsorted: Seq<usize>,
    first: usize,
    intervals: Seq<usize>,
)
    requires
        notes.len() > 0,
        first == notes[0],
        !intervals_distinct(notes),
        distinct.no_duplicates(),
        forall|x: usize| notes.contains(x) <==> #[trigger] distinct.contains(x),
        unsorted.len() == distinct.len(),
        forall|i: int| 0 <= i < distinct.len() ==> #[trigger] unsorted[i] == interval(distinct[i], first),
        intervals.to_multiset() == unsorted.to_multiset(),
    ensures
        !ascending(intervals),
{
    broadcast use vstd::seq_lib::group_to_multiset_ensures;

    let (i, j) = choose|i: int, j: int|
        0 <= i < notes.len() && 0 <= j < notes.len() && #[trigger] interval(notes[i], notes[0])
            == #[trigger] interval(notes[j], notes[0]) && notes[i] != notes[j];
    assert(notes.contains(notes[i]));
    assert(notes.contains(notes[j]));
    assert(distinct.contains(notes[i]));
    assert(distinct.contains(notes[j]));
    let a = choose|a: int| 0 <= a < distinct.len() && distinct[a] == notes[i];
    let b = choose|b: int| 0 <= b < distinct.len() && distinct[b] == notes[j];
    assert(unsorted[a] == unsorted[b]);
    if ascending(intervals) {
        assert(intervals.no_duplicates());
        intervals.lemma_multiset_has_no_duplicates();
        assert forall|x: usize| unsorted.to_multiset().contains(x) implies unsorted.to_multiset().count(x)
            == 1 by {
            assert(intervals.to_multiset().contains(x));
        }
        unsorted.lemma_multiset_has_no_duplicates_conv();
        assert(false);
    }
}

/// Where the notes give distinct intervals, the sorted intervals are
/// `chord_intervals` of the notes.
proof fn lemma_sorted_intervals(
    notes: Seq<usize>,
    distinct: Seq<usize>,
    unsorted: Seq<usize>,
    intervals: Seq<usize>,
)
    requires
        notes.len() > 0,
        unsorted.no_duplicates(),
        forall|x: usize| notes.contains(x) <==> #[trigger] distinct.contains(x),
        unsorted.len() == distinct.len(),
        forall|i: int| 0 <= i < distinct.len() ==> #[trigger] unsorted[i] == interval(distinct[i], notes[0]),
        intervals.to_multiset() == unsorted.to_multiset(),
        forall|i: int, j: int| 0 <= i <= j < intervals.len() ==> intervals[i] <= intervals[j],
    ensures
        intervals == chord_intervals(notes),
{
    broadcast use vstd::seq_lib::group_to_multiset_ensures;
    broadcast use vstd::multiset::group_multiset_axioms;

    unsorted.lemma_multiset_has_no_duplicates();
    assert forall|x: usize| intervals.to_multiset().contains(x) implies intervals.to_multiset().count(x) == 1 by {
        assert(unsorted.to_multiset().contains(x));
    }
    intervals.lemma_multiset_has_no_duplicates_conv();
    assert(ascending(intervals)) by {
        assert forall|i: int, j: int| 0 <= i < j < intervals.len() implies intervals[i]
            < intervals[j] by {
            assert(intervals[i] <= intervals[j]);
        }
    }
    assert forall|x: usize| intervals.to_set().contains(x) <==> interval_set(notes).contains(x) by {
        assert(intervals.contains(x) <==> intervals.to_multiset().count(x) > 0);
        assert(unsorted.contains(x) <==> unsorted.to_multiset().count(x) > 0);
        if unsorted.contains(x) {
            let i = choose|i: int| 0 <= i < unsorted.len() && unsorted[i] == x;
            assert(distinct.contains(distinct[i]));
            assert(notes.contains(distinct[i]));
            let j = choose|j: int| 0 <= j < notes.len() && notes[j] == distinct[i];
            assert(x == interval(notes[j], notes[0]));
        }
        if interval_set(notes).contains(x) {
            let j = choose|j: int| 0 <= j < notes.len() && x == interval(notes[j], notes[0]);
            assert(notes.contains(notes[j]));
            assert(distinct.contains(notes[j]));
            let i = choose|i: int| 0 <= i < distinct.len() && distinct[i] == notes[j];
            assert(unsorted[i] == x);
        }
    }
    assert(intervals.to_set() =~= interval_set(notes));
    lemma_ascending_unique(intervals, chord_intervals(notes));
}

/// The notes a fingering sounds, as semitones above A below 12, from the
/// lowest string up.
fn notes_of_chord(chord: &[Option<usize>; 6]) -> (r: Vec<usize>)
    requires
        fret_numbers_in_range(chord@),
    ensures
        r@ == chord_notes(chord@),
        forall|i: int| 0 <= i < r@.len() ==> #[trigger] r@[i] < SCALE_SIZE,
{
    let offsets: [usize; 6] = [7, 0, 5, 10, 2, 7];
    let mut notes: Vec<usize> = Vec::new();
    let mut i: usize = 0;
    while i < 6
        invariant
            i <= 6,
            fret_numbers_in_range(chord@),
            forall|j: int| 0 <= j < 6 ==> #[trigger] offsets@[j] == string_offset(j),
            notes@ == chord_notes(chord@.take(i as int)),
            forall|j: int| 0 <= j < notes@.len() ==> #[trigger] notes@[j] < SCALE_SIZE,
        decreases 6 - i,
    {
        assert(chord@.take(i + 1).drop_last() =~= chord@.take(i as int));
        assert(chord@.take(i + 1).last() == chord@[i as int]);
        match chord[i] {
            Some(n) => {
                assert(chord@[i as int] matches Some(m) && m + string_offset(i as int) <= usize::MAX);
                notes.push((n + offsets[i]) % SCALE_SIZE);
            },
            None => {},
        }
        i = i + 1;
    }
    assert(chord@.take(6) =~= chord@);
    notes
}

/// A name for a fingering that the chord database does not know: the chord
/// named by all its notes ("Am", "Fmaj7"), else the chord named by all notes
/// but the lowest over that bass note ("Fmaj7/C"), else `None`.
pub fn calculate_chord_name(chord: [Option<usize>; 6]) -> (r: Option<String>)
    requires
        fret_numbers_in_range(chord@),
    ensures
        match r {
            Some(name) => chord_name_spec(chord@) == Some(name@),
            None => chord_name_spec(chord@) is None,
        },
{
    let notes = notes_of_chord(&chord);
    if let Some(name) = find_isolated_chord_name(&notes) {
        return Some(name);
    }
    if notes.len() == 0 {
        return None;
    }
    let mut rest: Vec<usize> = Vec::new();
    let mut i: usize = 1;
    while i < notes.len()
        invariant
            1 <= i <= notes@.len(),
            rest@ == notes@.subrange(1, i as int),
        decreases notes.len() - i,
    {
        rest.push(notes[i]);
        i = i + 1;
        assert(rest@ =~= notes@.subrange(1, i as int));
    }
    assert(rest@ =~= notes@.drop_first());
    if let Some(name) = find_isolated_chord_name(&rest) {
        let bass_note = find_note_name(notes[0]);
        let mut full = name;
        full.append("/");
        full.append(bass_note);
        return Some(full);
    }
    None
}

} // verus!
